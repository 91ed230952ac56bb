use pond::Pond;

fn ticks(p: &mut Pond, k: usize) {
    for _ in 0..k {
        p.tick();
    }
}

fn lifetime(mag: u16, freq: u16) -> usize {
    let mut p = Pond::new(100, 100);
    p.add_droplet(5, 5, mag, 0x00FF00, freq);
    let mut k = 0;
    while p.droplet_count() > 0 {
        p.tick();
        k += 1;
        assert!(k < 100_000);
    }
    k
}

fn assert_consistent(p: &Pond) {
    let sum: u32 = p.ripple_counts().iter().sum();
    assert_eq!(p.total_ripples(), sum);
    assert_eq!(p.ripple_mags().len(), p.total_ripples() as usize);
    assert_eq!(p.ripple_max_mags().len(), p.total_ripples() as usize);
    assert_eq!(p.ripple_counts().len(), p.droplet_count() as usize);
    for (m, max) in p.ripple_mags().iter().zip(p.ripple_max_mags()) {
        assert!(m <= max);
    }
}

#[test]
fn new_pond_is_empty() {
    let p = Pond::new(10, 20);
    assert_eq!(p.droplet_count(), 0);
    assert_eq!(p.total_ripples(), 0);
    assert!(p.droplet_xs().is_empty());
    assert!(p.ripple_mags().is_empty());
}

#[test]
fn add_droplet_appends_attributes() {
    let mut p = Pond::new(100, 50);
    p.add_droplet(3, 4, 7, 0x123456, 9);
    p.add_droplet(99, 49, 1, 0xABCDEF, 0);
    assert_eq!(p.droplet_count(), 2);
    assert_eq!(p.droplet_xs(), &[3, 99]);
    assert_eq!(p.droplet_ys(), &[4, 49]);
    assert_eq!(p.droplet_colors(), &[0x123456, 0xABCDEF]);
    assert_eq!(p.ripple_counts(), &[0, 0]);
    assert_eq!(p.total_ripples(), 0);
}

#[test]
fn rejected_droplets_never_appear() {
    let mut p = Pond::new(100, 50);
    p.add_droplet(100, 10, 3, 1, 1);
    p.add_droplet(10, 50, 3, 1, 1);
    p.add_droplet(10, 10, 0, 1, 1);
    p.add_droplet(u16::MAX, u16::MAX, u16::MAX, 1, 1);
    assert_eq!(p.droplet_count(), 0);
    assert!(p.droplet_xs().is_empty());
    p.tick();
    assert_eq!(p.droplet_count(), 0);
    assert_eq!(p.total_ripples(), 0);
}

#[test]
fn first_tick_spawns_a_ripple() {
    let mut p = Pond::new(100, 100);
    p.add_droplet(5, 5, 4, 0xFF0000, 3);
    p.tick();
    assert_eq!(p.droplet_count(), 1);
    assert_eq!(p.ripple_mags(), &[0]);
    assert_eq!(p.ripple_max_mags(), &[4]);
    assert_eq!(p.ripple_counts(), &[1]);
    assert_eq!(p.total_ripples(), 1);
}

#[test]
fn scenario_magnitude_two_frequency_two() {
    let mut p = Pond::new(100, 100);
    p.add_droplet(5, 5, 2, 0xFF0000, 2);
    p.tick();
    assert_eq!(p.droplet_count(), 1);
    assert_eq!(p.ripple_mags(), &[0]);
    assert_eq!(p.ripple_max_mags(), &[2]);
    p.tick();
    assert_eq!(p.ripple_mags(), &[1]);
    p.tick();
    assert_eq!(p.ripple_mags(), &[2]);
    assert_eq!(p.ripple_max_mags(), &[2]);
    // The first ripple passes its maximum; the countdown has reached 0, so the
    // droplet spawns its last ripple, of magnitude 1, in the same tick.
    p.tick();
    assert_eq!(p.droplet_count(), 1);
    assert_eq!(p.ripple_mags(), &[0]);
    assert_eq!(p.ripple_max_mags(), &[1]);
    p.tick();
    assert_eq!(p.ripple_mags(), &[1]);
    // The last ripple passes its maximum while the countdown is nonzero:
    // the droplet goes with it.
    p.tick();
    assert_eq!(p.total_ripples(), 0);
    assert!(p.ripple_mags().is_empty());
    assert_eq!(p.droplet_count(), 0);
}

#[test]
fn droplet_lifetimes() {
    assert_eq!(lifetime(1, 2), 3);
    assert_eq!(lifetime(2, 2), 6);
    assert_eq!(lifetime(3, 7), 5);
    assert_eq!(lifetime(5, 10), 7);
    assert_eq!(lifetime(4, 3), 12);
    assert_eq!(lifetime(3, 1), 7);
}

#[test]
fn exhausted_droplet_with_frequency_zero_does_not_underflow() {
    assert_eq!(lifetime(1, 0), 3);
    assert_eq!(lifetime(3, 0), 5);
    assert_eq!(lifetime(u16::MAX, 0), u16::MAX as usize + 2);
}

#[test]
fn largest_ripple_grows_to_its_maximum() {
    let mut p = Pond::new(1, 1);
    p.add_droplet(0, 0, u16::MAX, 7, u16::MAX);
    p.tick();
    ticks(&mut p, u16::MAX as usize);
    assert_eq!(p.ripple_mags(), &[u16::MAX]);
    assert_eq!(p.ripple_max_mags(), &[u16::MAX]);
    // The ripple passes its maximum just as the countdown reaches 0.
    p.tick();
    assert_eq!(p.droplet_count(), 1);
    assert_eq!(p.ripple_mags(), &[0]);
    assert_eq!(p.ripple_max_mags(), &[u16::MAX - 1]);
}

#[test]
fn magnitudes_grow_by_one_each_tick() {
    let mut p = Pond::new(100, 100);
    p.add_droplet(1, 1, 6, 1, 1);
    p.add_droplet(2, 2, 3, 2, 0);
    p.tick();
    for _ in 0..30 {
        let before: Vec<(u16, u16)> = p
            .ripple_mags()
            .iter()
            .copied()
            .zip(p.ripple_max_mags().iter().copied())
            .collect();
        p.tick();
        for (m, max) in p.ripple_mags().iter().zip(p.ripple_max_mags()) {
            assert!(*m == 0 || before.iter().any(|(bm, bmax)| bm + 1 == *m && bmax == max));
        }
        assert_consistent(&p);
    }
}

#[test]
fn counts_total_and_store_agree() {
    let mut p = Pond::new(100, 100);
    p.add_droplet(1, 1, 5, 1, 1);
    p.add_droplet(2, 2, 9, 2, 4);
    p.add_droplet(3, 3, 2, 3, 0);
    for k in 0..40 {
        if k == 7 {
            p.add_droplet(4, 4, 3, 4, 2);
        }
        p.tick();
        assert_consistent(&p);
    }
    assert_eq!(p.droplet_count(), 0);
}

#[test]
fn ripples_are_grouped_by_droplet() {
    let mut p = Pond::new(100, 100);
    p.add_droplet(1, 1, 5, 1, 0);
    p.add_droplet(2, 2, 9, 2, 0);
    ticks(&mut p, 3);
    assert_eq!(p.ripple_counts(), &[3, 3]);
    assert_eq!(p.ripple_mags(), &[2, 1, 0, 2, 1, 0]);
    assert_eq!(p.ripple_max_mags(), &[5, 4, 3, 9, 8, 7]);
}

#[test]
fn removal_shifts_later_droplets() {
    let mut p = Pond::new(100, 100);
    p.add_droplet(1, 1, 1, 0x111111, 5);
    p.add_droplet(2, 2, 4, 0x222222, 1);
    ticks(&mut p, 3);
    assert_eq!(p.droplet_count(), 1);
    assert_eq!(p.droplet_xs(), &[2]);
    assert_eq!(p.droplet_colors(), &[0x222222]);
    assert_consistent(&p);
}

#[test]
fn paused_ticks_change_nothing() {
    let mut p = Pond::new(100, 100);
    p.add_droplet(1, 1, 5, 1, 1);
    p.add_droplet(2, 2, 3, 2, 0);
    ticks(&mut p, 3);
    let snapshot = (
        p.droplet_xs().to_vec(),
        p.droplet_ys().to_vec(),
        p.droplet_colors().to_vec(),
        p.ripple_mags().to_vec(),
        p.ripple_max_mags().to_vec(),
        p.ripple_counts().to_vec(),
        p.total_ripples(),
    );
    p.toggle_pause();
    ticks(&mut p, 10);
    let after = (
        p.droplet_xs().to_vec(),
        p.droplet_ys().to_vec(),
        p.droplet_colors().to_vec(),
        p.ripple_mags().to_vec(),
        p.ripple_max_mags().to_vec(),
        p.ripple_counts().to_vec(),
        p.total_ripples(),
    );
    assert_eq!(snapshot, after);
    p.toggle_pause();
    p.tick();
    assert_ne!(p.ripple_mags().to_vec(), snapshot.3);
}

#[test]
fn paused_pond_still_takes_droplets() {
    let mut p = Pond::new(100, 100);
    p.toggle_pause();
    p.add_droplet(1, 1, 2, 1, 1);
    p.tick();
    assert_eq!(p.droplet_count(), 1);
    assert_eq!(p.total_ripples(), 0);
    p.toggle_pause();
    p.tick();
    assert_eq!(p.total_ripples(), 1);
}

#[test]
fn lifetime_follows_closed_form() {
    for m in 1u16..=12 {
        for f in 0u16..=15 {
            let m64 = m as usize;
            let f64 = f as usize;
            let i = if f64 <= 2 {
                m64 - 1
            } else if f64 >= m64 + 1 {
                0
            } else {
                m64 + 1 - f64
            };
            assert_eq!(lifetime(m, f), m64 + 2 + f64 * i, "m={} f={}", m, f);
        }
    }
}
