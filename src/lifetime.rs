use vstd::prelude::*;

use crate::model::{
    Color, Coordinate, Droplet, DropletStrength, PondView, Ripple, RippleCtr, accepted, add_view,
    advanced, aged, empty_view, fresh, lemma_aged_push, renewed, tick_view, ticked,
    ticks, total,
};

verus! {

/// The `len` ripples of a droplet that spawns every `f + 1` ticks, oldest first: the newest
/// has magnitude `mag` and maximum `max`; each older one is `f + 1` larger and 1 stronger.
pub open spec fn wave(mag: nat, max: nat, len: nat, f: nat) -> Seq<Ripple>
    decreases len,
{
    if len == 0 {
        seq![]
    } else {
        wave(mag + f + 1, max + 1, (len - 1) as nat, f).push(
            Ripple { mag: mag as DropletStrength, max_mag: max as DropletStrength },
        )
    }
}

/// Every ripple of the wave is within its maximum, and every maximum fits its storage.
pub open spec fn wave_ok(mag: nat, max: nat, len: nat, f: nat) -> bool
    decreases len,
{
    len == 0 || (mag <= max && max <= u16::MAX && wave_ok(
        mag + f + 1,
        max + 1,
        (len - 1) as nat,
        f,
    ))
}

/// How many ripples of the wave survive a tick: the newest ones, up to the first that dies.
pub open spec fn survivors(mag: nat, max: nat, len: nat, f: nat) -> nat
    decreases len,
{
    if len == 0 {
        0
    } else if mag + 1 <= max {
        survivors(mag + f + 1, max + 1, (len - 1) as nat, f) + 1
    } else {
        0
    }
}

proof fn lemma_wave_len(mag: nat, max: nat, len: nat, f: nat)
    requires
        wave_ok(mag, max, len, f),
    ensures
        wave(mag, max, len, f).len() == len,
        len > 0 ==> max + len <= u16::MAX + 1,
    decreases len,
{
    if len > 0 {
        lemma_wave_len(mag + f + 1, max + 1, (len - 1) as nat, f);
    }
}

/// A wave whose newest ripple dies in this tick dies whole.
proof fn lemma_wave_dies(mag: nat, max: nat, len: nat, f: nat)
    requires
        wave_ok(mag, max, len, f),
        max < mag + 1,
    ensures
        aged(wave(mag, max, len, f)) == Seq::<Ripple>::empty(),
    decreases len,
{
    reveal(Seq::filter);
    if len == 0 {
        assert(aged(wave(mag, max, len, f)) =~= Seq::<Ripple>::empty());
    } else {
        let older = wave(mag + f + 1, max + 1, (len - 1) as nat, f);
        let newest = Ripple { mag: mag as DropletStrength, max_mag: max as DropletStrength };
        lemma_wave_dies(mag + f + 1, max + 1, (len - 1) as nat, f);
        lemma_aged_push(older, newest);
    }
}

/// Aging a wave leaves its survivors as a wave grown by one.
proof fn lemma_wave_ages(mag: nat, max: nat, len: nat, f: nat)
    requires
        wave_ok(mag, max, len, f),
    ensures
        aged(wave(mag, max, len, f)) == wave(mag + 1, max, survivors(mag, max, len, f), f),
        wave_ok(mag + 1, max, survivors(mag, max, len, f), f),
    decreases len,
{
    reveal(Seq::filter);
    if len == 0 {
        assert(aged(wave(mag, max, len, f)) =~= Seq::<Ripple>::empty());
    } else {
        let older = wave(mag + f + 1, max + 1, (len - 1) as nat, f);
        let newest = Ripple { mag: mag as DropletStrength, max_mag: max as DropletStrength };
        lemma_aged_push(older, newest);
        if mag + 1 <= max {
            lemma_wave_ages(mag + f + 1, max + 1, (len - 1) as nat, f);
            assert(mag + 1 + f + 1 == mag + f + 1 + 1);
        } else {
            lemma_wave_dies(mag + f + 1, max + 1, (len - 1) as nat, f);
        }
    }
}

/// The state of the pond of one droplet, placed as `base` at tick 0, once it has made `s`
/// spawns, the newest `j` ticks ago, and holds `len` live ripples.
pub open spec fn in_phase(v: PondView, base: Droplet, s: nat, j: nat, len: nat) -> bool {
    let m = base.next_mag as nat;
    let f = base.freq as nat;
    let top = (m - s + 1) as nat;
    &&& !v.paused
    &&& 1 <= s <= m
    &&& 1 <= len
    &&& j <= top
    &&& (s < m ==> j <= f)
    &&& v.droplets == seq![
        Droplet {
            next_mag: (m - s) as DropletStrength,
            countdown: (if j <= f {
                f - j
            } else {
                0
            }) as RippleCtr,
            ripple_count: len as u32,
            ..base
        },
    ]
    &&& v.ripples == wave(j, top, len, f)
    &&& wave_ok(j, top, len, f)
    &&& v.total_ripples == len
}

/// One tick of a pond that holds a single droplet.
proof fn lemma_tick_single(v: PondView)
    requires
        v.droplets.len() == 1,
        v.ripples.len() == v.droplets[0].ripple_count,
        !v.paused,
    ensures
        tick_view(v).droplets == (match advanced(v.droplets[0], aged(v.ripples).len()) {
            Some(e) => seq![e],
            None => Seq::<Droplet>::empty(),
        }),
        tick_view(v).ripples == renewed(v.droplets[0], v.ripples),
        !tick_view(v).paused,
{
    let ds = v.droplets;
    assert(ds.drop_last() =~= Seq::<Droplet>::empty());
    assert(ds.take(0) =~= Seq::<Droplet>::empty());
    assert(total(ds.take(0)) == 0);
    assert(ticked(ds.drop_last(), v.ripples) == (Seq::<Droplet>::empty(), Seq::<Ripple>::empty()));
    assert(crate::model::ripples_of(ds, v.ripples, 0) =~= v.ripples);
    assert(v.ripples.subrange(0, ds[0].ripple_count as int) =~= v.ripples);
    assert(Seq::<Ripple>::empty() + renewed(ds[0], v.ripples) =~= renewed(ds[0], v.ripples));
    assert(Seq::<Droplet>::empty().push(ds[0]) =~= seq![ds[0]]);
    match advanced(ds[0], aged(v.ripples).len()) {
        Some(e) => {
            assert(Seq::<Droplet>::empty().push(e) =~= seq![e]);
        },
        None => {},
    }
}

proof fn lemma_total_single(d: Droplet)
    ensures
        total(seq![d]) == d.ripple_count,
{
    assert(seq![d].drop_last() =~= Seq::<Droplet>::empty());
    assert(total(Seq::<Droplet>::empty()) == 0);
}

/// A pond without droplets stays without droplets and ripples.
proof fn lemma_empty_stays(v: PondView, k: nat)
    requires
        v.droplets.len() == 0,
    ensures
        ticks(v, k).droplets.len() == 0,
    decreases k,
{
    if k > 0 {
        lemma_empty_stays(v, (k - 1) as nat);
        let u = ticks(v, (k - 1) as nat);
        if !u.paused {
            assert(u.droplets =~= Seq::<Droplet>::empty());
        }
    }
}

/// Taking the first of `k + 1` ticks apart from the other `k`.
proof fn lemma_ticks_first(v: PondView, k: nat)
    ensures
        ticks(v, k + 1) == ticks(tick_view(v), k),
    decreases k,
{
    assert(ticks(v, 1) == tick_view(ticks(v, 0)));
    if k > 0 {
        lemma_ticks_first(v, (k - 1) as nat);
        assert(ticks(v, k + 1) == tick_view(ticks(v, k)));
        assert(ticks(tick_view(v), k) == tick_view(ticks(tick_view(v), (k - 1) as nat)));
    }
}

/// One tick from a phase: the droplet spawns when its countdown has run out and strength
/// is left, is removed when its newest ripple dies without a spawn, and waits otherwise.
proof fn lemma_phase_step(v: PondView, base: Droplet, s: nat, j: nat, len: nat)
    requires
        in_phase(v, base, s, j, len),
    ensures
        ({
            let m = base.next_mag as nat;
            let f = base.freq as nat;
            let top = (m - s + 1) as nat;
            let c = survivors(j, top, len, f);
            &&& (j == f && s < m) ==> in_phase(tick_view(v), base, s + 1, 0, c + 1)
            &&& (!(j == f && s < m) && j == top) ==> tick_view(v).droplets.len() == 0
            &&& (!(j == f && s < m) && j < top) ==> in_phase(tick_view(v), base, s, j + 1, c)
        }),
{
    let m = base.next_mag as nat;
    let f = base.freq as nat;
    let top = (m - s + 1) as nat;
    let c = survivors(j, top, len, f);
    lemma_wave_len(j, top, len, f);
    lemma_tick_single(v);
    lemma_wave_ages(j, top, len, f);
    lemma_wave_len(j + 1, top, c, f);
    let d = v.droplets[0];
    let w = tick_view(v);
    assert(aged(v.ripples).len() == c);
    if j == f && s < m {
        let e = Droplet {
            next_mag: (m - (s + 1)) as DropletStrength,
            countdown: f as RippleCtr,
            ripple_count: (c + 1) as u32,
            ..base
        };
        assert(advanced(d, c) == Some(e));
        lemma_total_single(e);
        assert(wave(0, (m - (s + 1) + 1) as nat, c + 1, f) =~= wave(j + 1, top, c, f).push(
            crate::model::spawned(d),
        ));
        assert(in_phase(w, base, s + 1, 0, c + 1));
    } else if j < top {
        assert(c >= 1);
        let e = Droplet {
            countdown: (if j + 1 <= f {
                f - (j + 1)
            } else {
                0
            }) as RippleCtr,
            ripple_count: c as u32,
            ..d
        };
        assert(advanced(d, c) == Some(e));
        lemma_total_single(e);
        assert(in_phase(w, base, s, j + 1, c));
    } else {
        assert(c == 0);
    }
}

/// The number of ticks, counted from a phase, until the droplet is removed.
pub open spec fn life_from(m: nat, f: nat, s: nat, j: nat) -> nat
    decreases m - s, m - s + 1 - j,
{
    if j == f && s < m {
        1 + life_from(m, f, s + 1, 0)
    } else if j >= m - s + 1 {
        1
    } else {
        1 + life_from(m, f, s, j + 1)
    }
}

/// From a phase, the droplet is present exactly until `life_from` ticks have passed.
proof fn lemma_phase_life(v: PondView, base: Droplet, s: nat, j: nat, len: nat, k: nat)
    requires
        in_phase(v, base, s, j, len),
    ensures
        ticks(v, k).droplets.len() == (if k < life_from(
            base.next_mag as nat,
            base.freq as nat,
            s,
            j,
        ) {
            1int
        } else {
            0int
        }),
    decreases k,
{
    let m = base.next_mag as nat;
    let f = base.freq as nat;
    let top = (m - s + 1) as nat;
    let c = survivors(j, top, len, f);
    if k > 0 {
        let k1 = (k - 1) as nat;
        lemma_ticks_first(v, k1);
        lemma_phase_step(v, base, s, j, len);
        if j == f && s < m {
            lemma_phase_life(tick_view(v), base, s + 1, 0, c + 1, k1);
        } else if j == top {
            lemma_empty_stays(tick_view(v), k1);
        } else {
            lemma_phase_life(tick_view(v), base, s, j + 1, c, k1);
        }
    }
}

/// Within one phase the droplet waits for its next spawn, or for its newest ripple to die.
proof fn lemma_life_in_phase(m: nat, f: nat, s: nat, j: nat)
    requires
        1 <= s <= m,
        j <= m - s + 1,
        s < m && f <= m - s + 1 ==> j <= f,
    ensures
        life_from(m, f, s, j) == (if s < m && f <= m - s + 1 {
            f - j + 1 + life_from(m, f, s + 1, 0)
        } else {
            m - s + 1 - j + 1
        }),
    decreases m - s + 1 - j,
{
    if !(j == f && s < m) && j < m - s + 1 {
        lemma_life_in_phase(m, f, s, j + 1);
    }
}

/// The first phase from `s` on in which the droplet is removed rather than spawning again.
pub open spec fn last_phase(m: nat, f: nat, s: nat) -> int {
    let t = if s >= m + 2 - f {
        s as int
    } else {
        m + 2 - f
    };
    if t <= m {
        t
    } else {
        m as int
    }
}

/// Ticks until removal from the start of phase `s`, in closed form.
proof fn lemma_life_closed(m: nat, f: nat, s: nat)
    requires
        1 <= s <= m,
    ensures
        life_from(m, f, s, 0) == (last_phase(m, f, s) - s) * (f + 1) + m - last_phase(m, f, s)
            + 2,
    decreases m - s,
{
    let t = last_phase(m, f, s);
    lemma_life_in_phase(m, f, s, 0);
    if s < m && f <= m - s + 1 {
        lemma_life_closed(m, f, s + 1);
        assert(last_phase(m, f, s + 1) == t);
        let a = t - s;
        assert(a * (f + 1) == (a - 1) * (f + 1) + (f + 1)) by (nonlinear_arith);
        assert(life_from(m, f, s, 0) == f + 1 + life_from(m, f, s + 1, 0));
    } else {
        assert(t == s);
        assert((t - s) * (f + 1) == 0) by (nonlinear_arith)
            requires
                t == s,
        ;
    }
}

/// The number of ticks after which a droplet of strength `m` and frequency `f` is removed:
/// it spawns every `f + 1` ticks, and is removed once its newest ripple dies without a new
/// spawn, which happens after `i` further spawns, with `i` as below.
pub open spec fn lifetime(m: nat, f: nat) -> nat {
    let i: nat = if f <= 2 {
        (m - 1) as nat
    } else if f >= m + 1 {
        0
    } else {
        (m + 1 - f) as nat
    };
    m + 2 + f * i
}

/// A droplet of strength `m >= 1` and frequency `f`, placed alone on a pond at tick 0, is
/// on the pond after `k` ticks exactly when `k < lifetime(m, f)`.
pub proof fn law_droplet_lifetime(
    width: Coordinate,
    height: Coordinate,
    x: Coordinate,
    y: Coordinate,
    m: DropletStrength,
    color: Color,
    f: RippleCtr,
    k: nat,
)
    requires
        accepted(width, height, x, y, m),
    ensures
        ticks(add_view(empty_view(width, height), x, y, m, color, f), k).droplets.len() == (if k
            < lifetime(m as nat, f as nat) {
            1int
        } else {
            0int
        }),
{
    let v = add_view(empty_view(width, height), x, y, m, color, f);
    let base = fresh(x, y, m, color, f);
    assert(v.droplets == seq![base]);
    let mm = m as nat;
    let ff = f as nat;
    if k > 0 {
        let k1 = (k - 1) as nat;
        lemma_ticks_first(v, k1);
        // The first tick spawns the first ripple.
        lemma_tick_single(v);
        reveal(Seq::filter);
        assert(aged(v.ripples) =~= Seq::<Ripple>::empty());
        let e = Droplet { next_mag: (mm - 1) as DropletStrength, countdown: f, ripple_count: 1, ..base };
        assert(advanced(base, 0) == Some(e));
        lemma_total_single(e);
        assert(wave(ff + 1, mm + 1, 0, ff) == Seq::<Ripple>::empty());
        assert(wave_ok(ff + 1, mm + 1, 0, ff));
        assert(wave(0, mm, 1, ff) =~= Seq::<Ripple>::empty().push(crate::model::spawned(base)));
        assert(wave_ok(0, mm, 1, ff));
        assert(in_phase(tick_view(v), base, 1, 0, 1));
        lemma_phase_life(tick_view(v), base, 1, 0, 1, k1);
        lemma_life_closed(mm, ff, 1);
        let t = last_phase(mm, ff, 1);
        let i = t - 1;
        assert(i * (ff + 1) == i * ff + i) by (nonlinear_arith);
        assert(ff * i == i * ff) by (nonlinear_arith);
        assert(i == (if ff <= 2 {
            mm - 1
        } else if ff >= mm + 1 {
            0
        } else {
            mm + 1 - ff
        }));
        assert(1 + life_from(mm, ff, 1, 0) == lifetime(mm, ff));
    }
}

} // verus!
