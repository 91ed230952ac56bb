use vstd::prelude::*;

verus! {

/// A horizontal or vertical position on the pond.
pub type Coordinate = u16;

/// A ripple radius, or the strength left in a droplet.
pub type DropletStrength = u16;

/// An RGB color; only the lower 24 bits are meaningful.
pub type Color = u32;

/// A tick counter for the spawning schedule of a droplet.
pub type RippleCtr = u16;

/// One droplet: the attributes held at one index of the droplet arrays.
pub struct Droplet {
    pub x: Coordinate,
    pub y: Coordinate,
    /// Maximum radius of the next ripple this droplet spawns.
    pub next_mag: DropletStrength,
    /// Ticks between the spawning of two ripples.
    pub freq: RippleCtr,
    /// Counts down from `freq` to 0; a ripple is spawned at 0.
    pub countdown: RippleCtr,
    pub color: Color,
    /// Number of live ripples this droplet owns in the flattened ripple store.
    pub ripple_count: u32,
}

/// One ripple: the attributes held at one index of the ripple arrays.
pub struct Ripple {
    pub mag: DropletStrength,
    pub max_mag: DropletStrength,
}

/// The whole observable state of a pond.
pub struct PondView {
    pub width: Coordinate,
    pub height: Coordinate,
    pub paused: bool,
    pub droplets: Seq<Droplet>,
    /// The ripples of all droplets, those of droplet 0 first, then those of droplet 1, ...
    pub ripples: Seq<Ripple>,
    pub total_ripples: u32,
}

/// Sum of the live-ripple counts of `ds`.
pub open spec fn total(ds: Seq<Droplet>) -> nat
    decreases ds.len(),
{
    if ds.len() == 0 {
        0
    } else {
        total(ds.drop_last()) + ds.last().ripple_count as nat
    }
}

/// Whether a ripple is still within its maximum radius after growing by one.
pub open spec fn survives(r: Ripple) -> bool {
    r.mag + 1 <= r.max_mag
}

/// A ripple grown by one.
pub open spec fn grown(r: Ripple) -> Ripple {
    Ripple { mag: (r.mag + 1) as DropletStrength, max_mag: r.max_mag }
}

/// The ripples that are kept by a tick, each grown by one, in their order.
pub open spec fn aged(rs: Seq<Ripple>) -> Seq<Ripple> {
    rs.filter(|r: Ripple| survives(r)).map_values(|r: Ripple| grown(r))
}

/// Whether a droplet spawns a ripple on the next tick: its countdown has run out and it
/// has strength left (the spawn that leaves it at 0 is its last).
pub open spec fn spawns(d: Droplet) -> bool {
    d.countdown == 0 && d.next_mag > 0
}

/// The ripple that `d` spawns.
pub open spec fn spawned(d: Droplet) -> Ripple {
    Ripple { mag: 0, max_mag: d.next_mag }
}

/// The droplet after a tick in which `live` of its ripples survived; `None` when it is extinct.
pub open spec fn advanced(d: Droplet, live: nat) -> Option<Droplet> {
    if spawns(d) {
        Some(
            Droplet {
                next_mag: (d.next_mag - 1) as DropletStrength,
                countdown: d.freq,
                ripple_count: (live + 1) as u32,
                ..d
            },
        )
    } else if live == 0 {
        None
    } else if d.countdown > 0 {
        Some(
            Droplet { countdown: (d.countdown - 1) as RippleCtr, ripple_count: live as u32, ..d },
        )
    } else {
        Some(Droplet { ripple_count: live as u32, ..d })
    }
}

/// The ripples of a droplet after a tick, given those it held before.
pub open spec fn renewed(d: Droplet, mine: Seq<Ripple>) -> Seq<Ripple> {
    if spawns(d) {
        aged(mine).push(spawned(d))
    } else {
        aged(mine)
    }
}

/// The ripples of droplet `i`: the range of `rs` after the ripples of droplets `0..i`.
pub open spec fn ripples_of(ds: Seq<Droplet>, rs: Seq<Ripple>, i: int) -> Seq<Ripple> {
    rs.subrange(total(ds.take(i)) as int, total(ds.take(i)) + ds[i].ripple_count)
}

/// One tick over the droplets `ds` whose ripples are flattened in `rs`:
/// the droplets that remain and the rebuilt ripple store.
pub open spec fn ticked(ds: Seq<Droplet>, rs: Seq<Ripple>) -> (Seq<Droplet>, Seq<Ripple>)
    decreases ds.len(),
{
    if ds.len() == 0 {
        (seq![], seq![])
    } else {
        let (pd, pr) = ticked(ds.drop_last(), rs);
        let d = ds.last();
        let mine = ripples_of(ds, rs, ds.len() - 1);
        let nd = match advanced(d, aged(mine).len()) {
            Some(e) => pd.push(e),
            None => pd,
        };
        (nd, pr + renewed(d, mine))
    }
}

/// The pond after one tick.
pub open spec fn tick_view(v: PondView) -> PondView {
    if v.paused {
        v
    } else {
        let (ds, rs) = ticked(v.droplets, v.ripples);
        PondView { droplets: ds, ripples: rs, total_ripples: total(ds) as u32, ..v }
    }
}

/// The pond after `k` ticks.
pub open spec fn ticks(v: PondView, k: nat) -> PondView
    decreases k,
{
    if k == 0 {
        v
    } else {
        tick_view(ticks(v, (k - 1) as nat))
    }
}

/// Whether a droplet with these attributes is accepted by a pond of the given bounds.
pub open spec fn accepted(
    width: Coordinate,
    height: Coordinate,
    x: Coordinate,
    y: Coordinate,
    mag: DropletStrength,
) -> bool {
    x < width && y < height && mag > 0
}

/// A freshly placed droplet: it spawns its first ripple on the next tick.
pub open spec fn fresh(
    x: Coordinate,
    y: Coordinate,
    mag: DropletStrength,
    color: Color,
    freq: RippleCtr,
) -> Droplet {
    Droplet { x, y, next_mag: mag, freq, countdown: 0, color, ripple_count: 0 }
}

/// The pond after a request to place a droplet.
pub open spec fn add_view(
    v: PondView,
    x: Coordinate,
    y: Coordinate,
    mag: DropletStrength,
    color: Color,
    freq: RippleCtr,
) -> PondView {
    if accepted(v.width, v.height, x, y, mag) {
        PondView { droplets: v.droplets.push(fresh(x, y, mag, color, freq)), ..v }
    } else {
        v
    }
}

/// A pond without droplets or ripples.
pub open spec fn empty_view(width: Coordinate, height: Coordinate) -> PondView {
    PondView { width, height, paused: false, droplets: seq![], ripples: seq![], total_ripples: 0 }
}

/// No ripple has grown past its maximum radius.
pub open spec fn within_bounds(rs: Seq<Ripple>) -> bool {
    forall|i: int| 0 <= i < rs.len() ==> #[trigger] rs[i].mag <= rs[i].max_mag
}

/// The consistency of a pond: the ripple store is partitioned by the droplets' counts,
/// the aggregate total matches it, and no ripple is past its maximum radius.
pub open spec fn consistent(v: PondView) -> bool {
    &&& v.ripples.len() == total(v.droplets)
    &&& v.total_ripples as nat == total(v.droplets)
    &&& within_bounds(v.ripples)
}

/// The counters of a tick fit their 32-bit storage: each droplet adds at most one ripple.
pub open spec fn tick_fits(v: PondView) -> bool {
    total(v.droplets) + v.droplets.len() <= u32::MAX
}

/// Adding the count of droplet `i` to the total of the droplets before it.
pub proof fn lemma_total_step(ds: Seq<Droplet>, i: int)
    requires
        0 <= i < ds.len(),
    ensures
        total(ds.take(i + 1)) == total(ds.take(i)) + ds[i].ripple_count,
{
    assert(ds.take(i + 1).drop_last() =~= ds.take(i));
}

/// The total of a prefix never exceeds the total of the whole.
pub proof fn lemma_total_prefix(ds: Seq<Droplet>, i: int)
    requires
        0 <= i <= ds.len(),
    ensures
        total(ds.take(i)) <= total(ds),
    decreases ds.len() - i,
{
    if i < ds.len() {
        lemma_total_step(ds, i);
        lemma_total_prefix(ds, i + 1);
    } else {
        assert(ds.take(i) =~= ds);
    }
}

/// The total after pushing one droplet.
pub proof fn lemma_total_push(ds: Seq<Droplet>, d: Droplet)
    ensures
        total(ds.push(d)) == total(ds) + d.ripple_count,
{
    assert(ds.push(d).drop_last() =~= ds);
}

/// Aging a store that ends in `r`: `r` is kept, grown, exactly when it survives.
pub proof fn lemma_aged_push(rs: Seq<Ripple>, r: Ripple)
    ensures
        aged(rs.push(r)) == (if survives(r) {
            aged(rs).push(grown(r))
        } else {
            aged(rs)
        }),
{
    let p = |q: Ripple| survives(q);
    reveal(Seq::filter);
    assert(rs.push(r).drop_last() =~= rs);
    assert(rs.push(r).filter(p) == (if survives(r) {
        rs.filter(p).push(r)
    } else {
        rs.filter(p)
    }));
    assert(aged(rs.push(r)) =~= (if survives(r) {
        aged(rs).push(grown(r))
    } else {
        aged(rs)
    }));
}

/// Aging never adds ripples, and every aged ripple is within its maximum radius.
pub proof fn lemma_aged_bounds(rs: Seq<Ripple>)
    ensures
        aged(rs).len() <= rs.len(),
        within_bounds(aged(rs)),
{
    let p = |q: Ripple| survives(q);
    broadcast use vstd::seq_lib::group_filter_ensures;

    assert forall|i: int| 0 <= i < aged(rs).len() implies #[trigger] aged(rs)[i].mag
        <= aged(rs)[i].max_mag by {
        assert(p(rs.filter(p)[i]));
    }
}

/// The ripples of a droplet after a tick are within their maximum radius.
pub proof fn lemma_renewed_bounds(d: Droplet, mine: Seq<Ripple>)
    ensures
        within_bounds(renewed(d, mine)),
        renewed(d, mine).len() <= mine.len() + 1,
{
    lemma_aged_bounds(mine);
}

/// A tick keeps the ripple store partitioned by the counts and within bounds,
/// and adds at most one ripple per droplet.
pub proof fn lemma_ticked(ds: Seq<Droplet>, rs: Seq<Ripple>)
    requires
        total(ds) <= rs.len(),
        total(ds) + ds.len() <= u32::MAX,
    ensures
        ticked(ds, rs).1.len() == total(ticked(ds, rs).0),
        total(ticked(ds, rs).0) <= total(ds) + ds.len(),
        ticked(ds, rs).0.len() <= ds.len(),
        within_bounds(ticked(ds, rs).1),
    decreases ds.len(),
{
    if ds.len() > 0 {
        let pre = ds.drop_last();
        let d = ds.last();
        let n = ds.len() - 1;
        assert(ds.take(n) =~= pre);
        lemma_ticked(pre, rs);
        let (pd, pr) = ticked(pre, rs);
        let mine = ripples_of(ds, rs, n);
        assert(mine.len() == d.ripple_count);
        lemma_renewed_bounds(d, mine);
        lemma_aged_bounds(mine);
        let live = aged(mine).len();
        match advanced(d, live) {
            Some(e) => {
                lemma_total_push(pd, e);
            },
            None => {},
        }
        let nr = pr + renewed(d, mine);
        assert forall|i: int| 0 <= i < nr.len() implies #[trigger] nr[i].mag
            <= nr[i].max_mag by {
            if i >= pr.len() {
                assert(nr[i] == renewed(d, mine)[i - pr.len()]);
            }
        }
    }
}

} // verus!
