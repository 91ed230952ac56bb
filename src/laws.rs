use vstd::prelude::*;

use crate::model::{
    Color, Coordinate, DropletStrength, PondView, Ripple, RippleCtr, accepted, add_view, aged,
    consistent, grown, lemma_ticked, renewed, ripples_of, survives,
    tick_fits, tick_view, ticked, ticks, total, within_bounds,
};

verus! {

/// A droplet requested outside the pond or with strength 0 never enters it:
/// the pond, and so every droplet array, is left as it was.
pub proof fn law_rejected_droplet(
    v: PondView,
    x: Coordinate,
    y: Coordinate,
    mag: DropletStrength,
    color: Color,
    freq: RippleCtr,
)
    requires
        x >= v.width || y >= v.height || mag == 0,
    ensures
        add_view(v, x, y, mag, color, freq) == v,
        add_view(v, x, y, mag, color, freq).droplets == v.droplets,
{
    assert(!accepted(v.width, v.height, x, y, mag));
}

/// Whether `r` was just spawned, or is a ripple of `rs` grown by one with the same maximum.
pub open spec fn grew_from(r: Ripple, rs: Seq<Ripple>) -> bool {
    r.mag == 0 || exists|k: int|
        0 <= k < rs.len() && r.mag == rs[k].mag + 1 && r.max_mag == rs[k].max_mag
}

/// Each aged ripple of `mine` is a ripple of `mine` grown by one.
proof fn lemma_aged_from(mine: Seq<Ripple>, j: int)
    requires
        0 <= j < aged(mine).len(),
    ensures
        grew_from(aged(mine)[j], mine),
{
    let p = |q: Ripple| survives(q);
    broadcast use vstd::seq_lib::group_filter_ensures;

    let f = mine.filter(p);
    assert(f.contains(f[j]));
    mine.lemma_filter_contains_rev(p, f[j]);
    let k = choose|k: int| 0 <= k < mine.len() && mine[k] == f[j];
    assert(aged(mine)[j] == grown(f[j]));
    assert(p(f[j]));
    assert(aged(mine)[j].mag == mine[k].mag + 1);
}

/// The ripples after a tick over `ds` all grew from ripples of `rs`, or were just spawned.
proof fn lemma_ticked_from(ds: Seq<crate::model::Droplet>, rs: Seq<Ripple>)
    requires
        total(ds) <= rs.len(),
    ensures
        forall|j: int|
            0 <= j < ticked(ds, rs).1.len() ==> grew_from(#[trigger] ticked(ds, rs).1[j], rs),
    decreases ds.len(),
{
    if ds.len() > 0 {
        let pre = ds.drop_last();
        let n = ds.len() - 1;
        assert(ds.take(n) =~= pre);
        crate::model::lemma_total_prefix(ds, n);
        lemma_ticked_from(pre, rs);
        let pr = ticked(pre, rs).1;
        let d = ds.last();
        let start = total(pre) as int;
        let mine = ripples_of(ds, rs, n);
        let nr = ticked(ds, rs).1;
        assert(nr == pr + renewed(d, mine));
        assert forall|j: int| 0 <= j < nr.len() implies grew_from(#[trigger] nr[j], rs) by {
            if j >= pr.len() {
                let t = j - pr.len();
                if t < aged(mine).len() {
                    assert(nr[j] == aged(mine)[t]);
                    lemma_aged_from(mine, t);
                    let k = choose|k: int|
                        0 <= k < mine.len() && aged(mine)[t].mag == mine[k].mag + 1
                            && aged(mine)[t].max_mag == mine[k].max_mag;
                    if aged(mine)[t].mag != 0 {
                        assert(mine[k] == rs[start + k]);
                    }
                } else {
                    assert(nr[j].mag == 0);
                }
            } else {
                assert(nr[j] == pr[j]);
            }
        }
    }
}

/// Every ripple in the store after a tick either was just spawned, with magnitude 0, or
/// is a ripple of the store before the tick grown by exactly one, with the same maximum;
/// none exceeds its maximum magnitude.
pub proof fn law_ripple_growth(v: PondView)
    requires
        consistent(v),
        tick_fits(v),
        !v.paused,
    ensures
        forall|j: int|
            0 <= j < tick_view(v).ripples.len() ==> grew_from(
                #[trigger] tick_view(v).ripples[j],
                v.ripples,
            ),
        within_bounds(tick_view(v).ripples),
{
    lemma_ticked(v.droplets, v.ripples);
    lemma_ticked_from(v.droplets, v.ripples);
}

/// The aggregate total equals the sum of the per-droplet counts and the length of the
/// ripple store, and no ripple exceeds its maximum magnitude, after every tick.
pub proof fn law_tick_consistent(v: PondView)
    requires
        consistent(v),
        tick_fits(v),
    ensures
        consistent(tick_view(v)),
        tick_view(v).total_ripples == total(tick_view(v).droplets),
        tick_view(v).total_ripples == tick_view(v).ripples.len(),
        within_bounds(tick_view(v).ripples),
{
    if !v.paused {
        lemma_ticked(v.droplets, v.ripples);
    }
}

/// Placing a droplet keeps a pond consistent.
pub proof fn law_add_consistent(
    v: PondView,
    x: Coordinate,
    y: Coordinate,
    mag: DropletStrength,
    color: Color,
    freq: RippleCtr,
)
    requires
        consistent(v),
    ensures
        consistent(add_view(v, x, y, mag, color, freq)),
{
    if accepted(v.width, v.height, x, y, mag) {
        crate::model::lemma_total_push(v.droplets, crate::model::fresh(x, y, mag, color, freq));
    }
}

/// Any number of ticks on a paused pond leave it exactly as it was.
pub proof fn law_paused_ticks(v: PondView, k: nat)
    requires
        v.paused,
    ensures
        ticks(v, k) == v,
    decreases k,
{
    if k > 0 {
        law_paused_ticks(v, (k - 1) as nat);
    }
}

} // verus!
