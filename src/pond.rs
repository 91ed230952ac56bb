use vstd::prelude::*;

use crate::model::{
    Color, Coordinate, Droplet, DropletStrength, PondView, Ripple, RippleCtr, aged, add_view,
    consistent, empty_view, lemma_aged_push, lemma_ticked, lemma_total_prefix, lemma_total_push,
    lemma_total_step, renewed, tick_fits, tick_view, ticked, total,
};

verus! {

const DROPLET_START_CAP: usize = 128;

/// The droplets held in the parallel arrays `xs`, `ys`, ... up to `counts`.
pub open spec fn droplet_seq(
    xs: Seq<Coordinate>,
    ys: Seq<Coordinate>,
    next_mags: Seq<DropletStrength>,
    freqs: Seq<RippleCtr>,
    ctrs: Seq<RippleCtr>,
    colors: Seq<Color>,
    counts: Seq<u32>,
) -> Seq<Droplet> {
    Seq::new(
        xs.len(),
        |i: int|
            Droplet {
                x: xs[i],
                y: ys[i],
                next_mag: next_mags[i],
                freq: freqs[i],
                countdown: ctrs[i],
                color: colors[i],
                ripple_count: counts[i],
            },
    )
}

/// The ripples held in the parallel arrays `mags` and `max_mags`.
pub open spec fn ripple_seq(mags: Seq<DropletStrength>, max_mags: Seq<DropletStrength>) -> Seq<
    Ripple,
> {
    Seq::new(mags.len(), |i: int| Ripple { mag: mags[i], max_mag: max_mags[i] })
}

/// `Droplets` holds every droplet that has been dropped in the pond and is still alive,
/// one array per attribute, together with the ripples of all droplets flattened into
/// one store: the ripples of droplet `i` follow those of droplets `0..i`, so that a
/// renderer can read all of them as a single buffer.
struct Droplets {
    xs: Vec<Coordinate>,
    ys: Vec<Coordinate>,
    /// The maximum magnitude of the next ripple of each droplet.
    next_mags: Vec<DropletStrength>,
    /// The number of ticks that pass between two ripples of each droplet.
    ripple_freqs: Vec<RippleCtr>,
    /// Counts down from the frequency to 0, when the next ripple is made.
    ripple_ctrs: Vec<RippleCtr>,
    colors: Vec<Color>,
    /// Current magnitudes of the ripples of all droplets.
    ripple_mags: Vec<DropletStrength>,
    /// Maximum magnitudes of the ripples of all droplets.
    ripple_max_mags: Vec<DropletStrength>,
    /// The number of ripples of each droplet (u32, the width a renderer reads).
    ripple_counts: Vec<u32>,
    total_ripples: u32,
}

impl Droplets {
    pub closed spec fn droplets(&self) -> Seq<Droplet> {
        droplet_seq(
            self.xs@,
            self.ys@,
            self.next_mags@,
            self.ripple_freqs@,
            self.ripple_ctrs@,
            self.colors@,
            self.ripple_counts@,
        )
    }

    pub closed spec fn ripples(&self) -> Seq<Ripple> {
        ripple_seq(self.ripple_mags@, self.ripple_max_mags@)
    }

    pub closed spec fn total(&self) -> u32 {
        self.total_ripples
    }

    /// The arrays of one kind of entity all have the same length.
    pub closed spec fn aligned(&self) -> bool {
        &&& self.ys.len() == self.xs.len()
        &&& self.next_mags.len() == self.xs.len()
        &&& self.ripple_freqs.len() == self.xs.len()
        &&& self.ripple_ctrs.len() == self.xs.len()
        &&& self.colors.len() == self.xs.len()
        &&& self.ripple_counts.len() == self.xs.len()
        &&& self.ripple_max_mags.len() == self.ripple_mags.len()
    }

    pub fn new() -> (r: Droplets)
        ensures
            r.aligned(),
            r.droplets() == Seq::<Droplet>::empty(),
            r.ripples() == Seq::<Ripple>::empty(),
            r.total() == 0,
    {
        let r = Droplets {
            xs: Vec::with_capacity(DROPLET_START_CAP),
            ys: Vec::with_capacity(DROPLET_START_CAP),
            next_mags: Vec::with_capacity(DROPLET_START_CAP),
            ripple_freqs: Vec::with_capacity(DROPLET_START_CAP),
            ripple_ctrs: Vec::with_capacity(DROPLET_START_CAP),
            colors: Vec::with_capacity(DROPLET_START_CAP),
            ripple_mags: Vec::with_capacity(DROPLET_START_CAP),
            ripple_max_mags: Vec::with_capacity(DROPLET_START_CAP),
            ripple_counts: Vec::with_capacity(DROPLET_START_CAP),
            total_ripples: 0,
        };
        assert(r.droplets() =~= Seq::<Droplet>::empty());
        assert(r.ripples() =~= Seq::<Ripple>::empty());
        r
    }
}

/// A `Pond` contains all the active droplets and ripples.
pub struct Pond {
    width: Coordinate,
    height: Coordinate,
    droplets: Droplets,
    paused: bool,
}

impl View for Pond {
    type V = PondView;

    closed spec fn view(&self) -> PondView {
        PondView {
            width: self.width,
            height: self.height,
            paused: self.paused,
            droplets: self.droplets.droplets(),
            ripples: self.droplets.ripples(),
            total_ripples: self.droplets.total(),
        }
    }
}

impl Pond {
    /// The arrays are aligned and the pond is consistent.
    pub closed spec fn wf(&self) -> bool {
        self.droplets.aligned() && consistent(self@)
    }

    /// An empty, running pond; coordinates must lie below `width` and `height`.
    pub fn new(width: Coordinate, height: Coordinate) -> (r: Pond)
        ensures
            r.wf(),
            r@ == empty_view(width, height),
    {
        Pond { width, height, droplets: Droplets::new(), paused: false }
    }

    /// Advances the pond by one tick: every ripple grows by one and is dropped once it
    /// passes its maximum magnitude; every droplet whose countdown has reached 0 spawns a
    /// ripple of its next magnitude, and a droplet that holds no ripple and spawns none is
    /// removed. A droplet whose strength is spent spawns no more: its countdown stops at 0
    /// and it is removed with its last ripple. Droplets and ripples are rebuilt from the
    /// survivors, in order, so that the ripples of each droplet stay contiguous and the
    /// ripple store is never shifted in the middle. Nothing changes while the pond is paused.
    pub fn tick(&mut self)
        requires
            old(self).wf(),
            tick_fits(old(self)@),
        ensures
            final(self).wf(),
            final(self)@ == tick_view(old(self)@),
    {
        if self.paused {
            return;
        }
        let ghost ds = self.droplets.droplets();
        let ghost rs = self.droplets.ripples();
        let n = self.droplets.xs.len();
        let mut xs: Vec<Coordinate> = Vec::with_capacity(n);
        let mut ys: Vec<Coordinate> = Vec::with_capacity(n);
        let mut next_mags: Vec<DropletStrength> = Vec::with_capacity(n);
        let mut ripple_freqs: Vec<RippleCtr> = Vec::with_capacity(n);
        let mut ripple_ctrs: Vec<RippleCtr> = Vec::with_capacity(n);
        let mut colors: Vec<Color> = Vec::with_capacity(n);
        let mut ripple_counts: Vec<u32> = Vec::with_capacity(n);
        let old_total = self.droplets.total_ripples as usize;
        let mut ripple_mags: Vec<DropletStrength> = Vec::with_capacity(old_total);
        let mut ripple_max_mags: Vec<DropletStrength> = Vec::with_capacity(old_total);
        let mut new_total: u32 = 0;
        let mut ripple_id: usize = 0;
        let mut droplet_id: usize = 0;
        while droplet_id < n
            invariant
                self.wf(),
                !self.paused,
                self.droplets.droplets() == ds,
                self.droplets.ripples() == rs,
                n == ds.len(),
                rs.len() == total(ds),
                total(ds) + ds.len() <= u32::MAX,
                droplet_id <= n,
                ripple_id == total(ds.take(droplet_id as int)),
                ys.len() == xs.len(),
                next_mags.len() == xs.len(),
                ripple_freqs.len() == xs.len(),
                ripple_ctrs.len() == xs.len(),
                colors.len() == xs.len(),
                ripple_counts.len() == xs.len(),
                ripple_max_mags.len() == ripple_mags.len(),
                droplet_seq(
                    xs@,
                    ys@,
                    next_mags@,
                    ripple_freqs@,
                    ripple_ctrs@,
                    colors@,
                    ripple_counts@,
                ) == ticked(ds.take(droplet_id as int), rs).0,
                ripple_seq(ripple_mags@, ripple_max_mags@) == ticked(
                    ds.take(droplet_id as int),
                    rs,
                ).1,
                new_total == total(ticked(ds.take(droplet_id as int), rs).0),
            decreases n - droplet_id,
        {
            let ghost i = droplet_id as int;
            let ghost pre = ticked(ds.take(i), rs);
            proof {
                lemma_total_step(ds, i);
                lemma_total_prefix(ds, i + 1);
                lemma_ticked(ds.take(i + 1), rs);
            }
            let count = self.droplets.ripple_counts[droplet_id];
            let start = ripple_id;
            let bound = ripple_id + count as usize;
            let mut live: u32 = 0;
            // Age the ripples of this droplet, keeping those still within their maximum.
            while ripple_id < bound
                invariant
                    self.wf(),
                    self.droplets.ripples() == rs,
                    rs.len() == total(ds),
                    total(ds) <= u32::MAX,
                    start <= ripple_id <= bound,
                    bound <= rs.len(),
                    ripple_max_mags.len() == ripple_mags.len(),
                    ripple_seq(ripple_mags@, ripple_max_mags@) == pre.1 + aged(
                        rs.subrange(start as int, ripple_id as int),
                    ),
                    live == aged(rs.subrange(start as int, ripple_id as int)).len(),
                    live <= ripple_id - start,
                decreases bound - ripple_id,
            {
                let mag = self.droplets.ripple_mags[ripple_id];
                let max_mag = self.droplets.ripple_max_mags[ripple_id];
                let ghost kept = rs.subrange(start as int, ripple_id as int);
                proof {
                    assert(rs.subrange(start as int, ripple_id + 1) =~= kept.push(rs[ripple_id as int]));
                    lemma_aged_push(kept, rs[ripple_id as int]);
                }
                let ghost before = ripple_seq(ripple_mags@, ripple_max_mags@);
                if mag < max_mag {
                    ripple_mags.push(mag + 1);
                    ripple_max_mags.push(max_mag);
                    live = live + 1;
                    proof {
                        assert(ripple_seq(ripple_mags@, ripple_max_mags@) =~= before.push(
                            Ripple { mag: (mag + 1) as DropletStrength, max_mag },
                        ));
                    }
                }
                ripple_id = ripple_id + 1;
            }
            let ghost mine = rs.subrange(start as int, bound as int);
            let ghost d = ds[i];
            proof {
                assert(ds.take(i + 1).drop_last() =~= ds.take(i));
                assert(ds.take(i + 1).take(i) =~= ds.take(i));
                assert(ds.take(i + 1).last() == d);
                assert(crate::model::ripples_of(ds.take(i + 1), rs, i) == mine);
                match crate::model::advanced(d, live as nat) {
                    Some(e) => {
                        lemma_total_push(pre.0, e);
                    },
                    None => {},
                }
            }
            // Advance the spawning schedule of this droplet.
            let ripple_ctr = self.droplets.ripple_ctrs[droplet_id];
            let next_mag = self.droplets.next_mags[droplet_id];
            let ghost before = ripple_seq(ripple_mags@, ripple_max_mags@);
            if ripple_ctr == 0 && next_mag > 0 {
                ripple_mags.push(0);
                ripple_max_mags.push(next_mag);
                xs.push(self.droplets.xs[droplet_id]);
                ys.push(self.droplets.ys[droplet_id]);
                next_mags.push(next_mag - 1);
                ripple_freqs.push(self.droplets.ripple_freqs[droplet_id]);
                ripple_ctrs.push(self.droplets.ripple_freqs[droplet_id]);
                colors.push(self.droplets.colors[droplet_id]);
                ripple_counts.push(live + 1);
                new_total = new_total + live + 1;
                proof {
                    assert(ripple_seq(ripple_mags@, ripple_max_mags@) =~= before.push(
                        crate::model::spawned(d),
                    ));
                    assert(pre.1 + renewed(d, mine) =~= (pre.1 + aged(mine)).push(
                        crate::model::spawned(d),
                    ));
                    assert(ripple_seq(ripple_mags@, ripple_max_mags@) =~= pre.1 + renewed(d, mine));
                }
            } else if live == 0 {
                // The droplet holds no ripple and spawns none: it is extinct.
                proof {
                    assert(ripple_seq(ripple_mags@, ripple_max_mags@) =~= pre.1 + renewed(d, mine));
                }
            } else {
                let next_ctr = if ripple_ctr > 0 {
                    ripple_ctr - 1
                } else {
                    0
                };
                xs.push(self.droplets.xs[droplet_id]);
                ys.push(self.droplets.ys[droplet_id]);
                next_mags.push(next_mag);
                ripple_freqs.push(self.droplets.ripple_freqs[droplet_id]);
                ripple_ctrs.push(next_ctr);
                colors.push(self.droplets.colors[droplet_id]);
                ripple_counts.push(live);
                new_total = new_total + live;
                proof {
                    assert(ripple_seq(ripple_mags@, ripple_max_mags@) =~= pre.1 + renewed(d, mine));
                }
            }
            proof {
                let out = ticked(ds.take(i + 1), rs).0;
                assert(droplet_seq(
                    xs@,
                    ys@,
                    next_mags@,
                    ripple_freqs@,
                    ripple_ctrs@,
                    colors@,
                    ripple_counts@,
                ) =~= out);
            }
            droplet_id = droplet_id + 1;
        }
        proof {
            assert(ds.take(n as int) =~= ds);
            lemma_ticked(ds, rs);
        }
        self.droplets = Droplets {
            xs,
            ys,
            next_mags,
            ripple_freqs,
            ripple_ctrs,
            colors,
            ripple_mags,
            ripple_max_mags,
            ripple_counts,
            total_ripples: new_total,
        };
    }

    /// Places a droplet at `(x, y)` with strength `mag`; it spawns its first ripple on the
    /// next tick and then one every `freq + 1` ticks, each one weaker by 1.
    /// Requests outside the pond or of strength 0 are silently dropped.
    pub fn add_droplet(
        &mut self,
        x: Coordinate,
        y: Coordinate,
        mag: DropletStrength,
        color: Color,
        freq: RippleCtr,
    )
        requires
            old(self).wf(),
        ensures
            final(self).wf(),
            final(self)@ == add_view(old(self)@, x, y, mag, color, freq),
    {
        if x >= self.width || y >= self.height || mag == 0 {
            return;
        }
        let ghost ds = self.droplets.droplets();
        self.droplets.xs.push(x);
        self.droplets.ys.push(y);
        self.droplets.next_mags.push(mag);
        self.droplets.ripple_freqs.push(freq);
        self.droplets.ripple_ctrs.push(0);
        self.droplets.colors.push(color);
        self.droplets.ripple_counts.push(0);
        proof {
            let d = crate::model::fresh(x, y, mag, color, freq);
            assert(self.droplets.droplets() =~= ds.push(d));
            lemma_total_push(ds, d);
        }
    }

    /// The number of droplets (truncated to 32 bits, which a renderer reads).
    pub fn droplet_count(&self) -> (r: u32)
        ensures
            r == self@.droplets.len() as u32,
    {
        self.droplets.xs.len() as u32
    }

    /// The x coordinates of the droplets, in droplet order.
    pub fn droplet_xs(&self) -> (r: &[Coordinate])
        requires
            self.wf(),
        ensures
            r@ == self@.droplets.map_values(|d: Droplet| d.x),
    {
        let r = self.droplets.xs.as_slice();
        assert(r@ =~= self@.droplets.map_values(|d: Droplet| d.x));
        r
    }

    /// The y coordinates of the droplets, in droplet order.
    pub fn droplet_ys(&self) -> (r: &[Coordinate])
        requires
            self.wf(),
        ensures
            r@ == self@.droplets.map_values(|d: Droplet| d.y),
    {
        let r = self.droplets.ys.as_slice();
        assert(r@ =~= self@.droplets.map_values(|d: Droplet| d.y));
        r
    }

    /// The colors of the droplets, in droplet order.
    pub fn droplet_colors(&self) -> (r: &[Color])
        requires
            self.wf(),
        ensures
            r@ == self@.droplets.map_values(|d: Droplet| d.color),
    {
        let r = self.droplets.colors.as_slice();
        assert(r@ =~= self@.droplets.map_values(|d: Droplet| d.color));
        r
    }

    /// The current magnitudes of all ripples: those of droplet 0 first, then those of
    /// droplet 1, and so on, as many for each as `ripple_counts` gives.
    pub fn ripple_mags(&self) -> (r: &[DropletStrength])
        requires
            self.wf(),
        ensures
            r@ == self@.ripples.map_values(|q: Ripple| q.mag),
    {
        let r = self.droplets.ripple_mags.as_slice();
        assert(r@ =~= self@.ripples.map_values(|q: Ripple| q.mag));
        r
    }

    /// The maximum magnitudes of all ripples, aligned with `ripple_mags`.
    pub fn ripple_max_mags(&self) -> (r: &[DropletStrength])
        requires
            self.wf(),
        ensures
            r@ == self@.ripples.map_values(|q: Ripple| q.max_mag),
    {
        let r = self.droplets.ripple_max_mags.as_slice();
        assert(r@ =~= self@.ripples.map_values(|q: Ripple| q.max_mag));
        r
    }

    /// The number of live ripples of each droplet, in droplet order.
    pub fn ripple_counts(&self) -> (r: &[u32])
        requires
            self.wf(),
        ensures
            r@ == self@.droplets.map_values(|d: Droplet| d.ripple_count),
    {
        let r = self.droplets.ripple_counts.as_slice();
        assert(r@ =~= self@.droplets.map_values(|d: Droplet| d.ripple_count));
        r
    }

    /// The number of live ripples of all droplets together.
    pub fn total_ripples(&self) -> (r: u32)
        requires
            self.wf(),
        ensures
            r == self@.total_ripples,
            r == total(self@.droplets),
            r == self@.ripples.len(),
    {
        self.droplets.total_ripples
    }

    /// Pauses a running pond, or resumes a paused one.
    pub fn toggle_pause(&mut self)
        requires
            old(self).wf(),
        ensures
            final(self).wf(),
            final(self)@ == (PondView { paused: !old(self)@.paused, ..old(self)@ }),
    {
        self.paused = !self.paused;
    }
}

} // verus!
