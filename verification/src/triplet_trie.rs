//! Triplet-seeded reconstruction: enumerate the geometrically valid hit
//! triplets over consecutive module triples, index the event's hits in a
//! two-level prefix tree (module, then spatial bucket), and extend the
//! triplets in order of ascending residual through bucket-restricted
//! lookups, under the same hole tolerance and minimum length as the other
//! strategies.

use vstd::prelude::*;
use crate::VeloError;
use crate::event_model::{
    abs_diff_wide, hits_inbounds, hits_monotone, in_window, lemma_disjoint_push,
    lemma_marked_monotone, lemma_monotone_push, lemma_z_order, mark_used, module_of, residual,
    sat_add_u64, spec_mark, tracks_marked, tracks_model, valid_reconstruction, Event,
    Reconstructor, Track, COORD_LIMIT,
};
use crate::geometry::{collin_res, extrapolate, spec_collin_res, spec_extrapolate};

verus! {

/// Triplet-seeded trie search with its tunables.
#[derive(Clone, Copy, PartialEq, Eq, Structural, Debug)]
pub struct SearchByTripletTrie {
    /// Largest scaled collinearity residual a seed triplet may have.
    pub triplet_tol: u64,
    /// Half-width of the search window around the extrapolated point.
    pub window_tol: i64,
    /// Width of one spatial bucket of the trie along x.
    pub bucket_width: i64,
    /// Number of consecutive empty modules tolerated while extending.
    pub max_hole: usize,
    /// Shortest candidate that is reported as a track.
    pub min_track_len: usize,
}

/// A geometrically compatible group of three hits on consecutive modules.
#[derive(Clone, Copy, PartialEq, Eq, Structural, Debug)]
pub struct Triplet {
    pub h0: usize,
    pub h1: usize,
    pub h2: usize,
    /// Scaled collinearity residual, lower is better.
    pub res: u64,
}

pub open spec fn triplet_wf(ev: Event, t: Triplet) -> bool {
    &&& t.h0 < ev.nh() && t.h1 < ev.nh() && t.h2 < ev.nh()
    &&& module_of(ev, t.h1 as int) == module_of(ev, t.h0 as int) + 1
    &&& module_of(ev, t.h2 as int) == module_of(ev, t.h1 as int) + 1
}

/// Every trie cell lists only valid hit indices of its own module, and every
/// module row has the same number of buckets.
pub open spec fn trie_wf(ev: Event, trie: Seq<Seq<Seq<usize>>>, nb: int) -> bool {
    &&& trie.len() == ev.nm()
    &&& forall|m: int| 0 <= m < trie.len() ==> (#[trigger] trie[m].len()) == nb
    &&& forall|m: int, b: int, k: int|
            0 <= m < trie.len() && 0 <= b < trie[m].len() && 0 <= k < trie[m][b].len()
            ==> (#[trigger] trie[m][b][k]) < ev.nh()
                && module_of(ev, trie[m][b][k] as int) == m
}

pub open spec fn trie_view(trie: Seq<Vec<Vec<usize>>>) -> Seq<Seq<Seq<usize>>> {
    trie.map_values(|row: Vec<Vec<usize>>| row@.map_values(|cell: Vec<usize>| cell@))
}


/// Number of spatial buckets per module row, as a function of the bucket
/// width alone.
pub open spec fn spec_nb(cfg: SearchByTripletTrie) -> int {
    2_000_000_000int / cfg.bucket_width as int + 1
}

/// The bucket of an x coordinate, out-of-range values clamped.
pub open spec fn spec_bucket(cfg: SearchByTripletTrie, x: int) -> int {
    let cx = if x < -COORD_LIMIT { -COORD_LIMIT as int }
        else if x > COORD_LIMIT { COORD_LIMIT as int } else { x };
    (cx + COORD_LIMIT) / cfg.bucket_width as int
}

/// Bucket `b` of module `m` after scanning the module's first `k` hits.
pub open spec fn spec_cell(cfg: SearchByTripletTrie, ev: Event, m: int, b: int, k: int) -> Seq<usize>
    decreases k,
{
    if k <= 0 {
        Seq::empty()
    } else {
        let prev = spec_cell(cfg, ev, m, b, k - 1);
        let h = ev.modules@[m].hits@[k - 1];
        if spec_bucket(cfg, ev.hits@[h as int].x as int) == b {
            prev.push(h)
        } else {
            prev
        }
    }
}

/// The first `b` buckets of module `m`'s row.
pub open spec fn spec_trie_row(cfg: SearchByTripletTrie, ev: Event, m: int, b: int) -> Seq<Seq<usize>>
    decreases b,
{
    if b <= 0 {
        Seq::empty()
    } else {
        spec_trie_row(cfg, ev, m, b - 1)
            .push(spec_cell(cfg, ev, m, b - 1, ev.modules@[m].hits@.len() as int))
    }
}

/// The trie over the first `m` modules.
pub open spec fn spec_trie(cfg: SearchByTripletTrie, ev: Event, m: int) -> Seq<Seq<Seq<usize>>>
    decreases m,
{
    if m <= 0 {
        Seq::empty()
    } else {
        spec_trie(cfg, ev, m - 1).push(spec_trie_row(cfg, ev, m - 1, spec_nb(cfg)))
    }
}

/// The bucket scan: the unused in-window hit of least residual among the
/// first `k` cell entries, ties to the earliest, with its residual.
pub open spec fn spec_bucket_scan(
    cfg: SearchByTripletTrie,
    ev: Event,
    cell: Seq<usize>,
    px: int,
    py: int,
    used: Seq<bool>,
    k: int,
) -> Option<(usize, int)>
    decreases k,
{
    if k <= 0 {
        None
    } else {
        let prev = spec_bucket_scan(cfg, ev, cell, px, py, used, k - 1);
        let c = cell[k - 1];
        if !used[c as int] && in_window(ev.hits@[c as int], px, py, cfg.window_tol as int) {
            let res = residual(ev.hits@[c as int], px, py);
            match prev {
                None => Some((c, res)),
                Some(b) => if res < b.1 { Some((c, res)) } else { prev },
            }
        } else {
            prev
        }
    }
}

/// What the bucket-restricted lookup returns.
pub open spec fn spec_bucket_closest(
    cfg: SearchByTripletTrie,
    ev: Event,
    cell: Seq<usize>,
    px: int,
    py: int,
    used: Seq<bool>,
) -> Option<usize> {
    match spec_bucket_scan(cfg, ev, cell, px, py, used, cell.len() as int) {
        None => None,
        Some(b) => Some(b.0),
    }
}

/// The extension fold through bucket-restricted lookups.
pub open spec fn spec_tt_extend(
    cfg: SearchByTripletTrie,
    ev: Event,
    trie: Seq<Seq<Seq<usize>>>,
    used: Seq<bool>,
    cand: Seq<usize>,
    h_a: usize,
    m2: int,
    holes: int,
    q: u64,
) -> (Seq<usize>, u64)
    decreases ev.nm() - m2,
{
    if m2 >= ev.nm() || holes > cfg.max_hole {
        (cand, q)
    } else {
        let h_b = cand[cand.len() - 1];
        let ma = module_of(ev, h_a as int);
        let mb = module_of(ev, h_b as int);
        let px = spec_extrapolate(ev.hits@[h_a as int].x as int, ev.modules@[ma].z as int,
            ev.hits@[h_b as int].x as int, ev.modules@[mb].z as int, ev.modules@[m2].z as int);
        let py = spec_extrapolate(ev.hits@[h_a as int].y as int, ev.modules@[ma].z as int,
            ev.hits@[h_b as int].y as int, ev.modules@[mb].z as int, ev.modules@[m2].z as int);
        let cell = trie[m2][spec_bucket(cfg, px)];
        match spec_bucket_closest(cfg, ev, cell, px, py, used) {
            Some(h) => spec_tt_extend(cfg, ev, trie, used, cand.push(h), h_b, m2 + 1, 0,
                sat_add_u64(q, residual(ev.hits@[h as int], px, py) as u64)),
            None => spec_tt_extend(cfg, ev, trie, used, cand, h_a, m2 + 1, holes + 1, q),
        }
    }
}


/// The triplets found against the third module's first `k2` hits, appended
/// to `acc`.
pub open spec fn spec_trip_inner(
    cfg: SearchByTripletTrie, ev: Event, acc: Seq<Triplet>, m: int, h0: usize, h1: usize, k2: int,
) -> Seq<Triplet>
    decreases ev.modules@[m + 2].hits@.len() - k2,
{
    let list2 = ev.modules@[m + 2].hits@;
    if k2 >= list2.len() {
        acc
    } else {
        let h2 = list2[k2];
        let z0 = ev.modules@[m].z as int;
        let z1 = ev.modules@[m + 1].z as int;
        let z2 = ev.modules@[m + 2].z as int;
        let res = (spec_collin_res(ev.hits@[h0 as int].x as int, z0, ev.hits@[h1 as int].x as int,
                z1, ev.hits@[h2 as int].x as int, z2)
            + spec_collin_res(ev.hits@[h0 as int].y as int, z0, ev.hits@[h1 as int].y as int,
                z1, ev.hits@[h2 as int].y as int, z2)) as u64;
        let acc2 = if res <= cfg.triplet_tol { acc.push(Triplet { h0, h1, h2, res }) } else { acc };
        spec_trip_inner(cfg, ev, acc2, m, h0, h1, k2 + 1)
    }
}

/// The fold over the second module's hits.
pub open spec fn spec_trip_mid(
    cfg: SearchByTripletTrie, ev: Event, acc: Seq<Triplet>, m: int, h0: usize, k1: int,
) -> Seq<Triplet>
    decreases ev.modules@[m + 1].hits@.len() - k1,
{
    let list1 = ev.modules@[m + 1].hits@;
    if k1 >= list1.len() {
        acc
    } else {
        spec_trip_mid(cfg, ev, spec_trip_inner(cfg, ev, acc, m, h0, list1[k1], 0), m, h0, k1 + 1)
    }
}

/// The fold over the first module's hits.
pub open spec fn spec_trip_outer(
    cfg: SearchByTripletTrie, ev: Event, acc: Seq<Triplet>, m: int, k0: int,
) -> Seq<Triplet>
    decreases ev.modules@[m].hits@.len() - k0,
{
    let list0 = ev.modules@[m].hits@;
    if k0 >= list0.len() {
        acc
    } else {
        spec_trip_outer(cfg, ev, spec_trip_mid(cfg, ev, acc, m, list0[k0], 0), m, k0 + 1)
    }
}

/// The sweep over consecutive module triples.
pub open spec fn spec_trips_sweep(
    cfg: SearchByTripletTrie, ev: Event, acc: Seq<Triplet>, m: int,
) -> Seq<Triplet>
    decreases ev.nm() - m,
{
    if ev.nm() < 3 || m > ev.nm() - 3 {
        acc
    } else {
        spec_trips_sweep(cfg, ev, spec_trip_outer(cfg, ev, acc, m, 0), m + 1)
    }
}

/// Every geometrically valid triplet of the event, in generation order.
pub open spec fn spec_triplets(cfg: SearchByTripletTrie, ev: Event) -> Seq<Triplet> {
    spec_trips_sweep(cfg, ev, Seq::empty(), 0)
}

/// The unprocessed triplet of least residual among the first `t`, ties to
/// the earliest.
pub open spec fn spec_select(trips: Seq<Triplet>, processed: Seq<bool>, t: int) -> Option<int>
    decreases t,
{
    if t <= 0 {
        None
    } else {
        let prev = spec_select(trips, processed, t - 1);
        if !processed[t - 1] {
            match prev {
                None => Some(t - 1),
                Some(bt) => if trips[t - 1].res < trips[bt].res { Some(t - 1) } else { prev },
            }
        } else {
            prev
        }
    }
}

/// The processing rounds: each consumes the best unprocessed triplet; one
/// whose hits are all free seeds a candidate, which is kept when long enough.
pub open spec fn spec_tt_rounds(
    cfg: SearchByTripletTrie,
    ev: Event,
    trie: Seq<Seq<Seq<usize>>>,
    trips: Seq<Triplet>,
    processed: Seq<bool>,
    used: Seq<bool>,
    tracks: Seq<(u64, Seq<usize>, u64)>,
    round: int,
) -> (Seq<bool>, Seq<bool>, Seq<(u64, Seq<usize>, u64)>)
    decreases trips.len() - round,
{
    if round >= trips.len() {
        (processed, used, tracks)
    } else {
        match spec_select(trips, processed, trips.len() as int) {
            None => spec_tt_rounds(cfg, ev, trie, trips, processed, used, tracks, round + 1),
            Some(bt) => {
                let processed2 = processed.update(bt, true);
                let trip = trips[bt];
                if !used[trip.h0 as int] && !used[trip.h1 as int] && !used[trip.h2 as int] {
                    let ext = spec_tt_extend(cfg, ev, trie, used,
                        seq![trip.h0, trip.h1, trip.h2], trip.h1,
                        module_of(ev, trip.h2 as int) + 1, 0, trip.res);
                    if ext.0.len() >= cfg.min_track_len {
                        spec_tt_rounds(cfg, ev, trie, trips, processed2, spec_mark(used, ext.0),
                            tracks.push((tracks.len() as u64, ext.0, ext.1)), round + 1)
                    } else {
                        spec_tt_rounds(cfg, ev, trie, trips, processed2, used, tracks, round + 1)
                    }
                } else {
                    spec_tt_rounds(cfg, ev, trie, trips, processed2, used, tracks, round + 1)
                }
            },
        }
    }
}

/// The full output of the triplet search on an event: a function of the
/// event and the configuration alone, so reconstruction is deterministic.
pub open spec fn spec_triplet_trie(cfg: SearchByTripletTrie, ev: Event) -> Seq<(u64, Seq<usize>, u64)> {
    let trips = spec_triplets(cfg, ev);
    spec_tt_rounds(cfg, ev, spec_trie(cfg, ev, ev.nm()), trips,
        Seq::new(trips.len(), |i: int| false), Seq::new(ev.nh() as nat, |i: int| false),
        Seq::empty(), 0).2
}

impl SearchByTripletTrie {
    pub open spec fn params_ok(self) -> bool {
        &&& 0 < self.triplet_tol
        &&& 0 < self.window_tol <= COORD_LIMIT
        &&& 1_000_000 <= self.bucket_width <= COORD_LIMIT
        &&& self.max_hole <= 1_000_000
        &&& 3 <= self.min_track_len
    }

    /// Accepts the configuration exactly when every tunable is in range.
    pub fn new(
        triplet_tol: u64,
        window_tol: i64,
        bucket_width: i64,
        max_hole: usize,
        min_track_len: usize,
    ) -> (r: Result<SearchByTripletTrie, VeloError>)
        ensures
            match r {
                Ok(a) => {
                    &&& a == (SearchByTripletTrie {
                        triplet_tol, window_tol, bucket_width, max_hole, min_track_len })
                    &&& a.params_ok()
                },
                Err(e) => {
                    &&& e == VeloError::Configuration
                    &&& !(SearchByTripletTrie {
                        triplet_tol, window_tol, bucket_width, max_hole, min_track_len }).params_ok()
                },
            },
    {
        if triplet_tol == 0 || window_tol <= 0 || window_tol > COORD_LIMIT
            || bucket_width < 1_000_000 || bucket_width > COORD_LIMIT
            || max_hole > 1_000_000 || min_track_len < 3
        {
            Err(VeloError::Configuration)
        } else {
            Ok(SearchByTripletTrie {
                triplet_tol, window_tol, bucket_width, max_hole, min_track_len })
        }
    }

    /// Number of spatial buckets per module row.
    fn num_buckets(&self) -> (r: usize)
        requires
            self.params_ok(),
        ensures
            r == 2_000_000_000i64 / self.bucket_width + 1,
            1 <= r <= 2001,
    {
        proof {
            vstd::arithmetic::div_mod::lemma_div_is_ordered_by_denominator(
                2_000_000_000, 1_000_000, self.bucket_width as int);
        }
        (2_000_000_000i64 / self.bucket_width) as usize + 1
    }

    /// Bucket of an x coordinate, clamping out-of-range predictions to the
    /// detector's coordinate range.
    fn bucket_of(&self, x: i64) -> (r: usize)
        requires
            self.params_ok(),
        ensures
            r < 2_000_000_000i64 / self.bucket_width + 1,
            r == spec_bucket(*self, x as int),
    {
        let cx: i64 = if x < -COORD_LIMIT {
            -COORD_LIMIT
        } else if x > COORD_LIMIT {
            COORD_LIMIT
        } else {
            x
        };
        proof {
            vstd::arithmetic::div_mod::lemma_div_is_ordered(
                (cx + COORD_LIMIT) as int, 2_000_000_000, self.bucket_width as int);
        }
        ((cx + COORD_LIMIT) / self.bucket_width) as usize
    }

    /// Builds the trie: module by module, bucket by bucket, collecting the
    /// hits of that module whose x coordinate falls in the bucket.
    fn build_trie(&self, ev: &Event) -> (trie: Vec<Vec<Vec<usize>>>)
        requires
            ev.wf(),
            self.params_ok(),
        ensures
            trie_wf(*ev, trie_view(trie@), 2_000_000_000i64 / self.bucket_width + 1),
            trie_view(trie@) == spec_trie(*self, *ev, ev.nm()),
    {
        let nm = ev.num_modules();
        let nh = ev.num_hits();
        let nb = self.num_buckets();
        let mut trie: Vec<Vec<Vec<usize>>> = Vec::new();
        let mut m: usize = 0;
        while m < nm
            invariant
                ev.wf(),
                self.params_ok(),
                nm == ev.nm(),
                nh == ev.nh(),
                nb == 2_000_000_000i64 / self.bucket_width + 1,
                m <= nm,
                trie@.len() == m,
                forall|mm: int| 0 <= mm < m ==> (#[trigger] trie@[mm]@.len()) == nb,
                forall|mm: int, b: int, k: int|
                    0 <= mm < m && 0 <= b < trie@[mm]@.len() && 0 <= k < trie@[mm]@[b]@.len()
                    ==> (#[trigger] trie@[mm]@[b]@[k]) < nh
                        && module_of(*ev, trie@[mm]@[b]@[k] as int) == mm,
                trie_view(trie@) == spec_trie(*self, *ev, m as int),
            decreases nm - m,
        {
            let list_len = ev.modules[m].hits.len();
            let mut row: Vec<Vec<usize>> = Vec::new();
            let mut b: usize = 0;
            while b < nb
                invariant
                    ev.wf(),
                    self.params_ok(),
                    nm == ev.nm(),
                    nh == ev.nh(),
                    m < nm,
                    list_len == ev.modules@[m as int].hits@.len(),
                    b <= nb,
                    row@.len() == b,
                    forall|bb: int, k: int| 0 <= bb < b && 0 <= k < row@[bb]@.len()
                        ==> (#[trigger] row@[bb]@[k]) < nh
                            && module_of(*ev, row@[bb]@[k] as int) == m,
                    row@.map_values(|cell: Vec<usize>| cell@) == spec_trie_row(*self, *ev, m as int, b as int),
                decreases nb - b,
            {
                let mut cell: Vec<usize> = Vec::new();
                let mut k: usize = 0;
                while k < list_len
                    invariant
                        ev.wf(),
                        self.params_ok(),
                        nm == ev.nm(),
                        nh == ev.nh(),
                        m < nm,
                        list_len == ev.modules@[m as int].hits@.len(),
                        k <= list_len,
                        forall|kk: int| 0 <= kk < cell@.len()
                            ==> (#[trigger] cell@[kk]) < nh
                                && module_of(*ev, cell@[kk] as int) == m,
                        cell@ == spec_cell(*self, *ev, m as int, b as int, k as int),
                    decreases list_len - k,
                {
                    proof {
                        assert(ev.module_list_wf(m as int));
                    }
                    let h = ev.modules[m].hits[k];
                    if self.bucket_of(ev.hits[h].x) == b {
                        cell.push(h);
                    }
                    k = k + 1;
                }
                row.push(cell);
                proof {
                    assert(row@.map_values(|c: Vec<usize>| c@)
                        =~= spec_trie_row(*self, *ev, m as int, b as int)
                            .push(spec_cell(*self, *ev, m as int, b as int,
                                ev.modules@[m as int].hits@.len() as int)));
                }
                b = b + 1;
            }
            trie.push(row);
            proof {
                assert(trie_view(trie@)
                    =~= spec_trie(*self, *ev, m as int)
                        .push(row@.map_values(|c: Vec<usize>| c@)));
            }
            m = m + 1;
        }
        proof {
            let tv = trie_view(trie@);
            assert forall|mm: int| 0 <= mm < tv.len()
                implies (#[trigger] tv[mm].len()) == nb by {
                assert(tv[mm] == trie@[mm]@.map_values(|cell: Vec<usize>| cell@));
            }
            assert forall|mm: int, b: int, k: int|
                0 <= mm < tv.len() && 0 <= b < tv[mm].len() && 0 <= k < tv[mm][b].len()
                implies (#[trigger] tv[mm][b][k]) < ev.nh()
                    && module_of(*ev, tv[mm][b][k] as int) == mm by {
                assert(tv[mm] == trie@[mm]@.map_values(|cell: Vec<usize>| cell@));
                assert(tv[mm][b] == trie@[mm]@[b]@);
            }
        }
        trie
    }

    /// All triplets over consecutive module triples whose scaled residual is
    /// within `triplet_tol`, in module-then-hit order.
    fn gen_triplets(&self, ev: &Event) -> (r: Vec<Triplet>)
        requires
            ev.wf(),
            self.params_ok(),
        ensures
            forall|t: int| 0 <= t < r@.len() ==> triplet_wf(*ev, #[trigger] r@[t]),
            r@ == spec_triplets(*self, *ev),
    {
        let nm = ev.num_modules();
        let mut out: Vec<Triplet> = Vec::new();
        proof {
            assert(out@ =~= Seq::<Triplet>::empty());
        }
        if nm < 3 {
            return out;
        }
        let mut m: usize = 0;
        while m <= nm - 3
            invariant
                ev.wf(),
                self.params_ok(),
                nm == ev.nm(),
                nm >= 3,
                forall|t: int| 0 <= t < out@.len() ==> triplet_wf(*ev, #[trigger] out@[t]),
                spec_trips_sweep(*self, *ev, out@, m as int) == spec_triplets(*self, *ev),
            decreases nm - m,
        {
            let ghost m_acc = out@;
            proof {
                assert(ev.module_list_wf(m as int));
                assert(ev.module_list_wf(m + 1));
                assert(ev.module_list_wf(m + 2));
                lemma_z_order(*ev, m as int, m + 1);
                lemma_z_order(*ev, m + 1, m + 2);
            }
            let z0 = ev.modules[m].z;
            let z1 = ev.modules[m + 1].z;
            let z2 = ev.modules[m + 2].z;
            let len0 = ev.modules[m].hits.len();
            let mut k0: usize = 0;
            while k0 < len0
                invariant
                    ev.wf(),
                    self.params_ok(),
                    nm == ev.nm(),
                    nm >= 3,
                    m + 3 <= nm,
                    len0 == ev.modules@[m as int].hits@.len(),
                    k0 <= len0,
                    z0 == ev.modules@[m as int].z,
                    z1 == ev.modules@[m + 1].z,
                    z2 == ev.modules@[m + 2].z,
                    forall|t: int| 0 <= t < out@.len() ==> triplet_wf(*ev, #[trigger] out@[t]),
                    spec_trip_outer(*self, *ev, out@, m as int, k0 as int)
                        == spec_trip_outer(*self, *ev, m_acc, m as int, 0),
                decreases len0 - k0,
            {
                let ghost k0_acc = out@;
                proof {
                    assert(ev.module_list_wf(m as int));
                    assert(ev.module_list_wf(m + 1));
                }
                let h0 = ev.modules[m].hits[k0];
                let len1 = ev.modules[m + 1].hits.len();
                let mut k1: usize = 0;
                while k1 < len1
                    invariant
                        ev.wf(),
                        self.params_ok(),
                        nm == ev.nm(),
                        nm >= 3,
                        m + 3 <= nm,
                        k1 <= len1,
                        len1 == ev.modules@[m + 1].hits@.len(),
                        h0 < ev.nh(),
                        ev.hits@[h0 as int].module == m,
                        z0 == ev.modules@[m as int].z,
                        z1 == ev.modules@[m + 1].z,
                        z2 == ev.modules@[m + 2].z,
                        forall|t: int| 0 <= t < out@.len() ==> triplet_wf(*ev, #[trigger] out@[t]),
                        spec_trip_mid(*self, *ev, out@, m as int, h0, k1 as int)
                            == spec_trip_mid(*self, *ev, k0_acc, m as int, h0, 0),
                    decreases len1 - k1,
                {
                    let ghost k1_acc = out@;
                    proof {
                        assert(ev.module_list_wf(m + 1));
                        assert(ev.module_list_wf(m + 2));
                    }
                    let h1 = ev.modules[m + 1].hits[k1];
                    let len2 = ev.modules[m + 2].hits.len();
                    let mut k2: usize = 0;
                    while k2 < len2
                        invariant
                            ev.wf(),
                            self.params_ok(),
                            nm == ev.nm(),
                            nm >= 3,
                            m + 3 <= nm,
                            k2 <= len2,
                            len2 == ev.modules@[m + 2].hits@.len(),
                            h0 < ev.nh(),
                            ev.hits@[h0 as int].module == m,
                            h1 < ev.nh(),
                            ev.hits@[h1 as int].module == m + 1,
                            z0 == ev.modules@[m as int].z,
                            z1 == ev.modules@[m + 1].z,
                            z2 == ev.modules@[m + 2].z,
                            forall|t: int| 0 <= t < out@.len() ==> triplet_wf(*ev, #[trigger] out@[t]),
                            spec_trip_inner(*self, *ev, out@, m as int, h0, h1, k2 as int)
                                == spec_trip_inner(*self, *ev, k1_acc, m as int, h0, h1, 0),
                        decreases len2 - k2,
                    {
                        let ghost pre_acc = out@;
                        let ghost pre_k2 = k2 as int;
                        proof {
                            assert(ev.module_list_wf(m + 2));
                        }
                        let h2 = ev.modules[m + 2].hits[k2];
                        let rx = collin_res(
                            ev.hits[h0].x, z0, ev.hits[h1].x, z1, ev.hits[h2].x, z2);
                        let ry = collin_res(
                            ev.hits[h0].y, z0, ev.hits[h1].y, z1, ev.hits[h2].y, z2);
                        let res = rx + ry;
                        if res <= self.triplet_tol {
                            out.push(Triplet { h0, h1, h2, res });
                        }
                        proof {
                            assert(spec_trip_inner(*self, *ev, pre_acc, m as int, h0, h1, pre_k2)
                                == spec_trip_inner(*self, *ev, out@, m as int, h0, h1, pre_k2 + 1));
                        }
                        k2 = k2 + 1;
                    }
                    proof {
                        assert(spec_trip_inner(*self, *ev, out@, m as int, h0, h1, len2 as int)
                            == out@);
                        assert(spec_trip_mid(*self, *ev, k1_acc, m as int, h0, k1 as int)
                            == spec_trip_mid(*self, *ev, out@, m as int, h0, k1 + 1));
                    }
                    k1 = k1 + 1;
                }
                proof {
                    assert(spec_trip_mid(*self, *ev, out@, m as int, h0, len1 as int) == out@);
                    assert(spec_trip_outer(*self, *ev, k0_acc, m as int, k0 as int)
                        == spec_trip_outer(*self, *ev, out@, m as int, k0 + 1));
                }
                k0 = k0 + 1;
            }
            proof {
                assert(spec_trip_outer(*self, *ev, out@, m as int, len0 as int) == out@);
                assert(spec_trips_sweep(*self, *ev, m_acc, m as int)
                    == spec_trips_sweep(*self, *ev, out@, m + 1));
            }
            m = m + 1;
        }
        proof {
            assert(spec_trips_sweep(*self, *ev, out@, m as int) == out@);
        }
        out
    }

    /// The closest unused in-window hit in one trie bucket of module `m2`.
    fn closest_in_bucket(
        &self,
        ev: &Event,
        trie: &Vec<Vec<Vec<usize>>>,
        m2: usize,
        b: usize,
        px: i64,
        py: i64,
        used: &Vec<bool>,
    ) -> (r: Option<usize>)
        requires
            ev.wf(),
            self.params_ok(),
            trie_wf(*ev, trie_view(trie@), 2_000_000_000i64 / self.bucket_width + 1),
            m2 < ev.nm(),
            b < 2_000_000_000i64 / self.bucket_width + 1,
            used@.len() == ev.nh(),
        ensures
            r == spec_bucket_closest(*self, *ev, trie_view(trie@)[m2 as int][b as int],
                px as int, py as int, used@),
            ({
                let cell = trie_view(trie@)[m2 as int][b as int];
                match r {
                    Some(h) => {
                        &&& h < ev.nh()
                        &&& !used@[h as int]
                        &&& ev.hits@[h as int].module == m2
                        &&& in_window(ev.hits@[h as int], px as int, py as int, self.window_tol as int)
                        &&& forall|k: int| 0 <= k < cell.len()
                            && !used@[#[trigger] cell[k] as int]
                            && in_window(ev.hits@[cell[k] as int], px as int, py as int, self.window_tol as int)
                            ==> residual(ev.hits@[h as int], px as int, py as int)
                                <= residual(ev.hits@[cell[k] as int], px as int, py as int)
                    },
                    None => forall|k: int| 0 <= k < cell.len()
                        ==> {
                            let c = #[trigger] cell[k] as int;
                            used@[c] || !in_window(ev.hits@[c], px as int, py as int, self.window_tol as int)
                        },
                }
            }),
    {
        let ghost tv = trie_view(trie@);
        proof {
            assert(tv[m2 as int] == trie@[m2 as int]@.map_values(|cell: Vec<usize>| cell@));
            assert(tv[m2 as int].len() == 2_000_000_000i64 / self.bucket_width + 1);
            assert(tv[m2 as int][b as int] == trie@[m2 as int]@[b as int]@);
        }
        let cell = &trie[m2][b];
        let cell_len = cell.len();
        let mut best: Option<usize> = None;
        let mut best_res: i128 = 0;
        let mut k: usize = 0;
        while k < cell_len
            invariant
                ev.wf(),
                self.params_ok(),
                used@.len() == ev.nh(),
                cell_len == cell@.len(),
                cell@ == trie_view(trie@)[m2 as int][b as int],
                trie_wf(*ev, trie_view(trie@), 2_000_000_000i64 / self.bucket_width + 1),
                m2 < ev.nm(),
                b < 2_000_000_000i64 / self.bucket_width + 1,
                k <= cell_len,
                match spec_bucket_scan(*self, *ev, cell@, px as int, py as int, used@, k as int) {
                    None => best is None,
                    Some(bb) => best == Some(bb.0) && best_res == bb.1,
                },
                match best {
                    Some(h) => {
                        &&& h < ev.nh()
                        &&& !used@[h as int]
                        &&& ev.hits@[h as int].module == m2
                        &&& in_window(ev.hits@[h as int], px as int, py as int, self.window_tol as int)
                        &&& best_res == residual(ev.hits@[h as int], px as int, py as int)
                        &&& forall|kk: int| 0 <= kk < k
                            && !used@[#[trigger] cell@[kk] as int]
                            && in_window(ev.hits@[cell@[kk] as int], px as int, py as int, self.window_tol as int)
                            ==> best_res <= residual(ev.hits@[cell@[kk] as int], px as int, py as int)
                    },
                    None => forall|kk: int| 0 <= kk < k
                        ==> {
                            let c = #[trigger] cell@[kk] as int;
                            used@[c] || !in_window(ev.hits@[c], px as int, py as int, self.window_tol as int)
                        },
                },
            decreases cell_len - k,
        {
            let hidx = cell[k];
            proof {
                let tv2 = trie_view(trie@);
                assert(tv2[m2 as int][b as int][k as int] == cell@[k as int]);
            }
            if !used[hidx] {
                let h = &ev.hits[hidx];
                let dx = abs_diff_wide(h.x, px);
                let dy = abs_diff_wide(h.y, py);
                if dx <= self.window_tol as i128 && dy <= self.window_tol as i128 {
                    let res = dx + dy;
                    match best {
                        None => {
                            best = Some(hidx);
                            best_res = res;
                        },
                        Some(_) => {
                            if res < best_res {
                                best = Some(hidx);
                                best_res = res;
                            }
                        },
                    }
                }
            }
            k = k + 1;
        }
        best
    }

    /// Extends a triplet candidate module by module through bucket-restricted
    /// trie lookups, under the hole tolerance. Returns the accumulated
    /// residual (saturating).
    fn extend_candidate(
        &self,
        ev: &Event,
        trie: &Vec<Vec<Vec<usize>>>,
        used: &Vec<bool>,
        cand: &mut Vec<usize>,
        h_a0: usize,
        m_start: usize,
        q0: u64,
    ) -> (q: u64)
        requires
            ev.wf(),
            self.params_ok(),
            trie_wf(*ev, trie_view(trie@), 2_000_000_000i64 / self.bucket_width + 1),
            used@.len() == ev.nh(),
            old(cand)@.len() >= 1,
            hits_inbounds(*ev, old(cand)@),
            hits_monotone(*ev, old(cand)@),
            forall|k: int| 0 <= k < old(cand)@.len() ==> !used@[#[trigger] old(cand)@[k] as int],
            h_a0 < ev.nh(),
            module_of(*ev, h_a0 as int) < module_of(*ev, old(cand)@[old(cand)@.len() - 1] as int),
            module_of(*ev, old(cand)@[old(cand)@.len() - 1] as int) < m_start,
            m_start <= ev.nm(),
        ensures
            final(cand)@.len() >= old(cand)@.len(),
            hits_inbounds(*ev, final(cand)@),
            hits_monotone(*ev, final(cand)@),
            forall|k: int| 0 <= k < final(cand)@.len()
                ==> !used@[#[trigger] final(cand)@[k] as int],
            (final(cand)@, q) == spec_tt_extend(*self, *ev, trie_view(trie@), used@,
                old(cand)@, h_a0, m_start as int, 0, q0),
    {
        let nm = ev.num_modules();
        let mut h_a: usize = h_a0;
        let mut h_b: usize = cand[cand.len() - 1];
        let mut quality: u64 = q0;
        let mut holes: usize = 0;
        let mut m2: usize = m_start;
        while m2 < nm && holes <= self.max_hole
            invariant
                ev.wf(),
                self.params_ok(),
                trie_wf(*ev, trie_view(trie@), 2_000_000_000i64 / self.bucket_width + 1),
                used@.len() == ev.nh(),
                nm == ev.nm(),
                cand@.len() >= old(cand)@.len() >= 1,
                hits_inbounds(*ev, cand@),
                hits_monotone(*ev, cand@),
                forall|k: int| 0 <= k < cand@.len() ==> !used@[#[trigger] cand@[k] as int],
                h_a < ev.nh(),
                h_b < ev.nh(),
                h_b == cand@[cand@.len() - 1],
                module_of(*ev, h_a as int) < module_of(*ev, h_b as int),
                module_of(*ev, h_b as int) < m2,
                m2 <= nm,
                holes <= self.max_hole + 1,
                spec_tt_extend(*self, *ev, trie_view(trie@), used@, cand@, h_a, m2 as int,
                    holes as int, quality)
                    == spec_tt_extend(*self, *ev, trie_view(trie@), used@, old(cand)@, h_a0,
                        m_start as int, 0, q0),
            decreases nm - m2,
        {
            let ghost pre_cand = cand@;
            let ghost pre_ha = h_a;
            let ghost pre_m2 = m2 as int;
            let ghost pre_holes = holes as int;
            let ghost pre_q = quality;
            let ma = ev.hits[h_a].module;
            let mb = ev.hits[h_b].module;
            proof {
                lemma_z_order(*ev, ma as int, mb as int);
                lemma_z_order(*ev, mb as int, m2 as int);
            }
            let za = ev.modules[ma].z;
            let zb = ev.modules[mb].z;
            let z2 = ev.modules[m2].z;
            let px = extrapolate(ev.hits[h_a].x, za, ev.hits[h_b].x, zb, z2);
            let py = extrapolate(ev.hits[h_a].y, za, ev.hits[h_b].y, zb, z2);
            let b = self.bucket_of(px);
            match self.closest_in_bucket(ev, trie, m2, b, px, py, used) {
                Some(h) => {
                    proof {
                        lemma_monotone_push(*ev, cand@, h);
                    }
                    let dx = abs_diff_wide(ev.hits[h].x, px);
                    let dy = abs_diff_wide(ev.hits[h].y, py);
                    let step = (dx + dy) as u64;
                    quality = if quality <= u64::MAX - step { quality + step } else { u64::MAX };
                    cand.push(h);
                    h_a = h_b;
                    h_b = h;
                    holes = 0;
                },
                None => {
                    holes = holes + 1;
                },
            }
            proof {
                assert(spec_tt_extend(*self, *ev, trie_view(trie@), used@, pre_cand, pre_ha,
                        pre_m2, pre_holes, pre_q)
                    == spec_tt_extend(*self, *ev, trie_view(trie@), used@, cand@, h_a,
                        pre_m2 + 1, holes as int, quality));
            }
            m2 = m2 + 1;
        }
        quality
    }
}

impl Reconstructor for SearchByTripletTrie {
    // Conflict policy: triplets are consumed in ascending residual order,
    // ties to the earlier-generated triplet; one whose hits are already
    // claimed is skipped, so assignment is reproducible.
    open spec fn valid(&self) -> bool {
        self.params_ok()
    }

    open spec fn min_len(&self) -> int {
        self.min_track_len as int
    }

    fn reconstruct(&self, ev: &Event) -> (r: Vec<Track>)
        ensures
            tracks_model(r@) == spec_triplet_trie(*self, *ev),
    {
        let nh = ev.num_hits();
        let nm = ev.num_modules();
        let trie = self.build_trie(ev);
        let ghost mtrie = trie_view(trie@);
        let trips = self.gen_triplets(ev);
        let ntrips = trips.len();
        let mut used: Vec<bool> = Vec::new();
        while used.len() < nh
            invariant
                used@.len() <= nh,
                forall|i: int| 0 <= i < used@.len() ==> !used@[i],
            decreases nh - used@.len(),
        {
            used.push(false);
        }
        let mut processed: Vec<bool> = Vec::new();
        while processed.len() < ntrips
            invariant
                processed@.len() <= ntrips,
                forall|i: int| 0 <= i < processed@.len() ==> !processed@[i],
            decreases ntrips - processed@.len(),
        {
            processed.push(false);
        }
        let mut tracks: Vec<Track> = Vec::new();
        proof {
            assert(used@ =~= Seq::new(ev.nh() as nat, |i: int| false));
            assert(processed@ =~= Seq::new(trips@.len(), |i: int| false));
            assert(tracks_model(tracks@) =~= Seq::<(u64, Seq<usize>, u64)>::empty());
        }
        let ghost target = spec_tt_rounds(*self, *ev, mtrie, trips@, processed@, used@,
            tracks_model(tracks@), 0).2;
        proof {
            assert(target == spec_triplet_trie(*self, *ev));
        }
        let mut round: usize = 0;
        while round < ntrips
            invariant
                ev.wf(),
                self.params_ok(),
                nh == ev.nh(),
                nm == ev.nm(),
                mtrie == trie_view(trie@),
                trie_wf(*ev, mtrie, 2_000_000_000i64 / self.bucket_width + 1),
                ntrips == trips@.len(),
                forall|t: int| 0 <= t < trips@.len() ==> triplet_wf(*ev, #[trigger] trips@[t]),
                processed@.len() == ntrips,
                used@.len() == nh,
                valid_reconstruction(*ev, tracks@, self.min_track_len as int),
                tracks_marked(tracks@, used@),
                spec_tt_rounds(*self, *ev, mtrie, trips@, processed@, used@,
                    tracks_model(tracks@), round as int).2 == target,
            decreases ntrips - round,
        {
            let ghost pre_processed = processed@;
            let ghost pre_used = used@;
            let ghost pre_model = tracks_model(tracks@);
            // pick the unprocessed triplet of least residual, lowest index first
            let mut best_t: usize = 0;
            let mut found: bool = false;
            let mut t: usize = 0;
            while t < ntrips
                invariant
                    ntrips == trips@.len(),
                    processed@.len() == ntrips,
                    t <= ntrips,
                    found ==> best_t < t,
                    match spec_select(trips@, processed@, t as int) {
                        None => !found,
                        Some(bt) => found && best_t == bt,
                    },
                decreases ntrips - t,
            {
                if !processed[t] {
                    if !found || trips[t].res < trips[best_t].res {
                        best_t = t;
                        found = true;
                    }
                }
                t = t + 1;
            }
            if found {
                processed.set(best_t, true);
                let trip = trips[best_t];
                proof {
                    assert(triplet_wf(*ev, trips@[best_t as int]));
                }
                if !used[trip.h0] && !used[trip.h1] && !used[trip.h2] {
                    let mut cand: Vec<usize> = Vec::new();
                    cand.push(trip.h0);
                    cand.push(trip.h1);
                    cand.push(trip.h2);
                    proof {
                        assert(cand@ =~= seq![trip.h0, trip.h1, trip.h2]);
                    }
                    let m_last = ev.hits[trip.h2].module;
                    let quality = self.extend_candidate(
                        ev, &trie, &used, &mut cand, trip.h1, m_last + 1, trip.res);
                    let ghost ext = (cand@, quality);
                    if cand.len() >= self.min_track_len {
                        let tr = Track { id: tracks.len() as u64, hits: cand, quality };
                        proof {
                            lemma_disjoint_push(tracks@, tr, used@, nh as int);
                        }
                        let ghost used_before = used@;
                        mark_used(&mut used, &tr.hits);
                        proof {
                            lemma_marked_monotone(tracks@, used_before, used@);
                        }
                        tracks.push(tr);
                        proof {
                            assert(tracks_model(tracks@)
                                =~= pre_model.push((pre_model.len() as u64, ext.0, ext.1)));
                        }
                    }
                }
            }
            proof {
                assert(spec_tt_rounds(*self, *ev, mtrie, trips@, pre_processed, pre_used,
                        pre_model, round as int)
                    == spec_tt_rounds(*self, *ev, mtrie, trips@, processed@, used@,
                        tracks_model(tracks@), round + 1));
            }
            round = round + 1;
        }
        proof {
            assert(spec_tt_rounds(*self, *ev, mtrie, trips@, processed@, used@,
                    tracks_model(tracks@), round as int)
                == (processed@, used@, tracks_model(tracks@)));
        }
        tracks
    }
}

} // verus!
