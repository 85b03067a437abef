//! The event data model: hits, modules, tracks, truth particles, and the
//! query surface every reconstruction algorithm uses.

use vstd::prelude::*;
use crate::VeloError;

verus! {

/// Largest magnitude allowed for any coordinate or tolerance, so that all
/// residual arithmetic stays exact in the machine integers used.
pub const COORD_LIMIT: i64 = 1_000_000_000;

/// One 3D measurement on one detector module. Immutable once constructed.
#[derive(Clone, Copy, PartialEq, Eq, Structural, Debug)]
pub struct Hit {
    /// Identifier reported to callers.
    pub id: u64,
    /// Index of the owning module in the event's z-ordered module sequence.
    pub module: usize,
    pub x: i64,
    pub y: i64,
    pub z: i64,
}

/// A detector layer at a fixed z position, listing the hits that lie on it.
#[derive(Clone, Debug)]
pub struct Module {
    pub id: u64,
    pub z: i64,
    /// Indices into the event's hit container, strictly increasing.
    pub hits: Vec<usize>,
}

/// An ordered group of hits attributed to one trajectory. Hits are stored
/// as indices into the event's hit container and cross modules in strictly
/// increasing order.
#[derive(Clone, PartialEq, Eq, Debug)]
pub struct Track {
    pub id: u64,
    pub hits: Vec<usize>,
    /// Accumulated residual of the extensions that formed the track
    /// (lower is better).
    pub quality: u64,
}

/// One truth particle and the hits it deposited (validation only).
#[derive(Clone, PartialEq, Eq, Debug)]
pub struct Particle {
    pub id: u64,
    /// Indices into the event's hit container, strictly increasing.
    pub hits: Vec<usize>,
}

/// One detector readout: the full hit set, the z-ordered modules, and an
/// optional truth table (empty when truth is unknown).
#[derive(Clone, Debug)]
pub struct Event {
    pub hits: Vec<Hit>,
    pub modules: Vec<Module>,
    pub truth: Vec<Particle>,
}

pub open spec fn coord_ok(v: i64) -> bool {
    -COORD_LIMIT <= v <= COORD_LIMIT
}

pub open spec fn hit_wf(h: Hit, nmodules: int) -> bool {
    &&& h.module < nmodules
    &&& coord_ok(h.x)
    &&& coord_ok(h.y)
    &&& coord_ok(h.z)
}

/// A strictly increasing list of valid hit indices.
pub open spec fn index_list_wf(l: Seq<usize>, nhits: int) -> bool {
    &&& forall|k: int| 0 <= k < l.len() ==> #[trigger] l[k] < nhits
    &&& forall|k1: int, k2: int| 0 <= k1 < k2 < l.len() ==> l[k1] < l[k2]
}

impl Event {
    pub open spec fn nh(self) -> int {
        self.hits.len() as int
    }

    pub open spec fn nm(self) -> int {
        self.modules.len() as int
    }

    /// Module `m` lists only its own hits, in strictly increasing index order.
    pub open spec fn module_list_wf(self, m: int) -> bool {
        &&& index_list_wf(self.modules[m].hits@, self.nh())
        &&& forall|k: int| 0 <= k < self.modules[m].hits@.len()
                ==> self.hits@[#[trigger] self.modules[m].hits@[k] as int].module == m
    }

    pub open spec fn truth_wf(self) -> bool {
        forall|p: int| 0 <= p < self.truth.len()
            ==> index_list_wf(#[trigger] self.truth@[p].hits@, self.nh())
    }

    /// Event well-formedness: every hit lies on an existing module with
    /// bounded coordinates, each module lists only its own hits, modules are
    /// strictly ordered by z, and truth references only existing hits.
    pub open spec fn wf(self) -> bool {
        &&& forall|i: int| 0 <= i < self.nh() ==> hit_wf(#[trigger] self.hits@[i], self.nm())
        &&& forall|m: int| 0 <= m < self.nm() ==> #[trigger] self.module_list_wf(m)
        &&& forall|m: int| 0 <= m < self.nm() ==> coord_ok(#[trigger] self.modules@[m].z)
        &&& forall|m: int| 0 <= m < self.nm() - 1
                ==> (#[trigger] self.modules@[m].z) < self.modules@[m + 1].z
        &&& self.truth_wf()
    }
}

/// Module index of hit `h` of the event.
pub open spec fn module_of(ev: Event, h: int) -> int {
    ev.hits@[h].module as int
}

/// Every entry is a valid hit index of the event.
pub open spec fn hits_inbounds(ev: Event, s: Seq<usize>) -> bool {
    forall|k: int| 0 <= k < s.len() ==> (#[trigger] s[k]) < ev.nh()
}

/// Module indices strictly increase along the sequence.
pub open spec fn hits_monotone(ev: Event, s: Seq<usize>) -> bool {
    forall|a: int, b: int| 0 <= a < b < s.len()
        ==> module_of(ev, #[trigger] s[a] as int) < module_of(ev, #[trigger] s[b] as int)
}

/// The track references only existing hits and crosses modules in strictly
/// increasing order (which also makes its hit indices pairwise distinct).
pub open spec fn track_wf(ev: Event, t: Track) -> bool {
    &&& hits_inbounds(ev, t.hits@)
    &&& hits_monotone(ev, t.hits@)
}

/// Appending a hit from a strictly later module keeps a candidate monotone.
pub proof fn lemma_monotone_push(ev: Event, s: Seq<usize>, h: usize)
    requires
        hits_monotone(ev, s),
        s.len() >= 1 ==> module_of(ev, s[s.len() - 1] as int) < module_of(ev, h as int),
    ensures
        hits_monotone(ev, s.push(h)),
{
    let s2 = s.push(h);
    assert forall|a: int, b: int| 0 <= a < b < s2.len()
        implies module_of(ev, #[trigger] s2[a] as int) < module_of(ev, #[trigger] s2[b] as int) by {
        if b < s.len() {
            assert(s2[a] == s[a] && s2[b] == s[b]);
        } else {
            assert(s2[b] == h);
            assert(s2[a] == s[a]);
            if a < s.len() - 1 {
                assert(module_of(ev, s[a] as int) < module_of(ev, s[s.len() - 1] as int));
            }
        }
    }
}

/// No hit index occurs in two distinct tracks of the sequence.
pub open spec fn tracks_disjoint(ts: Seq<Track>) -> bool {
    forall|i: int, j: int, a: int, b: int|
        0 <= i < ts.len() && 0 <= j < ts.len() && i != j
            && 0 <= a < ts[i].hits@.len() && 0 <= b < ts[j].hits@.len()
            ==> #[trigger] ts[i].hits@[a] != #[trigger] ts[j].hits@[b]
}

/// The shared postcondition of every reconstruction algorithm: well-formed,
/// strictly module-monotonic tracks of at least `min_len` hits, pairwise
/// disjoint, numbered by output position.
pub open spec fn valid_reconstruction(ev: Event, ts: Seq<Track>, min_len: int) -> bool {
    &&& forall|i: int| 0 <= i < ts.len() ==> track_wf(ev, #[trigger] ts[i])
    &&& forall|i: int| 0 <= i < ts.len() ==> (#[trigger] ts[i].hits@.len()) >= min_len
    &&& forall|i: int| 0 <= i < ts.len() ==> (#[trigger] ts[i].id) == i
    &&& tracks_disjoint(ts)
}

/// Every hit index of every track is flagged in `used`.
pub open spec fn tracks_marked(ts: Seq<Track>, used: Seq<bool>) -> bool {
    forall|i: int, a: int| 0 <= i < ts.len() && 0 <= a < ts[i].hits@.len()
        ==> used[#[trigger] ts[i].hits@[a] as int]
}

/// Appending a track of fresh (unflagged) hits to tracks whose hits are all
/// flagged keeps the sequence pairwise disjoint.
pub proof fn lemma_disjoint_push(ts: Seq<Track>, t: Track, used: Seq<bool>, nh: int)
    requires
        tracks_disjoint(ts),
        tracks_marked(ts, used),
        forall|i: int, a: int| 0 <= i < ts.len() && 0 <= a < ts[i].hits@.len()
            ==> #[trigger] ts[i].hits@[a] < nh,
        used.len() == nh,
        forall|a: int| 0 <= a < t.hits@.len()
            ==> #[trigger] t.hits@[a] < nh && !used[t.hits@[a] as int],
    ensures
        tracks_disjoint(ts.push(t)),
{
    let ts2 = ts.push(t);
    assert forall|i: int, j: int, a: int, b: int|
        0 <= i < ts2.len() && 0 <= j < ts2.len() && i != j
            && 0 <= a < ts2[i].hits@.len() && 0 <= b < ts2[j].hits@.len()
        implies #[trigger] ts2[i].hits@[a] != #[trigger] ts2[j].hits@[b] by {
        if i < ts.len() && j < ts.len() {
            assert(ts2[i] == ts[i] && ts2[j] == ts[j]);
            assert(ts[i].hits@[a] != ts[j].hits@[b]);
        } else if i == ts.len() {
            assert(ts2[i] == t && ts2[j] == ts[j]);
            assert(used[ts[j].hits@[b] as int]);
            assert(!used[t.hits@[a] as int]);
        } else {
            assert(ts2[j] == t && ts2[i] == ts[i]);
            assert(used[ts[i].hits@[a] as int]);
            assert(!used[t.hits@[b] as int]);
        }
    }
}

/// Tracks stay marked when flags are only ever raised.
pub proof fn lemma_marked_monotone(ts: Seq<Track>, u1: Seq<bool>, u2: Seq<bool>)
    requires
        tracks_marked(ts, u1),
        u1.len() == u2.len(),
        forall|i: int, a: int| 0 <= i < ts.len() && 0 <= a < ts[i].hits@.len()
            ==> #[trigger] ts[i].hits@[a] < u1.len(),
        forall|k: int| 0 <= k < u1.len() && u1[k] ==> u2[k],
    ensures
        tracks_marked(ts, u2),
{
    assert forall|i: int, a: int| 0 <= i < ts.len() && 0 <= a < ts[i].hits@.len()
        implies u2[#[trigger] ts[i].hits@[a] as int] by {
        assert(u1[ts[i].hits@[a] as int]);
    }
}

/// Raises the flag of every listed hit index, touching nothing else.
pub fn mark_used(used: &mut Vec<bool>, l: &Vec<usize>)
    requires
        forall|k: int| 0 <= k < l@.len() ==> (#[trigger] l@[k]) < old(used)@.len(),
    ensures
        final(used)@.len() == old(used)@.len(),
        forall|i: int| 0 <= i < final(used)@.len() && old(used)@[i] ==> final(used)@[i],
        forall|k: int| 0 <= k < l@.len() ==> final(used)@[#[trigger] l@[k] as int],
        final(used)@ == spec_mark(old(used)@, l@),
{
    let len = l.len();
    let mut k: usize = 0;
    while k < len
        invariant
            len == l@.len(),
            k <= len,
            used@.len() == old(used)@.len(),
            forall|kk: int| 0 <= kk < l@.len() ==> (#[trigger] l@[kk]) < used@.len(),
            forall|i: int| 0 <= i < used@.len() && old(used)@[i] ==> used@[i],
            forall|kk: int| 0 <= kk < k ==> used@[#[trigger] l@[kk] as int],
            used@ == spec_mark(old(used)@, l@.take(k as int)),
        decreases len - k,
    {
        let idx = l[k];
        used.set(idx, true);
        proof {
            assert(l@.take(k + 1).drop_last() =~= l@.take(k as int));
            assert(l@.take(k + 1).last() == l@[k as int]);
        }
        k = k + 1;
    }
    proof {
        assert(l@.take(len as int) =~= l@);
    }
}

/// The shared interface of the three reconstruction strategies: one
/// `reconstruct` call per event, under one contract.
pub trait Reconstructor: Sized {
    /// The algorithm's tunables are in range.
    spec fn valid(&self) -> bool;

    /// Minimum number of hits a reported track must reach.
    spec fn min_len(&self) -> int;

    /// Turns one event into a sequence of tracks: well-formed, strictly
    /// module-monotonic, pairwise hit-disjoint, each at least `min_len`
    /// hits, numbered by output position. Each implementation additionally
    /// fixes its entire output as a function of the event and its tunables,
    /// so reconstruction is deterministic.
    fn reconstruct(&self, ev: &Event) -> (r: Vec<Track>)
        requires
            ev.wf(),
            self.valid(),
        ensures
            valid_reconstruction(*ev, r@, self.min_len()),
    ;
}

/// In a list whose adjacent entries strictly increase, any earlier entry is
/// less than any later one.
pub proof fn lemma_adj_lt(l: Seq<usize>, a: int, b: int)
    requires
        forall|k: int| 0 <= k < l.len() - 1 ==> (#[trigger] l[k]) < l[k + 1],
        0 <= a < b < l.len(),
    ensures
        l[a] < l[b],
    decreases b - a,
{
    if a + 1 < b {
        lemma_adj_lt(l, a, b - 1);
    }
}

/// Strict z-ordering of adjacent modules gives strict ordering of any pair.
pub proof fn lemma_z_order(ev: Event, m1: int, m2: int)
    requires
        forall|m: int| 0 <= m < ev.nm() - 1
            ==> (#[trigger] ev.modules@[m].z) < ev.modules@[m + 1].z,
        0 <= m1 < m2 < ev.nm(),
    ensures
        ev.modules@[m1].z < ev.modules@[m2].z,
    decreases m2 - m1,
{
    if m1 + 1 < m2 {
        lemma_z_order(ev, m1, m2 - 1);
    }
}

/// Absolute displacement in one axis, exact in i64 for bounded coordinates.
pub open spec fn spec_abs_diff(a: int, b: int) -> int {
    if a >= b { a - b } else { b - a }
}

/// The hit lies within `tol` of the prediction `(px, py)` in both axes.
pub open spec fn in_window(h: Hit, px: int, py: int, tol: int) -> bool {
    spec_abs_diff(h.x as int, px) <= tol && spec_abs_diff(h.y as int, py) <= tol
}

/// Residual of a hit against a prediction: L1 distance in the module plane.
pub open spec fn residual(h: Hit, px: int, py: int) -> int {
    spec_abs_diff(h.x as int, px) + spec_abs_diff(h.y as int, py)
}

/// The mathematical image of a produced track: its id, hit indices, and
/// quality, free of container types.
pub open spec fn track_model(t: Track) -> (u64, Seq<usize>, u64) {
    (t.id, t.hits@, t.quality)
}

/// The image of a whole track sequence.
pub open spec fn tracks_model(ts: Seq<Track>) -> Seq<(u64, Seq<usize>, u64)> {
    ts.map_values(|t: Track| track_model(t))
}

/// Saturating addition on the quality accumulator.
pub open spec fn sat_add_u64(a: u64, b: u64) -> u64 {
    if a + b > u64::MAX {
        u64::MAX
    } else {
        (a + b) as u64
    }
}

/// The flag sequence after raising every index of `l`.
pub open spec fn spec_mark(used: Seq<bool>, l: Seq<usize>) -> Seq<bool>
    decreases l.len(),
{
    if l.len() == 0 {
        used
    } else {
        spec_mark(used, l.drop_last()).update(l.last() as int, true)
    }
}

/// The first `k` entries of module `m`'s hit list scanned for the unused
/// in-window hit of least residual, ties to the earliest entry; the winner
/// and its residual.
pub open spec fn spec_window_scan(
    ev: Event,
    m: int,
    px: int,
    py: int,
    tol: int,
    used: Seq<bool>,
    k: int,
) -> Option<(usize, int)>
    decreases k,
{
    if k <= 0 {
        None
    } else {
        let prev = spec_window_scan(ev, m, px, py, tol, used, k - 1);
        let c = ev.modules@[m].hits@[k - 1];
        if !used[c as int] && in_window(ev.hits@[c as int], px, py, tol) {
            let res = residual(ev.hits@[c as int], px, py);
            match prev {
                None => Some((c, res)),
                Some(b) => if res < b.1 { Some((c, res)) } else { prev },
            }
        } else {
            prev
        }
    }
}

/// What the windowed query returns on module `m`.
pub open spec fn spec_closest_hit(
    ev: Event,
    m: int,
    px: int,
    py: int,
    tol: int,
    used: Seq<bool>,
) -> Option<usize> {
    match spec_window_scan(ev, m, px, py, tol, used, ev.modules@[m].hits@.len() as int) {
        None => None,
        Some(b) => Some(b.0),
    }
}

/// Absolute difference of two machine integers, exact for any inputs.
pub fn abs_diff_wide(a: i64, b: i64) -> (r: i128)
    ensures
        r == spec_abs_diff(a as int, b as int),
{
    let aw = a as i128;
    let bw = b as i128;
    if aw >= bw {
        aw - bw
    } else {
        bw - aw
    }
}

/// Runtime check that `l` is a strictly increasing list of indices below
/// `nhits`, deciding `index_list_wf` exactly.
pub fn check_index_list(l: &Vec<usize>, nhits: usize) -> (r: bool)
    ensures
        r == index_list_wf(l@, nhits as int),
{
    let len = l.len();
    let mut k: usize = 0;
    while k < len
        invariant
            len == l@.len(),
            k <= len,
            forall|kk: int| 0 <= kk < k ==> (#[trigger] l@[kk]) < nhits,
            forall|kk: int| 0 < kk < k ==> l@[kk - 1] < (#[trigger] l@[kk]),
        decreases len - k,
    {
        if l[k] >= nhits {
            return false;
        }
        if k > 0 && l[k - 1] >= l[k] {
            return false;
        }
        k = k + 1;
    }
    proof {
        assert forall|k1: int, k2: int| 0 <= k1 < k2 < l@.len() implies l@[k1] < l@[k2] by {
            assert(forall|kk: int| 0 <= kk < l@.len() - 1 ==> (#[trigger] l@[kk]) < l@[kk + 1]);
            lemma_adj_lt(l@, k1, k2);
        }
    }
    true
}

impl Event {
    /// Builds an event after checking its structural invariants, rejecting
    /// malformed input exactly when `wf` fails.
    pub fn new(hits: Vec<Hit>, modules: Vec<Module>, truth: Vec<Particle>) -> (r: Result<Event, VeloError>)
        ensures
            match r {
                Ok(ev) => ev.wf() && ev.hits == hits && ev.modules == modules && ev.truth == truth,
                Err(e) => {
                    &&& e == VeloError::MalformedEvent
                    &&& !(Event { hits, modules, truth }).wf()
                },
            },
    {
        let ev = Event { hits, modules, truth };
        if ev.validate() {
            Ok(ev)
        } else {
            Err(VeloError::MalformedEvent)
        }
    }

    /// Decides `wf` at runtime.
    pub fn validate(&self) -> (r: bool)
        ensures
            r == self.wf(),
    {
        let nh = self.hits.len();
        let nm = self.modules.len();

        let mut i: usize = 0;
        while i < nh
            invariant
                nh == self.nh(),
                nm == self.nm(),
                i <= nh,
                forall|ii: int| 0 <= ii < i ==> hit_wf(#[trigger] self.hits@[ii], nm as int),
            decreases nh - i,
        {
            let h = &self.hits[i];
            if h.module >= nm
                || h.x < -COORD_LIMIT || h.x > COORD_LIMIT
                || h.y < -COORD_LIMIT || h.y > COORD_LIMIT
                || h.z < -COORD_LIMIT || h.z > COORD_LIMIT
            {
                return false;
            }
            i = i + 1;
        }

        let mut m: usize = 0;
        while m < nm
            invariant
                nh == self.nh(),
                nm == self.nm(),
                m <= nm,
                forall|mm: int| 0 <= mm < m ==> #[trigger] self.module_list_wf(mm),
                forall|mm: int| 0 <= mm < m ==> coord_ok(#[trigger] self.modules@[mm].z),
                forall|mm: int| 0 <= mm < m - 1
                    ==> (#[trigger] self.modules@[mm].z) < self.modules@[mm + 1].z,
            decreases nm - m,
        {
            let md = &self.modules[m];
            if md.z < -COORD_LIMIT || md.z > COORD_LIMIT {
                return false;
            }
            if m > 0 && self.modules[m - 1].z >= md.z {
                proof {
                    assert(self.modules@[m - 1].z >= self.modules@[m as int].z);
                    assert(!self.wf());
                }
                return false;
            }
            if !check_index_list(&md.hits, nh) {
                proof {
                    assert(!self.module_list_wf(m as int));
                    assert(!self.wf());
                }
                return false;
            }
            let llen = md.hits.len();
            let mut k: usize = 0;
            while k < llen
                invariant
                    nh == self.nh(),
                    m < self.nm(),
                    llen == self.modules@[m as int].hits@.len(),
                    index_list_wf(self.modules@[m as int].hits@, nh as int),
                    k <= llen,
                    forall|kk: int| 0 <= kk < k
                        ==> self.hits@[#[trigger] self.modules@[m as int].hits@[kk] as int].module == m,
                decreases llen - k,
            {
                let hidx = self.modules[m].hits[k];
                if self.hits[hidx].module != m {
                    proof {
                        assert(self.hits@[self.modules@[m as int].hits@[k as int] as int].module != m);
                        assert(!self.module_list_wf(m as int));
                        assert(!self.wf());
                    }
                    return false;
                }
                k = k + 1;
            }
            m = m + 1;
        }

        let np = self.truth.len();
        let mut p: usize = 0;
        while p < np
            invariant
                nh == self.nh(),
                np == self.truth@.len(),
                p <= np,
                forall|pp: int| 0 <= pp < p ==> index_list_wf(#[trigger] self.truth@[pp].hits@, nh as int),
            decreases np - p,
        {
            if !check_index_list(&self.truth[p].hits, nh) {
                return false;
            }
            p = p + 1;
        }
        true
    }

    /// Number of modules, for callers that iterate the z-ordered sequence.
    pub fn num_modules(&self) -> (r: usize)
        ensures
            r == self.nm(),
    {
        self.modules.len()
    }

    pub fn num_hits(&self) -> (r: usize)
        ensures
            r == self.nh(),
    {
        self.hits.len()
    }

    /// The hit indices lying on module `m`, in increasing index order.
    pub fn module_hits(&self, m: usize) -> (r: &Vec<usize>)
        requires
            m < self.nm(),
        ensures
            r@ == self.modules@[m as int].hits@,
    {
        &self.modules[m].hits
    }

    /// One hit by index.
    pub fn hit_at(&self, h: usize) -> (r: &Hit)
        requires
            h < self.nh(),
        ensures
            *r == self.hits@[h as int],
    {
        &self.hits[h]
    }

    /// The windowed query every algorithm extends through: among the unused
    /// hits of module `m` within `tol` of the prediction in both axes,
    /// return the one of least residual, ties resolved to the lowest hit
    /// index; `None` when no such hit exists.
    pub fn closest_hit_in_window(
        &self,
        m: usize,
        px: i64,
        py: i64,
        tol: i64,
        used: &Vec<bool>,
    ) -> (r: Option<usize>)
        requires
            self.wf(),
            m < self.nm(),
            used@.len() == self.nh(),
            0 <= tol <= COORD_LIMIT,
        ensures
            r == spec_closest_hit(*self, m as int, px as int, py as int, tol as int, used@),
            match r {
                Some(h) => {
                    &&& h < self.nh()
                    &&& !used@[h as int]
                    &&& self.hits@[h as int].module == m
                    &&& in_window(self.hits@[h as int], px as int, py as int, tol as int)
                    &&& forall|k: int| 0 <= k < self.modules@[m as int].hits@.len()
                        && !used@[#[trigger] self.modules@[m as int].hits@[k] as int]
                        && in_window(self.hits@[self.modules@[m as int].hits@[k] as int], px as int, py as int, tol as int)
                        ==> {
                            let c = self.modules@[m as int].hits@[k] as int;
                            let rh = residual(self.hits@[h as int], px as int, py as int);
                            let rc = residual(self.hits@[c], px as int, py as int);
                            rh < rc || (rh == rc && h <= c)
                        }
                },
                None => forall|k: int| 0 <= k < self.modules@[m as int].hits@.len()
                    ==> {
                        let c = #[trigger] self.modules@[m as int].hits@[k] as int;
                        used@[c] || !in_window(self.hits@[c], px as int, py as int, tol as int)
                    },
            },
    {
        let list_len = self.modules[m].hits.len();
        let mut best: Option<usize> = None;
        let mut best_res: i128 = 0;
        let mut k: usize = 0;
        while k < list_len
            invariant
                self.wf(),
                m < self.nm(),
                used@.len() == self.nh(),
                0 <= tol <= COORD_LIMIT,
                list_len == self.modules@[m as int].hits@.len(),
                k <= list_len,
                match spec_window_scan(*self, m as int, px as int, py as int, tol as int, used@, k as int) {
                    None => best is None,
                    Some(b) => best == Some(b.0) && best_res == b.1,
                },
                match best {
                    Some(h) => {
                        &&& h < self.nh()
                        &&& !used@[h as int]
                        &&& self.hits@[h as int].module == m
                        &&& in_window(self.hits@[h as int], px as int, py as int, tol as int)
                        &&& best_res == residual(self.hits@[h as int], px as int, py as int)
                        &&& exists|kp: int| 0 <= kp < k
                                && (#[trigger] self.modules@[m as int].hits@[kp]) == h
                        &&& forall|kk: int| 0 <= kk < k
                            && !used@[#[trigger] self.modules@[m as int].hits@[kk] as int]
                            && in_window(self.hits@[self.modules@[m as int].hits@[kk] as int], px as int, py as int, tol as int)
                            ==> {
                                let c = self.modules@[m as int].hits@[kk] as int;
                                let rc = residual(self.hits@[c], px as int, py as int);
                                best_res < rc || (best_res == rc && h <= c)
                            }
                    },
                    None => forall|kk: int| 0 <= kk < k
                        ==> {
                            let c = #[trigger] self.modules@[m as int].hits@[kk] as int;
                            used@[c] || !in_window(self.hits@[c], px as int, py as int, tol as int)
                        },
                },
            decreases list_len - k,
        {
            let hidx = self.modules[m].hits[k];
            assert(self.module_list_wf(m as int));
            assert(hidx < self.nh());
            assert(hit_wf(self.hits@[hidx as int], self.nm()));
            if !used[hidx] {
                let h = &self.hits[hidx];
                let dx = abs_diff_wide(h.x, px);
                let dy = abs_diff_wide(h.y, py);
                if dx <= tol as i128 && dy <= tol as i128 {
                    let res = dx + dy;
                    match best {
                        None => {
                            best = Some(hidx);
                            best_res = res;
                        },
                        Some(b) => {
                            if res < best_res {
                                best = Some(hidx);
                                best_res = res;
                            } else {
                                proof {
                                    let kp = choose|kp: int| 0 <= kp < k
                                        && (#[trigger] self.modules@[m as int].hits@[kp]) == b;
                                    assert(self.modules@[m as int].hits@[kp]
                                        < self.modules@[m as int].hits@[k as int]);
                                }
                            }
                        },
                    }
                }
            }
            k = k + 1;
        }
        best
    }
}

} // verus!
