//! Greedy seed-and-extrapolate reconstruction: seed from pairs of unused
//! hits on adjacent modules, then follow the trajectory module by module,
//! always taking the closest in-window hit, until the hole tolerance is
//! spent or the modules are exhausted.

use vstd::prelude::*;
use crate::VeloError;
use crate::event_model::{
    abs_diff_wide, hits_inbounds, hits_monotone, lemma_disjoint_push, lemma_marked_monotone,
    lemma_monotone_push, lemma_z_order, mark_used, module_of, residual, sat_add_u64,
    spec_abs_diff, spec_closest_hit, spec_mark, tracks_marked, tracks_model,
    valid_reconstruction, Event, Reconstructor, Track, COORD_LIMIT,
};
use crate::geometry::{abs_diff_u64, extrapolate, spec_extrapolate};

verus! {

/// Greedy track following with its tunables.
#[derive(Clone, Copy, PartialEq, Eq, Structural, Debug)]
pub struct TrackFollowing {
    /// Half-width of the search window around the extrapolated point.
    pub window_tol: i64,
    /// Largest allowed displacement between the two seed hits per axis.
    pub slope_tol: i64,
    /// Number of consecutive empty modules tolerated before a candidate
    /// stops growing.
    pub max_hole: usize,
    /// Shortest candidate that is reported as a track.
    pub min_track_len: usize,
}


/// The extension fold of the greedy search: the candidate and accumulated
/// residual after following modules `m2` onward, with `holes` consecutive
/// misses already spent, extrapolating through `h_a`'s and the candidate's
/// last module planes.
pub open spec fn spec_extend(
    cfg: TrackFollowing,
    ev: Event,
    used: Seq<bool>,
    cand: Seq<usize>,
    h_a: usize,
    m2: int,
    holes: int,
    q: u64,
) -> (Seq<usize>, u64)
    decreases ev.nm() - m2,
{
    if m2 >= ev.nm() || holes > cfg.max_hole {
        (cand, q)
    } else {
        let h_b = cand[cand.len() - 1];
        let ma = module_of(ev, h_a as int);
        let mb = module_of(ev, h_b as int);
        let px = spec_extrapolate(ev.hits@[h_a as int].x as int, ev.modules@[ma].z as int,
            ev.hits@[h_b as int].x as int, ev.modules@[mb].z as int, ev.modules@[m2].z as int);
        let py = spec_extrapolate(ev.hits@[h_a as int].y as int, ev.modules@[ma].z as int,
            ev.hits@[h_b as int].y as int, ev.modules@[mb].z as int, ev.modules@[m2].z as int);
        match spec_closest_hit(ev, m2, px, py, cfg.window_tol as int, used) {
            Some(h) => spec_extend(cfg, ev, used, cand.push(h), h_b, m2 + 1, 0,
                sat_add_u64(q, residual(ev.hits@[h as int], px, py) as u64)),
            None => spec_extend(cfg, ev, used, cand, h_a, m2 + 1, holes + 1, q),
        }
    }
}

/// The seed fold over the second module's hits, for a fixed first hit `h0`:
/// the first admissible pair whose extension reaches the minimum length
/// claims its hits and emits one track, and the sweep moves on.
pub open spec fn spec_seed_second(
    cfg: TrackFollowing,
    ev: Event,
    used: Seq<bool>,
    tracks: Seq<(u64, Seq<usize>, u64)>,
    m0: int,
    h0: usize,
    k1: int,
) -> (Seq<bool>, Seq<(u64, Seq<usize>, u64)>)
    decreases ev.modules@[m0 + 1].hits@.len() - k1,
{
    let list1 = ev.modules@[m0 + 1].hits@;
    if k1 >= list1.len() {
        (used, tracks)
    } else {
        let h1 = list1[k1];
        if !used[h0 as int] && !used[h1 as int]
            && spec_abs_diff(ev.hits@[h1 as int].x as int, ev.hits@[h0 as int].x as int) <= cfg.slope_tol
            && spec_abs_diff(ev.hits@[h1 as int].y as int, ev.hits@[h0 as int].y as int) <= cfg.slope_tol
        {
            let ext = spec_extend(cfg, ev, used, seq![h0, h1], h0, m0 + 2, 0, 0);
            if ext.0.len() >= cfg.min_track_len {
                (spec_mark(used, ext.0), tracks.push((tracks.len() as u64, ext.0, ext.1)))
            } else {
                spec_seed_second(cfg, ev, used, tracks, m0, h0, k1 + 1)
            }
        } else {
            spec_seed_second(cfg, ev, used, tracks, m0, h0, k1 + 1)
        }
    }
}

/// The seed fold over the first module's hits.
pub open spec fn spec_seed_first(
    cfg: TrackFollowing,
    ev: Event,
    used: Seq<bool>,
    tracks: Seq<(u64, Seq<usize>, u64)>,
    m0: int,
    k0: int,
) -> (Seq<bool>, Seq<(u64, Seq<usize>, u64)>)
    decreases ev.modules@[m0].hits@.len() - k0,
{
    let list0 = ev.modules@[m0].hits@;
    if k0 >= list0.len() {
        (used, tracks)
    } else {
        let st = spec_seed_second(cfg, ev, used, tracks, m0, list0[k0], 0);
        spec_seed_first(cfg, ev, st.0, st.1, m0, k0 + 1)
    }
}

/// The sweep over seed modules, earliest first.
pub open spec fn spec_tf_sweep(
    cfg: TrackFollowing,
    ev: Event,
    used: Seq<bool>,
    tracks: Seq<(u64, Seq<usize>, u64)>,
    m0: int,
) -> (Seq<bool>, Seq<(u64, Seq<usize>, u64)>)
    decreases ev.nm() - m0,
{
    if ev.nm() < 3 || m0 > ev.nm() - 3 {
        (used, tracks)
    } else {
        let st = spec_seed_first(cfg, ev, used, tracks, m0, 0);
        spec_tf_sweep(cfg, ev, st.0, st.1, m0 + 1)
    }
}

/// The full output of greedy track following on an event: a function of the
/// event and the configuration alone, so reconstruction is deterministic.
pub open spec fn spec_track_following(cfg: TrackFollowing, ev: Event) -> Seq<(u64, Seq<usize>, u64)> {
    spec_tf_sweep(cfg, ev, Seq::new(ev.nh() as nat, |i: int| false), Seq::empty(), 0).1
}

impl TrackFollowing {
    pub open spec fn params_ok(self) -> bool {
        &&& 0 < self.window_tol <= COORD_LIMIT
        &&& 0 < self.slope_tol <= COORD_LIMIT
        &&& self.max_hole <= 1_000_000
        &&& 3 <= self.min_track_len
    }

    /// Accepts the configuration exactly when every tunable is in range.
    pub fn new(window_tol: i64, slope_tol: i64, max_hole: usize, min_track_len: usize)
        -> (r: Result<TrackFollowing, VeloError>)
        ensures
            match r {
                Ok(a) => {
                    &&& a == (TrackFollowing { window_tol, slope_tol, max_hole, min_track_len })
                    &&& a.params_ok()
                },
                Err(e) => {
                    &&& e == VeloError::Configuration
                    &&& !(TrackFollowing { window_tol, slope_tol, max_hole, min_track_len }).params_ok()
                },
            },
    {
        if window_tol <= 0 || window_tol > COORD_LIMIT
            || slope_tol <= 0 || slope_tol > COORD_LIMIT
            || max_hole > 1_000_000
            || min_track_len < 3
        {
            Err(VeloError::Configuration)
        } else {
            Ok(TrackFollowing { window_tol, slope_tol, max_hole, min_track_len })
        }
    }

    /// Extends a candidate from module `m_start` onward: extrapolate the
    /// line through the last two claimed module planes, take the closest
    /// unused in-window hit, and stop once `max_hole` consecutive modules
    /// yield nothing. Returns the accumulated residual (saturating).
    fn extend_candidate(
        &self,
        ev: &Event,
        used: &Vec<bool>,
        cand: &mut Vec<usize>,
        h_a0: usize,
        m_start: usize,
    ) -> (q: u64)
        requires
            ev.wf(),
            self.params_ok(),
            used@.len() == ev.nh(),
            old(cand)@.len() >= 1,
            hits_inbounds(*ev, old(cand)@),
            hits_monotone(*ev, old(cand)@),
            forall|k: int| 0 <= k < old(cand)@.len() ==> !used@[#[trigger] old(cand)@[k] as int],
            h_a0 < ev.nh(),
            module_of(*ev, h_a0 as int) < module_of(*ev, old(cand)@[old(cand)@.len() - 1] as int),
            module_of(*ev, old(cand)@[old(cand)@.len() - 1] as int) < m_start,
            m_start <= ev.nm(),
        ensures
            final(cand)@.len() >= old(cand)@.len(),
            hits_inbounds(*ev, final(cand)@),
            hits_monotone(*ev, final(cand)@),
            forall|k: int| 0 <= k < final(cand)@.len()
                ==> !used@[#[trigger] final(cand)@[k] as int],
            (final(cand)@, q) == spec_extend(*self, *ev, used@, old(cand)@, h_a0, m_start as int, 0, 0),
    {
        let nm = ev.num_modules();
        let mut h_a: usize = h_a0;
        let mut h_b: usize = cand[cand.len() - 1];
        let mut quality: u64 = 0;
        let mut holes: usize = 0;
        let mut m2: usize = m_start;
        while m2 < nm && holes <= self.max_hole
            invariant
                ev.wf(),
                self.params_ok(),
                used@.len() == ev.nh(),
                nm == ev.nm(),
                cand@.len() >= old(cand)@.len() >= 1,
                hits_inbounds(*ev, cand@),
                hits_monotone(*ev, cand@),
                forall|k: int| 0 <= k < cand@.len() ==> !used@[#[trigger] cand@[k] as int],
                h_a < ev.nh(),
                h_b < ev.nh(),
                h_b == cand@[cand@.len() - 1],
                module_of(*ev, h_a as int) < module_of(*ev, h_b as int),
                module_of(*ev, h_b as int) < m2,
                m2 <= nm,
                holes <= self.max_hole + 1,
                spec_extend(*self, *ev, used@, cand@, h_a, m2 as int, holes as int, quality)
                    == spec_extend(*self, *ev, used@, old(cand)@, h_a0, m_start as int, 0, 0),
            decreases nm - m2,
        {
            let ghost pre_cand = cand@;
            let ghost pre_ha = h_a;
            let ghost pre_hb = h_b;
            let ghost pre_m2 = m2 as int;
            let ghost pre_holes = holes as int;
            let ghost pre_q = quality;
            let ma = ev.hits[h_a].module;
            let mb = ev.hits[h_b].module;
            proof {
                lemma_z_order(*ev, ma as int, mb as int);
                lemma_z_order(*ev, mb as int, m2 as int);
            }
            let za = ev.modules[ma].z;
            let zb = ev.modules[mb].z;
            let z2 = ev.modules[m2].z;
            let px = extrapolate(ev.hits[h_a].x, za, ev.hits[h_b].x, zb, z2);
            let py = extrapolate(ev.hits[h_a].y, za, ev.hits[h_b].y, zb, z2);
            match ev.closest_hit_in_window(m2, px, py, self.window_tol, used) {
                Some(h) => {
                    proof {
                        lemma_monotone_push(*ev, cand@, h);
                    }
                    let dx = abs_diff_wide(ev.hits[h].x, px);
                    let dy = abs_diff_wide(ev.hits[h].y, py);
                    let step = (dx + dy) as u64;
                    quality = if quality <= u64::MAX - step { quality + step } else { u64::MAX };
                    cand.push(h);
                    h_a = h_b;
                    h_b = h;
                    holes = 0;
                },
                None => {
                    holes = holes + 1;
                },
            }
            proof {
                assert(spec_extend(*self, *ev, used@, pre_cand, pre_ha, pre_m2, pre_holes, pre_q)
                    == spec_extend(*self, *ev, used@, cand@, h_a, pre_m2 + 1, holes as int, quality));
            }
            m2 = m2 + 1;
        }
        quality
    }
}

impl Reconstructor for TrackFollowing {
    // Conflict policy: seeds are tried in module order, then by hit index in
    // the first and second seed module; a claimed hit leaves the pool, so
    // hit-stealing between crossing candidates is reproducible.
    open spec fn valid(&self) -> bool {
        self.params_ok()
    }

    open spec fn min_len(&self) -> int {
        self.min_track_len as int
    }

    fn reconstruct(&self, ev: &Event) -> (r: Vec<Track>)
        ensures
            tracks_model(r@) == spec_track_following(*self, *ev),
    {
        let nh = ev.num_hits();
        let nm = ev.num_modules();
        let mut used: Vec<bool> = Vec::new();
        while used.len() < nh
            invariant
                used@.len() <= nh,
                forall|i: int| 0 <= i < used@.len() ==> !used@[i],
            decreases nh - used@.len(),
        {
            used.push(false);
        }
        let mut tracks: Vec<Track> = Vec::new();
        proof {
            assert(used@ =~= Seq::new(ev.nh() as nat, |i: int| false));
            assert(tracks_model(tracks@) =~= Seq::<(u64, Seq<usize>, u64)>::empty());
        }
        let ghost target = spec_tf_sweep(*self, *ev, used@, tracks_model(tracks@), 0).1;
        if nm < 3 {
            return tracks;
        }
        let mut m0: usize = 0;
        while m0 <= nm - 3
            invariant
                nm >= 3,
                ev.wf(),
                self.params_ok(),
                nh == ev.nh(),
                nm == ev.nm(),
                used@.len() == nh,
                valid_reconstruction(*ev, tracks@, self.min_track_len as int),
                tracks_marked(tracks@, used@),
                target == spec_track_following(*self, *ev),
                spec_tf_sweep(*self, *ev, used@, tracks_model(tracks@), m0 as int).1 == target,
            decreases nm - m0,
        {
            let ghost sweep_used = used@;
            let ghost sweep_model = tracks_model(tracks@);
            let list0_len = ev.modules[m0].hits.len();
            let mut k0: usize = 0;
            while k0 < list0_len
                invariant
                    ev.wf(),
                    self.params_ok(),
                    nh == ev.nh(),
                    nm == ev.nm(),
                    m0 + 3 <= nm,
                    list0_len == ev.modules@[m0 as int].hits@.len(),
                    k0 <= list0_len,
                    used@.len() == nh,
                    valid_reconstruction(*ev, tracks@, self.min_track_len as int),
                    tracks_marked(tracks@, used@),
                    spec_seed_first(*self, *ev, used@, tracks_model(tracks@), m0 as int, k0 as int)
                        == spec_seed_first(*self, *ev, sweep_used, sweep_model, m0 as int, 0),
                decreases list0_len - k0,
            {
                let ghost k0_used = used@;
                let ghost k0_model = tracks_model(tracks@);
                proof {
                    assert(ev.module_list_wf(m0 as int));
                    assert(ev.module_list_wf(m0 + 1));
                }
                let h0 = ev.modules[m0].hits[k0];
                let list1_len = ev.modules[m0 + 1].hits.len();
                let mut k1: usize = 0;
                let mut seeded: bool = false;
                while k1 < list1_len && !seeded
                    invariant
                        ev.wf(),
                        self.params_ok(),
                        nh == ev.nh(),
                        nm == ev.nm(),
                        m0 + 3 <= nm,
                        h0 < nh,
                        ev.hits@[h0 as int].module == m0,
                        list1_len == ev.modules@[m0 + 1].hits@.len(),
                        k1 <= list1_len,
                        used@.len() == nh,
                        valid_reconstruction(*ev, tracks@, self.min_track_len as int),
                        tracks_marked(tracks@, used@),
                        if seeded {
                            (used@, tracks_model(tracks@))
                                == spec_seed_second(*self, *ev, k0_used, k0_model, m0 as int, h0, 0)
                        } else {
                            spec_seed_second(*self, *ev, used@, tracks_model(tracks@), m0 as int, h0, k1 as int)
                                == spec_seed_second(*self, *ev, k0_used, k0_model, m0 as int, h0, 0)
                        },
                    decreases list1_len - k1,
                {
                    let ghost k1_used = used@;
                    let ghost k1_model = tracks_model(tracks@);
                    let ghost pre_k1 = k1 as int;
                    proof {
                        assert(ev.module_list_wf(m0 + 1));
                    }
                    let h1 = ev.modules[m0 + 1].hits[k1];
                    if !used[h0] && !used[h1] {
                        let dx = abs_diff_u64(ev.hits[h1].x, ev.hits[h0].x);
                        let dy = abs_diff_u64(ev.hits[h1].y, ev.hits[h0].y);
                        if dx <= self.slope_tol as u64 && dy <= self.slope_tol as u64 {
                            let mut cand: Vec<usize> = Vec::new();
                            cand.push(h0);
                            cand.push(h1);
                            proof {
                                assert(cand@ =~= seq![h0, h1]);
                            }
                            let quality =
                                self.extend_candidate(ev, &used, &mut cand, h0, m0 + 2);
                            let ghost ext = (cand@, quality);
                            if cand.len() >= self.min_track_len {
                                let t = Track {
                                    id: tracks.len() as u64,
                                    hits: cand,
                                    quality,
                                };
                                proof {
                                    lemma_disjoint_push(tracks@, t, used@, nh as int);
                                }
                                let ghost used_before = used@;
                                mark_used(&mut used, &t.hits);
                                proof {
                                    lemma_marked_monotone(tracks@, used_before, used@);
                                }
                                tracks.push(t);
                                seeded = true;
                                proof {
                                    assert(tracks_model(tracks@)
                                        =~= k1_model.push((k1_model.len() as u64, ext.0, ext.1)));
                                    assert((used@, tracks_model(tracks@))
                                        == spec_seed_second(*self, *ev, k1_used, k1_model, m0 as int, h0, pre_k1));
                                }
                            }
                        }
                    }
                    proof {
                        if !seeded {
                            assert(spec_seed_second(*self, *ev, k1_used, k1_model, m0 as int, h0, pre_k1)
                                == spec_seed_second(*self, *ev, used@, tracks_model(tracks@), m0 as int, h0, pre_k1 + 1));
                        }
                    }
                    k1 = k1 + 1;
                }
                proof {
                    if !seeded {
                        assert(spec_seed_second(*self, *ev, used@, tracks_model(tracks@), m0 as int, h0, k1 as int)
                            == (used@, tracks_model(tracks@)));
                    }
                    assert(spec_seed_first(*self, *ev, k0_used, k0_model, m0 as int, k0 as int)
                        == spec_seed_first(*self, *ev, used@, tracks_model(tracks@), m0 as int, k0 + 1));
                }
                k0 = k0 + 1;
            }
            proof {
                assert(spec_seed_first(*self, *ev, used@, tracks_model(tracks@), m0 as int, list0_len as int)
                    == (used@, tracks_model(tracks@)));
                assert(spec_tf_sweep(*self, *ev, sweep_used, sweep_model, m0 as int)
                    == spec_tf_sweep(*self, *ev, used@, tracks_model(tracks@), m0 + 1));
            }
            m0 = m0 + 1;
        }
        proof {
            assert(spec_tf_sweep(*self, *ev, used@, tracks_model(tracks@), m0 as int)
                == (used@, tracks_model(tracks@)));
        }
        tracks
    }
}

} // verus!
