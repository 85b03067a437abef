//! Graph-based reconstruction: build a compatibility graph whose edges join
//! hits on adjacent modules within tolerance, then search depth-first from
//! each unused hit for the longest compatible path, preferring the lowest
//! accumulated residual among equally long paths.

use vstd::prelude::*;
use crate::VeloError;
use crate::event_model::{
    abs_diff_wide, hits_inbounds, hits_monotone, lemma_disjoint_push, lemma_marked_monotone,
    mark_used, module_of, sat_add_u64, spec_abs_diff, spec_mark, tracks_marked, tracks_model,
    valid_reconstruction, Event, Reconstructor, Track, COORD_LIMIT,
};

verus! {

/// Depth-first graph search with its tunables.
#[derive(Clone, Copy, PartialEq, Eq, Structural, Debug)]
pub struct GraphDFS {
    /// Largest allowed displacement per axis between hits on adjacent
    /// modules for an edge to exist.
    pub edge_tol: i64,
    /// Shortest path that is reported as a track.
    pub min_track_len: usize,
}

/// Every adjacency list entry of `adj` is a valid hit index on the module
/// directly after its source hit's module.
pub open spec fn adj_wf(ev: Event, adj: Seq<Seq<usize>>) -> bool {
    &&& adj.len() == ev.nh()
    &&& forall|h: int, k: int| 0 <= h < adj.len() && 0 <= k < adj[h].len()
            ==> (#[trigger] adj[h][k]) < ev.nh()
                && module_of(ev, adj[h][k] as int) == module_of(ev, h) + 1
}


/// The edges out of hit `h` after scanning the first `k` hits of the next
/// module: those within `edge_tol` per axis, in list order.
pub open spec fn spec_edges(cfg: GraphDFS, ev: Event, h: usize, k: int) -> Seq<usize>
    decreases k,
{
    if k <= 0 {
        Seq::empty()
    } else {
        let prev = spec_edges(cfg, ev, h, k - 1);
        let m = module_of(ev, h as int);
        let h2 = ev.modules@[m + 1].hits@[k - 1];
        if spec_abs_diff(ev.hits@[h2 as int].x as int, ev.hits@[h as int].x as int) <= cfg.edge_tol
            && spec_abs_diff(ev.hits@[h2 as int].y as int, ev.hits@[h as int].y as int) <= cfg.edge_tol
        {
            prev.push(h2)
        } else {
            prev
        }
    }
}

/// The full adjacency row of hit `h`.
pub open spec fn spec_adj_row(cfg: GraphDFS, ev: Event, h: usize) -> Seq<usize> {
    let m = module_of(ev, h as int);
    if m + 1 < ev.nm() {
        spec_edges(cfg, ev, h, ev.modules@[m + 1].hits@.len() as int)
    } else {
        Seq::empty()
    }
}

/// The compatibility graph over the first `n` hits.
pub open spec fn spec_adj(cfg: GraphDFS, ev: Event, n: int) -> Seq<Seq<usize>>
    decreases n,
{
    if n <= 0 {
        Seq::empty()
    } else {
        spec_adj(cfg, ev, n - 1).push(spec_adj_row(cfg, ev, (n - 1) as usize))
    }
}

/// The best path out of hit `h` after considering its first `k` neighbors:
/// the longest, ties to the lower accumulated residual, then to the earlier
/// neighbor; the path alone is the seed hit.
pub open spec fn spec_dfs(
    cfg: GraphDFS,
    ev: Event,
    adj: Seq<Seq<usize>>,
    used: Seq<bool>,
    h: usize,
    k: int,
) -> (Seq<usize>, u64)
    decreases ev.nm() - module_of(ev, h as int), k
        when ev.wf() && adj_wf(ev, adj) && h < ev.nh() && k <= adj[h as int].len()
{
    if k <= 0 {
        (seq![h], 0u64)
    } else {
        let prev = spec_dfs(cfg, ev, adj, used, h, k - 1);
        let h2 = adj[h as int][k - 1];
        if !used[h2 as int] {
            let sub = spec_dfs(cfg, ev, adj, used, h2, adj[h2 as int].len() as int);
            let step = (spec_abs_diff(ev.hits@[h2 as int].x as int, ev.hits@[h as int].x as int)
                + spec_abs_diff(ev.hits@[h2 as int].y as int, ev.hits@[h as int].y as int)) as u64;
            let q = sat_add_u64(sub.1, step);
            let cand = seq![h] + sub.0;
            if cand.len() > prev.0.len() || (cand.len() == prev.0.len() && q < prev.1) {
                (cand, q)
            } else {
                prev
            }
        } else {
            prev
        }
    }
}

/// The seed fold over one module's hit list.
pub open spec fn spec_gd_seed(
    cfg: GraphDFS,
    ev: Event,
    adj: Seq<Seq<usize>>,
    used: Seq<bool>,
    tracks: Seq<(u64, Seq<usize>, u64)>,
    m0: int,
    k0: int,
) -> (Seq<bool>, Seq<(u64, Seq<usize>, u64)>)
    decreases ev.modules@[m0].hits@.len() - k0,
{
    let list0 = ev.modules@[m0].hits@;
    if k0 >= list0.len() {
        (used, tracks)
    } else {
        let h = list0[k0];
        if !used[h as int] {
            let found = spec_dfs(cfg, ev, adj, used, h, adj[h as int].len() as int);
            if found.0.len() >= cfg.min_track_len {
                spec_gd_seed(cfg, ev, adj, spec_mark(used, found.0),
                    tracks.push((tracks.len() as u64, found.0, found.1)), m0, k0 + 1)
            } else {
                spec_gd_seed(cfg, ev, adj, used, tracks, m0, k0 + 1)
            }
        } else {
            spec_gd_seed(cfg, ev, adj, used, tracks, m0, k0 + 1)
        }
    }
}

/// The sweep over all modules, earliest first.
pub open spec fn spec_gd_sweep(
    cfg: GraphDFS,
    ev: Event,
    adj: Seq<Seq<usize>>,
    used: Seq<bool>,
    tracks: Seq<(u64, Seq<usize>, u64)>,
    m0: int,
) -> (Seq<bool>, Seq<(u64, Seq<usize>, u64)>)
    decreases ev.nm() - m0,
{
    if m0 >= ev.nm() {
        (used, tracks)
    } else {
        let st = spec_gd_seed(cfg, ev, adj, used, tracks, m0, 0);
        spec_gd_sweep(cfg, ev, adj, st.0, st.1, m0 + 1)
    }
}

/// The full output of the graph search on an event: a function of the event
/// and the configuration alone, so reconstruction is deterministic.
pub open spec fn spec_graph_dfs(cfg: GraphDFS, ev: Event) -> Seq<(u64, Seq<usize>, u64)> {
    spec_gd_sweep(cfg, ev, spec_adj(cfg, ev, ev.nh()),
        Seq::new(ev.nh() as nat, |i: int| false), Seq::empty(), 0).1
}

impl GraphDFS {
    pub open spec fn params_ok(self) -> bool {
        &&& 0 < self.edge_tol <= COORD_LIMIT
        &&& 3 <= self.min_track_len
    }

    /// Accepts the configuration exactly when every tunable is in range.
    pub fn new(edge_tol: i64, min_track_len: usize) -> (r: Result<GraphDFS, VeloError>)
        ensures
            match r {
                Ok(a) => {
                    &&& a == (GraphDFS { edge_tol, min_track_len })
                    &&& a.params_ok()
                },
                Err(e) => {
                    &&& e == VeloError::Configuration
                    &&& !(GraphDFS { edge_tol, min_track_len }).params_ok()
                },
            },
    {
        if edge_tol <= 0 || edge_tol > COORD_LIMIT || min_track_len < 3 {
            Err(VeloError::Configuration)
        } else {
            Ok(GraphDFS { edge_tol, min_track_len })
        }
    }

    /// Builds the compatibility graph: hit `h` on module `m` gains an edge
    /// to each hit of module `m + 1` within `edge_tol` per axis.
    fn build_graph(&self, ev: &Event) -> (adj: Vec<Vec<usize>>)
        requires
            ev.wf(),
            self.params_ok(),
        ensures
            adj_wf(*ev, adj@.map_values(|l: Vec<usize>| l@)),
            adj@.map_values(|l: Vec<usize>| l@) == spec_adj(*self, *ev, ev.nh()),
    {
        let nh = ev.num_hits();
        let nm = ev.num_modules();
        let mut adj: Vec<Vec<usize>> = Vec::new();
        let mut h: usize = 0;
        while h < nh
            invariant
                ev.wf(),
                self.params_ok(),
                nh == ev.nh(),
                nm == ev.nm(),
                h <= nh,
                adj@.len() == h,
                adj@.map_values(|l: Vec<usize>| l@) == spec_adj(*self, *ev, h as int),
                forall|hh: int, k: int| 0 <= hh < h && 0 <= k < adj@[hh]@.len()
                    ==> (#[trigger] adj@[hh]@[k]) < nh
                        && module_of(*ev, adj@[hh]@[k] as int) == module_of(*ev, hh) + 1,
            decreases nh - h,
        {
            let m = ev.hits[h].module;
            let mut edges: Vec<usize> = Vec::new();
            if m + 1 < nm {
                let list_len = ev.modules[m + 1].hits.len();
                let mut k: usize = 0;
                while k < list_len
                    invariant
                        ev.wf(),
                        self.params_ok(),
                        nh == ev.nh(),
                        nm == ev.nm(),
                        h < nh,
                        m == ev.hits@[h as int].module,
                        m + 1 < nm,
                        list_len == ev.modules@[m + 1].hits@.len(),
                        k <= list_len,
                        forall|kk: int| 0 <= kk < edges@.len()
                            ==> (#[trigger] edges@[kk]) < nh
                                && module_of(*ev, edges@[kk] as int) == m + 1,
                        edges@ == spec_edges(*self, *ev, h, k as int),
                    decreases list_len - k,
                {
                    proof {
                        assert(ev.module_list_wf(m + 1));
                    }
                    let h2 = ev.modules[m + 1].hits[k];
                    let dx = abs_diff_wide(ev.hits[h2].x, ev.hits[h].x);
                    let dy = abs_diff_wide(ev.hits[h2].y, ev.hits[h].y);
                    if dx <= self.edge_tol as i128 && dy <= self.edge_tol as i128 {
                        edges.push(h2);
                    }
                    k = k + 1;
                }
            }
            proof {
                if m + 1 < nm {
                    assert(edges@ == spec_adj_row(*self, *ev, h));
                } else {
                    assert(edges@ =~= spec_adj_row(*self, *ev, h));
                }
            }
            adj.push(edges);
            proof {
                assert(adj@.map_values(|l: Vec<usize>| l@)
                    =~= spec_adj(*self, *ev, h as int).push(spec_adj_row(*self, *ev, h)));
            }
            h = h + 1;
        }
        proof {
            let m = adj@.map_values(|l: Vec<usize>| l@);
            assert forall|hh: int, k: int| 0 <= hh < m.len() && 0 <= k < m[hh].len()
                implies (#[trigger] m[hh][k]) < ev.nh()
                    && module_of(*ev, m[hh][k] as int) == module_of(*ev, hh) + 1 by {
                assert(m[hh] == adj@[hh]@);
            }
        }
        adj
    }

    /// The longest compatible path out of hit `h` over unused hits, lowest
    /// accumulated residual among equally long paths, depth-first. Returns
    /// the path and its residual.
    fn dfs_best(&self, ev: &Event, adj: &Vec<Vec<usize>>, used: &Vec<bool>, h: usize)
        -> (r: (Vec<usize>, u64))
        requires
            ev.wf(),
            self.params_ok(),
            adj_wf(*ev, adj@.map_values(|l: Vec<usize>| l@)),
            used@.len() == ev.nh(),
            h < ev.nh(),
            !used@[h as int],
        ensures
            r.0@.len() >= 1,
            r.0@[0] == h,
            hits_inbounds(*ev, r.0@),
            hits_monotone(*ev, r.0@),
            forall|k: int| 0 <= k < r.0@.len() ==> !used@[#[trigger] r.0@[k] as int],
            r.0@.len() + module_of(*ev, h as int) <= ev.nm(),
            (r.0@, r.1) == spec_dfs(*self, *ev, adj@.map_values(|l: Vec<usize>| l@), used@, h,
                adj@[h as int]@.len() as int),
        decreases ev.nm() - module_of(*ev, h as int),
    {
        let mut best: Vec<usize> = Vec::new();
        best.push(h);
        let mut best_q: u64 = 0;
        let deg = adj[h].len();
        let mut k: usize = 0;
        while k < deg
            invariant
                ev.wf(),
                self.params_ok(),
                adj_wf(*ev, adj@.map_values(|l: Vec<usize>| l@)),
                used@.len() == ev.nh(),
                h < ev.nh(),
                !used@[h as int],
                deg == adj@[h as int]@.len(),
                k <= deg,
                best@.len() >= 1,
                best@[0] == h,
                hits_inbounds(*ev, best@),
                hits_monotone(*ev, best@),
                forall|kk: int| 0 <= kk < best@.len() ==> !used@[#[trigger] best@[kk] as int],
                best@.len() + module_of(*ev, h as int) <= ev.nm(),
                (best@, best_q) == spec_dfs(*self, *ev, adj@.map_values(|l: Vec<usize>| l@), used@, h, k as int),
            decreases deg - k,
        {
            proof {
                let m = adj@.map_values(|l: Vec<usize>| l@);
                assert(m[h as int] == adj@[h as int]@);
                assert(m[h as int][k as int] < ev.nh());
            }
            let h2 = adj[h][k];
            if !used[h2] {
                let sub = self.dfs_best(ev, adj, used, h2);
                let dx = abs_diff_wide(ev.hits[h2].x, ev.hits[h].x);
                let dy = abs_diff_wide(ev.hits[h2].y, ev.hits[h].y);
                proof {
                    assert(dx <= 2 * COORD_LIMIT && dy <= 2 * COORD_LIMIT);
                }
                let step = (dx + dy) as u64;
                let sq = sub.1;
                let q = if sq <= u64::MAX - step { sq + step } else { u64::MAX };
                let sub_path = sub.0;
                let sub_len = sub_path.len();
                proof {
                    assert(module_of(*ev, h2 as int) >= 1);
                    assert(sub_len < usize::MAX);
                }
                if sub_len + 1 > best.len()
                    || (sub_len + 1 == best.len() && q < best_q)
                {
                    let mut cand: Vec<usize> = Vec::new();
                    cand.push(h);
                    let mut j: usize = 0;
                    while j < sub_len
                        invariant
                            sub_len == sub_path@.len(),
                            j <= sub_len,
                            cand@ == seq![h] + sub_path@.take(j as int),
                        decreases sub_len - j,
                    {
                        cand.push(sub_path[j]);
                        proof {
                            assert(sub_path@.take(j + 1) =~= sub_path@.take(j as int).push(sub_path@[j as int]));
                            assert(cand@ =~= seq![h] + sub_path@.take(j + 1));
                        }
                        j = j + 1;
                    }
                    proof {
                        assert(sub_path@.take(sub_len as int) =~= sub_path@);
                        assert(cand@ == seq![h] + sub_path@);
                        assert forall|a: int, b: int| 0 <= a < b < cand@.len()
                            implies module_of(*ev, #[trigger] cand@[a] as int)
                                < module_of(*ev, #[trigger] cand@[b] as int) by {
                            if a == 0 {
                                assert(cand@[b] == sub_path@[b - 1]);
                                if b - 1 > 0 {
                                    assert(module_of(*ev, sub_path@[0] as int)
                                        < module_of(*ev, sub_path@[b - 1] as int));
                                }
                                assert(module_of(*ev, h as int) < module_of(*ev, h2 as int));
                            } else {
                                assert(cand@[a] == sub_path@[a - 1]);
                                assert(cand@[b] == sub_path@[b - 1]);
                            }
                        }
                    }
                    best = cand;
                    best_q = q;
                }
            }
            k = k + 1;
        }
        (best, best_q)
    }
}

impl Reconstructor for GraphDFS {
    // Conflict policy: seeds are tried in module order, then by hit index;
    // each seed's search removes its claimed hits from the graph before the
    // next seed runs, so overlaps resolve reproducibly.
    open spec fn valid(&self) -> bool {
        self.params_ok()
    }

    open spec fn min_len(&self) -> int {
        self.min_track_len as int
    }

    fn reconstruct(&self, ev: &Event) -> (r: Vec<Track>)
        ensures
            tracks_model(r@) == spec_graph_dfs(*self, *ev),
    {
        let nh = ev.num_hits();
        let nm = ev.num_modules();
        let adj = self.build_graph(ev);
        let ghost madj = adj@.map_values(|l: Vec<usize>| l@);
        let mut used: Vec<bool> = Vec::new();
        while used.len() < nh
            invariant
                used@.len() <= nh,
                forall|i: int| 0 <= i < used@.len() ==> !used@[i],
            decreases nh - used@.len(),
        {
            used.push(false);
        }
        let mut tracks: Vec<Track> = Vec::new();
        proof {
            assert(used@ =~= Seq::new(ev.nh() as nat, |i: int| false));
            assert(tracks_model(tracks@) =~= Seq::<(u64, Seq<usize>, u64)>::empty());
        }
        let ghost target = spec_gd_sweep(*self, *ev, madj, used@, tracks_model(tracks@), 0).1;
        let mut m0: usize = 0;
        while m0 < nm
            invariant
                ev.wf(),
                self.params_ok(),
                nh == ev.nh(),
                nm == ev.nm(),
                madj == adj@.map_values(|l: Vec<usize>| l@),
                adj_wf(*ev, madj),
                used@.len() == nh,
                valid_reconstruction(*ev, tracks@, self.min_track_len as int),
                tracks_marked(tracks@, used@),
                target == spec_graph_dfs(*self, *ev),
                spec_gd_sweep(*self, *ev, madj, used@, tracks_model(tracks@), m0 as int).1 == target,
            decreases nm - m0,
        {
            let ghost sweep_used = used@;
            let ghost sweep_model = tracks_model(tracks@);
            let list_len = ev.modules[m0].hits.len();
            let mut k0: usize = 0;
            while k0 < list_len
                invariant
                    ev.wf(),
                    self.params_ok(),
                    nh == ev.nh(),
                    nm == ev.nm(),
                    m0 < nm,
                    madj == adj@.map_values(|l: Vec<usize>| l@),
                    adj_wf(*ev, madj),
                    list_len == ev.modules@[m0 as int].hits@.len(),
                    k0 <= list_len,
                    used@.len() == nh,
                    valid_reconstruction(*ev, tracks@, self.min_track_len as int),
                    tracks_marked(tracks@, used@),
                    spec_gd_seed(*self, *ev, madj, used@, tracks_model(tracks@), m0 as int, k0 as int)
                        == spec_gd_seed(*self, *ev, madj, sweep_used, sweep_model, m0 as int, 0),
                decreases list_len - k0,
            {
                let ghost k0_used = used@;
                let ghost k0_model = tracks_model(tracks@);
                proof {
                    assert(ev.module_list_wf(m0 as int));
                }
                let h = ev.modules[m0].hits[k0];
                if !used[h] {
                    let found = self.dfs_best(ev, &adj, &used, h);
                    let ghost fnd = (found.0@, found.1);
                    let path = found.0;
                    if path.len() >= self.min_track_len {
                        let t = Track { id: tracks.len() as u64, hits: path, quality: found.1 };
                        proof {
                            lemma_disjoint_push(tracks@, t, used@, nh as int);
                        }
                        let ghost used_before = used@;
                        mark_used(&mut used, &t.hits);
                        proof {
                            lemma_marked_monotone(tracks@, used_before, used@);
                        }
                        tracks.push(t);
                        proof {
                            assert(tracks_model(tracks@)
                                =~= k0_model.push((k0_model.len() as u64, fnd.0, fnd.1)));
                        }
                    }
                }
                proof {
                    assert(spec_gd_seed(*self, *ev, madj, k0_used, k0_model, m0 as int, k0 as int)
                        == spec_gd_seed(*self, *ev, madj, used@, tracks_model(tracks@), m0 as int, k0 + 1));
                }
                k0 = k0 + 1;
            }
            proof {
                assert(spec_gd_seed(*self, *ev, madj, used@, tracks_model(tracks@), m0 as int, list_len as int)
                    == (used@, tracks_model(tracks@)));
                assert(spec_gd_sweep(*self, *ev, madj, sweep_used, sweep_model, m0 as int)
                    == spec_gd_sweep(*self, *ev, madj, used@, tracks_model(tracks@), m0 + 1));
            }
            m0 = m0 + 1;
        }
        proof {
            assert(spec_gd_sweep(*self, *ev, madj, used@, tracks_model(tracks@), m0 as int)
                == (used@, tracks_model(tracks@)));
        }
        tracks
    }
}

} // verus!
