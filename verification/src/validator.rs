//! Matching of reconstructed tracks against truth particles, and the
//! efficiency / clone / ghost metrics computed from that matching.

use vstd::prelude::*;
use crate::VeloError;
use crate::event_model::{Event, Particle, Track};

verus! {

/// Tunables of the validator.
#[derive(Clone, Copy, PartialEq, Eq, Structural, Debug)]
pub struct ValidatorConfig {
    /// A particle must contribute at least `purity_num / purity_den` of a
    /// track's hits to match it.
    pub purity_num: u64,
    pub purity_den: u64,
    /// A particle is reconstructible when it deposited at least this many hits.
    pub min_reconstructible_hits: usize,
}

impl ValidatorConfig {
    pub open spec fn params_ok(self) -> bool {
        &&& 0 < self.purity_num <= self.purity_den
        &&& 1 <= self.min_reconstructible_hits
    }

    /// Accepts the configuration exactly when the purity threshold is a
    /// fraction in `(0, 1]` and the reconstructibility floor is positive.
    pub fn new(purity_num: u64, purity_den: u64, min_reconstructible_hits: usize)
        -> (r: Result<ValidatorConfig, VeloError>)
        ensures
            match r {
                Ok(c) => {
                    &&& c == (ValidatorConfig { purity_num, purity_den, min_reconstructible_hits })
                    &&& c.params_ok()
                },
                Err(e) => {
                    &&& e == VeloError::Configuration
                    &&& !(ValidatorConfig { purity_num, purity_den, min_reconstructible_hits }).params_ok()
                },
            },
    {
        if purity_num == 0 || purity_num > purity_den || min_reconstructible_hits < 1 {
            Err(VeloError::Configuration)
        } else {
            Ok(ValidatorConfig { purity_num, purity_den, min_reconstructible_hits })
        }
    }
}

/// Per-event summary counts, with the rates carried as exact fractions.
#[derive(Clone, Copy, PartialEq, Eq, Structural, Debug)]
pub struct Metrics {
    pub n_tracks: u64,
    pub n_particles: u64,
    pub n_reconstructible: u64,
    /// Tracks classified matched: the first track to claim each particle.
    /// Together with the clones and the ghosts these partition the tracks.
    pub n_matched: u64,
    pub n_clones: u64,
    pub n_ghosts: u64,
    pub eff_num: u64,
    pub eff_den: u64,
    pub clone_num: u64,
    pub clone_den: u64,
    pub ghost_num: u64,
    pub ghost_den: u64,
}

/// How one track was classified against truth.
#[derive(Clone, Copy, PartialEq, Eq, Structural, Debug)]
pub enum TrackClass {
    /// First track to reach the purity threshold for its particle.
    Matched,
    /// A later track matching a particle an earlier track already claimed.
    Cloned,
    /// A ghost: no truth particle reaches the purity threshold.
    Phantom,
}

/// Per-track breakdown for the detailed report.
#[derive(Clone, Copy, PartialEq, Eq, Debug)]
pub struct TrackReport {
    pub track_id: u64,
    pub class: TrackClass,
    /// Identifier of the matched particle, absent for ghosts.
    pub matched_particle: Option<u64>,
    /// Fraction of the track's hits contributed by its best contributor.
    pub purity_num: u64,
    pub purity_den: u64,
}

/// How many positions of `t` hold a hit that particle list `p` contains.
pub open spec fn count_shared(t: Seq<usize>, p: Seq<usize>) -> nat
    decreases t.len(),
{
    if t.len() == 0 {
        0
    } else {
        count_shared(t.drop_last(), p) + if p.contains(t.last()) { 1nat } else { 0nat }
    }
}

/// The plurality contributor among the first `n` particles: the lowest
/// particle index whose shared-hit count is positive and strictly greatest.
pub open spec fn spec_best(t: Seq<usize>, ps: Seq<Particle>, n: int) -> Option<int>
    decreases n,
{
    if n <= 0 {
        None
    } else {
        let cur = count_shared(t, ps[n - 1].hits@);
        match spec_best(t, ps, n - 1) {
            None => if cur > 0 { Some(n - 1) } else { None },
            Some(j) => if cur > count_shared(t, ps[j].hits@) { Some(n - 1) } else { Some(j) },
        }
    }
}

/// The particle a track matches: its plurality contributor, provided that
/// contributor reaches the purity threshold.
pub open spec fn spec_match(t: Seq<usize>, ps: Seq<Particle>, cfg: ValidatorConfig) -> Option<int> {
    match spec_best(t, ps, ps.len() as int) {
        None => None,
        Some(j) => if count_shared(t, ps[j].hits@) * cfg.purity_den >= cfg.purity_num * t.len() {
            Some(j)
        } else {
            None
        },
    }
}

/// Classification fold over the first `i` tracks in input order: the set of
/// particle indices already matched, the clone count, and the ghost count.
pub open spec fn spec_classify(
    ts: Seq<Track>,
    ps: Seq<Particle>,
    cfg: ValidatorConfig,
    i: int,
) -> (Set<int>, nat, nat)
    decreases i,
{
    if i <= 0 {
        (Set::empty(), 0nat, 0nat)
    } else {
        let prev = spec_classify(ts, ps, cfg, i - 1);
        match spec_match(ts[i - 1].hits@, ps, cfg) {
            None => (prev.0, prev.1, (prev.2 + 1) as nat),
            Some(j) => if prev.0.contains(j) {
                (prev.0, (prev.1 + 1) as nat, prev.2)
            } else {
                (prev.0.insert(j), prev.1, prev.2)
            },
        }
    }
}

/// Number of the first `i` tracks classified matched: those whose matched
/// particle no earlier track claimed.
pub open spec fn spec_matched_tracks(
    ts: Seq<Track>,
    ps: Seq<Particle>,
    cfg: ValidatorConfig,
    i: int,
) -> nat
    decreases i,
{
    if i <= 0 {
        0
    } else {
        let prev = spec_matched_tracks(ts, ps, cfg, i - 1);
        match spec_match(ts[i - 1].hits@, ps, cfg) {
            None => prev,
            Some(j) => if spec_classify(ts, ps, cfg, i - 1).0.contains(j) {
                prev
            } else {
                (prev + 1) as nat
            },
        }
    }
}

/// Number of reconstructible particles among the first `n`.
pub open spec fn spec_count_recon(ps: Seq<Particle>, minh: int, n: int) -> nat
    decreases n,
{
    if n <= 0 {
        0
    } else {
        spec_count_recon(ps, minh, n - 1) + if ps[n - 1].hits@.len() >= minh { 1nat } else { 0nat }
    }
}

/// Number of reconstructible particles among the first `n` that the matched
/// set contains.
pub open spec fn spec_count_matched(ps: Seq<Particle>, minh: int, s: Set<int>, n: int) -> nat
    decreases n,
{
    if n <= 0 {
        0
    } else {
        spec_count_matched(ps, minh, s, n - 1)
            + if ps[n - 1].hits@.len() >= minh && s.contains(n - 1) { 1nat } else { 0nat }
    }
}

/// The metrics owed for a track sequence against a truth table: counts from
/// the classification fold, rates as exact fractions with denominator 1
/// where the population is empty.
pub open spec fn spec_metrics(ts: Seq<Track>, ps: Seq<Particle>, cfg: ValidatorConfig) -> Metrics {
    let cl = spec_classify(ts, ps, cfg, ts.len() as int);
    let minh = cfg.min_reconstructible_hits as int;
    let nrec = spec_count_recon(ps, minh, ps.len() as int);
    let nmat = spec_count_matched(ps, minh, cl.0, ps.len() as int);
    let mtracks = spec_matched_tracks(ts, ps, cfg, ts.len() as int);
    Metrics {
        n_tracks: ts.len() as u64,
        n_particles: ps.len() as u64,
        n_reconstructible: nrec as u64,
        n_matched: mtracks as u64,
        n_clones: cl.1 as u64,
        n_ghosts: cl.2 as u64,
        eff_num: nmat as u64,
        eff_den: if nrec == 0 { 1u64 } else { nrec as u64 },
        clone_num: cl.1 as u64,
        clone_den: if ts.len() == 0 { 1u64 } else { ts.len() as u64 },
        ghost_num: cl.2 as u64,
        ghost_den: if ts.len() == 0 { 1u64 } else { ts.len() as u64 },
    }
}

/// Best contributor and its purity, as recorded in a per-track report.
pub open spec fn spec_purity(t: Seq<usize>, ps: Seq<Particle>) -> nat {
    match spec_best(t, ps, ps.len() as int) {
        None => 0nat,
        Some(j) => count_shared(t, ps[j].hits@),
    }
}

/// The report owed for track `i`: its classification against the particles
/// already matched by earlier tracks, the matched particle's identifier,
/// and the best contributor's purity.
pub open spec fn spec_report(ts: Seq<Track>, ps: Seq<Particle>, cfg: ValidatorConfig, i: int) -> TrackReport {
    let prior = spec_classify(ts, ps, cfg, i).0;
    let t = ts[i].hits@;
    let den = if t.len() == 0 { 1u64 } else { t.len() as u64 };
    match spec_match(t, ps, cfg) {
        None => TrackReport {
            track_id: ts[i].id,
            class: TrackClass::Phantom,
            matched_particle: None,
            purity_num: spec_purity(t, ps) as u64,
            purity_den: den,
        },
        Some(j) => TrackReport {
            track_id: ts[i].id,
            class: if prior.contains(j) { TrackClass::Cloned } else { TrackClass::Matched },
            matched_particle: Some(ps[j].id),
            purity_num: spec_purity(t, ps) as u64,
            purity_den: den,
        },
    }
}

/// A track references a hit index the event does not have.
pub open spec fn has_foreign_hit(ts: Seq<Track>, nh: int) -> bool {
    exists|i: int, a: int| 0 <= i < ts.len() && 0 <= a < ts[i].hits@.len()
        && (#[trigger] ts[i].hits@[a]) >= nh
}

/// Membership test on a plain index list.
fn list_contains(p: &Vec<usize>, x: usize) -> (r: bool)
    ensures
        r == p@.contains(x),
{
    let len = p.len();
    let mut k: usize = 0;
    while k < len
        invariant
            len == p@.len(),
            k <= len,
            forall|kk: int| 0 <= kk < k ==> p@[kk] != x,
        decreases len - k,
    {
        if p[k] == x {
            return true;
        }
        k = k + 1;
    }
    false
}

/// Counts the track positions whose hit the particle also deposited.
fn count_shared_exec(t: &Vec<usize>, p: &Vec<usize>) -> (r: u64)
    requires
        t@.len() <= u64::MAX,
    ensures
        r == count_shared(t@, p@),
        r <= t@.len(),
{
    let len = t.len();
    let mut r: u64 = 0;
    let mut k: usize = 0;
    while k < len
        invariant
            len == t@.len(),
            len <= u64::MAX,
            k <= len,
            r == count_shared(t@.take(k as int), p@),
            r <= k,
        decreases len - k,
    {
        proof {
            assert(t@.take(k + 1).drop_last() =~= t@.take(k as int));
            assert(t@.take(k + 1).last() == t@[k as int]);
        }
        if list_contains(p, t[k]) {
            r = r + 1;
        }
        k = k + 1;
    }
    proof {
        assert(t@.take(len as int) =~= t@);
    }
    r
}

/// Purity-threshold test, exact over the mathematical fraction.
fn purity_reached(cnt: u64, len: u64, cfg: &ValidatorConfig) -> (r: bool)
    ensures
        r == (cnt * cfg.purity_den >= cfg.purity_num * len),
{
    proof {
        assert(cnt as int * cfg.purity_den as int <= u64::MAX as int * u64::MAX as int)
            by (nonlinear_arith)
            requires
                0 <= cnt <= u64::MAX,
                0 <= cfg.purity_den <= u64::MAX,
        ;
        assert(cfg.purity_num as int * len as int <= u64::MAX as int * u64::MAX as int)
            by (nonlinear_arith)
            requires
                0 <= cfg.purity_num <= u64::MAX,
                0 <= len <= u64::MAX,
        ;
    }
    (cnt as u128) * (cfg.purity_den as u128) >= (cfg.purity_num as u128) * (len as u128)
}

/// Classifies every track against truth and assembles the metrics and the
/// per-track reports. Fails exactly when a track references a hit index the
/// event does not have.
pub fn validate_tracks(tracks: &Vec<Track>, ev: &Event, cfg: &ValidatorConfig)
    -> (r: Result<(Metrics, Vec<TrackReport>), VeloError>)
    requires
        cfg.params_ok(),
    ensures
        match r {
            Ok(out) => {
                &&& !has_foreign_hit(tracks@, ev.nh())
                &&& out.0 == spec_metrics(tracks@, ev.truth@, *cfg)
                &&& out.1@.len() == tracks@.len()
                &&& forall|i: int| 0 <= i < tracks@.len()
                        ==> out.1@[i] == spec_report(tracks@, ev.truth@, *cfg, i)
            },
            Err(e) => {
                &&& e == VeloError::MismatchedTruth
                &&& has_foreign_hit(tracks@, ev.nh())
            },
        },
{
    let nt = tracks.len();
    let nh = ev.hits.len();
    let np = ev.truth.len();

    let mut i: usize = 0;
    while i < nt
        invariant
            nt == tracks@.len(),
            nh == ev.nh(),
            i <= nt,
            forall|ii: int, a: int| 0 <= ii < i && 0 <= a < tracks@[ii].hits@.len()
                ==> (#[trigger] tracks@[ii].hits@[a]) < nh,
        decreases nt - i,
    {
        let tlen = tracks[i].hits.len();
        let mut a: usize = 0;
        while a < tlen
            invariant
                nt == tracks@.len(),
                nh == ev.nh(),
                i < nt,
                tlen == tracks@[i as int].hits@.len(),
                a <= tlen,
                forall|aa: int| 0 <= aa < a ==> (#[trigger] tracks@[i as int].hits@[aa]) < nh,
            decreases tlen - a,
        {
            if tracks[i].hits[a] >= nh {
                return Err(VeloError::MismatchedTruth);
            }
            a = a + 1;
        }
        i = i + 1;
    }

    let mut matched: Vec<bool> = Vec::new();
    while matched.len() < np
        invariant
            matched@.len() <= np,
            forall|j: int| 0 <= j < matched@.len() ==> !matched@[j],
        decreases np - matched@.len(),
    {
        matched.push(false);
    }

    let mut n_matched_tracks: u64 = 0;
    let mut n_clones: u64 = 0;
    let mut n_ghosts: u64 = 0;
    let mut reports: Vec<TrackReport> = Vec::new();
    let mut i: usize = 0;
    while i < nt
        invariant
            cfg.params_ok(),
            nt == tracks@.len(),
            np == ev.truth@.len(),
            matched@.len() == np,
            i <= nt,
            ({
                let cl = spec_classify(tracks@, ev.truth@, *cfg, i as int);
                &&& forall|j: int| 0 <= j < np ==> matched@[j] == cl.0.contains(j)
                &&& forall|j: int| cl.0.contains(j) ==> 0 <= j < np
                &&& n_clones == cl.1
                &&& n_ghosts == cl.2
                &&& n_matched_tracks == spec_matched_tracks(tracks@, ev.truth@, *cfg, i as int)
                &&& n_clones <= i && n_ghosts <= i && n_matched_tracks <= i
            }),
            reports@.len() == i,
            forall|ii: int| 0 <= ii < i
                ==> reports@[ii] == spec_report(tracks@, ev.truth@, *cfg, ii),
        decreases nt - i,
    {
        let t = &tracks[i];
        let tlen = t.hits.len();
        let mut best: usize = 0;
        let mut best_cnt: u64 = 0;
        let mut found: bool = false;
        let mut j: usize = 0;
        while j < np
            invariant
                nt == tracks@.len(),
                np == ev.truth@.len(),
                i < nt,
                t == tracks@[i as int],
                tlen == t.hits@.len(),
                j <= np,
                found ==> best < j,
                match spec_best(t.hits@, ev.truth@, j as int) {
                    None => !found,
                    Some(sj) => found && best == sj
                        && best_cnt == count_shared(t.hits@, ev.truth@[sj].hits@)
                        && best_cnt > 0,
                },
            decreases np - j,
        {
            let cnt = count_shared_exec(&t.hits, &ev.truth[j].hits);
            if cnt > 0 && (!found || cnt > best_cnt) {
                best = j;
                best_cnt = cnt;
                found = true;
            }
            j = j + 1;
        }

        let den: u64 = if tlen == 0 { 1 } else { tlen as u64 };
        let ghost cl_prev = spec_classify(tracks@, ev.truth@, *cfg, i as int);
        if found && purity_reached(best_cnt, tlen as u64, cfg) {
            proof {
                assert(spec_match(t.hits@, ev.truth@, *cfg) == Some(best as int));
            }
            if matched[best] {
                n_clones = n_clones + 1;
                reports.push(TrackReport {
                    track_id: t.id,
                    class: TrackClass::Cloned,
                    matched_particle: Some(ev.truth[best].id),
                    purity_num: best_cnt,
                    purity_den: den,
                });
            } else {
                matched.set(best, true);
                n_matched_tracks = n_matched_tracks + 1;
                proof {
                    let cl_next = spec_classify(tracks@, ev.truth@, *cfg, i + 1);
                    assert(cl_next.0 == cl_prev.0.insert(best as int));
                    assert forall|jj: int| 0 <= jj < np
                        implies matched@[jj] == cl_next.0.contains(jj) by {
                        if jj != best as int {
                            assert(cl_next.0.contains(jj) == cl_prev.0.contains(jj));
                        }
                    }
                }
                reports.push(TrackReport {
                    track_id: t.id,
                    class: TrackClass::Matched,
                    matched_particle: Some(ev.truth[best].id),
                    purity_num: best_cnt,
                    purity_den: den,
                });
            }
        } else {
            proof {
                assert(spec_match(t.hits@, ev.truth@, *cfg) is None);
            }
            n_ghosts = n_ghosts + 1;
            reports.push(TrackReport {
                track_id: t.id,
                class: TrackClass::Phantom,
                matched_particle: None,
                purity_num: if found { best_cnt } else { 0 },
                purity_den: den,
            });
        }
        i = i + 1;
    }

    let minh = cfg.min_reconstructible_hits;
    let ghost cl = spec_classify(tracks@, ev.truth@, *cfg, nt as int);
    let mut n_recon: u64 = 0;
    let mut n_matched: u64 = 0;
    let mut j: usize = 0;
    while j < np
        invariant
            np == ev.truth@.len(),
            matched@.len() == np,
            forall|jj: int| 0 <= jj < np ==> matched@[jj] == cl.0.contains(jj),
            j <= np,
            n_recon == spec_count_recon(ev.truth@, minh as int, j as int),
            n_matched == spec_count_matched(ev.truth@, minh as int, cl.0, j as int),
            n_recon <= j && n_matched <= j,
        decreases np - j,
    {
        if ev.truth[j].hits.len() >= minh {
            n_recon = n_recon + 1;
            if matched[j] {
                n_matched = n_matched + 1;
            }
        } else {
            proof {
                assert(spec_count_matched(ev.truth@, minh as int, cl.0, j + 1)
                    == spec_count_matched(ev.truth@, minh as int, cl.0, j as int));
            }
        }
        j = j + 1;
    }

    let metrics = Metrics {
        n_tracks: nt as u64,
        n_particles: np as u64,
        n_reconstructible: n_recon,
        n_matched: n_matched_tracks,
        n_clones,
        n_ghosts,
        eff_num: n_matched,
        eff_den: if n_recon == 0 { 1 } else { n_recon },
        clone_num: n_clones,
        clone_den: if nt == 0 { 1 } else { nt as u64 },
        ghost_num: n_ghosts,
        ghost_den: if nt == 0 { 1 } else { nt as u64 },
    };
    Ok((metrics, reports))
}

proof fn lemma_partition_fold(ts: Seq<Track>, ps: Seq<Particle>, cfg: ValidatorConfig, i: int)
    requires
        i >= 0,
    ensures
        spec_matched_tracks(ts, ps, cfg, i)
            + spec_classify(ts, ps, cfg, i).1
            + spec_classify(ts, ps, cfg, i).2 == i,
    decreases i,
{
    if i > 0 {
        lemma_partition_fold(ts, ps, cfg, i - 1);
    }
}

/// The per-track classification partitions the tracks: every track is
/// matched, a clone, or a ghost, and the three counts sum to the track count.
pub proof fn lemma_classification_partitions(ts: Seq<Track>, ps: Seq<Particle>, cfg: ValidatorConfig)
    requires
        ts.len() <= u64::MAX,
    ensures
        ({
            let m = spec_metrics(ts, ps, cfg);
            m.n_matched + m.n_clones + m.n_ghosts == m.n_tracks
        }),
{
    lemma_partition_fold(ts, ps, cfg, ts.len() as int);
}

proof fn lemma_count_matched_le_recon(ps: Seq<Particle>, minh: int, s: Set<int>, n: int)
    ensures
        spec_count_matched(ps, minh, s, n) <= spec_count_recon(ps, minh, n),
    decreases n,
{
    if n > 0 {
        lemma_count_matched_le_recon(ps, minh, s, n - 1);
    }
}

/// The rates are genuine fractions: efficiency never exceeds one, nor do the
/// clone and ghost rates, and only reconstructible particles are counted
/// among the particles.
pub proof fn lemma_rates_bounded(ts: Seq<Track>, ps: Seq<Particle>, cfg: ValidatorConfig)
    requires
        ts.len() <= u64::MAX,
        ps.len() <= u64::MAX,
    ensures
        ({
            let m = spec_metrics(ts, ps, cfg);
            &&& m.eff_num <= m.eff_den
            &&& m.clone_num <= m.clone_den
            &&& m.ghost_num <= m.ghost_den
            &&& m.n_reconstructible <= m.n_particles
        }),
{
    let minh = cfg.min_reconstructible_hits as int;
    let cl = spec_classify(ts, ps, cfg, ts.len() as int);
    lemma_count_matched_le_recon(ps, minh, cl.0, ps.len() as int);
    lemma_count_recon_le(ps, minh, ps.len() as int);
    lemma_partition_fold(ts, ps, cfg, ts.len() as int);
}

proof fn lemma_count_matched_empty(ps: Seq<Particle>, minh: int, n: int)
    ensures
        spec_count_matched(ps, minh, Set::empty(), n) == 0,
    decreases n,
{
    if n > 0 {
        lemma_count_matched_empty(ps, minh, n - 1);
    }
}

/// With no tracks at all the metrics owe zero everywhere: efficiency, clone
/// rate and ghost rate are all the zero fraction, whatever the truth holds.
pub proof fn lemma_no_tracks_zero_metrics(ps: Seq<Particle>, cfg: ValidatorConfig)
    requires
        ps.len() <= u64::MAX,
    ensures
        ({
            let m = spec_metrics(Seq::<Track>::empty(), ps, cfg);
            &&& m.n_tracks == 0
            &&& m.n_matched == 0 && m.n_clones == 0 && m.n_ghosts == 0
            &&& m.eff_num == 0 && m.clone_num == 0 && m.ghost_num == 0
            &&& m.eff_den >= 1 && m.clone_den == 1 && m.ghost_den == 1
        }),
{
    lemma_count_matched_empty(ps, cfg.min_reconstructible_hits as int, ps.len() as int);
    lemma_count_recon_le(ps, cfg.min_reconstructible_hits as int, ps.len() as int);
}

proof fn lemma_count_recon_le(ps: Seq<Particle>, minh: int, n: int)
    requires
        n >= 0,
    ensures
        spec_count_recon(ps, minh, n) <= n,
    decreases n,
{
    if n > 0 {
        lemma_count_recon_le(ps, minh, n - 1);
    }
}

proof fn lemma_count_shared_all(t: Seq<usize>, p: Seq<usize>)
    requires
        forall|k: int| 0 <= k < t.len() ==> p.contains(#[trigger] t[k]),
    ensures
        count_shared(t, p) == t.len(),
    decreases t.len(),
{
    if t.len() > 0 {
        assert forall|k: int| 0 <= k < t.drop_last().len()
            implies p.contains(#[trigger] t.drop_last()[k]) by {
            assert(t.drop_last()[k] == t[k]);
        }
        lemma_count_shared_all(t.drop_last(), p);
        assert(p.contains(t.last()));
    }
}

proof fn lemma_count_shared_none(t: Seq<usize>, p: Seq<usize>)
    requires
        forall|k: int| 0 <= k < t.len() ==> !p.contains(#[trigger] t[k]),
    ensures
        count_shared(t, p) == 0,
    decreases t.len(),
{
    if t.len() > 0 {
        assert forall|k: int| 0 <= k < t.drop_last().len()
            implies !p.contains(#[trigger] t.drop_last()[k]) by {
            assert(t.drop_last()[k] == t[k]);
        }
        lemma_count_shared_none(t.drop_last(), p);
        assert(!p.contains(t.last()));
    }
}

proof fn lemma_best_sole_contributor(t: Seq<usize>, ps: Seq<Particle>, i: int, n: int)
    requires
        0 <= i < ps.len(),
        n <= ps.len(),
        count_shared(t, ps[i].hits@) > 0,
        forall|j: int| 0 <= j < ps.len() && j != i
            ==> count_shared(t, #[trigger] ps[j].hits@) == 0,
    ensures
        spec_best(t, ps, n) == if n > i { Some(i) } else { None::<int> },
    decreases n,
{
    if n > 0 {
        lemma_best_sole_contributor(t, ps, i, n - 1);
    }
}

proof fn lemma_classify_perfect(ts: Seq<Track>, ps: Seq<Particle>, cfg: ValidatorConfig, i: int)
    requires
        cfg.params_ok(),
        ts.len() == ps.len(),
        0 <= i <= ts.len(),
        forall|ii: int| 0 <= ii < ts.len() ==> (#[trigger] ts[ii].hits@) == ps[ii].hits@,
        forall|ii: int| 0 <= ii < ps.len() ==> (#[trigger] ps[ii].hits@.len()) >= 1,
        forall|j1: int, j2: int, a: int, b: int|
            0 <= j1 < ps.len() && 0 <= j2 < ps.len() && j1 != j2
                && 0 <= a < ps[j1].hits@.len() && 0 <= b < ps[j2].hits@.len()
                ==> #[trigger] ps[j1].hits@[a] != #[trigger] ps[j2].hits@[b],
    ensures
        spec_classify(ts, ps, cfg, i).0 =~= Set::new(|j: int| 0 <= j < i),
        spec_classify(ts, ps, cfg, i).1 == 0,
        spec_classify(ts, ps, cfg, i).2 == 0,
        spec_matched_tracks(ts, ps, cfg, i) == i,
    decreases i,
{
    if i > 0 {
        lemma_classify_perfect(ts, ps, cfg, i - 1);
        let t = ts[i - 1].hits@;
        assert forall|k: int| 0 <= k < t.len()
            implies ps[i - 1].hits@.contains(#[trigger] t[k]) by {
            assert(ps[i - 1].hits@[k] == t[k]);
        }
        lemma_count_shared_all(t, ps[i - 1].hits@);
        assert forall|j: int| 0 <= j < ps.len() && j != i - 1
            implies count_shared(t, #[trigger] ps[j].hits@) == 0 by {
            assert forall|k: int| 0 <= k < t.len()
                implies !ps[j].hits@.contains(#[trigger] t[k]) by {
                if ps[j].hits@.contains(t[k]) {
                    let b = choose|b: int| 0 <= b < ps[j].hits@.len() && ps[j].hits@[b] == t[k];
                    assert(ps[j].hits@[b] != ps[i - 1].hits@[k]);
                }
            }
            lemma_count_shared_none(t, ps[j].hits@);
        }
        lemma_best_sole_contributor(t, ps, i - 1, ps.len() as int);
        assert(spec_best(t, ps, ps.len() as int) == Some(i - 1));
        vstd::arithmetic::mul::lemma_mul_inequality(
            cfg.purity_num as int, cfg.purity_den as int, t.len() as int);
        assert(count_shared(t, ps[i - 1].hits@) * cfg.purity_den >= cfg.purity_num * t.len());
        assert(spec_match(t, ps, cfg) == Some(i - 1));
        let prev = spec_classify(ts, ps, cfg, i - 1);
        assert(!prev.0.contains(i - 1));
        assert(prev.0.insert(i - 1) =~= Set::new(|j: int| 0 <= j < i));
    }
}

proof fn lemma_count_matched_full(ps: Seq<Particle>, minh: int, s: Set<int>, n: int)
    requires
        forall|j: int| 0 <= j < n ==> s.contains(j),
    ensures
        spec_count_matched(ps, minh, s, n) == spec_count_recon(ps, minh, n),
    decreases n,
{
    if n > 0 {
        lemma_count_matched_full(ps, minh, s, n - 1);
    }
}

proof fn lemma_count_recon_pos(ps: Seq<Particle>, minh: int, w: int, n: int)
    requires
        0 <= w < n,
        ps[w].hits@.len() >= minh,
    ensures
        spec_count_recon(ps, minh, n) >= 1,
    decreases n,
{
    if w < n - 1 {
        lemma_count_recon_pos(ps, minh, w, n - 1);
    }
}

proof fn lemma_count_matched_iff(ps: Seq<Particle>, minh: int, s: Set<int>, n: int)
    requires
        forall|j: int| 0 <= j < n ==> (s.contains(j) <==> (#[trigger] ps[j].hits@.len()) >= minh),
    ensures
        spec_count_matched(ps, minh, s, n) == spec_count_recon(ps, minh, n),
    decreases n,
{
    if n > 0 {
        lemma_count_matched_iff(ps, minh, s, n - 1);
    }
}

proof fn lemma_classify_selected(
    ts: Seq<Track>,
    ps: Seq<Particle>,
    cfg: ValidatorConfig,
    sel: Seq<int>,
    i: int,
)
    requires
        cfg.params_ok(),
        ts.len() == sel.len(),
        0 <= i <= ts.len(),
        forall|k: int| 0 <= k < sel.len() ==> 0 <= #[trigger] sel[k] < ps.len(),
        forall|k1: int, k2: int| 0 <= k1 < k2 < sel.len() ==> sel[k1] < sel[k2],
        forall|k: int| 0 <= k < ts.len() ==> (#[trigger] ts[k].hits@) == ps[sel[k]].hits@,
        forall|j: int| 0 <= j < ps.len() ==> (#[trigger] ps[j].hits@.len()) >= 1,
        forall|j1: int, j2: int, a: int, b: int|
            0 <= j1 < ps.len() && 0 <= j2 < ps.len() && j1 != j2
                && 0 <= a < ps[j1].hits@.len() && 0 <= b < ps[j2].hits@.len()
                ==> #[trigger] ps[j1].hits@[a] != #[trigger] ps[j2].hits@[b],
    ensures
        spec_classify(ts, ps, cfg, i).0 =~= Set::new(|j: int| sel.take(i).contains(j)),
        spec_classify(ts, ps, cfg, i).1 == 0,
        spec_classify(ts, ps, cfg, i).2 == 0,
        spec_matched_tracks(ts, ps, cfg, i) == i,
    decreases i,
{
    if i > 0 {
        lemma_classify_selected(ts, ps, cfg, sel, i - 1);
        let t = ts[i - 1].hits@;
        let p = sel[i - 1];
        assert forall|k: int| 0 <= k < t.len()
            implies ps[p].hits@.contains(#[trigger] t[k]) by {
            assert(ps[p].hits@[k] == t[k]);
        }
        lemma_count_shared_all(t, ps[p].hits@);
        assert forall|j: int| 0 <= j < ps.len() && j != p
            implies count_shared(t, #[trigger] ps[j].hits@) == 0 by {
            assert forall|k: int| 0 <= k < t.len()
                implies !ps[j].hits@.contains(#[trigger] t[k]) by {
                if ps[j].hits@.contains(t[k]) {
                    let b = choose|b: int| 0 <= b < ps[j].hits@.len() && ps[j].hits@[b] == t[k];
                    assert(ps[j].hits@[b] != ps[p].hits@[k]);
                }
            }
            lemma_count_shared_none(t, ps[j].hits@);
        }
        lemma_best_sole_contributor(t, ps, p, ps.len() as int);
        assert(spec_best(t, ps, ps.len() as int) == Some(p));
        vstd::arithmetic::mul::lemma_mul_inequality(
            cfg.purity_num as int, cfg.purity_den as int, t.len() as int);
        assert(count_shared(t, ps[p].hits@) * cfg.purity_den >= cfg.purity_num * t.len());
        assert(spec_match(t, ps, cfg) == Some(p));
        let prev = spec_classify(ts, ps, cfg, i - 1);
        assert(!prev.0.contains(p)) by {
            if sel.take(i - 1).contains(p) {
                let k = choose|k: int| 0 <= k < i - 1 && (#[trigger] sel.take(i - 1)[k]) == p;
                assert(sel[k] < sel[i - 1]);
            }
        }
        assert(prev.0.insert(p) =~= Set::new(|j: int| sel.take(i).contains(j))) by {
            assert forall|j: int| #[trigger] sel.take(i).contains(j)
                implies prev.0.insert(p).contains(j) by {
                let k = choose|k: int| 0 <= k < i && (#[trigger] sel.take(i)[k]) == j;
                if k < i - 1 {
                    assert(sel.take(i - 1)[k] == j);
                }
            }
            assert forall|j: int| prev.0.insert(p).contains(j)
                implies #[trigger] sel.take(i).contains(j) by {
                if j == p {
                    assert(sel.take(i)[i - 1] == p);
                } else {
                    let k = choose|k: int| 0 <= k < i - 1 && (#[trigger] sel.take(i - 1)[k]) == j;
                    assert(sel.take(i)[k] == j);
                }
            }
        }
    }
}

/// A reconstruction of exactly the reconstructible grouping scores
/// perfectly: when the tracks are, in order, exactly the hit groups of the
/// reconstructible truth particles — over pairwise disjoint nonempty truth
/// groups — every track is matched, every reconstructible particle is
/// matched, and efficiency is the fraction one with no clones and no ghosts.
pub proof fn lemma_reconstructible_grouping_scores_one(
    ts: Seq<Track>,
    ps: Seq<Particle>,
    cfg: ValidatorConfig,
    sel: Seq<int>,
)
    requires
        cfg.params_ok(),
        ts.len() == sel.len(),
        sel.len() >= 1,
        forall|k: int| 0 <= k < sel.len()
            ==> 0 <= #[trigger] sel[k] < ps.len()
                && ps[sel[k]].hits@.len() >= cfg.min_reconstructible_hits,
        forall|k1: int, k2: int| 0 <= k1 < k2 < sel.len() ==> sel[k1] < sel[k2],
        forall|j: int| 0 <= j < ps.len()
            && (#[trigger] ps[j].hits@.len()) >= cfg.min_reconstructible_hits
            ==> sel.contains(j),
        forall|k: int| 0 <= k < ts.len() ==> (#[trigger] ts[k].hits@) == ps[sel[k]].hits@,
        forall|j: int| 0 <= j < ps.len() ==> (#[trigger] ps[j].hits@.len()) >= 1,
        forall|j1: int, j2: int, a: int, b: int|
            0 <= j1 < ps.len() && 0 <= j2 < ps.len() && j1 != j2
                && 0 <= a < ps[j1].hits@.len() && 0 <= b < ps[j2].hits@.len()
                ==> #[trigger] ps[j1].hits@[a] != #[trigger] ps[j2].hits@[b],
    ensures
        ({
            let m = spec_metrics(ts, ps, cfg);
            &&& m.eff_num == m.eff_den
            &&& m.n_matched == m.n_tracks
            &&& m.n_clones == 0 && m.n_ghosts == 0
            &&& m.clone_num == 0 && m.ghost_num == 0
        }),
{
    let n = ts.len() as int;
    let minh = cfg.min_reconstructible_hits as int;
    lemma_classify_selected(ts, ps, cfg, sel, n);
    let cl = spec_classify(ts, ps, cfg, n);
    assert(sel.take(n) =~= sel);
    assert forall|j: int| 0 <= j < ps.len()
        implies (cl.0.contains(j) <==> (#[trigger] ps[j].hits@.len()) >= minh) by {
        if sel.contains(j) {
            let k = choose|k: int| 0 <= k < sel.len() && (#[trigger] sel[k]) == j;
            assert(ps[sel[k]].hits@.len() >= minh);
        }
    }
    lemma_count_matched_iff(ps, minh, cl.0, ps.len() as int);
    lemma_count_recon_pos(ps, minh, sel[0], ps.len() as int);
}

/// A perfect reconstruction scores perfectly: when the tracks are exactly
/// the truth grouping, particle by particle, over pairwise disjoint
/// nonempty truth groups of which at least one reaches the
/// reconstructibility floor, every particle is matched exactly once —
/// efficiency is the fraction one, and there are no clones and no ghosts.
pub proof fn lemma_perfect_reconstruction(ts: Seq<Track>, ps: Seq<Particle>, cfg: ValidatorConfig)
    requires
        cfg.params_ok(),
        ts.len() == ps.len(),
        forall|i: int| 0 <= i < ts.len() ==> (#[trigger] ts[i].hits@) == ps[i].hits@,
        forall|i: int| 0 <= i < ps.len() ==> (#[trigger] ps[i].hits@.len()) >= 1,
        exists|j: int| 0 <= j < ps.len()
            && (#[trigger] ps[j].hits@.len()) >= cfg.min_reconstructible_hits,
        forall|j1: int, j2: int, a: int, b: int|
            0 <= j1 < ps.len() && 0 <= j2 < ps.len() && j1 != j2
                && 0 <= a < ps[j1].hits@.len() && 0 <= b < ps[j2].hits@.len()
                ==> #[trigger] ps[j1].hits@[a] != #[trigger] ps[j2].hits@[b],
    ensures
        ({
            let m = spec_metrics(ts, ps, cfg);
            &&& m.eff_num == m.eff_den
            &&& m.n_matched == m.n_tracks
            &&& m.n_clones == 0 && m.n_ghosts == 0
            &&& m.clone_num == 0 && m.ghost_num == 0
        }),
{
    let n = ts.len() as int;
    lemma_classify_perfect(ts, ps, cfg, n);
    let cl = spec_classify(ts, ps, cfg, n);
    let minh = cfg.min_reconstructible_hits as int;
    assert(forall|j: int| 0 <= j < n ==> cl.0.contains(j));
    lemma_count_matched_full(ps, minh, cl.0, n);
    let w = choose|j: int| 0 <= j < ps.len() && (#[trigger] ps[j].hits@.len()) >= minh;
    lemma_count_recon_pos(ps, minh, w, n);
}

/// Matches every track to truth and computes the summary metrics; the
/// per-track breakdown is discarded.
pub fn compute_tracking_efficiency(tracks: &Vec<Track>, ev: &Event, cfg: &ValidatorConfig)
    -> (r: Result<Metrics, VeloError>)
    requires
        cfg.params_ok(),
    ensures
        match r {
            Ok(m) => {
                &&& !has_foreign_hit(tracks@, ev.nh())
                &&& m == spec_metrics(tracks@, ev.truth@, *cfg)
            },
            Err(e) => {
                &&& e == VeloError::MismatchedTruth
                &&& has_foreign_hit(tracks@, ev.nh())
            },
        },
{
    match validate_tracks(tracks, ev, cfg) {
        Ok(out) => Ok(out.0),
        Err(e) => Err(e),
    }
}

} // verus!
