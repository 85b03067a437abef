use velopix::event_model::{Event, Hit, Module, Particle, Track};
use velopix::validator::{
    compute_tracking_efficiency, validate_tracks, TrackClass, ValidatorConfig,
};
use velopix::VeloError;

fn hit(id: u64, module: usize, x: i64) -> Hit {
    Hit { id, module, x, y: 0, z: 0 }
}

fn event_with_truth(nhits: usize, truth: Vec<Particle>) -> Event {
    let mut hits = Vec::new();
    let mut idx = Vec::new();
    for i in 0..nhits {
        hits.push(hit(i as u64, 0, (i as i64) * 10));
        idx.push(i);
    }
    let modules = vec![Module { id: 0, z: 0, hits: idx }];
    Event::new(hits, modules, truth).unwrap()
}

fn track(id: u64, hits: Vec<usize>) -> Track {
    Track { id, hits, quality: 0 }
}

#[test]
fn no_tracks_means_zero_rates() {
    let ev = event_with_truth(
        6,
        vec![
            Particle { id: 1, hits: vec![0, 1, 2] },
            Particle { id: 2, hits: vec![3, 4, 5] },
        ],
    );
    let cfg = ValidatorConfig::new(7, 10, 3).unwrap();
    let m = compute_tracking_efficiency(&vec![], &ev, &cfg).unwrap();
    assert_eq!(m.n_tracks, 0);
    assert_eq!(m.n_particles, 2);
    assert_eq!(m.n_reconstructible, 2);
    assert_eq!(m.n_matched, 0);
    assert_eq!((m.eff_num, m.eff_den), (0, 2));
    assert_eq!((m.clone_num, m.clone_den), (0, 1));
    assert_eq!((m.ghost_num, m.ghost_den), (0, 1));
}

#[test]
fn no_tracks_zero_rates_even_without_truth() {
    let ev = event_with_truth(2, vec![]);
    let cfg = ValidatorConfig::new(7, 10, 3).unwrap();
    let m = compute_tracking_efficiency(&vec![], &ev, &cfg).unwrap();
    assert_eq!(m.n_particles, 0);
    assert_eq!((m.eff_num, m.eff_den), (0, 1));
    assert_eq!((m.clone_num, m.clone_den), (0, 1));
    assert_eq!((m.ghost_num, m.ghost_den), (0, 1));
}

#[test]
fn perfect_tracks_score_one() {
    let ev = event_with_truth(
        6,
        vec![
            Particle { id: 1, hits: vec![0, 1, 2] },
            Particle { id: 2, hits: vec![3, 4, 5] },
        ],
    );
    let cfg = ValidatorConfig::new(7, 10, 3).unwrap();
    let tracks = vec![track(0, vec![0, 1, 2]), track(1, vec![3, 4, 5])];
    let m = compute_tracking_efficiency(&tracks, &ev, &cfg).unwrap();
    assert_eq!(m.n_matched, 2);
    assert_eq!((m.eff_num, m.eff_den), (2, 2));
    assert_eq!(m.n_clones, 0);
    assert_eq!(m.n_ghosts, 0);
}

#[test]
fn second_track_on_same_particle_is_clone() {
    let ev = event_with_truth(6, vec![Particle { id: 1, hits: vec![0, 1, 2, 3] }]);
    let cfg = ValidatorConfig::new(7, 10, 3).unwrap();
    let tracks = vec![track(0, vec![0, 1, 2]), track(1, vec![1, 2, 3])];
    let (m, reports) = validate_tracks(&tracks, &ev, &cfg).unwrap();
    assert_eq!(m.n_matched, 1);
    assert_eq!(m.n_clones, 1);
    assert_eq!(m.n_ghosts, 0);
    assert_eq!((m.clone_num, m.clone_den), (1, 2));
    assert_eq!(reports[0].class, TrackClass::Matched);
    assert_eq!(reports[1].class, TrackClass::Cloned);
    assert_eq!(reports[1].matched_particle, Some(1));
}

#[test]
fn track_below_purity_is_ghost() {
    let ev = event_with_truth(
        8,
        vec![
            Particle { id: 1, hits: vec![0, 1, 2, 3] },
            Particle { id: 2, hits: vec![4, 5, 6, 7] },
        ],
    );
    let cfg = ValidatorConfig::new(7, 10, 3).unwrap();
    // two hits of each particle: 2/4 < 7/10 for both contributors
    let tracks = vec![track(0, vec![0, 1, 4, 5])];
    let (m, reports) = validate_tracks(&tracks, &ev, &cfg).unwrap();
    assert_eq!(m.n_matched, 0);
    assert_eq!(m.n_ghosts, 1);
    assert_eq!((m.ghost_num, m.ghost_den), (1, 1));
    assert_eq!(reports[0].class, TrackClass::Phantom);
    assert_eq!(reports[0].matched_particle, None);
    assert_eq!((reports[0].purity_num, reports[0].purity_den), (2, 4));
}

#[test]
fn short_particle_is_not_reconstructible() {
    let ev = event_with_truth(
        5,
        vec![
            Particle { id: 1, hits: vec![0, 1, 2] },
            Particle { id: 2, hits: vec![3, 4] },
        ],
    );
    let cfg = ValidatorConfig::new(7, 10, 3).unwrap();
    let tracks = vec![track(0, vec![0, 1, 2])];
    let m = compute_tracking_efficiency(&tracks, &ev, &cfg).unwrap();
    assert_eq!(m.n_particles, 2);
    assert_eq!(m.n_reconstructible, 1);
    assert_eq!(m.n_matched, 1);
    assert_eq!((m.eff_num, m.eff_den), (1, 1));
}

#[test]
fn classification_partitions_all_tracks() {
    let ev = event_with_truth(
        5,
        vec![
            Particle { id: 1, hits: vec![0, 1, 2] },
            Particle { id: 2, hits: vec![3, 4] },
        ],
    );
    let cfg = ValidatorConfig::new(7, 10, 3).unwrap();
    // the second track matches a particle below the reconstructibility
    // floor: it is still a matched track, though not an efficiency point
    let tracks = vec![track(0, vec![0, 1, 2]), track(1, vec![3, 4])];
    let (m, reports) = validate_tracks(&tracks, &ev, &cfg).unwrap();
    assert_eq!(m.n_matched, 2);
    assert_eq!(m.n_clones, 0);
    assert_eq!(m.n_ghosts, 0);
    assert_eq!(m.n_matched + m.n_clones + m.n_ghosts, m.n_tracks);
    assert_eq!(m.n_reconstructible, 1);
    assert_eq!((m.eff_num, m.eff_den), (1, 1));
    assert_eq!(reports[1].class, TrackClass::Matched);
    assert_eq!(reports[1].matched_particle, Some(2));
}

#[test]
fn foreign_hit_is_mismatched_truth() {
    let ev = event_with_truth(3, vec![Particle { id: 1, hits: vec![0, 1, 2] }]);
    let cfg = ValidatorConfig::new(7, 10, 3).unwrap();
    let tracks = vec![track(0, vec![0, 1, 9])];
    let r = compute_tracking_efficiency(&tracks, &ev, &cfg);
    assert_eq!(r.unwrap_err(), VeloError::MismatchedTruth);
}

#[test]
fn purity_exactly_at_threshold_matches() {
    let ev = event_with_truth(
        10,
        vec![Particle { id: 3, hits: vec![0, 1, 2, 3, 4, 5, 6] }],
    );
    let cfg = ValidatorConfig::new(7, 10, 3).unwrap();
    // 7 of 10 hits belong to the particle: exactly the threshold
    let tracks = vec![track(0, vec![0, 1, 2, 3, 4, 5, 6, 7, 8, 9])];
    let (m, reports) = validate_tracks(&tracks, &ev, &cfg).unwrap();
    assert_eq!(m.n_matched, 1);
    assert_eq!(reports[0].class, TrackClass::Matched);
    assert_eq!((reports[0].purity_num, reports[0].purity_den), (7, 10));
    // one hit fewer and it is a ghost
    let tracks2 = vec![track(0, vec![0, 1, 2, 3, 4, 5, 7, 8, 9])];
    let (m2, reports2) = validate_tracks(&tracks2, &ev, &cfg).unwrap();
    assert_eq!(m2.n_ghosts, 1);
    assert_eq!(reports2[0].class, TrackClass::Phantom);
}

#[test]
fn equal_contributions_match_earliest_particle() {
    let ev = event_with_truth(
        8,
        vec![
            Particle { id: 5, hits: vec![0, 1, 2] },
            Particle { id: 6, hits: vec![3, 4, 5] },
        ],
    );
    let cfg = ValidatorConfig::new(5, 10, 3).unwrap();
    // two hits of each particle: a tie at exactly the threshold
    let tracks = vec![track(0, vec![0, 1, 3, 4])];
    let (_, reports) = validate_tracks(&tracks, &ev, &cfg).unwrap();
    assert_eq!(reports[0].class, TrackClass::Matched);
    assert_eq!(reports[0].matched_particle, Some(5));
    assert_eq!((reports[0].purity_num, reports[0].purity_den), (2, 4));
}

#[test]
fn plurality_prefers_larger_then_earlier() {
    let ev = event_with_truth(
        8,
        vec![
            Particle { id: 1, hits: vec![0, 1, 2] },
            Particle { id: 2, hits: vec![3, 4, 5, 6] },
        ],
    );
    let cfg = ValidatorConfig::new(5, 10, 3).unwrap();
    // three hits of particle 2, one of particle 1: plurality is particle 2
    let tracks = vec![track(0, vec![0, 3, 4, 5])];
    let (_, reports) = validate_tracks(&tracks, &ev, &cfg).unwrap();
    assert_eq!(reports[0].class, TrackClass::Matched);
    assert_eq!(reports[0].matched_particle, Some(2));
    assert_eq!((reports[0].purity_num, reports[0].purity_den), (3, 4));
}
