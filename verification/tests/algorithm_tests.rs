use velopix::event_model::{Event, Hit, Module, Particle, Reconstructor, Track};
use velopix::graph_dfs::GraphDFS;
use velopix::track_following::TrackFollowing;
use velopix::triplet_trie::SearchByTripletTrie;
use velopix::validator::{compute_tracking_efficiency, TrackClass, ValidatorConfig};
use velopix::VeloError;

fn hit(id: u64, module: usize, x: i64, y: i64, z: i64) -> Hit {
    Hit { id, module, x, y, z }
}

/// One particle depositing one collinear hit per module on four modules.
fn straight_event() -> Event {
    let hits = vec![
        hit(0, 0, 0, 0, 0),
        hit(1, 1, 100, 200, 100),
        hit(2, 2, 200, 400, 200),
        hit(3, 3, 300, 600, 300),
    ];
    let modules = vec![
        Module { id: 0, z: 0, hits: vec![0] },
        Module { id: 1, z: 100, hits: vec![1] },
        Module { id: 2, z: 200, hits: vec![2] },
        Module { id: 3, z: 300, hits: vec![3] },
    ];
    let truth = vec![Particle { id: 7, hits: vec![0, 1, 2, 3] }];
    Event::new(hits, modules, truth).unwrap()
}

fn check_monotone_disjoint(ev: &Event, tracks: &[Track]) {
    let mut seen = std::collections::HashSet::new();
    for t in tracks {
        for w in t.hits.windows(2) {
            assert!(ev.hits[w[0]].module < ev.hits[w[1]].module);
        }
        for &h in &t.hits {
            assert!(seen.insert(h), "hit {} assigned twice", h);
        }
    }
}

#[test]
fn track_following_finds_straight_track() {
    let ev = straight_event();
    let alg = TrackFollowing::new(50, 250, 1, 3).unwrap();
    let tracks = alg.reconstruct(&ev);
    assert_eq!(tracks.len(), 1);
    assert_eq!(tracks[0].hits, vec![0, 1, 2, 3]);
    assert_eq!(tracks[0].id, 0);
    check_monotone_disjoint(&ev, &tracks);
}

#[test]
fn graph_dfs_finds_straight_track() {
    let ev = straight_event();
    let alg = GraphDFS::new(250, 3).unwrap();
    let tracks = alg.reconstruct(&ev);
    assert_eq!(tracks.len(), 1);
    assert_eq!(tracks[0].hits, vec![0, 1, 2, 3]);
    check_monotone_disjoint(&ev, &tracks);
}

#[test]
fn triplet_trie_finds_straight_track() {
    let ev = straight_event();
    let alg = SearchByTripletTrie::new(1000, 50, 1_000_000, 1, 3).unwrap();
    let tracks = alg.reconstruct(&ev);
    assert_eq!(tracks.len(), 1);
    assert_eq!(tracks[0].hits, vec![0, 1, 2, 3]);
    check_monotone_disjoint(&ev, &tracks);
}

#[test]
fn straight_event_validates_perfectly() {
    let ev = straight_event();
    let cfg = ValidatorConfig::new(7, 10, 3).unwrap();
    for tracks in [
        TrackFollowing::new(50, 250, 1, 3).unwrap().reconstruct(&ev),
        GraphDFS::new(250, 3).unwrap().reconstruct(&ev),
        SearchByTripletTrie::new(1000, 50, 1_000_000, 1, 3).unwrap().reconstruct(&ev),
    ] {
        let m = compute_tracking_efficiency(&tracks, &ev, &cfg).unwrap();
        assert_eq!(m.n_tracks, 1);
        assert_eq!(m.n_reconstructible, 1);
        assert_eq!(m.n_matched, 1);
        assert_eq!(m.n_clones, 0);
        assert_eq!(m.n_ghosts, 0);
        assert_eq!((m.eff_num, m.eff_den), (1, 1));
        assert_eq!((m.clone_num, m.clone_den), (0, 1));
        assert_eq!((m.ghost_num, m.ghost_den), (0, 1));
    }
}

#[test]
fn algorithms_are_deterministic() {
    let ev = straight_event();
    let tf = TrackFollowing::new(50, 250, 1, 3).unwrap();
    assert_eq!(tf.reconstruct(&ev), tf.reconstruct(&ev));
    let gd = GraphDFS::new(250, 3).unwrap();
    assert_eq!(gd.reconstruct(&ev), gd.reconstruct(&ev));
    let tt = SearchByTripletTrie::new(1000, 50, 1_000_000, 1, 3).unwrap();
    assert_eq!(tt.reconstruct(&ev), tt.reconstruct(&ev));
}

#[test]
fn hole_tolerance_bridges_exactly_one_gap() {
    // one particle, five modules, no hit on the middle module
    let hits = vec![
        hit(0, 0, 0, 0, 0),
        hit(1, 1, 100, 200, 100),
        hit(2, 3, 300, 600, 300),
        hit(3, 4, 400, 800, 400),
    ];
    let modules = vec![
        Module { id: 0, z: 0, hits: vec![0] },
        Module { id: 1, z: 100, hits: vec![1] },
        Module { id: 2, z: 200, hits: vec![] },
        Module { id: 3, z: 300, hits: vec![2] },
        Module { id: 4, z: 400, hits: vec![3] },
    ];
    let ev = Event::new(hits, modules, vec![]).unwrap();
    let strict = TrackFollowing::new(50, 250, 0, 3).unwrap();
    assert!(strict.reconstruct(&ev).is_empty());
    let tolerant = TrackFollowing::new(50, 250, 1, 3).unwrap();
    let tracks = tolerant.reconstruct(&ev);
    assert_eq!(tracks.len(), 1);
    assert_eq!(tracks[0].hits, vec![0, 1, 2, 3]);
}

#[test]
fn rejects_bad_configuration() {
    assert_eq!(TrackFollowing::new(0, 250, 1, 3).unwrap_err(), VeloError::Configuration);
    assert_eq!(TrackFollowing::new(50, 250, 1, 2).unwrap_err(), VeloError::Configuration);
    assert_eq!(GraphDFS::new(-5, 3).unwrap_err(), VeloError::Configuration);
    assert_eq!(
        SearchByTripletTrie::new(0, 50, 1_000_000, 1, 3).unwrap_err(),
        VeloError::Configuration
    );
    assert_eq!(ValidatorConfig::new(0, 10, 3).unwrap_err(), VeloError::Configuration);
    assert_eq!(ValidatorConfig::new(11, 10, 3).unwrap_err(), VeloError::Configuration);
}

#[test]
fn empty_event_yields_no_tracks() {
    let ev = Event::new(vec![], vec![], vec![]).unwrap();
    assert!(TrackFollowing::new(50, 250, 1, 3).unwrap().reconstruct(&ev).is_empty());
    assert!(GraphDFS::new(250, 3).unwrap().reconstruct(&ev).is_empty());
    assert!(SearchByTripletTrie::new(1000, 50, 1_000_000, 1, 3)
        .unwrap()
        .reconstruct(&ev)
        .is_empty());
}

/// Two particles whose trajectories cross; the first particle has no hit on
/// the crossing module, and the second particle's hit there lies within the
/// first track's window, so the first track claims it deterministically.
fn crossing_event() -> Event {
    let hits = vec![
        hit(10, 0, 0, 0, 0),     // 0: particle A
        hit(20, 0, 300, 0, 0),   // 1: particle B
        hit(11, 1, 0, 0, 100),   // 2: A
        hit(21, 1, 200, 0, 100), // 3: B
        hit(22, 2, -5, 0, 200),  // 4: B, inside A's window at the crossing
        hit(12, 3, 0, 0, 300),   // 5: A
        hit(23, 3, 0, 0, 300),   // 6: B
    ];
    let modules = vec![
        Module { id: 0, z: 0, hits: vec![0, 1] },
        Module { id: 1, z: 100, hits: vec![2, 3] },
        Module { id: 2, z: 200, hits: vec![4] },
        Module { id: 3, z: 300, hits: vec![5, 6] },
    ];
    let truth = vec![
        Particle { id: 1, hits: vec![0, 2, 5] },
        Particle { id: 2, hits: vec![1, 3, 4, 6] },
    ];
    Event::new(hits, modules, truth).unwrap()
}

#[test]
fn crossing_event_graph_dfs_is_deterministic() {
    let ev = crossing_event();
    let alg = GraphDFS::new(120, 3).unwrap();
    let tracks = alg.reconstruct(&ev);
    // the crossing module holds only the second particle's hit; the first
    // seed's path claims it, and the second particle's path dies at the gap
    assert_eq!(tracks.len(), 1);
    assert_eq!(tracks[0].hits, vec![0, 2, 4, 5]);
    assert_eq!(tracks, alg.reconstruct(&ev));
    check_monotone_disjoint(&ev, &tracks);
    let cfg = ValidatorConfig::new(7, 10, 3).unwrap();
    let m = compute_tracking_efficiency(&tracks, &ev, &cfg).unwrap();
    assert_eq!(m.n_matched, 1);
    assert_eq!((m.eff_num, m.eff_den), (1, 2));
    assert_eq!(m.n_ghosts, 0);
}

#[test]
fn crossing_event_triplet_trie_is_deterministic() {
    let ev = crossing_event();
    let alg = SearchByTripletTrie::new(2000, 100, 1_000_000, 1, 3).unwrap();
    let tracks = alg.reconstruct(&ev);
    // the best triplet seeds the first particle's trajectory through the
    // shared hit; the extrapolated point at the last module falls in the
    // bucket below the final hits, so the bucket-restricted lookup stops
    // there, and the remaining triplets reuse claimed hits and are skipped
    assert_eq!(tracks.len(), 1);
    assert_eq!(tracks[0].hits, vec![0, 2, 4]);
    assert_eq!(tracks, alg.reconstruct(&ev));
    check_monotone_disjoint(&ev, &tracks);
}

#[test]
fn crossing_tracks_resolve_deterministically() {
    let ev = crossing_event();
    let alg = TrackFollowing::new(100, 120, 1, 3).unwrap();
    let tracks = alg.reconstruct(&ev);
    assert_eq!(tracks.len(), 2);
    // the first seed steals the shared hit, ties broken to the lowest index
    assert_eq!(tracks[0].hits, vec![0, 2, 4, 5]);
    assert_eq!(tracks[1].hits, vec![1, 3, 6]);
    check_monotone_disjoint(&ev, &tracks);
    // repeated runs reproduce both the tracks and the classification
    assert_eq!(tracks, alg.reconstruct(&ev));
    let cfg = ValidatorConfig::new(7, 10, 3).unwrap();
    let m1 = compute_tracking_efficiency(&tracks, &ev, &cfg).unwrap();
    let m2 = compute_tracking_efficiency(&alg.reconstruct(&ev), &ev, &cfg).unwrap();
    assert_eq!(m1, m2);
    // the mixed track is still 3/4 pure for particle A: both matched
    assert_eq!(m1.n_matched, 2);
    assert_eq!(m1.n_clones, 0);
    assert_eq!(m1.n_ghosts, 0);
    let reports = velopix::validator::validate_tracks(&tracks, &ev, &cfg).unwrap().1;
    assert_eq!(reports[0].class, TrackClass::Matched);
    assert_eq!(reports[0].matched_particle, Some(1));
    assert_eq!((reports[0].purity_num, reports[0].purity_den), (3, 4));
    assert_eq!(reports[1].class, TrackClass::Matched);
    assert_eq!(reports[1].matched_particle, Some(2));
}
