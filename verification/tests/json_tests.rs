use velopix::json::{detailed_metrics_to_json, metrics_to_json, parse_metrics, JSON_LEN};
use velopix::validator::{Metrics, TrackClass, TrackReport};

fn sample_metrics() -> Metrics {
    Metrics {
        n_tracks: 3,
        n_particles: 2,
        n_reconstructible: 2,
        n_matched: 2,
        n_clones: 1,
        n_ghosts: 0,
        eff_num: 2,
        eff_den: 2,
        clone_num: 1,
        clone_den: 3,
        ghost_num: 0,
        ghost_den: 3,
    }
}

#[test]
fn json_round_trip() {
    let m = sample_metrics();
    let bytes = metrics_to_json(&m);
    assert_eq!(bytes.len(), JSON_LEN);
    assert_eq!(parse_metrics(&bytes), Some(m));
}

#[test]
fn json_document_text() {
    let m = sample_metrics();
    let text = String::from_utf8(metrics_to_json(&m)).unwrap();
    let expected = format!(
        "{{\"n_particles\":\"{:020}\",\"n_reconstructible\":\"{:020}\",\
         \"n_matched\":\"{:020}\",\"n_clones\":\"{:020}\",\"n_ghosts\":\"{:020}\",\
         \"n_tracks\":\"{:020}\",\"efficiency_num\":\"{:020}\",\
         \"efficiency_den\":\"{:020}\",\"clone_rate_num\":\"{:020}\",\
         \"clone_rate_den\":\"{:020}\",\"ghost_rate_num\":\"{:020}\",\
         \"ghost_rate_den\":\"{:020}\"}}",
        2, 2, 2, 1, 0, 3, 2, 2, 1, 3, 0, 3
    );
    assert_eq!(text, expected);
}

#[test]
fn parse_rejects_tampered_document() {
    let m = sample_metrics();
    let mut bytes = metrics_to_json(&m);
    bytes[0] = b'[';
    assert_eq!(parse_metrics(&bytes), None);
    assert_eq!(parse_metrics(&vec![]), None);
    assert_eq!(parse_metrics(&vec![b'{'; JSON_LEN]), None);
}

#[test]
fn parse_rejects_wrong_length() {
    let m = sample_metrics();
    let mut bytes = metrics_to_json(&m);
    bytes.push(b' ');
    assert_eq!(parse_metrics(&bytes), None);
}

#[test]
fn round_trip_extreme_values() {
    let m = Metrics {
        n_tracks: u64::MAX,
        n_particles: 0,
        n_reconstructible: u64::MAX,
        n_matched: 1,
        n_clones: 0,
        n_ghosts: u64::MAX,
        eff_num: 1,
        eff_den: u64::MAX,
        clone_num: 0,
        clone_den: 1,
        ghost_num: u64::MAX,
        ghost_den: u64::MAX,
    };
    let bytes = metrics_to_json(&m);
    assert_eq!(parse_metrics(&bytes), Some(m));
}

#[test]
fn detailed_document_lists_tracks() {
    let m = sample_metrics();
    let reports = vec![
        TrackReport {
            track_id: 0,
            class: TrackClass::Matched,
            matched_particle: Some(7),
            purity_num: 4,
            purity_den: 4,
        },
        TrackReport {
            track_id: 1,
            class: TrackClass::Phantom,
            matched_particle: None,
            purity_num: 1,
            purity_den: 3,
        },
    ];
    let text = String::from_utf8(detailed_metrics_to_json(&m, &reports)).unwrap();
    assert!(text.starts_with("{\"n_particles\":"));
    assert!(text.ends_with("]}"));
    let expected_first = format!(
        "{{\"track_id\":\"{:020}\",\"classification\":\"matched\",\
         \"matched_particle_id\":\"{:020}\",\"purity_num\":\"{:020}\",\
         \"purity_den\":\"{:020}\"}}",
        0, 7, 4, 4
    );
    assert!(text.contains(&expected_first));
    let expected_second = format!(
        "{{\"track_id\":\"{:020}\",\"classification\":\"ghost\",\
         \"matched_particle_id\":null,\"purity_num\":\"{:020}\",\
         \"purity_den\":\"{:020}\"}}",
        1, 1, 3
    );
    assert!(text.contains(&expected_second));
    assert!(text.contains("\"tracks\":["));
}
