use velopix::event_model::{Event, Hit, Module, Particle};
use velopix::geometry::{collin_res, extrapolate};
use velopix::VeloError;

fn hit(id: u64, module: usize, x: i64, y: i64, z: i64) -> Hit {
    Hit { id, module, x, y, z }
}

#[test]
fn accepts_well_formed_event() {
    let hits = vec![hit(0, 0, 0, 0, 0), hit(1, 1, 100, 200, 100)];
    let modules = vec![
        Module { id: 0, z: 0, hits: vec![0] },
        Module { id: 1, z: 100, hits: vec![1] },
    ];
    let ev = Event::new(hits, modules, vec![]).unwrap();
    assert_eq!(ev.num_modules(), 2);
    assert_eq!(ev.num_hits(), 2);
}

#[test]
fn rejects_hit_on_missing_module() {
    let hits = vec![hit(0, 5, 0, 0, 0)];
    let modules = vec![Module { id: 0, z: 0, hits: vec![] }];
    let r = Event::new(hits, modules, vec![]);
    assert_eq!(r.unwrap_err(), VeloError::MalformedEvent);
}

#[test]
fn rejects_unordered_modules() {
    let hits = vec![];
    let modules = vec![
        Module { id: 0, z: 100, hits: vec![] },
        Module { id: 1, z: 100, hits: vec![] },
    ];
    let r = Event::new(hits, modules, vec![]);
    assert_eq!(r.unwrap_err(), VeloError::MalformedEvent);
}

#[test]
fn rejects_module_listing_foreign_hit() {
    let hits = vec![hit(0, 0, 0, 0, 0)];
    let modules = vec![
        Module { id: 0, z: 0, hits: vec![0] },
        Module { id: 1, z: 100, hits: vec![0] },
    ];
    let r = Event::new(hits, modules, vec![]);
    assert_eq!(r.unwrap_err(), VeloError::MalformedEvent);
}

#[test]
fn rejects_truth_with_bad_hit_index() {
    let hits = vec![hit(0, 0, 0, 0, 0)];
    let modules = vec![Module { id: 0, z: 0, hits: vec![0] }];
    let truth = vec![Particle { id: 1, hits: vec![0, 7] }];
    let r = Event::new(hits, modules, truth);
    assert_eq!(r.unwrap_err(), VeloError::MalformedEvent);
}

#[test]
fn rejects_out_of_range_coordinates() {
    let hits = vec![hit(0, 0, 2_000_000_000, 0, 0)];
    let modules = vec![Module { id: 0, z: 0, hits: vec![0] }];
    let r = Event::new(hits, modules, vec![]);
    assert_eq!(r.unwrap_err(), VeloError::MalformedEvent);
}

#[test]
fn extrapolation_is_exact_and_truncates_toward_zero() {
    // straight continuation of a unit slope
    assert_eq!(extrapolate(0, 0, 100, 100, 300), 300);
    // 1/3 of a step truncates to zero, in both directions
    assert_eq!(extrapolate(0, 0, 1, 3, 4), 1);
    assert_eq!(extrapolate(1, 0, 0, 3, 4), 0);
    // descending coordinate
    assert_eq!(extrapolate(300, 0, 200, 100, 300), 0);
}

#[test]
fn collinearity_residual_is_exact() {
    // collinear points have zero residual
    assert_eq!(collin_res(0, 0, 100, 100, 200, 200), 0);
    // missing the line by 5 at unit module spacing of 100 scales by 100
    assert_eq!(collin_res(0, 0, 100, 100, 205, 200), 500);
    assert_eq!(collin_res(0, 0, 100, 100, 195, 200), 500);
}

#[test]
fn windowed_query_picks_closest_unused() {
    let hits = vec![
        hit(0, 0, 0, 0, 0),
        hit(1, 0, 30, 0, 0),
        hit(2, 0, 500, 0, 0),
    ];
    let modules = vec![Module { id: 0, z: 0, hits: vec![0, 1, 2] }];
    let ev = Event::new(hits, modules, vec![]).unwrap();
    let mut used = vec![false, false, false];
    assert_eq!(ev.closest_hit_in_window(0, 10, 0, 100, &used), Some(0));
    used[0] = true;
    assert_eq!(ev.closest_hit_in_window(0, 10, 0, 100, &used), Some(1));
    used[1] = true;
    assert_eq!(ev.closest_hit_in_window(0, 10, 0, 100, &used), None);
}
