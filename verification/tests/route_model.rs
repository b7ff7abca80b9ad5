use roadtoriches::constants::{STATUS_COMPLETED, STATUS_INCOMPLETE};
use roadtoriches::history::{calculate_system_value, completed_system_count, first_incomplete_group, keyword_value};
use roadtoriches::travel::{is_star_keyword, Body, SystemGroup};

fn body(name: &str, subtype: &str, fss: bool, dss: bool) -> Body {
    Body {
        body_name: name.to_string(),
        body_subtype: subtype.to_string(),
        distance_bits: 1234.5f32.to_bits(),
        fss_scanned: fss,
        dss_mapped: dss,
        status: String::new(),
    }
}

fn group(name: &str, bodies: Vec<Body>) -> SystemGroup {
    SystemGroup { name: name.to_string(), jumps: 3, bodies }
}

#[test]
fn star_subtypes_are_recognised() {
    assert!(body("A", "K (Yellow-Orange) Star", false, false).is_star());
    assert!(body("A", "Weißer Zwerg (DA)", false, false).is_star());
    assert!(body("A", "SUN", false, false).is_star());
    assert!(!body("A", "High metal content world", false, false).is_star());
    assert!(!body("A", "", false, false).is_star());
}

#[test]
fn completion_depends_on_kind() {
    assert!(body("A", "Class G star", true, false).is_completed());
    assert!(!body("A", "Class G star", false, true).is_completed());
    assert!(!body("A 1", "Water world", true, false).is_completed());
    assert!(body("A 1", "Water world", true, true).is_completed());
    assert!(!body("A 1", "Water world", false, true).is_completed());
}

#[test]
fn marking_sets_flags_and_status() {
    let mut b = body("A 1", "Water world", false, false);
    b.mark_fss_done();
    assert!(b.fss_scanned && !b.dss_mapped);
    b.mark_dss_done();
    assert!(b.fss_scanned && b.dss_mapped);
    b.mark_incomplete();
    assert!(!b.fss_scanned && !b.dss_mapped);
    assert_eq!(b.status, STATUS_INCOMPLETE);
    b.mark_completed();
    assert!(b.fss_scanned && b.dss_mapped);
    assert_eq!(b.status, STATUS_COMPLETED);
    assert_eq!(b.status, "erledigt");
    assert_eq!(b.body_name, "A 1");
    assert_eq!(b.distance_bits, 1234.5f32.to_bits());
}

#[test]
fn system_value_counts_scans() {
    let bodies = vec![
        body("A 1", "Earth-like world", true, true),
        body("A 2", "Water world", true, false),
        body("A 3", "Ammonia world", false, false),
        body("A 4", "Rocky body", false, true),
        body("A 5", "Icy body", true, false),
        body("A 6", "High metal content world", true, true),
    ];
    // 3_200_000 + 2_000_000 / 3 + 0 + 1_000_000 + 500_000 / 3 + 1_500_000
    assert_eq!(calculate_system_value(&bodies), 3_200_000 + 666_666 + 1_000_000 + 166_666 + 1_500_000);
    assert_eq!(calculate_system_value(&[]), 0);
}

#[test]
fn value_checks_keywords_in_order() {
    // "earth" is looked for before "water"
    let bodies = vec![body("X", "Earth water", false, true)];
    assert_eq!(calculate_system_value(&bodies), 3_200_000);
}

#[test]
fn current_target_is_first_incomplete_system() {
    let groups = vec![
        group("Sol", vec![body("Sol", "G star", true, false)]),
        group("Alpha", vec![body("Alpha 1", "Water world", true, false)]),
        group("Beta", vec![body("Beta 1", "Water world", false, false)]),
    ];
    assert_eq!(first_incomplete_group(&groups), Some(1));
    assert_eq!(completed_system_count(&groups), 1);
    let done = vec![group("Sol", vec![body("Sol", "G star", true, false)])];
    assert_eq!(first_incomplete_group(&done), None);
    assert_eq!(completed_system_count(&done), 1);
    assert_eq!(first_incomplete_group(&[]), None);
    assert_eq!(completed_system_count(&[]), 0);
}

#[test]
fn keywords_on_lowercase_subtypes() {
    assert!(is_star_keyword("class g star"));
    assert!(is_star_keyword("weißer zwerg"));
    assert!(is_star_keyword("sunny"));
    assert!(!is_star_keyword("Star"));
    assert!(!is_star_keyword("water world"));
    assert_eq!(keyword_value("earth-like world"), 3_200_000);
    assert_eq!(keyword_value("ammonia world"), 1_700_000);
    assert_eq!(keyword_value("water giant"), 2_000_000);
    assert_eq!(keyword_value("high metal content world"), 1_500_000);
    assert_eq!(keyword_value("rocky ice world"), 1_000_000);
    assert_eq!(keyword_value("icy body"), 500_000);
    assert_eq!(keyword_value("Earth-like world"), 500_000);
}
