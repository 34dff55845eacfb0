use vrp_engine::hre::{self, hre_job_kind, to_hre_relation, to_pragmatic_relation, HreJobError, HreJobKind};
use vrp_engine::pragmatic::{self, FormatError};
use vrp_engine::validation::{
    check_e1300_no_vehicle_types_with_duplicate_type_ids, check_e1301_no_vehicle_types_with_duplicate_ids,
    check_e1302_vehicle_shift_time, check_e1303_vehicle_breaks_time_is_correct,
    check_e1304_vehicle_reload_time_is_correct, check_e1305_vehicle_limit_area_is_correct,
    check_e1306_vehicle_depot_is_correct, check_shift_time_windows, check_time_windows, get_duplicates,
    get_time_window, validate_vehicles, BreakTimeRecord, CargoPlaceRecord, LocationKey, ShiftRecord, TimeInterval,
    ValidationContext, VehicleRecord,
};

fn s(x: &str) -> String {
    x.to_string()
}

fn shift(start: &str, end: Option<&str>) -> ShiftRecord {
    ShiftRecord {
        start_earliest: s(start),
        start_location: LocationKey::Reference { index: 0 },
        end_latest: end.map(s),
        depots: None,
        breaks: None,
        reloads: None,
    }
}

fn vehicle(type_id: &str, ids: &[&str], shifts: Vec<ShiftRecord>) -> VehicleRecord {
    VehicleRecord {
        type_id: s(type_id),
        vehicle_ids: ids.iter().map(|x| s(x)).collect(),
        shifts,
        allowed_areas: None,
    }
}

fn good_shift() -> ShiftRecord {
    shift("2020-07-04T09:00:00Z", Some("2020-07-04T18:00:00Z"))
}

fn error_of(r: Result<(), FormatError>) -> FormatError {
    match r {
        Err(e) => e,
        Ok(()) => panic!("expected an error"),
    }
}

#[test]
fn time_window_parses_rfc3339() {
    let tw = get_time_window("1970-01-01T00:00:10Z", "1970-01-01T00:01:00Z");
    assert_eq!(tw, Some(TimeInterval { start: 10, end: 60 }));
    assert_eq!(get_time_window("1970-01-01T00:01:00Z", "1970-01-01T00:00:10Z"), None);
    assert_eq!(get_time_window("not a time", "1970-01-01T00:00:10Z"), None);
}

#[test]
fn time_windows_must_be_apart_unless_skipped() {
    let a = Some(TimeInterval { start: 0, end: 10 });
    let b = Some(TimeInterval { start: 10, end: 20 });
    let c = Some(TimeInterval { start: 11, end: 20 });
    assert!(!check_time_windows(&vec![a, b], false));
    assert!(check_time_windows(&vec![a, b], true));
    assert!(check_time_windows(&vec![a, c], false));
    assert!(!check_time_windows(&vec![a, None], true));
    let shift_tw = Some(TimeInterval { start: 5, end: 15 });
    assert!(check_shift_time_windows(shift_tw, &vec![], false));
    assert!(check_shift_time_windows(shift_tw, &vec![a, c], false));
    assert!(!check_shift_time_windows(Some(TimeInterval { start: 30, end: 40 }), &vec![a], false));
}

#[test]
fn duplicates_are_listed_once() {
    let ids = vec![s("a"), s("b"), s("a"), s("c"), s("a"), s("b")];
    assert_eq!(get_duplicates(&ids), vec![s("a"), s("b")]);
}

#[test]
fn e1300_duplicate_type_ids() {
    let ctx = ValidationContext {
        vehicles: vec![vehicle("t1", &["v1"], vec![good_shift()]), vehicle("t1", &["v2"], vec![good_shift()])],
    };
    let e = error_of(check_e1300_no_vehicle_types_with_duplicate_type_ids(&ctx));
    assert_eq!(e.code, "E1300");
    assert_eq!(e.action, "remove duplicated vehicle type ids: t1");
}

#[test]
fn e1301_duplicate_vehicle_ids() {
    let ctx = ValidationContext {
        vehicles: vec![vehicle("t1", &["v1", "v2"], vec![good_shift()]), vehicle("t2", &["v2"], vec![good_shift()])],
    };
    let e = error_of(check_e1301_no_vehicle_types_with_duplicate_ids(&ctx));
    assert_eq!(e.code, "E1301");
    assert_eq!(e.cause, "duplicated vehicle ids");
    assert_eq!(e.action, "remove duplicated vehicle ids: v2");
}

#[test]
fn e1302_invalid_shift_time() {
    let ctx = ValidationContext {
        vehicles: vec![
            vehicle("t1", &["v1"], vec![shift("2020-07-04T18:00:00Z", Some("2020-07-04T09:00:00Z"))]),
            vehicle("t2", &["v2"], vec![good_shift()]),
            vehicle("t3", &["v3"], vec![good_shift(), good_shift()]),
        ],
    };
    let e = error_of(check_e1302_vehicle_shift_time(&ctx));
    assert_eq!(e.code, "E1302");
    assert_eq!(e.action, "ensure that start and end time conform shift time rules, vehicle type ids: t1, t3");
}

#[test]
fn e1303_break_outside_shift() {
    let mut sh = good_shift();
    sh.breaks = Some(vec![
        BreakTimeRecord::TimeWindow(vec![s("2020-07-05T09:00:00Z"), s("2020-07-05T10:00:00Z")]),
        BreakTimeRecord::TimeOffset,
    ]);
    let ctx = ValidationContext { vehicles: vec![vehicle("t1", &["v1"], vec![sh])] };
    let e = error_of(check_e1303_vehicle_breaks_time_is_correct(&ctx));
    assert_eq!(e.code, "E1303");
    assert_eq!(e.action, "ensure that break conform rules, vehicle type ids: 't1'");
}

#[test]
fn e1304_reload_outside_shift() {
    let mut sh = good_shift();
    sh.reloads = Some(vec![CargoPlaceRecord {
        location: LocationKey::Reference { index: 1 },
        times: Some(vec![vec![s("2020-07-06T09:00:00Z"), s("2020-07-06T10:00:00Z")]]),
    }]);
    let ctx = ValidationContext { vehicles: vec![vehicle("t1", &["v1"], vec![sh])] };
    let e = error_of(check_e1304_vehicle_reload_time_is_correct(&ctx));
    assert_eq!(e.code, "E1304");
    assert_eq!(e.cause, "invalid reload time windows in vehicle shift");
}

#[test]
fn e1305_invalid_areas() {
    let mut empty = vehicle("t1", &["v1"], vec![good_shift()]);
    empty.allowed_areas = Some(vec![]);
    let mut small = vehicle("t2", &["v2"], vec![good_shift()]);
    small.allowed_areas = Some(vec![4, 2]);
    let mut fine = vehicle("t3", &["v3"], vec![good_shift()]);
    fine.allowed_areas = Some(vec![3]);
    let ctx = ValidationContext { vehicles: vec![empty, small, fine] };
    let e = error_of(check_e1305_vehicle_limit_area_is_correct(&ctx));
    assert_eq!(e.code, "E1305");
    assert!(e.action.ends_with("vehicle type ids: 't1, t2'"));
}

#[test]
fn e1306_depot_at_start_or_repeated() {
    let depot = |index: usize| CargoPlaceRecord { location: LocationKey::Reference { index }, times: None };
    let mut at_start = good_shift();
    at_start.depots = Some(vec![depot(0)]);
    let mut repeated = good_shift();
    repeated.depots = Some(vec![depot(1), depot(1)]);
    let mut fine = good_shift();
    fine.depots = Some(vec![depot(1), depot(2)]);
    let ctx = ValidationContext {
        vehicles: vec![
            vehicle("t1", &["v1"], vec![at_start]),
            vehicle("t2", &["v2"], vec![repeated]),
            vehicle("t3", &["v3"], vec![fine]),
        ],
    };
    let e = error_of(check_e1306_vehicle_depot_is_correct(&ctx));
    assert_eq!(e.code, "E1306");
    assert!(e.action.ends_with("Vehicle type ids: 't1, t2'"));
}

#[test]
fn valid_fleet_passes_and_errors_are_collected_in_order() {
    let ok = ValidationContext { vehicles: vec![vehicle("t1", &["v1"], vec![good_shift()])] };
    assert!(validate_vehicles(&ok).is_ok());
    let bad = ValidationContext {
        vehicles: vec![
            vehicle("t1", &["v1"], vec![good_shift()]),
            vehicle("t1", &["v1"], vec![shift("x", None)]),
        ],
    };
    let errors = validate_vehicles(&bad).err().unwrap();
    let codes: Vec<&str> = errors.iter().map(|e| e.code.as_str()).collect();
    assert_eq!(codes, vec!["E1300", "E1301", "E1302"]);
}

#[test]
fn format_error_text() {
    let e = FormatError::new(s("E1300"), s("duplicated vehicle type ids"), s("remove them"));
    assert_eq!(e.to_string(), "E1300, cause: 'duplicated vehicle type ids', action: 'remove them'.");
    assert!(e.details.is_none());
    let d = FormatError::new_with_details(s("E0000"), s("c"), s("a"), s("d"));
    assert_eq!(d.details, Some(s("d")));
    let many = FormatError::format_many(&[e, d], "\n");
    assert_eq!(many, "E1300, cause: 'duplicated vehicle type ids', action: 'remove them'.\nE0000, cause: 'c', action: 'a'.");
    assert_eq!(FormatError::format_many(&[], "\n"), "");
}

#[test]
fn relation_types_map_between_formats() {
    let r = hre::Relation { type_field: hre::RelationType::Sequence, jobs: vec![s("j1"), s("j2")], vehicle_id: s("v1"), shift_index: Some(1) };
    let p = to_pragmatic_relation(&r);
    assert_eq!(p.type_field, pragmatic::RelationType::Strict);
    assert_eq!(p.jobs, vec![s("j1"), s("j2")]);
    assert_eq!(p.shift_index, Some(1));
    let back = to_hre_relation(&p);
    assert_eq!(back.type_field, hre::RelationType::Sequence);
    assert_eq!(back.shift_index, None);
    assert_eq!(hre::to_pragmatic_relation_type(hre::RelationType::Flexible), pragmatic::RelationType::Sequence);
    assert_eq!(hre::to_pragmatic_relation_type(hre::RelationType::Tour), pragmatic::RelationType::Any);
    assert_eq!(hre::to_hre_relation_type(pragmatic::RelationType::Any), hre::RelationType::Tour);
}

#[test]
fn hre_job_kinds() {
    assert_eq!(hre_job_kind(1, 1, 0, 0), Ok(HreJobKind::Single));
    assert_eq!(hre_job_kind(2, 1, 0, 0), Ok(HreJobKind::Multi));
    assert_eq!(hre_job_kind(0, 0, 0, 0), Err(HreJobError::NoTasks));
    assert_eq!(hre_job_kind(1, 0, 1, 0), Err(HreJobError::UnsupportedTasks));
    assert_eq!(hre_job_kind(1, 0, 0, 2), Err(HreJobError::UnsupportedTasks));
}
