use sentinel::errors::OperationalError;

#[test]
fn every_error_has_a_unique_sequential_code() {
    let codes: Vec<&str> = OperationalError::ALL.iter().map(|e| e.code()).collect();
    assert_eq!(codes, ["E001", "E002", "E003", "E004"]);
}

#[test]
fn each_error_maps_to_its_spec_help_route() {
    assert_eq!(
        OperationalError::Port53Occupied.doc_path(),
        "/help/port-conflict"
    );
    assert_eq!(OperationalError::FeedStale.doc_path(), "/help/feed");
    assert_eq!(
        OperationalError::DnsRestorePartial.doc_path(),
        "/help/uninstall"
    );
    assert_eq!(OperationalError::VpnDetected.doc_path(), "/help/vpn");
}

#[test]
fn doc_path_is_a_help_route_for_every_error() {
    for e in OperationalError::ALL.iter() {
        assert!(
            e.doc_path().starts_with("/help/"),
            "{} doc_path must be a /help/ route, got {}",
            e.code(),
            e.doc_path()
        );
    }
}

#[test]
fn code_name_cause_and_fix_are_nonempty_for_every_error() {
    for e in OperationalError::ALL.iter() {
        assert!(e.code().starts_with('E'), "{} bad code", e.code());
        assert!(!e.name().is_empty(), "{} name empty", e.code());
        assert!(!e.cause().is_empty(), "{} cause empty", e.code());
        assert!(!e.fix().is_empty(), "{} fix empty", e.code());
    }
}

#[test]
fn display_includes_code_name_cause_and_fix() {
    let e = OperationalError::Port53Occupied;
    let s = e.to_string();
    assert!(s.contains("E001"), "missing code in: {s}");
    assert!(s.contains("PORT_53_OCCUPIED"), "missing name in: {s}");
    assert!(s.contains(e.cause()), "missing cause in: {s}");
    assert!(s.contains(e.fix()), "missing fix in: {s}");
    assert!(s.contains(e.doc_path()), "missing help link in: {s}");
}

#[test]
fn from_code_round_trips_known_codes_and_rejects_unknown() {
    for e in OperationalError::ALL.iter() {
        assert_eq!(OperationalError::from_code(e.code()), Some(*e));
    }
    assert_eq!(OperationalError::from_code("E999"), None);
    assert_eq!(OperationalError::from_code(""), None);
}

#[test]
fn message_is_code_name_cause_fix_and_link_in_order() {
    let e = OperationalError::VpnDetected;
    let expected = format!(
        "{} {}: {} Fix: {} See http://127.0.0.1{}",
        e.code(),
        e.name(),
        e.cause(),
        e.fix(),
        e.doc_path()
    );
    assert_eq!(e.to_string(), expected);
    assert!(e.to_string().ends_with("See http://127.0.0.1/help/vpn"));
}

#[test]
fn from_code_is_exact_and_case_sensitive() {
    assert_eq!(OperationalError::from_code("E002"), Some(OperationalError::FeedStale));
    assert_eq!(OperationalError::from_code("e002"), None);
    assert_eq!(OperationalError::from_code("E0020"), None);
    assert_eq!(OperationalError::from_code(" E002"), None);
}
