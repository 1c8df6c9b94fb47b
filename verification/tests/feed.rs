use sentinel::feed::tranco::parse_csv;
use sentinel::feed::{
    accept_csv_feed, hostfile_to_metadata_map, is_allowed, is_blocked, lookup, new_allowlist,
    new_blocklist, tranco_delay_after, urlhaus_delay_after, BlockMetadata, DomainSet,
};

#[test]
fn empty_blocklist_blocks_nothing() {
    let bl = new_blocklist();
    assert!(!is_blocked(&bl, "example.com"));
    assert!(lookup(&bl, "example.com").is_none());
}

#[test]
fn manual_insert_then_lookup_is_case_insensitive() {
    let mut bl = new_blocklist();
    bl.insert(
        "malicious.example".to_string(),
        BlockMetadata {
            listed_date: "2026-04-22".to_string(),
            threat_type: "malware_download".to_string(),
        },
    );
    assert!(is_blocked(&bl, "malicious.example"));
    assert!(is_blocked(&bl, "MALICIOUS.EXAMPLE"));
    assert!(!is_blocked(&bl, "benign.example"));

    let meta = lookup(&bl, "Malicious.Example").unwrap();
    assert_eq!(meta.listed_date, "2026-04-22");
    assert_eq!(meta.threat_type, "malware_download");
}

#[test]
fn hostfile_fallback_yields_empty_metadata() {
    let mut set = DomainSet::new();
    set.insert("a.example".to_string());
    set.insert("b.example".to_string());
    let map = hostfile_to_metadata_map(set);
    assert_eq!(map.len(), 2);
    for d in ["a.example", "b.example"] {
        let meta = lookup(&map, d).unwrap();
        assert!(meta.listed_date.is_empty());
        assert!(meta.threat_type.is_empty());
    }
}

#[test]
fn mod_empty_allowlist_allows_nothing() {
    let al = new_allowlist();
    assert!(!is_allowed(&al, "example.com"));
}

#[test]
fn allowlist_lookup_is_case_insensitive() {
    let mut al = new_allowlist();
    // Allowlist contract: callers insert lowercase keys (matching what
    // `tranco::parse_csv` emits). Lookups normalise too.
    al.insert("example.com".to_string());
    assert!(is_allowed(&al, "example.com"));
    assert!(is_allowed(&al, "EXAMPLE.COM"));
    assert!(is_allowed(&al, "Example.Com"));
    assert!(!is_allowed(&al, "other.com"));
}

#[test]
fn lookup_lowercases_unicode_names() {
    let mut bl = new_blocklist();
    bl.insert("straße.example".to_string(), BlockMetadata::default());
    assert!(is_blocked(&bl, "STRASSE.example") == false);
    assert!(is_blocked(&bl, "Straße.EXAMPLE"));
    let mut al = new_allowlist();
    al.insert("ärger.example".to_string());
    assert!(is_allowed(&al, "ÄRGER.example"));
}

#[test]
fn parsed_tranco_list_feeds_the_allowlist() {
    let al = parse_csv("1,Google.com\n", 10);
    assert!(is_allowed(&al, "GOOGLE.COM"));
}

#[test]
fn later_insert_overwrites_metadata() {
    let mut bl = new_blocklist();
    bl.insert("x.example".to_string(), BlockMetadata::default());
    bl.insert(
        "x.example".to_string(),
        BlockMetadata { listed_date: "2026-01-01".to_string(), threat_type: "phishing".to_string() },
    );
    assert_eq!(bl.len(), 1);
    assert_eq!(lookup(&bl, "X.example").unwrap().threat_type, "phishing");
}

#[test]
fn domain_set_insert_and_remove_keep_order() {
    let mut s = DomainSet::new();
    assert!(s.insert("a".to_string()));
    assert!(s.insert("b".to_string()));
    assert!(!s.insert("a".to_string()));
    assert!(s.insert("c".to_string()));
    assert_eq!(s.len(), 3);
    assert!(s.remove("b"));
    assert!(!s.remove("b"));
    assert_eq!(s.len(), 2);
    assert_eq!(s.get(0), "a");
    assert_eq!(s.get(1), "c");
    assert!(!s.contains("b"));
}

#[test]
fn csv_feed_is_used_only_when_non_empty() {
    assert!(accept_csv_feed(None).is_none());
    assert!(accept_csv_feed(Some(new_blocklist())).is_none());
    let mut bl = new_blocklist();
    bl.insert("m.example".to_string(), BlockMetadata::default());
    let kept = accept_csv_feed(Some(bl)).unwrap();
    assert!(is_blocked(&kept, "m.example"));
}

#[test]
fn refresher_delays() {
    assert_eq!(urlhaus_delay_after(true), 6 * 60 * 60);
    assert_eq!(urlhaus_delay_after(false), 5 * 60);
    assert_eq!(tranco_delay_after(true), 90 * 24 * 60 * 60);
    assert_eq!(tranco_delay_after(false), 60 * 60);
}
