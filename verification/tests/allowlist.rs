use std::path::PathBuf;

use sentinel::feed::allowlist::{
    allow_forever, allow_once, allow_once_at, allow_once_from, allow_once_with_ttl, forget, is_allowed,
    is_allowed_at, load, new_allowlist, persisted_entries, text_less, ALLOW_ONCE_TTL_SECS,
    LAST_INSTANT_NANOS, NANOS_PER_SEC,
};

fn tmp_path() -> PathBuf {
    PathBuf::from("allowlist-test.toml")
}

#[test]
fn allowlist_empty_allowlist_allows_nothing() {
    let mut al = new_allowlist(tmp_path());
    assert!(!is_allowed(&mut al, "example.com"));
    assert!(!is_allowed(&mut al, "EXAMPLE.COM"));
}

#[test]
fn allow_once_is_allowed_within_ttl() {
    let mut al = new_allowlist(tmp_path());
    assert!(allow_once_with_ttl(&mut al, "phish.example", 60));
    assert!(is_allowed(&mut al, "phish.example"));
    assert!(is_allowed(&mut al, "PHISH.EXAMPLE"));
}

#[test]
fn allow_once_denied_after_ttl_and_prunes_entry() {
    let mut al = new_allowlist(tmp_path());
    // A 1 ms TTL truncates to zero whole seconds: expired by the next check.
    let ttl = std::time::Duration::from_millis(1).as_secs();
    assert!(allow_once_with_ttl(&mut al, "phish.example", ttl));

    assert!(!is_allowed(&mut al, "phish.example"));
    // The read-path prune removed the expired entry: even a check at an
    // earlier instant no longer finds it.
    assert!(!is_allowed_at(&mut al, "phish.example", 0));
}

#[test]
fn allow_forever_roundtrips_through_disk() {
    let mut al1 = new_allowlist(tmp_path());
    allow_forever(&mut al1, "Phish.Example");
    allow_forever(&mut al1, "another.example");
    let persisted = persisted_entries(&al1);
    assert_eq!(persisted, vec!["another.example".to_string(), "phish.example".to_string()]);

    let mut al2 = new_allowlist(tmp_path());
    let n = load(&mut al2, persisted);
    assert_eq!(n, 2);
    assert!(is_allowed(&mut al2, "phish.example"));
    assert!(is_allowed(&mut al2, "another.example"));
    assert!(!is_allowed(&mut al2, "benign.example"));
}

#[test]
fn once_window_is_half_open() {
    let mut al = new_allowlist(tmp_path());
    let now: i128 = 1_700_000_000 * NANOS_PER_SEC;
    allow_once_at(&mut al, "x.example", now, 30);
    let expiry = now + 30 * NANOS_PER_SEC;
    assert!(is_allowed_at(&mut al, "x.example", now));
    assert!(is_allowed_at(&mut al, "X.EXAMPLE", expiry - 1));
    assert!(!is_allowed_at(&mut al, "x.example", expiry));
    // pruned: later checks stay blocked
    assert!(!is_allowed_at(&mut al, "x.example", now));
}

#[test]
fn forever_wins_over_expired_once() {
    let mut al = new_allowlist(tmp_path());
    allow_once_at(&mut al, "y.example", 0, 1);
    allow_forever(&mut al, "y.example");
    assert!(is_allowed_at(&mut al, "y.example", 10 * NANOS_PER_SEC));
    assert!(is_allowed_at(&mut al, "y.example", 0));
}

#[test]
fn forget_removes_both_layers() {
    let mut al = new_allowlist(tmp_path());
    allow_forever(&mut al, "a.example");
    allow_once_at(&mut al, "a.example", 0, 60);
    forget(&mut al, "A.Example");
    assert!(!is_allowed_at(&mut al, "a.example", 0));
    assert!(persisted_entries(&al).is_empty());
}

#[test]
fn allow_once_uses_thirty_minutes() {
    assert_eq!(ALLOW_ONCE_TTL_SECS, 30 * 60);
    let mut al = new_allowlist(tmp_path());
    assert!(allow_once(&mut al, "z.example"));
    assert!(is_allowed(&mut al, "z.example"));
}

#[test]
fn allow_once_refused_past_last_representable_instant() {
    let mut al = new_allowlist(tmp_path());
    allow_once_at(&mut al, "edge.example", LAST_INSTANT_NANOS - 10 * NANOS_PER_SEC, 10);
    assert!(is_allowed_at(&mut al, "edge.example", LAST_INSTANT_NANOS - 1));
    // a TTL that reaches past the last instant is not recorded
    assert!(!allow_once_with_ttl(&mut al, "far.example", u64::MAX / 2));
    assert!(!is_allowed(&mut al, "far.example"));
}

#[test]
fn load_lowercases_and_dedupes() {
    let mut al = new_allowlist(tmp_path());
    let n = load(&mut al, vec!["A.example".to_string(), "a.example".to_string(), "b.example".to_string()]);
    assert_eq!(n, 2);
    assert_eq!(persisted_entries(&al), vec!["a.example".to_string(), "b.example".to_string()]);
}

#[test]
fn persisted_entries_are_sorted_like_strings() {
    let mut al = new_allowlist(tmp_path());
    for d in ["zeta.example", "alpha.example", "beta.example", "alp.example", "é.example"] {
        allow_forever(&mut al, d);
    }
    let mut expected: Vec<String> = persisted_entries(&al).clone();
    expected.sort();
    assert_eq!(persisted_entries(&al), expected);
    assert_eq!(persisted_entries(&al)[0], "alp.example");
}

#[test]
fn text_less_matches_string_order() {
    assert!(text_less("a", "b"));
    assert!(text_less("a", "ab"));
    assert!(!text_less("ab", "a"));
    assert!(!text_less("a", "a"));
    assert!(text_less("z", "é"));
    assert!(text_less("", "a"));
}

#[test]
fn allow_once_from_records_until_now_plus_ttl() {
    let mut al = new_allowlist(tmp_path());
    let now: i128 = 1_700_000_000 * NANOS_PER_SEC;
    assert!(allow_once_from(&mut al, "Phish.Example", now, ALLOW_ONCE_TTL_SECS));
    let end = now + (ALLOW_ONCE_TTL_SECS as i128) * NANOS_PER_SEC;
    assert!(is_allowed_at(&mut al, "phish.example", end - 1));
    assert!(!is_allowed_at(&mut al, "phish.example", end));
}

#[test]
fn allow_once_from_refuses_unrepresentable_expiry() {
    let mut al = new_allowlist(tmp_path());
    let now = LAST_INSTANT_NANOS - NANOS_PER_SEC;
    assert!(!allow_once_from(&mut al, "late.example", now, 2));
    assert!(!is_allowed_at(&mut al, "late.example", now));
    assert!(allow_once_from(&mut al, "late.example", now, 1));
    assert!(is_allowed_at(&mut al, "late.example", now));
}
