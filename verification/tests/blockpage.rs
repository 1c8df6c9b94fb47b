use std::path::PathBuf;

use sentinel::blockpage::{
    apply_decision, apply_decision_at, html_escape, render, BlockReason, DecisionAction, DecisionOutcome, VERSION,
};
use sentinel::feed::allowlist::{
    is_allowed, is_allowed_at, new_allowlist, persisted_entries, LAST_INSTANT_NANOS, NANOS_PER_SEC,
};

fn sample_reason() -> BlockReason {
    BlockReason {
        domain: "phishing-microsoft-login.example.com".to_string(),
        feed: "URLhaus".to_string(),
        listed_date: "2026-04-22".to_string(),
        listed_relative: "(6 days ago)".to_string(),
        threat_type: "malware host / credential harvest".to_string(),
        block_id: "7f3a2b91".to_string(),
        ts_iso: "2026-04-28T04:48:00Z".to_string(),
    }
}

#[test]
fn render_substitutes_every_token() {
    let html = render(&sample_reason());
    assert!(html.contains("phishing-microsoft-login.example.com"));
    assert!(html.contains("URLhaus"));
    assert!(html.contains("2026-04-22"));
    assert!(html.contains("(6 days ago)"));
    assert!(html.contains("malware host / credential harvest"));
    assert!(html.contains("7f3a2b91"));
    assert!(html.contains("2026-04-28T04:48:00Z"));
    // The library version makes it through too.
    assert!(html.contains(VERSION));
}

#[test]
fn render_leaves_no_unsubstituted_tokens() {
    let html = render(&sample_reason());
    assert!(
        !html.contains("{{"),
        "found unsubstituted opening brace in rendered html"
    );
    assert!(
        !html.contains("}}"),
        "found unsubstituted closing brace in rendered html"
    );
}

#[test]
fn render_html_escapes_crafted_domain() {
    let mut reason = sample_reason();
    reason.domain = r#"<script>alert("xss")</script>.example"#.to_string();
    let html = render(&reason);
    assert!(
        !html.contains("<script>"),
        "raw <script> tag leaked into rendered html"
    );
    assert!(html.contains("&lt;script&gt;"));
    assert!(html.contains("&quot;xss&quot;"));
}

#[test]
fn render_escapes_inside_form_value_attribute() {
    // The hidden inputs put the domain into value="..." — a domain
    // that contains a double quote must not break out of the attr.
    let mut reason = sample_reason();
    reason.domain = r#"a"b'c&d.example"#.to_string();
    let html = render(&reason);
    assert!(html.contains("&quot;"));
    assert!(html.contains("&#x27;"));
    assert!(html.contains("&amp;"));
}

#[test]
fn placeholder_renders_without_panicking() {
    let html = render(&BlockReason::placeholder());
    assert!(html.contains("no-recent-block.local"));
    assert!(!html.contains("{{"));
}

#[test]
fn html_escape_handles_ascii_and_unicode() {
    assert_eq!(html_escape("a & b"), "a &amp; b");
    assert_eq!(html_escape("<x>"), "&lt;x&gt;");
    assert_eq!(html_escape("x'y\"z"), "x&#x27;y&quot;z");
    // Non-ASCII passes through untouched.
    assert_eq!(html_escape("café 中"), "café 中");
}

fn count(s: &str, c: char) -> usize {
    s.chars().filter(|x| *x == c).count()
}

#[test]
fn render_markup_count_is_the_templates() {
    let plain = render(&sample_reason());
    let mut hostile = sample_reason();
    hostile.domain = "<a href='x'>\"".to_string();
    hostile.threat_type = "</dd><script>".to_string();
    hostile.ts_iso = ">>>".to_string();
    let html = render(&hostile);
    for c in ['<', '>', '"', '\''] {
        assert_eq!(count(&html, c), count(&plain, c));
    }
}

#[test]
fn render_shows_doctype_and_domain_in_hidden_inputs() {
    let html = render(&sample_reason());
    assert!(html.starts_with("<!doctype html>"));
    assert!(html.contains("value=\"phishing-microsoft-login.example.com\""));
    assert!(html.contains("value=\"7f3a2b91\""));
}

#[test]
fn placeholder_fields() {
    let p = BlockReason::placeholder();
    assert_eq!(p.domain, "no-recent-block.local");
    assert_eq!(p.feed, "URLhaus");
    assert_eq!(p.listed_date, "—");
    assert_eq!(p.listed_relative, "");
    assert_eq!(p.threat_type, "no recent block");
    assert_eq!(p.block_id, "00000000");
    assert_eq!(p.ts_iso, "—");
}

#[test]
fn escape_of_entity_text_is_escaped_again() {
    assert_eq!(html_escape("&amp;"), "&amp;amp;");
    assert_eq!(html_escape(""), "");
}

#[test]
fn decisions_update_the_allowlist() {
    let mut al = new_allowlist(PathBuf::from("decisions.toml"));
    assert_eq!(apply_decision(&mut al, "Keep.example", DecisionAction::KeepBlocked), DecisionOutcome::Done);
    assert!(!is_allowed(&mut al, "keep.example"));
    assert_eq!(apply_decision(&mut al, "Once.example", DecisionAction::AllowOnce), DecisionOutcome::Done);
    assert!(is_allowed(&mut al, "once.example"));
    assert!(persisted_entries(&al).is_empty());
    assert_eq!(
        apply_decision(&mut al, "Phish.example", DecisionAction::AllowForever),
        DecisionOutcome::PersistForever
    );
    assert!(is_allowed(&mut al, "phish.example"));
    assert_eq!(persisted_entries(&al), vec!["phish.example".to_string()]);
    assert_eq!(
        apply_decision(&mut al, "phish.example", DecisionAction::Forget),
        DecisionOutcome::PersistForever
    );
    assert!(!is_allowed(&mut al, "phish.example"));
    assert!(persisted_entries(&al).is_empty());
}

#[test]
fn allow_once_decision_counts_from_the_given_reading() {
    let mut al = new_allowlist(PathBuf::from("decisions-at.toml"));
    let now: i128 = 1_700_000_000 * NANOS_PER_SEC;
    assert_eq!(
        apply_decision_at(&mut al, "Once.example", DecisionAction::AllowOnce, Some(now)),
        DecisionOutcome::Done
    );
    assert!(is_allowed_at(&mut al, "once.example", now + 1800 * NANOS_PER_SEC - 1));
    assert!(!is_allowed_at(&mut al, "once.example", now + 1800 * NANOS_PER_SEC));
}

#[test]
fn allow_once_decision_without_a_usable_clock_records_nothing() {
    let mut al = new_allowlist(PathBuf::from("decisions-at.toml"));
    assert_eq!(
        apply_decision_at(&mut al, "a.example", DecisionAction::AllowOnce, None),
        DecisionOutcome::NotRecorded
    );
    let late = LAST_INSTANT_NANOS - NANOS_PER_SEC;
    assert_eq!(
        apply_decision_at(&mut al, "b.example", DecisionAction::AllowOnce, Some(late)),
        DecisionOutcome::NotRecorded
    );
    assert!(!is_allowed_at(&mut al, "a.example", 0));
    assert!(!is_allowed_at(&mut al, "b.example", late));
    assert_eq!(
        apply_decision_at(&mut al, "c.example", DecisionAction::KeepBlocked, None),
        DecisionOutcome::Done
    );
}
