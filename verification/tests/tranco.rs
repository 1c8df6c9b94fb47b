use std::io::{Cursor, Write};

use sentinel::feed::tranco::{domains_from_archive, parse_csv, TrancoError, TRANCO_TOP_N};

#[test]
fn parse_csv_lowercases_and_dedupes() {
    let body = "1,EXAMPLE.com\n2,Google.com\n3,example.com\n";
    let domains = parse_csv(body, 10);
    assert_eq!(domains.len(), 2);
    assert!(domains.contains("example.com"));
    assert!(domains.contains("google.com"));
}

#[test]
fn parse_csv_honors_limit_in_rank_order() {
    let body = "1,a.example\n2,b.example\n3,c.example\n4,d.example\n";
    let domains = parse_csv(body, 2);
    assert_eq!(domains.len(), 2);
    assert!(domains.contains("a.example"));
    assert!(domains.contains("b.example"));
    assert!(!domains.contains("c.example"));
}

#[test]
fn parse_csv_skips_malformed_rows_and_comments() {
    let body = "\
# Tranco list, generated 2026-04-29
1,ok.example
no-comma-row
2,
3,trailing.example
";
    let domains = parse_csv(body, 100);
    assert_eq!(domains.len(), 2);
    assert!(domains.contains("ok.example"));
    assert!(domains.contains("trailing.example"));
}

#[test]
fn parse_csv_handles_zero_limit() {
    let body = "1,a.example\n2,b.example\n";
    let domains = parse_csv(body, 0);
    assert!(domains.is_empty());
}

#[test]
fn parse_csv_trims_crlf_and_unicode_whitespace() {
    let body = "1, A.Example \r\n\u{a0}2,\tb.example\u{3000}\r\n  # 3,comment.example\n";
    let domains = parse_csv(body, 10);
    assert_eq!(domains.len(), 2);
    assert!(domains.contains("a.example"));
    assert!(domains.contains("b.example"));
    assert!(!domains.contains("comment.example"));
}

#[test]
fn parse_csv_splits_at_first_comma_only() {
    let domains = parse_csv("1,a.example,extra\n", 10);
    assert!(domains.contains("a.example,extra"));
    assert_eq!(domains.len(), 1);
}

#[test]
fn parse_csv_lowercases_ascii_only() {
    let domains = parse_csv("1,ÄBC.Example\n", 10);
    assert!(domains.contains("Äbc.example"));
}

#[test]
fn parse_csv_limit_counts_well_formed_rows() {
    // a repeated domain still takes up one of the `limit` rows
    let domains = parse_csv("1,a.com\n2,A.com\n3,b.com\n", 2);
    assert_eq!(domains.len(), 1);
    assert!(domains.contains("a.com"));
    assert!(!domains.contains("b.com"));
}

#[test]
fn parse_csv_malformed_rows_do_not_count_toward_limit() {
    let domains = parse_csv("# header\nbad\n1,\n2,a.example\n3,b.example\n4,c.example\n", 2);
    assert_eq!(domains.len(), 2);
    assert_eq!(domains.get(0), "a.example");
    assert_eq!(domains.get(1), "b.example");
}

#[test]
fn parse_csv_smaller_limit_is_prefix_of_larger() {
    let body = "1,a.example\nbad\n2,b.example\n3,c.example\n";
    let small = parse_csv(body, 2);
    let large = parse_csv(body, 3);
    assert_eq!(small.get(0), large.get(0));
    assert_eq!(small.get(1), large.get(1));
    assert_eq!(large.len(), 3);
}

#[test]
fn parse_csv_body_without_trailing_newline() {
    let domains = parse_csv("1,a.example\n2,b.example", 10);
    assert_eq!(domains.len(), 2);
    assert!(domains.contains("b.example"));
}

fn zip_with(entries: &[(&str, &[u8])]) -> Vec<u8> {
    let mut buf = Cursor::new(Vec::new());
    {
        let mut w = zip::ZipWriter::new(&mut buf);
        let opts = zip::write::SimpleFileOptions::default()
            .compression_method(zip::CompressionMethod::Stored);
        for (name, data) in entries {
            w.start_file(*name, opts).unwrap();
            w.write_all(data).unwrap();
        }
        w.finish().unwrap();
    }
    buf.into_inner()
}

#[test]
fn archive_first_entry_is_parsed() {
    let bytes = zip_with(&[("top-1m.csv", b"1,Example.com\n2,google.com\n")]);
    let domains = domains_from_archive(bytes).unwrap();
    assert_eq!(domains.len(), 2);
    assert!(domains.contains("example.com"));
    assert!(domains.contains("google.com"));
}

#[test]
fn archive_reads_first_entry_whatever_its_name() {
    let bytes = zip_with(&[("renamed.csv", b"1,first.example\n"), ("other.csv", b"1,second.example\n")]);
    let domains = domains_from_archive(bytes).unwrap();
    assert!(domains.contains("first.example"));
    assert!(!domains.contains("second.example"));
}

#[test]
fn archive_caps_at_top_n() {
    let mut body = String::new();
    for i in 0..(TRANCO_TOP_N + 5) {
        body.push_str(&format!("{},d{}.example\n", i + 1, i));
    }
    let bytes = zip_with(&[("top-1m.csv", body.as_bytes())]);
    let domains = domains_from_archive(bytes).unwrap();
    assert_eq!(domains.len(), TRANCO_TOP_N);
    assert!(domains.contains("d0.example"));
    assert!(!domains.contains(&format!("d{}.example", TRANCO_TOP_N)));
}

#[test]
fn archive_errors_are_reported_by_stage() {
    assert_eq!(domains_from_archive(b"not a zip".to_vec()).err(), Some(TrancoError::ArchiveParse));
    assert_eq!(domains_from_archive(zip_with(&[])).err(), Some(TrancoError::ArchiveEmpty));
    let bad_utf8: &[u8] = &[0xff, 0xfe, 0x00];
    assert_eq!(
        domains_from_archive(zip_with(&[("top-1m.csv", bad_utf8)])).err(),
        Some(TrancoError::CsvRead)
    );
}
