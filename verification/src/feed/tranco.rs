//! Tranco top-N allowlist anchor.
//!
//! Tranco publishes a daily-rebuilt ranking of the most popular domains as
//! a zip holding one `rank,domain` CSV, pre-sorted by ascending rank. The
//! top tier becomes an allowlist anchor: a popular domain that shows up on
//! URLhaus (compromise, hijack, false positive on a CDN) is not blackholed.
use std::io::{Cursor, Read};
use vstd::prelude::*;
use zip::result::ZipError;
use zip::ZipArchive;
use crate::feed::DomainSet;
use crate::text::{
    ascii_lower, has_no_ascii_upper, push_char, to_ascii_lower_char, trim, trim_bounds,
};

verus! {

/// Cap on the allowlist size: the top tier is plenty as a hijack and
/// false-positive guard and keeps the lookup set small.
pub const TRANCO_TOP_N: usize = 10000;

/// Why the downloaded Tranco archive yielded no domains.
#[derive(Clone, Copy, Debug, PartialEq, Eq, Structural)]
pub enum TrancoError {
    /// The bytes are not a zip archive.
    ArchiveParse,
    /// The archive holds no readable first entry.
    ArchiveEmpty,
    /// The first entry could not be read as UTF-8 text.
    CsvRead,
}

#[verifier::external_type_specification]
#[verifier::external_body]
pub struct ExZipError(ZipError);

#[verifier::external_type_specification]
#[verifier::external_body]
pub struct ExIoError(std::io::Error);

/// Name for whether `zip::ZipArchive::new` accepts the bytes as an archive
/// (it reads the central directory of an in-memory buffer, so the outcome
/// depends on the bytes alone).
pub uninterp spec fn zip_archive_opens(bytes: Seq<u8>) -> bool;

/// Name for whether `zip::ZipArchive::by_index(0)` finds a readable first
/// entry in the archive the bytes hold (a function of the bytes alone).
pub uninterp spec fn zip_first_entry_found(bytes: Seq<u8>) -> bool;

/// Name for what `std::io::Read::read_to_string` reads from that first
/// entry: its decompressed contents as text, or `None` when they are not
/// valid UTF-8 or cannot be decompressed (a function of the bytes alone).
pub uninterp spec fn zip_first_entry_text(bytes: Seq<u8>) -> Option<Seq<char>>;

/// Opens the zip archive held in `bytes` (`zip::ZipArchive::new` over an
/// in-memory `std::io::Cursor`), takes its entry 0 (`by_index(0)`) and reads
/// that entry to the end as UTF-8 (`std::io::Read::read_to_string`). The
/// entry borrows the archive, which lives only inside this call; each
/// step's result is handed back in its own `Result`: the outermost is the
/// opening, the middle one the entry lookup, the innermost the read.
///
/// Trusted: opening succeeds exactly when `zip_archive_opens(bytes)`; the
/// lookup, exactly when `zip_first_entry_found(bytes)`; the read, exactly
/// when `zip_first_entry_text(bytes)` is some text, which is then the text
/// returned.
#[verifier::external_body]
fn read_first_entry(bytes: Vec<u8>) -> (r: Result<Result<Result<String, std::io::Error>, ZipError>, ZipError>)
    ensures
        r is Ok == zip_archive_opens(bytes@),
        r matches Ok(found) ==> (found is Ok == zip_first_entry_found(bytes@)),
        r matches Ok(Ok(read)) ==> match read {
            Ok(text) => zip_first_entry_text(bytes@) == Some(text@),
            Err(_) => zip_first_entry_text(bytes@) is None,
        },
{
    let mut archive = ZipArchive::new(Cursor::new(bytes))?;
    let mut entry = match archive.by_index(0) {
        Ok(entry) => entry,
        Err(e) => return Ok(Err(e)),
    };
    let mut body = String::new();
    let read = match entry.read_to_string(&mut body) {
        Ok(_) => Ok(body),
        Err(e) => Err(e),
    };
    Ok(Ok(read))
}

/// The lines of `s`, split at every `\n`.
///
/// `str::lines` also drops a `\r` before each `\n` and yields no empty
/// final line; since every row is trimmed and blank rows are skipped, the
/// two splits give the same domains.
pub open spec fn split_lines(s: Seq<char>) -> Seq<Seq<char>>
    decreases s.len(),
{
    if s.len() == 0 {
        seq![Seq::<char>::empty()]
    } else {
        let p = split_lines(s.drop_last());
        if s.last() == '\n' {
            p.push(Seq::<char>::empty())
        } else {
            p.update(p.len() - 1, p.last().push(s.last()))
        }
    }
}

/// Index of the first `,` in `s`, or -1 when there is none.
pub open spec fn first_comma(s: Seq<char>) -> int
    decreases s.len(),
{
    if s.len() == 0 {
        -1
    } else if s[0] == ',' {
        0
    } else {
        let k = first_comma(s.drop_first());
        if k < 0 {
            -1
        } else {
            k + 1
        }
    }
}

/// The domain a CSV row contributes: `None` for a blank row, a `#`
/// comment, a row without a comma, or a row whose domain field is empty
/// after trimming; otherwise the trimmed, ASCII-lowercased text after the
/// first comma.
pub open spec fn row_domain(line: Seq<char>) -> Option<Seq<char>> {
    let t = trim(line);
    if t.len() == 0 || t[0] == '#' {
        None
    } else {
        let k = first_comma(t);
        if k < 0 {
            None
        } else {
            let d = ascii_lower(trim(t.skip(k + 1)));
            if d.len() == 0 {
                None
            } else {
                Some(d)
            }
        }
    }
}

/// The domains of the well-formed rows among `lines`, one per well-formed
/// row, in order (a domain listed on two rows appears twice).
pub open spec fn row_domains(lines: Seq<Seq<char>>) -> Seq<Seq<char>>
    decreases lines.len(),
{
    if lines.len() == 0 {
        Seq::empty()
    } else {
        let p = row_domains(lines.drop_last());
        match row_domain(lines.last()) {
            Some(d) => p.push(d),
            None => p,
        }
    }
}

/// `s` with every repeat of an earlier element dropped.
pub open spec fn distinct(s: Seq<Seq<char>>) -> Seq<Seq<char>>
    decreases s.len(),
{
    if s.len() == 0 {
        Seq::empty()
    } else {
        let p = distinct(s.drop_last());
        if p.contains(s.last()) {
            p
        } else {
            p.push(s.last())
        }
    }
}

/// The first `limit` elements of `s` (all of `s` when it is shorter).
pub open spec fn first_rows(s: Seq<Seq<char>>, limit: nat) -> Seq<Seq<char>> {
    if s.len() <= limit {
        s
    } else {
        s.take(limit as int)
    }
}

/// The domains of a Tranco CSV body, in rank order: the domains of its
/// first `limit` well-formed rows, each kept once.
pub open spec fn csv_domains(body: Seq<char>, limit: nat) -> Seq<Seq<char>> {
    distinct(first_rows(row_domains(split_lines(body)), limit))
}

/// The domain a row is well formed with satisfies what `parse_csv` promises
/// of every member.
pub open spec fn is_kept_domain(d: Seq<char>) -> bool {
    d.len() > 0 && has_no_ascii_upper(d)
}

proof fn lemma_row_domains_push(lines: Seq<Seq<char>>, line: Seq<char>)
    ensures
        row_domains(lines.push(line)) == match row_domain(line) {
            Some(d) => row_domains(lines).push(d),
            None => row_domains(lines),
        },
{
    assert(lines.push(line).drop_last() =~= lines);
}

proof fn lemma_distinct_push(s: Seq<Seq<char>>, d: Seq<char>)
    ensures
        distinct(s.push(d)) == if distinct(s).contains(d) {
            distinct(s)
        } else {
            distinct(s).push(d)
        },
{
    assert(s.push(d).drop_last() =~= s);
}

proof fn lemma_distinct_facts(s: Seq<Seq<char>>)
    ensures
        forall|d: Seq<char>| #[trigger] distinct(s).contains(d) <==> s.contains(d),
        distinct(s).no_duplicates(),
        distinct(s).len() <= s.len(),
    decreases s.len(),
{
    broadcast use vstd::seq_lib::group_seq_properties;

    if s.len() > 0 {
        let t = s.drop_last();
        lemma_distinct_facts(t);
        assert(s =~= t.push(s.last()));
        assert forall|d: Seq<char>| #[trigger] distinct(s).contains(d) <==> s.contains(d) by {
            assert(s.contains(d) <==> t.contains(d) || d == s.last());
        }
    }
}

/// Dropping repeats commutes with taking a prefix: the distinct elements of
/// a prefix are a prefix of the distinct elements of the whole.
proof fn lemma_distinct_prefix(s: Seq<Seq<char>>, k: int)
    requires
        0 <= k <= s.len(),
    ensures
        distinct(s.take(k)).len() <= distinct(s).len(),
        distinct(s).take(distinct(s.take(k)).len() as int) == distinct(s.take(k)),
    decreases s.len(),
{
    if k == s.len() {
        assert(s.take(k) =~= s);
        assert(distinct(s).take(distinct(s).len() as int) =~= distinct(s));
    } else {
        let t = s.drop_last();
        assert(s.take(k) =~= t.take(k));
        lemma_distinct_prefix(t, k);
        let n = distinct(t.take(k)).len() as int;
        assert(distinct(s).take(n) =~= distinct(t).take(n));
    }
}

proof fn lemma_row_domains_kept(lines: Seq<Seq<char>>)
    ensures
        forall|i: int| 0 <= i < row_domains(lines).len() ==> is_kept_domain(
            #[trigger] row_domains(lines)[i],
        ),
        forall|i: int|
            #![trigger row_domains(lines)[i]]
            0 <= i < row_domains(lines).len() ==> exists|j: int|
                0 <= j < lines.len() && row_domain(#[trigger] lines[j]) == Some(
                    row_domains(lines)[i],
                ),
    decreases lines.len(),
{
    if lines.len() > 0 {
        let t = lines.drop_last();
        lemma_row_domains_kept(t);
        let p = row_domains(t);
        let r = row_domains(lines);
        if let Some(d) = row_domain(lines.last()) {
            let l = lines.last();
            lemma_ascii_lower_has_no_upper(trim(trim(l).skip(first_comma(trim(l)) + 1)));
        }
        assert forall|i: int| #![trigger r[i]] 0 <= i < r.len() implies exists|j: int|
            0 <= j < lines.len() && row_domain(#[trigger] lines[j]) == Some(r[i]) by {
            if i < p.len() {
                assert(r[i] == p[i]);
                let j = choose|j: int| 0 <= j < t.len() && row_domain(#[trigger] t[j]) == Some(p[i]);
                assert(lines[j] == t[j]);
            } else {
                assert(row_domain(lines[lines.len() - 1]) == Some(r[i]));
            }
        }
        assert forall|i: int| 0 <= i < r.len() implies is_kept_domain(#[trigger] r[i]) by {
            if i < p.len() {
                assert(r[i] == p[i]);
            }
        }
    }
}

proof fn lemma_first_rows_step(rd: Seq<Seq<char>>, next: Option<Seq<char>>, limit: nat)
    ensures
        ({
            let rd2 = match next {
                Some(d) => rd.push(d),
                None => rd,
            };
            &&& rd.len() < limit ==> first_rows(rd2, limit) == rd2 && first_rows(rd, limit) == rd
            &&& rd.len() >= limit ==> first_rows(rd2, limit) == first_rows(rd, limit)
        }),
{
    if let Some(d) = next {
        if rd.len() >= limit {
            assert(rd.push(d).take(limit as int) =~= rd.take(limit as int));
            if rd.len() == limit {
                assert(rd.take(limit as int) =~= rd);
            }
        }
    }
}

proof fn lemma_ascii_lower_has_no_upper(s: Seq<char>)
    ensures
        has_no_ascii_upper(ascii_lower(s)),
{
    assert forall|i: int| 0 <= i < ascii_lower(s).len() implies !('A' <= #[trigger] ascii_lower(
        s,
    )[i] && ascii_lower(s)[i] <= 'Z') by {
        let c = s[i];
        if 'A' <= c && c <= 'Z' {
            assert((c as u32) + 32 >= 'a' as u32);
        }
    }
}

proof fn lemma_first_comma(t: Seq<char>, k: int)
    requires
        0 <= k <= t.len(),
        forall|j: int| 0 <= j < k ==> t[j] != ',',
        k == t.len() || t[k] == ',',
    ensures
        first_comma(t) == if k == t.len() {
            -1
        } else {
            k
        },
    decreases k,
{
    if k > 0 {
        lemma_first_comma(t.drop_first(), k - 1);
    }
}

proof fn lemma_split_single_line(s: Seq<char>)
    requires
        !s.contains('\n'),
    ensures
        split_lines(s) == seq![s],
    decreases s.len(),
{
    if s.len() == 0 {
        assert(s =~= Seq::<char>::empty());
        assert(split_lines(s) =~= seq![s]);
    } else {
        let p = s.drop_last();
        assert forall|i: int| 0 <= i < p.len() implies p[i] != '\n' by {
            assert(p[i] == s[i]);
        }
        lemma_split_single_line(p);
        assert(s.last() != '\n');
        assert(p.push(s.last()) =~= s);
        assert(split_lines(s) =~= seq![s]);
    }
}

/// Law: a row that is not blank, not a `#` comment, has a comma, and has a
/// non-empty field after its first comma contributes that field, trimmed
/// and ASCII-lowercased, whatever characters it holds.
pub proof fn law_well_formed_row_contributes(line: Seq<char>, k: int)
    requires
        trim(line).len() > 0,
        trim(line)[0] != '#',
        0 <= k < trim(line).len(),
        trim(line)[k] == ',',
        forall|j: int| 0 <= j < k ==> trim(line)[j] != ',',
        trim(trim(line).skip(k + 1)).len() > 0,
    ensures
        row_domain(line) == Some(ascii_lower(trim(trim(line).skip(k + 1)))),
{
    lemma_first_comma(trim(line), k);
}

/// Law: a row that is blank, a `#` comment, has no comma, or has nothing
/// but white space after its first comma contributes nothing.
pub proof fn law_malformed_row_skipped(line: Seq<char>)
    requires
        ({
            let t = trim(line);
            ||| t.len() == 0
            ||| t[0] == '#'
            ||| forall|j: int| 0 <= j < t.len() ==> t[j] != ','
            ||| exists|k: int|
                0 <= k < t.len() && t[k] == ',' && (forall|j: int| 0 <= j < k ==> t[j] != ',')
                    && trim(t.skip(k + 1)).len() == 0
        }),
    ensures
        row_domain(line) is None,
{
    let t = trim(line);
    if t.len() > 0 && t[0] != '#' {
        if forall|j: int| 0 <= j < t.len() ==> t[j] != ',' {
            lemma_first_comma(t, t.len() as int);
        } else {
            let k = choose|k: int|
                0 <= k < t.len() && t[k] == ',' && (forall|j: int| 0 <= j < k ==> t[j] != ',')
                    && trim(t.skip(k + 1)).len() == 0;
            lemma_first_comma(t, k);
        }
    }
}

/// Law: a body that is one well-formed row (no line break) yields exactly
/// that row's domain under any positive limit.
pub proof fn law_single_row_body(line: Seq<char>, k: int, limit: nat)
    requires
        !line.contains('\n'),
        limit > 0,
        trim(line).len() > 0,
        trim(line)[0] != '#',
        0 <= k < trim(line).len(),
        trim(line)[k] == ',',
        forall|j: int| 0 <= j < k ==> trim(line)[j] != ',',
        trim(trim(line).skip(k + 1)).len() > 0,
    ensures
        csv_domains(line, limit) == seq![ascii_lower(trim(trim(line).skip(k + 1)))],
{
    let d = ascii_lower(trim(trim(line).skip(k + 1)));
    law_well_formed_row_contributes(line, k);
    lemma_split_single_line(line);
    let lines = split_lines(line);
    assert(lines.drop_last() =~= Seq::<Seq<char>>::empty());
    assert(row_domains(Seq::<Seq<char>>::empty()) == Seq::<Seq<char>>::empty());
    assert(row_domains(lines) =~= seq![d]);
    assert(first_rows(seq![d], limit) == seq![d]);
    assert(seq![d].drop_last() =~= Seq::<Seq<char>>::empty());
    assert(distinct(Seq::<Seq<char>>::empty()) == Seq::<Seq<char>>::empty());
    assert(distinct(seq![d]) =~= seq![d]);
}

/// Law: the domains kept under a smaller limit are the leading domains kept
/// under a larger one, in the same rank order; the two are the same when
/// the body has no more well-formed rows than the smaller limit.
pub proof fn law_csv_domains_limit_prefix(body: Seq<char>, n: nat, m: nat)
    requires
        n <= m,
    ensures
        csv_domains(body, n).len() <= csv_domains(body, m).len(),
        csv_domains(body, n) == csv_domains(body, m).take(csv_domains(body, n).len() as int),
        row_domains(split_lines(body)).len() <= n ==> csv_domains(body, n) == csv_domains(body, m),
{
    let rd = row_domains(split_lines(body));
    let fm = first_rows(rd, m);
    let k = first_rows(rd, n).len() as int;
    assert(fm.take(k) =~= first_rows(rd, n));
    lemma_distinct_prefix(fm, k);
}

/// Law: a domain is kept exactly when it is the domain of one of the first
/// `limit` well-formed rows, and every such domain comes from a row of the
/// body.
pub proof fn law_csv_domains_are_the_rows(body: Seq<char>, limit: nat)
    ensures
        forall|d: Seq<char>| #[trigger]
            csv_domains(body, limit).contains(d) <==> first_rows(
                row_domains(split_lines(body)),
                limit,
            ).contains(d),
        forall|i: int|
            #![trigger row_domains(split_lines(body))[i]]
            0 <= i < row_domains(split_lines(body)).len() ==> exists|j: int|
                0 <= j < split_lines(body).len() && row_domain(#[trigger] split_lines(body)[j])
                    == Some(row_domains(split_lines(body))[i]),
{
    lemma_distinct_facts(first_rows(row_domains(split_lines(body)), limit));
    lemma_row_domains_kept(split_lines(body));
}

/// The ASCII-lowercased string made of `v[lo..hi]`.
fn lowercase_range(v: &Vec<char>, lo: usize, hi: usize) -> (s: String)
    requires
        lo <= hi <= v.len(),
    ensures
        s@ == ascii_lower(v@.subrange(lo as int, hi as int)),
{
    let mut s = String::new();
    let mut i = lo;
    while i < hi
        invariant
            lo <= i <= hi <= v.len(),
            s@ == ascii_lower(v@.subrange(lo as int, i as int)),
        decreases hi - i,
    {
        let c = to_ascii_lower_char(v[i]);
        push_char(&mut s, c);
        assert(ascii_lower(v@.subrange(lo as int, i + 1)) =~= ascii_lower(
            v@.subrange(lo as int, i as int),
        ).push(c));
        i = i + 1;
    }
    s
}

/// The domain that the CSV row `line` contributes, as `row_domain` says.
fn row_domain_of(line: &Vec<char>) -> (r: Option<String>)
    ensures
        match r {
            Some(d) => row_domain(line@) == Some(d@),
            None => row_domain(line@) is None,
        },
{
    let (a, b) = trim_bounds(line, 0, line.len());
    assert(line@.subrange(0, line@.len() as int) =~= line@);
    let ghost t = line@.subrange(a as int, b as int);
    if a == b || line[a] == '#' {
        return None;
    }
    let mut k = a;
    while k < b && line[k] != ','
        invariant
            a <= k <= b <= line.len(),
            forall|j: int| a <= j < k ==> line@[j] != ',',
        decreases b - k,
    {
        k = k + 1;
    }
    proof {
        lemma_first_comma(t, k - a);
    }
    if k == b {
        return None;
    }
    let (c, d) = trim_bounds(line, k + 1, b);
    assert(t.skip(k - a + 1) =~= line@.subrange(k + 1, b as int));
    if c == d {
        return None;
    }
    Some(lowercase_range(line, c, d))
}

/// Reads one row into `set`: its domain, when it is well formed, is added
/// unless already held. Returns whether the row was well formed.
fn read_row(set: &mut DomainSet, line: &Vec<char>) -> (counted: bool)
    ensures
        counted == row_domain(line@) is Some,
        final(set).entries() == match row_domain(line@) {
            Some(d) => if old(set).entries().contains(d) {
                old(set).entries()
            } else {
                old(set).entries().push(d)
            },
            None => old(set).entries(),
        },
{
    match row_domain_of(line) {
        Some(d) => {
            set.insert(d);
            true
        },
        None => false,
    }
}

/// Parse a Tranco `rank,domain` CSV into a deduped, lowercased domain set,
/// stopping after `limit` well-formed rows. Rows that are blank, comments
/// (`#`), missing the comma, or have an empty domain field are skipped.
///
/// Tranco rows are pre-sorted by ascending rank, so the first `limit`
/// well-formed rows are the top `limit` domains.
pub fn parse_csv(body: &str, limit: usize) -> (domains: DomainSet)
    ensures
        domains.entries() == csv_domains(body@, limit as nat),
        domains@.len() <= limit,
        domains.entries().no_duplicates(),
        forall|d: Seq<char>| #[trigger] domains@.contains(d) ==> is_kept_domain(d),
{
    let mut domains = DomainSet::new();
    let mut line: Vec<char> = Vec::new();
    let mut taken: usize = 0;
    let ghost mut done: Seq<Seq<char>> = Seq::empty();
    let ghost mut current: Seq<char> = Seq::empty();
    let ghost mut consumed: Seq<char> = Seq::empty();
    for c in it: body.chars()
        invariant
            it.seq() == body@,
            consumed == it.seq().take(it.index() as int),
            split_lines(consumed) == done.push(current),
            taken <= limit,
            taken < limit ==> taken == row_domains(done).len(),
            taken == limit ==> row_domains(done).len() >= limit,
            domains.entries() == distinct(first_rows(row_domains(done), limit as nat)),
            taken < limit ==> line@ == current,
    {
        assert(consumed.push(c).drop_last() =~= consumed);
        if c == '\n' {
            let ghost rd = row_domains(done);
            if taken < limit {
                let counted = read_row(&mut domains, &line);
                if counted {
                    taken = taken + 1;
                }
                line = Vec::new();
            }
            proof {
                lemma_row_domains_push(done, current);
                lemma_first_rows_step(rd, row_domain(current), limit as nat);
                if let Some(d) = row_domain(current) {
                    lemma_distinct_push(rd, d);
                }
                done = done.push(current);
                current = Seq::empty();
            }
        } else {
            if taken < limit {
                line.push(c);
            }
            proof {
                assert(done.push(current.push(c)) =~= done.push(current).update(
                    done.len() as int,
                    current.push(c),
                ));
                current = current.push(c);
            }
        }
        proof {
            consumed = consumed.push(c);
        }
    }
    assert(consumed =~= body@);
    let ghost rd = row_domains(done);
    if taken < limit {
        read_row(&mut domains, &line);
    }
    proof {
        lemma_row_domains_push(done, current);
        lemma_first_rows_step(rd, row_domain(current), limit as nat);
        if let Some(d) = row_domain(current) {
            lemma_distinct_push(rd, d);
        }
        let all = first_rows(row_domains(split_lines(body@)), limit as nat);
        lemma_distinct_facts(all);
        lemma_row_domains_kept(split_lines(body@));
        domains.entries().unique_seq_to_set();
        assert forall|d: Seq<char>| #[trigger] domains@.contains(d) implies is_kept_domain(d) by {
            assert(all.contains(d));
            let i = choose|i: int| 0 <= i < all.len() && all[i] == d;
            assert(all[i] == row_domains(split_lines(body@))[i]);
        }
    }
    domains
}

/// Extract the CSV embedded in a downloaded Tranco zip and parse its top
/// `TRANCO_TOP_N` rows. The archive is documented to hold a single CSV, so
/// its first entry is read, whatever its name.
pub fn domains_from_archive(bytes: Vec<u8>) -> (r: Result<DomainSet, TrancoError>)
    ensures
        !zip_archive_opens(bytes@) ==> r == Err::<DomainSet, TrancoError>(
            TrancoError::ArchiveParse,
        ),
        zip_archive_opens(bytes@) && !zip_first_entry_found(bytes@) ==> r == Err::<
            DomainSet,
            TrancoError,
        >(TrancoError::ArchiveEmpty),
        zip_archive_opens(bytes@) && zip_first_entry_found(bytes@) && zip_first_entry_text(
            bytes@,
        ) is None ==> r == Err::<DomainSet, TrancoError>(TrancoError::CsvRead),
        zip_archive_opens(bytes@) && zip_first_entry_found(bytes@) && zip_first_entry_text(
            bytes@,
        ) is Some ==> (r matches Ok(d) && d.entries() == csv_domains(
            zip_first_entry_text(bytes@)->0,
            TRANCO_TOP_N as nat,
        )),
        r matches Ok(d) ==> d@.len() <= TRANCO_TOP_N,
{
    let body = match read_first_entry(bytes) {
        Ok(Ok(Ok(b))) => b,
        Ok(Ok(Err(_))) => return Err(TrancoError::CsvRead),
        Ok(Err(_)) => return Err(TrancoError::ArchiveEmpty),
        Err(_) => return Err(TrancoError::ArchiveParse),
    };
    let domains = parse_csv(body.as_str(), TRANCO_TOP_N);
    Ok(domains)
}

} // verus!
