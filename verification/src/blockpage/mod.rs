//! The block-page: the page served on `127.0.0.1` when a lookup was
//! blocked, and the decision its action buttons post back.
//!
//! The page is the compiled-in template with per-request token
//! substitution. `domain` originates from untrusted DNS query data, so every
//! field is HTML-escaped on the way in: a crafted query such as
//! `<script>alert(1)</script>.example` cannot break out of the page.
pub mod template;

use vstd::prelude::*;
use crate::feed::allowlist::{
    allow_forever, allow_once_from, expiry_representable, forget, now_unix_nanos,
    once_after_allow, AllowState, ALLOW_ONCE_TTL_SECS, FIRST_INSTANT_NANOS, LAST_INSTANT_NANOS,
};
use crate::text::{
    count_char, lemma_replace_all_absent, lemma_replace_all_keeps_count,
    lemma_replace_all_other_slot, lemma_replace_all_split, lemma_replace_all_whole, replace_all,
    replace_chars, string_from_chars, to_chars, unicode_lowercase,
};
use template::{lemma_template_layout, TEMPLATE};

verus! {

/// The library version shown in the block-page footer.
pub const VERSION: &'static str = "0.1.3";

/// All the per-request fields the resolver fills in before rendering.
#[derive(Clone, Debug)]
pub struct BlockReason {
    pub domain: String,
    pub feed: String,
    /// `YYYY-MM-DD` listing date.
    pub listed_date: String,
    /// `(N days ago)` companion phrase, including the parens.
    pub listed_relative: String,
    pub threat_type: String,
    /// 8-char hex block id (the forensic-trust footer field).
    pub block_id: String,
    /// RFC 3339 timestamp of the block decision.
    pub ts_iso: String,
}

impl BlockReason {
    /// A self-evident placeholder used when the server is hit before a real
    /// DNS query has populated the current-block slot (e.g. opening
    /// `http://127.0.0.1` in a browser by hand).
    pub fn placeholder() -> (r: Self)
        ensures
            r.domain@ == "no-recent-block.local"@,
            r.feed@ == "URLhaus"@,
            r.listed_date@ == "\u{2014}"@,
            r.listed_relative@ == Seq::<char>::empty(),
            r.threat_type@ == "no recent block"@,
            r.block_id@ == "00000000"@,
            r.ts_iso@ == "\u{2014}"@,
    {
        BlockReason {
            domain: String::from_str("no-recent-block.local"),
            feed: String::from_str("URLhaus"),
            listed_date: String::from_str("\u{2014}"),
            listed_relative: String::new(),
            threat_type: String::from_str("no recent block"),
            block_id: String::from_str("00000000"),
            ts_iso: String::from_str("\u{2014}"),
        }
    }

    /// The page [`render`] produces for this reason.
    pub open spec fn page(&self) -> Seq<char> {
        rendered_page(
            self.domain@,
            self.feed@,
            self.listed_date@,
            self.listed_relative@,
            self.threat_type@,
            self.block_id@,
            self.ts_iso@,
        )
    }
}

/// What one character becomes in escaped text: the five characters that
/// can break out of an element body or a `value="..."` attribute become
/// entities; every other character passes through.
pub open spec fn escape_char(c: char) -> Seq<char> {
    if c == '&' {
        seq!['&', 'a', 'm', 'p', ';']
    } else if c == '<' {
        seq!['&', 'l', 't', ';']
    } else if c == '>' {
        seq!['&', 'g', 't', ';']
    } else if c == '"' {
        seq!['&', 'q', 'u', 'o', 't', ';']
    } else if c == '\'' {
        seq!['&', '#', 'x', '2', '7', ';']
    } else {
        seq![c]
    }
}

/// `s` with each character escaped as `escape_char` says.
pub open spec fn html_escaped(s: Seq<char>) -> Seq<char>
    decreases s.len(),
{
    if s.len() == 0 {
        Seq::empty()
    } else {
        html_escaped(s.drop_last()) + escape_char(s.last())
    }
}

/// The template with every `{{token}}` replaced, in this order, by the
/// escaped field: domain, feed, listed_date, listed_relative, threat_type,
/// block_id, ts_iso, version.
pub open spec fn rendered_page(
    domain: Seq<char>,
    feed: Seq<char>,
    listed_date: Seq<char>,
    listed_relative: Seq<char>,
    threat_type: Seq<char>,
    block_id: Seq<char>,
    ts_iso: Seq<char>,
) -> Seq<char> {
    let p1 = replace_all(TEMPLATE@, "{{domain}}"@, html_escaped(domain));
    let p2 = replace_all(p1, "{{feed}}"@, html_escaped(feed));
    let p3 = replace_all(p2, "{{listed_date}}"@, html_escaped(listed_date));
    let p4 = replace_all(p3, "{{listed_relative}}"@, html_escaped(listed_relative));
    let p5 = replace_all(p4, "{{threat_type}}"@, html_escaped(threat_type));
    let p6 = replace_all(p5, "{{block_id}}"@, html_escaped(block_id));
    let p7 = replace_all(p6, "{{ts_iso}}"@, html_escaped(ts_iso));
    replace_all(p7, "{{version}}"@, html_escaped(VERSION@))
}

/// The characters that can open or close markup: a raw one coming from a
/// field could break out of an element body or an attribute value.
pub open spec fn is_markup_char(c: char) -> bool {
    c == '<' || c == '>' || c == '"' || c == '\''
}

/// What an HTML reader makes of escaped text: the five entities
/// `html_escape` writes are decoded back into their characters.
pub open spec fn html_unescaped(t: Seq<char>) -> Seq<char>
    decreases t.len(),
{
    if t.len() == 0 {
        Seq::empty()
    } else if t.len() >= 5 && t.take(5) == escape_char('&') {
        seq!['&'] + html_unescaped(t.skip(5))
    } else if t.len() >= 4 && t.take(4) == escape_char('<') {
        seq!['<'] + html_unescaped(t.skip(4))
    } else if t.len() >= 4 && t.take(4) == escape_char('>') {
        seq!['>'] + html_unescaped(t.skip(4))
    } else if t.len() >= 6 && t.take(6) == escape_char('"') {
        seq!['"'] + html_unescaped(t.skip(6))
    } else if t.len() >= 6 && t.take(6) == escape_char('\'') {
        seq!['\''] + html_unescaped(t.skip(6))
    } else {
        seq![t[0]] + html_unescaped(t.skip(1))
    }
}

proof fn lemma_escaped_append(a: Seq<char>, b: Seq<char>)
    ensures
        html_escaped(a + b) == html_escaped(a) + html_escaped(b),
    decreases b.len(),
{
    if b.len() == 0 {
        assert(a + b =~= a);
        assert(html_escaped(a) + html_escaped(b) =~= html_escaped(a));
    } else {
        assert((a + b).drop_last() =~= a + b.drop_last());
        lemma_escaped_append(a, b.drop_last());
        assert(html_escaped(a) + html_escaped(b) =~= html_escaped(a) + html_escaped(
            b.drop_last(),
        ) + escape_char(b.last()));
    }
}

proof fn lemma_escaped_no_markup(s: Seq<char>)
    ensures
        forall|i: int| 0 <= i < html_escaped(s).len() ==> !is_markup_char(#[trigger] html_escaped(s)[i]),
    decreases s.len(),
{
    if s.len() > 0 {
        lemma_escaped_no_markup(s.drop_last());
        let p = html_escaped(s.drop_last());
        let e = escape_char(s.last());
        assert forall|i: int| 0 <= i < html_escaped(s).len() implies !is_markup_char(
            #[trigger] html_escaped(s)[i],
        ) by {
            if i < p.len() {
                assert(html_escaped(s)[i] == p[i]);
            } else {
                assert(html_escaped(s)[i] == e[i - p.len()]);
            }
        }
    }
}

proof fn lemma_unescape_one(c: char, rest: Seq<char>)
    ensures
        html_unescaped(escape_char(c) + rest) == seq![c] + html_unescaped(rest),
{
    let t = escape_char(c) + rest;
    let n = escape_char(c).len() as int;
    assert(t.skip(n) =~= rest);
    assert(t.take(n) =~= escape_char(c));
    if c == '&' {
    } else if c == '<' {
        if t.len() >= 5 {
            assert(t.take(5)[1] != escape_char('&')[1]);
        }
    } else if c == '>' {
        if t.len() >= 5 {
            assert(t.take(5)[1] != escape_char('&')[1]);
        }
        assert(t.take(4)[1] != escape_char('<')[1]);
    } else if c == '"' {
        assert(t.take(5)[1] != escape_char('&')[1]);
        assert(t.take(4)[1] != escape_char('<')[1]);
        assert(t.take(4)[1] != escape_char('>')[1]);
    } else if c == '\'' {
        assert(t.take(5)[1] != escape_char('&')[1]);
        assert(t.take(4)[1] != escape_char('<')[1]);
        assert(t.take(4)[1] != escape_char('>')[1]);
        assert(t.take(6)[1] != escape_char('"')[1]);
    } else {
        assert(t[0] == c);
        if t.len() >= 4 {
            assert(t.take(4)[0] != '&');
            assert(escape_char('<')[0] == '&');
            assert(escape_char('>')[0] == '&');
        }
        if t.len() >= 5 {
            assert(t.take(5)[0] != escape_char('&')[0]);
        }
        if t.len() >= 6 {
            assert(t.take(6)[0] != escape_char('"')[0]);
            assert(t.take(6)[0] != escape_char('\'')[0]);
        }
    }
}

/// Law: escaped text holds no raw markup character, whatever the input.
pub proof fn law_escape_leaves_no_markup(s: Seq<char>)
    ensures
        forall|i: int| 0 <= i < html_escaped(s).len() ==> !is_markup_char(#[trigger] html_escaped(s)[i]),
{
    lemma_escaped_no_markup(s);
}

/// Law: escaping loses nothing. Decoding the entities of escaped text gives
/// back exactly the text that was escaped (non-ASCII included).
pub proof fn law_unescape_inverts_escape(s: Seq<char>)
    ensures
        html_unescaped(html_escaped(s)) == s,
    decreases s.len(),
{
    if s.len() > 0 {
        let rest = s.drop_first();
        assert(s =~= seq![s[0]] + rest);
        lemma_escaped_append(seq![s[0]], rest);
        assert(seq![s[0]].drop_last() =~= Seq::<char>::empty());
        assert(html_escaped(Seq::<char>::empty()) == Seq::<char>::empty());
        assert(Seq::<char>::empty() + escape_char(s[0]) =~= escape_char(s[0]));
        assert(html_escaped(seq![s[0]]) =~= escape_char(s[0]));
        lemma_unescape_one(s[0], html_escaped(rest));
        law_unescape_inverts_escape(rest);
    }
}

proof fn lemma_escaped_count_zero(s: Seq<char>, c: char)
    requires
        is_markup_char(c),
    ensures
        !html_escaped(s).contains(c),
{
    lemma_escaped_no_markup(s);
}

proof fn lemma_token_has_no_markup(token: Seq<char>, c: char)
    requires
        is_markup_char(c),
        forall|i: int| 0 <= i < token.len() ==> token[i] == '{' || token[i] == '}' || ('a'
            <= #[trigger] token[i] && token[i] <= 'z') || token[i] == '_',
    ensures
        !token.contains(c),
{
}

/// Law: the rendered page holds exactly as many raw `<`, `>`, `"` and `'`
/// characters as the template does, whatever the fields hold: no field can
/// open or close an element or an attribute value.
pub proof fn law_render_adds_no_markup(
    domain: Seq<char>,
    feed: Seq<char>,
    listed_date: Seq<char>,
    listed_relative: Seq<char>,
    threat_type: Seq<char>,
    block_id: Seq<char>,
    ts_iso: Seq<char>,
    c: char,
)
    requires
        is_markup_char(c),
    ensures
        count_char(
            rendered_page(
                domain,
                feed,
                listed_date,
                listed_relative,
                threat_type,
                block_id,
                ts_iso,
            ),
            c,
        ) == count_char(TEMPLATE@, c),
{
    reveal_strlit("{{domain}}");
    reveal_strlit("{{feed}}");
    reveal_strlit("{{listed_date}}");
    reveal_strlit("{{listed_relative}}");
    reveal_strlit("{{threat_type}}");
    reveal_strlit("{{block_id}}");
    reveal_strlit("{{ts_iso}}");
    reveal_strlit("{{version}}");
    lemma_token_has_no_markup("{{domain}}"@, c);
    lemma_token_has_no_markup("{{feed}}"@, c);
    lemma_token_has_no_markup("{{listed_date}}"@, c);
    lemma_token_has_no_markup("{{listed_relative}}"@, c);
    lemma_token_has_no_markup("{{threat_type}}"@, c);
    lemma_token_has_no_markup("{{block_id}}"@, c);
    lemma_token_has_no_markup("{{ts_iso}}"@, c);
    lemma_token_has_no_markup("{{version}}"@, c);
    lemma_escaped_count_zero(domain, c);
    lemma_escaped_count_zero(feed, c);
    lemma_escaped_count_zero(listed_date, c);
    lemma_escaped_count_zero(listed_relative, c);
    lemma_escaped_count_zero(threat_type, c);
    lemma_escaped_count_zero(block_id, c);
    lemma_escaped_count_zero(ts_iso, c);
    lemma_escaped_count_zero(VERSION@, c);
    let p1 = replace_all(TEMPLATE@, "{{domain}}"@, html_escaped(domain));
    let p2 = replace_all(p1, "{{feed}}"@, html_escaped(feed));
    let p3 = replace_all(p2, "{{listed_date}}"@, html_escaped(listed_date));
    let p4 = replace_all(p3, "{{listed_relative}}"@, html_escaped(listed_relative));
    let p5 = replace_all(p4, "{{threat_type}}"@, html_escaped(threat_type));
    let p6 = replace_all(p5, "{{block_id}}"@, html_escaped(block_id));
    let p7 = replace_all(p6, "{{ts_iso}}"@, html_escaped(ts_iso));
    lemma_replace_all_keeps_count(TEMPLATE@, "{{domain}}"@, html_escaped(domain), c);
    lemma_replace_all_keeps_count(p1, "{{feed}}"@, html_escaped(feed), c);
    lemma_replace_all_keeps_count(p2, "{{listed_date}}"@, html_escaped(listed_date), c);
    lemma_replace_all_keeps_count(p3, "{{listed_relative}}"@, html_escaped(listed_relative), c);
    lemma_replace_all_keeps_count(p4, "{{threat_type}}"@, html_escaped(threat_type), c);
    lemma_replace_all_keeps_count(p5, "{{block_id}}"@, html_escaped(block_id), c);
    lemma_replace_all_keeps_count(p6, "{{ts_iso}}"@, html_escaped(ts_iso), c);
    lemma_replace_all_keeps_count(p7, "{{version}}"@, html_escaped(VERSION@), c);
}

/// The evidence rows as the template lays them out, with `domain`, `feed`,
/// `listed_date`, `listed_relative` and `threat` in their `<dd>` cells.
pub open spec fn evidence_rows(
    domain: Seq<char>,
    feed: Seq<char>,
    listed_date: Seq<char>,
    listed_relative: Seq<char>,
    threat: Seq<char>,
) -> Seq<char> {
    "<dt>domain</dt><dd>"@ + domain + "</dd>\n<dt>feed</dt><dd>"@ + feed
        + "</dd>\n<dt>listed</dt><dd>"@ + listed_date + " "@ + listed_relative
        + "</dd>\n<dt>threat</dt><dd>"@ + threat + "</dd>"@
}

proof fn lemma_escaped_no_brace(s: Seq<char>)
    requires
        !s.contains('{'),
    ensures
        !html_escaped(s).contains('{'),
    decreases s.len(),
{
    if s.len() > 0 {
        assert forall|i: int| 0 <= i < s.drop_last().len() implies s.drop_last()[i] != '{' by {
            assert(s.drop_last()[i] == s[i]);
        }
        lemma_escaped_no_brace(s.drop_last());
        let p = html_escaped(s.drop_last());
        let e = escape_char(s.last());
        assert(s.last() != '{');
        assert forall|i: int| 0 <= i < html_escaped(s).len() implies html_escaped(s)[i] != '{' by {
            if i < p.len() {
                assert(html_escaped(s)[i] == p[i]);
            } else {
                assert(html_escaped(s)[i] == e[i - p.len()]);
            }
        }
    }
}

/// One replacement pass over a page holding the evidence rows: the text
/// before and after the rows and each cell are replaced on their own,
/// since no slot can reach across the markup around a cell.
proof fn lemma_rows_pass(
    x: Seq<char>,
    y: Seq<char>,
    d: Seq<char>,
    f: Seq<char>,
    ld: Seq<char>,
    lr: Seq<char>,
    th: Seq<char>,
    t: Seq<char>,
    rep: Seq<char>,
)
    requires
        t.len() >= 2,
        t[0] == '{',
        !t.contains('<'),
        !t.contains('>'),
        !t.contains(' '),
    ensures
        replace_all(x + evidence_rows(d, f, ld, lr, th) + y, t, rep) == replace_all(x, t, rep)
            + evidence_rows(
            replace_all(d, t, rep),
            replace_all(f, t, rep),
            replace_all(ld, t, rep),
            replace_all(lr, t, rep),
            replace_all(th, t, rep),
        ) + replace_all(y, t, rep),
{
    let l0 = "<dt>domain</dt><dd>"@;
    let l1 = "</dd>\n<dt>feed</dt><dd>"@;
    let l2 = "</dd>\n<dt>listed</dt><dd>"@;
    let sp = " "@;
    let l3 = "</dd>\n<dt>threat</dt><dd>"@;
    let l4 = "</dd>"@;
    reveal_strlit("<dt>domain</dt><dd>");
    reveal_strlit("</dd>\n<dt>feed</dt><dd>");
    reveal_strlit("</dd>\n<dt>listed</dt><dd>");
    reveal_strlit(" ");
    reveal_strlit("</dd>\n<dt>threat</dt><dd>");
    reveal_strlit("</dd>");
    lemma_replace_all_absent(l0, t, rep);
    lemma_replace_all_absent(l1, t, rep);
    lemma_replace_all_absent(l2, t, rep);
    lemma_replace_all_absent(sp, t, rep);
    lemma_replace_all_absent(l3, t, rep);
    lemma_replace_all_absent(l4, t, rep);
    let r1 = l0 + d;
    let r2 = r1 + l1;
    let r3 = r2 + f;
    let r4 = r3 + l2;
    let r5 = r4 + ld;
    let r6 = r5 + sp;
    let r7 = r6 + lr;
    let r8 = r7 + l3;
    let r9 = r8 + th;
    let rows = r9 + l4;
    assert(rows == evidence_rows(d, f, ld, lr, th));
    lemma_replace_all_split(l0, d, t, rep);
    lemma_replace_all_split(r1, l1, t, rep);
    assert(r2.last() == '>');
    lemma_replace_all_split(r2, f, t, rep);
    lemma_replace_all_split(r3, l2, t, rep);
    assert(r4.last() == '>');
    lemma_replace_all_split(r4, ld, t, rep);
    lemma_replace_all_split(r5, sp, t, rep);
    assert(r6.last() == ' ');
    lemma_replace_all_split(r6, lr, t, rep);
    lemma_replace_all_split(r7, l3, t, rep);
    assert(r8.last() == '>');
    lemma_replace_all_split(r8, th, t, rep);
    lemma_replace_all_split(r9, l4, t, rep);
    assert(rows[0] == '<');
    assert(rows.last() == '>');
    lemma_replace_all_split(x, rows, t, rep);
    lemma_replace_all_split(x + rows, y, t, rep);
    assert((x + rows).last() == '>');
}

/// Law: each evidence cell of the rendered page holds its own field,
/// escaped. The domain cell holds the escaped domain, the feed cell the
/// escaped feed, the listing cell the escaped date and relative phrase,
/// the threat cell the escaped threat type. It holds whenever those fields
/// carry no `{` (a field that carries slot text such as `{{feed}}` would
/// itself be filled by a later slot's pass).
#[verifier::spinoff_prover]
#[verifier::rlimit(30)]
pub proof fn law_render_fills_each_cell(r: BlockReason)
    requires
        !r.domain@.contains('{'),
        !r.feed@.contains('{'),
        !r.listed_date@.contains('{'),
        !r.listed_relative@.contains('{'),
        !r.threat_type@.contains('{'),
    ensures
        exists|before: Seq<char>, after: Seq<char>|
            r.page() == before + evidence_rows(
                html_escaped(r.domain@),
                html_escaped(r.feed@),
                html_escaped(r.listed_date@),
                html_escaped(r.listed_relative@),
                html_escaped(r.threat_type@),
            ) + after,
{
    let t_dom = "{{domain}}"@;
    let t_feed = "{{feed}}"@;
    let t_ld = "{{listed_date}}"@;
    let t_lr = "{{listed_relative}}"@;
    let t_th = "{{threat_type}}"@;
    let t_id = "{{block_id}}"@;
    let t_ts = "{{ts_iso}}"@;
    let t_ver = "{{version}}"@;
    reveal_strlit("{{domain}}");
    reveal_strlit("{{feed}}");
    reveal_strlit("{{listed_date}}");
    reveal_strlit("{{listed_relative}}");
    reveal_strlit("{{threat_type}}");
    reveal_strlit("{{block_id}}");
    reveal_strlit("{{ts_iso}}");
    reveal_strlit("{{version}}");
    reveal_strlit("<dt>domain</dt><dd>{{domain}}</dd>\n<dt>feed</dt><dd>{{feed}}</dd>\n<dt>listed</dt><dd>{{listed_date}} {{listed_relative}}</dd>\n<dt>threat</dt><dd>{{threat_type}}</dd>");
    reveal_strlit("<dt>domain</dt><dd>");
    reveal_strlit("</dd>\n<dt>feed</dt><dd>");
    reveal_strlit("</dd>\n<dt>listed</dt><dd>");
    reveal_strlit(" ");
    reveal_strlit("</dd>\n<dt>threat</dt><dd>");
    reveal_strlit("</dd>");
    lemma_template_layout();
    let e_dom = html_escaped(r.domain@);
    let e_feed = html_escaped(r.feed@);
    let e_ld = html_escaped(r.listed_date@);
    let e_lr = html_escaped(r.listed_relative@);
    let e_th = html_escaped(r.threat_type@);
    lemma_escaped_no_brace(r.domain@);
    lemma_escaped_no_brace(r.feed@);
    lemma_escaped_no_brace(r.listed_date@);
    lemma_escaped_no_brace(r.listed_relative@);
    lemma_escaped_no_brace(r.threat_type@);
    let x0 = TEMPLATE@.take(1367);
    let y0 = TEMPLATE@.skip(1532);
    assert(TEMPLATE@ == x0 + evidence_rows(t_dom, t_feed, t_ld, t_lr, t_th) + y0);
    // domain
    let rep = e_dom;
    lemma_rows_pass(x0, y0, t_dom, t_feed, t_ld, t_lr, t_th, t_dom, rep);
    lemma_replace_all_whole(t_dom, rep);
    lemma_replace_all_other_slot(t_feed, t_dom, rep);
    assert(t_ld[2] != t_dom[2]);
    lemma_replace_all_other_slot(t_ld, t_dom, rep);
    assert(t_lr[2] != t_dom[2]);
    lemma_replace_all_other_slot(t_lr, t_dom, rep);
    assert(t_th[2] != t_dom[2]);
    lemma_replace_all_other_slot(t_th, t_dom, rep);
    let x1 = replace_all(x0, t_dom, rep);
    let y1 = replace_all(y0, t_dom, rep);
    let p1 = x1 + evidence_rows(e_dom, t_feed, t_ld, t_lr, t_th) + y1;
    assert(p1 == replace_all(TEMPLATE@, t_dom, rep));
    // feed
    let rep = e_feed;
    lemma_rows_pass(x1, y1, e_dom, t_feed, t_ld, t_lr, t_th, t_feed, rep);
    lemma_replace_all_absent(e_dom, t_feed, rep);
    lemma_replace_all_whole(t_feed, rep);
    assert(t_ld[2] != t_feed[2]);
    lemma_replace_all_other_slot(t_ld, t_feed, rep);
    assert(t_lr[2] != t_feed[2]);
    lemma_replace_all_other_slot(t_lr, t_feed, rep);
    assert(t_th[2] != t_feed[2]);
    lemma_replace_all_other_slot(t_th, t_feed, rep);
    let x2 = replace_all(x1, t_feed, rep);
    let y2 = replace_all(y1, t_feed, rep);
    let p2 = x2 + evidence_rows(e_dom, e_feed, t_ld, t_lr, t_th) + y2;
    assert(p2 == replace_all(p1, t_feed, rep));
    // listed_date
    let rep = e_ld;
    lemma_rows_pass(x2, y2, e_dom, e_feed, t_ld, t_lr, t_th, t_ld, rep);
    lemma_replace_all_absent(e_dom, t_ld, rep);
    lemma_replace_all_absent(e_feed, t_ld, rep);
    lemma_replace_all_whole(t_ld, rep);
    assert(t_lr[9] != t_ld[9]);
    assert(t_lr.take(t_ld.len() as int)[9] != t_ld[9]);
    lemma_replace_all_other_slot(t_lr, t_ld, rep);
    assert(t_th[2] != t_ld[2]);
    assert(t_th.take(t_ld.len() as int)[2] != t_ld[2]);
    lemma_replace_all_other_slot(t_th, t_ld, rep);
    let x3 = replace_all(x2, t_ld, rep);
    let y3 = replace_all(y2, t_ld, rep);
    let p3 = x3 + evidence_rows(e_dom, e_feed, e_ld, t_lr, t_th) + y3;
    assert(p3 == replace_all(p2, t_ld, rep));
    // listed_relative
    let rep = e_lr;
    lemma_rows_pass(x3, y3, e_dom, e_feed, e_ld, t_lr, t_th, t_lr, rep);
    lemma_replace_all_absent(e_dom, t_lr, rep);
    lemma_replace_all_absent(e_feed, t_lr, rep);
    lemma_replace_all_absent(e_ld, t_lr, rep);
    lemma_replace_all_whole(t_lr, rep);
    lemma_replace_all_other_slot(t_th, t_lr, rep);
    let x4 = replace_all(x3, t_lr, rep);
    let y4 = replace_all(y3, t_lr, rep);
    let p4 = x4 + evidence_rows(e_dom, e_feed, e_ld, e_lr, t_th) + y4;
    assert(p4 == replace_all(p3, t_lr, rep));
    // threat_type
    let rep = e_th;
    lemma_rows_pass(x4, y4, e_dom, e_feed, e_ld, e_lr, t_th, t_th, rep);
    lemma_replace_all_absent(e_dom, t_th, rep);
    lemma_replace_all_absent(e_feed, t_th, rep);
    lemma_replace_all_absent(e_ld, t_th, rep);
    lemma_replace_all_absent(e_lr, t_th, rep);
    lemma_replace_all_whole(t_th, rep);
    let x5 = replace_all(x4, t_th, rep);
    let y5 = replace_all(y4, t_th, rep);
    let rows = evidence_rows(e_dom, e_feed, e_ld, e_lr, e_th);
    let p5 = x5 + rows + y5;
    assert(p5 == replace_all(p4, t_th, rep));
    // block_id, ts_iso, version: the cells hold no `{` any more
    let rep = html_escaped(r.block_id@);
    lemma_rows_pass(x5, y5, e_dom, e_feed, e_ld, e_lr, e_th, t_id, rep);
    lemma_replace_all_absent(e_dom, t_id, rep);
    lemma_replace_all_absent(e_feed, t_id, rep);
    lemma_replace_all_absent(e_ld, t_id, rep);
    lemma_replace_all_absent(e_lr, t_id, rep);
    lemma_replace_all_absent(e_th, t_id, rep);
    let x6 = replace_all(x5, t_id, rep);
    let y6 = replace_all(y5, t_id, rep);
    assert(x6 + rows + y6 == replace_all(p5, t_id, rep));
    let rep = html_escaped(r.ts_iso@);
    lemma_rows_pass(x6, y6, e_dom, e_feed, e_ld, e_lr, e_th, t_ts, rep);
    lemma_replace_all_absent(e_dom, t_ts, rep);
    lemma_replace_all_absent(e_feed, t_ts, rep);
    lemma_replace_all_absent(e_ld, t_ts, rep);
    lemma_replace_all_absent(e_lr, t_ts, rep);
    lemma_replace_all_absent(e_th, t_ts, rep);
    let x7 = replace_all(x6, t_ts, rep);
    let y7 = replace_all(y6, t_ts, rep);
    assert(x7 + rows + y7 == replace_all(x6 + rows + y6, t_ts, rep));
    let rep = html_escaped(VERSION@);
    lemma_rows_pass(x7, y7, e_dom, e_feed, e_ld, e_lr, e_th, t_ver, rep);
    lemma_replace_all_absent(e_dom, t_ver, rep);
    lemma_replace_all_absent(e_feed, t_ver, rep);
    lemma_replace_all_absent(e_ld, t_ver, rep);
    lemma_replace_all_absent(e_lr, t_ver, rep);
    lemma_replace_all_absent(e_th, t_ver, rep);
    let x8 = replace_all(x7, t_ver, rep);
    let y8 = replace_all(y7, t_ver, rep);
    assert(x8 + rows + y8 == replace_all(x7 + rows + y7, t_ver, rep));
    assert(r.page() == x8 + rows + y8);
}

/// The footer as the template lays it out, with `block_id`, `ts_iso` and
/// `version` in their places.
pub open spec fn footer_line(block_id: Seq<char>, ts_iso: Seq<char>, version: Seq<char>) -> Seq<
    char,
> {
    "<footer>block "@ + block_id + " &middot; "@ + ts_iso + " &middot; dropper "@ + version
        + "</footer>"@
}

/// One replacement pass over a page holding the footer: the text around
/// it and each of its fields are replaced on their own.
proof fn lemma_footer_pass(
    x: Seq<char>,
    y: Seq<char>,
    b: Seq<char>,
    ts: Seq<char>,
    v: Seq<char>,
    t: Seq<char>,
    rep: Seq<char>,
)
    requires
        t.len() >= 2,
        t[0] == '{',
        !t.contains('<'),
        !t.contains('>'),
        !t.contains(' '),
    ensures
        replace_all(x + footer_line(b, ts, v) + y, t, rep) == replace_all(x, t, rep) + footer_line(
            replace_all(b, t, rep),
            replace_all(ts, t, rep),
            replace_all(v, t, rep),
        ) + replace_all(y, t, rep),
{
    let l0 = "<footer>block "@;
    let l1 = " &middot; "@;
    let l2 = " &middot; dropper "@;
    let l3 = "</footer>"@;
    reveal_strlit("<footer>block ");
    reveal_strlit(" &middot; ");
    reveal_strlit(" &middot; dropper ");
    reveal_strlit("</footer>");
    lemma_replace_all_absent(l0, t, rep);
    lemma_replace_all_absent(l1, t, rep);
    lemma_replace_all_absent(l2, t, rep);
    lemma_replace_all_absent(l3, t, rep);
    let r1 = l0 + b;
    let r2 = r1 + l1;
    let r3 = r2 + ts;
    let r4 = r3 + l2;
    let r5 = r4 + v;
    let line = r5 + l3;
    assert(line == footer_line(b, ts, v));
    lemma_replace_all_split(l0, b, t, rep);
    lemma_replace_all_split(r1, l1, t, rep);
    assert(r2.last() == ' ');
    lemma_replace_all_split(r2, ts, t, rep);
    lemma_replace_all_split(r3, l2, t, rep);
    assert(r4.last() == ' ');
    lemma_replace_all_split(r4, v, t, rep);
    lemma_replace_all_split(r5, l3, t, rep);
    assert(line[0] == '<');
    assert(line.last() == '>');
    lemma_replace_all_split(x, line, t, rep);
    lemma_replace_all_split(x + line, y, t, rep);
    assert((x + line).last() == '>');
}

/// Law: the footer of the rendered page names the escaped block id, the
/// escaped timestamp and the library version, each in its own place. It
/// holds whenever the block id and timestamp carry no `{`.
#[verifier::spinoff_prover]
#[verifier::rlimit(30)]
pub proof fn law_render_fills_footer(r: BlockReason)
    requires
        !r.block_id@.contains('{'),
        !r.ts_iso@.contains('{'),
    ensures
        exists|before: Seq<char>, after: Seq<char>|
            r.page() == before + footer_line(
                html_escaped(r.block_id@),
                html_escaped(r.ts_iso@),
                html_escaped(VERSION@),
            ) + after,
{
    let t_dom = "{{domain}}"@;
    let t_feed = "{{feed}}"@;
    let t_ld = "{{listed_date}}"@;
    let t_lr = "{{listed_relative}}"@;
    let t_th = "{{threat_type}}"@;
    let t_id = "{{block_id}}"@;
    let t_ts = "{{ts_iso}}"@;
    let t_ver = "{{version}}"@;
    reveal_strlit("{{domain}}");
    reveal_strlit("{{feed}}");
    reveal_strlit("{{listed_date}}");
    reveal_strlit("{{listed_relative}}");
    reveal_strlit("{{threat_type}}");
    reveal_strlit("{{block_id}}");
    reveal_strlit("{{ts_iso}}");
    reveal_strlit("{{version}}");
    reveal_strlit("<footer>block {{block_id}} &middot; {{ts_iso}} &middot; dropper {{version}}</footer>");
    reveal_strlit("<footer>block ");
    reveal_strlit(" &middot; ");
    reveal_strlit(" &middot; dropper ");
    reveal_strlit("</footer>");
    lemma_template_layout();
    let e_id = html_escaped(r.block_id@);
    let e_ts = html_escaped(r.ts_iso@);
    lemma_escaped_no_brace(r.block_id@);
    lemma_escaped_no_brace(r.ts_iso@);
    let x0 = TEMPLATE@.take(2426);
    let y0 = TEMPLATE@.skip(2510);
    assert(TEMPLATE@ == x0 + footer_line(t_id, t_ts, t_ver) + y0);
    // the five passes before the footer's own leave its slots in place
    let rep = html_escaped(r.domain@);
    lemma_footer_pass(x0, y0, t_id, t_ts, t_ver, t_dom, rep);
    assert(t_id.take(t_dom.len() as int)[2] != t_dom[2]);
    lemma_replace_all_other_slot(t_id, t_dom, rep);
    assert(t_ts.take(t_dom.len() as int)[2] != t_dom[2]);
    lemma_replace_all_other_slot(t_ts, t_dom, rep);
    assert(t_ver.take(t_dom.len() as int)[2] != t_dom[2]);
    lemma_replace_all_other_slot(t_ver, t_dom, rep);
    let x1 = replace_all(x0, t_dom, rep);
    let y1 = replace_all(y0, t_dom, rep);
    let slots = footer_line(t_id, t_ts, t_ver);
    let p1 = x1 + slots + y1;
    assert(p1 == replace_all(TEMPLATE@, t_dom, rep));
    let rep = html_escaped(r.feed@);
    lemma_footer_pass(x1, y1, t_id, t_ts, t_ver, t_feed, rep);
    assert(t_id.take(t_feed.len() as int)[2] != t_feed[2]);
    lemma_replace_all_other_slot(t_id, t_feed, rep);
    assert(t_ts.take(t_feed.len() as int)[2] != t_feed[2]);
    lemma_replace_all_other_slot(t_ts, t_feed, rep);
    assert(t_ver.take(t_feed.len() as int)[2] != t_feed[2]);
    lemma_replace_all_other_slot(t_ver, t_feed, rep);
    let x2 = replace_all(x1, t_feed, rep);
    let y2 = replace_all(y1, t_feed, rep);
    let p2 = x2 + slots + y2;
    assert(p2 == replace_all(p1, t_feed, rep));
    let rep = html_escaped(r.listed_date@);
    lemma_footer_pass(x2, y2, t_id, t_ts, t_ver, t_ld, rep);
    lemma_replace_all_other_slot(t_id, t_ld, rep);
    lemma_replace_all_other_slot(t_ts, t_ld, rep);
    lemma_replace_all_other_slot(t_ver, t_ld, rep);
    let x3 = replace_all(x2, t_ld, rep);
    let y3 = replace_all(y2, t_ld, rep);
    let p3 = x3 + slots + y3;
    assert(p3 == replace_all(p2, t_ld, rep));
    let rep = html_escaped(r.listed_relative@);
    lemma_footer_pass(x3, y3, t_id, t_ts, t_ver, t_lr, rep);
    lemma_replace_all_other_slot(t_id, t_lr, rep);
    lemma_replace_all_other_slot(t_ts, t_lr, rep);
    lemma_replace_all_other_slot(t_ver, t_lr, rep);
    let x4 = replace_all(x3, t_lr, rep);
    let y4 = replace_all(y3, t_lr, rep);
    let p4 = x4 + slots + y4;
    assert(p4 == replace_all(p3, t_lr, rep));
    let rep = html_escaped(r.threat_type@);
    lemma_footer_pass(x4, y4, t_id, t_ts, t_ver, t_th, rep);
    lemma_replace_all_other_slot(t_id, t_th, rep);
    lemma_replace_all_other_slot(t_ts, t_th, rep);
    lemma_replace_all_other_slot(t_ver, t_th, rep);
    let x5 = replace_all(x4, t_th, rep);
    let y5 = replace_all(y4, t_th, rep);
    let p5 = x5 + slots + y5;
    assert(p5 == replace_all(p4, t_th, rep));
    // block_id
    let rep = e_id;
    lemma_footer_pass(x5, y5, t_id, t_ts, t_ver, t_id, rep);
    lemma_replace_all_whole(t_id, rep);
    lemma_replace_all_other_slot(t_ts, t_id, rep);
    lemma_replace_all_other_slot(t_ver, t_id, rep);
    let x6 = replace_all(x5, t_id, rep);
    let y6 = replace_all(y5, t_id, rep);
    let p6 = x6 + footer_line(e_id, t_ts, t_ver) + y6;
    assert(p6 == replace_all(p5, t_id, rep));
    // ts_iso
    let rep = e_ts;
    lemma_footer_pass(x6, y6, e_id, t_ts, t_ver, t_ts, rep);
    lemma_replace_all_absent(e_id, t_ts, rep);
    lemma_replace_all_whole(t_ts, rep);
    assert(t_ver.take(t_ts.len() as int)[2] != t_ts[2]);
    lemma_replace_all_other_slot(t_ver, t_ts, rep);
    let x7 = replace_all(x6, t_ts, rep);
    let y7 = replace_all(y6, t_ts, rep);
    let p7 = x7 + footer_line(e_id, e_ts, t_ver) + y7;
    assert(p7 == replace_all(p6, t_ts, rep));
    // version
    let rep = html_escaped(VERSION@);
    lemma_footer_pass(x7, y7, e_id, e_ts, t_ver, t_ver, rep);
    lemma_replace_all_absent(e_id, t_ver, rep);
    lemma_replace_all_absent(e_ts, t_ver, rep);
    lemma_replace_all_whole(t_ver, rep);
    let x8 = replace_all(x7, t_ver, rep);
    let y8 = replace_all(y7, t_ver, rep);
    assert(x8 + footer_line(e_id, e_ts, rep) + y8 == replace_all(p7, t_ver, rep));
    assert(r.page() == x8 + footer_line(e_id, e_ts, rep) + y8);
}

/// The escaped characters of `s`.
fn escape_chars(s: &str) -> (v: Vec<char>)
    ensures
        v@ == html_escaped(s@),
{
    let mut out: Vec<char> = Vec::new();
    for c in it: s.chars()
        invariant
            it.seq() == s@,
            out@ == html_escaped(it.seq().take(it.index() as int)),
    {
        let ghost before = out@;
        if c == '&' {
            out.push('&');
            out.push('a');
            out.push('m');
            out.push('p');
            out.push(';');
        } else if c == '<' {
            out.push('&');
            out.push('l');
            out.push('t');
            out.push(';');
        } else if c == '>' {
            out.push('&');
            out.push('g');
            out.push('t');
            out.push(';');
        } else if c == '"' {
            out.push('&');
            out.push('q');
            out.push('u');
            out.push('o');
            out.push('t');
            out.push(';');
        } else if c == '\'' {
            out.push('&');
            out.push('#');
            out.push('x');
            out.push('2');
            out.push('7');
            out.push(';');
        } else {
            out.push(c);
        }
        proof {
            let prefix = it.seq().take(it.index() + 1);
            assert(prefix.drop_last() =~= it.seq().take(it.index() as int));
            assert(out@ =~= before + escape_char(c));
        }
    }
    assert(s@.take(s@.len() as int) =~= s@);
    out
}

/// Minimal HTML-attribute-safe escape. Replaces the five characters that
/// can break out of either an element body or a `value="..."` attribute.
pub fn html_escape(s: &str) -> (r: String)
    ensures
        r@ == html_escaped(s@),
{
    let v = escape_chars(s);
    string_from_chars(&v)
}

/// `page` with every occurrence of `token` replaced by the escaped `value`.
fn substitute(page: &Vec<char>, token: &str, value: &str) -> (r: Vec<char>)
    requires
        token@.len() > 0,
    ensures
        r@ == replace_all(page@, token@, html_escaped(value@)),
{
    let pat = to_chars(token);
    let rep = escape_chars(value);
    replace_chars(page, &pat, &rep)
}

/// Render the block-page HTML for a given [`BlockReason`]. All fields are
/// HTML-escaped before substitution; `{{version}}` is the library version.
pub fn render(reason: &BlockReason) -> (html: String)
    ensures
        html@ == reason.page(),
{
    proof {
        reveal_strlit("{{domain}}");
        reveal_strlit("{{feed}}");
        reveal_strlit("{{listed_date}}");
        reveal_strlit("{{listed_relative}}");
        reveal_strlit("{{threat_type}}");
        reveal_strlit("{{block_id}}");
        reveal_strlit("{{ts_iso}}");
        reveal_strlit("{{version}}");
    }
    let page = to_chars(TEMPLATE);
    let page = substitute(&page, "{{domain}}", reason.domain.as_str());
    let page = substitute(&page, "{{feed}}", reason.feed.as_str());
    let page = substitute(&page, "{{listed_date}}", reason.listed_date.as_str());
    let page = substitute(&page, "{{listed_relative}}", reason.listed_relative.as_str());
    let page = substitute(&page, "{{threat_type}}", reason.threat_type.as_str());
    let page = substitute(&page, "{{block_id}}", reason.block_id.as_str());
    let page = substitute(&page, "{{ts_iso}}", reason.ts_iso.as_str());
    let page = substitute(&page, "{{version}}", VERSION);
    string_from_chars(&page)
}

/// The form the block-page action buttons post to `/decision`.
#[derive(Clone, Debug)]
pub struct DecisionForm {
    pub domain: String,
    pub block_id: String,
    pub action: DecisionAction,
}

/// The user's choice on the block-page (`keep_blocked`, `allow_once`,
/// `allow_forever`, `forget` in the posted form).
#[derive(Clone, Copy, Debug, PartialEq, Eq, Structural)]
pub enum DecisionAction {
    KeepBlocked,
    AllowOnce,
    AllowForever,
    Forget,
}

/// What the decision handler still owes after [`apply_decision`].
#[derive(Clone, Copy, Debug, PartialEq, Eq, Structural)]
pub enum DecisionOutcome {
    /// Done: answer `204 No Content`.
    Done,
    /// The `forever` layer changed: persist it, then answer `204`, or `500`
    /// when persisting fails.
    PersistForever,
    /// Nothing was recorded (the clock read no representable instant, or
    /// the allow-once expiry would lie beyond the last instant the clock
    /// type represents): answer `500`.
    NotRecorded,
}

/// Apply the user's block-page decision for `domain` to the allowlist,
/// with `now` the clock reading an "Allow once" is counted from (`None`
/// when the clock gave no representable instant).
pub fn apply_decision_at(
    allowlist: &mut AllowState,
    domain: &str,
    action: DecisionAction,
    now: Option<i128>,
) -> (r: DecisionOutcome)
    ensures
        final(allowlist).path() == old(allowlist).path(),
        match action {
            DecisionAction::KeepBlocked => {
                &&& r == DecisionOutcome::Done
                &&& final(allowlist).forever() == old(allowlist).forever()
                &&& final(allowlist).once() == old(allowlist).once()
            },
            DecisionAction::AllowOnce => {
                &&& final(allowlist).forever() == old(allowlist).forever()
                &&& match now {
                    Some(n) => {
                        &&& r == (if expiry_representable(n as int, ALLOW_ONCE_TTL_SECS) {
                            DecisionOutcome::Done
                        } else {
                            DecisionOutcome::NotRecorded
                        })
                        &&& final(allowlist).once() == once_after_allow(
                            old(allowlist).once(),
                            unicode_lowercase(domain@),
                            n as int,
                            ALLOW_ONCE_TTL_SECS,
                        )
                    },
                    None => {
                        &&& r == DecisionOutcome::NotRecorded
                        &&& final(allowlist).once() == old(allowlist).once()
                    },
                }
            },
            DecisionAction::AllowForever => {
                &&& r == DecisionOutcome::PersistForever
                &&& final(allowlist).forever() == old(allowlist).forever().insert(
                    unicode_lowercase(domain@),
                )
                &&& final(allowlist).once() == old(allowlist).once()
            },
            DecisionAction::Forget => {
                &&& r == DecisionOutcome::PersistForever
                &&& final(allowlist).forever() == old(allowlist).forever().remove(
                    unicode_lowercase(domain@),
                )
                &&& final(allowlist).once() == old(allowlist).once().remove(
                    unicode_lowercase(domain@),
                )
            },
        },
{
    match action {
        DecisionAction::KeepBlocked => DecisionOutcome::Done,
        DecisionAction::AllowOnce => match now {
            Some(n) => {
                if allow_once_from(allowlist, domain, n, ALLOW_ONCE_TTL_SECS) {
                    DecisionOutcome::Done
                } else {
                    DecisionOutcome::NotRecorded
                }
            },
            None => DecisionOutcome::NotRecorded,
        },
        DecisionAction::AllowForever => {
            allow_forever(allowlist, domain);
            DecisionOutcome::PersistForever
        },
        DecisionAction::Forget => {
            forget(allowlist, domain);
            DecisionOutcome::PersistForever
        },
    }
}

/// Apply the user's block-page decision for `domain` to the allowlist. An
/// "Allow once" reads the clock and proceeds as [`apply_decision_at`] says
/// for that reading; the other decisions read no clock.
pub fn apply_decision(allowlist: &mut AllowState, domain: &str, action: DecisionAction) -> (r:
    DecisionOutcome)
    ensures
        final(allowlist).path() == old(allowlist).path(),
        match action {
            DecisionAction::KeepBlocked => {
                &&& r == DecisionOutcome::Done
                &&& final(allowlist).forever() == old(allowlist).forever()
                &&& final(allowlist).once() == old(allowlist).once()
            },
            DecisionAction::AllowOnce => {
                &&& final(allowlist).forever() == old(allowlist).forever()
                &&& r == DecisionOutcome::Done || r == DecisionOutcome::NotRecorded
                &&& (exists|now: i128|
                    FIRST_INSTANT_NANOS <= now <= LAST_INSTANT_NANOS && (r == DecisionOutcome::Done)
                        == expiry_representable(now as int, ALLOW_ONCE_TTL_SECS) && final(
                        allowlist).once() == #[trigger] once_after_allow(
                        old(allowlist).once(),
                        unicode_lowercase(domain@),
                        now as int,
                        ALLOW_ONCE_TTL_SECS,
                    )) || (r == DecisionOutcome::NotRecorded && final(allowlist).once() == old(
                    allowlist).once())
            },
            DecisionAction::AllowForever => {
                &&& r == DecisionOutcome::PersistForever
                &&& final(allowlist).forever() == old(allowlist).forever().insert(
                    unicode_lowercase(domain@),
                )
                &&& final(allowlist).once() == old(allowlist).once()
            },
            DecisionAction::Forget => {
                &&& r == DecisionOutcome::PersistForever
                &&& final(allowlist).forever() == old(allowlist).forever().remove(
                    unicode_lowercase(domain@),
                )
                &&& final(allowlist).once() == old(allowlist).once().remove(
                    unicode_lowercase(domain@),
                )
            },
        },
{
    let now = match action {
        DecisionAction::AllowOnce => now_unix_nanos(),
        _ => None,
    };
    apply_decision_at(allowlist, domain, action, now)
}

} // verus!
