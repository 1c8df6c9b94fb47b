//! User-controlled allow-list with two layers:
//!
//! - `forever`: persisted (as a sorted TOML list), survives restart;
//! - `once`: memory-only, each entry expiring 30 minutes after the click.
//!
//! Both layers are normalized to lowercase on insert and lookup. Expired
//! `once` entries are pruned lazily on the read path. Instants are UTC
//! nanoseconds since the Unix epoch, as `time::OffsetDateTime` counts them.
use std::path::PathBuf;
use vstd::prelude::*;
use vstd::hash_map::StringHashMap;
use crate::feed::DomainSet;
use crate::text::{to_chars, to_lowercase, unicode_lowercase};

verus! {

/// How long an "Allow once" click keeps a domain allowed, in seconds.
pub const ALLOW_ONCE_TTL_SECS: u64 = 1800;

/// Nanoseconds per second.
pub const NANOS_PER_SEC: i128 = 1000000000;

/// The first instant `time::OffsetDateTime` can represent
/// (-9999-01-01T00:00:00Z), in Unix nanoseconds.
pub const FIRST_INSTANT_NANOS: i128 = -377705203200000000000;

/// The last instant `time::OffsetDateTime` can represent
/// (9999-12-31T23:59:59.999999999Z), in Unix nanoseconds.
pub const LAST_INSTANT_NANOS: i128 = 253402300799999999999;

#[verifier::external_type_specification]
#[verifier::external_body]
pub struct ExPathBuf(PathBuf);

/// Two-layer allow store and the path the `forever` layer persists to.
pub struct AllowState {
    forever: DomainSet,
    once: StringHashMap<i128>,
    persist_path: PathBuf,
}

/// Whether `domain` (already lowercased) is allowed at instant `now`: it is
/// in the `forever` layer, or in the `once` layer with an expiry after `now`.
pub open spec fn allowed_at(
    forever: Set<Seq<char>>,
    once: Map<Seq<char>, i128>,
    domain: Seq<char>,
    now: int,
) -> bool {
    ||| forever.contains(domain)
    ||| once.contains_key(domain) && now < once[domain]
}

/// The `once` layer after a check of `domain` at `now`: an entry found
/// expired (and not shadowed by `forever`) is dropped.
pub open spec fn pruned_at(
    forever: Set<Seq<char>>,
    once: Map<Seq<char>, i128>,
    domain: Seq<char>,
    now: int,
) -> Map<Seq<char>, i128> {
    if !forever.contains(domain) && once.contains_key(domain) && !(now < once[domain]) {
        once.remove(domain)
    } else {
        once
    }
}

/// The instant `ttl_secs` seconds after `now`, with the seconds converted
/// to `i64` as the TTL is handed to `time::Duration::seconds`.
pub open spec fn expiry(now: int, ttl_secs: u64) -> int {
    now + (ttl_secs as i64) * NANOS_PER_SEC
}

/// Whether `expiry(now, ttl_secs)` is an instant that
/// `time::OffsetDateTime` can represent.
pub open spec fn expiry_representable(now: int, ttl_secs: u64) -> bool {
    FIRST_INSTANT_NANOS <= expiry(now, ttl_secs) <= LAST_INSTANT_NANOS
}

/// The forever layer that loading a persisted list yields: every entry
/// lowercased.
pub open spec fn loaded_forever(entries: Seq<Seq<char>>) -> Set<Seq<char>> {
    entries.map_values(|e: Seq<char>| unicode_lowercase(e)).to_set()
}

/// Strict lexicographic order on characters by code point: the order of
/// `String`'s `Ord` (UTF-8 byte order agrees with code-point order).
pub open spec fn lex_less(a: Seq<char>, b: Seq<char>) -> bool
    decreases a.len(),
{
    if b.len() == 0 {
        false
    } else if a.len() == 0 {
        true
    } else if a[0] != b[0] {
        a[0] < b[0]
    } else {
        lex_less(a.drop_first(), b.drop_first())
    }
}

/// `s` is strictly ascending in `lex_less`.
pub open spec fn strictly_sorted(s: Seq<Seq<char>>) -> bool {
    forall|i: int, j: int| 0 <= i < j < s.len() ==> lex_less(#[trigger] s[i], #[trigger] s[j])
}

proof fn lemma_lex_irreflexive(a: Seq<char>)
    ensures
        !lex_less(a, a),
    decreases a.len(),
{
    if a.len() > 0 {
        lemma_lex_irreflexive(a.drop_first());
    }
}

proof fn lemma_lex_total(a: Seq<char>, b: Seq<char>)
    ensures
        a != b ==> lex_less(a, b) || lex_less(b, a),
    decreases a.len(),
{
    if a.len() > 0 && b.len() > 0 {
        if a[0] == b[0] {
            lemma_lex_total(a.drop_first(), b.drop_first());
            if a.drop_first() == b.drop_first() {
                assert(a =~= seq![a[0]] + a.drop_first());
                assert(b =~= seq![b[0]] + b.drop_first());
            }
        }
    } else if a.len() == 0 && b.len() == 0 {
        assert(a =~= b);
    }
}

proof fn lemma_lex_transitive(a: Seq<char>, b: Seq<char>, c: Seq<char>)
    requires
        lex_less(a, b),
        lex_less(b, c),
    ensures
        lex_less(a, c),
    decreases a.len(),
{
    if a.len() > 0 && b.len() > 0 && c.len() > 0 && a[0] == b[0] && b[0] == c[0] {
        lemma_lex_transitive(a.drop_first(), b.drop_first(), c.drop_first());
    }
}

/// Law: once `allow_forever` has added a domain, every later check of that
/// domain (in any letter case that lowercases to the same name) allows it,
/// at any instant.
pub proof fn law_allow_forever_allows(
    forever: Set<Seq<char>>,
    once: Map<Seq<char>, i128>,
    domain: Seq<char>,
    query: Seq<char>,
    now: int,
)
    requires
        unicode_lowercase(query) == unicode_lowercase(domain),
    ensures
        allowed_at(forever.insert(unicode_lowercase(domain)), once, unicode_lowercase(query), now),
{
}

/// Law: a domain allowed once at `now` for `ttl_secs` is allowed at every
/// instant before its expiry; from the expiry on (unless it is also in the
/// `forever` layer) it is blocked again, and the check that finds it
/// expired drops its entry.
pub proof fn law_allow_once_window(
    forever: Set<Seq<char>>,
    once: Map<Seq<char>, i128>,
    domain: Seq<char>,
    now: int,
    ttl_secs: u64,
    t: int,
)
    requires
        expiry_representable(now, ttl_secs),
    ensures
        ({
            let d = unicode_lowercase(domain);
            let after = once.insert(d, expiry(now, ttl_secs) as i128);
            &&& t < expiry(now, ttl_secs) ==> allowed_at(forever, after, d, t)
            &&& t >= expiry(now, ttl_secs) && !forever.contains(d) ==> {
                &&& !allowed_at(forever, after, d, t)
                &&& !pruned_at(forever, after, d, t).contains_key(d)
            }
        }),
{
}

/// Law: an "Allow once" whose expiry is representable records the domain
/// (lowercased) with expiry exactly `ttl_secs` seconds after `now`,
/// replacing whatever entry it had, leaves every other entry as it was,
/// and so allows the domain at every instant before that expiry.
pub proof fn law_allow_once_rearms(
    forever: Set<Seq<char>>,
    once: Map<Seq<char>, i128>,
    domain: Seq<char>,
    now: int,
    ttl_secs: u64,
    t: int,
)
    requires
        FIRST_INSTANT_NANOS <= now + (ttl_secs as i64) * NANOS_PER_SEC <= LAST_INSTANT_NANOS,
    ensures
        ({
            let d = unicode_lowercase(domain);
            let after = once_after_allow(once, d, now, ttl_secs);
            &&& after.contains_key(d)
            &&& after[d] == now + (ttl_secs as i64) * NANOS_PER_SEC
            &&& forall|k: Seq<char>|
                k != d ==> (#[trigger] after.contains_key(k) == once.contains_key(k) && (
                once.contains_key(k) ==> after[k] == once[k]))
            &&& t < now + (ttl_secs as i64) * NANOS_PER_SEC ==> allowed_at(forever, after, d, t)
        }),
{
}

/// Law: an "Allow once" whose expiry cannot be represented changes nothing.
pub proof fn law_allow_once_unrepresentable_is_noop(
    once: Map<Seq<char>, i128>,
    domain: Seq<char>,
    now: int,
    ttl_secs: u64,
)
    requires
        !(FIRST_INSTANT_NANOS <= now + (ttl_secs as i64) * NANOS_PER_SEC <= LAST_INSTANT_NANOS),
    ensures
        once_after_allow(once, domain, now, ttl_secs) == once,
{
}

/// Law: loading a persisted list keeps every entry, in lowercase form,
/// whether or not it was lowercase already, and yields nothing else.
pub proof fn law_load_keeps_every_entry(entries: Seq<Seq<char>>)
    ensures
        forall|i: int|
            0 <= i < entries.len() ==> loaded_forever(entries).contains(
                unicode_lowercase(#[trigger] entries[i]),
            ),
        forall|d: Seq<char>| #[trigger]
            loaded_forever(entries).contains(d) ==> exists|i: int|
                0 <= i < entries.len() && d == unicode_lowercase(entries[i]),
{
    let lowered = entries.map_values(|e: Seq<char>| unicode_lowercase(e));
    assert forall|i: int| 0 <= i < entries.len() implies loaded_forever(entries).contains(
        unicode_lowercase(#[trigger] entries[i]),
    ) by {
        assert(lowered[i] == unicode_lowercase(entries[i]));
        assert(lowered.contains(lowered[i]));
    }
    assert forall|d: Seq<char>| #[trigger] loaded_forever(entries).contains(d) implies exists|
        i: int,
    | 0 <= i < entries.len() && d == unicode_lowercase(entries[i]) by {
        assert(lowered.contains(d));
        let i = choose|i: int| 0 <= i < lowered.len() && lowered[i] == d;
        assert(lowered[i] == unicode_lowercase(entries[i]));
    }
}

/// Law: lazy pruning never changes an answer. After a check at `now`, every
/// check at an instant not before `now` answers as it would have without
/// the pruning.
pub proof fn law_pruning_is_unobservable(
    forever: Set<Seq<char>>,
    once: Map<Seq<char>, i128>,
    checked: Seq<char>,
    now: int,
    query: Seq<char>,
    t: int,
)
    requires
        now <= t,
    ensures
        allowed_at(forever, pruned_at(forever, once, checked, now), query, t) == allowed_at(
            forever,
            once,
            query,
            t,
        ),
{
}

/// Law: after `forget`, the domain is blocked at every instant, whatever
/// either layer held before.
pub proof fn law_forget_blocks(
    forever: Set<Seq<char>>,
    once: Map<Seq<char>, i128>,
    domain: Seq<char>,
    t: int,
)
    ensures
        !allowed_at(
            forever.remove(unicode_lowercase(domain)),
            once.remove(unicode_lowercase(domain)),
            unicode_lowercase(domain),
            t,
        ),
{
}

/// Law: loading the persisted list gives back the `forever` layer that was
/// persisted, provided its entries are already in lowercase form (each is
/// its own `to_lowercase`), as the entries `allow_forever` stores are
/// whenever lowercasing is idempotent on them.
pub proof fn law_persist_then_load(forever: Set<Seq<char>>, persisted: Seq<Seq<char>>)
    requires
        persisted.to_set() == forever,
        forall|d: Seq<char>| #[trigger] forever.contains(d) ==> unicode_lowercase(d) == d,
    ensures
        loaded_forever(persisted) == forever,
{
    let lowered = persisted.map_values(|e: Seq<char>| unicode_lowercase(e));
    assert forall|i: int| 0 <= i < persisted.len() implies #[trigger] lowered[i] == persisted[i] by {
        assert(persisted.to_set().contains(persisted[i]));
    }
    assert(lowered =~= persisted);
}

impl AllowState {
    /// The `forever` layer.
    pub closed spec fn forever(&self) -> Set<Seq<char>> {
        self.forever@
    }

    /// The `once` layer: domain -> expiry instant.
    pub closed spec fn once(&self) -> Map<Seq<char>, i128> {
        self.once@
    }

    /// The path the `forever` layer persists to.
    pub closed spec fn path(&self) -> PathBuf {
        self.persist_path
    }

    /// The path the `forever` layer persists to.
    pub fn persist_path(&self) -> (r: &PathBuf)
        ensures
            *r == self.path(),
    {
        &self.persist_path
    }
}

/// Whether `a` sorts strictly before `b` (`String` order).
pub fn text_less(a: &str, b: &str) -> (r: bool)
    ensures
        r == lex_less(a@, b@),
{
    let va = to_chars(a);
    let vb = to_chars(b);
    let mut i: usize = 0;
    assert(a@.skip(0) =~= a@ && b@.skip(0) =~= b@);
    while i < va.len() && i < vb.len() && va[i] == vb[i]
        invariant
            va@ == a@,
            vb@ == b@,
            0 <= i <= va.len(),
            i <= vb.len(),
            lex_less(a@, b@) == lex_less(a@.skip(i as int), b@.skip(i as int)),
        decreases va.len() - i,
    {
        assert(a@.skip(i as int).drop_first() =~= a@.skip(i + 1));
        assert(b@.skip(i as int).drop_first() =~= b@.skip(i + 1));
        i = i + 1;
    }
    if i == vb.len() {
        false
    } else if i == va.len() {
        true
    } else {
        va[i] < vb[i]
    }
}

/// Construct an empty allowlist that will persist `forever` entries to
/// `path`. The file at `path` is not read here; see [`load`].
pub fn new_allowlist(path: PathBuf) -> (r: AllowState)
    ensures
        r.forever() == Set::<Seq<char>>::empty(),
        r.once() == Map::<Seq<char>, i128>::empty(),
        r.path() == path,
{
    let r = AllowState { forever: DomainSet::new(), once: StringHashMap::new(), persist_path: path };
    assert(r.forever() =~= Set::<Seq<char>>::empty());
    r
}

/// Is `domain` allowed at instant `now` (Unix nanoseconds)?
///
/// Checks `forever` first, then `once` with an expiry check. An expired
/// `once` entry is pruned on this read path; there is no background sweeper.
pub fn is_allowed_at(allowlist: &mut AllowState, domain: &str, now: i128) -> (r: bool)
    ensures
        final(allowlist).path() == old(allowlist).path(),
        r == allowed_at(
            old(allowlist).forever(),
            old(allowlist).once(),
            unicode_lowercase(domain@),
            now as int,
        ),
        final(allowlist).forever() == old(allowlist).forever(),
        final(allowlist).once() == pruned_at(
            old(allowlist).forever(),
            old(allowlist).once(),
            unicode_lowercase(domain@),
            now as int,
        ),
{
    let domain = to_lowercase(domain);
    if allowlist.forever.contains(domain.as_str()) {
        return true;
    }
    let expires_at = match allowlist.once.get(domain.as_str()) {
        None => return false,
        Some(e) => *e,
    };
    if now < expires_at {
        return true;
    }
    allowlist.once.remove(domain.as_str());
    false
}

/// The `once` layer after an "Allow once" of `domain` (lowercased) at
/// `now` for `ttl_secs`: the entry is recorded, replacing any earlier one,
/// exactly when its expiry is an instant `time::OffsetDateTime` represents.
pub open spec fn once_after_allow(
    once: Map<Seq<char>, i128>,
    domain: Seq<char>,
    now: int,
    ttl_secs: u64,
) -> Map<Seq<char>, i128> {
    if expiry_representable(now, ttl_secs) {
        once.insert(domain, expiry(now, ttl_secs) as i128)
    } else {
        once
    }
}

/// The current UTC instant, in Unix nanoseconds; `None` when the system
/// clock reads an instant outside what `time::OffsetDateTime` represents.
///
/// This is `time::OffsetDateTime::now_utc` in its checked form: the system
/// time (`std::time::SystemTime::now`) is measured against the Unix epoch
/// and added to (or subtracted from) `OffsetDateTime::UNIX_EPOCH` with
/// `checked_add` / `checked_sub`, then read with `unix_timestamp_nanos`.
/// The value is the machine's clock; the claim is that a returned instant
/// lies in the representable range, which `checked_add` / `checked_sub`
/// guarantee (they return `None` outside years -9999..=9999).
#[verifier::external_body]
pub(crate) fn now_unix_nanos() -> (r: Option<i128>)
    ensures
        r matches Some(n) ==> FIRST_INSTANT_NANOS <= n <= LAST_INSTANT_NANOS,
{
    let epoch = time::OffsetDateTime::UNIX_EPOCH;
    let at = match std::time::SystemTime::now().duration_since(std::time::UNIX_EPOCH) {
        Ok(after) => epoch.checked_add(time::Duration::try_from(after).ok()?),
        Err(before) => epoch.checked_sub(time::Duration::try_from(before.duration()).ok()?),
    };
    at.map(|t| t.unix_timestamp_nanos())
}

/// Is `domain` currently allowed? As [`is_allowed_at`], at the instant the
/// system clock reads. When the clock reads no representable instant, only
/// the `forever` layer answers and nothing is pruned.
pub fn is_allowed(allowlist: &mut AllowState, domain: &str) -> (r: bool)
    ensures
        final(allowlist).path() == old(allowlist).path(),
        final(allowlist).forever() == old(allowlist).forever(),
        (exists|now: i128|
            FIRST_INSTANT_NANOS <= now <= LAST_INSTANT_NANOS && r == allowed_at(
                old(allowlist).forever(),
                old(allowlist).once(),
                unicode_lowercase(domain@),
                now as int,
            ) && final(allowlist).once() == #[trigger] pruned_at(
                old(allowlist).forever(),
                old(allowlist).once(),
                unicode_lowercase(domain@),
                now as int,
            )) || (r == old(allowlist).forever().contains(unicode_lowercase(domain@))
            && final(allowlist).once() == old(allowlist).once()),
{
    match now_unix_nanos() {
        Some(now) => is_allowed_at(allowlist, domain, now),
        None => {
            let domain = to_lowercase(domain);
            allowlist.forever.contains(domain.as_str())
        },
    }
}

/// Allow `domain` until `ttl_secs` seconds after instant `now`.
pub fn allow_once_at(allowlist: &mut AllowState, domain: &str, now: i128, ttl_secs: u64)
    requires
        expiry_representable(now as int, ttl_secs),
    ensures
        final(allowlist).path() == old(allowlist).path(),
        final(allowlist).forever() == old(allowlist).forever(),
        final(allowlist).once() == old(allowlist).once().insert(
            unicode_lowercase(domain@),
            expiry(now as int, ttl_secs) as i128,
        ),
{
    let domain = to_lowercase(domain);
    let secs = ttl_secs as i64;
    let expires_at = now + (secs as i128) * NANOS_PER_SEC;
    allowlist.once.insert(domain, expires_at);
}

/// "Allow once" at instant `now` for `ttl_secs`: records the allowance and
/// returns `true` when its expiry is an instant `time::OffsetDateTime`
/// represents; otherwise returns `false` and changes nothing.
pub fn allow_once_from(allowlist: &mut AllowState, domain: &str, now: i128, ttl_secs: u64) -> (r:
    bool)
    ensures
        final(allowlist).path() == old(allowlist).path(),
        final(allowlist).forever() == old(allowlist).forever(),
        r == expiry_representable(now as int, ttl_secs),
        final(allowlist).once() == once_after_allow(
            old(allowlist).once(),
            unicode_lowercase(domain@),
            now as int,
            ttl_secs,
        ),
        r ==> final(allowlist).once() == old(allowlist).once().insert(
            unicode_lowercase(domain@),
            (now + (ttl_secs as i64) * NANOS_PER_SEC) as i128,
        ),
        !r ==> final(allowlist).once() == old(allowlist).once(),
{
    let secs = ttl_secs as i64;
    let delta = (secs as i128) * NANOS_PER_SEC;
    if now < FIRST_INSTANT_NANOS - delta || now > LAST_INSTANT_NANOS - delta {
        return false;
    }
    allow_once_at(allowlist, domain, now, ttl_secs);
    true
}

/// "Allow once" with a caller-chosen TTL, from the current instant, as
/// [`allow_once_from`] says. When the clock reads no representable instant
/// nothing is recorded and the result is `false`.
pub fn allow_once_with_ttl(allowlist: &mut AllowState, domain: &str, ttl_secs: u64) -> (r: bool)
    ensures
        final(allowlist).path() == old(allowlist).path(),
        final(allowlist).forever() == old(allowlist).forever(),
        (exists|now: i128|
            FIRST_INSTANT_NANOS <= now <= LAST_INSTANT_NANOS && r == expiry_representable(
                now as int,
                ttl_secs,
            ) && final(allowlist).once() == #[trigger] once_after_allow(
                old(allowlist).once(),
                unicode_lowercase(domain@),
                now as int,
                ttl_secs,
            )) || (!r && final(allowlist).once() == old(allowlist).once()),
{
    match now_unix_nanos() {
        Some(now) => allow_once_from(allowlist, domain, now, ttl_secs),
        None => false,
    }
}

/// The user clicked "Allow once" on the block-page: `domain` is allowed for
/// [`ALLOW_ONCE_TTL_SECS`] (30 minutes) from the current instant and then
/// re-blocks, as [`allow_once_with_ttl`] says.
pub fn allow_once(allowlist: &mut AllowState, domain: &str) -> (r: bool)
    ensures
        final(allowlist).path() == old(allowlist).path(),
        final(allowlist).forever() == old(allowlist).forever(),
        (exists|now: i128|
            FIRST_INSTANT_NANOS <= now <= LAST_INSTANT_NANOS && r == expiry_representable(
                now as int,
                ALLOW_ONCE_TTL_SECS,
            ) && final(allowlist).once() == #[trigger] once_after_allow(
                old(allowlist).once(),
                unicode_lowercase(domain@),
                now as int,
                ALLOW_ONCE_TTL_SECS,
            )) || (!r && final(allowlist).once() == old(allowlist).once()),
{
    allow_once_with_ttl(allowlist, domain, ALLOW_ONCE_TTL_SECS)
}

/// The user clicked "Allow forever": `domain` joins the persistent layer.
/// The caller then persists [`persisted_entries`].
pub fn allow_forever(allowlist: &mut AllowState, domain: &str)
    ensures
        final(allowlist).path() == old(allowlist).path(),
        final(allowlist).forever() == old(allowlist).forever().insert(unicode_lowercase(domain@)),
        final(allowlist).once() == old(allowlist).once(),
{
    let domain = to_lowercase(domain);
    allowlist.forever.insert(domain);
}

/// The user asked to forget `domain`: it leaves both layers. The caller
/// then persists [`persisted_entries`].
pub fn forget(allowlist: &mut AllowState, domain: &str)
    ensures
        final(allowlist).path() == old(allowlist).path(),
        final(allowlist).forever() == old(allowlist).forever().remove(unicode_lowercase(domain@)),
        final(allowlist).once() == old(allowlist).once().remove(unicode_lowercase(domain@)),
{
    let domain = to_lowercase(domain);
    allowlist.forever.remove(domain.as_str());
    allowlist.once.remove(domain.as_str());
}

/// Replace the `forever` layer with the entries read back from the
/// persisted file, each lowercased. Returns the count of loaded entries.
pub fn load(allowlist: &mut AllowState, entries: Vec<String>) -> (count: usize)
    ensures
        final(allowlist).path() == old(allowlist).path(),
        final(allowlist).forever() == loaded_forever(entries@.map_values(|e: String| e@)),
        final(allowlist).once() == old(allowlist).once(),
        count == final(allowlist).forever().len(),
        forall|i: int|
            0 <= i < entries.len() ==> final(allowlist).forever().contains(
                unicode_lowercase(#[trigger] entries@[i]@),
            ),
        forall|d: Seq<char>| #[trigger]
            final(allowlist).forever().contains(d) ==> exists|i: int|
                0 <= i < entries.len() && d == unicode_lowercase(entries@[i]@),
{
    let ghost views = entries@.map_values(|e: String| e@);
    let mut forever = DomainSet::new();
    let mut i: usize = 0;
    while i < entries.len()
        invariant
            views == entries@.map_values(|e: String| e@),
            0 <= i <= entries.len(),
            forever@ == loaded_forever(views.take(i as int)),
        decreases entries.len() - i,
    {
        let d = to_lowercase(entries[i].as_str());
        forever.insert(d);
        proof {
            broadcast use vstd::seq_lib::group_seq_properties;
            let lower = |e: Seq<char>| unicode_lowercase(e);
            assert(views.take(i + 1).map_values(lower) =~= views.take(i as int).map_values(
                lower,
            ).push(unicode_lowercase(views[i as int])));
            assert(forever@ =~= loaded_forever(views.take(i + 1)));
        }
        i = i + 1;
    }
    assert(views.take(entries.len() as int) =~= views);
    proof {
        law_load_keeps_every_entry(views);
        assert forall|i: int| 0 <= i < entries.len() implies forever@.contains(
            unicode_lowercase(#[trigger] entries@[i]@),
        ) by {
            assert(views[i] == entries@[i]@);
            assert(loaded_forever(views).contains(unicode_lowercase(views[i])));
        }
        assert forall|d: Seq<char>| #[trigger] forever@.contains(d) implies exists|i: int|
            0 <= i < entries.len() && d == unicode_lowercase(entries@[i]@) by {
            let i = choose|i: int| 0 <= i < views.len() && d == unicode_lowercase(views[i]);
            assert(views[i] == entries@[i]@);
        }
    }
    let count = forever.len();
    allowlist.forever = forever;
    count
}

/// The `forever` layer as it is persisted: every entry once, sorted
/// ascending so that the file is diff-friendly.
pub fn persisted_entries(allowlist: &AllowState) -> (r: Vec<String>)
    ensures
        r@.map_values(|e: String| e@).to_set() == allowlist.forever(),
        strictly_sorted(r@.map_values(|e: String| e@)),
{
    let set = &allowlist.forever;
    let n = set.len();
    let mut sorted: Vec<String> = Vec::new();
    let mut i: usize = 0;
    while i < n
        invariant
            n == set.entries().len(),
            set.entries().no_duplicates(),
            0 <= i <= n,
            sorted@.map_values(|e: String| e@).to_set() == set.entries().take(i as int).to_set(),
            strictly_sorted(sorted@.map_values(|e: String| e@)),
        decreases n - i,
    {
        let item = set.get(i);
        let ghost x = item@;
        let ghost before = sorted@.map_values(|e: String| e@);
        let mut p: usize = 0;
        while p < sorted.len() && text_less(sorted[p].as_str(), item.as_str())
            invariant
                before == sorted@.map_values(|e: String| e@),
                x == item@,
                0 <= p <= sorted.len(),
                forall|k: int| 0 <= k < p ==> lex_less(#[trigger] before[k], x),
            decreases sorted.len() - p,
        {
            assert(before[p as int] == sorted@[p as int]@);
            p = p + 1;
        }
        proof {
            broadcast use vstd::seq_lib::group_seq_properties;
            // `x` is new: the entries are distinct
            assert(!set.entries().take(i as int).contains(x)) by {
                if set.entries().take(i as int).contains(x) {
                    let k = choose|k: int| 0 <= k < i && set.entries().take(i as int)[k] == x;
                    assert(set.entries()[k] == set.entries()[i as int]);
                }
            }
            assert(!before.contains(x)) by {
                assert(!before.to_set().contains(x));
            }
            if p < before.len() {
                lemma_lex_total(before[p as int], x);
                assert(lex_less(x, before[p as int]));
            }
        }
        sorted.insert(p, item.clone());
        proof {
            broadcast use vstd::seq_lib::group_seq_properties;
            let after = sorted@.map_values(|e: String| e@);
            assert(after =~= before.insert(p as int, x));
            assert forall|a: int, b: int| 0 <= a < b < after.len() implies lex_less(
                #[trigger] after[a],
                #[trigger] after[b],
            ) by {
                if b == p {
                    assert(after[a] == before[a]);
                } else if a == p {
                    assert(after[b] == before[b - 1]);
                    if b - 1 > p {
                        lemma_lex_transitive(x, before[p as int], before[b - 1]);
                    }
                } else if a < p && b > p {
                    assert(after[a] == before[a]);
                    assert(after[b] == before[b - 1]);
                } else if b < p {
                    assert(after[a] == before[a]);
                    assert(after[b] == before[b]);
                } else {
                    assert(after[a] == before[a - 1]);
                    assert(after[b] == before[b - 1]);
                }
            }
            assert(set.entries().take(i + 1) =~= set.entries().take(i as int).push(x));
            assert forall|d: Seq<char>| #[trigger] after.contains(d) <==> before.contains(d) || d
                == x by {
                if after.contains(d) {
                    let k = choose|k: int| 0 <= k < after.len() && after[k] == d;
                    if k < p {
                        assert(before[k] == d);
                    } else if k > p {
                        assert(before[k - 1] == d);
                    }
                }
                if before.contains(d) {
                    let k = choose|k: int| 0 <= k < before.len() && before[k] == d;
                    if k < p {
                        assert(after[k] == d);
                    } else {
                        assert(after[k + 1] == d);
                    }
                }
                if d == x {
                    assert(after[p as int] == x);
                }
            }
            let next = set.entries().take(i + 1);
            assert forall|d: Seq<char>| #[trigger] next.contains(d) <==> set.entries().take(
                i as int,
            ).contains(d) || d == x by {
                if next.contains(d) {
                    let k = choose|k: int| 0 <= k < next.len() && next[k] == d;
                    if k < i {
                        assert(set.entries().take(i as int)[k] == d);
                    }
                }
                if set.entries().take(i as int).contains(d) {
                    let k = choose|k: int| 0 <= k < i && set.entries().take(i as int)[k] == d;
                    assert(next[k] == d);
                }
                if d == x {
                    assert(next[i as int] == x);
                }
            }
            assert(before.to_set().contains(x) == before.contains(x));
            assert forall|d: Seq<char>| #[trigger] before.contains(d) <==> set.entries().take(
                i as int,
            ).contains(d) by {
                assert(before.to_set().contains(d) == before.contains(d));
                assert(set.entries().take(i as int).to_set().contains(d) == set.entries().take(
                    i as int,
                ).contains(d));
            }
            assert(after.to_set() =~= next.to_set());
        }
        i = i + 1;
    }
    assert(set.entries().take(n as int) =~= set.entries());
    sorted
}

} // verus!
