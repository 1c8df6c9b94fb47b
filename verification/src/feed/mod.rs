//! Threat-feed integration: the URLhaus blocklist and the Tranco-anchored
//! popular-domain allowlist, as in-memory tables, and the decisions of the
//! refresher loops that keep them current.
pub mod allowlist;
pub mod tranco;

use vstd::prelude::*;
use vstd::hash_map::StringHashMap;
use vstd::hash_set::StringHashSet;
use crate::text::{same_text, to_lowercase, unicode_lowercase};

verus! {

/// Steady-state URLhaus refresh cadence, in seconds (six hours).
pub const URLHAUS_REFRESH_INTERVAL_SECS: u64 = 21600;

/// URLhaus retry cadence after a failed fetch, in seconds (five minutes).
pub const URLHAUS_RETRY_AFTER_FAILURE_SECS: u64 = 300;

/// Steady-state Tranco refresh cadence, in seconds (ninety days).
pub const TRANCO_REFRESH_INTERVAL_SECS: u64 = 7776000;

/// Tranco retry cadence after a failed fetch, in seconds (one hour).
pub const TRANCO_RETRY_AFTER_FAILURE_SECS: u64 = 3600;

/// A set of domain names that remembers the order in which its members
/// were first added. Membership tests are hash lookups; the insertion
/// order makes the set enumerable.
pub struct DomainSet {
    items: Vec<String>,
    index: StringHashSet,
}

impl DomainSet {
    /// The members, in the order they were first inserted.
    pub closed spec fn entries(&self) -> Seq<Seq<char>> {
        self.items@.map_values(|s: String| s@)
    }

    #[verifier::type_invariant]
    spec fn well_formed(&self) -> bool {
        &&& self.entries().no_duplicates()
        &&& self.index@ == self.entries().to_set()
    }

    /// An empty set.
    pub fn new() -> (r: Self)
        ensures
            r.entries() == Seq::<Seq<char>>::empty(),
    {
        let items: Vec<String> = Vec::new();
        let index = StringHashSet::new();
        proof {
            let e = items@.map_values(|s: String| s@);
            assert(e =~= Seq::<Seq<char>>::empty());
            assert(index@ =~= e.to_set());
        }
        DomainSet { items, index }
    }

    /// Number of members.
    pub fn len(&self) -> (r: usize)
        ensures
            r == self.entries().len(),
            r == self@.len(),
            self.entries().no_duplicates(),
    {
        proof {
            use_type_invariant(self);
            self.entries().unique_seq_to_set();
        }
        self.items.len()
    }

    /// Whether the set has no member.
    pub fn is_empty(&self) -> (r: bool)
        ensures
            r == (self.entries().len() == 0),
            r == (self@.len() == 0),
    {
        self.len() == 0
    }

    /// Whether `domain` (compared exactly, without case folding) is a member.
    pub fn contains(&self, domain: &str) -> (r: bool)
        ensures
            r == self@.contains(domain@),
    {
        proof {
            use_type_invariant(self);
        }
        self.index.contains(domain)
    }

    /// The member at position `i` of the insertion order.
    pub fn get(&self, i: usize) -> (r: &String)
        requires
            i < self.entries().len(),
        ensures
            r@ == self.entries()[i as int],
    {
        &self.items[i]
    }

    /// Adds `domain`; returns whether it was new. A member already present
    /// keeps its place in the insertion order.
    pub fn insert(&mut self, domain: String) -> (added: bool)
        ensures
            added == !old(self)@.contains(domain@),
            final(self)@ == old(self)@.insert(domain@),
            final(self).entries() == if added {
                old(self).entries().push(domain@)
            } else {
                old(self).entries()
            },
    {
        proof {
            use_type_invariant(&*self);
        }
        if self.index.contains(domain.as_str()) {
            assert(self@ =~= self@.insert(domain@));
            return false;
        }
        let ghost before = self.entries();
        let copy = domain.clone();
        let mut taken = DomainSet::new();
        std::mem::swap(&mut taken, self);
        proof {
            use_type_invariant(&taken);
        }
        let DomainSet { mut items, mut index } = taken;
        items.push(domain);
        index.insert(copy);
        proof {
            broadcast use vstd::seq_lib::group_seq_properties;
            let after = items@.map_values(|s: String| s@);
            assert(after =~= before.push(copy@));
            assert(index@ =~= after.to_set());
            assert(after.to_set() =~= before.to_set().insert(copy@));
        }
        *self = DomainSet { items, index };
        true
    }

    /// Removes `domain`; returns whether it was a member. The other members
    /// keep their relative order.
    pub fn remove(&mut self, domain: &str) -> (removed: bool)
        ensures
            removed == old(self)@.contains(domain@),
            final(self)@ == old(self)@.remove(domain@),
            removed ==> exists|i: int|
                0 <= i < old(self).entries().len() && old(self).entries()[i] == domain@
                    && final(self).entries() == old(self).entries().remove(i),
            !removed ==> final(self).entries() == old(self).entries(),
    {
        proof {
            use_type_invariant(&*self);
        }
        if !self.index.contains(domain) {
            return false;
        }
        let ghost before = self.entries();
        let mut i: usize = 0;
        while i < self.items.len()
            invariant
                self.entries() == before,
                before.contains(domain@),
                0 <= i <= self.items.len(),
                forall|k: int| 0 <= k < i ==> before[k] != domain@,
            ensures
                self.entries() == before,
                0 <= i <= self.items.len(),
                forall|k: int| 0 <= k < i ==> before[k] != domain@,
                i < self.items.len() ==> before[i as int] == domain@,
            decreases self.items.len() - i,
        {
            if same_text(self.items[i].as_str(), domain) {
                break;
            }
            i = i + 1;
        }
        if i == self.items.len() {
            // unreachable: `domain` is a member
            assert(false);
            return false;
        }
        let mut taken = DomainSet::new();
        std::mem::swap(&mut taken, self);
        proof {
            use_type_invariant(&taken);
        }
        let DomainSet { mut items, mut index } = taken;
        items.remove(i);
        index.remove(domain);
        proof {
            let after = items@.map_values(|s: String| s@);
            assert(after =~= before.remove(i as int));
            assert forall|d: Seq<char>| #[trigger] after.contains(d) <==> before.contains(d) && d
                != domain@ by {
                if after.contains(d) {
                    let k = choose|k: int| 0 <= k < after.len() && after[k] == d;
                    assert(before[i as int] == domain@);
                    if k < i {
                        assert(before[k] == d);
                    } else {
                        assert(before[k + 1] == d);
                    }
                }
                if before.contains(d) && d != domain@ {
                    let k = choose|k: int| 0 <= k < before.len() && before[k] == d;
                    if k < i {
                        assert(after[k] == d);
                    } else {
                        assert(k != i);
                        assert(after[k - 1] == d);
                    }
                }
            }
            assert(index@ =~= after.to_set());
            assert(after.no_duplicates());
        }
        *self = DomainSet { items, index };
        true
    }
}

impl View for DomainSet {
    type V = Set<Seq<char>>;

    open spec fn view(&self) -> Set<Seq<char>> {
        self.entries().to_set()
    }
}

/// Per-domain block metadata surfaced on the block-page: the URLhaus
/// listing date (`YYYY-MM-DD`) and its snake_case threat classification
/// (e.g. `malware_download`, `phishing`). Both are empty for entries that
/// came from the hostfile fallback, which carries no metadata.
#[derive(Clone, Debug, PartialEq, Eq)]
pub struct BlockMetadata {
    pub listed_date: String,
    pub threat_type: String,
}

impl BlockMetadata {
    /// True when neither field holds any text (hostfile-sourced entries).
    pub open spec fn is_blank(&self) -> bool {
        self.listed_date@.len() == 0 && self.threat_type@.len() == 0
    }

    /// A field-by-field copy.
    pub fn duplicate(&self) -> (r: Self)
        ensures
            r == *self,
    {
        BlockMetadata {
            listed_date: self.listed_date.clone(),
            threat_type: self.threat_type.clone(),
        }
    }
}

impl Default for BlockMetadata {
    fn default() -> (r: Self)
        ensures
            r.is_blank(),
    {
        BlockMetadata { listed_date: String::new(), threat_type: String::new() }
    }
}

/// The URLhaus blocklist: blocked domain -> its metadata. Keys are stored
/// lowercase by the feed parsers; lookups lowercase the queried name.
pub struct BlockList {
    entries: StringHashMap<BlockMetadata>,
}

impl View for BlockList {
    type V = Map<Seq<char>, BlockMetadata>;

    closed spec fn view(&self) -> Map<Seq<char>, BlockMetadata> {
        self.entries@
    }
}

impl BlockList {
    /// Adds or overwrites the entry for `domain` (stored as given).
    pub fn insert(&mut self, domain: String, metadata: BlockMetadata)
        ensures
            final(self)@ == old(self)@.insert(domain@, metadata),
    {
        self.entries.insert(domain, metadata);
    }

    /// Number of blocked domains.
    pub fn len(&self) -> (r: usize)
        ensures
            r == self@.len(),
    {
        self.entries.len()
    }

    /// Whether no domain is blocked.
    pub fn is_empty(&self) -> (r: bool)
        ensures
            r == (self@.len() == 0),
    {
        self.entries.len() == 0
    }
}

/// Construct an empty `BlockList`.
pub fn new_blocklist() -> (r: BlockList)
    ensures
        r@ == Map::<Seq<char>, BlockMetadata>::empty(),
{
    BlockList { entries: StringHashMap::new() }
}

/// The entry a lookup of `domain` finds in a blocklist with contents
/// `entries`: the one stored under the lowercased name.
pub open spec fn blocked_entry(entries: Map<Seq<char>, BlockMetadata>, domain: Seq<char>) -> Option<
    BlockMetadata,
> {
    if entries.contains_key(unicode_lowercase(domain)) {
        Some(entries[unicode_lowercase(domain)])
    } else {
        None
    }
}

/// Law: lookups are case-insensitive. After an entry is stored under the
/// lowercase form of a name, a lookup of the name in any letter case that
/// lowercases the same way finds exactly that entry; other names are
/// unaffected.
pub proof fn law_lookup_finds_stored_entry(
    entries: Map<Seq<char>, BlockMetadata>,
    stored: Seq<char>,
    metadata: BlockMetadata,
    query: Seq<char>,
)
    ensures
        unicode_lowercase(query) == stored ==> blocked_entry(entries.insert(stored, metadata), query)
            == Some(metadata),
        unicode_lowercase(query) != stored ==> blocked_entry(entries.insert(stored, metadata), query)
            == blocked_entry(entries, query),
{
}

/// Look `domain` up in `blocklist`: its metadata when blocked, `None` when
/// allowed. Domains are stored lowercase, so the lookup lower-cases too.
pub fn lookup(blocklist: &BlockList, domain: &str) -> (r: Option<BlockMetadata>)
    ensures
        r == blocked_entry(blocklist@, domain@),
{
    let key = to_lowercase(domain);
    match blocklist.entries.get(key.as_str()) {
        Some(m) => Some(m.duplicate()),
        None => None,
    }
}

/// Presence-only check: whether `domain` is blocked.
pub fn is_blocked(blocklist: &BlockList, domain: &str) -> (r: bool)
    ensures
        r == blocked_entry(blocklist@, domain@) is Some,
{
    lookup(blocklist, domain).is_some()
}

/// The Tranco allowlist of the most popular domains: never blackholed,
/// whatever URLhaus says. Keys are lowercase.
pub type Allowlist = DomainSet;

/// Construct an empty `Allowlist`.
pub fn new_allowlist() -> (r: Allowlist)
    ensures
        r.entries() == Seq::<Seq<char>>::empty(),
        r@ == Set::<Seq<char>>::empty(),
{
    let r = DomainSet::new();
    assert(r@ =~= Set::<Seq<char>>::empty());
    r
}

/// Whether `domain` is on the allowlist. Domains are stored lowercase, so
/// the lookup lower-cases too.
pub fn is_allowed(allowlist: &Allowlist, domain: &str) -> (r: bool)
    ensures
        r == allowlist@.contains(unicode_lowercase(domain@)),
{
    let key = to_lowercase(domain);
    allowlist.contains(key.as_str())
}

/// Convert a hostfile domain set into a blocklist whose entries carry
/// empty metadata: the fallback when the URLhaus CSV feed is unreachable.
pub fn hostfile_to_metadata_map(domains: DomainSet) -> (r: BlockList)
    ensures
        r@.dom() == domains@,
        forall|d: Seq<char>| #[trigger] r@.contains_key(d) ==> r@[d].is_blank(),
{
    let mut r = new_blocklist();
    let n = domains.len();
    let mut i: usize = 0;
    while i < n
        invariant
            n == domains.entries().len(),
            0 <= i <= n,
            r@.dom() == domains.entries().take(i as int).to_set(),
            forall|d: Seq<char>| #[trigger] r@.contains_key(d) ==> r@[d].is_blank(),
        decreases n - i,
    {
        let d = domains.get(i).clone();
        r.insert(d, BlockMetadata::default());
        proof {
            broadcast use vstd::seq_lib::group_seq_properties;
            assert(domains.entries().take(i + 1) =~= domains.entries().take(i as int).push(
                domains.entries()[i as int],
            ));
            assert(r@.dom() =~= domains.entries().take(i + 1).to_set());
        }
        i = i + 1;
    }
    assert(domains.entries().take(n as int) =~= domains.entries());
    r
}

/// What the URLhaus refresher installs from the CSV feed: the parsed table
/// when the fetch succeeded with at least one entry; `None` (fall back to
/// the domain-only hostfile feed) when it failed or came back empty.
pub fn accept_csv_feed(csv: Option<BlockList>) -> (r: Option<BlockList>)
    ensures
        match csv {
            Some(m) => if m@.len() > 0 {
                r == Some(m)
            } else {
                r is None
            },
            None => r is None,
        },
{
    match csv {
        Some(m) => if !m.is_empty() {
            Some(m)
        } else {
            None
        },
        None => None,
    }
}

/// Seconds the URLhaus refresher sleeps after a cycle: the steady-state
/// interval after a successful refresh, the short retry after a failure.
pub fn urlhaus_delay_after(refreshed: bool) -> (secs: u64)
    ensures
        secs == if refreshed {
            URLHAUS_REFRESH_INTERVAL_SECS
        } else {
            URLHAUS_RETRY_AFTER_FAILURE_SECS
        },
{
    if refreshed {
        URLHAUS_REFRESH_INTERVAL_SECS
    } else {
        URLHAUS_RETRY_AFTER_FAILURE_SECS
    }
}

/// Seconds the Tranco refresher sleeps after a cycle: quarterly after a
/// successful refresh, one hour after a failure.
pub fn tranco_delay_after(refreshed: bool) -> (secs: u64)
    ensures
        secs == if refreshed {
            TRANCO_REFRESH_INTERVAL_SECS
        } else {
            TRANCO_RETRY_AFTER_FAILURE_SECS
        },
{
    if refreshed {
        TRANCO_REFRESH_INTERVAL_SECS
    } else {
        TRANCO_RETRY_AFTER_FAILURE_SECS
    }
}

} // verus!
