//! The feed source registry and the deduplicating entry store.

use vstd::prelude::*;
use crate::item::CandidateItem;
use crate::item::CandidateItemView;

verus! {

/// A registered feed source: store-assigned id, source address, display name.
#[derive(Debug)]
pub struct Feed {
    pub id: i32,
    pub url: String,
    pub name: String,
}

/// Mathematical image of a `Feed`.
pub struct FeedView {
    pub id: i32,
    pub url: Seq<char>,
    pub name: Seq<char>,
}

impl View for Feed {
    type V = FeedView;

    open spec fn view(&self) -> FeedView {
        FeedView { id: self.id, url: self.url@, name: self.name@ }
    }
}

/// One persisted feed entry: immutable once written, scoped to its feed.
#[derive(Debug)]
pub struct StoredEntry {
    pub id: i32,
    pub feed_id: i32,
    pub title: Option<String>,
    pub link: Option<String>,
    pub pub_date: Option<i64>,
    pub guid: Option<String>,
}

/// Mathematical image of a `StoredEntry`.
pub struct StoredEntryView {
    pub id: i32,
    pub feed_id: i32,
    pub title: Option<Seq<char>>,
    pub link: Option<Seq<char>>,
    pub pub_date: Option<i64>,
    pub guid: Option<Seq<char>>,
}

impl View for StoredEntry {
    type V = StoredEntryView;

    open spec fn view(&self) -> StoredEntryView {
        StoredEntryView {
            id: self.id,
            feed_id: self.feed_id,
            title: self.title.deep_view(),
            link: self.link.deep_view(),
            pub_date: self.pub_date,
            guid: self.guid.deep_view(),
        }
    }
}

/// The dedup key of an item within one feed: the advertised guid when
/// present, else the link, else the remaining fields. Two items of one feed
/// with the same key are the same logical item.
pub enum EntryKey {
    ByGuid(Seq<char>),
    ByLink(Seq<char>),
    Bare(Option<Seq<char>>, Option<i64>),
}

/// The key that a choice of guid, link, title and publish date determines.
pub open spec fn key_of(
    guid: Option<Seq<char>>,
    link: Option<Seq<char>>,
    title: Option<Seq<char>>,
    pub_date: Option<i64>,
) -> EntryKey {
    match guid {
        Some(g) => EntryKey::ByGuid(g),
        None => match link {
            Some(l) => EntryKey::ByLink(l),
            None => EntryKey::Bare(title, pub_date),
        },
    }
}

/// The dedup key of a persisted entry.
pub open spec fn entry_key(e: StoredEntryView) -> EntryKey {
    key_of(e.guid, e.link, e.title, e.pub_date)
}

/// The dedup key of a candidate item.
pub open spec fn item_key(c: CandidateItemView) -> EntryKey {
    key_of(c.guid, c.link, c.title, c.pub_date)
}

/// Whether two persisted entries are the same logical item: same feed,
/// same dedup key.
pub open spec fn same_entry_key(a: StoredEntryView, b: StoredEntryView) -> bool {
    a.feed_id == b.feed_id && entry_key(a) == entry_key(b)
}

/// Whether the store already holds an entry of feed `feed_id` with key `k`.
pub open spec fn has_entry(s: Seq<StoredEntryView>, feed_id: i32, k: EntryKey) -> bool {
    exists|i: int| 0 <= i < s.len() && s[i].feed_id == feed_id && #[trigger] entry_key(s[i]) == k
}

/// How many rows the store accepts before an insert reports failure:
/// serial row ids must stay within `i32`.
pub const STORE_CAP: usize = 0x7fff_fffe;

/// The row that persisting candidate `c` for feed `feed_id` appends to a
/// store currently holding `s`: serial id, fields carried over.
pub open spec fn entry_for(s: Seq<StoredEntryView>, feed_id: i32, c: CandidateItemView) -> StoredEntryView {
    StoredEntryView {
        id: (s.len() + 1) as i32,
        feed_id: feed_id,
        title: c.title,
        link: c.link,
        pub_date: c.pub_date,
        guid: c.guid,
    }
}

/// One atomic insert-or-ignore: an equivalent row already present leaves
/// the store unchanged, a full store leaves it unchanged, otherwise the new
/// row is appended.
pub open spec fn spec_insert(s: Seq<StoredEntryView>, feed_id: i32, c: CandidateItemView) -> Seq<StoredEntryView> {
    if has_entry(s, feed_id, item_key(c)) {
        s
    } else if s.len() >= STORE_CAP {
        s
    } else {
        s.push(entry_for(s, feed_id, c))
    }
}

/// What one insert attempt reports: a new row, a silently ignored
/// duplicate, or a genuine store failure.
#[derive(Clone, Copy, Debug, PartialEq, Eq, Structural)]
pub enum InsertOutcome {
    Inserted,
    Duplicate,
    Failed,
}

/// The outcome `spec_insert` corresponds to.
pub open spec fn spec_insert_outcome(s: Seq<StoredEntryView>, feed_id: i32, c: CandidateItemView) -> InsertOutcome {
    if has_entry(s, feed_id, item_key(c)) {
        InsertOutcome::Duplicate
    } else if s.len() >= STORE_CAP {
        InsertOutcome::Failed
    } else {
        InsertOutcome::Inserted
    }
}

/// The entries of one feed, in insertion order.
pub open spec fn feed_entries_of(s: Seq<StoredEntryView>, feed_id: i32) -> Seq<StoredEntryView>
    decreases s.len(),
{
    if s.len() == 0 {
        Seq::empty()
    } else {
        let rest = feed_entries_of(s.drop_last(), feed_id);
        if s.last().feed_id == feed_id {
            rest.push(s.last())
        } else {
            rest
        }
    }
}

/// Clones an optional string, field for field.
pub fn clone_opt_string(a: &Option<String>) -> (r: Option<String>)
    ensures
        r.deep_view() == a.deep_view(),
{
    match a {
        Some(s) => Some(s.clone()),
        None => None,
    }
}

/// Clones a persisted entry.
pub fn clone_entry(e: &StoredEntry) -> (r: StoredEntry)
    ensures
        r@ == e@,
{
    StoredEntry {
        id: e.id,
        feed_id: e.feed_id,
        title: clone_opt_string(&e.title),
        link: clone_opt_string(&e.link),
        pub_date: e.pub_date,
        guid: clone_opt_string(&e.guid),
    }
}

/// Clones a feed record.
pub fn clone_feed(f: &Feed) -> (r: Feed)
    ensures
        r@ == f@,
{
    Feed { id: f.id, url: f.url.clone(), name: f.name.clone() }
}

fn same_opt_string(a: &Option<String>, b: &Option<String>) -> (r: bool)
    ensures
        r == (a.deep_view() == b.deep_view()),
{
    match (a, b) {
        (Some(x), Some(y)) => x.eq(y),
        (None, None) => true,
        _ => false,
    }
}

fn same_opt_i64(a: Option<i64>, b: Option<i64>) -> (r: bool)
    ensures
        r == (a == b),
{
    match (a, b) {
        (Some(x), Some(y)) => x == y,
        (None, None) => true,
        _ => false,
    }
}

/// Whether stored entry `e` blocks candidate `c` for feed `feed_id`: same
/// feed and same dedup key.
fn entry_matches(e: &StoredEntry, feed_id: i32, c: &CandidateItem) -> (r: bool)
    ensures
        r == (e@.feed_id == feed_id && entry_key(e@) == item_key(c@)),
{
    if e.feed_id != feed_id {
        return false;
    }
    match (&e.guid, &c.guid) {
        (Some(g1), Some(g2)) => g1.eq(g2),
        (None, None) => match (&e.link, &c.link) {
            (Some(l1), Some(l2)) => l1.eq(l2),
            (None, None) => same_opt_string(&e.title, &c.title) && same_opt_i64(e.pub_date, c.pub_date),
            _ => false,
        },
        _ => false,
    }
}

/// The dedup/persistence gateway's store of feed entries. Rows are
/// append-only; the well-formedness invariant carries the uniqueness
/// constraint that makes "insert, ignore conflict" a dedup mechanism.
pub struct EntryStore {
    entries: Vec<StoredEntry>,
}

impl View for EntryStore {
    type V = Seq<StoredEntryView>;

    closed spec fn view(&self) -> Seq<StoredEntryView> {
        self.entries@.map_values(|e: StoredEntry| e@)
    }
}

impl EntryStore {
    /// No two rows of one feed share a dedup key, and ids are the serial
    /// position, starting at 1.
    pub open spec fn wf(self) -> bool {
        &&& (forall|i: int, j: int|
            0 <= i < j < self@.len() ==> !(#[trigger] same_entry_key(self@[i], self@[j])))
        &&& (forall|i: int| 0 <= i < self@.len() ==> (#[trigger] self@[i]).id as int == i + 1)
    }

    /// An empty store.
    pub fn new() -> (s: EntryStore)
        ensures
            s@ == Seq::<StoredEntryView>::empty(),
            s.wf(),
    {
        let s = EntryStore { entries: Vec::new() };
        proof {
            assert(s@ =~= Seq::<StoredEntryView>::empty());
        }
        s
    }

    /// How many rows the store holds.
    pub fn num_entries(&self) -> (n: usize)
        ensures
            n == self@.len(),
    {
        self.entries.len()
    }

    /// The row at position `i`.
    pub fn entry_at(&self, i: usize) -> (e: &StoredEntry)
        requires
            i < self@.len(),
        ensures
            e@ == self@[i as int],
    {
        &self.entries[i]
    }

    /// Attempts to persist one candidate item for one feed: a row with the
    /// same dedup key already present is silently ignored, a full store
    /// reports a failure, and otherwise a new row is appended. Never an
    /// error on a duplicate.
    pub fn insert_entry(&mut self, feed_id: i32, item: &CandidateItem) -> (r: InsertOutcome)
        requires
            old(self).wf(),
        ensures
            final(self).wf(),
            final(self)@ == spec_insert(old(self)@, feed_id, item@),
            r == spec_insert_outcome(old(self)@, feed_id, item@),
    {
        let n: usize = self.entries.len();
        let mut i: usize = 0;
        while i < n
            invariant
                self == old(self),
                self.wf(),
                n == self@.len(),
                i <= n,
                forall|k: int|
                    0 <= k < i ==> !(self@[k].feed_id == feed_id && #[trigger] entry_key(self@[k])
                        == item_key(item@)),
            decreases n - i,
        {
            proof {
                assert(self@[i as int] == self.entries@[i as int]@);
            }
            if entry_matches(&self.entries[i], feed_id, item) {
                proof {
                    assert(self@[i as int].feed_id == feed_id && entry_key(self@[i as int])
                        == item_key(item@));
                    assert(has_entry(self@, feed_id, item_key(item@)));
                }
                return InsertOutcome::Duplicate;
            }
            i += 1;
        }
        proof {
            assert(!has_entry(self@, feed_id, item_key(item@)));
        }
        if n >= STORE_CAP {
            return InsertOutcome::Failed;
        }
        let id: i32 = (n + 1) as i32;
        let entry = StoredEntry {
            id,
            feed_id,
            title: clone_opt_string(&item.title),
            link: clone_opt_string(&item.link),
            pub_date: item.pub_date,
            guid: clone_opt_string(&item.guid),
        };
        proof {
            assert(entry@ == entry_for(self@, feed_id, item@));
        }
        self.entries.push(entry);
        proof {
            assert(self@ =~= old(self)@.push(entry_for(old(self)@, feed_id, item@)));
            assert(entry_key(entry_for(old(self)@, feed_id, item@)) == item_key(item@));
            assert forall|i2: int, j2: int| 0 <= i2 < j2 < self@.len() implies !(
            #[trigger] same_entry_key(self@[i2], self@[j2])) by {
                if j2 < old(self)@.len() {
                    assert(!same_entry_key(old(self)@[i2], old(self)@[j2]));
                } else {
                    assert(self@[j2] == entry_for(old(self)@, feed_id, item@));
                    assert(!(old(self)@[i2].feed_id == feed_id && entry_key(old(self)@[i2])
                        == item_key(item@)));
                }
            }
        }
        InsertOutcome::Inserted
    }

    /// The rows belonging to one feed, in insertion order.
    pub fn entries_for_feed(&self, feed_id: i32) -> (r: Vec<StoredEntry>)
        ensures
            r@.map_values(|e: StoredEntry| e@) == feed_entries_of(self@, feed_id),
    {
        let mut out: Vec<StoredEntry> = Vec::new();
        let n: usize = self.entries.len();
        let mut i: usize = 0;
        proof {
            assert(out@.map_values(|e: StoredEntry| e@) =~= feed_entries_of(self@.take(0), feed_id));
        }
        while i < n
            invariant
                n == self@.len(),
                i <= n,
                out@.map_values(|e: StoredEntry| e@) == feed_entries_of(self@.take(i as int), feed_id),
            decreases n - i,
        {
            proof {
                assert(self@.take(i + 1).drop_last() =~= self@.take(i as int));
                assert(self@.take(i + 1).last() == self@[i as int]);
            }
            proof {
                assert(self@[i as int] == self.entries@[i as int]@);
            }
            if self.entries[i].feed_id == feed_id {
                let copy = clone_entry(&self.entries[i]);
                proof {
                    assert(copy@ == self@[i as int]);
                }
                out.push(copy);
                proof {
                    assert(out@.map_values(|e: StoredEntry| e@) =~= feed_entries_of(
                        self@.take(i + 1),
                        feed_id,
                    ));
                }
            } else {
                proof {
                    assert(out@.map_values(|e: StoredEntry| e@) =~= feed_entries_of(
                        self@.take(i + 1),
                        feed_id,
                    ));
                }
            }
            i += 1;
        }
        proof {
            assert(self@.take(n as int) =~= self@);
        }
        out
    }
}

/// The feed source registry: the durable list of registered feeds.
pub struct FeedRegistry {
    feeds: Vec<Feed>,
}

impl View for FeedRegistry {
    type V = Seq<FeedView>;

    closed spec fn view(&self) -> Seq<FeedView> {
        self.feeds@.map_values(|f: Feed| f@)
    }
}

impl FeedRegistry {
    /// Ids are the serial position, starting at 1.
    pub open spec fn wf(self) -> bool {
        forall|i: int| 0 <= i < self@.len() ==> (#[trigger] self@[i]).id as int == i + 1
    }

    /// An empty registry.
    pub fn new() -> (r: FeedRegistry)
        ensures
            r@ == Seq::<FeedView>::empty(),
            r.wf(),
    {
        let r = FeedRegistry { feeds: Vec::new() };
        proof {
            assert(r@ =~= Seq::<FeedView>::empty());
        }
        r
    }

    /// How many feeds are registered.
    pub fn num_feeds(&self) -> (n: usize)
        ensures
            n == self@.len(),
    {
        self.feeds.len()
    }

    /// Stores a new feed under the next serial id and returns the record.
    pub fn insert_feed(&mut self, url: String, name: String) -> (f: Feed)
        requires
            old(self).wf(),
            old(self)@.len() < 0x7fff_ffff,
        ensures
            final(self).wf(),
            final(self)@ == old(self)@.push(f@),
            f@.id as int == old(self)@.len() + 1,
            f@.url == url@,
            f@.name == name@,
    {
        let id: i32 = (self.feeds.len() + 1) as i32;
        let f = Feed { id, url, name };
        let copy = clone_feed(&f);
        self.feeds.push(copy);
        proof {
            assert(self@ =~= old(self)@.push(f@));
        }
        f
    }

    /// The full current feed list.
    pub fn list_feeds(&self) -> (r: Vec<Feed>)
        ensures
            r@.map_values(|f: Feed| f@) == self@,
    {
        let mut out: Vec<Feed> = Vec::new();
        let n: usize = self.feeds.len();
        let mut i: usize = 0;
        proof {
            assert(out@.map_values(|f: Feed| f@) =~= self@.take(0));
        }
        while i < n
            invariant
                n == self@.len(),
                i <= n,
                out@.map_values(|f: Feed| f@) == self@.take(i as int),
            decreases n - i,
        {
            let copy = clone_feed(&self.feeds[i]);
            proof {
                assert(self@[i as int] == self.feeds@[i as int]@);
                assert(copy@ == self@[i as int]);
            }
            out.push(copy);
            proof {
                assert(self@.take(i + 1) =~= self@.take(i as int).push(self@[i as int]));
                assert(out@.map_values(|f: Feed| f@) =~= self@.take(i + 1));
            }
            i += 1;
        }
        proof {
            assert(self@.take(n as int) =~= self@);
        }
        out
    }
}

} // verus!
