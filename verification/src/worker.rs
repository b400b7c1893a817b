//! The refresh worker and the scheduler cycle over it.

use vstd::prelude::*;
use crate::errors::IngestError;
use crate::item::CandidateItem;
use crate::item::CandidateItemView;
use crate::item::candidates_of;
use crate::item::extract_items;
use crate::item::feed_parse_of;
use crate::store::EntryStore;
use crate::store::Feed;
use crate::store::FeedRegistry;
use crate::store::InsertOutcome;
use crate::store::StoredEntryView;
use crate::store::spec_insert;

verus! {

/// The store after attempting, in order, one insert per candidate item.
pub open spec fn spec_persist(
    s: Seq<StoredEntryView>,
    feed_id: i32,
    items: Seq<CandidateItemView>,
) -> Seq<StoredEntryView>
    decreases items.len(),
{
    if items.len() == 0 {
        s
    } else {
        spec_persist(spec_insert(s, feed_id, items[0]), feed_id, items.skip(1))
    }
}

/// Attempting the items one more at the end is one more insert at the end.
pub proof fn lemma_persist_snoc(
    s: Seq<StoredEntryView>,
    feed_id: i32,
    items: Seq<CandidateItemView>,
    c: CandidateItemView,
)
    ensures
        spec_persist(s, feed_id, items.push(c)) == spec_insert(
            spec_persist(s, feed_id, items),
            feed_id,
            c,
        ),
    decreases items.len(),
{
    if items.len() == 0 {
        assert(items.push(c)[0] == c);
        assert(items.push(c).skip(1) =~= Seq::<CandidateItemView>::empty());
        assert(spec_persist(s, feed_id, items) == s);
        assert(spec_persist(s, feed_id, items.push(c)) == spec_persist(
            spec_insert(s, feed_id, c),
            feed_id,
            Seq::<CandidateItemView>::empty(),
        ));
        assert(spec_persist(spec_insert(s, feed_id, c), feed_id, Seq::<CandidateItemView>::empty())
            == spec_insert(s, feed_id, c));
    } else {
        assert(items.push(c)[0] == items[0]);
        assert(items.push(c).skip(1) =~= items.skip(1).push(c));
        assert(spec_persist(s, feed_id, items.push(c)) == spec_persist(
            spec_insert(s, feed_id, items[0]),
            feed_id,
            items.skip(1).push(c),
        ));
        lemma_persist_snoc(spec_insert(s, feed_id, items[0]), feed_id, items.skip(1), c);
        assert(spec_persist(s, feed_id, items) == spec_persist(
            spec_insert(s, feed_id, items[0]),
            feed_id,
            items.skip(1),
        ));
    }
}

/// The refresh worker's persistence pass: one isolated insert attempt per
/// candidate item, in document order; a duplicate or a failed attempt never
/// stops the rest. Returns how many new rows were persisted.
pub fn persist_items(store: &mut EntryStore, feed_id: i32, items: &Vec<CandidateItem>) -> (n: usize)
    requires
        old(store).wf(),
    ensures
        final(store).wf(),
        final(store)@ == spec_persist(
            old(store)@,
            feed_id,
            items@.map_values(|c: CandidateItem| c@),
        ),
        n == final(store)@.len() - old(store)@.len(),
{
    let ghost views: Seq<CandidateItemView> = items@.map_values(|c: CandidateItem| c@);
    let len: usize = items.len();
    let mut i: usize = 0;
    let mut fresh: usize = 0;
    proof {
        assert(views.take(0) =~= Seq::<CandidateItemView>::empty());
    }
    while i < len
        invariant
            len == items@.len(),
            i <= len,
            views == items@.map_values(|c: CandidateItem| c@),
            store.wf(),
            store@ == spec_persist(old(store)@, feed_id, views.take(i as int)),
            old(store)@.len() <= store@.len(),
            fresh == store@.len() - old(store)@.len(),
        decreases len - i,
    {
        proof {
            assert(views[i as int] == items@[i as int]@);
        }
        let outcome = store.insert_entry(feed_id, &items[i]);
        if matches!(outcome, InsertOutcome::Inserted) {
            fresh = fresh + 1;
        }
        proof {
            assert(views.take(i + 1) =~= views.take(i as int).push(views[i as int]));
            lemma_persist_snoc(old(store)@, feed_id, views.take(i as int), views[i as int]);
        }
        i += 1;
    }
    proof {
        assert(views.take(len as int) =~= views);
    }
    fresh
}

/// The store a refresh worker invocation leaves behind, as a function of
/// what the network fetch for the feed produced: a failed fetch or an
/// unparseable document leaves the store as it was; otherwise every
/// extracted candidate is attempted in order.
pub open spec fn spec_refresh(
    s: Seq<StoredEntryView>,
    feed_id: i32,
    fetched: Option<Seq<u8>>,
) -> Seq<StoredEntryView> {
    match fetched {
        None => s,
        Some(bytes) => match feed_parse_of(bytes) {
            None => s,
            Some(raws) => spec_persist(s, feed_id, candidates_of(raws)),
        },
    }
}

/// What a refresh worker invocation reports: the number of new rows, or
/// the failure that ended it.
pub open spec fn spec_refresh_outcome(
    s: Seq<StoredEntryView>,
    feed_id: i32,
    fetched: Option<Seq<u8>>,
) -> Result<int, IngestError> {
    match fetched {
        None => Err(IngestError::Fetch),
        Some(bytes) => match feed_parse_of(bytes) {
            None => Err(IngestError::Parse),
            Some(raws) => Ok(spec_refresh(s, feed_id, fetched).len() - s.len()),
        },
    }
}

/// One refresh worker invocation for one feed. The network fetch happens
/// at the application boundary; its outcome comes in as `fetched`, `None`
/// when the fetch itself failed. Extraction and persistence run here: a
/// fetch or parse failure ends only this invocation and leaves the store
/// untouched; per-item duplicates are silently skipped.
pub fn refresh_feed(store: &mut EntryStore, feed_id: i32, fetched: &Option<Vec<u8>>) -> (r: Result<
    usize,
    IngestError,
>)
    requires
        old(store).wf(),
    ensures
        final(store).wf(),
        final(store)@ == spec_refresh(old(store)@, feed_id, fetched.deep_view()),
        match r {
            Ok(n) => spec_refresh_outcome(old(store)@, feed_id, fetched.deep_view()) == Ok::<
                int,
                IngestError,
            >(n as int),
            Err(e) => spec_refresh_outcome(old(store)@, feed_id, fetched.deep_view()) == Err::<
                int,
                IngestError,
            >(e),
        },
{
    let bytes = match fetched {
        None => {
            proof {
                assert(fetched.deep_view() == None::<Seq<u8>>);
            }
            return Err(IngestError::Fetch);
        },
        Some(bytes) => bytes,
    };
    proof {
        assert(fetched.deep_view() == Some(bytes@));
    }
    let items = match extract_items(bytes) {
        Ok(items) => items,
        Err(e) => {
            return Err(e);
        },
    };
    let n = persist_items(store, feed_id, &items);
    Ok(n)
}

/// What one scheduled cycle knows of one feed: its id and what fetching
/// its url produced, `None` when the fetch failed.
#[derive(Debug)]
pub struct FeedFetch {
    pub feed_id: i32,
    pub fetched: Option<Vec<u8>>,
}

/// Mathematical image of a `FeedFetch`.
pub struct FeedFetchView {
    pub feed_id: i32,
    pub fetched: Option<Seq<u8>>,
}

impl View for FeedFetch {
    type V = FeedFetchView;

    open spec fn view(&self) -> FeedFetchView {
        FeedFetchView { feed_id: self.feed_id, fetched: self.fetched.deep_view() }
    }
}

/// The store one scheduler cycle leaves behind: each listed feed refreshed
/// in turn, each worker independent of the others.
pub open spec fn spec_cycle(s: Seq<StoredEntryView>, fs: Seq<FeedFetchView>) -> Seq<
    StoredEntryView,
>
    decreases fs.len(),
{
    if fs.len() == 0 {
        s
    } else {
        spec_cycle(spec_refresh(s, fs[0].feed_id, fs[0].fetched), fs.skip(1))
    }
}

/// Refreshing one more feed at the end is one more refresh at the end.
pub proof fn lemma_cycle_snoc(s: Seq<StoredEntryView>, fs: Seq<FeedFetchView>, f: FeedFetchView)
    ensures
        spec_cycle(s, fs.push(f)) == spec_refresh(spec_cycle(s, fs), f.feed_id, f.fetched),
    decreases fs.len(),
{
    if fs.len() == 0 {
        assert(fs.push(f)[0] == f);
        assert(fs.push(f).skip(1) =~= Seq::<FeedFetchView>::empty());
        assert(spec_cycle(s, fs) == s);
        assert(spec_cycle(s, fs.push(f)) == spec_cycle(
            spec_refresh(s, f.feed_id, f.fetched),
            Seq::<FeedFetchView>::empty(),
        ));
        assert(spec_cycle(spec_refresh(s, f.feed_id, f.fetched), Seq::<FeedFetchView>::empty())
            == spec_refresh(s, f.feed_id, f.fetched));
    } else {
        assert(fs.push(f)[0] == fs[0]);
        assert(fs.push(f).skip(1) =~= fs.skip(1).push(f));
        assert(spec_cycle(s, fs.push(f)) == spec_cycle(
            spec_refresh(s, fs[0].feed_id, fs[0].fetched),
            fs.skip(1).push(f),
        ));
        lemma_cycle_snoc(spec_refresh(s, fs[0].feed_id, fs[0].fetched), fs.skip(1), f);
        assert(spec_cycle(s, fs) == spec_cycle(
            spec_refresh(s, fs[0].feed_id, fs[0].fetched),
            fs.skip(1),
        ));
    }
}

/// One scheduler cycle. Listing the feeds and fetching each url happen at
/// the application boundary; a failed listing comes in as `None` and skips
/// the whole cycle. Otherwise every listed feed gets one worker invocation,
/// and no feed's failure reaches another: each refresh runs to its own end.
/// Returns how many new rows the cycle persisted.
pub fn run_cycle(store: &mut EntryStore, listing: &Option<Vec<FeedFetch>>) -> (r: Result<
    usize,
    IngestError,
>)
    requires
        old(store).wf(),
    ensures
        final(store).wf(),
        match listing {
            None => final(store)@ == old(store)@ && r == Err::<usize, IngestError>(
                IngestError::Registry,
            ),
            Some(fs) => final(store)@ == spec_cycle(
                old(store)@,
                fs@.map_values(|f: FeedFetch| f@),
            ) && match r {
                Ok(n) => n == final(store)@.len() - old(store)@.len(),
                Err(_) => false,
            },
        },
{
    let fetches = match listing {
        None => {
            return Err(IngestError::Registry);
        },
        Some(fs) => fs,
    };
    let ghost views: Seq<FeedFetchView> = fetches@.map_values(|f: FeedFetch| f@);
    let start: usize = store.num_entries();
    let len: usize = fetches.len();
    let mut i: usize = 0;
    proof {
        assert(views.take(0) =~= Seq::<FeedFetchView>::empty());
    }
    while i < len
        invariant
            len == fetches@.len(),
            i <= len,
            views == fetches@.map_values(|f: FeedFetch| f@),
            store.wf(),
            start == old(store)@.len(),
            store@ == spec_cycle(old(store)@, views.take(i as int)),
            old(store)@.len() <= store@.len(),
        decreases len - i,
    {
        proof {
            assert(views[i as int] == fetches@[i as int]@);
        }
        let _ = refresh_feed(store, fetches[i].feed_id, &fetches[i].fetched);
        proof {
            assert(views.take(i + 1) =~= views.take(i as int).push(views[i as int]));
            lemma_cycle_snoc(old(store)@, views.take(i as int), views[i as int]);
        }
        i += 1;
    }
    proof {
        assert(views.take(len as int) =~= views);
    }
    let end: usize = store.num_entries();
    Ok(end - start)
}

/// Feed addition validation: a new source is accepted only if its url's
/// response, fetched once at registration time, is a well-formed feed
/// document. On success the feed is stored under the next id and returned,
/// and the caller owes it one immediate refresh worker invocation; on a
/// fetch or parse failure nothing is stored.
pub fn register_feed(
    registry: &mut FeedRegistry,
    url: String,
    name: String,
    fetched: &Option<Vec<u8>>,
) -> (r: Result<Feed, IngestError>)
    requires
        old(registry).wf(),
        old(registry)@.len() < 0x7fff_ffff,
    ensures
        final(registry).wf(),
        match r {
            Ok(f) => {
                &&& match fetched.deep_view() {
                    Some(bytes) => feed_parse_of(bytes) is Some,
                    None => false,
                }
                &&& final(registry)@ == old(registry)@.push(f@)
                &&& f@.id as int == old(registry)@.len() + 1
                &&& f@.url == url@
                &&& f@.name == name@
            },
            Err(e) => {
                &&& final(registry)@ == old(registry)@
                &&& match fetched.deep_view() {
                    None => e == IngestError::Fetch,
                    Some(bytes) => e == IngestError::Parse && feed_parse_of(bytes) is None,
                }
            },
        },
{
    let bytes = match fetched {
        None => {
            proof {
                assert(fetched.deep_view() == None::<Seq<u8>>);
            }
            return Err(IngestError::Fetch);
        },
        Some(bytes) => bytes,
    };
    proof {
        assert(fetched.deep_view() == Some(bytes@));
    }
    match extract_items(bytes) {
        Ok(_) => (),
        Err(e) => {
            return Err(e);
        },
    }
    let f = registry.insert_feed(url, name);
    Ok(f)
}

} // verus!
