//! What the pipeline guarantees: idempotence, failure isolation, and
//! overlap safety of concurrent refreshes.

use vstd::prelude::*;
use crate::item::CandidateItemView;
use crate::item::RawItemView;
use crate::item::candidate_of;
use crate::item::candidates_of;
use crate::item::rfc2822_utc_of;
use crate::store::EntryKey;
use crate::store::STORE_CAP;
use crate::store::StoredEntryView;
use crate::store::entry_for;
use crate::store::entry_key;
use crate::store::has_entry;
use crate::store::item_key;
use crate::store::spec_insert;
use crate::worker::FeedFetchView;
use crate::worker::lemma_persist_snoc;
use crate::worker::spec_cycle;
use crate::worker::spec_persist;
use crate::worker::spec_refresh;

verus! {

/// Whether a worker invocation with this fetch outcome persists nothing:
/// the fetch itself failed, or the bytes are not a well-formed feed.
pub open spec fn refresh_fails(fetched: Option<Seq<u8>>) -> bool {
    match fetched {
        None => true,
        Some(bytes) => crate::item::feed_parse_of(bytes) is None,
    }
}

/// Whether `c` records one run each through `a` and `b`, their inner
/// orders kept: the schedule two concurrent workers' insert attempts form.
pub open spec fn is_interleaving(
    a: Seq<CandidateItemView>,
    b: Seq<CandidateItemView>,
    c: Seq<CandidateItemView>,
) -> bool
    decreases c.len(),
{
    if c.len() == 0 {
        a.len() == 0 && b.len() == 0
    } else {
        ||| (a.len() > 0 && a[0] == c[0] && is_interleaving(a.skip(1), b, c.skip(1)))
        ||| (b.len() > 0 && b[0] == c[0] && is_interleaving(a, b.skip(1), c.skip(1)))
    }
}

/// An insert never removes a row, and adds at most the one.
proof fn lemma_insert_shape(s: Seq<StoredEntryView>, feed_id: i32, c: CandidateItemView)
    ensures
        spec_insert(s, feed_id, c) == s || spec_insert(s, feed_id, c) == s.push(
            entry_for(s, feed_id, c),
        ),
        s.len() <= spec_insert(s, feed_id, c).len(),
{
}

/// A row present before an insert is present after it.
proof fn lemma_has_entry_insert_mono(
    s: Seq<StoredEntryView>,
    feed_id: i32,
    c: CandidateItemView,
    fid2: i32,
    k: EntryKey,
)
    requires
        has_entry(s, fid2, k),
    ensures
        has_entry(spec_insert(s, feed_id, c), fid2, k),
{
    let i = choose|i: int| 0 <= i < s.len() && s[i].feed_id == fid2 && #[trigger] entry_key(s[i])
        == k;
    lemma_insert_shape(s, feed_id, c);
    assert(spec_insert(s, feed_id, c)[i] == s[i]);
}

/// An insert leaves the store unchanged exactly when the key is already
/// present or the store is full.
proof fn lemma_insert_noop_iff(s: Seq<StoredEntryView>, feed_id: i32, c: CandidateItemView)
    ensures
        (spec_insert(s, feed_id, c) == s) <==> (has_entry(s, feed_id, item_key(c)) || s.len()
            >= STORE_CAP),
{
    if !(has_entry(s, feed_id, item_key(c)) || s.len() >= STORE_CAP) {
        assert(spec_insert(s, feed_id, c).len() == s.len() + 1);
    }
}

/// An insert that changes nothing on a store still changes nothing after
/// any further insert.
proof fn lemma_insert_stable(
    s: Seq<StoredEntryView>,
    feed_id: i32,
    c: CandidateItemView,
    fid2: i32,
    c2: CandidateItemView,
)
    requires
        spec_insert(s, fid2, c2) == s,
    ensures
        spec_insert(spec_insert(s, feed_id, c), fid2, c2) == spec_insert(s, feed_id, c),
{
    lemma_insert_noop_iff(s, fid2, c2);
    if has_entry(s, fid2, item_key(c2)) {
        lemma_has_entry_insert_mono(s, feed_id, c, fid2, item_key(c2));
    } else {
        lemma_insert_shape(s, feed_id, c);
    }
    lemma_insert_noop_iff(spec_insert(s, feed_id, c), fid2, c2);
}

/// An insert that changes nothing on a store still changes nothing after
/// any further persistence pass.
proof fn lemma_persist_stable(
    s: Seq<StoredEntryView>,
    feed_id: i32,
    items: Seq<CandidateItemView>,
    fid2: i32,
    c2: CandidateItemView,
)
    requires
        spec_insert(s, fid2, c2) == s,
    ensures
        spec_insert(spec_persist(s, feed_id, items), fid2, c2) == spec_persist(s, feed_id, items),
    decreases items.len(),
{
    if items.len() > 0 {
        lemma_insert_stable(s, feed_id, items[0], fid2, c2);
        lemma_persist_stable(spec_insert(s, feed_id, items[0]), feed_id, items.skip(1), fid2, c2);
    }
}

/// Inserting the same candidate twice in a row is inserting it once.
proof fn lemma_insert_self_stable(s: Seq<StoredEntryView>, feed_id: i32, c: CandidateItemView)
    ensures
        spec_insert(spec_insert(s, feed_id, c), feed_id, c) == spec_insert(s, feed_id, c),
{
    if !(has_entry(s, feed_id, item_key(c)) || s.len() >= STORE_CAP) {
        let t = s.push(entry_for(s, feed_id, c));
        assert(t[s.len() as int] == entry_for(s, feed_id, c));
        assert(entry_key(entry_for(s, feed_id, c)) == item_key(c));
        assert(has_entry(t, feed_id, item_key(c)));
    } else {
        lemma_insert_noop_iff(s, feed_id, c);
    }
}

/// Persisting a concatenation is persisting the parts in turn.
proof fn lemma_persist_concat(
    s: Seq<StoredEntryView>,
    feed_id: i32,
    a: Seq<CandidateItemView>,
    b: Seq<CandidateItemView>,
)
    ensures
        spec_persist(s, feed_id, a + b) == spec_persist(spec_persist(s, feed_id, a), feed_id, b),
    decreases a.len(),
{
    if a.len() == 0 {
        assert(a + b =~= b);
        assert(spec_persist(s, feed_id, a) == s);
    } else {
        assert((a + b)[0] == a[0]);
        assert((a + b).skip(1) =~= a.skip(1) + b);
        assert(spec_persist(s, feed_id, a + b) == spec_persist(
            spec_insert(s, feed_id, a[0]),
            feed_id,
            (a + b).skip(1),
        ));
        lemma_persist_concat(spec_insert(s, feed_id, a[0]), feed_id, a.skip(1), b);
        assert(spec_persist(s, feed_id, a) == spec_persist(
            spec_insert(s, feed_id, a[0]),
            feed_id,
            a.skip(1),
        ));
    }
}

/// After a persistence pass has covered the first `m` items, re-attempting
/// any of them changes nothing.
proof fn lemma_reinsert_noop(
    s: Seq<StoredEntryView>,
    feed_id: i32,
    items: Seq<CandidateItemView>,
    i: int,
    m: int,
)
    requires
        0 <= i < m <= items.len(),
    ensures
        spec_insert(spec_persist(s, feed_id, items.take(m)), feed_id, items[i]) == spec_persist(
            s,
            feed_id,
            items.take(m),
        ),
{
    let t0 = spec_persist(s, feed_id, items.take(i));
    assert(items.take(i + 1) =~= items.take(i).push(items[i]));
    lemma_persist_snoc(s, feed_id, items.take(i), items[i]);
    let t1 = spec_persist(s, feed_id, items.take(i + 1));
    assert(t1 == spec_insert(t0, feed_id, items[i]));
    lemma_insert_self_stable(t0, feed_id, items[i]);
    assert(items.take(m) =~= items.take(i + 1) + items.subrange(i + 1, m));
    lemma_persist_concat(s, feed_id, items.take(i + 1), items.subrange(i + 1, m));
    lemma_persist_stable(t1, feed_id, items.subrange(i + 1, m), feed_id, items[i]);
}

/// A persistence pass every item of which changes nothing changes nothing.
proof fn lemma_persist_all_noop(
    t: Seq<StoredEntryView>,
    feed_id: i32,
    items: Seq<CandidateItemView>,
)
    requires
        forall|k: int| 0 <= k < items.len() ==> spec_insert(t, feed_id, #[trigger] items[k]) == t,
    ensures
        spec_persist(t, feed_id, items) == t,
    decreases items.len(),
{
    if items.len() > 0 {
        assert(spec_insert(t, feed_id, items[0]) == t);
        assert(forall|k: int|
            0 <= k < items.skip(1).len() ==> #[trigger] items.skip(1)[k] == items[k + 1]);
        lemma_persist_all_noop(t, feed_id, items.skip(1));
    }
}

/// Idempotent persistence: attempting the same candidate items a second
/// time persists nothing further — the store is exactly what one pass
/// leaves.
pub proof fn lemma_persist_idempotent(
    s: Seq<StoredEntryView>,
    feed_id: i32,
    items: Seq<CandidateItemView>,
)
    ensures
        spec_persist(spec_persist(s, feed_id, items), feed_id, items) == spec_persist(
            s,
            feed_id,
            items,
        ),
{
    let t = spec_persist(s, feed_id, items);
    assert(items.take(items.len() as int) =~= items);
    assert forall|k: int| 0 <= k < items.len() implies spec_insert(t, feed_id, #[trigger] items[k])
        == t by {
        lemma_reinsert_noop(s, feed_id, items, k, items.len() as int);
    }
    lemma_persist_all_noop(t, feed_id, items);
}

/// Idempotent refresh: running a worker invocation twice on byte-identical
/// fetched content leaves exactly the rows one run leaves.
pub proof fn lemma_refresh_idempotent(
    s: Seq<StoredEntryView>,
    feed_id: i32,
    fetched: Option<Seq<u8>>,
)
    ensures
        spec_refresh(spec_refresh(s, feed_id, fetched), feed_id, fetched) == spec_refresh(
            s,
            feed_id,
            fetched,
        ),
{
    match fetched {
        None => {},
        Some(bytes) => match crate::item::feed_parse_of(bytes) {
            None => {},
            Some(raws) => {
                lemma_persist_idempotent(s, feed_id, candidates_of(raws));
            },
        },
    }
}

/// Failure isolation: a feed whose fetch or parse failed contributes
/// nothing to a cycle — the store ends exactly as if that feed had not
/// been scheduled at all, so the other feeds' new items persist regardless.
pub proof fn lemma_failed_feed_isolated(s: Seq<StoredEntryView>, fs: Seq<FeedFetchView>, i: int)
    requires
        0 <= i < fs.len(),
        refresh_fails(fs[i].fetched),
    ensures
        spec_cycle(s, fs) == spec_cycle(s, fs.remove(i)),
    decreases fs.len(),
{
    if i == 0 {
        assert(spec_refresh(s, fs[0].feed_id, fs[0].fetched) == s);
        assert(fs.remove(0) =~= fs.skip(1));
        assert(spec_cycle(s, fs) == spec_cycle(s, fs.skip(1)));
    } else {
        let t = spec_refresh(s, fs[0].feed_id, fs[0].fetched);
        assert(fs.remove(i)[0] == fs[0]);
        assert(fs.remove(i).skip(1) =~= fs.skip(1).remove(i - 1));
        assert(fs.skip(1)[i - 1] == fs[i]);
        lemma_failed_feed_isolated(t, fs.skip(1), i - 1);
        assert(spec_cycle(s, fs) == spec_cycle(t, fs.skip(1)));
        assert(spec_cycle(s, fs.remove(i)) == spec_cycle(t, fs.remove(i).skip(1)));
    }
}

/// A date the source left out or wrote outside RFC 2822 makes `pub_date`
/// absent, and costs the item nothing else: extraction keeps the item and
/// its other fields exactly.
pub proof fn lemma_bad_date_kept(rs: Seq<RawItemView>)
    ensures
        candidates_of(rs).len() == rs.len(),
        forall|i: int|
            0 <= i < rs.len() ==> #[trigger] candidates_of(rs)[i] == candidate_of(rs[i]),
        forall|i: int|
            0 <= i < rs.len() ==> {
                &&& (#[trigger] candidates_of(rs)[i]).title == rs[i].title
                &&& candidates_of(rs)[i].link == rs[i].link
                &&& candidates_of(rs)[i].guid == rs[i].guid
                &&& candidates_of(rs)[i].pub_date == (match rs[i].date_text {
                    Some(t) => rfc2822_utc_of(t),
                    None => None::<i64>,
                })
            },
{
}

spec fn int_max(a: int, b: int) -> int {
    if a >= b {
        a
    } else {
        b
    }
}

/// The heart of overlap safety: two workers hold the same candidate list;
/// one has attempted `i` items, the other `j`, in any interleaved order,
/// and `c` is what remains of their schedule. However the rest interleaves,
/// the store ends exactly where one full pass alone ends.
proof fn lemma_interleave_run(
    s: Seq<StoredEntryView>,
    feed_id: i32,
    items: Seq<CandidateItemView>,
    i: int,
    j: int,
    c: Seq<CandidateItemView>,
)
    requires
        0 <= i <= items.len(),
        0 <= j <= items.len(),
        is_interleaving(items.skip(i), items.skip(j), c),
    ensures
        spec_persist(spec_persist(s, feed_id, items.take(int_max(i, j))), feed_id, c)
            == spec_persist(s, feed_id, items),
    decreases c.len(),
{
    let m = int_max(i, j);
    let t = spec_persist(s, feed_id, items.take(m));
    if c.len() == 0 {
        assert(items.skip(i).len() == 0);
        assert(i == items.len() && j == items.len());
        assert(items.take(m) =~= items);
        assert(spec_persist(t, feed_id, c) == t);
    } else {
        if items.skip(i).len() > 0 && items.skip(i)[0] == c[0] && is_interleaving(
            items.skip(i).skip(1),
            items.skip(j),
            c.skip(1),
        ) {
            assert(items.skip(i)[0] == items[i]);
            assert(items.skip(i).skip(1) =~= items.skip(i + 1));
            let t1 = spec_insert(t, feed_id, items[i]);
            assert(spec_persist(t, feed_id, c) == spec_persist(t1, feed_id, c.skip(1)));
            if i >= j {
                assert(m == i);
                assert(items.take(i + 1) =~= items.take(i).push(items[i]));
                lemma_persist_snoc(s, feed_id, items.take(i), items[i]);
                assert(t1 == spec_persist(s, feed_id, items.take(i + 1)));
                lemma_interleave_run(s, feed_id, items, i + 1, j, c.skip(1));
                assert(int_max(i + 1, j) == i + 1);
            } else {
                assert(m == j);
                lemma_reinsert_noop(s, feed_id, items, i, j);
                assert(t1 == t);
                lemma_interleave_run(s, feed_id, items, i + 1, j, c.skip(1));
                assert(int_max(i + 1, j) == j);
            }
        } else {
            assert(items.skip(j).len() > 0 && items.skip(j)[0] == c[0] && is_interleaving(
                items.skip(i),
                items.skip(j).skip(1),
                c.skip(1),
            ));
            assert(items.skip(j)[0] == items[j]);
            assert(items.skip(j).skip(1) =~= items.skip(j + 1));
            let t1 = spec_insert(t, feed_id, items[j]);
            assert(spec_persist(t, feed_id, c) == spec_persist(t1, feed_id, c.skip(1)));
            if j >= i {
                assert(m == j);
                assert(items.take(j + 1) =~= items.take(j).push(items[j]));
                lemma_persist_snoc(s, feed_id, items.take(j), items[j]);
                assert(t1 == spec_persist(s, feed_id, items.take(j + 1)));
                lemma_interleave_run(s, feed_id, items, i, j + 1, c.skip(1));
                assert(int_max(i, j + 1) == j + 1);
            } else {
                assert(m == i);
                lemma_reinsert_noop(s, feed_id, items, j, i);
                assert(t1 == t);
                lemma_interleave_run(s, feed_id, items, i, j + 1, c.skip(1));
                assert(int_max(i, j + 1) == i);
            }
        }
    }
}

/// Overlap safety: two concurrent worker invocations for the same feed,
/// fetching the same content, may interleave their insert attempts in any
/// order; together they leave exactly the rows one invocation alone leaves
/// — no duplicates beyond it.
pub proof fn lemma_overlap_safe(
    s: Seq<StoredEntryView>,
    feed_id: i32,
    items: Seq<CandidateItemView>,
    c: Seq<CandidateItemView>,
)
    requires
        is_interleaving(items, items, c),
    ensures
        spec_persist(s, feed_id, c) == spec_persist(s, feed_id, items),
{
    assert(items.skip(0) =~= items);
    assert(items.take(0) =~= Seq::<CandidateItemView>::empty());
    assert(spec_persist(s, feed_id, items.take(0)) == s);
    lemma_interleave_run(s, feed_id, items, 0, 0, c);
}

/// Overlap safety at the worker level: two concurrent invocations for one
/// feed fetched byte-identical content, so — parsing being a function of
/// the bytes — they extract the same candidates; whatever order their
/// insert attempts interleave in, the store ends exactly where a single
/// invocation ends.
pub proof fn lemma_overlap_safe_refresh(
    s: Seq<StoredEntryView>,
    feed_id: i32,
    bytes: Seq<u8>,
    c: Seq<CandidateItemView>,
)
    requires
        !refresh_fails(Some(bytes)),
        is_interleaving(
            candidates_of(crate::item::feed_parse_of(bytes)->0),
            candidates_of(crate::item::feed_parse_of(bytes)->0),
            c,
        ),
    ensures
        spec_persist(s, feed_id, c) == spec_refresh(s, feed_id, Some(bytes)),
{
    lemma_overlap_safe(s, feed_id, candidates_of(crate::item::feed_parse_of(bytes)->0), c);
}

} // verus!
