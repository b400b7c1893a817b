//! The item extractor: from fetched bytes to persistence candidates.

use vstd::prelude::*;
use crate::errors::IngestError;
use crate::store::clone_opt_string;

verus! {

/// One item as it appears in a parsed feed document: every field optional,
/// the publish date still the raw text the source advertised.
#[derive(Debug)]
pub struct RawItem {
    pub title: Option<String>,
    pub link: Option<String>,
    pub date_text: Option<String>,
    pub guid: Option<String>,
}

/// Mathematical image of a `RawItem`.
pub struct RawItemView {
    pub title: Option<Seq<char>>,
    pub link: Option<Seq<char>>,
    pub date_text: Option<Seq<char>>,
    pub guid: Option<Seq<char>>,
}

impl View for RawItem {
    type V = RawItemView;

    open spec fn view(&self) -> RawItemView {
        RawItemView {
            title: self.title.deep_view(),
            link: self.link.deep_view(),
            date_text: self.date_text.deep_view(),
            guid: self.guid.deep_view(),
        }
    }
}

/// A candidate item ready for persistence: the publish date, when present,
/// normalized to a timezone-naive UTC instant in microseconds since the
/// Unix epoch; absent when the source gave none or gave one that is not
/// valid RFC 2822.
#[derive(Debug)]
pub struct CandidateItem {
    pub title: Option<String>,
    pub link: Option<String>,
    pub pub_date: Option<i64>,
    pub guid: Option<String>,
}

/// Mathematical image of a `CandidateItem`.
pub struct CandidateItemView {
    pub title: Option<Seq<char>>,
    pub link: Option<Seq<char>>,
    pub pub_date: Option<i64>,
    pub guid: Option<Seq<char>>,
}

impl View for CandidateItem {
    type V = CandidateItemView;

    open spec fn view(&self) -> CandidateItemView {
        CandidateItemView {
            title: self.title.deep_view(),
            link: self.link.deep_view(),
            pub_date: self.pub_date,
            guid: self.guid.deep_view(),
        }
    }
}

/// What parsing a byte buffer as a feed document yields: `None` when the
/// bytes are not a well-formed feed, otherwise the items in document order.
/// The result is a function of the bytes alone.
pub uninterp spec fn feed_parse_of(bytes: Seq<u8>) -> Option<Seq<RawItemView>>;

/// What parsing a string as an RFC 2822 date yields: `None` when the text
/// is not a valid RFC 2822 date, otherwise the instant as microseconds
/// since the Unix epoch, UTC. The result is a function of the text alone.
pub uninterp spec fn rfc2822_utc_of(s: Seq<char>) -> Option<i64>;

/// Relies on `rss::Channel::read_from`: it parses a syndication document
/// from bytes, deterministically, and exposes each item's title, link,
/// publish-date text and guid as public fields.
#[verifier::external_body]
fn parse_feed(bytes: &Vec<u8>) -> (r: Result<Vec<RawItem>, IngestError>)
    ensures
        match r {
            Ok(items) => feed_parse_of(bytes@) == Some(items@.map_values(|it: RawItem| it@)),
            Err(e) => e == IngestError::Parse && feed_parse_of(bytes@) == None::<Seq<RawItemView>>,
        },
{
    match rss::Channel::read_from(&bytes[..]) {
        Ok(channel) => Ok(channel
            .items
            .into_iter()
            .map(|it| RawItem {
                title: it.title,
                link: it.link,
                date_text: it.pub_date,
                guid: it.guid.map(|g| g.value),
            })
            .collect()),
        Err(_) => Err(IngestError::Parse),
    }
}

/// Relies on `chrono::DateTime::parse_from_rfc2822` and
/// `DateTime::timestamp_micros`: parsing is deterministic in the text, and
/// the timestamp is the parsed instant in UTC microseconds.
#[verifier::external_body]
fn parse_rfc2822(s: &String) -> (r: Option<i64>)
    ensures
        r == rfc2822_utc_of(s@),
{
    match chrono::DateTime::parse_from_rfc2822(s) {
        Ok(dt) => Some(dt.timestamp_micros()),
        Err(_) => None,
    }
}

/// The candidate an extracted raw item becomes: fields carried over, the
/// date text replaced by its RFC 2822 reading (absent when missing or
/// malformed).
pub open spec fn candidate_of(r: RawItemView) -> CandidateItemView {
    CandidateItemView {
        title: r.title,
        link: r.link,
        pub_date: match r.date_text {
            Some(t) => rfc2822_utc_of(t),
            None => None,
        },
        guid: r.guid,
    }
}

/// The candidates a whole document's raw items become, in document order.
pub open spec fn candidates_of(rs: Seq<RawItemView>) -> Seq<CandidateItemView> {
    rs.map_values(|r: RawItemView| candidate_of(r))
}

/// The item extractor: parses a byte buffer as a feed document and turns
/// each item into a persistence candidate, in document order. A missing or
/// malformed publish date never drops an item, let alone the feed: the date
/// is simply absent. Fails exactly when the document as a whole is not a
/// well-formed feed.
pub fn extract_items(bytes: &Vec<u8>) -> (r: Result<Vec<CandidateItem>, IngestError>)
    ensures
        match r {
            Ok(items) => match feed_parse_of(bytes@) {
                Some(raws) => items@.map_values(|c: CandidateItem| c@) == candidates_of(raws),
                None => false,
            },
            Err(e) => e == IngestError::Parse && feed_parse_of(bytes@) is None,
        },
{
    let raws = match parse_feed(bytes) {
        Ok(raws) => raws,
        Err(e) => {
            return Err(e);
        },
    };
    let ghost rviews: Seq<RawItemView> = raws@.map_values(|it: RawItem| it@);
    let n: usize = raws.len();
    let mut out: Vec<CandidateItem> = Vec::new();
    let mut i: usize = 0;
    proof {
        assert(out@.map_values(|c: CandidateItem| c@) =~= candidates_of(rviews.take(0)));
    }
    while i < n
        invariant
            n == raws@.len(),
            i <= n,
            rviews == raws@.map_values(|it: RawItem| it@),
            feed_parse_of(bytes@) == Some(rviews),
            out@.map_values(|c: CandidateItem| c@) == candidates_of(rviews.take(i as int)),
        decreases n - i,
    {
        let raw = &raws[i];
        proof {
            assert(rviews[i as int] == raws@[i as int]@);
        }
        let pub_date: Option<i64> = match &raw.date_text {
            Some(t) => parse_rfc2822(t),
            None => None,
        };
        let cand = CandidateItem {
            title: clone_opt_string(&raw.title),
            link: clone_opt_string(&raw.link),
            pub_date,
            guid: clone_opt_string(&raw.guid),
        };
        proof {
            assert(cand@ == candidate_of(rviews[i as int]));
        }
        out.push(cand);
        proof {
            assert(rviews.take(i + 1) =~= rviews.take(i as int).push(rviews[i as int]));
            assert(candidates_of(rviews.take(i + 1)) =~= candidates_of(rviews.take(i as int)).push(
                candidate_of(rviews[i as int]),
            ));
            assert(out@.map_values(|c: CandidateItem| c@) =~= candidates_of(rviews.take(i + 1)));
        }
        i += 1;
    }
    proof {
        assert(rviews.take(n as int) =~= rviews);
    }
    Ok(out)
}

} // verus!
