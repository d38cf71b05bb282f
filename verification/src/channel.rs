//! One parsed feed document, tagged with the source it was polled from.

use crate::timestamp::Timestamp;
use vstd::prelude::*;

verus! {

/// A parsed syndication document. Its content is passed through as it is:
/// the engine reads the link and the declared dates, compares whole
/// documents, and leaves the rest to the rendering layer.
#[verifier::external_type_specification]
#[verifier::external_body]
pub struct ExDocument(rss::Channel);

/// The document that `rss::Channel::read_from` reads from `bytes`, if it
/// reads one.
pub uninterp spec fn parsed_document(bytes: Seq<u8>) -> Option<rss::Channel>;

/// The link that a document carries.
pub uninterp spec fn document_link(doc: rss::Channel) -> Seq<char>;

/// The dates that the Dublin Core extension of a document declares, in the
/// order of the document; `None` for a document without that extension.
pub uninterp spec fn document_dates(doc: rss::Channel) -> Option<Seq<Seq<char>>>;

/// The document `doc` after `rss::Channel::set_link` has given it `link`.
pub uninterp spec fn relinked(doc: rss::Channel, link: Seq<char>) -> rss::Channel;

/// The seconds and nanoseconds of the instant that chrono reads from `text`
/// as a `DateTime<Utc>`, if it reads one.
pub uninterp spec fn parsed_utc(text: Seq<char>) -> Option<(i64, u32)>;

/// Calls `rss::Channel::read_from` on a byte slice. The outcome depends on
/// the bytes alone; it is `None` where the crate reports an error.
#[verifier::external_body]
fn parse_document(bytes: &[u8]) -> (doc: Option<rss::Channel>)
    ensures
        doc == parsed_document(bytes@),
{
    match rss::Channel::read_from(bytes) {
        Ok(doc) => Some(doc),
        Err(_) => None,
    }
}

/// Calls `rss::Channel::set_link`, which stores the new link and touches no
/// other field: the dates that the document declares stay as they were.
#[verifier::external_body]
fn set_document_link(doc: &mut rss::Channel, link: &str)
    ensures
        *final(doc) == relinked(*old(doc), link@),
        document_link(*final(doc)) == link@,
        document_dates(*final(doc)) == document_dates(*old(doc)),
{
    doc.set_link(link)
}

/// Reads the field that `rss::Channel::link` returns.
#[verifier::external_body]
fn link_of_document(doc: &rss::Channel) -> (link: String)
    ensures
        link@ == document_link(*doc),
{
    doc.link().to_string()
}

/// Reads the dates of the Dublin Core extension, through
/// `rss::Channel::dublin_core_ext` and `DublinCoreExtension::dates`.
#[verifier::external_body]
fn dates_of_document(doc: &rss::Channel) -> (dates: Option<Vec<String>>)
    ensures
        match dates {
            Some(found) => document_dates(*doc) == Some(found.deep_view()),
            None => document_dates(*doc) is None,
        },
{
    doc.dublin_core_ext().map(|ext| ext.dates().to_vec())
}

/// Compares two documents with the `==` of `rss::Channel`, which the crate
/// derives: it holds exactly when every field of the two is equal.
#[verifier::external_body]
fn same_document(a: &rss::Channel, b: &rss::Channel) -> (same: bool)
    ensures
        same == (*a == *b),
{
    a == b
}

/// The `clone` that the crate derives for `rss::Channel` copies every field:
/// the copy is the same document.
pub assume_specification[ <rss::Channel as Clone>::clone ](doc: &rss::Channel) -> (copy:
    rss::Channel)
    ensures
        copy == *doc,
;

/// Parses `text` as a `chrono::DateTime<Utc>` (a relaxed RFC 3339) and
/// returns its Unix seconds and the nanoseconds within the second.
#[verifier::external_body]
fn parse_utc(text: &str) -> (instant: Option<(i64, u32)>)
    ensures
        instant == parsed_utc(text@),
{
    match text.parse::<chrono::DateTime<chrono::Utc>>() {
        Ok(t) => Some((t.timestamp(), t.timestamp_subsec_nanos())),
        Err(_) => None,
    }
}

/// What a channel is to the engine: its identity key and its document.
pub struct FeedChannelView {
    pub link: Seq<char>,
    pub doc: rss::Channel,
}

/// One feed document polled from one source. `link` is the identity key
/// of the channel: the URL of the source, not the link that the feed
/// declares for itself.
#[derive(Clone, Debug)]
pub struct FeedChannel {
    pub link: String,
    pub doc: rss::Channel,
}

impl View for FeedChannel {
    type V = FeedChannelView;

    open spec fn view(&self) -> FeedChannelView {
        FeedChannelView { link: self.link@, doc: self.doc }
    }
}

/// The first date that a document declares, if it declares one.
pub open spec fn first_declared_date(doc: rss::Channel) -> Option<Seq<char>> {
    match document_dates(doc) {
        Some(dates) => if dates.len() > 0 {
            Some(dates[0])
        } else {
            None
        },
        None => None,
    }
}

/// The instant that a channel is attributed to: the first date that its
/// document declares, where it declares one that can be read, and else
/// `fallback`, the instant of the bucket that the channel came in.
pub open spec fn timestamp_of(channel: FeedChannelView, fallback: Timestamp) -> Timestamp {
    match first_declared_date(channel.doc) {
        Some(text) => match parsed_utc(text) {
            Some((secs, nanos)) => Timestamp { secs, nanos },
            None => fallback,
        },
        None => fallback,
    }
}

/// The channel that the body of a response from `url` holds, if the body
/// is a feed document. Its link is the URL.
pub open spec fn channel_from_body(url: Seq<char>, body: Seq<u8>) -> Option<FeedChannelView> {
    match parsed_document(body) {
        Some(doc) => Some(FeedChannelView { link: url, doc: relinked(doc, url) }),
        None => None,
    }
}

impl FeedChannel {
    /// Parses the body of a response from `url`. The channel that comes
    /// back has the URL as its identity key, also inside the document.
    /// A body that is no feed document gives `None`.
    pub fn parse(url: &str, body: &[u8]) -> (channel: Option<FeedChannel>)
        ensures
            match channel {
                Some(c) => channel_from_body(url@, body@) == Some(c@) && document_link(c.doc)
                    == url@,
                None => channel_from_body(url@, body@) is None,
            },
    {
        match parse_document(body) {
            Some(doc) => {
                let mut doc = doc;
                set_document_link(&mut doc, url);
                Some(FeedChannel { link: url.to_owned(), doc })
            },
            None => None,
        }
    }

    /// The channel of a document that was stored earlier: its identity key
    /// is the link that the document carries.
    pub fn from_document(doc: rss::Channel) -> (channel: FeedChannel)
        ensures
            channel@ == (FeedChannelView { link: document_link(doc), doc }),
    {
        let link = link_of_document(&doc);
        FeedChannel { link, doc }
    }

    /// The instant that the channel is attributed to (`timestamp_of`).
    pub fn timestamp(&self, fallback: Timestamp) -> (t: Timestamp)
        ensures
            t == timestamp_of(self@, fallback),
    {
        match dates_of_document(&self.doc) {
            Some(dates) => {
                if dates.len() > 0 {
                    assert(dates.deep_view()[0] == dates@[0]@);
                    match parse_utc(dates[0].as_str()) {
                        Some((secs, nanos)) => Timestamp { secs, nanos },
                        None => fallback,
                    }
                } else {
                    fallback
                }
            },
            None => fallback,
        }
    }

    /// Whether two channels have the same key and the same document.
    pub fn same_as(&self, other: &FeedChannel) -> (same: bool)
        ensures
            same == (self@ == other@),
    {
        self.link == other.link && same_document(&self.doc, &other.doc)
    }
}

} // verus!
