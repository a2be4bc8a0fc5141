//! Rendering a source's history into a feed document.

use vstd::prelude::*;
use vstd::string::StringExecFns;
use crate::source::Instruction;
use crate::store::{views, Chapter, ChapterView};
use crate::text::{decimal_string, decimal_text, text_view};
use crate::time::rfc2822_text;

verus! {

/// One entry of a feed.
#[derive(Debug, PartialEq, Eq)]
pub struct FeedItem {
    pub title: String,
    pub link: String,
    pub pub_date: String,
    pub guid: String,
    pub guid_is_permalink: bool,
}

/// The mathematical value of a [`FeedItem`].
pub struct FeedItemView {
    pub title: Seq<char>,
    pub link: Seq<char>,
    pub pub_date: Seq<char>,
    pub guid: Seq<char>,
    pub guid_is_permalink: bool,
}

impl View for FeedItem {
    type V = FeedItemView;

    open spec fn view(&self) -> FeedItemView {
        FeedItemView {
            title: self.title@,
            link: self.link@,
            pub_date: self.pub_date@,
            guid: self.guid@,
            guid_is_permalink: self.guid_is_permalink,
        }
    }
}

/// The feed of one source.
#[derive(Debug, PartialEq, Eq)]
pub struct FeedChannel {
    pub title: String,
    pub link: String,
    pub description: String,
    pub items: Vec<FeedItem>,
}

/// The mathematical value of a [`FeedChannel`].
pub struct FeedChannelView {
    pub title: Seq<char>,
    pub link: Seq<char>,
    pub description: Seq<char>,
    pub items: Seq<FeedItemView>,
}

impl View for FeedChannel {
    type V = FeedChannelView;

    open spec fn view(&self) -> FeedChannelView {
        FeedChannelView {
            title: self.title@,
            link: self.link@,
            description: self.description@,
            items: self.items@.map_values(|item: FeedItem| item@),
        }
    }
}

/// Why a source's feed could not be made.
#[derive(Clone, Copy, Debug, PartialEq, Eq, Structural)]
pub enum FeedError {
    /// A record has neither a publication date nor a first-seen time.
    MissingDate,
    /// A record's date cannot be written as an internet message date.
    UnrenderableDate,
    /// A record has no identifier.
    MissingId,
}

/// The XML document that the `rss` crate writes for a channel.
pub uninterp spec fn rss_document(channel: FeedChannelView) -> Seq<char>;

/// The feed entry of a record whose date was rendered as `pub_date`: its
/// title and link, that date, and its identifier in decimal as a unique
/// identifier that is no permalink.
pub open spec fn dated_item_of(chapter: ChapterView, pub_date: Option<Seq<char>>) -> Result<
    FeedItemView,
    FeedError,
> {
    match (pub_date, chapter.id) {
        (None, _) => Err(FeedError::UnrenderableDate),
        (Some(_), None) => Err(FeedError::MissingId),
        (Some(pub_date), Some(id)) => Ok(
            FeedItemView {
                title: chapter.title,
                link: chapter.url,
                pub_date,
                guid: decimal_text(id as nat),
                guid_is_permalink: false,
            },
        ),
    }
}

/// The feed entry of a record, dated by its effective date as an internet
/// message date.
pub open spec fn feed_item_of(chapter: ChapterView) -> Result<FeedItemView, FeedError> {
    match chapter.effective_date() {
        None => Err(FeedError::MissingDate),
        Some(at) => dated_item_of(
            chapter,
            if at.renderable() {
                rfc2822_text(at.secs as int, at.nanos as int, at.offset as int)
            } else {
                None
            },
        ),
    }
}

/// The feed entries of a listing, in its order, or the error of the first
/// record that has none.
pub open spec fn feed_items_of(listing: Seq<ChapterView>) -> Result<Seq<FeedItemView>, FeedError>
    decreases listing.len(),
{
    if listing.len() == 0 {
        Ok(Seq::empty())
    } else {
        match feed_items_of(listing.drop_last()) {
            Err(e) => Err(e),
            Ok(items) => match feed_item_of(listing.last()) {
                Err(e) => Err(e),
                Ok(item) => Ok(items.push(item)),
            },
        }
    }
}

/// The description of the feed of the source titled `title`.
pub open spec fn description_of(title: Seq<char>) -> Seq<char> {
    title + " chapters automatically generated by crawling."@
}

/// The feed of a source, from its title, its address and its listing.
pub open spec fn channel_of(title: Seq<char>, link: Seq<char>, listing: Seq<ChapterView>) -> Result<
    FeedChannelView,
    FeedError,
> {
    match feed_items_of(listing) {
        Err(e) => Err(e),
        Ok(items) => Ok(
            FeedChannelView { title, link, description: description_of(title), items },
        ),
    }
}

/// Makes the feed entry of a record from its rendered date, if the date
/// could be rendered.
pub fn dated_item(chapter: &Chapter, pub_date: Option<String>) -> (r: Result<FeedItem, FeedError>)
    ensures
        match r {
            Ok(item) => dated_item_of(chapter@, text_view(pub_date)) == Ok::<
                FeedItemView,
                FeedError,
            >(item@),
            Err(e) => dated_item_of(chapter@, text_view(pub_date)) == Err::<
                FeedItemView,
                FeedError,
            >(e),
        },
{
    let pub_date = match pub_date {
        Some(text) => text,
        None => { return Err(FeedError::UnrenderableDate); },
    };
    let id = match chapter.id {
        Some(id) => id,
        None => { return Err(FeedError::MissingId); },
    };
    Ok(
        FeedItem {
            title: chapter.title.clone(),
            link: chapter.url.clone(),
            pub_date,
            guid: decimal_string(id),
            guid_is_permalink: false,
        },
    )
}

/// Makes the feed entry of a record.
pub fn feed_item(chapter: &Chapter) -> (r: Result<FeedItem, FeedError>)
    ensures
        match r {
            Ok(item) => feed_item_of(chapter@) == Ok::<FeedItemView, FeedError>(item@),
            Err(e) => feed_item_of(chapter@) == Err::<FeedItemView, FeedError>(e),
        },
{
    let at = match chapter.effective_date() {
        Some(at) => at,
        None => { return Err(FeedError::MissingDate); },
    };
    dated_item(chapter, at.to_rfc2822())
}

/// Makes the feed of a source from its listing, keeping the listing's
/// order. One record without a feed entry fails the whole feed.
pub fn materialize(title: &str, link: &str, listing: &Vec<Chapter>) -> (r: Result<
    FeedChannel,
    FeedError,
>)
    ensures
        match r {
            Ok(channel) => channel_of(title@, link@, views(listing@)) == Ok::<
                FeedChannelView,
                FeedError,
            >(channel@),
            Err(e) => channel_of(title@, link@, views(listing@)) == Err::<
                FeedChannelView,
                FeedError,
            >(e),
        },
{
    let ghost all = views(listing@);
    let mut items: Vec<FeedItem> = Vec::new();
    let mut i: usize = 0;
    proof {
        assert(items@.map_values(|item: FeedItem| item@) =~= Seq::<FeedItemView>::empty());
    }
    while i < listing.len()
        invariant
            i <= listing@.len(),
            all == views(listing@),
            feed_items_of(all.take(i as int)) == Ok::<Seq<FeedItemView>, FeedError>(
                items@.map_values(|item: FeedItem| item@),
            ),
        decreases listing@.len() - i,
    {
        proof {
            assert(all.take(i + 1).drop_last() =~= all.take(i as int));
            assert(all.take(i + 1).last() == listing@[i as int]@);
            if i + 1 < all.len() {
                lemma_feed_items_prefix_error(all, i + 1);
            } else {
                assert(all.take(i + 1) =~= all);
            }
        }
        let ghost so_far = items@.map_values(|item: FeedItem| item@);
        match feed_item(&listing[i]) {
            Ok(item) => {
                items.push(item);
                assert(items@.map_values(|item: FeedItem| item@) =~= so_far.push(item@));
            },
            Err(e) => {
                return Err(e);
            },
        }
        i += 1;
    }
    proof {
        assert(all.take(i as int) =~= all);
    }
    let mut description = title.to_owned();
    description.append(" chapters automatically generated by crawling.");
    Ok(FeedChannel { title: title.to_owned(), link: link.to_owned(), description, items })
}

/// An error among the first `n` records is the error of the whole listing.
proof fn lemma_feed_items_prefix_error(listing: Seq<ChapterView>, n: int)
    requires
        0 <= n <= listing.len(),
    ensures
        feed_items_of(listing.take(n)) is Err ==> feed_items_of(listing) == feed_items_of(
            listing.take(n),
        ),
    decreases listing.len() - n,
{
    if n < listing.len() {
        assert(listing.take(n + 1).drop_last() =~= listing.take(n));
        lemma_feed_items_prefix_error(listing, n + 1);
    } else {
        assert(listing.take(n) =~= listing);
    }
}

/// Writes a feed as an XML document.
pub fn render(channel: &FeedChannel) -> (document: String)
    ensures
        document@ == rss_document(channel@),
{
    rss_render(channel)
}

/// The feed document of the source with this title and address, from a
/// listing of its records.
pub open spec fn document_of(listing: Seq<ChapterView>, title: Seq<char>, link: Seq<char>) -> Result<
    Seq<char>,
    FeedError,
> {
    match channel_of(title, link, listing) {
        Err(e) => Err(e),
        Ok(channel) => Ok(rss_document(channel)),
    }
}

/// Makes the feed document of a source from a listing of its records.
pub fn feed_document(source: &Instruction, listing: &Vec<Chapter>) -> (r: Result<String, FeedError>)
    ensures
        match r {
            Ok(document) => document_of(views(listing@), source.title@, source.url@) == Ok::<
                Seq<char>,
                FeedError,
            >(document@),
            Err(e) => document_of(views(listing@), source.title@, source.url@) == Err::<
                Seq<char>,
                FeedError,
            >(e),
        },
{
    match materialize(source.title.as_str(), source.url.as_str(), listing) {
        Ok(channel) => Ok(render(&channel)),
        Err(e) => Err(e),
    }
}

/// Calls `rss::ChannelBuilder` and `rss::ItemBuilder` to build a channel
/// with the given title, link, description and entries, each entry with its
/// title, link, publication date and unique identifier, and
/// `rss::Channel::to_string` to write it.
///
/// The document is a function of those values alone and is only named here.
#[verifier::external_body]
fn rss_render(channel: &FeedChannel) -> (document: String)
    ensures
        document@ == rss_document(channel@),
{
    let items: Vec<rss::Item> = channel.items.iter().map(|item| {
        rss::ItemBuilder::default()
            .title(item.title.clone())
            .link(item.link.clone())
            .pub_date(item.pub_date.clone())
            .guid(rss::Guid { value: item.guid.clone(), permalink: item.guid_is_permalink })
            .build()
    }).collect();
    rss::ChannelBuilder::default()
        .title(channel.title.clone())
        .link(channel.link.clone())
        .description(channel.description.clone())
        .items(items)
        .build()
        .to_string()
}

} // verus!
