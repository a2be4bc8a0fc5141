//! Validation of what an extraction script returned.

use vstd::prelude::*;
use crate::store::{first_seen_chapter, views, Chapter, ChapterView};
use crate::time::{parsed_timestamp, Timestamp};

verus! {

/// What an element of the script's result holds under one name.
#[derive(Debug, PartialEq, Eq)]
pub enum Field {
    /// Nothing is stored under the name.
    Missing,
    /// Something other than a string.
    Other,
    /// A string.
    Text(String),
}

/// One element of the array a script returned.
#[derive(Debug, PartialEq, Eq)]
pub struct ScriptItem {
    pub title: Field,
    pub url: Field,
    pub date: Field,
}

/// The value a script returned.
#[derive(Debug, PartialEq, Eq)]
pub enum ScriptValue {
    /// Anything but an array.
    Other,
    /// An array, with its elements in the order the script produced them.
    Array(Vec<ScriptItem>),
}

/// Why an extraction yielded no chapters.
#[derive(Clone, Copy, Debug, PartialEq, Eq, Structural)]
pub enum ExtractionError {
    /// The rendering backend could not be reached.
    Connection,
    /// The readiness marker did not appear in time.
    Timeout,
    /// The script threw, or its result is not an array.
    ScriptError,
    /// An element lacks a string `title` or `url`, or carries a `date`
    /// that is not a timestamp.
    MalformedItem,
}

/// Seconds to wait for a source's readiness marker.
pub const READY_TIMEOUT_SECS: u64 = 30;

/// The publication date an element carries: `Some(None)` where it has no
/// `date`, `Some(Some(t))` where its `date` is a string that parses to
/// `t`, and `None` where its `date` is anything else.
pub open spec fn item_date(date: Field) -> Option<Option<Timestamp>> {
    match date {
        Field::Missing => Some(None),
        Field::Other => None,
        Field::Text(text) => match parsed_timestamp(text@) {
            Some(at) => Some(Some(at)),
            None => None,
        },
    }
}

/// The chapter that a well-formed element stands for, seen at `now` on the
/// source titled `source`; `None` for a malformed element.
pub open spec fn item_chapter(item: ScriptItem, source: Seq<char>, now: Timestamp) -> Option<
    ChapterView,
> {
    match (item.title, item.url, item_date(item.date)) {
        (Field::Text(title), Field::Text(url), Some(date)) => Some(
            first_seen_chapter(source, title@, url@, date, now),
        ),
        _ => None,
    }
}

/// Whether every element stands for a chapter.
pub open spec fn all_well_formed(items: Seq<ScriptItem>, source: Seq<char>, now: Timestamp) -> bool {
    forall|i: int| 0 <= i < items.len() ==> item_chapter(#[trigger] items[i], source, now) is Some
}

/// What [`chapters_from_script`] returns for a value.
pub open spec fn script_outcome(value: ScriptValue, source: Seq<char>, now: Timestamp) -> Result<
    Seq<ChapterView>,
    ExtractionError,
> {
    match value {
        ScriptValue::Other => Err(ExtractionError::ScriptError),
        ScriptValue::Array(items) => if all_well_formed(items@, source, now) {
            Ok(Seq::new(items@.len(), |i: int| item_chapter(items@[i], source, now)->0))
        } else {
            Err(ExtractionError::MalformedItem)
        },
    }
}

/// Turns one element into a chapter, or reports it malformed.
pub fn chapter_from_item(item: &ScriptItem, source: &str, now: Timestamp) -> (r: Option<Chapter>)
    ensures
        match r {
            Some(chapter) => item_chapter(*item, source@, now) == Some(chapter@),
            None => item_chapter(*item, source@, now) is None,
        },
{
    let title = match &item.title {
        Field::Text(text) => text,
        _ => { return None; },
    };
    let url = match &item.url {
        Field::Text(text) => text,
        _ => { return None; },
    };
    let date = match &item.date {
        Field::Missing => None,
        Field::Other => { return None; },
        Field::Text(text) => match Timestamp::parse(text.as_str()) {
            Some(at) => Some(at),
            None => { return None; },
        },
    };
    Some(Chapter::first_seen(source, title.as_str(), url.as_str(), date, now))
}

/// Validates a script's result and turns it into the chapters of the source
/// titled `source`, in the order the script produced them, each first seen
/// and last seen at `now`.
///
/// A value that is no array is a `ScriptError`. One malformed element makes
/// the whole result a `MalformedItem`: no chapter is returned from it.
pub fn chapters_from_script(value: &ScriptValue, source: &str, now: Timestamp) -> (r: Result<
    Vec<Chapter>,
    ExtractionError,
>)
    ensures
        match r {
            Ok(chapters) => value is Array && chapters@.len() == value->Array_0@.len()
                && script_outcome(*value, source@, now) == Ok::<Seq<ChapterView>, ExtractionError>(
                views(chapters@),
            ),
            Err(e) => script_outcome(*value, source@, now) == Err::<
                Seq<ChapterView>,
                ExtractionError,
            >(e),
        },
{
    let items = match value {
        ScriptValue::Array(items) => items,
        ScriptValue::Other => { return Err(ExtractionError::ScriptError); },
    };
    let mut chapters: Vec<Chapter> = Vec::new();
    let mut i: usize = 0;
    while i < items.len()
        invariant
            i <= items@.len(),
            *value == ScriptValue::Array(*items),
            chapters@.len() == i,
            forall|k: int|
                0 <= k < i ==> item_chapter(#[trigger] items@[k], source@, now) == Some(
                    chapters@[k]@,
                ),
        decreases items@.len() - i,
    {
        match chapter_from_item(&items[i], source, now) {
            Some(chapter) => chapters.push(chapter),
            None => {
                assert(item_chapter(items@[i as int], source@, now) is None);
                assert(!all_well_formed(items@, source@, now));
                return Err(ExtractionError::MalformedItem);
            },
        }
        i += 1;
    }
    assert(all_well_formed(items@, source@, now));
    assert(views(chapters@) =~= Seq::new(
        items@.len(),
        |i: int| item_chapter(items@[i], source@, now)->0,
    ));
    Ok(chapters)
}

} // verus!
