//! The chapter records of all sources, deduplicated by `(source, title)`,
//! and their canonical per-source listing.

use vstd::prelude::*;
use crate::text::{
    lemma_lex_le_antisymmetric, lemma_lex_le_total, lemma_lex_le_transitive, str_eq, str_le,
    text_le,
};
use crate::time::Timestamp;
use vstd::utf8::encode_utf8;

verus! {

/// One chapter of a source.
///
/// `manga` is the title of the source the chapter belongs to; `date` is the
/// publication time the source gave, if any; `created_at` is when the
/// chapter was first seen and `updated_at` when it was last seen. `id` is
/// assigned by the store on insertion.
#[derive(Debug, PartialEq, Eq)]
pub struct Chapter {
    pub id: Option<usize>,
    pub manga: String,
    pub title: String,
    pub url: String,
    pub date: Option<Timestamp>,
    pub created_at: Option<Timestamp>,
    pub updated_at: Option<Timestamp>,
}

/// The mathematical value of a [`Chapter`].
pub struct ChapterView {
    pub id: Option<usize>,
    pub manga: Seq<char>,
    pub title: Seq<char>,
    pub url: Seq<char>,
    pub date: Option<Timestamp>,
    pub created_at: Option<Timestamp>,
    pub updated_at: Option<Timestamp>,
}

impl View for Chapter {
    type V = ChapterView;

    open spec fn view(&self) -> ChapterView {
        ChapterView {
            id: self.id,
            manga: self.manga@,
            title: self.title@,
            url: self.url@,
            date: self.date,
            created_at: self.created_at,
            updated_at: self.updated_at,
        }
    }
}

impl Clone for Chapter {
    fn clone(&self) -> (r: Self)
        ensures
            r@ == self@,
    {
        Chapter {
            id: self.id,
            manga: self.manga.clone(),
            title: self.title.clone(),
            url: self.url.clone(),
            date: self.date,
            created_at: self.created_at,
            updated_at: self.updated_at,
        }
    }
}

impl ChapterView {
    /// The time a chapter is ordered by: its publication time where the
    /// source gave one, else the time it was first seen.
    pub open spec fn effective_date(self) -> Option<Timestamp> {
        if self.date is Some {
            self.date
        } else {
            self.created_at
        }
    }

    /// Whether `self` may stand before `other` in a listing: its effective
    /// date is later, or the two are the same instant and its title is
    /// lexicographically at or after the other's. A chapter without any
    /// date stands after every dated one.
    pub open spec fn lists_before(self, other: ChapterView) -> bool {
        match (self.effective_date(), other.effective_date()) {
            (None, None) => text_le(other.title, self.title),
            (None, Some(_)) => false,
            (Some(_), None) => true,
            (Some(a), Some(b)) => if a.secs == b.secs && a.nanos == b.nanos {
                text_le(other.title, self.title)
            } else {
                b.at_or_before(a)
            },
        }
    }

    /// The same chapter carrying the given identifier.
    pub open spec fn with_id(self, id: usize) -> ChapterView {
        ChapterView { id: Some(id), ..self }
    }
}

/// The chapter of `source` with this title, address and publication date,
/// first seen at `now` and not yet in any store.
pub open spec fn first_seen_chapter(
    source: Seq<char>,
    title: Seq<char>,
    url: Seq<char>,
    date: Option<Timestamp>,
    now: Timestamp,
) -> ChapterView {
    ChapterView {
        id: None,
        manga: source,
        title,
        url,
        date,
        created_at: Some(now),
        updated_at: Some(now),
    }
}

impl Chapter {
    /// A chapter found at `now`, before it is offered to a store.
    pub fn first_seen(
        source: &str,
        title: &str,
        url: &str,
        date: Option<Timestamp>,
        now: Timestamp,
    ) -> (r: Chapter)
        ensures
            r@ == first_seen_chapter(source@, title@, url@, date, now),
    {
        Chapter {
            id: None,
            manga: source.to_owned(),
            title: title.to_owned(),
            url: url.to_owned(),
            date,
            created_at: Some(now),
            updated_at: Some(now),
        }
    }

    /// The time the chapter is ordered by.
    pub fn effective_date(&self) -> (r: Option<Timestamp>)
        ensures
            r == self@.effective_date(),
    {
        if self.date.is_some() {
            self.date
        } else {
            self.created_at
        }
    }

    /// Executable form of [`ChapterView::lists_before`].
    pub fn lists_before(&self, other: &Chapter) -> (r: bool)
        ensures
            r == self@.lists_before(other@),
    {
        match (self.effective_date(), other.effective_date()) {
            (None, None) => str_le(other.title.as_str(), self.title.as_str()),
            (None, Some(_)) => false,
            (Some(_), None) => true,
            (Some(a), Some(b)) => if a.secs == b.secs && a.nanos == b.nanos {
                str_le(other.title.as_str(), self.title.as_str())
            } else {
                b.is_at_or_before(&a)
            },
        }
    }
}

/// Of two chapters, one may stand before the other.
pub proof fn lemma_lists_before_total(a: ChapterView, b: ChapterView)
    ensures
        a.lists_before(b) || b.lists_before(a),
{
    lemma_lex_le_total(encode_utf8(a.title), encode_utf8(b.title));
}

/// The listing order is transitive.
pub proof fn lemma_lists_before_transitive(a: ChapterView, b: ChapterView, c: ChapterView)
    requires
        a.lists_before(b),
        b.lists_before(c),
    ensures
        a.lists_before(c),
{
    if text_le(c.title, b.title) && text_le(b.title, a.title) {
        lemma_lex_le_transitive(encode_utf8(c.title), encode_utf8(b.title), encode_utf8(a.title));
    }
}

/// Two chapters that may each stand before the other are of the same
/// instant, or both undated, and have the same title.
pub proof fn lemma_lists_before_antisymmetric(a: ChapterView, b: ChapterView)
    requires
        a.lists_before(b),
        b.lists_before(a),
    ensures
        a.title == b.title,
        a.effective_date() is Some <==> b.effective_date() is Some,
        a.effective_date() is Some ==> a.effective_date()->0.secs == b.effective_date()->0.secs
            && a.effective_date()->0.nanos == b.effective_date()->0.nanos,
{
    lemma_lex_le_antisymmetric(encode_utf8(a.title), encode_utf8(b.title));
    vstd::utf8::encode_utf8_decode_utf8(a.title);
    vstd::utf8::encode_utf8_decode_utf8(b.title);
}

/// The values of a sequence of chapters.
pub open spec fn views(chapters: Seq<Chapter>) -> Seq<ChapterView> {
    chapters.map_values(|c: Chapter| c@)
}

/// Whether some record carries the key `(source, title)`.
pub open spec fn has_key(records: Seq<ChapterView>, source: Seq<char>, title: Seq<char>) -> bool {
    exists|i: int|
        0 <= i < records.len() && (#[trigger] records[i]).manga == source && records[i].title
            == title
}

/// No two records share `(source, title)`.
pub open spec fn keys_unique(records: Seq<ChapterView>) -> bool {
    forall|i: int, j: int|
        0 <= i < j < records.len() ==> !((#[trigger] records[i]).manga == (
        #[trigger] records[j]).manga && records[i].title == records[j].title)
}

/// Every record has an identifier below `next_id`, and identifiers grow
/// with the position.
pub open spec fn ids_ascending(records: Seq<ChapterView>, next_id: nat) -> bool {
    &&& forall|i: int|
        0 <= i < records.len() ==> (#[trigger] records[i]).id is Some && records[i].id->0 < next_id
    &&& forall|i: int, j: int|
        0 <= i < j < records.len() ==> (#[trigger] records[i]).id->0 < (#[trigger] records[j]).id->0
}

/// The predicate "belongs to `source`".
pub open spec fn of_source(source: Seq<char>) -> spec_fn(ChapterView) -> bool {
    |c: ChapterView| c.manga == source
}

/// Each element may stand before every later one.
pub open spec fn listing_sorted(listing: Seq<ChapterView>) -> bool {
    forall|i: int, j: int|
        0 <= i < j < listing.len() ==> (#[trigger] listing[i]).lists_before(#[trigger] listing[j])
}

/// Each element must stand before every later one: no two could change
/// places.
pub open spec fn listing_strict(listing: Seq<ChapterView>) -> bool {
    forall|i: int, j: int|
        0 <= i < j < listing.len() ==> !(#[trigger] listing[j]).lists_before(#[trigger] listing[i])
}

/// Why the store refused a record.
#[derive(Clone, Copy, Debug, PartialEq, Eq, Structural)]
pub enum StoreError {
    /// A record with the same `(source, title)` is already present.
    Duplicate,
    /// No identifier is left to assign.
    Full,
    /// A restored record has no identifier, or one that is not above those
    /// already present.
    BadId,
}

/// The outcome of offering `record` to a store holding `records`.
pub open spec fn insert_outcome(records: Seq<ChapterView>, next_id: nat, record: ChapterView) -> Result<
    (),
    StoreError,
> {
    if has_key(records, record.manga, record.title) {
        Err(StoreError::Duplicate)
    } else if next_id >= usize::MAX {
        Err(StoreError::Full)
    } else {
        Ok(())
    }
}

/// The outcome of restoring `record`, which already carries an identifier.
pub open spec fn restore_outcome(records: Seq<ChapterView>, next_id: nat, record: ChapterView) -> Result<
    (),
    StoreError,
> {
    if record.id is None || record.id->0 < next_id || record.id->0 >= usize::MAX {
        Err(StoreError::BadId)
    } else if has_key(records, record.manga, record.title) {
        Err(StoreError::Duplicate)
    } else {
        Ok(())
    }
}

/// The records after offering `items` one by one, in order: an item whose
/// key is present is skipped, any other is appended under the next
/// identifier.
pub open spec fn persisted(records: Seq<ChapterView>, next_id: nat, items: Seq<ChapterView>) -> Seq<
    ChapterView,
>
    decreases items.len(),
{
    if items.len() == 0 {
        records
    } else if has_key(records, items[0].manga, items[0].title) {
        persisted(records, next_id, items.drop_first())
    } else {
        persisted(
            records.push(items[0].with_id(next_id as usize)),
            next_id + 1,
            items.drop_first(),
        )
    }
}

/// The append-only table of chapter records.
pub struct Store {
    records: Vec<Chapter>,
    next_id: usize,
}

impl Store {
    /// The records, in insertion order.
    pub closed spec fn records(&self) -> Seq<ChapterView> {
        views(self.records@)
    }

    /// The identifier that the next inserted record receives.
    pub closed spec fn next_id(&self) -> nat {
        self.next_id as nat
    }

    /// The store's invariant: keys are unique and identifiers follow the
    /// insertion order.
    pub open spec fn wf(&self) -> bool {
        &&& keys_unique(self.records())
        &&& ids_ascending(self.records(), self.next_id())
        &&& self.next_id() >= 1
    }

    /// An empty store, whose first identifier is 1.
    pub fn new() -> (r: Store)
        ensures
            r.wf(),
            r.records() == Seq::<ChapterView>::empty(),
            r.next_id() == 1,
    {
        let r = Store { records: Vec::new(), next_id: 1 };
        assert(r.records() =~= Seq::<ChapterView>::empty());
        r
    }

    /// The number of records.
    pub fn len(&self) -> (r: usize)
        ensures
            r == self.records().len(),
    {
        self.records.len()
    }

    /// A copy of the record at position `index` in insertion order.
    pub fn get(&self, index: usize) -> (r: Option<Chapter>)
        ensures
            match r {
                Some(c) => index < self.records().len() && c@ == self.records()[index as int],
                None => index >= self.records().len(),
            },
    {
        if index < self.records.len() {
            Some(self.records[index].clone())
        } else {
            None
        }
    }

    /// Whether a record with the key `(source, title)` is present.
    pub fn contains(&self, source: &str, title: &str) -> (r: bool)
        ensures
            r == has_key(self.records(), source@, title@),
    {
        let mut i: usize = 0;
        while i < self.records.len()
            invariant
                i <= self.records@.len(),
                forall|k: int|
                    0 <= k < i ==> !((#[trigger] self.records()[k]).manga == source@
                        && self.records()[k].title == title@),
            decreases self.records@.len() - i,
        {
            if str_eq(self.records[i].manga.as_str(), source) && str_eq(
                self.records[i].title.as_str(),
                title,
            ) {
                assert(self.records()[i as int].manga == source@);
                return true;
            }
            i += 1;
        }
        false
    }

    /// Appends `record` under the next identifier, unless its key is taken
    /// or no identifier is left; a refused record leaves the store as it
    /// was. Whatever `record.id` held is replaced.
    pub fn insert(&mut self, record: Chapter) -> (r: Result<(), StoreError>)
        requires
            old(self).wf(),
        ensures
            final(self).wf(),
            r == insert_outcome(old(self).records(), old(self).next_id(), record@),
            r is Ok ==> final(self).records() == old(self).records().push(
                record@.with_id(old(self).next_id() as usize),
            ) && final(self).next_id() == old(self).next_id() + 1,
            r is Err ==> final(self).records() == old(self).records() && final(self).next_id()
                == old(self).next_id(),
    {
        if self.contains(record.manga.as_str(), record.title.as_str()) {
            return Err(StoreError::Duplicate);
        }
        if self.next_id >= usize::MAX {
            return Err(StoreError::Full);
        }
        let stamped = Chapter { id: Some(self.next_id), ..record };
        self.append(stamped);
        Ok(())
    }

    /// Appends `record`, which a store assigned an identifier earlier, as it
    /// is. The identifier must not be below [`Store::next_id`] and the key
    /// must be free; a refused record leaves the store as it was.
    pub fn restore(&mut self, record: Chapter) -> (r: Result<(), StoreError>)
        requires
            old(self).wf(),
        ensures
            final(self).wf(),
            r == restore_outcome(old(self).records(), old(self).next_id(), record@),
            r is Ok ==> final(self).records() == old(self).records().push(record@)
                && final(self).next_id() == record@.id->0 + 1,
            r is Err ==> final(self).records() == old(self).records() && final(self).next_id()
                == old(self).next_id(),
    {
        let id = match record.id {
            Some(id) => id,
            None => { return Err(StoreError::BadId); },
        };
        if id < self.next_id || id >= usize::MAX {
            return Err(StoreError::BadId);
        }
        if self.contains(record.manga.as_str(), record.title.as_str()) {
            return Err(StoreError::Duplicate);
        }
        self.next_id = id;
        self.append(record);
        Ok(())
    }

    fn append(&mut self, record: Chapter)
        requires
            keys_unique(old(self).records()),
            ids_ascending(old(self).records(), old(self).next_id()),
            !has_key(old(self).records(), record@.manga, record@.title),
            record@.id == Some(old(self).next_id),
            1 <= old(self).next_id < usize::MAX,
        ensures
            final(self).wf(),
            final(self).records() == old(self).records().push(record@),
            final(self).next_id() == old(self).next_id() + 1,
    {
        let ghost before = self.records();
        self.records.push(record);
        self.next_id = self.next_id + 1;
        proof {
            assert(self.records() =~= before.push(record@));
            assert forall|i: int, j: int| 0 <= i < j < self.records().len() implies !((
            #[trigger] self.records()[i]).manga == (#[trigger] self.records()[j]).manga
                && self.records()[i].title == self.records()[j].title) by {
                if j == before.len() {
                    assert(before[i].manga == self.records()[i].manga);
                } else {
                    assert(before[i] == self.records()[i] && before[j] == self.records()[j]);
                }
            }
        }
    }
}

impl Store {
    /// Offers `items` to the store one by one, in order, skipping those
    /// whose key is present, and returns how many were inserted.
    ///
    /// Refuses the whole batch, changing nothing, when the identifiers left
    /// would not suffice for all of it.
    pub fn persist(&mut self, items: &Vec<Chapter>) -> (r: Result<usize, StoreError>)
        requires
            old(self).wf(),
        ensures
            final(self).wf(),
            match r {
                Ok(inserted) => {
                    &&& old(self).next_id() + items@.len() <= usize::MAX
                    &&& final(self).records() == persisted(
                        old(self).records(),
                        old(self).next_id(),
                        views(items@),
                    )
                    &&& inserted == final(self).records().len() - old(self).records().len()
                    &&& final(self).next_id() == old(self).next_id() + inserted
                },
                Err(e) => {
                    &&& old(self).next_id() + items@.len() > usize::MAX
                    &&& e == StoreError::Full
                    &&& final(self).records() == old(self).records()
                    &&& final(self).next_id() == old(self).next_id()
                },
            },
    {
        if items.len() > usize::MAX - self.next_id {
            return Err(StoreError::Full);
        }
        let ghost all = views(items@);
        let mut inserted: usize = 0;
        let mut i: usize = 0;
        proof {
            assert(all.skip(0) =~= all);
        }
        while i < items.len()
            invariant
                i <= items@.len(),
                all == views(items@),
                self.wf(),
                inserted <= i,
                self.next_id() + (items@.len() - i) <= usize::MAX,
                self.next_id() == old(self).next_id() + inserted,
                self.records().len() == old(self).records().len() + inserted,
                persisted(old(self).records(), old(self).next_id(), all) == persisted(
                    self.records(),
                    self.next_id(),
                    all.skip(i as int),
                ),
            decreases items@.len() - i,
        {
            proof {
                assert(all.skip(i as int).drop_first() =~= all.skip(i + 1));
                assert(all.skip(i as int)[0] == items@[i as int]@);
            }
            if !self.contains(items[i].manga.as_str(), items[i].title.as_str()) {
                let outcome = self.insert(items[i].clone());
                assert(outcome is Ok);
                inserted += 1;
            }
            i += 1;
        }
        Ok(inserted)
    }

    /// The records of `source` in canonical order: by effective date, latest
    /// first, and among equal dates by title, greatest first.
    ///
    /// The listing holds exactly the records of the source, each once. As
    /// no two of them share a title, the order leaves no choice.
    pub fn list_by_source(&self, source: &str) -> (listing: Vec<Chapter>)
        requires
            self.wf(),
        ensures
            listing_sorted(views(listing@)),
            listing_strict(views(listing@)),
            views(listing@).to_multiset() == self.records().filter(
                of_source(source@),
            ).to_multiset(),
    {
        let mut listing: Vec<Chapter> = Vec::new();
        let mut i: usize = 0;
        proof {
            assert(self.records().take(0) =~= Seq::<ChapterView>::empty());
            assert(views(listing@) =~= Seq::<ChapterView>::empty());
            assert(Seq::<ChapterView>::empty().filter(of_source(source@)) =~= Seq::<
                ChapterView,
            >::empty()) by {
                reveal(Seq::filter);
            }
        }
        while i < self.records.len()
            invariant
                i <= self.records@.len(),
                self.wf(),
                listing_sorted(views(listing@)),
                keys_unique(views(listing@)),
                forall|a: int|
                    0 <= a < listing@.len() ==> (#[trigger] views(listing@)[a]).manga == source@
                        && self.records().take(i as int).contains(views(listing@)[a]),
                views(listing@).to_multiset() == self.records().take(i as int).filter(
                    of_source(source@),
                ).to_multiset(),
            decreases self.records@.len() - i,
        {
            proof {
                let seen = self.records().take(i as int);
                let next = self.records()[i as int];
                assert(self.records().take(i + 1) =~= seen.push(next));
                seen.lemma_filter_push(next, of_source(source@));
            }
            let ghost before = views(listing@);
            if str_eq(self.records[i].manga.as_str(), source) {
                let at = place(&mut listing, self.records[i].clone());
                proof {
                    vstd::seq_lib::to_multiset_build(
                        self.records().take(i as int).filter(of_source(source@)),
                        self.records()[i as int],
                    );
                    lemma_insert_keeps_keys_unique(self.records(), i as int, before, at as int);
                }
            }
            proof {
                let after = views(listing@);
                assert forall|a: int| 0 <= a < after.len() implies self.records().take(
                    i + 1,
                ).contains(#[trigger] after[a]) by {
                    let k = if after.len() == before.len() || !(after[a] == self.records()[i as int]) {
                        let k = choose|k: int|
                            0 <= k < i && self.records().take(i as int)[k] == after[a];
                        k
                    } else {
                        i as int
                    };
                    assert(self.records().take(i + 1)[k] == after[a]);
                }
            }
            i += 1;
        }
        proof {
            assert(self.records().take(i as int) =~= self.records());
            let last = views(listing@);
            assert forall|a: int, b: int| 0 <= a < b < last.len() implies !(#[trigger] last[b]).lists_before(
                #[trigger] last[a],
            ) by {
                if last[b].lists_before(last[a]) {
                    lemma_lists_before_antisymmetric(last[a], last[b]);
                }
            }
        }
        listing
    }
}

/// Puts `chapter` into the sorted `listing`, behind every element that may
/// stand before it.
fn place(listing: &mut Vec<Chapter>, chapter: Chapter) -> (at: usize)
    requires
        listing_sorted(views(old(listing)@)),
    ensures
        at <= old(listing)@.len(),
        views(final(listing)@) == views(old(listing)@).insert(at as int, chapter@),
        listing_sorted(views(final(listing)@)),
        views(final(listing)@).to_multiset() == views(old(listing)@).to_multiset().insert(
            chapter@,
        ),
{
    let mut at: usize = 0;
    while at < listing.len() && listing[at].lists_before(&chapter)
        invariant
            at <= listing@.len(),
            forall|k: int| 0 <= k < at ==> (#[trigger] views(listing@)[k]).lists_before(chapter@),
        decreases listing@.len() - at,
    {
        at += 1;
    }
    let ghost before = views(listing@);
    listing.insert(at, chapter);
    proof {
        let after = views(listing@);
        assert(after =~= before.insert(at as int, chapter@));
        before.insert_ensures(at as int, chapter@);
        vstd::seq_lib::to_multiset_insert(before, at as int, chapter@);
        assert forall|i: int, j: int| 0 <= i < j < after.len() implies (#[trigger] after[i]).lists_before(
            #[trigger] after[j],
        ) by {
            if j < at {
                assert(after[i] == before[i] && after[j] == before[j]);
            } else if j == at {
                assert(after[i] == before[i]);
            } else {
                assert(after[j] == before[j - 1]);
                if i == at {
                    lemma_lists_before_total(before[at as int], chapter@);
                    if j - 1 > at {
                        assert(before[at as int].lists_before(before[j - 1]));
                        lemma_lists_before_transitive(chapter@, before[at as int], before[j - 1]);
                    }
                } else if i < at {
                    assert(after[i] == before[i]);
                } else {
                    assert(after[i] == before[i - 1]);
                }
            }
        }
    }
    at
}

/// Putting record `i` of a store among earlier records of its source
/// keeps the keys apart, and every element is of that source still.
proof fn lemma_insert_keeps_keys_unique(
    records: Seq<ChapterView>,
    i: int,
    listing: Seq<ChapterView>,
    at: int,
)
    requires
        keys_unique(records),
        0 <= i < records.len(),
        0 <= at <= listing.len(),
        keys_unique(listing),
        forall|a: int|
            0 <= a < listing.len() ==> (#[trigger] listing[a]).manga == records[i].manga
                && records.take(i).contains(listing[a]),
    ensures
        keys_unique(listing.insert(at, records[i])),
        forall|a: int|
            0 <= a < listing.len() + 1 ==> (#[trigger] listing.insert(at, records[i])[a]).manga
                == records[i].manga && (listing.insert(at, records[i])[a] == records[i]
                || records.take(i).contains(listing.insert(at, records[i])[a])),
{
    let grown = listing.insert(at, records[i]);
    listing.insert_ensures(at, records[i]);
    assert forall|a: int| 0 <= a < grown.len() implies (#[trigger] grown[a]).manga
        == records[i].manga && (grown[a] == records[i] || records.take(i).contains(grown[a])) by {
        if a < at {
            assert(grown[a] == listing[a]);
        } else if a > at {
            assert(grown[a] == listing[a - 1]);
        }
    }
    assert forall|a: int, b: int| 0 <= a < b < grown.len() implies !((#[trigger] grown[a]).manga == (
    #[trigger] grown[b]).manga && grown[a].title == grown[b].title) by {
        let pa = if a < at { a } else { a - 1 };
        let pb = if b < at { b } else { b - 1 };
        if a != at && b != at {
            assert(grown[a] == listing[pa] && grown[b] == listing[pb]);
        } else {
            let other = if a == at { listing[pb] } else { listing[pa] };
            assert(other == if a == at { grown[b] } else { grown[a] });
            assert(records.take(i).contains(other));
            let k = choose|k: int| 0 <= k < i && records.take(i)[k] == other;
            assert(records[k] == other);
            assert(!(records[k].manga == records[i].manga && records[k].title
                == records[i].title));
        }
    }
}

/// The canonical order leaves no choice: two listings of the same records,
/// both in strict canonical order, are the same listing.
pub proof fn lemma_listing_determined(a: Seq<ChapterView>, b: Seq<ChapterView>)
    requires
        listing_sorted(a),
        listing_strict(a),
        listing_sorted(b),
        listing_strict(b),
        a.to_multiset() == b.to_multiset(),
    ensures
        a == b,
    decreases a.len(),
{
    vstd::seq_lib::to_multiset_len(a);
    vstd::seq_lib::to_multiset_len(b);
    if a.len() == 0 {
        assert(a =~= b);
    } else {
        vstd::seq_lib::to_multiset_contains(a, a[0]);
        vstd::seq_lib::to_multiset_contains(b, a[0]);
        vstd::seq_lib::to_multiset_contains(a, b[0]);
        vstd::seq_lib::to_multiset_contains(b, b[0]);
        assert(a.contains(a[0]));
        assert(b.contains(b[0]));
        let k = choose|k: int| 0 <= k < b.len() && b[k] == a[0];
        let m = choose|m: int| 0 <= m < a.len() && a[m] == b[0];
        if k > 0 && m > 0 {
            assert(a[0].lists_before(a[m]));
            assert(!b[k].lists_before(b[0]));
        }
        assert(a[0] == b[0]);
        let rest_a = a.drop_first();
        let rest_b = b.drop_first();
        assert(a.remove(0) =~= rest_a);
        assert(b.remove(0) =~= rest_b);
        vstd::seq_lib::to_multiset_remove(a, 0);
        vstd::seq_lib::to_multiset_remove(b, 0);
        assert forall|i: int, j: int| 0 <= i < j < rest_a.len() implies (#[trigger] rest_a[i]).lists_before(
            #[trigger] rest_a[j],
        ) && !rest_a[j].lists_before(rest_a[i]) by {
            assert(rest_a[i] == a[i + 1] && rest_a[j] == a[j + 1]);
        }
        assert forall|i: int, j: int| 0 <= i < j < rest_b.len() implies (#[trigger] rest_b[i]).lists_before(
            #[trigger] rest_b[j],
        ) && !rest_b[j].lists_before(rest_b[i]) by {
            assert(rest_b[i] == b[i + 1] && rest_b[j] == b[j + 1]);
        }
        lemma_listing_determined(rest_a, rest_b);
        assert(a =~= seq![a[0]] + rest_a);
        assert(b =~= seq![b[0]] + rest_b);
    }
}

/// In a well-formed store no two records share `(source, title)`.
pub proof fn lemma_keys_distinct(store: Store, i: int, j: int)
    requires
        store.wf(),
        0 <= i < store.records().len(),
        0 <= j < store.records().len(),
        i != j,
    ensures
        store.records()[i].manga != store.records()[j].manga || store.records()[i].title
            != store.records()[j].title,
{
    if i < j {
        assert(!(store.records()[i].manga == store.records()[j].manga && store.records()[i].title
            == store.records()[j].title));
    } else {
        assert(!(store.records()[j].manga == store.records()[i].manga && store.records()[j].title
            == store.records()[i].title));
    }
}

/// Offering items leaves every record that was present where it was and
/// as it was: the old records are the first of the new ones.
pub proof fn lemma_persisted_keeps_records(
    records: Seq<ChapterView>,
    next_id: nat,
    items: Seq<ChapterView>,
)
    ensures
        persisted(records, next_id, items).len() >= records.len(),
        persisted(records, next_id, items).take(records.len() as int) == records,
    decreases items.len(),
{
    if items.len() == 0 {
        assert(records.take(records.len() as int) =~= records);
    } else if has_key(records, items[0].manga, items[0].title) {
        lemma_persisted_keeps_records(records, next_id, items.drop_first());
    } else {
        let grown = records.push(items[0].with_id(next_id as usize));
        lemma_persisted_keeps_records(grown, next_id + 1, items.drop_first());
        let all = persisted(grown, next_id + 1, items.drop_first());
        assert(all.take(records.len() as int) =~= all.take(grown.len() as int).take(
            records.len() as int,
        ));
        assert(grown.take(records.len() as int) =~= records);
    }
}

/// Offering items to records with distinct keys gives records with
/// distinct keys, whatever the items are.
pub proof fn lemma_persisted_keys_unique(
    records: Seq<ChapterView>,
    next_id: nat,
    items: Seq<ChapterView>,
)
    requires
        keys_unique(records),
    ensures
        keys_unique(persisted(records, next_id, items)),
    decreases items.len(),
{
    if items.len() > 0 {
        if has_key(records, items[0].manga, items[0].title) {
            lemma_persisted_keys_unique(records, next_id, items.drop_first());
        } else {
            let grown = records.push(items[0].with_id(next_id as usize));
            assert forall|i: int, j: int| 0 <= i < j < grown.len() implies !((
            #[trigger] grown[i]).manga == (#[trigger] grown[j]).manga && grown[i].title
                == grown[j].title) by {
                if j == records.len() {
                    assert(records[i].manga == grown[i].manga);
                } else {
                    assert(records[i] == grown[i] && records[j] == grown[j]);
                }
            }
            lemma_persisted_keys_unique(grown, next_id + 1, items.drop_first());
        }
    }
}

/// Offering items never removes a key.
pub proof fn lemma_persisted_keeps_keys(
    records: Seq<ChapterView>,
    next_id: nat,
    items: Seq<ChapterView>,
    source: Seq<char>,
    title: Seq<char>,
)
    requires
        has_key(records, source, title),
    ensures
        has_key(persisted(records, next_id, items), source, title),
    decreases items.len(),
{
    if items.len() > 0 {
        if has_key(records, items[0].manga, items[0].title) {
            lemma_persisted_keeps_keys(records, next_id, items.drop_first(), source, title);
        } else {
            let grown = records.push(items[0].with_id(next_id as usize));
            let k = choose|k: int|
                0 <= k < records.len() && (#[trigger] records[k]).manga == source
                    && records[k].title == title;
            assert(grown[k].manga == source && grown[k].title == title);
            lemma_persisted_keeps_keys(grown, next_id + 1, items.drop_first(), source, title);
        }
    }
}

/// After items were offered, the key of each of them is present.
pub proof fn lemma_persisted_covers_items(
    records: Seq<ChapterView>,
    next_id: nat,
    items: Seq<ChapterView>,
    j: int,
)
    requires
        0 <= j < items.len(),
    ensures
        has_key(persisted(records, next_id, items), items[j].manga, items[j].title),
    decreases items.len(),
{
    let rest = items.drop_first();
    if has_key(records, items[0].manga, items[0].title) {
        if j == 0 {
            lemma_persisted_keeps_keys(records, next_id, rest, items[0].manga, items[0].title);
        } else {
            lemma_persisted_covers_items(records, next_id, rest, j - 1);
        }
    } else {
        let grown = records.push(items[0].with_id(next_id as usize));
        if j == 0 {
            assert(grown[records.len() as int].manga == items[0].manga);
            lemma_persisted_keeps_keys(grown, next_id + 1, rest, items[0].manga, items[0].title);
        } else {
            lemma_persisted_covers_items(grown, next_id + 1, rest, j - 1);
        }
    }
}

/// Offering items whose keys are all present changes nothing.
pub proof fn lemma_persisted_known_items(
    records: Seq<ChapterView>,
    next_id: nat,
    items: Seq<ChapterView>,
)
    requires
        forall|j: int|
            0 <= j < items.len() ==> has_key(
                records,
                (#[trigger] items[j]).manga,
                items[j].title,
            ),
    ensures
        persisted(records, next_id, items) == records,
    decreases items.len(),
{
    if items.len() > 0 {
        let rest = items.drop_first();
        assert(has_key(records, items[0].manga, items[0].title));
        assert forall|j: int| 0 <= j < rest.len() implies has_key(
            records,
            (#[trigger] rest[j]).manga,
            rest[j].title,
        ) by {
            assert(rest[j] == items[j + 1]);
        }
        lemma_persisted_known_items(records, next_id, rest);
    }
}

/// Offering the same items a second time inserts nothing: the records
/// after the second pass are those after the first, whatever identifier
/// the second pass would have assigned.
pub proof fn lemma_persist_idempotent(
    records: Seq<ChapterView>,
    next_id: nat,
    items: Seq<ChapterView>,
    later_id: nat,
)
    ensures
        persisted(persisted(records, next_id, items), later_id, items) == persisted(
            records,
            next_id,
            items,
        ),
{
    let once = persisted(records, next_id, items);
    assert forall|j: int| 0 <= j < items.len() implies has_key(
        once,
        (#[trigger] items[j]).manga,
        items[j].title,
    ) by {
        lemma_persisted_covers_items(records, next_id, items, j);
    }
    lemma_persisted_known_items(once, later_id, items);
}

} // verus!
