use rsstygen::extract::{chapters_from_script, Field, ScriptItem, ScriptValue};
use rsstygen::feed::{
    dated_item, feed_document, feed_item, materialize, render, FeedChannel, FeedError, FeedItem,
};
use rsstygen::job::{AttemptOutcome, JobState, SourceJob};
use rsstygen::source::Instruction;
use rsstygen::store::{Chapter, Store};
use rsstygen::time::Timestamp;

fn at(secs: i64) -> Timestamp {
    Timestamp { secs, nanos: 0, offset: 0 }
}

fn record(id: usize, title: &str, date: Option<i64>, seen: Option<i64>) -> Chapter {
    Chapter {
        id: Some(id),
        manga: String::from("Foo"),
        title: String::from(title),
        url: format!("http://x/{}", id),
        date: date.map(at),
        created_at: seen.map(at),
        updated_at: seen.map(at),
    }
}

fn foo() -> Instruction {
    Instruction {
        title: String::from("Foo"),
        url: String::from("http://x"),
        list_node: String::from("ul"),
        js_script: String::from("return chapters()"),
    }
}

#[test]
fn feed_item_uses_publication_date_when_present() {
    assert_eq!(
        feed_item(&record(12, "Ch2", Some(1714521600), Some(0))),
        Ok(FeedItem {
            title: String::from("Ch2"),
            link: String::from("http://x/12"),
            pub_date: String::from("Wed, 1 May 2024 00:00:00 +0000"),
            guid: String::from("12"),
            guid_is_permalink: false,
        })
    );
}

#[test]
fn feed_item_falls_back_to_first_seen_time() {
    let item = feed_item(&record(3, "Ch1", None, Some(1704153600))).unwrap();
    assert_eq!(item.pub_date, "Tue, 2 Jan 2024 00:00:00 +0000");
    assert_eq!(item.guid, "3");
}

#[test]
fn feed_item_errors() {
    assert_eq!(feed_item(&record(1, "Ch1", None, None)), Err(FeedError::MissingDate));
    assert_eq!(
        feed_item(&record(1, "Ch1", Some(i64::MAX), Some(0))),
        Err(FeedError::UnrenderableDate)
    );
    let mut unnumbered = record(1, "Ch1", Some(0), Some(0));
    unnumbered.id = None;
    assert_eq!(feed_item(&unnumbered), Err(FeedError::MissingId));
    unnumbered.date = None;
    unnumbered.created_at = None;
    assert_eq!(feed_item(&unnumbered), Err(FeedError::MissingDate));
}

#[test]
fn materialize_keeps_the_listing_order() {
    let listing = vec![record(2, "Ch2", Some(1714521600), Some(0)), record(1, "Ch1", None, Some(0))];
    let channel = materialize("Foo", "http://x", &listing).unwrap();
    assert_eq!(channel.title, "Foo");
    assert_eq!(channel.link, "http://x");
    assert_eq!(channel.description, "Foo chapters automatically generated by crawling.");
    assert_eq!(channel.items.len(), 2);
    assert_eq!(channel.items[0].title, "Ch2");
    assert_eq!(channel.items[0].guid, "2");
    assert_eq!(channel.items[1].title, "Ch1");
    assert_eq!(channel.items[1].pub_date, "Thu, 1 Jan 1970 00:00:00 +0000");
}

#[test]
fn materialize_of_nothing_is_an_empty_channel() {
    let channel = materialize("Foo", "http://x", &vec![]).unwrap();
    assert!(channel.items.is_empty());
}

#[test]
fn one_record_without_dates_fails_the_feed() {
    let listing = vec![
        record(1, "Ch1", None, Some(0)),
        record(2, "Ch2", None, None),
        record(3, "Ch3", Some(i64::MAX), None),
    ];
    assert_eq!(materialize("Foo", "http://x", &listing), Err(FeedError::MissingDate));
    assert_eq!(feed_document(&foo(), &listing), Err(FeedError::MissingDate));
}

#[test]
fn the_first_failing_record_names_the_error() {
    let listing = vec![record(3, "Ch3", Some(i64::MAX), None), record(2, "Ch2", None, None)];
    assert_eq!(materialize("Foo", "http://x", &listing), Err(FeedError::UnrenderableDate));
}

#[test]
fn render_writes_channel_and_items() {
    let channel = FeedChannel {
        title: String::from("Foo"),
        link: String::from("http://x"),
        description: String::from("about Foo"),
        items: vec![FeedItem {
            title: String::from("Ch1 & more"),
            link: String::from("http://x/1"),
            pub_date: String::from("Wed, 1 May 2024 00:00:00 +0000"),
            guid: String::from("41"),
            guid_is_permalink: false,
        }],
    };
    let document = render(&channel);
    assert!(document.contains("<rss"));
    assert!(document.contains("<title>Foo</title>"));
    assert!(document.contains("<link>http://x</link>"));
    assert!(document.contains("<description>about Foo</description>"));
    assert!(document.contains("<title>Ch1 &amp; more</title>"));
    assert!(document.contains("<link>http://x/1</link>"));
    assert!(document.contains("<guid isPermaLink=\"false\">41</guid>"));
    assert!(document.contains("<pubDate>Wed, 1 May 2024 00:00:00 +0000</pubDate>"));
}

#[test]
fn render_of_an_empty_channel_has_no_item() {
    let channel = FeedChannel {
        title: String::from("Foo"),
        link: String::from("http://x"),
        description: String::from("d"),
        items: vec![],
    };
    let document = render(&channel);
    assert!(document.contains("<title>Foo</title>"));
    assert!(!document.contains("<item>"));
}

fn script_result() -> ScriptValue {
    ScriptValue::Array(vec![
        ScriptItem {
            title: Field::Text(String::from("Ch1")),
            url: Field::Text(String::from("http://x/1")),
            date: Field::Missing,
        },
        ScriptItem {
            title: Field::Text(String::from("Ch2")),
            url: Field::Text(String::from("http://x/2")),
            date: Field::Text(String::from("2024-05-01T00:00:00Z")),
        },
    ])
}

fn run(store: &mut Store, source: &Instruction, now: Timestamp) -> usize {
    let mut job = SourceJob::new();
    let outcome = match chapters_from_script(&script_result(), &source.title, now) {
        Ok(chapters) => AttemptOutcome::Extracted(chapters),
        Err(e) => AttemptOutcome::Failed(e),
    };
    let inserted = job.settle(store, &outcome);
    assert_eq!(job.state, JobState::Success);
    inserted
}

#[test]
fn end_to_end_two_runs_with_the_clock_before_the_explicit_date() {
    let source = foo();
    let mut store = Store::new();
    let first_run = at(1714521600 - 86_400);
    assert_eq!(run(&mut store, &source, first_run), 2);
    let listing = store.list_by_source("Foo");
    assert_eq!(listing.len(), 2);
    assert_eq!(listing[0].title, "Ch2");
    assert_eq!(listing[1].title, "Ch1");
    let document = feed_document(&source, &listing).unwrap();
    assert_eq!(document.matches("<item>").count(), 2);
    let ch2 = document.find("<title>Ch2</title>").unwrap();
    let ch1 = document.find("<title>Ch1</title>").unwrap();
    assert!(ch2 < ch1);
    assert!(document.contains("<pubDate>Wed, 1 May 2024 00:00:00 +0000</pubDate>"));
    assert!(document.contains("<pubDate>Tue, 30 Apr 2024 00:00:00 +0000</pubDate>"));
    assert!(document.contains("<guid isPermaLink=\"false\">1</guid>"));
    assert!(document.contains("<guid isPermaLink=\"false\">2</guid>"));
    assert!(document.contains("<description>Foo chapters automatically generated by crawling.</description>"));

    assert_eq!(run(&mut store, &source, at(1714521600 + 86_400)), 0);
    assert_eq!(store.len(), 2);
    assert_eq!(store.get(0).unwrap().created_at, Some(first_run));
    assert_eq!(feed_document(&source, &store.list_by_source("Foo")).unwrap(), document);
}

#[test]
fn end_to_end_with_the_clock_after_the_explicit_date() {
    let source = foo();
    let mut store = Store::new();
    assert_eq!(run(&mut store, &source, at(1714521600 + 1)), 2);
    let listing = store.list_by_source("Foo");
    assert_eq!(listing[0].title, "Ch1");
    assert_eq!(listing[1].title, "Ch2");
}

#[test]
fn end_to_end_with_the_clock_at_the_explicit_date() {
    let source = foo();
    let mut store = Store::new();
    assert_eq!(run(&mut store, &source, at(1714521600)), 2);
    let listing = store.list_by_source("Foo");
    assert_eq!(listing[0].title, "Ch2");
    assert_eq!(listing[1].title, "Ch1");
}

#[test]
fn dated_item_takes_the_rendered_date_as_given() {
    let chapter = record(40, "Ch40", None, None);
    assert_eq!(
        dated_item(&chapter, Some(String::from("some day"))),
        Ok(FeedItem {
            title: String::from("Ch40"),
            link: String::from("http://x/40"),
            pub_date: String::from("some day"),
            guid: String::from("40"),
            guid_is_permalink: false,
        })
    );
    assert_eq!(dated_item(&chapter, None), Err(FeedError::UnrenderableDate));
    let mut unnumbered = record(1, "Ch1", None, None);
    unnumbered.id = None;
    assert_eq!(dated_item(&unnumbered, Some(String::from("d"))), Err(FeedError::MissingId));
    assert_eq!(dated_item(&unnumbered, None), Err(FeedError::UnrenderableDate));
}
