use readtomyshoe::{
    is_listed_file_name, metadata_from_tags, new_article_metadata, recorded_time_of,
    sort_newest_first, unix_time_of, ArticleMetadata, ArticleTextSubmission, MetadataCache,
    RecordedTime, TagFields,
};

fn meta(id: &str, added: Option<u64>) -> ArticleMetadata {
    ArticleMetadata {
        id: id.to_string(),
        title: id.to_string(),
        duration: None,
        datetime_added: added,
        source_url: None,
    }
}

#[test]
fn only_mp3_files_are_listed() {
    assert!(is_listed_file_name("story-abc.mp3"));
    assert!(!is_listed_file_name("story-abc.mp3.tmp"));
    assert!(!is_listed_file_name("notes.txt"));
    assert!(!is_listed_file_name(".mp3"));
}

#[test]
fn catalog_is_sorted_newest_first_with_unknown_times_last() {
    let sorted = sort_newest_first(vec![
        meta("a", Some(5)),
        meta("b", None),
        meta("c", Some(9)),
        meta("d", Some(5)),
        meta("e", Some(1)),
    ]);
    let ids: Vec<&str> = sorted.iter().map(|m| m.id.as_str()).collect();
    assert_eq!(ids, vec!["c", "a", "d", "e", "b"]);
}

#[test]
fn tags_override_file_defaults() {
    let tags = TagFields {
        title: Some("A Title".to_string()),
        artist: Some("https://example.com/a".to_string()),
        duration_secs: Some(61),
        recorded: Some(RecordedTime { year: 2000, month: 2, day: 29, hour: 12, minute: 34, second: 56 }),
    };
    let m = metadata_from_tags("a-id".to_string(), Some(7), Some(tags));
    assert_eq!(m.id, "a-id");
    assert_eq!(m.title, "A Title");
    assert_eq!(m.source_url.as_deref(), Some("https://example.com/a"));
    assert_eq!(m.duration, Some(61));
    assert_eq!(m.datetime_added, Some(951_827_696));
}

#[test]
fn missing_tags_fall_back_to_file_data() {
    let m = metadata_from_tags("x-id".to_string(), Some(7), None);
    assert_eq!(m.title, "x-id");
    assert_eq!(m.datetime_added, Some(7));
    assert!(m.source_url.is_none() && m.duration.is_none());

    let bad_date = TagFields {
        title: None,
        artist: None,
        duration_secs: None,
        recorded: Some(RecordedTime { year: 2001, month: 2, day: 29, hour: 0, minute: 0, second: 0 }),
    };
    let m = metadata_from_tags("y-id".to_string(), Some(8), Some(bad_date));
    assert_eq!(m.title, "y-id");
    assert_eq!(m.datetime_added, Some(8));
}

#[test]
fn unix_times_convert_both_ways() {
    let epoch = recorded_time_of(0).unwrap();
    assert_eq!(epoch, RecordedTime { year: 1970, month: 1, day: 1, hour: 0, minute: 0, second: 0 });
    let t = recorded_time_of(951_827_696).unwrap();
    assert_eq!(t, RecordedTime { year: 2000, month: 2, day: 29, hour: 12, minute: 34, second: 56 });
    assert_eq!(unix_time_of(&t), Some(951_827_696));
    let before_epoch = RecordedTime { year: 1969, month: 12, day: 31, hour: 23, minute: 59, second: 59 };
    assert_eq!(unix_time_of(&before_epoch), None);
    let no_month = RecordedTime { year: 2020, month: 0, day: 1, hour: 0, minute: 0, second: 0 };
    assert_eq!(unix_time_of(&no_month), None);
}

#[test]
fn new_metadata_truncates_long_titles() {
    let title = "t".repeat(400);
    let m = new_article_metadata("id".to_string(), &title, Some(3), 42, Some("u".to_string()));
    assert_eq!(m.title.len(), 300);
    assert_eq!(m.datetime_added, Some(42));
    assert_eq!(m.duration, Some(3));
    assert_eq!(m.source_url.as_deref(), Some("u"));
}

#[test]
fn cache_returns_what_was_inserted() {
    let mut cache = MetadataCache::new();
    assert!(cache.get("audio/a.mp3").is_none());
    cache.insert("audio/a.mp3".to_string(), meta("a", Some(1)));
    cache.insert("audio/b.mp3".to_string(), meta("b", Some(2)));
    cache.insert("audio/a.mp3".to_string(), meta("a2", Some(3)));
    assert_eq!(cache.get("audio/a.mp3").unwrap().id, "a2");
    assert_eq!(cache.get("audio/b.mp3").unwrap().datetime_added, Some(2));
}

#[test]
fn spoken_text_starts_with_the_title() {
    let s = ArticleTextSubmission { title: "Title".to_string(), body: "Body text.".to_string() };
    assert_eq!(s.serialize(), "Title. Body text.");
}
