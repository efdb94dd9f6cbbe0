use acsim::clock::{seconds_from_reading, since_epoch};
use acsim::media::{file_type_from_description, BoardMessageType, FileType};
use acsim::query::{decimal, QueryOptions};
use acsim::text::{contains_any_word, contains_banned_words};

#[test]
fn neighbour_pages_of_a_middle_page() {
    let q = QueryOptions { page: Some(3), search_string: Some("cats".to_string()) };
    let (prev, next) = q.get_neighbour_pages();
    assert_eq!(prev.page, Some(2));
    assert_eq!(next.page, Some(4));
    assert_eq!(prev.search_string.as_deref(), Some("cats"));
    assert_eq!(next.search_string.as_deref(), Some("cats"));
}

#[test]
fn neighbour_pages_without_a_page() {
    let q = QueryOptions { page: None, search_string: None };
    let (prev, next) = q.get_neighbour_pages();
    assert_eq!((prev.page, next.page), (Some(0), Some(2)));
    let q = QueryOptions { page: Some(-5), search_string: None };
    let (prev, next) = q.get_neighbour_pages();
    assert_eq!((prev.page, next.page), (Some(0), Some(2)));
    let q = QueryOptions { page: Some(i64::MAX), search_string: None };
    let (prev, next) = q.get_neighbour_pages();
    assert_eq!((prev.page, next.page), (Some(i64::MAX - 1), Some(i64::MAX)));
}

#[test]
fn query_string_text() {
    let q = QueryOptions { page: Some(12), search_string: Some("cats".to_string()) };
    assert_eq!(q.to_query_string(), "?page=12&search_string=cats&");
    let q = QueryOptions { page: None, search_string: None };
    assert_eq!(q.to_query_string(), "?");
    let q = QueryOptions { page: Some(-3), search_string: None };
    assert_eq!(q.to_query_string(), "?page=-3&");
}

#[test]
fn decimal_text() {
    assert_eq!(decimal(0), "0");
    assert_eq!(decimal(7), "7");
    assert_eq!(decimal(1050), "1050");
    assert_eq!(decimal(-42), "-42");
    assert_eq!(decimal(i64::MIN), i64::MIN.to_string());
    assert_eq!(decimal(i64::MAX), i64::MAX.to_string());
}

#[test]
fn clock_is_after_the_epoch() {
    assert!(since_epoch() > 1_600_000_000);
}

#[test]
fn clock_reading_conversion() {
    assert_eq!(seconds_from_reading(Some(1234)), 1234);
    assert_eq!(seconds_from_reading(None), 1);
    assert_eq!(seconds_from_reading(Some(u64::MAX)), i64::MAX);
}

#[test]
fn file_types_from_descriptions() {
    assert_eq!(file_type_from_description("PNG image data, 10 x 10", true), FileType::Image);
    assert_eq!(file_type_from_description("ISO Media, MP4 Base Media v1", true), FileType::Video);
    assert_eq!(file_type_from_description("WebM", true), FileType::Video);
    assert_eq!(file_type_from_description("ASCII text", true), FileType::Invalid);
    assert_eq!(file_type_from_description("PNG image data", false), FileType::Invalid);
    assert!(FileType::Invalid.not());
    assert!(!FileType::Image.not());
}

#[test]
fn topic_page_message_types() {
    assert!(BoardMessageType::ParentMessage.on_topic_page());
    assert!(BoardMessageType::Submessage.on_topic_page());
    assert!(!BoardMessageType::Message.on_topic_page());
    assert!(!BoardMessageType::CatalogMessage.on_topic_page());
}

#[test]
fn banned_words_are_matched_in_lower_case() {
    let banlist = vec!["spam".to_string(), "scam".to_string()];
    assert!(contains_banned_words("Buy SPAM now", &banlist));
    assert!(contains_banned_words("a scam", &banlist));
    assert!(!contains_banned_words("all good", &banlist));
    assert!(!contains_banned_words("anything", &Vec::new()));
    assert!(!contains_any_word("Buy SPAM now", &banlist));
    assert!(contains_any_word("buy spam now", &banlist));
}
