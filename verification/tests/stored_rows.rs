use feed_engine::auth::bearer_token;
use feed_engine::rows::{append_hashtags, hashtag_filter, hashtags_of_rows, video_of_row};

fn strings(items: &[&str]) -> Vec<String> {
    items.iter().map(|t| t.to_string()).collect()
}

#[test]
fn hashtags_of_rows_joins_the_lists_in_the_order_of_the_rows() {
    let rows = strings(&["[\"cats\",\"dogs\"]", "[\"birds\"]", "[\"cats\"]"]);
    assert_eq!(hashtags_of_rows(&rows), strings(&["cats", "dogs", "birds", "cats"]));
}

#[test]
fn hashtags_of_rows_passes_over_what_is_no_list_of_strings() {
    let rows = strings(&["[\"a\"]", "not json", "{\"a\": 1}", "[1, 2]", "", "[\"b\", \"c\"]", "\"d\""]);
    assert_eq!(hashtags_of_rows(&rows), strings(&["a", "b", "c"]));
}

#[test]
fn hashtags_of_rows_takes_empty_lists_and_escapes() {
    let rows = strings(&["[]", " [ \"a b\" , \"q\\\"uote\" ] ", "[\"\\u00e9\"]"]);
    assert_eq!(hashtags_of_rows(&rows), strings(&["a b", "q\"uote", "é"]));
}

#[test]
fn hashtags_of_no_rows_are_none() {
    assert!(hashtags_of_rows(&Vec::new()).is_empty());
}

#[test]
fn append_hashtags_puts_the_list_behind() {
    let mut hashtags = strings(&["a", "b"]);
    append_hashtags(&mut hashtags, &strings(&["c", "a"]));
    assert_eq!(hashtags, strings(&["a", "b", "c", "a"]));
    append_hashtags(&mut hashtags, &Vec::new());
    assert_eq!(hashtags, strings(&["a", "b", "c", "a"]));
}

#[test]
fn hashtag_filter_is_the_json_list_of_the_one_hashtag() {
    assert_eq!(hashtag_filter(&"cats".to_string()), "[\"cats\"]");
    assert_eq!(hashtag_filter(&"/".to_string()), "[\"/\"]");
}

#[test]
fn hashtag_filter_escapes_the_hashtag() {
    assert_eq!(hashtag_filter(&"a\"b\\c".to_string()), "[\"a\\\"b\\\\c\"]");
    assert_eq!(hashtag_filter(&"".to_string()), "[\"\"]");
}

#[test]
fn hashtag_filter_reads_back_as_the_hashtag() {
    let json = hashtag_filter(&"tab\there".to_string());
    assert_eq!(hashtags_of_rows(&vec![json]), strings(&["tab\there"]));
}

#[test]
fn video_of_row_writes_the_identifiers_in_hyphenated_hex() {
    let uuid = [
        0xa1, 0xa2, 0xa3, 0xa4, 0xb1, 0xb2, 0xc1, 0xc2, 0xd1, 0xd2, 0xd3, 0xd4, 0xd5, 0xd6, 0xd7, 0xd8,
    ];
    let user = [0x00, 0x01, 0x02, 0x03, 0x04, 0x05, 0x06, 0x07, 0x08, 0x09, 0x0a, 0x0b, 0x0c, 0x0d, 0x0e, 0xff];
    let video = video_of_row(&uuid, &user, 5, 1, 100, 7, 3600).unwrap();
    assert_eq!(video.uuid, "a1a2a3a4-b1b2-c1c2-d1d2-d3d4d5d6d7d8");
    assert_eq!(video.user_id, "00010203-0405-0607-0809-0a0b0c0d0eff");
    assert_eq!(video.upvotes, 5);
    assert_eq!(video.downvotes, 1);
    assert_eq!(video.views, 100);
    assert_eq!(video.comments, 7);
    assert_eq!(video.viewtime_seconds, 3600);
    assert_eq!(video.score, 0);
}

#[test]
fn video_of_row_refuses_identifiers_of_another_length() {
    let good = [7u8; 16];
    assert!(video_of_row(&[1u8; 15], &good, 0, 0, 0, 0, 0).is_none());
    assert!(video_of_row(&good, &[1u8; 17], 0, 0, 0, 0, 0).is_none());
    assert!(video_of_row(&[], &good, 0, 0, 0, 0, 0).is_none());
    assert!(video_of_row(&good, &good, 0, 0, 0, 0, 0).is_some());
}

#[test]
fn bearer_token_is_what_follows_the_prefix() {
    assert_eq!(bearer_token("Bearer abc.def.ghi"), Some("abc.def.ghi".to_string()));
    assert_eq!(bearer_token("Bearer "), Some("".to_string()));
    assert_eq!(bearer_token("Bearer  two spaces"), Some(" two spaces".to_string()));
    assert_eq!(bearer_token("Bearer é"), Some("é".to_string()));
}

#[test]
fn bearer_token_refuses_other_headers() {
    assert_eq!(bearer_token("bearer abc"), None);
    assert_eq!(bearer_token("Bearer"), None);
    assert_eq!(bearer_token("Basic abc"), None);
    assert_eq!(bearer_token(""), None);
    assert_eq!(bearer_token(" Bearer abc"), None);
    assert_eq!(bearer_token("Bearerabc defg"), None);
}
