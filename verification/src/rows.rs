//! What the stored rows hold, turned into the values of a selection pass:
//! identifiers from their sixteen bytes, and hashtag lists from and to
//! their JSON text.

use crate::model::Video;
use crate::text::texts;
use vstd::prelude::*;

verus! {

/// The list of strings that a JSON text holds, if it is the text of such a
/// list: what `serde_json::from_str` reads from it.
pub uninterp spec fn json_string_list(text: Seq<char>) -> Option<Seq<Seq<char>>>;

/// The JSON text of a list of strings: what `serde_json::to_string` writes
/// for it.
pub uninterp spec fn string_list_json(list: Seq<Seq<char>>) -> Seq<char>;

/// The view of a list that may be missing.
pub open spec fn list_view(list: Option<Vec<String>>) -> Option<Seq<Seq<char>>> {
    match list {
        Some(strings) => Some(texts(strings@)),
        None => None,
    }
}

/// `serde_json::from_str`, asked for a list of strings: the list that
/// `text` holds, or `None` where `text` is not the JSON text of such a list.
/// The outcome depends on `text` alone.
#[verifier::external_body]
fn read_string_list(text: &String) -> (list: Option<Vec<String>>)
    ensures
        list_view(list) == json_string_list(text@),
{
    serde_json::from_str::<Vec<String>>(text).ok()
}

/// `serde_json::to_string` for a list of strings: its JSON text. It fails
/// only for values whose own serialisation fails or that hold a map with
/// keys that are no strings; a list of strings is neither, so a text is
/// promised. The outcome depends on the list alone.
#[verifier::external_body]
fn write_string_list(list: &Vec<String>) -> (json: Option<String>)
    ensures
        json.is_some(),
        json.unwrap()@ == string_list_json(texts(list@)),
{
    serde_json::to_string(list).ok()
}

/// The lower-case hexadecimal digit of a number below sixteen.
pub open spec fn hex_digit(nibble: int) -> char {
    seq!['0', '1', '2', '3', '4', '5', '6', '7', '8', '9', 'a', 'b', 'c', 'd', 'e', 'f'][nibble]
}

/// Sixteen bytes written as an identifier: thirty-two lower-case
/// hexadecimal digits, the bytes in their order, in groups of eight, four,
/// four, four and twelve digits with a hyphen between two groups.
pub open spec fn identifier_text(bytes: Seq<u8>) -> Seq<char> {
    Seq::new(
        36,
        |i: int|
            if i == 8 || i == 13 || i == 18 || i == 23 {
                '-'
            } else {
                let digit = i - if i > 23 {
                    4int
                } else if i > 18 {
                    3int
                } else if i > 13 {
                    2int
                } else if i > 8 {
                    1int
                } else {
                    0int
                };
                if digit % 2 == 0 {
                    hex_digit(bytes[digit / 2] as int / 16)
                } else {
                    hex_digit(bytes[digit / 2] as int % 16)
                }
            },
    )
}

/// `Uuid::from_slice` followed by `to_string`: the identifier that the bytes
/// stand for, written as `identifier_text` says. `from_slice` fails for any
/// number of bytes but sixteen, and for nothing else.
#[verifier::external_body]
fn write_identifier(bytes: &[u8]) -> (text: Option<String>)
    ensures
        text.is_some() == (bytes@.len() == 16),
        text.is_some() ==> text.unwrap()@ == identifier_text(bytes@),
{
    uuid::Uuid::from_slice(bytes).ok().map(|id| id.to_string())
}

/// The hashtags of all rows, in the order of the rows: each row holds the
/// JSON text of a list of hashtags, and a row that holds anything else adds
/// nothing.
pub open spec fn row_hashtags(rows: Seq<Seq<char>>) -> Seq<Seq<char>>
    decreases rows.len(),
{
    if rows.len() == 0 {
        Seq::empty()
    } else {
        row_hashtags(rows.drop_last()) + match json_string_list(rows.last()) {
            Some(list) => list,
            None => Seq::empty(),
        }
    }
}

/// Puts the hashtags of `list` behind those of `hashtags`.
pub fn append_hashtags(hashtags: &mut Vec<String>, list: &Vec<String>)
    ensures
        texts(final(hashtags)@) == texts(old(hashtags)@) + texts(list@),
{
    let mut i: usize = 0;
    while i < list.len()
        invariant
            i <= list@.len(),
            texts(hashtags@) == texts(old(hashtags)@) + texts(list@).take(i as int),
        decreases list@.len() - i,
    {
        let ghost before = texts(hashtags@);
        hashtags.push(list[i].clone());
        assert(texts(hashtags@) =~= before.push(list@[i as int]@));
        assert(texts(list@).take(i + 1) =~= texts(list@).take(i as int).push(list@[i as int]@));
        assert(texts(hashtags@) =~= texts(old(hashtags)@) + texts(list@).take(i + 1));
        i += 1;
    }
    assert(texts(list@).take(i as int) =~= texts(list@));
}

/// Reads the hashtags that a user liked from the rows that hold them: see
/// `row_hashtags`.
pub fn hashtags_of_rows(rows: &Vec<String>) -> (hashtags: Vec<String>)
    ensures
        texts(hashtags@) == row_hashtags(texts(rows@)),
{
    let mut hashtags: Vec<String> = Vec::new();
    let mut i: usize = 0;
    assert(texts(rows@).take(0) =~= Seq::<Seq<char>>::empty());
    while i < rows.len()
        invariant
            i <= rows@.len(),
            texts(hashtags@) == row_hashtags(texts(rows@).take(i as int)),
        decreases rows@.len() - i,
    {
        assert(texts(rows@).take(i + 1).drop_last() =~= texts(rows@).take(i as int));
        assert(texts(rows@).take(i + 1).last() == rows@[i as int]@);
        match read_string_list(&rows[i]) {
            Some(list) => {
                append_hashtags(&mut hashtags, &list);
            },
            None => {
                assert(texts(hashtags@) + Seq::<Seq<char>>::empty() =~= texts(hashtags@));
            },
        }
        i += 1;
    }
    assert(texts(rows@).take(i as int) =~= texts(rows@));
    hashtags
}

/// The JSON text of the list that holds `hashtag` alone: what the stored
/// hashtag lists are searched for.
pub fn hashtag_filter(hashtag: &String) -> (json: String)
    ensures
        json@ == string_list_json(seq![hashtag@]),
{
    let mut list: Vec<String> = Vec::new();
    list.push(hashtag.clone());
    assert(texts(list@) =~= seq![hashtag@]);
    match write_string_list(&list) {
        Some(json) => json,
        None => {
            proof {
                assert(false);
            }
            String::new()
        },
    }
}

/// The candidate that a row of the video table stands for, not yet scored:
/// its identifiers written as `identifier_text` says, its counts as they
/// are stored. `None` where an identifier does not have sixteen bytes.
pub fn video_of_row(
    uuid: &[u8],
    user_id: &[u8],
    upvotes: i32,
    downvotes: i32,
    views: i32,
    comments: i32,
    viewtime_seconds: i64,
) -> (video: Option<Video>)
    ensures
        video.is_some() == (uuid@.len() == 16 && user_id@.len() == 16),
        video.is_some() ==> {
            &&& video.unwrap().uuid@ == identifier_text(uuid@)
            &&& video.unwrap().user_id@ == identifier_text(user_id@)
            &&& video.unwrap().upvotes == upvotes
            &&& video.unwrap().downvotes == downvotes
            &&& video.unwrap().views == views
            &&& video.unwrap().comments == comments
            &&& video.unwrap().viewtime_seconds == viewtime_seconds
            &&& video.unwrap().score == 0
        },
{
    match write_identifier(uuid) {
        Some(uuid) => match write_identifier(user_id) {
            Some(user_id) => Some(
                Video {
                    uuid,
                    user_id,
                    upvotes,
                    downvotes,
                    views,
                    comments,
                    viewtime_seconds,
                    score: 0,
                },
            ),
            None => None,
        },
        None => None,
    }
}

} // verus!
