//! The two records that a selection pass reads: a candidate video and the
//! user it is made for.

use crate::text::texts;
use vstd::prelude::*;

verus! {

/// A candidate video with its engagement counts.
///
/// `score` is not stored with the video: it is the key by which one
/// selection pass orders its candidates, a larger key for a better score,
/// and means nothing before the pass has set it.
#[derive(Debug)]
pub struct Video {
    pub uuid: String,
    pub user_id: String,
    pub upvotes: i32,
    pub downvotes: i32,
    pub views: i32,
    pub comments: i32,
    pub viewtime_seconds: i64,
    pub score: i64,
}

impl Video {
    /// The counts of a stored video are never negative.
    pub open spec fn counts_valid(&self) -> bool {
        &&& self.upvotes >= 0
        &&& self.downvotes >= 0
        &&& self.views >= 0
        &&& self.comments >= 0
        &&& self.viewtime_seconds >= 0
    }

    /// Whether the counts are those of a stored video.
    pub fn has_valid_counts(&self) -> (valid: bool)
        ensures
            valid == self.counts_valid(),
    {
        self.upvotes >= 0 && self.downvotes >= 0 && self.views >= 0 && self.comments >= 0
            && self.viewtime_seconds >= 0
    }

    /// The same video with another score.
    pub fn with_score(&self, score: i64) -> (scored: Video)
        ensures
            scored == (Video { score, ..*self }),
    {
        Video {
            uuid: self.uuid.clone(),
            user_id: self.user_id.clone(),
            upvotes: self.upvotes,
            downvotes: self.downvotes,
            views: self.views,
            comments: self.comments,
            viewtime_seconds: self.viewtime_seconds,
            score,
        }
    }
}

impl Clone for Video {
    fn clone(&self) -> (copy: Self)
        ensures
            copy == *self,
    {
        self.with_score(self.score)
    }
}

/// What a selection pass knows of the user: the videos they liked, the
/// creators they follow, the hashtags of the videos they liked last (most
/// recent first) and the videos they viewed last.
#[derive(Clone, Debug)]
pub struct User {
    pub liked_videos: Vec<String>,
    pub following: Vec<String>,
    pub last_hashtags: Vec<String>,
    pub last_viewed: Vec<String>,
}

/// Whether `list` holds a string equal to `item`.
pub fn contains_text(list: &Vec<String>, item: &String) -> (found: bool)
    ensures
        found == texts(list@).contains(item@),
{
    let mut i: usize = 0;
    while i < list.len()
        invariant
            i <= list.len(),
            forall|j: int| 0 <= j < i ==> texts(list@)[j] != item@,
        decreases list.len() - i,
    {
        if list[i] == *item {
            assert(texts(list@)[i as int] == item@);
            return true;
        }
        i += 1;
    }
    false
}

impl User {
    /// Whether the user follows the creator of `video`.
    pub fn follows_creator(&self, video: &Video) -> (follows: bool)
        ensures
            follows == texts(self.following@).contains(video.user_id@),
    {
        contains_text(&self.following, &video.user_id)
    }

    /// Whether the user has liked `video`.
    pub fn has_liked(&self, video: &Video) -> (liked: bool)
        ensures
            liked == texts(self.liked_videos@).contains(video.uuid@),
    {
        contains_text(&self.liked_videos, &video.uuid)
    }

    /// Whether `video` is among the videos that the user viewed last.
    pub fn has_viewed(&self, video: &Video) -> (viewed: bool)
        ensures
            viewed == texts(self.last_viewed@).contains(video.uuid@),
    {
        contains_text(&self.last_viewed, &video.uuid)
    }
}

} // verus!
