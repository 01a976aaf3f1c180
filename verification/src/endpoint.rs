//! What the service is asked and what it answers, as plain records.

use crate::model::Video;
use crate::text::texts;
use vstd::prelude::*;

verus! {

/// Asks for the score of one video.
#[derive(Clone, Debug)]
pub struct ScoreVideoRequest {
    pub uuid: String,
}

/// Asks for the score that one video has for one user.
#[derive(Clone, Debug)]
pub struct PersonalizeVideoRequest {
    pub user_id: String,
    pub video_id: String,
}

/// Asks for the next videos of one user.
#[derive(Clone, Debug)]
pub struct NextVideosRequest {
    pub user_id: String,
}

/// The next videos of a user, by their identifiers, in the order of the
/// feed.
#[derive(Clone, Debug)]
pub struct NextVideosResponse {
    pub videos: Vec<String>,
}

/// Names a stored configuration.
#[derive(Clone, Debug)]
pub struct SetConfigRequest {
    pub uuid: String,
}

/// The identifiers of the videos, in their order.
pub open spec fn identifiers(videos: Seq<Video>) -> Seq<Seq<char>> {
    videos.map_values(|v: Video| v.uuid@)
}

impl NextVideosResponse {
    /// The answer for a feed: the identifier of each of its videos.
    pub fn from_feed(feed: &Vec<Video>) -> (response: NextVideosResponse)
        ensures
            texts(response.videos@) == identifiers(feed@),
    {
        let mut videos: Vec<String> = Vec::new();
        let mut i: usize = 0;
        while i < feed.len()
            invariant
                i <= feed@.len(),
                texts(videos@) == identifiers(feed@).take(i as int),
            decreases feed@.len() - i,
        {
            let ghost before = texts(videos@);
            videos.push(feed[i].uuid.clone());
            assert(texts(videos@) =~= before.push(feed@[i as int].uuid@));
            assert(identifiers(feed@).take(i + 1) =~= identifiers(feed@).take(i as int).push(
                feed@[i as int].uuid@,
            ));
            i += 1;
        }
        assert(identifiers(feed@).take(i as int) =~= identifiers(feed@));
        NextVideosResponse { videos }
    }
}

} // verus!
