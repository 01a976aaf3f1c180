//! What the score of a video depends on besides its numbers: which of the
//! ratios can be formed at all, and how the viewer stands to the video.
//!
//! The score itself is computed by the caller in floating-point arithmetic.
//! Every ratio of the score has a count as its denominator, and a ratio
//! whose denominator is zero is left out of the product.

use crate::model::{User, Video};
use crate::text::texts;
use vstd::prelude::*;

verus! {

/// Which ratios enter the score of a video.
#[derive(Clone, Copy, Debug, PartialEq, Eq, Structural)]
pub struct ScoreTerms {
    /// Upvotes and upvotes with downvotes together.
    pub total_votes: i64,
    /// The video has views: upvotes per view and seconds watched per view
    /// enter the score.
    pub per_view: bool,
    /// The video has views and votes: upvotes per vote and the damper for
    /// downvotes per view enter the score.
    pub per_vote: bool,
    /// The video has comments: comments per vote enter the score.
    pub per_comment: bool,
}

/// The ratios that enter the score of `video`.
pub fn score_terms(video: &Video) -> (terms: ScoreTerms)
    ensures
        terms.total_votes == video.upvotes + video.downvotes,
        terms.per_view == (video.views != 0),
        terms.per_vote == (video.views != 0 && video.upvotes + video.downvotes != 0),
        terms.per_comment == (video.comments != 0),
{
    let total_votes: i64 = video.upvotes as i64 + video.downvotes as i64;
    ScoreTerms {
        total_votes,
        per_view: video.views != 0,
        per_vote: video.views != 0 && total_votes != 0,
        per_comment: video.comments != 0,
    }
}

/// How a viewer stands to a video.
#[derive(Clone, Copy, Debug, PartialEq, Eq, Structural)]
pub struct ViewerRelation {
    /// The viewer follows the creator: the score is multiplied by
    /// `viewer_following_creator_multiplier`.
    pub follows_creator: bool,
    /// The viewer has liked the video: the score is multiplied by
    /// `viewer_liked_video_multiplier`.
    pub liked_video: bool,
}

impl ViewerRelation {
    /// Neither multiplier applies: the personal score is the score.
    pub open spec fn neutral(&self) -> bool {
        !self.follows_creator && !self.liked_video
    }

    /// Whether neither multiplier applies.
    pub fn is_neutral(&self) -> (neutral: bool)
        ensures
            neutral == self.neutral(),
    {
        !self.follows_creator && !self.liked_video
    }
}

/// How `user` stands to `video`. The two answers do not depend on each
/// other, and both may hold of one video.
pub fn viewer_relation(user: &User, video: &Video) -> (relation: ViewerRelation)
    ensures
        relation.follows_creator == texts(user.following@).contains(video.user_id@),
        relation.liked_video == texts(user.liked_videos@).contains(video.uuid@),
{
    ViewerRelation { follows_creator: user.follows_creator(video), liked_video: user.has_liked(video) }
}

} // verus!
