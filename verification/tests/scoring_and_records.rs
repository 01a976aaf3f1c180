use feed_engine::auth::{Claims, TOKEN_LIFETIME_SECONDS};
use feed_engine::endpoint::{
    NextVideosRequest, NextVideosResponse, PersonalizeVideoRequest, ScoreVideoRequest,
    SetConfigRequest,
};
use feed_engine::model::{User, Video};
use feed_engine::scoring::{score_terms, viewer_relation, ScoreTerms, ViewerRelation};

fn video(uuid: &str, creator: &str, upvotes: i32, downvotes: i32, views: i32, comments: i32) -> Video {
    Video {
        uuid: uuid.to_string(),
        user_id: creator.to_string(),
        upvotes,
        downvotes,
        views,
        comments,
        viewtime_seconds: 120,
        score: 0,
    }
}

fn user(liked: &[&str], following: &[&str]) -> User {
    User {
        liked_videos: liked.iter().map(|t| t.to_string()).collect(),
        following: following.iter().map(|t| t.to_string()).collect(),
        last_hashtags: Vec::new(),
        last_viewed: Vec::new(),
    }
}

#[test]
fn score_terms_of_a_video_with_all_counts() {
    assert_eq!(
        score_terms(&video("v", "c", 30, 10, 100, 4)),
        ScoreTerms { total_votes: 40, per_view: true, per_vote: true, per_comment: true }
    );
}

#[test]
fn score_terms_without_views_leave_the_view_and_vote_ratios_out() {
    assert_eq!(
        score_terms(&video("v", "c", 30, 10, 0, 4)),
        ScoreTerms { total_votes: 40, per_view: false, per_vote: false, per_comment: true }
    );
}

#[test]
fn score_terms_without_votes_leave_the_vote_ratios_out() {
    assert_eq!(
        score_terms(&video("v", "c", 0, 0, 100, 0)),
        ScoreTerms { total_votes: 0, per_view: true, per_vote: false, per_comment: false }
    );
}

#[test]
fn score_terms_add_the_votes_without_wrapping() {
    let terms = score_terms(&video("v", "c", i32::MAX, i32::MAX, 1, 0));
    assert_eq!(terms.total_votes, 4_294_967_294);
    assert!(terms.per_vote);
}

#[test]
fn viewer_relation_is_neutral_for_a_stranger() {
    let relation = viewer_relation(&user(&["other"], &["someone"]), &video("v", "c", 1, 1, 1, 1));
    assert_eq!(relation, ViewerRelation { follows_creator: false, liked_video: false });
    assert!(relation.is_neutral());
}

#[test]
fn viewer_relation_sees_a_followed_creator() {
    let relation = viewer_relation(&user(&[], &["c"]), &video("v", "c", 1, 1, 1, 1));
    assert_eq!(relation, ViewerRelation { follows_creator: true, liked_video: false });
    assert!(!relation.is_neutral());
}

#[test]
fn viewer_relation_sees_a_liked_video() {
    let relation = viewer_relation(&user(&["v"], &[]), &video("v", "c", 1, 1, 1, 1));
    assert_eq!(relation, ViewerRelation { follows_creator: false, liked_video: true });
    assert!(!relation.is_neutral());
}

#[test]
fn viewer_relation_can_hold_both() {
    let relation = viewer_relation(&user(&["a", "v"], &["b", "c"]), &video("v", "c", 1, 1, 1, 1));
    assert_eq!(relation, ViewerRelation { follows_creator: true, liked_video: true });
}

#[test]
fn viewer_relation_tells_videos_from_creators() {
    let relation = viewer_relation(&user(&["c"], &["v"]), &video("v", "c", 1, 1, 1, 1));
    assert!(relation.is_neutral());
}

#[test]
fn response_lists_the_identifiers_in_the_order_of_the_feed() {
    let feed = vec![video("third", "c", 0, 0, 0, 0), video("first", "c", 0, 0, 0, 0), video("second", "c", 0, 0, 0, 0)];
    let response = NextVideosResponse::from_feed(&feed);
    assert_eq!(response.videos, vec!["third".to_string(), "first".to_string(), "second".to_string()]);
}

#[test]
fn response_for_an_empty_feed_is_empty() {
    assert!(NextVideosResponse::from_feed(&Vec::new()).videos.is_empty());
}

#[test]
fn requests_hold_what_they_are_given() {
    let score = ScoreVideoRequest { uuid: "v".to_string() };
    let personal = PersonalizeVideoRequest { user_id: "u".to_string(), video_id: "v".to_string() };
    let next = NextVideosRequest { user_id: "u".to_string() };
    let set = SetConfigRequest { uuid: "c".to_string() };
    assert_eq!(score.clone().uuid, "v");
    assert_eq!(personal.clone().user_id, "u");
    assert_eq!(personal.video_id, "v");
    assert_eq!(next.clone().user_id, "u");
    assert_eq!(set.clone().uuid, "c");
}

#[test]
fn claims_end_two_hundred_years_after_they_were_issued() {
    let claims = Claims::issue("alice".to_string(), 1_700_000_000).unwrap();
    assert_eq!(claims.sub, "alice");
    assert!(claims.roles.is_empty());
    assert_eq!(claims.iat, 1_700_000_000);
    assert_eq!(claims.exp as u64, 1_700_000_000 + 200 * 365 * 24 * 60 * 60);
    assert_eq!(TOKEN_LIFETIME_SECONDS, 6_307_200_000);
}

#[test]
fn claims_are_not_issued_beyond_the_range_of_usize() {
    assert!(Claims::issue("alice".to_string(), usize::MAX).is_none());
    assert!(Claims::issue("alice".to_string(), usize::MAX - 10).is_none());
}
