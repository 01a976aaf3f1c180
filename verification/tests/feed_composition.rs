use feed_engine::config::{Config, Decimal, ScoringConfig, SelectingConfig, ONE};
use feed_engine::feed::{
    compose_feed, compose_with_draws, next_videos, place_pick, select_high_or_low_score_video,
    Pick, SlotDraw,
};
use feed_engine::model::{User, Video};

fn video(uuid: &str, score: i64) -> Video {
    Video {
        uuid: uuid.to_string(),
        user_id: "creator".to_string(),
        upvotes: 0,
        downvotes: 0,
        views: 0,
        comments: 0,
        viewtime_seconds: 0,
        score,
    }
}

fn ids(videos: &Vec<Video>) -> Vec<String> {
    videos.iter().map(|v| v.uuid.clone()).collect()
}

fn strings(items: &[&str]) -> Vec<String> {
    items.iter().map(|t| t.to_string()).collect()
}

fn descending_pool(prefix: &str, count: usize) -> Vec<Video> {
    let mut pool = Vec::new();
    for i in 0..count {
        pool.push(video(&format!("{}{}", prefix, i), 1_000 - i as i64));
    }
    pool
}

fn selecting(max: u32, hashtag: i64, high: i64, high_after_hashtag: i64, sort_out: i64) -> SelectingConfig {
    SelectingConfig {
        select_high_freq_hashtag_probability: Decimal::new(500_000_000),
        user_hashtag_fetch_amount: 10,
        hashtag_2_random_video_probability: Decimal::new(hashtag),
        high_score_video_probability: Decimal::new(high),
        high_score_after_hashtag_video_probability: Decimal::new(high_after_hashtag),
        max_next_videos_amount: max,
        next_videos_fetch_amount_matching_hashtag: 10,
        next_videos_fetch_amount_random: 10,
        already_watched_video_sort_out_probability: Decimal::new(sort_out),
        already_viewed_videos_fetch_amount: 10,
    }
}

fn config(selecting: SelectingConfig) -> Config {
    Config {
        config_name: "test".to_string(),
        max_dbpool_connections: 1,
        scoring: ScoringConfig {
            upvote_exponent: Decimal::new(ONE),
            view_exponent: Decimal::new(ONE),
            like_2_view_strength: Decimal::new(ONE),
            viewtime_per_view_strength: Decimal::new(ONE),
            comments_2_votes_strength: Decimal::new(ONE),
            upvote_2_totalvotes_strength: Decimal::new(ONE),
            normalize_threshold: Decimal::new(0),
            viewer_following_creator_multiplier: Decimal::new(ONE),
            viewer_liked_video_multiplier: Decimal::new(ONE),
            viral_score: Decimal::new(ONE),
        },
        selecting,
    }
}

fn user_who_viewed(viewed: &[&str]) -> User {
    User {
        liked_videos: Vec::new(),
        following: Vec::new(),
        last_hashtags: Vec::new(),
        last_viewed: strings(viewed),
    }
}

#[test]
fn place_pick_high_score_walks_inward_from_the_tail() {
    let source = descending_pool("V", 4);
    let mut feed = Vec::new();
    let mut counter = 0usize;
    assert!(place_pick(&mut feed, &source, &mut counter, true, 0));
    assert!(place_pick(&mut feed, &source, &mut counter, true, 1));
    assert_eq!(ids(&feed), strings(&["V3", "V2"]));
    assert_eq!(counter, 2);
}

#[test]
fn place_pick_low_score_takes_the_position_of_the_slot() {
    let source = descending_pool("V", 4);
    let mut feed = Vec::new();
    let mut counter = 1usize;
    assert!(place_pick(&mut feed, &source, &mut counter, false, 2));
    assert_eq!(ids(&feed), strings(&["V2"]));
    assert_eq!(counter, 1);
}

#[test]
fn place_pick_leaves_all_as_it_is_when_the_pool_is_exhausted() {
    let source = descending_pool("V", 3);
    let mut feed = vec![video("kept", 1)];
    let mut counter = 3usize;
    assert!(!place_pick(&mut feed, &source, &mut counter, true, 0));
    assert_eq!(counter, 3);
    assert!(!place_pick(&mut feed, &source, &mut counter, false, 3));
    assert!(!place_pick(&mut feed, &Vec::new(), &mut counter, false, 0));
    let mut fresh = 0usize;
    assert!(!place_pick(&mut feed, &Vec::new(), &mut fresh, true, 0));
    assert_eq!(fresh, 0);
    assert_eq!(ids(&feed), strings(&["kept"]));
}

#[test]
fn place_pick_takes_the_last_high_score_candidate() {
    let source = descending_pool("V", 3);
    let mut feed = Vec::new();
    let mut counter = 2usize;
    assert!(place_pick(&mut feed, &source, &mut counter, true, 9));
    assert_eq!(ids(&feed), strings(&["V0"]));
    assert_eq!(counter, 3);
}

#[test]
fn select_with_chance_one_makes_a_high_score_pick() {
    let source = descending_pool("V", 5);
    let mut feed = Vec::new();
    let mut counter = 0usize;
    let pick = select_high_or_low_score_video(&mut feed, &source, &mut counter, Decimal::new(ONE), 0);
    assert_eq!(pick, Pick { high_score: true, taken: true });
    assert_eq!(ids(&feed), strings(&["V4"]));
    assert_eq!(counter, 1);
}

#[test]
fn select_with_chance_zero_makes_a_low_score_pick() {
    let source = descending_pool("V", 5);
    let mut feed = Vec::new();
    let mut counter = 0usize;
    let pick = select_high_or_low_score_video(&mut feed, &source, &mut counter, Decimal::new(0), 3);
    assert_eq!(pick, Pick { high_score: false, taken: true });
    assert_eq!(ids(&feed), strings(&["V3"]));
    assert_eq!(counter, 0);
}

#[test]
fn select_reports_an_exhausted_pool() {
    let source = descending_pool("V", 2);
    let mut feed = Vec::new();
    let mut counter = 0usize;
    let pick = select_high_or_low_score_video(&mut feed, &source, &mut counter, Decimal::new(0), 2);
    assert_eq!(pick, Pick { high_score: false, taken: false });
    assert!(feed.is_empty());
}

#[test]
fn compose_with_low_score_picks_takes_the_front_of_the_random_pool() {
    let random = descending_pool("V", 10);
    let feed = compose_feed(&random, &Vec::new(), false, &selecting(5, 0, 0, 0, 0));
    assert_eq!(ids(&feed), strings(&["V0", "V1", "V2", "V3", "V4"]));
}

#[test]
fn compose_with_high_score_picks_reads_the_random_pool_backwards() {
    let random = descending_pool("V", 10);
    let feed = compose_feed(&random, &Vec::new(), false, &selecting(5, 0, ONE, 0, 0));
    assert_eq!(ids(&feed), strings(&["V9", "V8", "V7", "V6", "V5"]));
}

#[test]
fn compose_without_a_hashtag_never_draws_from_the_hashtag_pool() {
    let random = descending_pool("V", 10);
    let hashtag = descending_pool("H", 10);
    for chance in [0, 250_000_000, 500_000_000, ONE] {
        for high in [0, 500_000_000, ONE] {
            for _ in 0..20 {
                let feed = compose_feed(&random, &hashtag, false, &selecting(8, chance, high, ONE, 0));
                assert!(feed.len() <= 8);
                for v in feed.iter() {
                    assert!(v.uuid.starts_with('V'), "{}", v.uuid);
                }
            }
        }
    }
}

#[test]
fn compose_with_a_hashtag_and_chance_one_draws_from_the_hashtag_pool_only() {
    let random = descending_pool("V", 10);
    let hashtag = descending_pool("H", 10);
    let low = compose_feed(&random, &hashtag, true, &selecting(4, ONE, ONE, 0, 0));
    assert_eq!(ids(&low), strings(&["H0", "H1", "H2", "H3"]));
    let high = compose_feed(&random, &hashtag, true, &selecting(4, ONE, 0, ONE, 0));
    assert_eq!(ids(&high), strings(&["H9", "H8", "H7", "H6"]));
}

#[test]
fn compose_with_a_hashtag_and_chance_zero_draws_from_the_random_pool_only() {
    let random = descending_pool("V", 6);
    let hashtag = descending_pool("H", 6);
    let feed = compose_feed(&random, &hashtag, true, &selecting(3, 0, 0, ONE, 0));
    assert_eq!(ids(&feed), strings(&["V0", "V1", "V2"]));
}

#[test]
fn compose_holds_no_more_than_the_maximum() {
    let random = descending_pool("V", 10);
    let hashtag = descending_pool("H", 10);
    for _ in 0..50 {
        let feed = compose_feed(&random, &hashtag, true, &selecting(7, 500_000_000, 500_000_000, 500_000_000, 0));
        assert!(feed.len() <= 7);
        for v in feed.iter() {
            assert!(v.uuid.starts_with('V') || v.uuid.starts_with('H'));
        }
    }
}

#[test]
fn compose_with_a_maximum_of_zero_is_empty() {
    let random = descending_pool("V", 10);
    assert!(compose_feed(&random, &Vec::new(), false, &selecting(0, 0, 0, 0, 0)).is_empty());
}

#[test]
fn compose_from_empty_pools_is_empty() {
    assert!(compose_feed(&Vec::new(), &Vec::new(), true, &selecting(5, 500_000_000, 500_000_000, 0, 0)).is_empty());
}

#[test]
fn compose_ends_where_the_random_pool_is_exhausted() {
    let random = descending_pool("V", 3);
    let hashtag = descending_pool("H", 4);
    let low = compose_feed(&random, &hashtag, false, &selecting(6, ONE, 0, 0, 0));
    assert_eq!(ids(&low), strings(&["V0", "V1", "V2"]));
    let high = compose_feed(&random, &hashtag, false, &selecting(6, ONE, ONE, 0, 0));
    assert_eq!(ids(&high), strings(&["V2", "V1", "V0"]));
}

#[test]
fn compose_ends_at_once_on_an_empty_hashtag_pool() {
    let random = descending_pool("V", 5);
    let feed = compose_feed(&random, &Vec::new(), true, &selecting(5, ONE, 0, 0, 0));
    assert!(feed.is_empty());
}

#[test]
fn compose_takes_the_whole_pool_when_the_maximum_is_larger() {
    let random = descending_pool("V", 3);
    let feed = compose_feed(&random, &Vec::new(), false, &selecting(50, 0, 0, 0, 0));
    assert_eq!(ids(&feed), strings(&["V0", "V1", "V2"]));
}

#[test]
fn next_videos_orders_the_pool_and_takes_its_front() {
    let random = vec![video("c", 1), video("a", 3), video("seen", 9), video("b", 2), video("d", 0)];
    let user = user_who_viewed(&["seen"]);
    let feed = next_videos(&user, &config(selecting(3, 0, 0, 0, 0)), &None, random, Vec::new());
    assert_eq!(ids(&feed), strings(&["a", "b", "c"]));
}

#[test]
fn next_videos_with_high_score_picks_reads_the_pool_backwards() {
    let random = vec![video("c", 1), video("a", 3), video("b", 2), video("d", 0)];
    let user = user_who_viewed(&[]);
    let feed = next_videos(&user, &config(selecting(2, 0, ONE, 0, 0)), &None, random, Vec::new());
    assert_eq!(ids(&feed), strings(&["d", "c"]));
}

#[test]
fn next_videos_without_a_hashtag_leaves_the_hashtag_videos_out() {
    let user = user_who_viewed(&[]);
    for _ in 0..30 {
        let feed = next_videos(
            &user,
            &config(selecting(6, ONE, 500_000_000, 500_000_000, 0)),
            &None,
            descending_pool("V", 6),
            descending_pool("H", 6),
        );
        for v in feed.iter() {
            assert!(v.uuid.starts_with('V'));
        }
    }
}

#[test]
fn next_videos_with_a_hashtag_draws_from_the_hashtag_videos() {
    let user = user_who_viewed(&["H1"]);
    let feed = next_videos(
        &user,
        &config(selecting(3, ONE, 0, 0, 0)),
        &Some("cats".to_string()),
        descending_pool("V", 6),
        vec![video("H2", 5), video("H1", 50), video("H0", 7), video("H3", 6)],
    );
    assert_eq!(ids(&feed), strings(&["H0", "H3", "H2"]));
}

#[test]
fn next_videos_with_sort_out_chance_one_is_empty() {
    let user = user_who_viewed(&[]);
    let feed = next_videos(
        &user,
        &config(selecting(5, 500_000_000, 500_000_000, 500_000_000, ONE)),
        &Some("cats".to_string()),
        descending_pool("V", 6),
        descending_pool("H", 6),
    );
    assert!(feed.is_empty());
}

#[test]
fn next_videos_never_shows_a_viewed_video() {
    let user = user_who_viewed(&["V1", "H2", "V4"]);
    for _ in 0..50 {
        let feed = next_videos(
            &user,
            &config(selecting(8, 500_000_000, 500_000_000, 500_000_000, 100_000_000)),
            &Some("cats".to_string()),
            descending_pool("V", 8),
            descending_pool("H", 8),
        );
        assert!(feed.len() <= 8);
        for v in feed.iter() {
            assert!(!user.last_viewed.contains(&v.uuid));
        }
    }
}

fn draw(from_hashtags: bool, high_score: bool) -> SlotDraw {
    SlotDraw { from_hashtags, high_score }
}

#[test]
fn compose_with_draws_interleaves_the_pools() {
    let random = descending_pool("V", 5);
    let hashtag = descending_pool("H", 5);
    let draws = vec![
        draw(false, false),
        draw(true, false),
        draw(false, true),
        draw(true, true),
        draw(true, true),
        draw(false, true),
    ];
    let feed = compose_with_draws(&random, &hashtag, &draws);
    assert_eq!(ids(&feed), strings(&["V0", "H1", "V4", "H4", "H3", "V3"]));
}

#[test]
fn compose_with_draws_takes_low_score_picks_at_the_position_of_the_slot() {
    let random = descending_pool("V", 5);
    let hashtag = descending_pool("H", 5);
    let draws = vec![draw(true, false), draw(true, false), draw(false, false), draw(true, false), draw(false, false)];
    let feed = compose_with_draws(&random, &hashtag, &draws);
    assert_eq!(ids(&feed), strings(&["H0", "H1", "V2", "H3", "V4"]));
}

#[test]
fn compose_with_draws_can_take_a_candidate_twice() {
    let random = descending_pool("V", 3);
    let draws = vec![draw(false, true), draw(false, false), draw(false, false)];
    let feed = compose_with_draws(&random, &Vec::new(), &draws);
    assert_eq!(ids(&feed), strings(&["V2", "V1", "V2"]));
}

#[test]
fn compose_with_draws_ends_at_the_first_exhausted_pick() {
    let random = descending_pool("V", 4);
    let hashtag = descending_pool("H", 1);
    let draws = vec![draw(false, false), draw(true, false), draw(false, false), draw(false, true)];
    let feed = compose_with_draws(&random, &hashtag, &draws);
    assert_eq!(ids(&feed), strings(&["V0"]));
}

#[test]
fn compose_with_draws_ends_when_the_high_score_picks_run_out() {
    let random = descending_pool("V", 2);
    let draws = vec![draw(false, true), draw(false, true), draw(false, true), draw(false, false)];
    let feed = compose_with_draws(&random, &Vec::new(), &draws);
    assert_eq!(ids(&feed), strings(&["V1", "V0"]));
}

#[test]
fn compose_with_no_draws_is_empty() {
    assert!(compose_with_draws(&descending_pool("V", 3), &Vec::new(), &Vec::new()).is_empty());
}

#[test]
fn compose_without_a_hashtag_does_not_look_at_the_hashtag_chances() {
    let random = descending_pool("V", 4);
    let hashtag = descending_pool("H", 4);
    let feed = compose_feed(&random, &hashtag, false, &selecting(3, 5 * ONE, 0, -ONE, 0));
    assert_eq!(ids(&feed), strings(&["V0", "V1", "V2"]));
    let other = next_videos(
        &user_who_viewed(&[]),
        &config(selecting(3, -7, ONE, 2 * ONE, 0)),
        &None,
        random,
        hashtag,
    );
    assert_eq!(ids(&other), strings(&["V3", "V2", "V1"]));
}
