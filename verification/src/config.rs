//! The knobs of scoring and selection, and the check that a configuration
//! has to pass before it is used.

use vstd::prelude::*;

verus! {

/// How many billionths make one.
pub const ONE: i64 = 1_000_000_000;

/// A decimal number, held exactly as a whole number of billionths.
#[derive(Clone, Copy, Debug, PartialEq, Eq, Structural)]
pub struct Decimal {
    pub billionths: i64,
}

impl Decimal {
    /// The number is above zero.
    pub open spec fn positive(&self) -> bool {
        self.billionths > 0
    }

    /// The number lies in `[0, 1]`, so that it can be a probability.
    pub open spec fn unit(&self) -> bool {
        0 <= self.billionths <= ONE
    }

    /// The number of so many billionths.
    pub fn new(billionths: i64) -> (number: Decimal)
        ensures
            number.billionths == billionths,
    {
        Decimal { billionths }
    }

    /// Whether the number is above zero.
    pub fn is_positive(&self) -> (yes: bool)
        ensures
            yes == self.positive(),
    {
        self.billionths > 0
    }

    /// Whether the number lies in `[0, 1]`.
    pub fn is_probability(&self) -> (yes: bool)
        ensures
            yes == self.unit(),
    {
        0 <= self.billionths && self.billionths <= ONE
    }
}

/// The knobs of the score of one video.
#[derive(Clone, Copy, Debug, PartialEq, Eq)]
pub struct ScoringConfig {
    /// The power to which a tenth of the upvotes is raised.
    pub upvote_exponent: Decimal,
    /// The power to which a tenth of the views is raised.
    pub view_exponent: Decimal,
    /// The weight of upvotes per view.
    pub like_2_view_strength: Decimal,
    /// The weight of the seconds watched per view.
    pub viewtime_per_view_strength: Decimal,
    /// The weight of comments per vote.
    pub comments_2_votes_strength: Decimal,
    /// The weight of upvotes per vote.
    pub upvote_2_totalvotes_strength: Decimal,
    /// How strongly scores are drawn towards `viral_score`, in `[0, 1]`;
    /// a value outside is clamped when it is used.
    pub normalize_threshold: Decimal,
    /// The factor on the score of a video whose creator the viewer follows.
    pub viewer_following_creator_multiplier: Decimal,
    /// The factor on the score of a video that the viewer has liked.
    pub viewer_liked_video_multiplier: Decimal,
    /// The score that counts as viral: the target of normalisation.
    pub viral_score: Decimal,
}

/// The knobs of the selection: probabilities and amounts.
#[derive(Clone, Copy, Debug, PartialEq, Eq)]
pub struct SelectingConfig {
    /// The factor by which the weight of a hashtag falls with each rank.
    pub select_high_freq_hashtag_probability: Decimal,
    /// How many liked hashtags are read for the ranking.
    pub user_hashtag_fetch_amount: u32,
    /// The chance that a slot of the feed is filled from the hashtag pool.
    pub hashtag_2_random_video_probability: Decimal,
    /// The chance of a high-score pick from the random pool.
    pub high_score_video_probability: Decimal,
    /// The chance of a high-score pick from the hashtag pool.
    pub high_score_after_hashtag_video_probability: Decimal,
    /// The largest number of videos in one feed.
    pub max_next_videos_amount: u32,
    /// How many videos with the chosen hashtag are fetched.
    pub next_videos_fetch_amount_matching_hashtag: u32,
    /// How many random videos are fetched.
    pub next_videos_fetch_amount_random: u32,
    /// The chance that a candidate is sorted out whether or not it was
    /// watched.
    pub already_watched_video_sort_out_probability: Decimal,
    /// How many of the videos viewed last are read.
    pub already_viewed_videos_fetch_amount: u32,
}

impl SelectingConfig {
    /// The chances that the composition of a feed draws with lie in
    /// `[0, 1]`: the chance of a high-score pick from the random pool, and
    /// with a selected hashtag the two chances of the hashtag pool, which
    /// are not looked at without one.
    pub open spec fn blend_valid(&self, hashtag_selected: bool) -> bool {
        &&& self.high_score_video_probability.unit()
        &&& hashtag_selected ==> self.hashtag_2_random_video_probability.unit()
        &&& hashtag_selected ==> self.high_score_after_hashtag_video_probability.unit()
    }

    /// Every chance that a selection pass draws with lies in `[0, 1]`, and so
    /// does the decay of the hashtag weights.
    pub open spec fn chances_valid(&self) -> bool {
        &&& self.select_high_freq_hashtag_probability.unit()
        &&& self.already_watched_video_sort_out_probability.unit()
        &&& self.blend_valid(true)
    }

    /// Whether a feed can be composed with these chances.
    pub fn has_valid_blend(&self, hashtag_selected: bool) -> (valid: bool)
        ensures
            valid == self.blend_valid(hashtag_selected),
    {
        self.high_score_video_probability.is_probability() && (!hashtag_selected || (
        self.hashtag_2_random_video_probability.is_probability()
            && self.high_score_after_hashtag_video_probability.is_probability()))
    }

    /// Whether a selection pass can draw with these chances.
    pub fn has_valid_chances(&self) -> (valid: bool)
        ensures
            valid == self.chances_valid(),
    {
        self.select_high_freq_hashtag_probability.is_probability()
            && self.hashtag_2_random_video_probability.is_probability()
            && self.high_score_video_probability.is_probability()
            && self.high_score_after_hashtag_video_probability.is_probability()
            && self.already_watched_video_sort_out_probability.is_probability()
    }
}

/// A whole configuration.
#[derive(Clone, Debug)]
pub struct Config {
    pub config_name: String,
    pub max_dbpool_connections: u32,
    pub scoring: ScoringConfig,
    pub selecting: SelectingConfig,
}

/// Why a configuration is refused.
#[derive(Clone, Copy, Debug, PartialEq, Eq, Structural)]
pub enum ConfigError {
    /// More videos are asked for than the two fetches can bring.
    FetchAmount,
    ViralScore,
    HighScoreProbability,
    LikeToViewStrength,
    CommentsToVotesStrength,
    ViewtimePerViewStrength,
    UpvoteToTotalVotesStrength,
    UpvoteExponent,
    ViewExponent,
}

impl ConfigError {
    /// The refusal in words.
    pub open spec fn text(&self) -> Seq<char> {
        match self {
            ConfigError::FetchAmount =>
                "Next Video amount must be higher than the Next Video Fetch Amount!"@,
            ConfigError::ViralScore => "Viral Score must be higher than 0.00"@,
            ConfigError::HighScoreProbability => "High Score Prob. must be higher than 0.00"@,
            ConfigError::LikeToViewStrength => "Like 2 view strength must be higher than 0.00"@,
            ConfigError::CommentsToVotesStrength =>
                "Comments 2 votes strength must be higher than 0.00"@,
            ConfigError::ViewtimePerViewStrength =>
                "Viewtime per view strength must be higher than 0.00"@,
            ConfigError::UpvoteToTotalVotesStrength =>
                "Upvotes 2 totalvotes strength must be higher than 0.00"@,
            ConfigError::UpvoteExponent => "Upvote exponent must be higher than 0.00"@,
            ConfigError::ViewExponent => "View exponent must be higher than 0.00"@,
        }
    }

    /// The refusal in words.
    pub fn message(&self) -> (words: &'static str)
        ensures
            words@ == self.text(),
    {
        match self {
            ConfigError::FetchAmount =>
                "Next Video amount must be higher than the Next Video Fetch Amount!",
            ConfigError::ViralScore => "Viral Score must be higher than 0.00",
            ConfigError::HighScoreProbability => "High Score Prob. must be higher than 0.00",
            ConfigError::LikeToViewStrength => "Like 2 view strength must be higher than 0.00",
            ConfigError::CommentsToVotesStrength =>
                "Comments 2 votes strength must be higher than 0.00",
            ConfigError::ViewtimePerViewStrength =>
                "Viewtime per view strength must be higher than 0.00",
            ConfigError::UpvoteToTotalVotesStrength =>
                "Upvotes 2 totalvotes strength must be higher than 0.00",
            ConfigError::UpvoteExponent => "Upvote exponent must be higher than 0.00",
            ConfigError::ViewExponent => "View exponent must be higher than 0.00",
        }
    }
}

impl Config {
    /// The two fetches together can bring as many videos as one feed may
    /// hold.
    pub open spec fn amounts_valid(&self) -> bool {
        self.selecting.max_next_videos_amount
            <= self.selecting.next_videos_fetch_amount_matching_hashtag
            + self.selecting.next_videos_fetch_amount_random
    }

    /// The first fault that the check finds, in the order in which it looks.
    pub open spec fn first_fault(&self) -> Option<ConfigError> {
        if !self.amounts_valid() {
            Some(ConfigError::FetchAmount)
        } else if !self.scoring.viral_score.positive() {
            Some(ConfigError::ViralScore)
        } else if !self.selecting.high_score_video_probability.positive() {
            Some(ConfigError::HighScoreProbability)
        } else if !self.scoring.like_2_view_strength.positive() {
            Some(ConfigError::LikeToViewStrength)
        } else if !self.scoring.comments_2_votes_strength.positive() {
            Some(ConfigError::CommentsToVotesStrength)
        } else if !self.scoring.viewtime_per_view_strength.positive() {
            Some(ConfigError::ViewtimePerViewStrength)
        } else if !self.scoring.upvote_2_totalvotes_strength.positive() {
            Some(ConfigError::UpvoteToTotalVotesStrength)
        } else if !self.scoring.upvote_exponent.positive() {
            Some(ConfigError::UpvoteExponent)
        } else if !self.scoring.view_exponent.positive() {
            Some(ConfigError::ViewExponent)
        } else {
            None
        }
    }

    /// What the check asks of a configuration: enough videos are fetched,
    /// and the viral score, the chance of a high-score pick, the four
    /// strengths and the two exponents are above zero.
    pub open spec fn valid(&self) -> bool {
        &&& self.amounts_valid()
        &&& self.scoring.viral_score.positive()
        &&& self.selecting.high_score_video_probability.positive()
        &&& self.scoring.like_2_view_strength.positive()
        &&& self.scoring.comments_2_votes_strength.positive()
        &&& self.scoring.viewtime_per_view_strength.positive()
        &&& self.scoring.upvote_2_totalvotes_strength.positive()
        &&& self.scoring.upvote_exponent.positive()
        &&& self.scoring.view_exponent.positive()
    }
}

/// Checks a configuration before it is used: `Ok` exactly for a valid one,
/// else the first fault in the order of `Config::first_fault`.
pub fn validate(c: &Config) -> (checked: Result<(), ConfigError>)
    ensures
        checked.is_ok() == c.valid(),
        checked.is_err() ==> c.first_fault() == Some(checked.unwrap_err()),
{
    let fetched: u64 = c.selecting.next_videos_fetch_amount_matching_hashtag as u64
        + c.selecting.next_videos_fetch_amount_random as u64;
    if c.selecting.max_next_videos_amount as u64 > fetched {
        return Err(ConfigError::FetchAmount);
    }
    if !c.scoring.viral_score.is_positive() {
        return Err(ConfigError::ViralScore);
    }
    if !c.selecting.high_score_video_probability.is_positive() {
        return Err(ConfigError::HighScoreProbability);
    }
    if !c.scoring.like_2_view_strength.is_positive() {
        return Err(ConfigError::LikeToViewStrength);
    }
    if !c.scoring.comments_2_votes_strength.is_positive() {
        return Err(ConfigError::CommentsToVotesStrength);
    }
    if !c.scoring.viewtime_per_view_strength.is_positive() {
        return Err(ConfigError::ViewtimePerViewStrength);
    }
    if !c.scoring.upvote_2_totalvotes_strength.is_positive() {
        return Err(ConfigError::UpvoteToTotalVotesStrength);
    }
    if !c.scoring.upvote_exponent.is_positive() {
        return Err(ConfigError::UpvoteExponent);
    }
    if !c.scoring.view_exponent.is_positive() {
        return Err(ConfigError::ViewExponent);
    }
    Ok(())
}

} // verus!
