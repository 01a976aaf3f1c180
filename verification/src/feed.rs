//! The composition of a feed: slot by slot a pool is chosen, and from it
//! either the next high-score candidate, walking inward from the pool's
//! tail, or the candidate at the slot's own position.

use crate::chance::{chance, may_draw};
use crate::config::{Config, Decimal, SelectingConfig, ONE};
use crate::dedup::{
    all_may_draw, kept, lemma_kept_are_unseen, sort_out_repeated_videos, unseen,
};
use crate::model::{User, Video};
use crate::ranking::{by_score, lemma_by_score_contains, lemma_by_score_descending, sort_videos};
use crate::text::texts;
use vstd::prelude::*;

verus! {

/// What was drawn for one slot: the pool, and the kind of pick.
#[derive(Clone, Copy, Debug, PartialEq, Eq, Structural)]
pub struct SlotDraw {
    pub from_hashtags: bool,
    pub high_score: bool,
}

/// What `select_high_or_low_score_video` did: the kind of pick that was
/// drawn, and whether the pool still had a candidate at its position.
#[derive(Clone, Copy, Debug, PartialEq, Eq, Structural)]
pub struct Pick {
    pub high_score: bool,
    pub taken: bool,
}

/// A feed under composition: the videos chosen so far, the number of
/// high-score picks taken from either pool, and whether the composition
/// goes on. It ends early at the first pick that finds its pool exhausted.
pub struct Composition {
    pub feed: Seq<Video>,
    pub random_cursor: nat,
    pub hashtag_cursor: nat,
    pub open: bool,
}

/// The position in a pool of `len` candidates that a pick takes, if the
/// pool has one there: a high-score pick the position `cursor` places from
/// the end, a low-score pick the position of its slot.
pub open spec fn pick_position(len: nat, cursor: nat, high_score: bool, slot: nat) -> Option<int> {
    if high_score {
        if cursor < len {
            Some(len - cursor - 1)
        } else {
            None
        }
    } else {
        if slot < len {
            Some(slot as int)
        } else {
            None
        }
    }
}

/// The composition before the first slot.
pub open spec fn start() -> Composition {
    Composition { feed: Seq::empty(), random_cursor: 0, hashtag_cursor: 0, open: true }
}

/// The composition after the slot `slot` was filled with `draw`.
pub open spec fn step(
    random: Seq<Video>,
    hashtag: Seq<Video>,
    state: Composition,
    slot: nat,
    draw: SlotDraw,
) -> Composition {
    if !state.open {
        state
    } else if draw.from_hashtags {
        match pick_position(hashtag.len(), state.hashtag_cursor, draw.high_score, slot) {
            Some(at) => Composition {
                feed: state.feed.push(hashtag[at]),
                hashtag_cursor: if draw.high_score {
                    state.hashtag_cursor + 1
                } else {
                    state.hashtag_cursor
                },
                ..state
            },
            None => Composition { open: false, ..state },
        }
    } else {
        match pick_position(random.len(), state.random_cursor, draw.high_score, slot) {
            Some(at) => Composition {
                feed: state.feed.push(random[at]),
                random_cursor: if draw.high_score {
                    state.random_cursor + 1
                } else {
                    state.random_cursor
                },
                ..state
            },
            None => Composition { open: false, ..state },
        }
    }
}

/// The composition after one slot for each of `draws`, in their order.
pub open spec fn composed(random: Seq<Video>, hashtag: Seq<Video>, draws: Seq<SlotDraw>)
    -> Composition
    decreases draws.len(),
{
    if draws.len() == 0 {
        start()
    } else {
        step(
            random,
            hashtag,
            composed(random, hashtag, draws.drop_last()),
            (draws.len() - 1) as nat,
            draws.last(),
        )
    }
}

/// The number of slots of a feed: the candidates of both pools together,
/// but no more than `max`.
pub open spec fn slots(random_len: nat, hashtag_len: nat, max: nat) -> nat {
    if random_len + hashtag_len < max {
        random_len + hashtag_len
    } else {
        max
    }
}

/// What can be drawn for one slot. Without a selected hashtag the hashtag
/// pool is never chosen; with one it is chosen with
/// `hashtag_2_random_video_probability`. The kind of pick is drawn with the
/// chance that belongs to the chosen pool.
pub open spec fn slot_draw_allowed(selecting: SelectingConfig, hashtag_selected: bool, draw: SlotDraw)
    -> bool {
    &&& if hashtag_selected {
        may_draw(selecting.hashtag_2_random_video_probability, draw.from_hashtags)
    } else {
        !draw.from_hashtags
    }
    &&& if draw.from_hashtags {
        may_draw(selecting.high_score_after_hashtag_video_probability, draw.high_score)
    } else {
        may_draw(selecting.high_score_video_probability, draw.high_score)
    }
}

/// Every draw of `draws` is one that `slot_draw_allowed` admits.
pub open spec fn draws_allowed(
    selecting: SelectingConfig,
    hashtag_selected: bool,
    draws: Seq<SlotDraw>,
) -> bool {
    forall|k: int|
        0 <= k < draws.len() ==> slot_draw_allowed(selecting, hashtag_selected, #[trigger] draws[k])
}

/// The first `count` candidates of a pool from its end backwards.
pub open spec fn from_tail(pool: Seq<Video>, count: nat) -> Seq<Video> {
    Seq::new(count, |k: int| pool[pool.len() - 1 - k])
}

/// The smaller of two numbers.
pub open spec fn least(a: nat, b: nat) -> nat {
    if a < b {
        a
    } else {
        b
    }
}

/// Makes the pick of one slot from `source`, given the kind of pick that
/// was drawn. A high-score pick takes the candidate `counter` places from
/// the end and advances the counter; a low-score pick takes the candidate at
/// position `i`. Where the pool has no candidate there, nothing changes and
/// the result is `false`.
pub fn place_pick(
    final_sort: &mut Vec<Video>,
    source: &Vec<Video>,
    counter: &mut usize,
    high_score: bool,
    i: usize,
) -> (taken: bool)
    ensures
        taken == pick_position(source@.len(), *old(counter) as nat, high_score, i as nat).is_some(),
        taken ==> final(final_sort)@ == old(final_sort)@.push(
            source@[pick_position(
                source@.len(),
                *old(counter) as nat,
                high_score,
                i as nat,
            ).unwrap()],
        ),
        taken && high_score ==> *final(counter) == *old(counter) + 1,
        taken && !high_score ==> *final(counter) == *old(counter),
        !taken ==> final(final_sort)@ == old(final_sort)@ && *final(counter) == *old(counter),
{
    if high_score {
        if *counter < source.len() {
            let at = source.len() - *counter - 1;
            final_sort.push(source[at].clone());
            *counter += 1;
            true
        } else {
            false
        }
    } else {
        if i < source.len() {
            final_sort.push(source[i].clone());
            true
        } else {
            false
        }
    }
}

/// Fills one slot from `source`: draws the kind of pick with `probability`
/// of a high-score pick, and makes it as `place_pick` does.
pub fn select_high_or_low_score_video(
    final_sort: &mut Vec<Video>,
    source: &Vec<Video>,
    counter: &mut usize,
    probability: Decimal,
    i: usize,
) -> (pick: Pick)
    requires
        probability.unit(),
    ensures
        may_draw(probability, pick.high_score),
        pick.taken == pick_position(
            source@.len(),
            *old(counter) as nat,
            pick.high_score,
            i as nat,
        ).is_some(),
        pick.taken ==> final(final_sort)@ == old(final_sort)@.push(
            source@[pick_position(
                source@.len(),
                *old(counter) as nat,
                pick.high_score,
                i as nat,
            ).unwrap()],
        ),
        pick.taken && pick.high_score ==> *final(counter) == *old(counter) + 1,
        pick.taken && !pick.high_score ==> *final(counter) == *old(counter),
        !pick.taken ==> final(final_sort)@ == old(final_sort)@ && *final(counter) == *old(counter),
{
    let high_score = chance(probability);
    let taken = place_pick(final_sort, source, counter, high_score, i);
    Pick { high_score, taken }
}

/// A composition that has ended stays as it is, whatever is drawn after.
pub proof fn lemma_ended_stays(
    random: Seq<Video>,
    hashtag: Seq<Video>,
    draws: Seq<SlotDraw>,
    more: Seq<SlotDraw>,
)
    requires
        !composed(random, hashtag, draws).open,
    ensures
        composed(random, hashtag, draws + more) == composed(random, hashtag, draws),
    decreases more.len(),
{
    if more.len() == 0 {
        assert(draws + more =~= draws);
    } else {
        lemma_ended_stays(random, hashtag, draws, more.drop_last());
        assert((draws + more).drop_last() =~= draws + more.drop_last());
    }
}

/// A feed holds at most one video for each slot, and each of its videos
/// comes from one of the two pools.
pub proof fn lemma_feed_from_pools(random: Seq<Video>, hashtag: Seq<Video>, draws: Seq<SlotDraw>)
    ensures
        composed(random, hashtag, draws).feed.len() <= draws.len(),
        composed(random, hashtag, draws).random_cursor <= draws.len(),
        composed(random, hashtag, draws).hashtag_cursor <= draws.len(),
        forall|k: int|
            0 <= k < composed(random, hashtag, draws).feed.len() ==> random.contains(
                #[trigger] composed(random, hashtag, draws).feed[k],
            ) || hashtag.contains(composed(random, hashtag, draws).feed[k]),
    decreases draws.len(),
{
    if draws.len() > 0 {
        lemma_feed_from_pools(random, hashtag, draws.drop_last());
    }
}

/// Where no slot is filled from the hashtag pool, every video of the feed
/// comes from the random pool, and what the hashtag pool holds has no part
/// in the feed.
pub proof fn lemma_hashtag_pool_untouched(
    random: Seq<Video>,
    hashtag: Seq<Video>,
    other: Seq<Video>,
    draws: Seq<SlotDraw>,
)
    requires
        forall|k: int| 0 <= k < draws.len() ==> !(#[trigger] draws[k]).from_hashtags,
    ensures
        composed(random, hashtag, draws) == composed(random, other, draws),
        forall|k: int|
            0 <= k < composed(random, hashtag, draws).feed.len() ==> random.contains(
                #[trigger] composed(random, hashtag, draws).feed[k],
            ),
    decreases draws.len(),
{
    if draws.len() > 0 {
        lemma_hashtag_pool_untouched(random, hashtag, other, draws.drop_last());
    }
}

/// Where every slot is filled from the random pool by a low-score pick, the
/// feed is the front of the random pool: one video for each slot, until the
/// pool ends.
pub proof fn lemma_all_low_score(random: Seq<Video>, hashtag: Seq<Video>, draws: Seq<SlotDraw>)
    requires
        forall|k: int|
            0 <= k < draws.len() ==> !(#[trigger] draws[k]).from_hashtags && !draws[k].high_score,
    ensures
        composed(random, hashtag, draws).feed == random.take(
            least(draws.len(), random.len()) as int,
        ),
        composed(random, hashtag, draws).open == (draws.len() <= random.len()),
    decreases draws.len(),
{
    if draws.len() > 0 {
        let before = draws.drop_last();
        lemma_all_low_score(random, hashtag, before);
        let n = before.len();
        if n < random.len() {
            assert(random.take(n as int).push(random[n as int]) =~= random.take(n as int + 1));
        }
    } else {
        assert(random.take(0) =~= Seq::<Video>::empty());
    }
}

/// Where every slot is filled from the random pool by a high-score pick,
/// the feed is the random pool read from its end backwards: one video for
/// each slot, until the pool ends.
pub proof fn lemma_all_high_score(random: Seq<Video>, hashtag: Seq<Video>, draws: Seq<SlotDraw>)
    requires
        forall|k: int|
            0 <= k < draws.len() ==> !(#[trigger] draws[k]).from_hashtags && draws[k].high_score,
    ensures
        composed(random, hashtag, draws).feed == from_tail(
            random,
            least(draws.len(), random.len()),
        ),
        composed(random, hashtag, draws).random_cursor == least(draws.len(), random.len()),
        composed(random, hashtag, draws).open == (draws.len() <= random.len()),
    decreases draws.len(),
{
    if draws.len() > 0 {
        let before = draws.drop_last();
        lemma_all_high_score(random, hashtag, before);
        let n = before.len();
        if n < random.len() {
            assert(from_tail(random, n).push(random[random.len() - n - 1]) =~= from_tail(
                random,
                (n + 1) as nat,
            ));
        }
    } else {
        assert(from_tail(random, 0) =~= Seq::<Video>::empty());
    }
}

/// Composes the feed that given draws lead to, one slot for each draw in
/// their order: the slot's pool is the hashtag pool where `from_hashtags`
/// holds, and the pick within it is made as `place_pick` does. The
/// composition ends at the first pick that finds its pool exhausted.
pub fn compose_with_draws(
    random_pool: &Vec<Video>,
    hashtag_pool: &Vec<Video>,
    draws: &Vec<SlotDraw>,
) -> (feed: Vec<Video>)
    ensures
        feed@ == composed(random_pool@, hashtag_pool@, draws@).feed,
{
    let mut feed: Vec<Video> = Vec::new();
    let mut random_cursor: usize = 0;
    let mut hashtag_cursor: usize = 0;
    let mut open = true;
    let mut i: usize = 0;
    while i < draws.len()
        invariant
            i <= draws@.len(),
            composed(random_pool@, hashtag_pool@, draws@.take(i as int)).open == open,
            composed(random_pool@, hashtag_pool@, draws@.take(i as int)).feed == feed@,
            composed(random_pool@, hashtag_pool@, draws@.take(i as int)).random_cursor
                == random_cursor,
            composed(random_pool@, hashtag_pool@, draws@.take(i as int)).hashtag_cursor
                == hashtag_cursor,
        decreases draws@.len() - i,
    {
        assert(draws@.take(i + 1).drop_last() =~= draws@.take(i as int));
        if open {
            let draw = draws[i];
            open = if draw.from_hashtags {
                place_pick(&mut feed, hashtag_pool, &mut hashtag_cursor, draw.high_score, i)
            } else {
                place_pick(&mut feed, random_pool, &mut random_cursor, draw.high_score, i)
            };
        }
        i += 1;
    }
    assert(draws@.take(i as int) =~= draws@);
    feed
}

/// A draw that `slot_draw_allowed` admits whatever the chances are.
pub open spec fn sure_draw(selecting: SelectingConfig, hashtag_selected: bool) -> SlotDraw {
    let from_hashtags = hashtag_selected && selecting.hashtag_2_random_video_probability.billionths
        == ONE;
    SlotDraw {
        from_hashtags,
        high_score: if from_hashtags {
            selecting.high_score_after_hashtag_video_probability.billionths == ONE
        } else {
            selecting.high_score_video_probability.billionths == ONE
        },
    }
}

/// Composes a feed from the two pools, each already in the order of its
/// scores, best first. For each slot the hashtag pool is chosen with
/// `hashtag_2_random_video_probability` if a hashtag was selected, else the
/// random pool; the pick within the pool is made by
/// `select_high_or_low_score_video`. The composition ends at the first pick
/// that finds its pool exhausted.
///
/// The feed is the composition for some draws that the chances admit, one
/// for each slot. Without a selected hashtag it holds videos of the random
/// pool only, and then a chance of zero for high-score picks gives the front
/// of the random pool, a chance of one its end read backwards.
pub fn compose_feed(
    random_pool: &Vec<Video>,
    hashtag_pool: &Vec<Video>,
    hashtag_selected: bool,
    selecting: &SelectingConfig,
) -> (feed: Vec<Video>)
    requires
        selecting.blend_valid(hashtag_selected),
    ensures
        exists|draws: Seq<SlotDraw>|
            {
                &&& draws.len() == slots(
                    random_pool@.len(),
                    hashtag_pool@.len(),
                    selecting.max_next_videos_amount as nat,
                )
                &&& draws_allowed(*selecting, hashtag_selected, draws)
                &&& feed@ == #[trigger] composed(random_pool@, hashtag_pool@, draws).feed
            },
        feed@.len() <= selecting.max_next_videos_amount,
        feed@.len() <= random_pool@.len() + hashtag_pool@.len(),
        forall|k: int|
            0 <= k < feed@.len() ==> random_pool@.contains(#[trigger] feed@[k])
                || hashtag_pool@.contains(feed@[k]),
        !hashtag_selected ==> forall|k: int|
            0 <= k < feed@.len() ==> random_pool@.contains(#[trigger] feed@[k]),
        !hashtag_selected && selecting.high_score_video_probability.billionths == 0 ==> feed@
            == random_pool@.take(
            least(selecting.max_next_videos_amount as nat, random_pool@.len()) as int,
        ),
        !hashtag_selected && selecting.high_score_video_probability.billionths == ONE ==> feed@
            == from_tail(
            random_pool@,
            least(selecting.max_next_videos_amount as nat, random_pool@.len()),
        ),
{
    let max = selecting.max_next_videos_amount as usize;
    let slot_count = if random_pool.len() >= max || hashtag_pool.len() >= max - random_pool.len() {
        max
    } else {
        random_pool.len() + hashtag_pool.len()
    };
    let mut feed: Vec<Video> = Vec::new();
    let mut random_cursor: usize = 0;
    let mut hashtag_cursor: usize = 0;
    let mut open = true;
    let mut i: usize = 0;
    let ghost mut draws: Seq<SlotDraw> = Seq::empty();
    while i < slot_count && open
        invariant
            selecting.blend_valid(hashtag_selected),
            slot_count == slots(
                random_pool@.len(),
                hashtag_pool@.len(),
                selecting.max_next_videos_amount as nat,
            ),
            draws.len() <= slot_count,
            open ==> draws.len() == i,
            draws_allowed(*selecting, hashtag_selected, draws),
            composed(random_pool@, hashtag_pool@, draws).open == open,
            composed(random_pool@, hashtag_pool@, draws).feed == feed@,
            composed(random_pool@, hashtag_pool@, draws).random_cursor == random_cursor,
            composed(random_pool@, hashtag_pool@, draws).hashtag_cursor == hashtag_cursor,
        decreases slot_count - draws.len() + if open { 1nat } else { 0nat },
    {
        let ghost before = draws;
        let from_hashtags = hashtag_selected && chance(
            selecting.hashtag_2_random_video_probability,
        );
        let pick = if from_hashtags {
            select_high_or_low_score_video(
                &mut feed,
                hashtag_pool,
                &mut hashtag_cursor,
                selecting.high_score_after_hashtag_video_probability,
                i,
            )
        } else {
            select_high_or_low_score_video(
                &mut feed,
                random_pool,
                &mut random_cursor,
                selecting.high_score_video_probability,
                i,
            )
        };
        proof {
            draws = before.push(SlotDraw { from_hashtags, high_score: pick.high_score });
            assert(draws.drop_last() =~= before);
        }
        open = pick.taken;
        if open {
            i += 1;
        }
    }
    proof {
        let used = draws;
        let sure = sure_draw(*selecting, hashtag_selected);
        let more = Seq::new((slot_count - used.len()) as nat, |k: int| sure);
        if used.len() < slot_count {
            lemma_ended_stays(random_pool@, hashtag_pool@, used, more);
        } else {
            assert(used + more =~= used);
        }
        draws = used + more;
        lemma_feed_from_pools(random_pool@, hashtag_pool@, draws);
        if !hashtag_selected {
            lemma_hashtag_pool_untouched(random_pool@, hashtag_pool@, hashtag_pool@, draws);
            if selecting.high_score_video_probability.billionths == 0 {
                lemma_all_low_score(random_pool@, hashtag_pool@, draws);
            }
            if selecting.high_score_video_probability.billionths == ONE {
                lemma_all_high_score(random_pool@, hashtag_pool@, draws);
            }
        }
        assert(feed@ == composed(random_pool@, hashtag_pool@, draws).feed);
    }
    feed
}

/// The pool that a feed is composed from: the candidates that stay once
/// `draws` are made and the viewed are sorted out, in the order of their
/// scores.
pub open spec fn pool(videos: Seq<Video>, viewed: Seq<Seq<char>>, draws: Seq<bool>) -> Seq<Video> {
    by_score(kept(videos, viewed, draws))
}

/// Selects the next videos for a user from the candidates that were
/// fetched for them, each carrying its score: sorts out of both pools the
/// candidates viewed lately and others by chance, orders each pool by
/// score, and composes the feed as `compose_feed` does. `selected_hashtag`
/// is the hashtag that the hashtag candidates were fetched for, if any.
///
/// No video of the feed was viewed lately, each comes from one of the two
/// lists, and without a selected hashtag each comes from the random
/// candidates. Where nothing is left to chance the feed is known: without a
/// selected hashtag and without sorting out by chance, a chance of zero
/// for high-score picks gives the best of the unseen random candidates,
/// best first, and a chance of one the worst of them, worst first.
pub fn next_videos(
    user: &User,
    config: &Config,
    selected_hashtag: &Option<String>,
    random_videos: Vec<Video>,
    hashtag_videos: Vec<Video>,
) -> (feed: Vec<Video>)
    requires
        config.selecting.blend_valid(selected_hashtag.is_some()),
        config.selecting.already_watched_video_sort_out_probability.unit(),
    ensures
        exists|random_draws: Seq<bool>, hashtag_draws: Seq<bool>, slot_draws: Seq<SlotDraw>|
            {
                &&& random_draws.len() == random_videos@.len()
                &&& hashtag_draws.len() == hashtag_videos@.len()
                &&& all_may_draw(
                    config.selecting.already_watched_video_sort_out_probability,
                    random_draws,
                )
                &&& all_may_draw(
                    config.selecting.already_watched_video_sort_out_probability,
                    hashtag_draws,
                )
                &&& slot_draws.len() == slots(
                    pool(random_videos@, texts(user.last_viewed@), random_draws).len(),
                    pool(hashtag_videos@, texts(user.last_viewed@), hashtag_draws).len(),
                    config.selecting.max_next_videos_amount as nat,
                )
                &&& draws_allowed(config.selecting, selected_hashtag.is_some(), slot_draws)
                &&& feed@ == (#[trigger] composed(
                    pool(random_videos@, texts(user.last_viewed@), random_draws),
                    pool(hashtag_videos@, texts(user.last_viewed@), hashtag_draws),
                    slot_draws,
                )).feed
            },
        feed@.len() <= config.selecting.max_next_videos_amount,
        feed@.len() <= random_videos@.len() + hashtag_videos@.len(),
        forall|k: int|
            0 <= k < feed@.len() ==> !texts(user.last_viewed@).contains((#[trigger] feed@[k]).uuid@),
        forall|k: int|
            0 <= k < feed@.len() ==> random_videos@.contains(#[trigger] feed@[k])
                || hashtag_videos@.contains(feed@[k]),
        selected_hashtag.is_none() ==> forall|k: int|
            0 <= k < feed@.len() ==> random_videos@.contains(#[trigger] feed@[k]),
        selected_hashtag.is_none()
            && config.selecting.already_watched_video_sort_out_probability.billionths == 0
            && config.selecting.high_score_video_probability.billionths == 0 ==> feed@ == by_score(
            unseen(random_videos@, texts(user.last_viewed@)),
        ).take(
            least(
                config.selecting.max_next_videos_amount as nat,
                unseen(random_videos@, texts(user.last_viewed@)).len(),
            ) as int,
        ),
        selected_hashtag.is_none()
            && config.selecting.already_watched_video_sort_out_probability.billionths == 0
            && config.selecting.high_score_video_probability.billionths == ONE ==> feed@
            == from_tail(
            by_score(unseen(random_videos@, texts(user.last_viewed@))),
            least(
                config.selecting.max_next_videos_amount as nat,
                unseen(random_videos@, texts(user.last_viewed@)).len(),
            ),
        ),
        config.selecting.already_watched_video_sort_out_probability.billionths == ONE ==> feed@.len()
            == 0,
{
    let ghost viewed = texts(user.last_viewed@);
    let ghost sort_out = config.selecting.already_watched_video_sort_out_probability;
    let mut random_stay = random_videos;
    let mut hashtag_stay = hashtag_videos;
    sort_out_repeated_videos(config, &mut random_stay, user);
    let ghost random_draws = choose|draws: Seq<bool>|
        draws.len() == random_videos@.len() && all_may_draw(sort_out, draws) && random_stay@
            == #[trigger] kept(random_videos@, viewed, draws);
    sort_out_repeated_videos(config, &mut hashtag_stay, user);
    let ghost hashtag_draws = choose|draws: Seq<bool>|
        draws.len() == hashtag_videos@.len() && all_may_draw(sort_out, draws) && hashtag_stay@
            == #[trigger] kept(hashtag_videos@, viewed, draws);
    let ghost random_kept = random_stay@;
    let ghost hashtag_kept = hashtag_stay@;
    let hashtag_pool = sort_videos(hashtag_stay);
    let random_pool = sort_videos(random_stay);
    let feed = compose_feed(
        &random_pool,
        &hashtag_pool,
        selected_hashtag.is_some(),
        &config.selecting,
    );
    proof {
        let slot_draws = choose|draws: Seq<SlotDraw>|
            {
                &&& draws.len() == slots(
                    random_pool@.len(),
                    hashtag_pool@.len(),
                    config.selecting.max_next_videos_amount as nat,
                )
                &&& draws_allowed(config.selecting, selected_hashtag.is_some(), draws)
                &&& feed@ == #[trigger] composed(random_pool@, hashtag_pool@, draws).feed
            };
        assert(random_pool@ == pool(random_videos@, viewed, random_draws));
        assert(hashtag_pool@ == pool(hashtag_videos@, viewed, hashtag_draws));
        assert(feed@ == composed(
            pool(random_videos@, viewed, random_draws),
            pool(hashtag_videos@, viewed, hashtag_draws),
            slot_draws,
        ).feed);
        lemma_by_score_descending(random_kept);
        lemma_by_score_descending(hashtag_kept);
        lemma_kept_are_unseen(random_videos@, viewed, random_draws);
        lemma_kept_are_unseen(hashtag_videos@, viewed, hashtag_draws);
        assert forall|k: int| 0 <= k < feed@.len() implies !viewed.contains(
            (#[trigger] feed@[k]).uuid@,
        ) && (random_videos@.contains(feed@[k]) || hashtag_videos@.contains(feed@[k])) && (
        selected_hashtag.is_none() ==> random_videos@.contains(feed@[k])) by {
            let video = feed@[k];
            lemma_by_score_contains(random_kept, video);
            lemma_by_score_contains(hashtag_kept, video);
            if random_pool@.contains(video) {
                let at = choose|at: int| 0 <= at < random_kept.len() && random_kept[at] == video;
                assert(random_videos@.contains(random_kept[at]));
            }
            if hashtag_pool@.contains(video) {
                let at = choose|at: int| 0 <= at < hashtag_kept.len() && hashtag_kept[at] == video;
                assert(hashtag_videos@.contains(hashtag_kept[at]));
            }
        }
    }
    feed
}

} // verus!
