//! Sorting out candidates before they are scored: those that the user
//! viewed lately, and others by chance.

use crate::chance::{chance, may_draw};
use crate::config::{Config, Decimal, ONE};
use crate::model::{contains_text, User, Video};
use crate::text::texts;
use vstd::prelude::*;

verus! {

/// The candidates that stay, in their order: the candidate at position `k`
/// is sorted out if `draws[k]` holds or if its identifier is among `viewed`.
pub open spec fn kept(videos: Seq<Video>, viewed: Seq<Seq<char>>, draws: Seq<bool>) -> Seq<Video>
    decreases videos.len(),
{
    if videos.len() == 0 {
        Seq::empty()
    } else {
        let front = kept(videos.drop_last(), viewed, draws);
        if draws[videos.len() - 1] || viewed.contains(videos.last().uuid@) {
            front
        } else {
            front.push(videos.last())
        }
    }
}

/// The candidates whose identifier is not among `viewed`, in their order.
pub open spec fn unseen(videos: Seq<Video>, viewed: Seq<Seq<char>>) -> Seq<Video> {
    videos.filter(|v: Video| !viewed.contains(v.uuid@))
}

/// Each of `draws` is one that a draw with chance `p` can give.
pub open spec fn all_may_draw(p: Decimal, draws: Seq<bool>) -> bool {
    forall|k: int| 0 <= k < draws.len() ==> may_draw(p, #[trigger] draws[k])
}

/// Where no draw sorts a candidate out, exactly the viewed candidates
/// leave.
pub proof fn lemma_kept_without_draws(
    videos: Seq<Video>,
    viewed: Seq<Seq<char>>,
    draws: Seq<bool>,
)
    requires
        videos.len() <= draws.len(),
        forall|k: int| 0 <= k < videos.len() ==> !draws[k],
    ensures
        kept(videos, viewed, draws) == unseen(videos, viewed),
    decreases videos.len(),
{
    reveal(Seq::filter);
    if videos.len() > 0 {
        lemma_kept_without_draws(videos.drop_last(), viewed, draws);
    }
}

/// Where every draw sorts its candidate out, none stays.
pub proof fn lemma_kept_with_all_draws(
    videos: Seq<Video>,
    viewed: Seq<Seq<char>>,
    draws: Seq<bool>,
)
    requires
        videos.len() <= draws.len(),
        forall|k: int| 0 <= k < videos.len() ==> draws[k],
    ensures
        kept(videos, viewed, draws).len() == 0,
    decreases videos.len(),
{
    if videos.len() > 0 {
        lemma_kept_with_all_draws(videos.drop_last(), viewed, draws);
    }
}

/// Whatever is drawn, a candidate that stays was among the candidates and
/// is not among the viewed, and no more stay than there were.
pub proof fn lemma_kept_are_unseen(videos: Seq<Video>, viewed: Seq<Seq<char>>, draws: Seq<bool>)
    ensures
        kept(videos, viewed, draws).len() <= videos.len(),
        forall|k: int|
            0 <= k < kept(videos, viewed, draws).len() ==> videos.contains(
                #[trigger] kept(videos, viewed, draws)[k],
            ) && !viewed.contains(kept(videos, viewed, draws)[k].uuid@),
    decreases videos.len(),
{
    if videos.len() > 0 {
        let front = videos.drop_last();
        lemma_kept_are_unseen(front, viewed, draws);
        assert forall|k: int| 0 <= k < kept(videos, viewed, draws).len() implies videos.contains(
            #[trigger] kept(videos, viewed, draws)[k],
        ) && !viewed.contains(kept(videos, viewed, draws)[k].uuid@) by {
            let video = kept(videos, viewed, draws)[k];
            if k < kept(front, viewed, draws).len() {
                assert(front.contains(video));
                let at = choose|at: int| 0 <= at < front.len() && front[at] == video;
                assert(videos[at] == video);
            } else {
                assert(videos[videos.len() - 1] == video);
            }
        }
    }
}

/// Draws `count` times with chance `p`.
pub fn draw_many(p: Decimal, count: usize) -> (draws: Vec<bool>)
    requires
        p.unit(),
    ensures
        draws@.len() == count,
        all_may_draw(p, draws@),
{
    let mut draws: Vec<bool> = Vec::new();
    while draws.len() < count
        invariant
            p.unit(),
            draws@.len() <= count,
            all_may_draw(p, draws@),
        decreases count - draws@.len(),
    {
        let hit = chance(p);
        draws.push(hit);
    }
    draws
}

/// The candidates that stay once the draws are made: see `kept`.
pub fn keep_candidates(videos: &Vec<Video>, last_viewed: &Vec<String>, draws: &Vec<bool>) -> (stay:
    Vec<Video>)
    requires
        draws@.len() == videos@.len(),
    ensures
        stay@ == kept(videos@, texts(last_viewed@), draws@),
{
    let mut stay: Vec<Video> = Vec::new();
    let mut i: usize = 0;
    while i < videos.len()
        invariant
            i <= videos@.len(),
            draws@.len() == videos@.len(),
            stay@ == kept(videos@.take(i as int), texts(last_viewed@), draws@),
        decreases videos@.len() - i,
    {
        let viewed = contains_text(last_viewed, &videos[i].uuid);
        assert(videos@.take(i + 1).drop_last() =~= videos@.take(i as int));
        if !draws[i] && !viewed {
            stay.push(videos[i].clone());
        }
        i += 1;
    }
    assert(videos@.take(i as int) =~= videos@);
    stay
}

/// Sorts out of `videos` every candidate that the user viewed lately, and
/// each other candidate with the chance
/// `already_watched_video_sort_out_probability`, drawn once for each
/// candidate. Those that stay keep their order.
///
/// With a chance of zero exactly the viewed candidates leave; with a chance
/// of one none stays.
pub fn sort_out_repeated_videos(config: &Config, videos: &mut Vec<Video>, user: &User)
    requires
        config.selecting.already_watched_video_sort_out_probability.unit(),
    ensures
        exists|draws: Seq<bool>|
            {
                &&& draws.len() == old(videos)@.len()
                &&& all_may_draw(config.selecting.already_watched_video_sort_out_probability, draws)
                &&& final(videos)@ == #[trigger] kept(
                    old(videos)@,
                    texts(user.last_viewed@),
                    draws,
                )
            },
        final(videos)@.len() <= old(videos)@.len(),
        forall|k: int|
            0 <= k < final(videos)@.len() ==> old(videos)@.contains(#[trigger] final(videos)@[k])
                && !texts(user.last_viewed@).contains(final(videos)@[k].uuid@),
        config.selecting.already_watched_video_sort_out_probability.billionths == 0 ==> final(videos)@ == unseen(old(videos)@, texts(user.last_viewed@)),
        config.selecting.already_watched_video_sort_out_probability.billionths == ONE ==> final(videos)@.len() == 0,
{
    let p = config.selecting.already_watched_video_sort_out_probability;
    let draws = draw_many(p, videos.len());
    let stay = keep_candidates(videos, &user.last_viewed, &draws);
    proof {
        let viewed = texts(user.last_viewed@);
        lemma_kept_are_unseen(videos@, viewed, draws@);
        if p.billionths == 0 {
            lemma_kept_without_draws(videos@, viewed, draws@);
        }
        if p.billionths == ONE {
            lemma_kept_with_all_draws(videos@, viewed, draws@);
        }
    }
    *videos = stay;
}

} // verus!
