//! The order of a pool: by score, best first, candidates of equal score in
//! the order in which they came.

use crate::model::Video;
use vstd::prelude::*;

verus! {

/// `sorted` with `video` put in behind every candidate whose score is at
/// least its own.
pub open spec fn placed(sorted: Seq<Video>, video: Video) -> Seq<Video>
    decreases sorted.len(),
{
    if sorted.len() == 0 {
        seq![video]
    } else if sorted.last().score >= video.score {
        sorted.push(video)
    } else {
        placed(sorted.drop_last(), video).push(sorted.last())
    }
}

/// The candidates in the order of their scores, best first; those of equal
/// score keep their order.
pub open spec fn by_score(videos: Seq<Video>) -> Seq<Video>
    decreases videos.len(),
{
    if videos.len() == 0 {
        Seq::empty()
    } else {
        placed(by_score(videos.drop_last()), videos.last())
    }
}

/// No candidate is followed by one of a higher score.
pub open spec fn descending(videos: Seq<Video>) -> bool {
    forall|i: int, j: int|
        0 <= i < j < videos.len() ==> (#[trigger] videos[i]).score >= (#[trigger] videos[j]).score
}

/// The candidates whose score is `score`, in their order.
pub open spec fn of_score(videos: Seq<Video>, score: int) -> Seq<Video> {
    videos.filter(|v: Video| v.score == score)
}

/// The candidates with the score of each replaced by the score at the same
/// position of `scores`.
pub open spec fn scored(videos: Seq<Video>, scores: Seq<i64>) -> Seq<Video> {
    Seq::new(videos.len(), |k: int| Video { score: scores[k], ..videos[k] })
}

/// Putting a candidate in at `at` is what `placed` does, where every
/// candidate from `at` on has a lower score and the one before `at`, if
/// any, has not.
pub proof fn lemma_placed_at(sorted: Seq<Video>, video: Video, at: int)
    requires
        0 <= at <= sorted.len(),
        forall|k: int| at <= k < sorted.len() ==> sorted[k].score < video.score,
        at > 0 ==> sorted[at - 1].score >= video.score,
    ensures
        placed(sorted, video) == sorted.insert(at, video),
    decreases sorted.len(),
{
    if sorted.len() == 0 {
        assert(sorted.insert(at, video) =~= seq![video]);
    } else if at == sorted.len() {
        assert(sorted.insert(at, video) =~= sorted.push(video));
    } else {
        lemma_placed_at(sorted.drop_last(), video, at);
        assert(sorted.drop_last().insert(at, video).push(sorted.last()) =~= sorted.insert(
            at,
            video,
        ));
    }
}

/// `placed` puts the candidate in at one position and keeps the others in
/// their order: the position behind the last candidate whose score is at
/// least the new one.
pub proof fn lemma_placed_position(sorted: Seq<Video>, video: Video) -> (at: int)
    requires
        descending(sorted),
    ensures
        0 <= at <= sorted.len(),
        placed(sorted, video) == sorted.insert(at, video),
        forall|k: int| 0 <= k < at ==> sorted[k].score >= video.score,
        forall|k: int| at <= k < sorted.len() ==> sorted[k].score < video.score,
    decreases sorted.len(),
{
    if sorted.len() == 0 {
        assert(sorted.insert(0, video) =~= seq![video]);
        0
    } else if sorted.last().score >= video.score {
        assert(sorted.insert(sorted.len() as int, video) =~= sorted.push(video));
        assert forall|k: int| 0 <= k < sorted.len() implies sorted[k].score >= video.score by {
            if k < sorted.len() - 1 {
                assert(sorted[k].score >= sorted[sorted.len() - 1].score);
            }
        }
        sorted.len() as int
    } else {
        let front = sorted.drop_last();
        assert(descending(front)) by {
            assert forall|i: int, j: int| 0 <= i < j < front.len() implies (#[trigger] front[i]).score
                >= (#[trigger] front[j]).score by {
                assert(sorted[i].score >= sorted[j].score);
            }
        }
        let at = lemma_placed_position(front, video);
        assert(front.insert(at, video).push(sorted.last()) =~= sorted.insert(at, video));
        assert forall|k: int| 0 <= k < at implies sorted[k].score >= video.score by {
            assert(front[k].score >= video.score);
        }
        assert forall|k: int| at <= k < sorted.len() implies sorted[k].score < video.score by {
            if k < front.len() {
                assert(front[k].score < video.score);
            }
        }
        at
    }
}

/// Putting a candidate into a descending pool leaves it descending.
pub proof fn lemma_placed_descending(sorted: Seq<Video>, video: Video)
    requires
        descending(sorted),
    ensures
        descending(placed(sorted, video)),
{
    let at = lemma_placed_position(sorted, video);
    let after = sorted.insert(at, video);
    assert forall|i: int, j: int| 0 <= i < j < after.len() implies (#[trigger] after[i]).score >= (
    #[trigger] after[j]).score by {
        if j < at {
            assert(sorted[i].score >= sorted[j].score);
        } else if j == at {
            assert(sorted[i].score >= video.score);
        } else if i < at {
            assert(sorted[i].score >= sorted[j - 1].score);
        } else if i == at {
            assert(sorted[j - 1].score < video.score);
        } else {
            assert(sorted[i - 1].score >= sorted[j - 1].score);
        }
    }
}

/// Putting a candidate into a descending pool puts it behind the
/// candidates of its own score and leaves those of every other score as
/// they were.
pub proof fn lemma_placed_of_score(sorted: Seq<Video>, video: Video, score: int)
    requires
        descending(sorted),
    ensures
        of_score(placed(sorted, video), score) == if video.score == score {
            of_score(sorted, score).push(video)
        } else {
            of_score(sorted, score)
        },
{
    let at = lemma_placed_position(sorted, video);
    let pred = |v: Video| v.score == score;
    let head = sorted.take(at);
    let tail = sorted.skip(at);
    assert(sorted.insert(at, video) =~= head + seq![video] + tail);
    assert(sorted =~= head + tail);
    Seq::filter_distributes_over_add(head + seq![video], tail, pred);
    Seq::filter_distributes_over_add(head, seq![video], pred);
    Seq::filter_distributes_over_add(head, tail, pred);
    reveal(Seq::filter);
    assert(seq![video].drop_last() =~= Seq::<Video>::empty());
    assert(Seq::<Video>::empty().filter(pred) =~= Seq::<Video>::empty());
    assert(seq![video].last() == video);
    assert(seq![video].filter(pred) =~= if video.score == score {
        seq![video]
    } else {
        Seq::<Video>::empty()
    });
    if video.score == score {
        assert(tail.filter(pred) =~= Seq::<Video>::empty()) by {
            lemma_none_of_score(tail, score);
        }
        assert(head.filter(pred) + seq![video] + Seq::<Video>::empty() =~= (head.filter(pred)
            + Seq::<Video>::empty()).push(video));
    } else {
        assert(head.filter(pred) + Seq::<Video>::empty() + tail.filter(pred) =~= head.filter(pred)
            + tail.filter(pred));
    }
}

/// A pool without a candidate of some score has none to show for it.
pub proof fn lemma_none_of_score(videos: Seq<Video>, score: int)
    requires
        forall|k: int| 0 <= k < videos.len() ==> videos[k].score != score,
    ensures
        of_score(videos, score).len() == 0,
    decreases videos.len(),
{
    reveal(Seq::filter);
    if videos.len() > 0 {
        lemma_none_of_score(videos.drop_last(), score);
    }
}

/// The order by score is descending.
pub proof fn lemma_by_score_descending(videos: Seq<Video>)
    ensures
        descending(by_score(videos)),
        by_score(videos).len() == videos.len(),
    decreases videos.len(),
{
    if videos.len() > 0 {
        lemma_by_score_descending(videos.drop_last());
        lemma_placed_descending(by_score(videos.drop_last()), videos.last());
        let _ = lemma_placed_position(by_score(videos.drop_last()), videos.last());
    }
}

/// The order by score is stable: the candidates of any one score stand in
/// it as they stood before. So it holds every candidate as often as the
/// pool did.
pub proof fn lemma_by_score_stable(videos: Seq<Video>, score: int)
    ensures
        of_score(by_score(videos), score) == of_score(videos, score),
    decreases videos.len(),
{
    reveal(Seq::filter);
    if videos.len() > 0 {
        let front = videos.drop_last();
        lemma_by_score_stable(front, score);
        lemma_by_score_descending(front);
        lemma_placed_of_score(by_score(front), videos.last(), score);
    }
}

/// The order by score holds the candidates of the pool, each as often as
/// the pool does.
pub proof fn lemma_by_score_permutes(videos: Seq<Video>)
    ensures
        by_score(videos).to_multiset() == videos.to_multiset(),
    decreases videos.len(),
{
    broadcast use vstd::seq_lib::group_to_multiset_ensures;

    if videos.len() > 0 {
        let front = videos.drop_last();
        let last = videos.last();
        lemma_by_score_permutes(front);
        lemma_by_score_descending(front);
        let at = lemma_placed_position(by_score(front), last);
        let after = by_score(front).insert(at, last);
        assert(after.remove(at) =~= by_score(front));
        assert(after.remove(at).to_multiset() =~= after.to_multiset().remove(after[at]));
        assert(after.to_multiset() =~= by_score(front).to_multiset().insert(last));
        assert(front.push(last) =~= videos);
        assert(videos.to_multiset() =~= front.to_multiset().insert(last));
    } else {
        assert(by_score(videos) =~= videos);
    }
}

/// The order by score holds a candidate if and only if the pool does.
pub proof fn lemma_by_score_contains(videos: Seq<Video>, video: Video)
    ensures
        by_score(videos).contains(video) <==> videos.contains(video),
{
    broadcast use vstd::seq_lib::group_to_multiset_ensures;

    lemma_by_score_permutes(videos);
    assert(by_score(videos).contains(video) <==> by_score(videos).to_multiset().count(video) > 0);
    assert(videos.contains(video) <==> videos.to_multiset().count(video) > 0);
}

/// Orders a pool by the scores that its candidates carry, best first;
/// candidates of equal score keep their order.
pub fn sort_videos(videos: Vec<Video>) -> (sorted: Vec<Video>)
    ensures
        sorted@ == by_score(videos@),
        sorted@.len() == videos@.len(),
        descending(sorted@),
        forall|score: int| #[trigger] of_score(sorted@, score) == of_score(videos@, score),
{
    let mut sorted: Vec<Video> = Vec::new();
    let mut i: usize = 0;
    while i < videos.len()
        invariant
            i <= videos@.len(),
            sorted@ == by_score(videos@.take(i as int)),
        decreases videos@.len() - i,
    {
        let video = videos[i].clone();
        let mut at: usize = sorted.len();
        while at > 0 && sorted[at - 1].score < video.score
            invariant
                at <= sorted@.len(),
                forall|k: int| at <= k < sorted@.len() ==> sorted@[k].score < video.score,
            decreases at,
        {
            at -= 1;
        }
        proof {
            lemma_placed_at(sorted@, video, at as int);
            assert(videos@.take(i + 1).drop_last() =~= videos@.take(i as int));
        }
        sorted.insert(at, video);
        i += 1;
    }
    assert(videos@.take(i as int) =~= videos@);
    proof {
        lemma_by_score_descending(videos@);
        assert forall|score: int| #[trigger]
            of_score(sorted@, score) == of_score(videos@, score) by {
            lemma_by_score_stable(videos@, score);
        }
    }
    sorted
}

/// Gives each candidate the score at its position of `scores` and orders
/// the pool by these scores, best first; candidates of equal score keep
/// their order.
pub fn score_sort_videos(videos: Vec<Video>, scores: &Vec<i64>) -> (sorted: Vec<Video>)
    requires
        scores@.len() == videos@.len(),
    ensures
        sorted@ == by_score(scored(videos@, scores@)),
        sorted@.len() == videos@.len(),
        descending(sorted@),
        forall|score: int| #[trigger]
            of_score(sorted@, score) == of_score(scored(videos@, scores@), score),
{
    let mut with_scores: Vec<Video> = Vec::new();
    let mut i: usize = 0;
    while i < videos.len()
        invariant
            i <= videos@.len(),
            scores@.len() == videos@.len(),
            with_scores@ == scored(videos@, scores@).take(i as int),
        decreases videos@.len() - i,
    {
        with_scores.push(videos[i].with_score(scores[i]));
        assert(with_scores@ =~= scored(videos@, scores@).take(i + 1));
        i += 1;
    }
    assert(with_scores@ =~= scored(videos@, scores@));
    sort_videos(with_scores)
}

} // verus!
