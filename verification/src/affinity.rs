//! The hashtags that a user likes, ranked by how often they occur among the
//! hashtags liked last, and the choice of one of them with weights that fall
//! from rank to rank.

use crate::chance::{sample_index, weight_sum, weighted_index};
use crate::config::{Config, Decimal, ONE};
use crate::model::User;
use crate::text::{
    lemma_text_less_asymmetric, lemma_text_less_connected, lemma_text_less_irreflexive,
    lemma_text_less_transitive, precedes, text_less, texts,
};
use vstd::arithmetic::power::{lemma_pow_positive, pow};
use vstd::prelude::*;

verus! {

/// How often `tag` occurs in `tags`.
pub open spec fn occurrences(tags: Seq<Seq<char>>, tag: Seq<char>) -> nat
    decreases tags.len(),
{
    if tags.len() == 0 {
        0
    } else {
        occurrences(tags.drop_last(), tag) + if tags.last() == tag {
            1nat
        } else {
            0nat
        }
    }
}

/// `a` ranks before `b`: it occurs more often in `tags`, or as often and
/// comes first in lexical order.
pub open spec fn ranks_before(tags: Seq<Seq<char>>, a: Seq<char>, b: Seq<char>) -> bool {
    occurrences(tags, a) > occurrences(tags, b) || (occurrences(tags, a) == occurrences(tags, b)
        && text_less(a, b))
}

/// `ranking` holds exactly the hashtags that occur in `tags`, each once,
/// every one ranking before those behind it.
pub open spec fn is_ranking(tags: Seq<Seq<char>>, ranking: Seq<Seq<char>>) -> bool {
    &&& ranking.no_duplicates()
    &&& forall|tag: Seq<char>| #[trigger] ranking.contains(tag) <==> tags.contains(tag)
    &&& forall|i: int, j: int|
        0 <= i < j < ranking.len() ==> ranks_before(tags, #[trigger] ranking[i], #[trigger] ranking[j])
}

/// A hashtag occurs in a list if and only if it is counted there.
pub proof fn lemma_occurrences_contains(tags: Seq<Seq<char>>, tag: Seq<char>)
    ensures
        occurrences(tags, tag) > 0 <==> tags.contains(tag),
        occurrences(tags, tag) <= tags.len(),
    decreases tags.len(),
{
    if tags.len() > 0 {
        let front = tags.drop_last();
        lemma_occurrences_contains(front, tag);
        if tags.last() == tag {
            assert(tags[tags.len() - 1] == tag);
        } else if front.contains(tag) {
            let at = choose|at: int| 0 <= at < front.len() && front[at] == tag;
            assert(tags[at] == tag);
        } else if tags.contains(tag) {
            let at = choose|at: int| 0 <= at < tags.len() && tags[at] == tag;
            assert(front[at] == tag);
        }
    }
}

/// The count of a hashtag is its multiplicity in the list taken as a
/// multiset.
pub proof fn lemma_occurrences_count(tags: Seq<Seq<char>>, tag: Seq<char>)
    ensures
        occurrences(tags, tag) == tags.to_multiset().count(tag),
    decreases tags.len(),
{
    broadcast use vstd::seq_lib::group_to_multiset_ensures;

    if tags.len() > 0 {
        let front = tags.drop_last();
        lemma_occurrences_count(front, tag);
        assert(front.push(tags.last()) =~= tags);
        assert(tags.to_multiset() =~= front.to_multiset().insert(tags.last()));
    }
}

/// No hashtag ranks before itself.
pub proof fn lemma_ranks_before_irreflexive(tags: Seq<Seq<char>>, a: Seq<char>)
    ensures
        !ranks_before(tags, a, a),
{
    lemma_text_less_irreflexive(a);
}

/// Of two hashtags at most one ranks before the other.
pub proof fn lemma_ranks_before_asymmetric(tags: Seq<Seq<char>>, a: Seq<char>, b: Seq<char>)
    requires
        ranks_before(tags, a, b),
    ensures
        !ranks_before(tags, b, a),
{
    if text_less(a, b) {
        lemma_text_less_asymmetric(a, b);
    }
}

/// Ranking before is transitive.
pub proof fn lemma_ranks_before_transitive(
    tags: Seq<Seq<char>>,
    a: Seq<char>,
    b: Seq<char>,
    c: Seq<char>,
)
    requires
        ranks_before(tags, a, b),
        ranks_before(tags, b, c),
    ensures
        ranks_before(tags, a, c),
{
    if text_less(a, b) && text_less(b, c) {
        lemma_text_less_transitive(a, b, c);
    }
}

/// Of two different hashtags one ranks before the other.
pub proof fn lemma_ranks_before_connected(tags: Seq<Seq<char>>, a: Seq<char>, b: Seq<char>)
    requires
        a != b,
    ensures
        ranks_before(tags, a, b) || ranks_before(tags, b, a),
{
    lemma_text_less_connected(a, b);
}

/// Two lists that hold the same hashtags, each in ranking order, are the
/// same list.
proof fn lemma_ranked_lists_equal(tags: Seq<Seq<char>>, first: Seq<Seq<char>>, second: Seq<Seq<char>>)
    requires
        forall|tag: Seq<char>| #[trigger] first.contains(tag) <==> second.contains(tag),
        forall|i: int, j: int|
            0 <= i < j < first.len() ==> ranks_before(tags, #[trigger] first[i], #[trigger] first[j]),
        forall|i: int, j: int|
            0 <= i < j < second.len() ==> ranks_before(
                tags,
                #[trigger] second[i],
                #[trigger] second[j],
            ),
    ensures
        first == second,
    decreases first.len(),
{
    if first.len() == 0 {
        if second.len() > 0 {
            assert(second.contains(second[0]));
            assert(first.contains(second[0]));
        }
        assert(first =~= second);
    } else {
        assert(first.contains(first[0]));
        assert(second.contains(first[0]));
        let j = choose|j: int| 0 <= j < second.len() && second[j] == first[0];
        assert(second.contains(second[0]));
        assert(first.contains(second[0]));
        let i = choose|i: int| 0 <= i < first.len() && first[i] == second[0];
        if j > 0 {
            assert(ranks_before(tags, second[0], second[j]));
            if i == 0 {
                lemma_ranks_before_irreflexive(tags, first[0]);
            } else {
                assert(ranks_before(tags, first[0], first[i]));
                lemma_ranks_before_asymmetric(tags, first[0], first[i]);
            }
        }
        assert(first[0] == second[0]);
        let rest_first = first.drop_first();
        let rest_second = second.drop_first();
        assert forall|tag: Seq<char>| #[trigger]
            rest_first.contains(tag) <==> rest_second.contains(tag) by {
            lemma_ranks_before_irreflexive(tags, tag);
            if rest_first.contains(tag) {
                let at = choose|at: int| 0 <= at < rest_first.len() && rest_first[at] == tag;
                assert(first[at + 1] == tag);
                assert(ranks_before(tags, first[0], first[at + 1]));
                assert(first.contains(tag));
                assert(second.contains(tag));
                let to = choose|to: int| 0 <= to < second.len() && second[to] == tag;
                assert(to > 0);
                assert(rest_second[to - 1] == tag);
            }
            if rest_second.contains(tag) {
                let at = choose|at: int| 0 <= at < rest_second.len() && rest_second[at] == tag;
                assert(second[at + 1] == tag);
                assert(ranks_before(tags, second[0], second[at + 1]));
                assert(second.contains(tag));
                assert(first.contains(tag));
                let to = choose|to: int| 0 <= to < first.len() && first[to] == tag;
                assert(to > 0);
                assert(rest_first[to - 1] == tag);
            }
        }
        assert forall|i: int, j: int| 0 <= i < j < rest_first.len() implies ranks_before(
            tags,
            #[trigger] rest_first[i],
            #[trigger] rest_first[j],
        ) by {
            assert(ranks_before(tags, first[i + 1], first[j + 1]));
        }
        assert forall|i: int, j: int| 0 <= i < j < rest_second.len() implies ranks_before(
            tags,
            #[trigger] rest_second[i],
            #[trigger] rest_second[j],
        ) by {
            assert(ranks_before(tags, second[i + 1], second[j + 1]));
        }
        lemma_ranked_lists_equal(tags, rest_first, rest_second);
        assert(first =~= seq![first[0]] + rest_first);
        assert(second =~= seq![second[0]] + rest_second);
    }
}

/// The ranking is decided by how often each hashtag occurs and by nothing
/// else: two lists that hold the same hashtags equally often, in whatever
/// order, have one and the same ranking.
pub proof fn lemma_ranking_unique(
    tags: Seq<Seq<char>>,
    other: Seq<Seq<char>>,
    ranking: Seq<Seq<char>>,
    other_ranking: Seq<Seq<char>>,
)
    requires
        tags.to_multiset() == other.to_multiset(),
        is_ranking(tags, ranking),
        is_ranking(other, other_ranking),
    ensures
        ranking == other_ranking,
{
    assert forall|tag: Seq<char>| occurrences(tags, tag) == occurrences(other, tag) by {
        lemma_occurrences_count(tags, tag);
        lemma_occurrences_count(other, tag);
    }
    assert forall|tag: Seq<char>| #[trigger]
        ranking.contains(tag) <==> other_ranking.contains(tag) by {
        lemma_occurrences_contains(tags, tag);
        lemma_occurrences_contains(other, tag);
        assert(occurrences(tags, tag) == occurrences(other, tag));
    }
    assert forall|i: int, j: int| 0 <= i < j < other_ranking.len() implies ranks_before(
        tags,
        #[trigger] other_ranking[i],
        #[trigger] other_ranking[j],
    ) by {
        assert(ranks_before(other, other_ranking[i], other_ranking[j]));
        assert(occurrences(tags, other_ranking[i]) == occurrences(other, other_ranking[i]));
        assert(occurrences(tags, other_ranking[j]) == occurrences(other, other_ranking[j]));
    }
    lemma_ranked_lists_equal(tags, ranking, other_ranking);
}

/// `list` with `item` put in at `at` holds `item` and what `list` held.
proof fn lemma_insert_contains(list: Seq<Seq<char>>, at: int, item: Seq<char>, tag: Seq<char>)
    requires
        0 <= at <= list.len(),
    ensures
        list.insert(at, item).contains(tag) <==> list.contains(tag) || tag == item,
{
    let after = list.insert(at, item);
    if after.contains(tag) {
        let k = choose|k: int| 0 <= k < after.len() && after[k] == tag;
        if k < at {
            assert(list[k] == tag);
        } else if k > at {
            assert(list[k - 1] == tag);
        }
    }
    if list.contains(tag) {
        let k = choose|k: int| 0 <= k < list.len() && list[k] == tag;
        if k < at {
            assert(after[k] == tag);
        } else {
            assert(after[k + 1] == tag);
        }
    }
    if tag == item {
        assert(after[at] == tag);
    }
}

/// The first `count + 1` items hold the item at `count` and what the first
/// `count` held.
proof fn lemma_take_contains(list: Seq<Seq<char>>, count: int, tag: Seq<char>)
    requires
        0 <= count < list.len(),
    ensures
        list.take(count + 1).contains(tag) <==> list.take(count).contains(tag) || tag
            == list[count],
{
    let longer = list.take(count + 1);
    let shorter = list.take(count);
    if longer.contains(tag) {
        let k = choose|k: int| 0 <= k < longer.len() && longer[k] == tag;
        if k < count {
            assert(shorter[k] == tag);
        }
    }
    if shorter.contains(tag) {
        let k = choose|k: int| 0 <= k < shorter.len() && shorter[k] == tag;
        assert(longer[k] == tag);
    }
    if tag == list[count] {
        assert(longer[count] == tag);
    }
}

/// The hashtags of `tags`, each once, in the order in which they first
/// occur.
pub open spec fn firsts(tags: Seq<Seq<char>>) -> Seq<Seq<char>>
    decreases tags.len(),
{
    if tags.len() == 0 {
        Seq::empty()
    } else {
        let front = firsts(tags.drop_last());
        if front.contains(tags.last()) {
            front
        } else {
            front.push(tags.last())
        }
    }
}

/// `tags` holds each hashtag of `input` once, in the order in which they
/// first occur, and `counts` at the same position how often it occurs there.
pub open spec fn is_count(input: Seq<Seq<char>>, tags: Seq<Seq<char>>, counts: Seq<usize>) -> bool {
    &&& tags == firsts(input)
    &&& tags.len() == counts.len()
    &&& tags.no_duplicates()
    &&& forall|tag: Seq<char>| #[trigger] tags.contains(tag) <==> occurrences(input, tag) > 0
    &&& forall|k: int| 0 <= k < tags.len() ==> counts[k] == occurrences(input, #[trigger] tags[k])
}

/// Counts how often each hashtag of `list` occurs: the hashtags in the
/// order in which they first occur, and their counts beside them.
pub fn count_hashtags(list: &Vec<String>) -> (counted: (Vec<String>, Vec<usize>))
    ensures
        is_count(texts(list@), texts(counted.0@), counted.1@),
        counted.0@.len() <= list@.len(),
{
    let ghost input = texts(list@);
    let mut tags: Vec<String> = Vec::new();
    let mut counts: Vec<usize> = Vec::new();
    let mut i: usize = 0;
    assert(texts(tags@) =~= firsts(input.take(0)));
    while i < list.len()
        invariant
            i <= list@.len(),
            input == texts(list@),
            tags@.len() <= i,
            is_count(input.take(i as int), texts(tags@), counts@),
        decreases list@.len() - i,
    {
        let ghost prefix = input.take(i as int);
        let ghost longer = input.take(i + 1);
        let ghost old_tags = texts(tags@);
        let ghost old_counts = counts@;
        let tag = &list[i];
        assert(longer.drop_last() =~= prefix);
        assert(longer.last() == tag@);
        let mut j: usize = 0;
        while j < tags.len() && tags[j] != *tag
            invariant
                j <= tags@.len(),
                forall|k: int| 0 <= k < j ==> texts(tags@)[k] != tag@,
            decreases tags@.len() - j,
        {
            j += 1;
        }
        if j < tags.len() {
            proof {
                lemma_occurrences_contains(prefix, old_tags[j as int]);
                assert(counts@[j as int] == occurrences(prefix, old_tags[j as int]));
            }
            let more = counts[j] + 1;
            counts.set(j, more);
            assert forall|k: int| 0 <= k < old_tags.len() implies counts@[k] == occurrences(
                longer,
                #[trigger] old_tags[k],
            ) by {
                if k != j {
                    assert(old_tags[k] != old_tags[j as int]);
                }
            }
            assert forall|t: Seq<char>| #[trigger]
                old_tags.contains(t) <==> occurrences(longer, t) > 0 by {
                if t == tag@ {
                    assert(old_tags[j as int] == t);
                }
            }
        } else {
            assert(!old_tags.contains(tag@));
            tags.push(tag.clone());
            counts.push(1);
            let ghost new_tags = texts(tags@);
            assert(new_tags =~= old_tags.push(tag@));
            assert forall|t: Seq<char>| #[trigger]
                new_tags.contains(t) <==> occurrences(longer, t) > 0 by {
                if t == tag@ {
                    assert(new_tags[old_tags.len() as int] == t);
                } else {
                    if old_tags.contains(t) {
                        let k = choose|k: int| 0 <= k < old_tags.len() && old_tags[k] == t;
                        assert(new_tags[k] == t);
                    }
                    if new_tags.contains(t) {
                        let k = choose|k: int| 0 <= k < new_tags.len() && new_tags[k] == t;
                        assert(old_tags[k] == t);
                    }
                }
            }
            assert(occurrences(prefix, tag@) == 0);
            assert forall|k: int| 0 <= k < new_tags.len() implies counts@[k] == occurrences(
                longer,
                #[trigger] new_tags[k],
            ) by {
                if k < old_tags.len() {
                    assert(old_tags.contains(old_tags[k]));
                    assert(old_counts[k] == occurrences(prefix, old_tags[k]));
                }
            }
        }
        i += 1;
    }
    assert(input.take(i as int) =~= input);
    (tags, counts)
}

/// Ranks the hashtags of the videos that the user liked last: each hashtag
/// once, the one that occurs most often first, hashtags that occur equally
/// often in lexical order.
pub fn sort_user_hashtags_by_frequency(user: &User) -> (ranking: Vec<String>)
    ensures
        is_ranking(texts(user.last_hashtags@), texts(ranking@)),
        ranking@.len() <= user.last_hashtags@.len(),
{
    let ghost input = texts(user.last_hashtags@);
    let (tags, counts) = count_hashtags(&user.last_hashtags);
    let mut ranked: Vec<String> = Vec::new();
    let mut ranked_counts: Vec<usize> = Vec::new();
    let mut k: usize = 0;
    while k < tags.len()
        invariant
            k <= tags@.len(),
            tags@.len() <= user.last_hashtags@.len(),
            is_count(input, texts(tags@), counts@),
            ranked@.len() == k,
            ranked_counts@.len() == k,
            forall|tag: Seq<char>| #[trigger]
                texts(ranked@).contains(tag) <==> texts(tags@).take(k as int).contains(tag),
            forall|j: int|
                0 <= j < k ==> ranked_counts@[j] == occurrences(input, #[trigger] texts(ranked@)[j]),
            forall|i: int, j: int|
                0 <= i < j < k ==> ranks_before(
                    input,
                    #[trigger] texts(ranked@)[i],
                    #[trigger] texts(ranked@)[j],
                ),
        decreases tags@.len() - k,
    {
        let ghost old_ranked = texts(ranked@);
        let ghost old_counts = ranked_counts@;
        let tag = &tags[k];
        let count = counts[k];
        assert(texts(tags@)[k as int] == tag@);
        assert(count == occurrences(input, tag@));
        let mut at: usize = 0;
        while at < ranked.len() && (ranked_counts[at] > count || (ranked_counts[at] == count
            && precedes(&ranked[at], tag)))
            invariant
                at <= ranked@.len(),
                ranked@.len() == ranked_counts@.len(),
                count == occurrences(input, tag@),
                forall|j: int|
                    0 <= j < ranked@.len() ==> ranked_counts@[j] == occurrences(
                        input,
                        #[trigger] texts(ranked@)[j],
                    ),
                forall|j: int| 0 <= j < at ==> ranks_before(input, #[trigger] texts(ranked@)[j], tag@),
            decreases ranked@.len() - at,
        {
            assert(ranked_counts@[at as int] == occurrences(input, texts(ranked@)[at as int]));
            at += 1;
        }
        proof {
            assert(!old_ranked.contains(tag@)) by {
                if old_ranked.contains(tag@) {
                    assert(texts(tags@).take(k as int).contains(tag@));
                    let to = choose|to: int|
                        0 <= to < k && texts(tags@).take(k as int)[to] == tag@;
                    assert(texts(tags@)[to] == texts(tags@)[k as int]);
                }
            }
            if at < old_ranked.len() {
                let next = old_ranked[at as int];
                assert(old_counts[at as int] == occurrences(input, next));
                assert(old_ranked.contains(next));
                assert(!ranks_before(input, next, tag@));
                lemma_ranks_before_connected(input, next, tag@);
                assert forall|j: int| at < j < old_ranked.len() implies ranks_before(
                    input,
                    tag@,
                    #[trigger] old_ranked[j],
                ) by {
                    assert(ranks_before(input, old_ranked[at as int], old_ranked[j]));
                    lemma_ranks_before_transitive(input, tag@, next, old_ranked[j]);
                }
            }
        }
        ranked.insert(at, tag.clone());
        ranked_counts.insert(at, count);
        proof {
            let new_ranked = texts(ranked@);
            assert(new_ranked =~= old_ranked.insert(at as int, tag@));
            assert forall|t: Seq<char>| #[trigger]
                new_ranked.contains(t) <==> texts(tags@).take(k + 1).contains(t) by {
                lemma_insert_contains(old_ranked, at as int, tag@, t);
                lemma_take_contains(texts(tags@), k as int, t);
            }
            assert forall|j: int| 0 <= j < k + 1 implies ranked_counts@[j] == occurrences(
                input,
                #[trigger] new_ranked[j],
            ) by {
                if j < at {
                    assert(old_counts[j] == occurrences(input, old_ranked[j]));
                } else if j > at {
                    assert(old_counts[j - 1] == occurrences(input, old_ranked[j - 1]));
                }
            }
            assert forall|i: int, j: int| 0 <= i < j < k + 1 implies ranks_before(
                input,
                #[trigger] new_ranked[i],
                #[trigger] new_ranked[j],
            ) by {
                if j < at {
                    assert(ranks_before(input, old_ranked[i], old_ranked[j]));
                } else if j == at {
                    assert(ranks_before(input, old_ranked[i], tag@));
                } else if i < at {
                    assert(ranks_before(input, old_ranked[i], old_ranked[j - 1]));
                } else if i == at {
                    assert(ranks_before(input, tag@, old_ranked[j - 1]));
                } else {
                    assert(ranks_before(input, old_ranked[i - 1], old_ranked[j - 1]));
                }
            }
        }
        k += 1;
    }
    proof {
        let ranking = texts(ranked@);
        assert(texts(tags@).take(k as int) =~= texts(tags@));
        assert forall|tag: Seq<char>| #[trigger] ranking.contains(tag) <==> input.contains(tag) by {
            lemma_occurrences_contains(input, tag);
        }
        assert forall|i: int, j: int| 0 <= i < j < ranking.len() implies ranking[i]
            != ranking[j] by {
            assert(ranks_before(input, ranking[i], ranking[j]));
            lemma_ranks_before_irreflexive(input, ranking[i]);
        }
    }
    ranked
}

/// The weight of the first rank.
pub const FULL_WEIGHT: u64 = 0x8000_0000;

/// The weight of a rank: `FULL_WEIGHT` for the first, and for each further
/// rank the weight before it times the decay, rounded down.
pub open spec fn decay_weight(decay: Decimal, rank: nat) -> int
    decreases rank,
{
    if rank == 0 {
        FULL_WEIGHT as int
    } else {
        decay_weight(decay, (rank - 1) as nat) * decay.billionths / (ONE as int)
    }
}

/// With a decay in `[0, 1]` no weight is negative and none is above the
/// weight of the rank before it.
pub proof fn lemma_decay_weight_falls(decay: Decimal, rank: nat)
    requires
        decay.unit(),
    ensures
        0 <= decay_weight(decay, rank + 1) <= decay_weight(decay, rank) <= FULL_WEIGHT,
    decreases rank,
{
    if rank > 0 {
        lemma_decay_weight_falls(decay, (rank - 1) as nat);
    }
    let w = decay_weight(decay, rank);
    let d = decay.billionths as int;
    assert(0 <= w * d / 1_000_000_000 <= w) by (nonlinear_arith)
        requires
            0 <= w,
            0 <= d <= 1_000_000_000,
    ;
}

/// With a decay below one the first rank weighs more than the second, and
/// the second weighs the decay's share of the first, rounded down to a
/// whole weight.
pub proof fn lemma_first_rank_heaviest(decay: Decimal)
    requires
        decay.unit(),
        decay.billionths < ONE,
    ensures
        decay_weight(decay, 1) < decay_weight(decay, 0),
        decay_weight(decay, 1) * ONE <= decay_weight(decay, 0) * decay.billionths,
        decay_weight(decay, 0) * decay.billionths < (decay_weight(decay, 1) + 1) * ONE,
{
    let w = decay_weight(decay, 0);
    let d = decay.billionths as int;
    assert(decay_weight(decay, 1) == w * d / 1_000_000_000);
    assert(w * d / 1_000_000_000 < w && (w * d / 1_000_000_000) * 1_000_000_000 <= w * d && w * d
        < (w * d / 1_000_000_000 + 1) * 1_000_000_000) by (nonlinear_arith)
        requires
            0 < w,
            0 <= d < 1_000_000_000,
    ;
}

/// The weight of a rank is `FULL_WEIGHT` times the decay to the power of
/// the rank, but for the rounding: it is not above that product, and falls
/// short of it by less than one for each rank before it.
pub proof fn lemma_decay_weight_near_power(decay: Decimal, rank: nat)
    requires
        decay.unit(),
    ensures
        decay_weight(decay, rank) * pow(ONE as int, rank) <= FULL_WEIGHT * pow(
            decay.billionths as int,
            rank,
        ),
        FULL_WEIGHT * pow(decay.billionths as int, rank) <= (decay_weight(decay, rank) + rank)
            * pow(ONE as int, rank),
    decreases rank,
{
    reveal(pow);
    let d = decay.billionths as int;
    let one = ONE as int;
    if rank > 0 {
        let before = (rank - 1) as nat;
        lemma_decay_weight_near_power(decay, before);
        lemma_decay_weight_falls(decay, before);
        lemma_pow_positive(one, before);
        let w = decay_weight(decay, before);
        let next = decay_weight(decay, rank);
        let p = pow(one, before);
        let q = pow(d, before);
        assert(pow(one, rank) == one * p);
        assert(pow(d, rank) == d * q);
        assert(next == w * d / one);
        assert(next * one <= w * d && w * d < (next + 1) * one) by (nonlinear_arith)
            requires
                next == w * d / one,
                one > 0,
        ;
        assert(next * (one * p) <= FULL_WEIGHT * (d * q)) by (nonlinear_arith)
            requires
                next * one <= w * d,
                w * p <= FULL_WEIGHT * q,
                p > 0,
                d >= 0,
        ;
        assert(FULL_WEIGHT * (d * q) <= (next + rank) * (one * p)) by (nonlinear_arith)
            requires
                w * d < (next + 1) * one,
                FULL_WEIGHT * q <= (w + before) * p,
                rank == before + 1,
                p > 0,
                0 <= d <= one,
        ;
    }
}

/// The sum of weights that are all at most `FULL_WEIGHT` is at most that
/// for each of them, and at least the first of them.
proof fn lemma_weight_sum_bounds(weights: Seq<u64>)
    requires
        forall|k: int| 0 <= k < weights.len() ==> weights[k] <= FULL_WEIGHT,
    ensures
        weight_sum(weights) <= weights.len() * FULL_WEIGHT,
        weights.len() > 0 ==> weight_sum(weights) >= weights[0],
        weight_sum(weights) >= 0,
    decreases weights.len(),
{
    if weights.len() > 0 {
        lemma_weight_sum_bounds(weights.drop_last());
        assert(weights.len() * FULL_WEIGHT == (weights.len() - 1) * FULL_WEIGHT + FULL_WEIGHT)
            by (nonlinear_arith);
    }
}

/// The weights of the first `count` ranks.
pub fn decay_weights(decay: Decimal, count: usize) -> (weights: Vec<u64>)
    requires
        decay.unit(),
    ensures
        weights@.len() == count,
        forall|rank: int| 0 <= rank < count ==> weights@[rank] == decay_weight(decay, rank as nat),
{
    let factor = decay.billionths as u64;
    let mut weights: Vec<u64> = Vec::new();
    let mut weight: u64 = FULL_WEIGHT;
    while weights.len() < count
        invariant
            decay.unit(),
            factor == decay.billionths,
            weights@.len() <= count,
            weight == decay_weight(decay, weights@.len()),
            weight <= FULL_WEIGHT,
            forall|rank: int|
                0 <= rank < weights@.len() ==> weights@[rank] == decay_weight(decay, rank as nat),
        decreases count - weights@.len(),
    {
        proof {
            lemma_decay_weight_falls(decay, weights@.len());
            assert(weight * factor <= 0x8000_0000 * 1_000_000_000) by (nonlinear_arith)
                requires
                    weight <= 0x8000_0000,
                    factor <= 1_000_000_000,
            ;
        }
        weights.push(weight);
        weight = weight * factor / (ONE as u64);
    }
    weights
}

/// Chooses one item of `vec` by chance, the item at rank `r` with the
/// weight `decay_weight(decay_factor, r)`: `None` for an empty list, else an
/// item whose rank has a weight above zero. With a decay of zero that is
/// the first item.
pub fn weighted_random(vec: &Vec<String>, decay_factor: Decimal) -> (chosen: Option<String>)
    requires
        decay_factor.unit(),
        vec@.len() <= u32::MAX,
    ensures
        chosen.is_none() == (vec@.len() == 0),
        chosen.is_some() ==> exists|rank: int|
            0 <= rank < vec@.len() && chosen.unwrap()@ == (#[trigger] vec@[rank])@ && decay_weight(
                decay_factor,
                rank as nat,
            ) > 0,
        chosen.is_some() && decay_factor.billionths == 0 ==> chosen.unwrap()@ == vec@[0]@,
{
    if vec.len() == 0 {
        return None;
    }
    let weights = decay_weights(decay_factor, vec.len());
    proof {
        assert forall|k: int| 0 <= k < weights@.len() implies weights@[k] <= FULL_WEIGHT by {
            lemma_decay_weight_falls(decay_factor, k as nat);
        }
        lemma_weight_sum_bounds(weights@);
        assert(weights@.len() * FULL_WEIGHT <= 0xFFFF_FFFF * 0x8000_0000) by (nonlinear_arith)
            requires
                weights@.len() <= 0xFFFF_FFFF,
                FULL_WEIGHT == 0x8000_0000,
        ;
    }
    match weighted_index(&weights) {
        Some(dist) => {
            let rank = sample_index(&dist);
            Some(vec[rank].clone())
        },
        None => {
            proof {
                assert(false);
            }
            None
        },
    }
}

/// Chooses the hashtag that a feed is built around: one of the user's
/// hashtags, by chance, a hashtag that ranks higher with a higher weight.
/// `None` if the user has liked no hashtag.
pub fn select_hashtag(user: &User, config: &Config) -> (chosen: Option<String>)
    requires
        config.selecting.select_high_freq_hashtag_probability.unit(),
        user.last_hashtags@.len() <= u32::MAX,
    ensures
        chosen.is_none() == (user.last_hashtags@.len() == 0),
        chosen.is_some() ==> texts(user.last_hashtags@).contains(chosen.unwrap()@),
        chosen.is_some() ==> exists|ranking: Seq<Seq<char>>, rank: int|
            {
                &&& is_ranking(texts(user.last_hashtags@), ranking)
                &&& 0 <= rank < ranking.len()
                &&& chosen.unwrap()@ == #[trigger] ranking[rank]
                &&& decay_weight(
                    config.selecting.select_high_freq_hashtag_probability,
                    rank as nat,
                ) > 0
            },
{
    let ranking = sort_user_hashtags_by_frequency(user);
    proof {
        let input = texts(user.last_hashtags@);
        if input.len() > 0 {
            assert(input.contains(input[0]));
            assert(texts(ranking@).contains(input[0]));
        }
    }
    let chosen = weighted_random(&ranking, config.selecting.select_high_freq_hashtag_probability);
    proof {
        if chosen.is_some() {
            let rank = choose|rank: int|
                0 <= rank < ranking@.len() && chosen.unwrap()@ == (#[trigger] ranking@[rank])@
                    && decay_weight(
                    config.selecting.select_high_freq_hashtag_probability,
                    rank as nat,
                ) > 0;
            assert(texts(ranking@)[rank] == chosen.unwrap()@);
            assert(texts(ranking@).contains(chosen.unwrap()@));
        }
    }
    chosen
}

} // verus!
