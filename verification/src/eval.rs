//! Retrieval quality: the held-out pairs, the rank of each answer, and recall.
//!
//! A similarity is held by the bits of its single-precision number.

use vstd::prelude::*;

use crate::data::TextPair;

verus! {

/// How many texts are embedded at a time.
pub const EVAL_BATCH_SIZE: usize = 64;

/// The number of the first pair that is held out: the last `wanted` pairs are, or
/// all of them where there are no more.
pub open spec fn held_out_start(pairs: nat, wanted: nat) -> nat {
    if pairs > wanted {
        (pairs - wanted) as nat
    } else {
        0
    }
}

/// The pairs that retrieval is measured on: the last ones.
pub fn held_out_pairs(pairs: Vec<TextPair>, wanted: usize) -> (r: Vec<TextPair>)
    ensures
        r@ == pairs@.skip(held_out_start(pairs@.len(), wanted as nat) as int),
{
    let mut pairs = pairs;
    let start = if pairs.len() > wanted {
        pairs.len() - wanted
    } else {
        0
    };
    pairs.split_off(start)
}

/// As many pairs are held out as were asked for, or all that there are, and they
/// stand at the end of the list.
pub proof fn law_held_out_pairs_are_the_last(pairs: Seq<TextPair>, wanted: nat)
    ensures
        ({
            let held = pairs.skip(held_out_start(pairs.len(), wanted) as int);
            &&& held.len() == if pairs.len() < wanted {
                pairs.len()
            } else {
                wanted
            }
            &&& held.is_suffix_of(pairs)
        }),
{
    let start = held_out_start(pairs.len(), wanted) as int;
    let held = pairs.skip(start);
    assert(held =~= pairs.subrange(pairs.len() - held.len(), pairs.len() as int));
}

/// Whether the bits are those of a number, which can be compared.
pub open spec fn is_number(bits: u32) -> bool {
    bits % 0x8000_0000 <= 0x7f80_0000
}

/// The place of a number among the others: its size, counted from zero, in the
/// direction of its sign. Both zeros have the same place.
pub open spec fn order_key(bits: u32) -> int {
    if bits < 0x8000_0000 {
        bits as int
    } else {
        0x8000_0000 - bits
    }
}

/// Whether every similarity can be compared.
pub open spec fn all_numbers(sims: Seq<u32>) -> bool {
    forall|i: int| 0 <= i < sims.len() ==> is_number(#[trigger] sims[i])
}

/// Whether one candidate comes before another: it is more similar, or as similar
/// and listed before it.
pub open spec fn ranked_before(sims: Seq<u32>, j: int, i: int) -> bool {
    order_key(sims[j]) > order_key(sims[i]) || (order_key(sims[j]) == order_key(sims[i]) && j < i)
}

/// How many of the first candidates come before one.
pub open spec fn count_before(sims: Seq<u32>, i: int, upto: nat) -> nat
    decreases upto,
{
    if upto == 0 {
        0
    } else {
        count_before(sims, i, (upto - 1) as nat) + if ranked_before(sims, upto - 1, i) {
            1nat
        } else {
            0nat
        }
    }
}

/// The rank of a candidate, counted from one.
pub open spec fn rank(sims: Seq<u32>, i: int) -> nat {
    count_before(sims, i, sims.len()) + 1
}

/// Whether a list of candidates is sorted by falling similarity, with those of
/// the same similarity left in their order.
pub open spec fn is_ranking(sims: Seq<u32>, order: Seq<int>) -> bool {
    &&& order.no_duplicates()
    &&& forall|j: int| order.contains(j) <==> 0 <= j < sims.len()
    &&& forall|p: int, q: int|
        0 <= p < q < order.len() ==> ranked_before(sims, #[trigger] order[p], #[trigger] order[q])
}

/// The candidates that come before one.
spec fn before(sims: Seq<u32>, i: int, upto: nat) -> Set<int> {
    vstd::set_lib::set_int_range(0, upto as int).filter(|j: int| ranked_before(sims, j, i))
}

proof fn lemma_count_before(sims: Seq<u32>, i: int, upto: nat)
    ensures
        before(sims, i, upto).finite(),
        before(sims, i, upto).len() == count_before(sims, i, upto),
        count_before(sims, i, upto) <= upto,
    decreases upto,
{
    vstd::set_lib::lemma_int_range(0, upto as int);
    if upto == 0 {
        assert(before(sims, i, upto) =~= Set::empty());
    } else {
        let fewer = (upto - 1) as nat;
        lemma_count_before(sims, i, fewer);
        if ranked_before(sims, upto - 1, i) {
            assert(before(sims, i, upto) =~= before(sims, i, fewer).insert(upto - 1));
        } else {
            assert(before(sims, i, upto) =~= before(sims, i, fewer));
        }
    }
}

/// The rank of a candidate is one more than the number of candidates that are more
/// similar, or as similar and listed before it.
pub proof fn law_rank_counts_better_candidates(sims: Seq<u32>, i: int)
    ensures
        rank(sims, i) == 1 + vstd::set_lib::set_int_range(0, sims.len() as int).filter(
            |j: int|
                order_key(sims[j]) > order_key(sims[i]) || (order_key(sims[j]) == order_key(sims[i])
                    && j < i),
        ).len(),
{
    lemma_count_before(sims, i, sims.len());
    assert(before(sims, i, sims.len()) =~= vstd::set_lib::set_int_range(
        0,
        sims.len() as int,
    ).filter(
        |j: int|
            order_key(sims[j]) > order_key(sims[i]) || (order_key(sims[j]) == order_key(sims[i])
                && j < i),
    ));
}

/// The size of the single-precision number with some bits, in units of the smallest
/// one: an exponent of zero leaves the fraction as it is, and each further step
/// doubles it with its hidden bit.
pub open spec fn magnitude(bits: u32) -> int {
    let exponent = (bits as int / 0x80_0000) % 0x100;
    let fraction = bits as int % 0x80_0000;
    if exponent == 0 {
        fraction
    } else {
        (0x80_0000 + fraction) * vstd::arithmetic::power2::pow2((exponent - 1) as nat)
    }
}

/// The single-precision number with some bits, in units of the smallest positive one.
pub open spec fn number_value(bits: u32) -> int {
    if (bits as int / 0x8000_0000) % 2 == 0 {
        magnitude(bits)
    } else {
        -magnitude(bits)
    }
}

proof fn lemma_magnitude_grows(x: u32, y: u32)
    requires
        x < y < 0x8000_0000,
    ensures
        0 <= magnitude(x) < magnitude(y),
{
    let ex = x as int / 0x80_0000;
    let ey = y as int / 0x80_0000;
    let fx = x as int % 0x80_0000;
    let fy = y as int % 0x80_0000;
    assert(ex <= ey);
    if ey > 0 {
        let top = vstd::arithmetic::power2::pow2((ey - 1) as nat) as int;
        vstd::arithmetic::power2::lemma_pow2_pos((ey - 1) as nat);
        assert((0x80_0000 + fy) * top >= 0x80_0000 * top && 0x80_0000 * top >= 0x80_0000)
            by (nonlinear_arith)
            requires
                top >= 1,
                fy >= 0,
        ;
        if ex == ey {
            assert(fx < fy);
            assert(0 <= (0x80_0000 + fx) * top < (0x80_0000 + fy) * top) by (nonlinear_arith)
                requires
                    top >= 1,
                    0 <= fx < fy,
            ;
        } else if ex > 0 {
            let low = vstd::arithmetic::power2::pow2((ex - 1) as nat) as int;
            vstd::arithmetic::power2::lemma_pow2_pos((ex - 1) as nat);
            vstd::arithmetic::power2::lemma_pow2_unfold(ex as nat);
            if ex < ey - 1 {
                vstd::arithmetic::power2::lemma_pow2_strictly_increases(
                    ex as nat,
                    (ey - 1) as nat,
                );
            }
            assert(2 * low <= top);
            assert(0 <= (0x80_0000 + fx) * low < 0x80_0000 * top) by (nonlinear_arith)
                requires
                    1 <= low,
                    2 * low <= top,
                    0 <= fx < 0x80_0000,
            ;
        }
    }
}

/// Similarities are compared as the numbers that their bits stand for.
pub proof fn law_keys_compare_as_numbers(a: u32, b: u32)
    requires
        is_number(a),
        is_number(b),
    ensures
        order_key(a) < order_key(b) <==> number_value(a) < number_value(b),
        order_key(a) == order_key(b) <==> number_value(a) == number_value(b),
{
    let x = if a < 0x8000_0000 {
        a
    } else {
        (a - 0x8000_0000) as u32
    };
    let y = if b < 0x8000_0000 {
        b
    } else {
        (b - 0x8000_0000) as u32
    };
    lemma_magnitude_of_size(a, x);
    lemma_magnitude_of_size(b, y);
    assert(magnitude(0u32) == 0);
    if x > 0 {
        lemma_magnitude_grows(0, x);
    }
    if y > 0 {
        lemma_magnitude_grows(0, y);
    }
    if x < y {
        lemma_magnitude_grows(x, y);
    } else if y < x {
        lemma_magnitude_grows(y, x);
    }
}

proof fn lemma_magnitude_of_size(bits: u32, size: u32)
    requires
        size < 0x8000_0000,
        bits == size || bits == size + 0x8000_0000,
    ensures
        magnitude(bits) == magnitude(size),
        number_value(bits) == if bits == size {
            magnitude(size)
        } else {
            -magnitude(size)
        },
{
    assert((bits as int / 0x80_0000) % 0x100 == (size as int / 0x80_0000) % 0x100);
    assert(bits as int % 0x80_0000 == size as int % 0x80_0000);
}

/// What can be compared are all bits but those of the largest exponent with a fraction.
pub proof fn law_numbers_are_all_but_nan(bits: u32)
    ensures
        is_number(bits) <==> !((bits as int / 0x80_0000) % 0x100 == 0xff && bits as int % 0x80_0000
            != 0),
{
}

/// A list can be compared exactly where each of its similarities can.
pub proof fn law_lists_are_compared_as_a_whole(sims: Seq<u32>, more: Seq<u32>, bits: u32)
    ensures
        all_numbers(sims + more) <==> all_numbers(sims) && all_numbers(more),
        all_numbers(seq![bits]) <==> is_number(bits),
        all_numbers(Seq::empty()),
{
    let all = sims + more;
    if all_numbers(all) {
        assert forall|i: int| 0 <= i < sims.len() implies is_number(#[trigger] sims[i]) by {
            assert(all[i] == sims[i]);
        }
        assert forall|i: int| 0 <= i < more.len() implies is_number(#[trigger] more[i]) by {
            assert(all[sims.len() + i] == more[i]);
        }
    }
    assert(seq![bits][0] == bits);
}

/// The rank of a candidate is its place in the sorted list, counted from one.
pub proof fn law_rank_is_place_in_ranking(sims: Seq<u32>, order: Seq<int>, p: int)
    requires
        is_ranking(sims, order),
        0 <= p < order.len(),
    ensures
        rank(sims, order[p]) == p + 1,
{
    let i = order[p];
    let first = order.take(p);
    lemma_count_before(sims, i, sims.len());
    first.unique_seq_to_set();
    assert forall|j: int| first.to_set().contains(j) <==> before(sims, i, sims.len()).contains(
        j,
    ) by {
        if first.to_set().contains(j) {
            let k = choose|k: int| 0 <= k < first.len() && first[k] == j;
            assert(order[k] == j);
            assert(order.contains(j));
        }
        if before(sims, i, sims.len()).contains(j) {
            assert(order.contains(j));
            let k = choose|k: int| 0 <= k < order.len() && order[k] == j;
            if k > p {
                assert(ranked_before(sims, order[p], order[k]));
            }
            assert(k < p);
            assert(first[k] == j);
        }
    }
    assert(first.to_set() =~= before(sims, i, sims.len()));
}

/// The ranks are the numbers from one on, and a candidate that comes before
/// another has the smaller one. So no two candidates share a rank.
pub proof fn law_ranks_follow_similarity(sims: Seq<u32>, j: int, i: int)
    requires
        0 <= i < sims.len(),
        0 <= j < sims.len(),
    ensures
        1 <= rank(sims, i) <= sims.len(),
        rank(sims, j) < rank(sims, i) <==> ranked_before(sims, j, i),
        rank(sims, j) == rank(sims, i) <==> j == i,
{
    lemma_rank_range(sims, i);
    if ranked_before(sims, j, i) {
        lemma_before_grows(sims, j, i);
    } else if j != i {
        lemma_before_grows(sims, i, j);
    }
}

proof fn lemma_before_grows(sims: Seq<u32>, j: int, i: int)
    requires
        0 <= j < sims.len(),
        ranked_before(sims, j, i),
    ensures
        rank(sims, j) < rank(sims, i),
{
    let n = sims.len();
    lemma_count_before(sims, i, n);
    lemma_count_before(sims, j, n);
    let more = before(sims, j, n).insert(j);
    assert(more.subset_of(before(sims, i, n)));
    vstd::set_lib::lemma_len_subset(more, before(sims, i, n));
}

proof fn lemma_rank_range(sims: Seq<u32>, i: int)
    requires
        0 <= i < sims.len(),
    ensures
        1 <= rank(sims, i) <= sims.len(),
{
    let n = sims.len();
    lemma_count_before(sims, i, n);
    vstd::set_lib::lemma_int_range(0, n as int);
    let others = vstd::set_lib::set_int_range(0, n as int).remove(i);
    assert(before(sims, i, n).subset_of(others));
    vstd::set_lib::lemma_len_subset(before(sims, i, n), others);
}

/// Whether the bits are those of a number.
pub fn is_comparable(bits: u32) -> (r: bool)
    ensures
        r == is_number(bits),
{
    bits % 0x8000_0000 <= 0x7f80_0000
}

/// Whether every similarity in a list can be compared.
pub fn are_comparable(sims: &Vec<u32>) -> (r: bool)
    ensures
        r == all_numbers(sims@),
{
    let mut i: usize = 0;
    while i < sims.len()
        invariant
            i <= sims@.len(),
            forall|k: int| 0 <= k < i ==> is_number(#[trigger] sims@[k]),
        decreases sims@.len() - i,
    {
        if !is_comparable(sims[i]) {
            return false;
        }
        i += 1;
    }
    true
}

/// The place of a number among the others.
pub fn comparison_key(bits: u32) -> (r: i64)
    ensures
        r == order_key(bits),
{
    if bits < 0x8000_0000 {
        bits as i64
    } else {
        0x8000_0000 - bits as i64
    }
}

/// The rank that the candidate with the number of the query has among the
/// candidates of the query.
pub fn query_rank(sims: &Vec<u32>, query: usize) -> (r: usize)
    requires
        query < sims@.len(),
        all_numbers(sims@),
    ensures
        r == rank(sims@, query as int),
        1 <= r <= sims@.len(),
{
    let own = comparison_key(sims[query]);
    let mut count: usize = 0;
    let mut j: usize = 0;
    while j < sims.len()
        invariant
            query < sims@.len(),
            own == order_key(sims@[query as int]),
            j <= sims@.len(),
            count <= j,
            count == count_before(sims@, query as int, j as nat),
        decreases sims@.len() - j,
    {
        let key = comparison_key(sims[j]);
        if key > own || (key == own && j < query) {
            count += 1;
        }
        j += 1;
    }
    proof {
        lemma_rank_range(sims@, query as int);
    }
    count + 1
}

/// How many of some ranks are no larger than a number.
pub open spec fn count_within(ranks: Seq<usize>, k: nat) -> nat
    decreases ranks.len(),
{
    if ranks.len() == 0 {
        0
    } else {
        count_within(ranks.drop_last(), k) + if ranks.last() <= k {
            1nat
        } else {
            0nat
        }
    }
}

/// The ranks that are no larger than a number, each as often as it is there.
pub open spec fn ranks_within(ranks: Seq<usize>, k: nat) -> Seq<usize> {
    ranks.filter(|rank: usize| rank <= k)
}

/// The numbers of the queries whose rank is no larger than a number.
pub open spec fn queries_within(ranks: Seq<usize>, k: nat) -> Set<int> {
    vstd::set_lib::set_int_range(0, ranks.len() as int).filter(|i: int| ranks[i] <= k)
}

/// Recall counts queries: as many as have a rank that is no larger than the number,
/// whether or not they share it. Where all have one, it is the number of queries.
pub proof fn law_recall_counts_every_query(ranks: Seq<usize>, k: nat)
    ensures
        queries_within(ranks, k).finite(),
        count_within(ranks, k) == queries_within(ranks, k).len(),
        count_within(ranks, k) == ranks_within(ranks, k).len(),
        (forall|i: int| 0 <= i < ranks.len() ==> #[trigger] ranks[i] <= k) ==> count_within(
            ranks,
            k,
        ) == ranks.len(),
    decreases ranks.len(),
{
    reveal(Seq::filter);
    vstd::set_lib::lemma_int_range(0, ranks.len() as int);
    if ranks.len() == 0 {
        assert(queries_within(ranks, k) =~= Set::empty());
    } else {
        let fewer = ranks.drop_last();
        let last = ranks.len() - 1;
        law_recall_counts_every_query(fewer, k);
        assert(forall|i: int| 0 <= i < last ==> fewer[i] == ranks[i]);
        if ranks[last] <= k {
            assert(queries_within(ranks, k) =~= queries_within(fewer, k).insert(last));
        } else {
            assert(queries_within(ranks, k) =~= queries_within(fewer, k));
        }
    }
}

/// The recall over two lists of queries is that over the first and that over the
/// second.
pub proof fn law_recall_adds_up(ranks: Seq<usize>, more: Seq<usize>, k: nat)
    ensures
        count_within(ranks + more, k) == count_within(ranks, k) + count_within(more, k),
    decreases more.len(),
{
    if more.len() == 0 {
        assert(ranks + more =~= ranks);
    } else {
        assert((ranks + more).drop_last() =~= ranks + more.drop_last());
        law_recall_adds_up(ranks, more.drop_last(), k);
    }
}

/// How many ranks are no larger than a number.
pub fn recall_count(ranks: &Vec<usize>, k: usize) -> (r: usize)
    ensures
        r == count_within(ranks@, k as nat),
        r == ranks@.filter(|rank: usize| rank <= k).len(),
        r <= ranks@.len(),
{
    let mut count: usize = 0;
    let mut i: usize = 0;
    assert(ranks@.take(0) =~= Seq::empty());
    while i < ranks.len()
        invariant
            i <= ranks@.len(),
            count <= i,
            count == count_within(ranks@.take(i as int), k as nat),
        decreases ranks@.len() - i,
    {
        assert(ranks@.take(i + 1).drop_last() =~= ranks@.take(i as int));
        if ranks[i] <= k {
            count += 1;
        }
        i += 1;
    }
    assert(ranks@.take(i as int) =~= ranks@);
    proof {
        law_recall_counts_every_query(ranks@, k as nat);
        assert((|rank: usize| rank <= k as nat) =~= (|rank: usize| rank <= k));
    }
    count
}

/// Recall grows with the number of candidates that count as found, and is never
/// above the number of queries.
pub proof fn law_recall_grows(ranks: Seq<usize>, k: nat, more: nat)
    requires
        k <= more,
    ensures
        count_within(ranks, k) <= count_within(ranks, more) <= ranks.len(),
    decreases ranks.len(),
{
    if ranks.len() > 0 {
        law_recall_grows(ranks.drop_last(), k, more);
    }
}

/// What retrieval was measured to give: the rank of the right answer to each
/// query, and how many of them are among the first one, five and ten.
#[derive(Debug, Clone)]
pub struct Retrieval {
    pub ranks: Vec<usize>,
    pub recall_at_1: usize,
    pub recall_at_5: usize,
    pub recall_at_10: usize,
}

/// Measure retrieval: the similarities of each anchor to all positives, of which
/// the one with the anchor's own number is the right answer.
pub fn evaluate(similarities: &Vec<Vec<u32>>) -> (r: Retrieval)
    requires
        forall|i: int|
            0 <= i < similarities@.len() ==> (#[trigger] similarities@[i])@.len()
                == similarities@.len() && all_numbers(similarities@[i]@),
    ensures
        r.ranks@.len() == similarities@.len(),
        forall|i: int|
            0 <= i < similarities@.len() ==> #[trigger] r.ranks@[i] == rank(similarities@[i]@, i),
        r.recall_at_1 == count_within(r.ranks@, 1),
        r.recall_at_5 == count_within(r.ranks@, 5),
        r.recall_at_10 == count_within(r.ranks@, 10),
{
    let mut ranks: Vec<usize> = Vec::new();
    let mut i: usize = 0;
    while i < similarities.len()
        invariant
            i <= similarities@.len(),
            ranks@.len() == i,
            forall|k: int|
                0 <= k < similarities@.len() ==> (#[trigger] similarities@[k])@.len()
                    == similarities@.len() && all_numbers(similarities@[k]@),
            forall|k: int| 0 <= k < i ==> #[trigger] ranks@[k] == rank(similarities@[k]@, k),
        decreases similarities@.len() - i,
    {
        ranks.push(query_rank(&similarities[i], i));
        i += 1;
    }
    let recall_at_1 = recall_count(&ranks, 1);
    let recall_at_5 = recall_count(&ranks, 5);
    let recall_at_10 = recall_count(&ranks, 10);
    Retrieval { ranks, recall_at_1, recall_at_5, recall_at_10 }
}

} // verus!
