//! What follows where the arithmetic is a function of its arguments: the
//! results are then determined, and do not depend on how the work is split.
use vstd::prelude::*;

#[allow(unused_imports)]
use crate::attention::{
    attended_rows, attended_tokens, attends, compared, entry_added, head_row,
    law_attention_in_two_steps, scored, softmax_of, summed,
};
#[allow(unused_imports)]
use crate::config::Config;
#[allow(unused_imports)]
use crate::ep::ExpertParallelLayout;
#[allow(unused_imports)]
use crate::host_ops::{
    pair_rotated, query_rows, raw_key_part, raw_query_part, rotated, rotated_keys,
    rotated_queries, CacheView,
};
#[allow(unused_imports)]
use crate::mixture::{
    added, answered, law_tokens_are_mixed_alone, layer_mixes, lemma_last_mixed, mixed,
};
#[allow(unused_imports)]
use crate::route::{
    all_dispatches, is_layer_routing, is_routing, is_token_routing, law_topk_is_unique, ranks_of,
    token_dispatches, visited, Dispatch, RouteCounts,
};
#[allow(unused_imports)]
use crate::rows::{joined, listed, row_of};

verus! {

/// Rotating a pair has one result.
pub open spec fn rotate_is_function<T, R: Fn(T, T, usize, usize) -> (T, T)>(rotate: R) -> bool {
    forall|a: T, b: T, i: usize, p: usize, x: (T, T), y: (T, T)|
        #[trigger] call_ensures(rotate, (a, b, i, p), x) && #[trigger] call_ensures(
            rotate,
            (a, b, i, p),
            y,
        ) ==> x == y
}

/// Softmax of equal scores has one result.
pub open spec fn softmax_is_function<L, W, P: Fn(&[L]) -> Vec<W>>(softmax: P) -> bool {
    forall|x: &[L], y: &[L], v: Vec<W>, w: Vec<W>|
        x@ == y@ && #[trigger] call_ensures(softmax, (x,), v) && #[trigger] call_ensures(
            softmax,
            (y,),
            w,
        ) ==> v@ == w@
}

/// Comparing equal heads has one result.
pub open spec fn score_is_function<T, S: Fn(&[T], &[T]) -> T>(score: S) -> bool {
    forall|x: &[T], y: &[T], x2: &[T], y2: &[T], a: T, b: T|
        x@ == x2@ && y@ == y2@ && #[trigger] call_ensures(score, (x, y), a)
            && #[trigger] call_ensures(score, (x2, y2), b) ==> a == b
}

/// Adding a weighted entry has one result.
pub open spec fn mul_add_is_function<T, W, A: Fn(T, W, T) -> T>(mul_add: A) -> bool {
    forall|a: T, w: W, b: T, x: T, y: T|
        #[trigger] call_ensures(mul_add, (a, w, b), x) && #[trigger] call_ensures(
            mul_add,
            (a, w, b),
            y,
        ) ==> x == y
}

/// Ranking a share has one result.
pub open spec fn rank_is_function<W, K: Fn(W) -> u32>(rank: K) -> bool {
    forall|w: W, x: u32, y: u32|
        #[trigger] call_ensures(rank, (w,), x) && #[trigger] call_ensures(rank, (w,), y) ==> x == y
}

/// An expert that gives outputs for equal inputs gives equal outputs.
pub open spec fn expert_is_function<B, T, E, X: Fn(usize, &[B]) -> Result<Vec<T>, E>>(
    expert: X,
) -> bool {
    forall|e: usize, x: &[B], y: &[B], v: Vec<T>, w: Vec<T>|
        x@ == y@ && #[trigger] call_ensures(expert, (e, x), Ok::<Vec<T>, E>(v))
            && #[trigger] call_ensures(expert, (e, y), Ok::<Vec<T>, E>(w)) ==> v@ == w@
}

/// Rotating a head part has one result.
pub proof fn law_rotation_is_determined<T, R: Fn(T, T, usize, usize) -> (T, T)>(
    rotate: R,
    zero: T,
    raw: Seq<T>,
    pos: int,
    left: Seq<T>,
    right: Seq<T>,
)
    requires
        rotate_is_function(rotate),
        rotated(rotate, zero, raw, pos, left),
        rotated(rotate, zero, raw, pos, right),
    ensures
        left == right,
{
    let half = raw.len() as int / 2;
    assert forall|k: int| 0 <= k < raw.len() implies left[k] == right[k] by {
        let i = if k < half {
            k
        } else {
            k - half
        };
        if i < half {
            assert(pair_rotated(rotate, raw, pos, left, i));
            assert(pair_rotated(rotate, raw, pos, right, i));
        }
    }
    assert(left =~= right);
}

/// The queries and the cache that come of new tokens are determined.
pub proof fn law_append_is_determined<T, R: Fn(T, T, usize, usize) -> (T, T)>(
    config: &Config,
    rotate: R,
    zero: T,
    q: Seq<T>,
    kv_a: Seq<T>,
    kv_b: Seq<T>,
    start_pos: int,
    seq_len: nat,
    cache: CacheView<T>,
    k_pe_left: Seq<Seq<T>>,
    q_pe_left: Seq<Seq<T>>,
    k_pe_right: Seq<Seq<T>>,
    q_pe_right: Seq<Seq<T>>,
)
    requires
        rotate_is_function(rotate),
        rotated_keys(config, rotate, zero, kv_a, start_pos, seq_len as int, k_pe_left),
        rotated_keys(config, rotate, zero, kv_a, start_pos, seq_len as int, k_pe_right),
        rotated_queries(
            config,
            rotate,
            zero,
            q,
            start_pos,
            (seq_len * config.heads()) as int,
            q_pe_left,
        ),
        rotated_queries(
            config,
            rotate,
            zero,
            q,
            start_pos,
            (seq_len * config.heads()) as int,
            q_pe_right,
        ),
    ensures
        k_pe_left == k_pe_right,
        q_pe_left == q_pe_right,
        cache.appended(config, kv_b, k_pe_left, seq_len * config.heads()) == cache.appended(
            config,
            kv_b,
            k_pe_right,
            seq_len * config.heads(),
        ),
        joined(seq_len * config.heads(), query_rows(config, q, q_pe_left)) == joined(
            seq_len * config.heads(),
            query_rows(config, q, q_pe_right),
        ),
{
    assert forall|t: int| 0 <= t < seq_len implies k_pe_left[t] == k_pe_right[t] by {
        law_rotation_is_determined(
            rotate,
            zero,
            raw_key_part(config, kv_a, t),
            start_pos + t,
            k_pe_left[t],
            k_pe_right[t],
        );
    }
    assert(k_pe_left =~= k_pe_right);
    assert forall|i: int| 0 <= i < seq_len * config.heads() implies q_pe_left[i]
        == q_pe_right[i] by {
        law_rotation_is_determined(
            rotate,
            zero,
            raw_query_part(config, q, i),
            start_pos + i / config.heads() as int,
            q_pe_left[i],
            q_pe_right[i],
        );
    }
    assert(q_pe_left =~= q_pe_right);
}

/// Sums of the same shares of the same values agree after every token.
proof fn lemma_sums_agree<T, A: Fn(T, T, T) -> T>(
    config: &Config,
    mul_add: A,
    zero: T,
    values: Seq<T>,
    head: int,
    shares: Seq<T>,
    n: int,
    left: Seq<Seq<T>>,
    right: Seq<Seq<T>>,
    p: int,
)
    requires
        mul_add_is_function(mul_add),
        summed(config, mul_add, zero, values, head, shares, n, left),
        summed(config, mul_add, zero, values, head, shares, n, right),
        0 <= p <= n,
    ensures
        left[p] == right[p],
    decreases p,
{
    let width = config.v_head_dim as nat;
    if p > 0 {
        lemma_sums_agree(
            config,
            mul_add,
            zero,
            values,
            head,
            shares,
            n,
            left,
            right,
            p - 1,
        );
        let value = head_row(values, width, config.heads(), p - 1, head);
        assert forall|d: int| 0 <= d < width implies left[p][d] == right[p][d] by {
            assert(entry_added(mul_add, shares[p - 1], value, left[p - 1], left[p - 1 + 1], d));
            assert(entry_added(mul_add, shares[p - 1], value, right[p - 1], right[p - 1 + 1], d));
        }
    } else {
        assert forall|d: int| 0 <= d < width implies left[p][d] == right[p][d] by {
            assert(left[0][d] == zero && right[0][d] == zero);
        }
    }
    assert(left[p] =~= right[p]);
}

/// What a query head sees is determined.
pub proof fn law_attending_is_determined<
    T,
    S: Fn(&[T], &[T]) -> T,
    P: Fn(&[T]) -> Vec<T>,
    A: Fn(T, T, T) -> T,
>(
    config: &Config,
    score: S,
    softmax: P,
    mul_add: A,
    zero: T,
    query: Seq<T>,
    cache: CacheView<T>,
    head: int,
    n: int,
    left: Seq<T>,
    right: Seq<T>,
)
    requires
        score_is_function(score),
        softmax_is_function(softmax),
        mul_add_is_function(mul_add),
        0 <= n,
        attends(config, score, softmax, mul_add, zero, query, cache, head, n, left),
        attends(config, score, softmax, mul_add, zero, query, cache, head, n, right),
    ensures
        left == right,
{
    let (scores, shares, sums) = choose|scores: Seq<T>, shares: Seq<T>, sums: Seq<Seq<T>>|
        {
            &&& #[trigger] scored(config, score, query, cache.keys, head, n, scores)
            &&& softmax_of(softmax, scores, shares)
            &&& #[trigger] summed(config, mul_add, zero, cache.values, head, shares, n, sums)
            &&& left == sums[n]
        };
    let (scores2, shares2, sums2) = choose|scores: Seq<T>, shares: Seq<T>, sums: Seq<Seq<T>>|
        {
            &&& #[trigger] scored(config, score, query, cache.keys, head, n, scores)
            &&& softmax_of(softmax, scores, shares)
            &&& #[trigger] summed(config, mul_add, zero, cache.values, head, shares, n, sums)
            &&& right == sums[n]
        };
    assert forall|p: int| 0 <= p < n implies scores[p] == scores2[p] by {
        let key = head_row(cache.keys, config.q_dim(), config.heads(), p, head);
        assert(compared(score, query, key, scores[p]));
        assert(compared(score, query, key, scores2[p]));
    }
    assert(scores =~= scores2);
    assert(shares == shares2);
    lemma_sums_agree(
        config,
        mul_add,
        zero,
        cache.values,
        head,
        shares,
        n,
        sums,
        sums2,
        n,
    );
}

/// The attention output over a cache is determined.
pub proof fn law_attention_rows_are_determined<
    T,
    S: Fn(&[T], &[T]) -> T,
    P: Fn(&[T]) -> Vec<T>,
    A: Fn(T, T, T) -> T,
>(
    config: &Config,
    score: S,
    softmax: P,
    mul_add: A,
    zero: T,
    queries: Seq<T>,
    cache: CacheView<T>,
    start_pos: nat,
    n: nat,
    left: Seq<Seq<T>>,
    right: Seq<Seq<T>>,
)
    requires
        score_is_function(score),
        softmax_is_function(softmax),
        mul_add_is_function(mul_add),
        config.heads() > 0 || n == 0,
        attended_rows(
            config,
            score,
            softmax,
            mul_add,
            zero,
            queries,
            cache,
            start_pos as int,
            n as int,
            left,
        ),
        attended_rows(
            config,
            score,
            softmax,
            mul_add,
            zero,
            queries,
            cache,
            start_pos as int,
            n as int,
            right,
        ),
    ensures
        left == right,
        joined(n, listed(left)) == joined(n, listed(right)),
{
    assert forall|i: int| 0 <= i < n implies left[i] == right[i] by {
        vstd::arithmetic::div_mod::lemma_div_pos_is_pos(i, config.heads() as int);
        law_attending_is_determined(
            config,
            score,
            softmax,
            mul_add,
            zero,
            row_of(queries, config.q_dim(), i),
            cache,
            i % config.heads() as int,
            start_pos + i / config.heads() as int + 1,
            left[i],
            right[i],
        );
    }
    assert(left =~= right);
}

/// Attention over new tokens has one result: one cache and one output.
pub proof fn law_attention_is_determined<
    T,
    R: Fn(T, T, usize, usize) -> (T, T),
    S: Fn(&[T], &[T]) -> T,
    P: Fn(&[T]) -> Vec<T>,
    A: Fn(T, T, T) -> T,
>(
    config: &Config,
    rotate: R,
    score: S,
    softmax: P,
    mul_add: A,
    zero: T,
    q: Seq<T>,
    kv_a: Seq<T>,
    kv_b: Seq<T>,
    start_pos: nat,
    seq_len: nat,
    before: CacheView<T>,
    after_left: CacheView<T>,
    k_pe_left: Seq<Seq<T>>,
    q_pe_left: Seq<Seq<T>>,
    rows_left: Seq<Seq<T>>,
    after_right: CacheView<T>,
    k_pe_right: Seq<Seq<T>>,
    q_pe_right: Seq<Seq<T>>,
    rows_right: Seq<Seq<T>>,
)
    requires
        rotate_is_function(rotate),
        score_is_function(score),
        softmax_is_function(softmax),
        mul_add_is_function(mul_add),
        attended_tokens(
            config,
            rotate,
            score,
            softmax,
            mul_add,
            zero,
            q,
            kv_a,
            kv_b,
            start_pos as int,
            seq_len as int,
            before,
            after_left,
            k_pe_left,
            q_pe_left,
            rows_left,
        ),
        attended_tokens(
            config,
            rotate,
            score,
            softmax,
            mul_add,
            zero,
            q,
            kv_a,
            kv_b,
            start_pos as int,
            seq_len as int,
            before,
            after_right,
            k_pe_right,
            q_pe_right,
            rows_right,
        ),
    ensures
        after_left == after_right,
        rows_left == rows_right,
{
    let n = seq_len * config.heads();
    law_append_is_determined(
        config,
        rotate,
        zero,
        q,
        kv_a,
        kv_b,
        start_pos as int,
        seq_len,
        before,
        k_pe_left,
        q_pe_left,
        k_pe_right,
        q_pe_right,
    );
    if config.heads() == 0 {
        assert(seq_len * 0 == 0) by (nonlinear_arith);
    }
    law_attention_rows_are_determined(
        config,
        score,
        softmax,
        mul_add,
        zero,
        joined(n, query_rows(config, q, q_pe_left)),
        after_left,
        start_pos,
        n,
        rows_left,
        rows_right,
    );
}

/// Attending to some tokens and then, with the cache that this left, to those
/// that follow gives what attending to all of them at once gives: the same
/// cache, and the same output, in two pieces.
pub proof fn law_attention_does_not_depend_on_steps<
    T,
    R: Fn(T, T, usize, usize) -> (T, T),
    S: Fn(&[T], &[T]) -> T,
    P: Fn(&[T]) -> Vec<T>,
    A: Fn(T, T, T) -> T,
>(
    config: &Config,
    rotate: R,
    score: S,
    softmax: P,
    mul_add: A,
    zero: T,
    q_first: Seq<T>,
    kv_a_first: Seq<T>,
    kv_b_first: Seq<T>,
    q_rest: Seq<T>,
    kv_a_rest: Seq<T>,
    kv_b_rest: Seq<T>,
    start_pos: nat,
    len_first: nat,
    len_rest: nat,
    before: CacheView<T>,
    middle: CacheView<T>,
    after: CacheView<T>,
    k_pe_first: Seq<Seq<T>>,
    q_pe_first: Seq<Seq<T>>,
    rows_first: Seq<Seq<T>>,
    k_pe_rest: Seq<Seq<T>>,
    q_pe_rest: Seq<Seq<T>>,
    rows_rest: Seq<Seq<T>>,
    at_once: CacheView<T>,
    k_pe: Seq<Seq<T>>,
    q_pe: Seq<Seq<T>>,
    rows: Seq<Seq<T>>,
)
    requires
        rotate_is_function(rotate),
        score_is_function(score),
        softmax_is_function(softmax),
        mul_add_is_function(mul_add),
        before.holds(config, start_pos),
        q_first.len() == len_first * config.heads() * config.q_dim(),
        kv_a_first.len() == len_first * config.kv_a_dim(),
        kv_b_first.len() == len_first * config.heads() * config.kv_dim(),
        q_rest.len() == len_rest * config.heads() * config.q_dim(),
        kv_a_rest.len() == len_rest * config.kv_a_dim(),
        kv_b_rest.len() == len_rest * config.heads() * config.kv_dim(),
        attended_tokens(
            config,
            rotate,
            score,
            softmax,
            mul_add,
            zero,
            q_first,
            kv_a_first,
            kv_b_first,
            start_pos as int,
            len_first as int,
            before,
            middle,
            k_pe_first,
            q_pe_first,
            rows_first,
        ),
        attended_tokens(
            config,
            rotate,
            score,
            softmax,
            mul_add,
            zero,
            q_rest,
            kv_a_rest,
            kv_b_rest,
            (start_pos + len_first) as int,
            len_rest as int,
            middle,
            after,
            k_pe_rest,
            q_pe_rest,
            rows_rest,
        ),
        attended_tokens(
            config,
            rotate,
            score,
            softmax,
            mul_add,
            zero,
            q_first + q_rest,
            kv_a_first + kv_a_rest,
            kv_b_first + kv_b_rest,
            start_pos as int,
            (len_first + len_rest) as int,
            before,
            at_once,
            k_pe,
            q_pe,
            rows,
        ),
    ensures
        at_once == after,
        rows == rows_first + rows_rest,
        joined((len_first + len_rest) * config.heads(), listed(rows)) == joined(
            len_first * config.heads(),
            listed(rows_first),
        ) + joined(len_rest * config.heads(), listed(rows_rest)),
{
    law_attention_in_two_steps(
        config,
        rotate,
        score,
        softmax,
        mul_add,
        zero,
        q_first,
        kv_a_first,
        kv_b_first,
        q_rest,
        kv_a_rest,
        kv_b_rest,
        start_pos,
        len_first,
        len_rest,
        before,
        middle,
        after,
        k_pe_first,
        q_pe_first,
        rows_first,
        k_pe_rest,
        q_pe_rest,
        rows_rest,
    );
    law_attention_is_determined(
        config,
        rotate,
        score,
        softmax,
        mul_add,
        zero,
        q_first + q_rest,
        kv_a_first + kv_a_rest,
        kv_b_first + kv_b_rest,
        start_pos,
        len_first + len_rest,
        before,
        at_once,
        k_pe,
        q_pe,
        rows,
        after,
        k_pe_first + k_pe_rest,
        q_pe_first + q_pe_rest,
        rows_first + rows_rest,
    );
}

/// The routes of a token are determined by its router logits.
pub proof fn law_routes_are_determined<L, W, P: Fn(&[L]) -> Vec<W>, K: Fn(W) -> u32>(
    softmax: P,
    rank: K,
    logits: Seq<L>,
    k: nat,
    left: Seq<(usize, W)>,
    right: Seq<(usize, W)>,
)
    requires
        softmax_is_function(softmax),
        rank_is_function(rank),
        is_token_routing(softmax, rank, logits, k, left),
        is_token_routing(softmax, rank, logits, k, right),
    ensures
        left == right,
{
    let (shares, ranks) = choose|shares: Seq<W>, ranks: Seq<u32>|
        {
            &&& #[trigger] softmax_of(softmax, logits, shares)
            &&& shares.len() == logits.len()
            &&& #[trigger] ranks_of(rank, shares, ranks)
            &&& is_routing(ranks, shares, k, left)
        };
    let (shares2, ranks2) = choose|shares: Seq<W>, ranks: Seq<u32>|
        {
            &&& #[trigger] softmax_of(softmax, logits, shares)
            &&& shares.len() == logits.len()
            &&& #[trigger] ranks_of(rank, shares, ranks)
            &&& is_routing(ranks, shares, k, right)
        };
    assert(shares == shares2);
    assert forall|i: int| 0 <= i < shares.len() implies ranks[i] == ranks2[i] by {
        assert(call_ensures(rank, (shares[i],), ranks[i]));
        assert(call_ensures(rank, (shares[i],), ranks2[i]));
    }
    assert(ranks =~= ranks2);
    law_topk_is_unique(ranks, k, visited(left), visited(right));
    assert forall|i: int| 0 <= i < left.len() implies left[i] == right[i] by {
        assert(visited(left)[i] == left[i].0);
        assert(visited(right)[i] == right[i].0);
        assert(left[i].1 == shares[left[i].0 as int]);
        assert(right[i].1 == shares[right[i].0 as int]);
    }
    assert(visited(left).len() == left.len() && visited(right).len() == right.len());
    assert(left =~= right);
}

/// What comes of given visits is determined.
pub proof fn law_mixing_is_determined<
    B,
    T,
    W,
    E,
    X: Fn(usize, &[B]) -> Result<Vec<T>, E>,
    A: Fn(T, W, T) -> T,
>(
    expert: X,
    mul_add: A,
    hidden_size: usize,
    input: Seq<B>,
    visits: Seq<Dispatch<W>>,
    before: Seq<T>,
    left: Seq<T>,
    right: Seq<T>,
)
    requires
        expert_is_function(expert),
        mul_add_is_function(mul_add),
        mixed(expert, mul_add, hidden_size, input, visits, before, left),
        mixed(expert, mul_add, hidden_size, input, visits, before, right),
    ensures
        left == right,
    decreases visits.len(),
{
    if visits.len() > 0 {
        let (middle, out) = lemma_last_mixed(
            expert,
            mul_add,
            hidden_size,
            input,
            visits,
            before,
            left,
        );
        let (middle2, out2) = lemma_last_mixed(
            expert,
            mul_add,
            hidden_size,
            input,
            visits,
            before,
            right,
        );
        law_mixing_is_determined(
            expert,
            mul_add,
            hidden_size,
            input,
            visits.drop_last(),
            before,
            middle,
            middle2,
        );
        assert(out@ == out2@);
        let last = visits.last();
        assert forall|i: int| 0 <= i < left.len() implies left[i] == right[i] by {
            if last.offset <= i < last.offset + hidden_size && i < last.offset + out@.len() {
                assert(call_ensures(
                    mul_add,
                    (middle[i], last.weight, out@[i - last.offset]),
                    left[i],
                ));
                assert(call_ensures(
                    mul_add,
                    (middle[i], last.weight, out@[i - last.offset]),
                    right[i],
                ));
            }
        }
        assert(left =~= right);
    }
}

/// A token's row of a mixture layer's output depends only on that token's row
/// of the router logits, of the input and of the states: tokens that agree in
/// these, wherever they stand and whatever other tokens there are, agree in
/// the output.
pub proof fn law_own_row_decides<
    L,
    B,
    T,
    W,
    E,
    P: Fn(&[L]) -> Vec<W>,
    K: Fn(W) -> u32,
    X: Fn(usize, &[B]) -> Result<Vec<T>, E>,
    A: Fn(T, W, T) -> T,
>(
    config: &Config,
    layout: &ExpertParallelLayout,
    softmax: P,
    rank: K,
    expert: X,
    mul_add: A,
    logits_left: Seq<L>,
    input_left: Seq<B>,
    len_left: usize,
    before_left: Seq<T>,
    after_left: Seq<T>,
    counts_left: RouteCounts,
    t: int,
    logits_right: Seq<L>,
    input_right: Seq<B>,
    len_right: usize,
    before_right: Seq<T>,
    after_right: Seq<T>,
    counts_right: RouteCounts,
    u: int,
)
    requires
        softmax_is_function(softmax),
        rank_is_function(rank),
        expert_is_function(expert),
        mul_add_is_function(mul_add),
        len_left * config.n_routed_experts <= logits_left.len(),
        len_left * config.hidden_size <= input_left.len(),
        len_left * config.hidden_size <= before_left.len(),
        len_left * config.hidden_size <= usize::MAX,
        len_right * config.n_routed_experts <= logits_right.len(),
        len_right * config.hidden_size <= input_right.len(),
        len_right * config.hidden_size <= before_right.len(),
        len_right * config.hidden_size <= usize::MAX,
        layer_mixes(
            config,
            layout,
            softmax,
            rank,
            expert,
            mul_add,
            logits_left,
            input_left,
            len_left,
            before_left,
            after_left,
            Ok::<RouteCounts, E>(counts_left),
        ),
        layer_mixes(
            config,
            layout,
            softmax,
            rank,
            expert,
            mul_add,
            logits_right,
            input_right,
            len_right,
            before_right,
            after_right,
            Ok::<RouteCounts, E>(counts_right),
        ),
        0 <= t < len_left,
        0 <= u < len_right,
        row_of(logits_left, config.n_routed_experts as nat, t) == row_of(
            logits_right,
            config.n_routed_experts as nat,
            u,
        ),
        row_of(input_left, config.hidden_size as nat, t) == row_of(
            input_right,
            config.hidden_size as nat,
            u,
        ),
        row_of(before_left, config.hidden_size as nat, t) == row_of(
            before_right,
            config.hidden_size as nat,
            u,
        ),
    ensures
        row_of(after_left, config.hidden_size as nat, t) == row_of(
            after_right,
            config.hidden_size as nat,
            u,
        ),
{
    let h = config.hidden_size as nat;
    let n = config.n_routed_experts as nat;
    let logits = row_of(logits_left, n, t);
    let input = row_of(input_left, h, t);
    let before = row_of(before_left, h, t);
    law_tokens_are_mixed_alone(
        config,
        layout,
        softmax,
        rank,
        expert,
        mul_add,
        logits_left,
        input_left,
        len_left,
        before_left,
        after_left,
        counts_left,
        t,
    );
    law_tokens_are_mixed_alone(
        config,
        layout,
        softmax,
        rank,
        expert,
        mul_add,
        logits_right,
        input_right,
        len_right,
        before_right,
        after_right,
        counts_right,
        u,
    );
    let left = lemma_one_token_routes(
        config,
        layout,
        softmax,
        rank,
        expert,
        mul_add,
        logits,
        input,
        before,
        row_of(after_left, h, t),
    );
    let right = lemma_one_token_routes(
        config,
        layout,
        softmax,
        rank,
        expert,
        mul_add,
        logits,
        input,
        before,
        row_of(after_right, h, u),
    );
    law_routes_are_determined(
        softmax,
        rank,
        row_of(logits, n, 0),
        config.num_experts_per_token as nat,
        left,
        right,
    );
    law_mixing_is_determined(
        expert,
        mul_add,
        config.hidden_size,
        input,
        token_dispatches(config.hidden_size, 0, left),
        before,
        row_of(after_left, h, t),
        row_of(after_right, h, u),
    );
}

/// The routes that a layer of one token took.
proof fn lemma_one_token_routes<
    L,
    B,
    T,
    W,
    E,
    P: Fn(&[L]) -> Vec<W>,
    K: Fn(W) -> u32,
    X: Fn(usize, &[B]) -> Result<Vec<T>, E>,
    A: Fn(T, W, T) -> T,
>(
    config: &Config,
    layout: &ExpertParallelLayout,
    softmax: P,
    rank: K,
    expert: X,
    mul_add: A,
    logits: Seq<L>,
    input: Seq<B>,
    before: Seq<T>,
    after: Seq<T>,
) -> (routes: Seq<(usize, W)>)
    requires
        exists|counts: RouteCounts|
            #[trigger] layer_mixes(
                config,
                layout,
                softmax,
                rank,
                expert,
                mul_add,
                logits,
                input,
                1,
                before,
                after,
                Ok::<RouteCounts, E>(counts),
            ),
    ensures
        is_token_routing(
            softmax,
            rank,
            row_of(logits, config.n_routed_experts as nat, 0),
            config.num_experts_per_token as nat,
            routes,
        ),
        mixed(
            expert,
            mul_add,
            config.hidden_size,
            input,
            token_dispatches(config.hidden_size, 0, routes),
            before,
            after,
        ),
{
    let counts = choose|counts: RouteCounts|
        #[trigger] layer_mixes(
            config,
            layout,
            softmax,
            rank,
            expert,
            mul_add,
            logits,
            input,
            1,
            before,
            after,
            Ok::<RouteCounts, E>(counts),
        );
    let routes = choose|routes: Seq<Vec<(usize, W)>>|
        {
            &&& routes.len() == 1
            &&& #[trigger] is_layer_routing(config, softmax, rank, logits, routes)
            &&& mixed(
                expert,
                mul_add,
                config.hidden_size,
                input,
                all_dispatches(config.hidden_size, routes, 1),
                before,
                after,
            )
        };
    let alone = token_dispatches(config.hidden_size, 0, routes[0]@);
    assert(all_dispatches(config.hidden_size, routes, 1) =~= alone) by {
        assert(all_dispatches(config.hidden_size, routes, 0) =~= Seq::empty());
        assert(all_dispatches(config.hidden_size, routes, 1) == all_dispatches(
            config.hidden_size,
            routes,
            0,
        ) + alone);
    }
    routes[0]@
}

} // verus!
