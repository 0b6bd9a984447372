//! Attention entry by entry: where in the flat buffers each entry comes from
//! and goes to.
use vstd::prelude::*;

#[allow(unused_imports)]
use crate::attention::{
    attended_rows, attended_tokens, attends, compared, entry_added, head_row, inputs_fit, scored,
    softmax_of, summed,
};
#[allow(unused_imports)]
use crate::config::Config;
#[allow(unused_imports)]
use crate::error::HostError;
#[allow(unused_imports)]
use crate::host_ops::{
    compressed_part, continues, key_row, key_rows, lemma_row_token, lemma_token_of_row,
    normalized, normalized_into, normalized_rows, pair_rotated, query_row, query_rows,
    raw_key_part, raw_query_part, rotated, rotated_keys, rotated_queries, value_row, value_rows,
    CacheView,
};
#[allow(unused_imports)]
use crate::rows::{
    joined, lemma_joined_len, lemma_joined_row, lemma_row_bounds, listed, row_of,
};

verus! {

/// The sizes of the projections follow from the model's hyperparameters.
pub proof fn law_sizes(config: &Config, layer: int)
    ensures
        config.heads() == config.num_attention_heads,
        config.q_dim() == config.qk_nope_head_dim + config.qk_rope_head_dim,
        config.kv_dim() == config.qk_nope_head_dim + config.v_head_dim,
        config.kv_a_dim() == config.kv_lora_rank + config.qk_rope_head_dim,
        config.moe_at(layer) <==> (0 <= layer < config.moe_layers@.len()
            && config.moe_layers@[layer]),
        config.wf() <==> {
            &&& config.qk_nope_head_dim + config.qk_rope_head_dim <= usize::MAX
            &&& config.qk_nope_head_dim + config.v_head_dim <= usize::MAX
            &&& config.kv_lora_rank + config.qk_rope_head_dim <= usize::MAX
            &&& config.num_attention_heads * (config.qk_nope_head_dim + config.qk_rope_head_dim)
                <= usize::MAX
            &&& config.num_attention_heads * (config.qk_nope_head_dim + config.v_head_dim)
                <= usize::MAX
            &&& config.num_attention_heads * config.v_head_dim <= usize::MAX
        },
{
}

/// Entry `j` of row `i` of joined rows stands `j` places into the row's place.
pub proof fn law_joined_entry<T>(n: nat, width: nat, row: spec_fn(int) -> Seq<T>, i: int, j: int)
    requires
        forall|k: int| 0 <= k < n ==> (#[trigger] row(k)).len() == width,
        0 <= i < n,
        0 <= j < width,
    ensures
        joined(n, row).len() == n * width,
        0 <= i * width + j < n * width,
        joined(n, row)[i * width + j] == row(i)[j],
{
    lemma_joined_len(n, width, row);
    lemma_joined_row(n, width, row, i);
    lemma_row_bounds(n as int, width as int, i);
    assert(row_of(joined(n, row), width, i)[j] == joined(n, row)[i * width + j]);
}

/// Rotating pairs entry `i` of the first half with entry `i` of the second
/// half, keeps both in their places, and blanks an entry without a partner.
pub proof fn law_rotated_entries<T, R: Fn(T, T, usize, usize) -> (T, T)>(
    rotate: R,
    zero: T,
    raw: Seq<T>,
    pos: int,
    out: Seq<T>,
    i: int,
)
    requires
        rotated(rotate, zero, raw, pos, out),
        0 <= i,
    ensures
        out.len() == raw.len(),
        i < raw.len() as int / 2 ==> call_ensures(
            rotate,
            (raw[i], raw[raw.len() as int / 2 + i], i as usize, pos as usize),
            (out[i], out[raw.len() as int / 2 + i]),
        ),
        raw.len() % 2 == 1 ==> out[raw.len() - 1] == zero,
{
    if i < raw.len() as int / 2 {
        assert(pair_rotated(rotate, raw, pos, out, i));
    }
}

/// What the cache holds of head `h` of the new token `t`. Its key head is the
/// unrotated entries of the head's row of `kv_b`, then the entries of the
/// token's row of `kv_a` that stand behind the compressed state, rotated to the
/// token's position; its value head is the rest of the row of `kv_b`. What was
/// cached before stays in front.
pub proof fn law_cached_entries<T, R: Fn(T, T, usize, usize) -> (T, T)>(
    config: &Config,
    rotate: R,
    zero: T,
    kv_a: Seq<T>,
    kv_b: Seq<T>,
    start_pos: int,
    seq_len: nat,
    before: CacheView<T>,
    after: CacheView<T>,
    k_pe: Seq<Seq<T>>,
    t: int,
    h: int,
    j: int,
)
    requires
        rotated_keys(config, rotate, zero, kv_a, start_pos, seq_len as int, k_pe),
        after == before.appended(
            config,
            kv_b,
            k_pe,
            (seq_len * config.num_attention_heads) as nat,
        ),
        seq_len * (config.kv_lora_rank + config.qk_rope_head_dim) <= kv_a.len(),
        seq_len * config.num_attention_heads * (config.qk_nope_head_dim + config.v_head_dim)
            <= kv_b.len(),
        0 <= t < seq_len,
        0 <= h < config.num_attention_heads,
        0 <= j,
    ensures
        after.keys.len() == before.keys.len() + seq_len * config.num_attention_heads * (
        config.qk_nope_head_dim + config.qk_rope_head_dim),
        after.values.len() == before.values.len() + seq_len * config.num_attention_heads
            * config.v_head_dim,
        j < before.keys.len() ==> after.keys[j] == before.keys[j],
        j < before.values.len() ==> after.values[j] == before.values[j],
        ({
            let head = t * config.num_attention_heads + h;
            let key = before.keys.len() + head * (config.qk_nope_head_dim
                + config.qk_rope_head_dim);
            let value = before.values.len() + head * config.v_head_dim;
            let source = head * (config.qk_nope_head_dim + config.v_head_dim);
            let part = t * (config.kv_lora_rank + config.qk_rope_head_dim) + config.kv_lora_rank;
            let nope = config.qk_nope_head_dim as int;
            let rope = config.qk_rope_head_dim as int;
            &&& j < nope ==> after.keys[key + j] == kv_b[source + j]
            &&& j < config.v_head_dim ==> after.values[value + j] == kv_b[source + nope + j]
            &&& j < rope / 2 ==> call_ensures(
                rotate,
                (kv_a[part + j], kv_a[part + rope / 2 + j], j as usize, (start_pos + t) as usize),
                (after.keys[key + nope + j], after.keys[key + nope + rope / 2 + j]),
            )
            &&& rope % 2 == 1 ==> after.keys[key + nope + rope - 1] == zero
        }),
{
    let heads = config.num_attention_heads as int;
    let n = (seq_len * heads) as nat;
    let head = t * heads + h;
    let nope = config.qk_nope_head_dim as int;
    let rope = config.qk_rope_head_dim as int;
    let q_dim = config.q_dim();
    let v_dim = config.v_head_dim as nat;
    let d = config.kv_dim() as int;
    let keys = key_rows(config, kv_b, k_pe);
    let values = value_rows(config, kv_b);
    lemma_row_bounds(seq_len as int, heads, t);
    lemma_row_token(t, h, heads);
    assert forall|i: int| 0 <= i < n implies (#[trigger] keys(i)).len() == q_dim by {
        lemma_row_bounds(n as int, d, i);
        lemma_token_of_row(i, seq_len as int, heads);
    }
    assert forall|i: int| 0 <= i < n implies (#[trigger] values(i)).len() == v_dim by {
        lemma_row_bounds(n as int, d, i);
    }
    lemma_joined_len(n, q_dim, keys);
    lemma_joined_len(n, v_dim, values);
    lemma_row_bounds(n as int, d, head);
    lemma_row_bounds(seq_len as int, config.kv_a_dim() as int, t);
    let raw = raw_key_part(config, kv_a, t);
    assert(k_pe[t].len() == rope);
    assert(keys(head) == key_row(config, kv_b, k_pe, head));
    if j < nope {
        law_joined_entry(n, q_dim, keys, head, j);
    }
    if j < v_dim {
        law_joined_entry(n, v_dim, values, head, j);
    }
    if j < rope / 2 {
        law_joined_entry(n, q_dim, keys, head, nope + j);
        law_joined_entry(n, q_dim, keys, head, nope + rope / 2 + j);
        law_rotated_entries(rotate, zero, raw, start_pos + t, k_pe[t], j);
    }
    if rope % 2 == 1 {
        law_joined_entry(n, q_dim, keys, head, nope + rope - 1);
        law_rotated_entries(rotate, zero, raw, start_pos + t, k_pe[t], 0);
    }
}

/// Where rotating keeps its pairs, the last entries of every key head of token
/// `t` are the entries of the token's row of `kv_a` behind the compressed state,
/// in their order.
pub proof fn law_unrotated_key_entries<T, R: Fn(T, T, usize, usize) -> (T, T)>(
    config: &Config,
    rotate: R,
    zero: T,
    kv_a: Seq<T>,
    kv_b: Seq<T>,
    start_pos: int,
    seq_len: nat,
    before: CacheView<T>,
    after: CacheView<T>,
    k_pe: Seq<Seq<T>>,
    t: int,
    h: int,
    j: int,
)
    requires
        forall|a: T, b: T, i: usize, p: usize, r: (T, T)|
            #[trigger] call_ensures(rotate, (a, b, i, p), r) ==> r == (a, b),
        config.qk_rope_head_dim % 2 == 0,
        rotated_keys(config, rotate, zero, kv_a, start_pos, seq_len as int, k_pe),
        after == before.appended(
            config,
            kv_b,
            k_pe,
            (seq_len * config.num_attention_heads) as nat,
        ),
        seq_len * (config.kv_lora_rank + config.qk_rope_head_dim) <= kv_a.len(),
        seq_len * config.num_attention_heads * (config.qk_nope_head_dim + config.v_head_dim)
            <= kv_b.len(),
        0 <= t < seq_len,
        0 <= h < config.num_attention_heads,
        0 <= j < config.qk_rope_head_dim,
    ensures
        after.keys[before.keys.len() + (t * config.num_attention_heads + h) * (
        config.qk_nope_head_dim + config.qk_rope_head_dim) + config.qk_nope_head_dim + j]
            == kv_a[t * (config.kv_lora_rank + config.qk_rope_head_dim) + config.kv_lora_rank + j],
{
    let half = config.qk_rope_head_dim as int / 2;
    let i = if j < half {
        j
    } else {
        j - half
    };
    law_cached_entries(
        config,
        rotate,
        zero,
        kv_a,
        kv_b,
        start_pos,
        seq_len,
        before,
        after,
        k_pe,
        t,
        h,
        i,
    );
}

/// What is built of query head `h` of the new token `t`: the unrotated entries
/// of its row of `q`, then the others, rotated to the token's position.
pub proof fn law_query_entries<T, R: Fn(T, T, usize, usize) -> (T, T)>(
    config: &Config,
    rotate: R,
    zero: T,
    q: Seq<T>,
    start_pos: int,
    seq_len: nat,
    q_pe: Seq<Seq<T>>,
    t: int,
    h: int,
    j: int,
)
    requires
        rotated_queries(
            config,
            rotate,
            zero,
            q,
            start_pos,
            seq_len * config.num_attention_heads,
            q_pe,
        ),
        seq_len * config.num_attention_heads * (config.qk_nope_head_dim
            + config.qk_rope_head_dim) <= q.len(),
        0 <= t < seq_len,
        0 <= h < config.num_attention_heads,
        0 <= j,
    ensures
        ({
            let queries = joined(
                (seq_len * config.num_attention_heads) as nat,
                query_rows(config, q, q_pe),
            );
            let nope = config.qk_nope_head_dim as int;
            let rope = config.qk_rope_head_dim as int;
            let base = (t * config.num_attention_heads + h) * (nope + rope);
            &&& queries.len() == seq_len * config.num_attention_heads * (nope + rope)
            &&& j < nope ==> queries[base + j] == q[base + j]
            &&& j < rope / 2 ==> call_ensures(
                rotate,
                (
                    q[base + nope + j],
                    q[base + nope + rope / 2 + j],
                    j as usize,
                    (start_pos + t) as usize,
                ),
                (queries[base + nope + j], queries[base + nope + rope / 2 + j]),
            )
            &&& rope % 2 == 1 ==> queries[base + nope + rope - 1] == zero
        }),
{
    let heads = config.num_attention_heads as int;
    let n = (seq_len * heads) as nat;
    let head = t * heads + h;
    let nope = config.qk_nope_head_dim as int;
    let rope = config.qk_rope_head_dim as int;
    let d = config.q_dim();
    let rows = query_rows(config, q, q_pe);
    lemma_row_bounds(seq_len as int, heads, t);
    lemma_row_token(t, h, heads);
    assert forall|i: int| 0 <= i < n implies (#[trigger] rows(i)).len() == d by {
        lemma_row_bounds(n as int, d as int, i);
    }
    lemma_joined_len(n, d, rows);
    lemma_row_bounds(n as int, d as int, head);
    let raw = raw_query_part(config, q, head);
    assert(q_pe[head].len() == rope);
    assert(rows(head) == query_row(config, q, q_pe, head));
    if j < nope {
        law_joined_entry(n, d, rows, head, j);
    }
    if j < rope / 2 {
        law_joined_entry(n, d, rows, head, nope + j);
        law_joined_entry(n, d, rows, head, nope + rope / 2 + j);
        law_rotated_entries(rotate, zero, raw, start_pos + t, q_pe[head], j);
    }
    if rope % 2 == 1 {
        law_joined_entry(n, d, rows, head, nope + rope - 1);
        law_rotated_entries(rotate, zero, raw, start_pos + t, q_pe[head], 0);
    }
}

/// The compressed state has no part in the keys: projections that agree in the
/// entries behind the compressed state of every row can give the same rotated
/// key parts, and so the same cache.
pub proof fn law_keys_ignore_the_compressed_state<T, R: Fn(T, T, usize, usize) -> (T, T)>(
    config: &Config,
    rotate: R,
    zero: T,
    left: Seq<T>,
    right: Seq<T>,
    start_pos: int,
    seq_len: nat,
    k_pe: Seq<Seq<T>>,
)
    requires
        left.len() == seq_len * (config.kv_lora_rank + config.qk_rope_head_dim),
        right.len() == left.len(),
        forall|t: int, j: int|
            #![trigger left.subrange(
                t * (config.kv_lora_rank + config.qk_rope_head_dim) + config.kv_lora_rank,
                (t + 1) * (config.kv_lora_rank + config.qk_rope_head_dim),
            )[j]]
            0 <= t < seq_len && 0 <= j < config.qk_rope_head_dim ==> left[t * (
            config.kv_lora_rank + config.qk_rope_head_dim) + config.kv_lora_rank + j] == right[t * (
            config.kv_lora_rank + config.qk_rope_head_dim) + config.kv_lora_rank + j],
        rotated_keys(config, rotate, zero, left, start_pos, seq_len as int, k_pe),
    ensures
        rotated_keys(config, rotate, zero, right, start_pos, seq_len as int, k_pe),
{
    let width = (config.kv_lora_rank + config.qk_rope_head_dim) as int;
    assert forall|t: int| 0 <= t < seq_len implies (#[trigger] k_pe[t]).len()
        == config.qk_rope_head_dim && rotated(
        rotate,
        zero,
        raw_key_part(config, right, t),
        start_pos + t,
        k_pe[t],
    ) by {
        lemma_row_bounds(seq_len as int, width, t);
        let a = raw_key_part(config, left, t);
        let b = raw_key_part(config, right, t);
        assert forall|j: int| 0 <= j < config.qk_rope_head_dim implies a[j] == b[j] by {
            assert(left.subrange(
                t * (config.kv_lora_rank + config.qk_rope_head_dim) + config.kv_lora_rank,
                (t + 1) * (config.kv_lora_rank + config.qk_rope_head_dim),
            )[j] == a[j]);
        }
        assert(a =~= b);
    }
}

/// What a query head sees, step by step: its score against the same head of
/// each of the first `n` cached tokens, the shares of the scores, and for each
/// entry the running sum of the shares of that entry of the value heads.
pub proof fn law_attending_step_by_step<
    T,
    S: Fn(&[T], &[T]) -> T,
    P: Fn(&[T]) -> Vec<T>,
    A: Fn(T, T, T) -> T,
>(
    config: &Config,
    score: S,
    softmax: P,
    mul_add: A,
    zero: T,
    query: Seq<T>,
    cache: CacheView<T>,
    head: int,
    n: nat,
    out: Seq<T>,
) -> (steps: (Seq<T>, Seq<T>, Seq<Seq<T>>, Seq<(&[T], &[T])>))
    requires
        attends(config, score, softmax, mul_add, zero, query, cache, head, n as int, out),
        0 <= head < config.num_attention_heads,
        n * config.num_attention_heads * config.v_head_dim <= cache.values.len(),
    ensures
        steps.0.len() == n,
        steps.3.len() == n,
        forall|p: int|
            0 <= p < n ==> {
                &&& (#[trigger] steps.3[p]).0@ == query
                &&& steps.3[p].1@ == cache.keys.subrange(
                    (p * config.num_attention_heads + head) * (config.qk_nope_head_dim
                        + config.qk_rope_head_dim),
                    (p * config.num_attention_heads + head) * (config.qk_nope_head_dim
                        + config.qk_rope_head_dim) + (config.qk_nope_head_dim
                        + config.qk_rope_head_dim),
                )
                &&& call_ensures(score, (steps.3[p].0, steps.3[p].1), steps.0[p])
            },
        exists|x: &[T], v: Vec<T>|
            x@ == steps.0 && v@ == steps.1 && #[trigger] call_ensures(softmax, (x,), v),
        steps.2.len() == n + 1,
        forall|p: int| 0 <= p <= n ==> (#[trigger] steps.2[p]).len() == config.v_head_dim,
        forall|d: int| 0 <= d < config.v_head_dim ==> #[trigger] steps.2[0][d] == zero,
        forall|p: int, d: int|
            #![trigger steps.1[p], steps.2[p][d]]
            0 <= p < n && 0 <= d < config.v_head_dim ==> call_ensures(
                mul_add,
                (
                    steps.2[p][d],
                    steps.1[p],
                    cache.values[(p * config.num_attention_heads + head) * config.v_head_dim + d],
                ),
                steps.2[p + 1][d],
            ),
        out == steps.2[n as int],
{
    let heads = config.num_attention_heads as int;
    let width = config.v_head_dim as nat;
    let (scores, shares, sums) = choose|scores: Seq<T>, shares: Seq<T>, sums: Seq<Seq<T>>|
        {
            &&& #[trigger] scored(config, score, query, cache.keys, head, n as int, scores)
            &&& softmax_of(softmax, scores, shares)
            &&& #[trigger] summed(
                config,
                mul_add,
                zero,
                cache.values,
                head,
                shares,
                n as int,
                sums,
            )
            &&& out == sums[n as int]
        };
    let compared_heads = Seq::new(
        n,
        |p: int|
            choose|pair: (&[T], &[T])|
                {
                    &&& pair.0@ == query
                    &&& pair.1@ == head_row(
                        cache.keys,
                        config.q_dim(),
                        config.heads(),
                        p,
                        head,
                    )
                    &&& #[trigger] call_ensures(score, (pair.0, pair.1), scores[p])
                },
    );
    assert forall|p: int| 0 <= p < n implies {
        &&& (#[trigger] compared_heads[p]).0@ == query
        &&& compared_heads[p].1@ == head_row(
            cache.keys,
            config.q_dim(),
            config.heads(),
            p,
            head,
        )
        &&& call_ensures(score, (compared_heads[p].0, compared_heads[p].1), scores[p])
    } by {
        let key = head_row(cache.keys, config.q_dim(), config.heads(), p, head);
        assert(compared(score, query, key, scores[p]));
        let (x, y) = choose|x: &[T], y: &[T]|
            x@ == query && y@ == key && #[trigger] call_ensures(score, (x, y), scores[p]);
        let pair = (x, y);
        assert(call_ensures(score, (pair.0, pair.1), scores[p]));
    }
    assert forall|p: int, d: int|
        #![trigger shares[p], sums[p][d]]
        0 <= p < n && 0 <= d < width implies call_ensures(
        mul_add,
        (sums[p][d], shares[p], cache.values[(p * heads + head) * width + d]),
        sums[p + 1][d],
    ) by {
        lemma_row_bounds(n as int, heads, p);
        lemma_row_bounds(n * heads, width as int, p * heads + head);
        assert(entry_added(
            mul_add,
            shares[p],
            head_row(cache.values, width, config.heads(), p, head),
            sums[p],
            sums[p + 1],
            d,
        ));
    }
    (scores, shares, sums, compared_heads)
}

/// Where entries stand for integers, each entry of what a query head sees is
/// the sum of the shares times that entry of the value heads.
pub proof fn law_attending_is_a_weighted_sum<
    T,
    S: Fn(&[T], &[T]) -> T,
    P: Fn(&[T]) -> Vec<T>,
    A: Fn(T, T, T) -> T,
>(
    config: &Config,
    score: S,
    softmax: P,
    mul_add: A,
    zero: T,
    value: spec_fn(T) -> int,
    query: Seq<T>,
    cache: CacheView<T>,
    head: int,
    n: nat,
    out: Seq<T>,
) -> (shares: Seq<T>)
    requires
        attends(config, score, softmax, mul_add, zero, query, cache, head, n as int, out),
        0 <= head < config.num_attention_heads,
        n * config.num_attention_heads * config.v_head_dim <= cache.values.len(),
        value(zero) == 0,
        forall|a: T, s: T, v: T, r: T|
            #[trigger] call_ensures(mul_add, (a, s, v), r) ==> value(r) == value(a) + value(s)
                * value(v),
    ensures
        out.len() == config.v_head_dim,
        forall|d: int|
            0 <= d < config.v_head_dim ==> value(#[trigger] out[d]) == Seq::new(
                n,
                |p: int|
                    value(shares[p]) * value(
                        cache.values[(p * config.num_attention_heads + head) * config.v_head_dim
                            + d],
                    ),
            ).fold_left(0int, |a: int, b: int| a + b),
{
    let steps = law_attending_step_by_step(
        config,
        score,
        softmax,
        mul_add,
        zero,
        query,
        cache,
        head,
        n,
        out,
    );
    let shares = steps.1;
    let sums = steps.2;
    assert(sums[n as int].len() == config.v_head_dim);
    assert forall|d: int| 0 <= d < config.v_head_dim implies value(#[trigger] out[d]) == Seq::new(
        n,
        |p: int|
            value(shares[p]) * value(
                cache.values[(p * config.num_attention_heads + head) * config.v_head_dim + d],
            ),
    ).fold_left(0int, |a: int, b: int| a + b) by {
        let terms = Seq::new(
            n,
            |p: int|
                value(shares[p]) * value(
                    cache.values[(p * config.num_attention_heads + head) * config.v_head_dim + d],
                ),
        );
        let column = Seq::new(n + 1, |p: int| value(sums[p][d]));
        assert(column[0] == value(sums[0][d]));
        assert forall|p: int| 0 <= p < n implies column[p] + #[trigger] terms[p] == column[p
            + 1] by {
            assert(call_ensures(
                mul_add,
                (
                    sums[p][d],
                    shares[p],
                    cache.values[(p * config.num_attention_heads + head) * config.v_head_dim + d],
                ),
                sums[p + 1][d],
            ));
        }
        lemma_running_sum(terms, column, n);
        assert(terms.take(n as int) =~= terms);
    }
    shares
}

/// A running sum ends with the sum.
pub proof fn lemma_running_sum(terms: Seq<int>, sums: Seq<int>, n: nat)
    requires
        n <= terms.len(),
        sums.len() == terms.len() + 1,
        sums[0] == 0,
        forall|p: int| 0 <= p < terms.len() ==> sums[p] + #[trigger] terms[p] == sums[p + 1],
    ensures
        terms.take(n as int).fold_left(0int, |a: int, b: int| a + b) == sums[n as int],
    decreases n,
{
    reveal_with_fuel(Seq::fold_left, 2);
    if n > 0 {
        lemma_running_sum(terms, sums, (n - 1) as nat);
        assert(terms.take(n as int).drop_last() =~= terms.take(n - 1));
        assert(terms.take(n as int).last() == terms[n - 1]);
        assert(terms[n - 1] == terms[n - 1]);
        assert(sums[n - 1] + terms[n - 1] == sums[n - 1 + 1]);
    }
}

/// Where the output of query head `h` of the new token `t` stands, and what it
/// is: the head sees the same head of all cached tokens up to its own position,
/// and of no later one.
pub proof fn law_attention_output_entries<
    T,
    S: Fn(&[T], &[T]) -> T,
    P: Fn(&[T]) -> Vec<T>,
    A: Fn(T, T, T) -> T,
>(
    config: &Config,
    score: S,
    softmax: P,
    mul_add: A,
    zero: T,
    queries: Seq<T>,
    cache: CacheView<T>,
    start_pos: nat,
    seq_len: nat,
    rows: Seq<Seq<T>>,
    t: int,
    h: int,
) -> (seen: Seq<T>)
    requires
        attended_rows(
            config,
            score,
            softmax,
            mul_add,
            zero,
            queries,
            cache,
            start_pos as int,
            seq_len * config.num_attention_heads,
            rows,
        ),
        0 <= t < seq_len,
        0 <= h < config.num_attention_heads,
    ensures
        seen.len() == config.v_head_dim,
        attends(
            config,
            score,
            softmax,
            mul_add,
            zero,
            queries.subrange(
                (t * config.num_attention_heads + h) * (config.qk_nope_head_dim
                    + config.qk_rope_head_dim),
                (t * config.num_attention_heads + h) * (config.qk_nope_head_dim
                    + config.qk_rope_head_dim) + (config.qk_nope_head_dim
                    + config.qk_rope_head_dim),
            ),
            cache,
            h,
            start_pos + t + 1,
            seen,
        ),
        joined((seq_len * config.num_attention_heads) as nat, listed(rows)).len() == seq_len
            * config.num_attention_heads * config.v_head_dim,
        forall|d: int|
            0 <= d < config.v_head_dim ==> joined(
                (seq_len * config.num_attention_heads) as nat,
                listed(rows),
            )[(t * config.num_attention_heads + h) * config.v_head_dim + d] == #[trigger] seen[d],
{
    let heads = config.num_attention_heads as int;
    let n = (seq_len * heads) as nat;
    let i = t * heads + h;
    let width = config.v_head_dim as nat;
    lemma_row_bounds(seq_len as int, heads, t);
    lemma_row_token(t, h, heads);
    assert forall|k: int| 0 <= k < n implies (#[trigger] listed(rows)(k)).len() == width by {
        assert(rows[k].len() == width);
    }
    lemma_joined_len(n, width, listed(rows));
    assert(rows[i].len() == width);
    assert forall|d: int| 0 <= d < width implies joined(n, listed(rows))[i * width + d]
        == #[trigger] rows[i][d] by {
        law_joined_entry(n, width, listed(rows), i, d);
    }
    rows[i]
}

/// Attention over new tokens is made of the parts above: the rotated parts
/// belong to the tokens' own positions, the cache grows by the tokens' heads,
/// and the built query heads attend in the grown cache.
pub proof fn law_attention_parts<
    T,
    R: Fn(T, T, usize, usize) -> (T, T),
    S: Fn(&[T], &[T]) -> T,
    P: Fn(&[T]) -> Vec<T>,
    A: Fn(T, T, T) -> T,
>(
    config: &Config,
    rotate: R,
    score: S,
    softmax: P,
    mul_add: A,
    zero: T,
    q: Seq<T>,
    kv_a: Seq<T>,
    kv_b: Seq<T>,
    start_pos: int,
    seq_len: int,
    before: CacheView<T>,
    after: CacheView<T>,
    k_pe: Seq<Seq<T>>,
    q_pe: Seq<Seq<T>>,
    rows: Seq<Seq<T>>,
)
    requires
        attended_tokens(
            config,
            rotate,
            score,
            softmax,
            mul_add,
            zero,
            q,
            kv_a,
            kv_b,
            start_pos,
            seq_len,
            before,
            after,
            k_pe,
            q_pe,
            rows,
        ),
    ensures
        rotated_keys(config, rotate, zero, kv_a, start_pos, seq_len, k_pe),
        rotated_queries(
            config,
            rotate,
            zero,
            q,
            start_pos,
            seq_len * config.num_attention_heads,
            q_pe,
        ),
        after == before.appended(
            config,
            kv_b,
            k_pe,
            (seq_len * config.num_attention_heads) as nat,
        ),
        attended_rows(
            config,
            score,
            softmax,
            mul_add,
            zero,
            joined((seq_len * config.num_attention_heads) as nat, query_rows(config, q, q_pe)),
            after,
            start_pos,
            seq_len * config.num_attention_heads,
            rows,
        ),
{
}

/// What a layer's cache counts and what continues it: the tokens are counted by
/// whole rows of key heads, and new tokens continue it exactly at that count.
pub proof fn law_cache_position<T>(config: &Config, cache: CacheView<T>, start_pos: usize)
    requires
        config.num_attention_heads * (config.qk_nope_head_dim + config.qk_rope_head_dim) > 0,
    ensures
        cache.tokens(config) == cache.keys.len() as int / (config.num_attention_heads * (
        config.qk_nope_head_dim + config.qk_rope_head_dim)),
        continues(config, cache, start_pos) is Ok <==> start_pos == cache.keys.len() as int / (
        config.num_attention_heads * (config.qk_nope_head_dim + config.qk_rope_head_dim)),
        continues(config, cache, start_pos) matches Err(error) ==> error == (
        HostError::CachePosition {
            cache_len: (cache.keys.len() as int / (config.num_attention_heads * (
            config.qk_nope_head_dim + config.qk_rope_head_dim))) as usize,
            start_pos,
        }),
{
}

/// A model without key entries counts no tokens, so only the first position
/// continues its cache.
pub proof fn law_cache_position_without_keys<T>(
    config: &Config,
    cache: CacheView<T>,
    start_pos: usize,
)
    requires
        config.num_attention_heads * (config.qk_nope_head_dim + config.qk_rope_head_dim) == 0,
    ensures
        cache.tokens(config) == 0,
        continues(config, cache, start_pos) is Ok <==> start_pos == 0,
{
}

/// What attention asks of its inputs: a cache of exactly `start_pos` tokens,
/// projections that cover the new tokens, and sizes that can be counted.
pub proof fn law_inputs_fit<T>(
    config: &Config,
    cache: CacheView<T>,
    q_len: nat,
    kv_a_len: nat,
    kv_b_len: nat,
    start_pos: usize,
    seq_len: usize,
)
    requires
        config.wf(),
        start_pos + seq_len <= usize::MAX,
        (start_pos + seq_len) * config.num_attention_heads <= usize::MAX,
    ensures
        inputs_fit(config, cache, q_len, kv_a_len, kv_b_len, start_pos, seq_len) <==> {
            let key = config.num_attention_heads * (config.qk_nope_head_dim
                + config.qk_rope_head_dim);
            &&& cache.keys.len() == start_pos * key
            &&& cache.values.len() == start_pos * (config.num_attention_heads * config.v_head_dim)
            &&& seq_len * key <= q_len
            &&& seq_len * (config.kv_lora_rank + config.qk_rope_head_dim) <= kv_a_len
            &&& seq_len * (config.num_attention_heads * (config.qk_nope_head_dim
                + config.v_head_dim)) <= kv_b_len
        },
{
    assert(seq_len * config.heads() * config.q_dim() == seq_len * (config.heads()
        * config.q_dim())) by (nonlinear_arith);
    assert(seq_len * config.heads() * config.kv_dim() == seq_len * (config.heads()
        * config.kv_dim())) by (nonlinear_arith);
}

/// The normalised compressed states, entry by entry: entry `i` of token `t` is
/// entry `i` of the token's row of `kv_a`, scaled by the factor of the first
/// `kv_lora_rank` entries of that row and by weight `i`, or `zero` without one.
pub proof fn law_normalized_entries<T, U, N: Fn(&[T]) -> T, S: Fn(T, T, T) -> U>(
    config: &Config,
    inv_rms: N,
    scale: S,
    zero: U,
    kv_a: Seq<T>,
    weight: Seq<T>,
    seq_len: nat,
    rows: Seq<Seq<U>>,
    t: int,
) -> (factor: T)
    requires
        normalized_rows(
            config,
            inv_rms,
            scale,
            zero,
            kv_a,
            weight,
            seq_len as int,
            rows,
        ),
        0 <= t < seq_len,
        t * (config.kv_lora_rank + config.qk_rope_head_dim) + config.kv_lora_rank <= kv_a.len(),
    ensures
        exists|x: &[T]|
            x@ == kv_a.subrange(
                t * (config.kv_lora_rank + config.qk_rope_head_dim),
                t * (config.kv_lora_rank + config.qk_rope_head_dim) + config.kv_lora_rank,
            ) && #[trigger] call_ensures(inv_rms, (x,), factor),
        joined(seq_len, listed(rows)).len() == seq_len * config.kv_lora_rank,
        forall|i: int|
            #![trigger rows[t][i]]
            0 <= i < config.kv_lora_rank ==> {
                &&& joined(seq_len, listed(rows))[t * config.kv_lora_rank + i] == rows[t][i]
                &&& i < weight.len() ==> call_ensures(
                    scale,
                    (
                        kv_a[t * (config.kv_lora_rank + config.qk_rope_head_dim) + i],
                        factor,
                        weight[i],
                    ),
                    rows[t][i],
                )
                &&& i >= weight.len() ==> rows[t][i] == zero
            },
{
    let width = config.kv_lora_rank as nat;
    let input = compressed_part(config, kv_a, t);
    assert forall|k: int| 0 <= k < seq_len implies (#[trigger] listed(rows)(k)).len()
        == width by {
        assert(rows[k].len() == width);
    }
    lemma_joined_len(seq_len, width, listed(rows));
    assert(normalized(inv_rms, scale, zero, input, weight, rows[t])) by {
        assert(rows[t].len() == width);
    }
    assert(0 <= t * config.kv_a_dim()) by (nonlinear_arith)
        requires
            0 <= t,
            0 <= config.kv_a_dim(),
    ;
    let (x, factor) = choose|x: &[T], factor: T|
        {
            &&& x@ == input
            &&& #[trigger] call_ensures(inv_rms, (x,), factor)
            &&& forall|i: int|
                0 <= i < input.len() && i < weight.len() ==> call_ensures(
                    scale,
                    (input[i], factor, weight[i]),
                    #[trigger] rows[t][i],
                )
        };
    assert forall|i: int|
        #![trigger rows[t][i]]
        0 <= i < config.kv_lora_rank implies {
        &&& joined(seq_len, listed(rows))[t * config.kv_lora_rank + i] == rows[t][i]
        &&& i < weight.len() ==> call_ensures(
            scale,
            (
                kv_a[t * (config.kv_lora_rank + config.qk_rope_head_dim) + i],
                factor,
                weight[i],
            ),
            rows[t][i],
        )
        &&& i >= weight.len() ==> rows[t][i] == zero
    } by {
        law_joined_entry(seq_len, width, listed(rows), t, i);
    }
    factor
}

/// Normalising a row into a slice, place by place: a place with an entry and a
/// weight gets the entry scaled by the factor of the whole row and the weight,
/// and every other place keeps what it held.
pub proof fn law_normalized_into_entries<T, U, N: Fn(&[T]) -> T, S: Fn(T, T, T) -> U>(
    inv_rms: N,
    scale: S,
    input: Seq<T>,
    weight: Seq<T>,
    before: Seq<U>,
    after: Seq<U>,
) -> (factor: T)
    requires
        normalized_into(inv_rms, scale, input, weight, before, after),
    ensures
        exists|x: &[T]| x@ == input && #[trigger] call_ensures(inv_rms, (x,), factor),
        after.len() == before.len(),
        forall|i: int|
            0 <= i < after.len() ==> if i < input.len() && i < weight.len() {
                call_ensures(scale, (input[i], factor, weight[i]), #[trigger] after[i])
            } else {
                after[i] == before[i]
            },
{
    let (x, factor) = choose|x: &[T], factor: T|
        {
            &&& x@ == input
            &&& #[trigger] call_ensures(inv_rms, (x,), factor)
            &&& forall|i: int|
                0 <= i < before.len() && i < input.len() && i < weight.len() ==> call_ensures(
                    scale,
                    (input[i], factor, weight[i]),
                    #[trigger] after[i],
                )
        };
    factor
}

/// A new cache has no keys and no values, and counts no tokens.
pub proof fn law_empty_cache<T>(config: &Config)
    ensures
        CacheView::<T>::empty().keys.len() == 0,
        CacheView::<T>::empty().values.len() == 0,
        CacheView::<T>::empty().tokens(config) == 0,
{
}

} // verus!
