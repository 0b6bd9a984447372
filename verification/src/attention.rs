//! Attention over the cached tokens.
//!
//! As in `host_ops`, the arithmetic on entries is a parameter: `score` compares
//! a query head with a key head, `softmax` turns scores into shares, and
//! `mul_add` adds a share of a value entry to a sum.
use vstd::prelude::*;

use crate::config::Config;
use crate::host_ops::{append_kv_and_build_queries, LayerCache};
#[allow(unused_imports)]
use crate::host_ops::{
    law_append_extends_cache, law_append_in_two_steps, law_rotate_in_two_steps,
    law_rotate_queries_in_two_steps, lemma_row_token, lemma_shifted_row, lemma_token_of_row,
    query_row, query_rows, rotated_keys, rotated_queries, rotates_all, CacheView,
};
use crate::rows::{filled, push_all};
#[allow(unused_imports)]
use crate::rows::{
    joined, lemma_joined_len, lemma_joined_row, lemma_joined_same, lemma_joined_split,
    lemma_row_bounds, listed, row_of,
};

verus! {

/// Head `head` of token `t` in a buffer that holds every head of every token.
pub open spec fn head_row<T>(buffer: Seq<T>, width: nat, heads: nat, t: int, head: int) -> Seq<T> {
    row_of(buffer, width, t * heads + head)
}

/// `out` is what comparing a query head with a key head can give.
pub open spec fn compared<T, S: Fn(&[T], &[T]) -> T>(
    score: S,
    query: Seq<T>,
    key: Seq<T>,
    out: T,
) -> bool {
    exists|x: &[T], y: &[T]| x@ == query && y@ == key && #[trigger] call_ensures(score, (x, y), out)
}

/// `scores` holds what comparing the query head with the key heads `head` of
/// the first `n` tokens can give.
pub open spec fn scored<T, S: Fn(&[T], &[T]) -> T>(
    config: &Config,
    score: S,
    query: Seq<T>,
    keys: Seq<T>,
    head: int,
    n: int,
    scores: Seq<T>,
) -> bool {
    &&& scores.len() == n
    &&& forall|p: int|
        0 <= p < n ==> compared(
            score,
            query,
            head_row(keys, config.q_dim(), config.heads(), p, head),
            #[trigger] scores[p],
        )
}

/// `shares` is what softmax can give for `scores`.
pub open spec fn softmax_of<L, W, P: Fn(&[L]) -> Vec<W>>(
    softmax: P,
    scores: Seq<L>,
    shares: Seq<W>,
) -> bool {
    exists|x: &[L], v: Vec<W>|
        x@ == scores && v@ == shares && #[trigger] call_ensures(softmax, (x,), v)
}

/// Entry `d` of the sum after token `p` comes from the one before it and the
/// token's share of its value entry.
pub open spec fn entry_added<T, A: Fn(T, T, T) -> T>(
    mul_add: A,
    share: T,
    value: Seq<T>,
    before: Seq<T>,
    after: Seq<T>,
    d: int,
) -> bool {
    call_ensures(mul_add, (before[d], share, value[d]), after[d])
}

/// `sums` starts with zeros and adds, token by token, the shares of the value
/// heads `head` of the first `n` tokens.
pub open spec fn summed<T, A: Fn(T, T, T) -> T>(
    config: &Config,
    mul_add: A,
    zero: T,
    values: Seq<T>,
    head: int,
    shares: Seq<T>,
    n: int,
    sums: Seq<Seq<T>>,
) -> bool {
    let width = config.v_head_dim as nat;
    &&& sums.len() == n + 1
    &&& forall|p: int| 0 <= p <= n ==> (#[trigger] sums[p]).len() == width
    &&& forall|d: int| 0 <= d < width ==> #[trigger] sums[0][d] == zero
    &&& forall|p: int, d: int|
        0 <= p < n && 0 <= d < width ==> #[trigger] entry_added(
            mul_add,
            shares[p],
            head_row(values, width, config.heads(), p, head),
            sums[p],
            sums[p + 1],
            d,
        )
}

/// `out` is what attending with `query` to head `head` of the first `n` cached
/// tokens can give.
pub open spec fn attends<
    T,
    S: Fn(&[T], &[T]) -> T,
    P: Fn(&[T]) -> Vec<T>,
    A: Fn(T, T, T) -> T,
>(
    config: &Config,
    score: S,
    softmax: P,
    mul_add: A,
    zero: T,
    query: Seq<T>,
    cache: CacheView<T>,
    head: int,
    n: int,
    out: Seq<T>,
) -> bool {
    exists|scores: Seq<T>, shares: Seq<T>, sums: Seq<Seq<T>>|
        {
            &&& #[trigger] scored(config, score, query, cache.keys, head, n, scores)
            &&& softmax_of(softmax, scores, shares)
            &&& #[trigger] summed(config, mul_add, zero, cache.values, head, shares, n, sums)
            &&& out == sums[n]
        }
}

/// The arithmetic takes all heads of the model and up to `max` scores, and
/// softmax gives as many shares as there are scores.
pub open spec fn attends_all<
    T,
    S: Fn(&[T], &[T]) -> T,
    P: Fn(&[T]) -> Vec<T>,
    A: Fn(T, T, T) -> T,
>(config: &Config, score: S, softmax: P, mul_add: A, max: int) -> bool {
    &&& forall|x: &[T], y: &[T]|
        x@.len() == config.q_dim() && y@.len() == config.q_dim() ==> #[trigger] call_requires(
            score,
            (x, y),
        )
    &&& forall|x: &[T]| 1 <= x@.len() <= max ==> #[trigger] call_requires(softmax, (x,))
    &&& forall|x: &[T], v: Vec<T>|
        1 <= x@.len() <= max && #[trigger] call_ensures(softmax, (x,), v) ==> v@.len() == x@.len()
    &&& forall|a: T, b: T, c: T| #[trigger] call_requires(mul_add, (a, b, c))
}

/// Attends with one query head to one head of the first `kv_len` cached tokens.
pub fn attend_head<
    T: Copy,
    S: Fn(&[T], &[T]) -> T,
    P: Fn(&[T]) -> Vec<T>,
    A: Fn(T, T, T) -> T,
>(
    config: &Config,
    query: &[T],
    cache: &LayerCache<T>,
    head: usize,
    kv_len: usize,
    zero: T,
    score: &S,
    softmax: &P,
    mul_add: &A,
) -> (out: Vec<T>)
    requires
        config.wf(),
        query@.len() == config.q_dim(),
        head < config.heads(),
        kv_len > 0,
        kv_len * config.heads() <= usize::MAX,
        kv_len * config.heads() * config.q_dim() <= cache@.keys.len(),
        kv_len * config.heads() * config.v_head_dim <= cache@.values.len(),
        attends_all(config, *score, *softmax, *mul_add, kv_len as int),
    ensures
        out@.len() == config.v_head_dim,
        attends(
            config,
            *score,
            *softmax,
            *mul_add,
            zero,
            query@,
            cache@,
            head as int,
            kv_len as int,
            out@,
        ),
{
    let heads: usize = config.num_attention_heads;
    let q_dim: usize = config.query_head_dim();
    let v_dim: usize = config.v_head_dim;
    let keys: &[T] = cache.keys();
    let values: &[T] = cache.values();
    let ghost keys_len: usize = keys.len();
    let ghost values_len: usize = values.len();
    let ghost rows = kv_len * heads;

    let mut scores: Vec<T> = Vec::new();
    let mut p: usize = 0;
    while p < kv_len
        invariant
            heads == config.heads(),
            q_dim == config.q_dim(),
            head < heads,
            query@.len() == q_dim,
            keys@ == cache@.keys,
            keys_len == keys@.len(),
            rows == kv_len * heads,
            rows <= usize::MAX,
            rows * q_dim <= keys_len,
            attends_all(config, *score, *softmax, *mul_add, kv_len as int),
            p <= kv_len,
            scored(config, *score, query@, keys@, head as int, p as int, scores@),
        decreases kv_len - p,
    {
        proof {
            lemma_row_bounds(kv_len as int, heads as int, p as int);
            lemma_row_bounds(rows, q_dim as int, p * heads + head);
        }
        let base: usize = (p * heads + head) * q_dim;
        let key: &[T] = &keys[base..base + q_dim];
        let value: T = score(query, key);
        scores.push(value);
        assert(compared(
            *score,
            query@,
            head_row(keys@, config.q_dim(), config.heads(), p as int, head as int),
            value,
        ));
        p += 1;
    }

    let shares: Vec<T> = softmax(scores.as_slice());
    assert(softmax_of(*softmax, scores@, shares@));

    let mut out: Vec<T> = filled(zero, v_dim);
    let ghost mut sums: Seq<Seq<T>> = seq![out@];
    let mut p: usize = 0;
    while p < kv_len
        invariant
            heads == config.heads(),
            v_dim == config.v_head_dim,
            head < heads,
            values@ == cache@.values,
            values_len == values@.len(),
            rows == kv_len * heads,
            rows <= usize::MAX,
            rows * v_dim <= values_len,
            shares@.len() == kv_len,
            attends_all(config, *score, *softmax, *mul_add, kv_len as int),
            p <= kv_len,
            summed(
                config,
                *mul_add,
                zero,
                values@,
                head as int,
                shares@,
                p as int,
                sums,
            ),
            out@ == sums[p as int],
        decreases kv_len - p,
    {
        proof {
            lemma_row_bounds(kv_len as int, heads as int, p as int);
            lemma_row_bounds(rows, v_dim as int, p * heads + head);
        }
        let base: usize = (p * heads + head) * v_dim;
        let value: &[T] = &values[base..base + v_dim];
        let ghost before = out@;
        let mut d: usize = 0;
        while d < v_dim
            invariant
                p < kv_len,
                shares@.len() == kv_len,
                value@.len() == v_dim,
                before.len() == v_dim,
                out@.len() == v_dim,
                d <= v_dim,
                attends_all(config, *score, *softmax, *mul_add, kv_len as int),
                forall|e: int| d <= e < v_dim ==> #[trigger] out@[e] == before[e],
                forall|e: int|
                    0 <= e < d ==> #[trigger] entry_added(
                        *mul_add,
                        shares@[p as int],
                        value@,
                        before,
                        out@,
                        e,
                    ),
            decreases v_dim - d,
        {
            let ghost partial = out@;
            let sum: T = mul_add(out[d], shares[p], value[d]);
            out[d] = sum;
            proof {
                assert forall|e: int| 0 <= e < d + 1 implies #[trigger] entry_added(
                    *mul_add,
                    shares@[p as int],
                    value@,
                    before,
                    out@,
                    e,
                ) by {
                    if e < d {
                        assert(entry_added(
                            *mul_add,
                            shares@[p as int],
                            value@,
                            before,
                            partial,
                            e,
                        ));
                    }
                }
            }
            d += 1;
        }
        let ghost earlier = sums;
        proof {
            sums = sums.push(out@);
            let width = config.v_head_dim as nat;
            assert(value@ == head_row(values@, width, config.heads(), p as int, head as int));
            assert forall|q: int, e: int|
                0 <= q < p + 1 && 0 <= e < width implies #[trigger] entry_added(
                *mul_add,
                shares@[q],
                head_row(values@, width, config.heads(), q, head as int),
                sums[q],
                sums[q + 1],
                e,
            ) by {
                if q < p {
                    assert(entry_added(
                        *mul_add,
                        shares@[q],
                        head_row(values@, width, config.heads(), q, head as int),
                        earlier[q],
                        earlier[q + 1],
                        e,
                    ));
                } else {
                    assert(entry_added(*mul_add, shares@[q], value@, before, out@, e));
                }
            }
        }
        p += 1;
    }
    out
}

/// `rows` holds the attention output of each of the first `n` query heads.
/// Query head `i` belongs to token `i / heads`, attends with its own head, and
/// sees the cached tokens up to and including its own.
pub open spec fn attended_rows<
    T,
    S: Fn(&[T], &[T]) -> T,
    P: Fn(&[T]) -> Vec<T>,
    A: Fn(T, T, T) -> T,
>(
    config: &Config,
    score: S,
    softmax: P,
    mul_add: A,
    zero: T,
    queries: Seq<T>,
    cache: CacheView<T>,
    start_pos: int,
    n: int,
    rows: Seq<Seq<T>>,
) -> bool {
    &&& rows.len() == n
    &&& forall|i: int|
        0 <= i < n ==> (#[trigger] rows[i]).len() == config.v_head_dim && attends(
            config,
            score,
            softmax,
            mul_add,
            zero,
            row_of(queries, config.q_dim(), i),
            cache,
            i % config.heads() as int,
            start_pos + i / config.heads() as int + 1,
            rows[i],
        )
}

/// Attends with every query head of `seq_len` tokens, the first of which stands
/// at position `start_pos`, and lays the results out token by token and head by
/// head.
pub fn compute_attention_host<
    T: Copy,
    S: Fn(&[T], &[T]) -> T,
    P: Fn(&[T]) -> Vec<T>,
    A: Fn(T, T, T) -> T,
>(
    config: &Config,
    queries: &[T],
    cache: &LayerCache<T>,
    start_pos: usize,
    seq_len: usize,
    zero: T,
    score: S,
    softmax: P,
    mul_add: A,
) -> (out: Vec<T>)
    requires
        config.wf(),
        seq_len * config.heads() * config.q_dim() <= queries@.len(),
        seq_len > 0 ==> {
            &&& start_pos + seq_len <= usize::MAX
            &&& (start_pos + seq_len) * config.heads() <= usize::MAX
            &&& (start_pos + seq_len) * config.heads() * config.q_dim() <= cache@.keys.len()
            &&& (start_pos + seq_len) * config.heads() * config.v_head_dim <= cache@.values.len()
        },
        attends_all(config, score, softmax, mul_add, start_pos + seq_len),
    ensures
        out@.len() == seq_len * config.heads() * config.v_head_dim,
        exists|rows: Seq<Seq<T>>|
            {
                &&& #[trigger] attended_rows(
                    config,
                    score,
                    softmax,
                    mul_add,
                    zero,
                    queries@,
                    cache@,
                    start_pos as int,
                    seq_len * config.heads(),
                    rows,
                )
                &&& out@ == joined((seq_len * config.heads()) as nat, listed(rows))
            },
{
    let heads: usize = config.num_attention_heads;
    let q_dim: usize = config.query_head_dim();
    let v_dim: usize = config.v_head_dim;
    let ghost queries_len: usize = queries.len();
    let ghost total = seq_len * config.heads();
    let ghost end = start_pos + seq_len;
    let ghost mut rows: Seq<Seq<T>> = Seq::empty();
    let mut out: Vec<T> = Vec::new();
    let mut row: usize = 0;
    let mut token: usize = 0;
    proof {
        assert(0 * config.heads() == 0) by (nonlinear_arith);
        assert(total <= end * config.heads()) by (nonlinear_arith)
            requires
                total == seq_len * config.heads(),
                end == start_pos + seq_len,
                0 <= config.heads(),
                0 <= start_pos,
        ;
    }
    while token < seq_len
        invariant
            config.wf(),
            heads == config.heads(),
            q_dim == config.q_dim(),
            v_dim == config.v_head_dim,
            queries_len == queries@.len(),
            total == seq_len * heads,
            end == start_pos + seq_len,
            total <= end * heads,
            total * q_dim <= queries_len,
            seq_len > 0 ==> {
                &&& end <= usize::MAX
                &&& end * heads <= usize::MAX
                &&& end * heads * q_dim <= cache@.keys.len()
                &&& end * heads * v_dim <= cache@.values.len()
            },
            attends_all(config, score, softmax, mul_add, end),
            token <= seq_len,
            row == token * heads,
            attended_rows(
                config,
                score,
                softmax,
                mul_add,
                zero,
                queries@,
                cache@,
                start_pos as int,
                row as int,
                rows,
            ),
            out@ == joined(row as nat, listed(rows)),
        decreases seq_len - token,
    {
        let kv_len: usize = start_pos + token + 1;
        proof {
            lemma_row_bounds(seq_len as int, heads as int, token as int);
            assert(kv_len * heads <= end * heads) by (nonlinear_arith)
                requires
                    kv_len <= end,
                    0 <= heads,
            ;
            assert(kv_len * heads * q_dim <= end * heads * q_dim) by (nonlinear_arith)
                requires
                    kv_len * heads <= end * heads,
                    0 <= q_dim,
            ;
            assert(kv_len * heads * v_dim <= end * heads * v_dim) by (nonlinear_arith)
                requires
                    kv_len * heads <= end * heads,
                    0 <= v_dim,
            ;
        }
        let mut head: usize = 0;
        while head < heads
            invariant
                config.wf(),
                heads == config.heads(),
                q_dim == config.q_dim(),
                v_dim == config.v_head_dim,
                queries_len == queries@.len(),
                total == seq_len * heads,
                end == start_pos + seq_len,
                total <= end * heads,
                end * heads <= usize::MAX,
                total * q_dim <= queries_len,
                kv_len * heads <= usize::MAX,
                kv_len * heads * q_dim <= cache@.keys.len(),
                kv_len * heads * v_dim <= cache@.values.len(),
                attends_all(config, score, softmax, mul_add, end),
                token < seq_len,
                kv_len == start_pos + token + 1,
                (token + 1) * heads <= total,
                (token + 1) * heads == token * heads + heads,
                head <= heads,
                row == token * heads + head,
                attended_rows(
                    config,
                    score,
                    softmax,
                    mul_add,
                    zero,
                    queries@,
                    cache@,
                    start_pos as int,
                    row as int,
                    rows,
                ),
                out@ == joined(row as nat, listed(rows)),
            decreases heads - head,
        {
            proof {
                lemma_row_bounds(total, q_dim as int, row as int);
                lemma_row_token(token as int, head as int, heads as int);
            }
            let q_base: usize = row * q_dim;
            let query: &[T] = &queries[q_base..q_base + q_dim];
            let result: Vec<T> = attend_head(
                config,
                query,
                cache,
                head,
                kv_len,
                zero,
                &score,
                &softmax,
                &mul_add,
            );
            push_all(&mut out, result.as_slice());
            let ghost before = rows;
            proof {
                assert(query@ == row_of(queries@, config.q_dim(), row as int));
                rows = rows.push(result@);
                lemma_joined_same(row as nat, listed(before), listed(rows));
            }
            row = row + 1;
            head = head + 1;
        }
        token = token + 1;
    }
    proof {
        lemma_joined_len(total as nat, v_dim as nat, listed(rows));
    }
    out
}

/// What attention over `seq_len` new tokens does: the rotated parts `k_pe` and
/// `q_pe` belong to the tokens' own positions, the cache grows by their heads,
/// and `rows` is what each query head then sees in the grown cache.
pub open spec fn attended_tokens<
    T,
    R: Fn(T, T, usize, usize) -> (T, T),
    S: Fn(&[T], &[T]) -> T,
    P: Fn(&[T]) -> Vec<T>,
    A: Fn(T, T, T) -> T,
>(
    config: &Config,
    rotate: R,
    score: S,
    softmax: P,
    mul_add: A,
    zero: T,
    q: Seq<T>,
    kv_a: Seq<T>,
    kv_b: Seq<T>,
    start_pos: int,
    seq_len: int,
    before: CacheView<T>,
    after: CacheView<T>,
    k_pe: Seq<Seq<T>>,
    q_pe: Seq<Seq<T>>,
    rows: Seq<Seq<T>>,
) -> bool {
    let n = seq_len * config.heads();
    &&& rotated_keys(config, rotate, zero, kv_a, start_pos, seq_len, k_pe)
    &&& rotated_queries(config, rotate, zero, q, start_pos, n, q_pe)
    &&& after == before.appended(config, kv_b, k_pe, n as nat)
    &&& attended_rows(
        config,
        score,
        softmax,
        mul_add,
        zero,
        joined(n as nat, query_rows(config, q, q_pe)),
        after,
        start_pos,
        n,
        rows,
    )
}

/// The cache holds `start_pos` tokens, the projections cover `seq_len` more, and
/// the heads of all of them can be counted.
pub open spec fn inputs_fit<T>(
    config: &Config,
    cache: CacheView<T>,
    q_len: nat,
    kv_a_len: nat,
    kv_b_len: nat,
    start_pos: usize,
    seq_len: usize,
) -> bool {
    &&& config.wf()
    &&& cache.holds(config, start_pos as nat)
    &&& start_pos + seq_len <= usize::MAX
    &&& (start_pos + seq_len) * config.heads() <= usize::MAX
    &&& seq_len * config.heads() * config.q_dim() <= q_len
    &&& seq_len * config.kv_a_dim() <= kv_a_len
    &&& seq_len * config.heads() * config.kv_dim() <= kv_b_len
}

/// Whether `a * b` can be counted and is at most `limit`.
fn product_within(a: usize, b: usize, limit: usize) -> (yes: bool)
    ensures
        yes == (a * b <= limit),
{
    match a.checked_mul(b) {
        Some(product) => product <= limit,
        None => false,
    }
}

/// Whether attention over `seq_len` new tokens finds all that it reads.
pub fn attention_inputs_fit<T>(
    config: &Config,
    cache: &LayerCache<T>,
    q_host: &[T],
    kv_a_host: &[T],
    kv_b_host: &[T],
    start_pos: usize,
    seq_len: usize,
) -> (yes: bool)
    ensures
        yes == inputs_fit(
            config,
            cache@,
            q_host@.len(),
            kv_a_host@.len(),
            kv_b_host@.len(),
            start_pos,
            seq_len,
        ),
{
    if !config.is_wf() {
        return false;
    }
    let key_width: usize = config.q_proj_rows();
    let value_width: usize = config.o_proj_cols();
    if start_pos.checked_mul(key_width) != Some(cache.keys().len()) {
        return false;
    }
    if start_pos.checked_mul(value_width) != Some(cache.values().len()) {
        return false;
    }
    let end: usize = match start_pos.checked_add(seq_len) {
        Some(end) => end,
        None => {
            return false;
        },
    };
    proof {
        assert(seq_len * config.heads() * config.q_dim() == seq_len * (config.heads()
            * config.q_dim())) by (nonlinear_arith);
        assert(seq_len * config.heads() * config.kv_dim() == seq_len * (config.heads()
            * config.kv_dim())) by (nonlinear_arith);
    }
    product_within(end, config.num_attention_heads, usize::MAX) && product_within(
        seq_len,
        key_width,
        q_host.len(),
    ) && product_within(seq_len, config.kv_a_proj_rows(), kv_a_host.len()) && product_within(
        seq_len,
        config.kv_b_proj_rows(),
        kv_b_host.len(),
    )
}

/// Attention over `seq_len` new tokens that continue the cache: rotates their
/// queries and keys, extends the cache, and attends with every query head.
pub fn attention_host<
    T: Copy,
    R: Fn(T, T, usize, usize) -> (T, T),
    S: Fn(&[T], &[T]) -> T,
    P: Fn(&[T]) -> Vec<T>,
    A: Fn(T, T, T) -> T,
>(
    config: &Config,
    q_host: &[T],
    kv_a_host: &[T],
    kv_b_host: &[T],
    start_pos: usize,
    seq_len: usize,
    cache: &mut LayerCache<T>,
    zero: T,
    rotate: R,
    score: S,
    softmax: P,
    mul_add: A,
) -> (out: Vec<T>)
    requires
        inputs_fit(
            config,
            old(cache)@,
            q_host@.len(),
            kv_a_host@.len(),
            kv_b_host@.len(),
            start_pos,
            seq_len,
        ),
        rotates_all(config, rotate, start_pos as int, start_pos + seq_len),
        attends_all(config, score, softmax, mul_add, start_pos + seq_len),
    ensures
        final(cache)@.holds(config, (start_pos + seq_len) as nat),
        out@.len() == seq_len * config.heads() * config.v_head_dim,
        exists|k_pe: Seq<Seq<T>>, q_pe: Seq<Seq<T>>, rows: Seq<Seq<T>>|
            {
                &&& #[trigger] attended_tokens(
                    config,
                    rotate,
                    score,
                    softmax,
                    mul_add,
                    zero,
                    q_host@,
                    kv_a_host@,
                    kv_b_host@,
                    start_pos as int,
                    seq_len as int,
                    old(cache)@,
                    final(cache)@,
                    k_pe,
                    q_pe,
                    rows,
                )
                &&& out@ == joined((seq_len * config.heads()) as nat, listed(rows))
            },
{
    let ghost n = seq_len * config.heads();
    let ghost end = start_pos + seq_len;
    let ghost q_len: usize = q_host.len();
    proof {
        assert(n <= end * config.heads()) by (nonlinear_arith)
            requires
                n == seq_len * config.heads(),
                end == start_pos + seq_len,
                0 <= config.heads(),
                0 <= start_pos,
        ;
        assert(n * config.q_dim() == seq_len * (config.heads() * config.q_dim()))
            by (nonlinear_arith)
            requires
                n == seq_len * config.heads(),
        ;
    }
    let mut queries: Vec<T> = filled(zero, seq_len * config.q_proj_rows());
    let ghost unset = queries@;
    append_kv_and_build_queries(
        config,
        q_host,
        kv_a_host,
        kv_b_host,
        start_pos,
        seq_len,
        queries.as_mut_slice(),
        cache,
        zero,
        rotate,
    );
    let ghost (k_pe, q_pe) = choose|k_pe: Seq<Seq<T>>, q_pe: Seq<Seq<T>>|
        {
            &&& #[trigger] rotated_keys(
                config,
                rotate,
                zero,
                kv_a_host@,
                start_pos as int,
                seq_len as int,
                k_pe,
            )
            &&& #[trigger] rotated_queries(config, rotate, zero, q_host@, start_pos as int, n, q_pe)
            &&& cache@ == old(cache)@.appended(config, kv_b_host@, k_pe, n as nat)
            &&& queries@ == joined(n as nat, query_rows(config, q_host@, q_pe)) + unset.skip(
                n * config.q_dim(),
            )
        };
    proof {
        let built = joined(n as nat, query_rows(config, q_host@, q_pe));
        assert(unset.skip(n * config.q_dim()) =~= Seq::empty());
        assert(queries@ =~= built);
        assert forall|i: int| 0 <= i < n implies (#[trigger] query_rows(config, q_host@, q_pe)(
            i,
        )).len() == config.q_dim() by {
            lemma_row_bounds(n, config.q_dim() as int, i);
        }
        lemma_joined_len(n as nat, config.q_dim(), query_rows(config, q_host@, q_pe));
        law_append_extends_cache(
            config,
            old(cache)@,
            kv_b_host@,
            k_pe,
            start_pos as nat,
            seq_len as nat,
        );
        assert(end * (config.heads() * config.q_dim()) == end * config.heads() * config.q_dim())
            by (nonlinear_arith);
        assert(end * (config.heads() * config.v_head_dim) == end * config.heads()
            * config.v_head_dim) by (nonlinear_arith);
    }
    let out: Vec<T> = compute_attention_host(
        config,
        queries.as_slice(),
        cache,
        start_pos,
        seq_len,
        zero,
        score,
        softmax,
        mul_add,
    );
    proof {
        let rows = choose|rows: Seq<Seq<T>>|
            {
                &&& #[trigger] attended_rows(
                    config,
                    score,
                    softmax,
                    mul_add,
                    zero,
                    queries@,
                    cache@,
                    start_pos as int,
                    n,
                    rows,
                )
                &&& out@ == joined(n as nat, listed(rows))
            };
        assert(attended_tokens(
            config,
            rotate,
            score,
            softmax,
            mul_add,
            zero,
            q_host@,
            kv_a_host@,
            kv_b_host@,
            start_pos as int,
            seq_len as int,
            old(cache)@,
            cache@,
            k_pe,
            q_pe,
            rows,
        ));
    }
    out
}

/// What attending to the first `n` tokens can give depends on those tokens
/// alone: tokens that come later change nothing.
pub proof fn law_later_tokens_are_not_seen<
    T,
    S: Fn(&[T], &[T]) -> T,
    P: Fn(&[T]) -> Vec<T>,
    A: Fn(T, T, T) -> T,
>(
    config: &Config,
    score: S,
    softmax: P,
    mul_add: A,
    zero: T,
    query: Seq<T>,
    short: CacheView<T>,
    long: CacheView<T>,
    head: int,
    n: nat,
    out: Seq<T>,
)
    requires
        0 <= head < config.heads(),
        n * config.heads() * config.q_dim() <= short.keys.len() <= long.keys.len(),
        n * config.heads() * config.v_head_dim <= short.values.len() <= long.values.len(),
        long.keys.take(short.keys.len() as int) == short.keys,
        long.values.take(short.values.len() as int) == short.values,
    ensures
        attends(config, score, softmax, mul_add, zero, query, short, head, n as int, out)
            <==> attends(
            config,
            score,
            softmax,
            mul_add,
            zero,
            query,
            long,
            head,
            n as int,
            out,
        ),
{
    let heads = config.heads();
    let q_dim = config.q_dim();
    let v_dim = config.v_head_dim as nat;
    assert forall|p: int| 0 <= p < n implies #[trigger] head_row(
        short.keys,
        q_dim,
        heads,
        p,
        head,
    ) == head_row(long.keys, q_dim, heads, p, head) by {
        lemma_row_of_prefix(short.keys, long.keys, q_dim, heads, head, n, p);
    }
    assert forall|p: int| 0 <= p < n implies #[trigger] head_row(
        short.values,
        v_dim,
        heads,
        p,
        head,
    ) == head_row(long.values, v_dim, heads, p, head) by {
        lemma_row_of_prefix(short.values, long.values, v_dim, heads, head, n, p);
    }
    if attends(config, score, softmax, mul_add, zero, query, short, head, n as int, out) {
        lemma_attends_same_rows(
            config,
            score,
            softmax,
            mul_add,
            zero,
            query,
            short,
            long,
            head,
            n as int,
            out,
        );
    }
    if attends(config, score, softmax, mul_add, zero, query, long, head, n as int, out) {
        lemma_attends_same_rows(
            config,
            score,
            softmax,
            mul_add,
            zero,
            query,
            long,
            short,
            head,
            n as int,
            out,
        );
    }
}

/// Caches with the same rows of a head give the same.
proof fn lemma_attends_same_rows<
    T,
    S: Fn(&[T], &[T]) -> T,
    P: Fn(&[T]) -> Vec<T>,
    A: Fn(T, T, T) -> T,
>(
    config: &Config,
    score: S,
    softmax: P,
    mul_add: A,
    zero: T,
    query: Seq<T>,
    left: CacheView<T>,
    right: CacheView<T>,
    head: int,
    n: int,
    out: Seq<T>,
)
    requires
        forall|p: int|
            0 <= p < n ==> head_row(left.keys, config.q_dim(), config.heads(), p, head)
                == head_row(right.keys, config.q_dim(), config.heads(), p, head),
        forall|p: int|
            0 <= p < n ==> head_row(
                left.values,
                config.v_head_dim as nat,
                config.heads(),
                p,
                head,
            ) == head_row(right.values, config.v_head_dim as nat, config.heads(), p, head),
        attends(config, score, softmax, mul_add, zero, query, left, head, n, out),
    ensures
        attends(config, score, softmax, mul_add, zero, query, right, head, n, out),
{
    let width = config.v_head_dim as nat;
    let heads = config.heads();
    let (scores, shares, sums) = choose|scores: Seq<T>, shares: Seq<T>, sums: Seq<Seq<T>>|
        {
            &&& #[trigger] scored(config, score, query, left.keys, head, n, scores)
            &&& softmax_of(softmax, scores, shares)
            &&& #[trigger] summed(config, mul_add, zero, left.values, head, shares, n, sums)
            &&& out == sums[n]
        };
    assert(scored(config, score, query, right.keys, head, n, scores));
    assert forall|p: int, d: int| 0 <= p < n && 0 <= d < width implies #[trigger] entry_added(
        mul_add,
        shares[p],
        head_row(right.values, width, heads, p, head),
        sums[p],
        sums[p + 1],
        d,
    ) by {
        assert(entry_added(
            mul_add,
            shares[p],
            head_row(left.values, width, heads, p, head),
            sums[p],
            sums[p + 1],
            d,
        ));
    }
    assert(summed(config, mul_add, zero, right.values, head, shares, n, sums));
}

/// A head of one of the first `n` tokens in a buffer and in its start.
proof fn lemma_row_of_prefix<T>(
    short: Seq<T>,
    long: Seq<T>,
    width: nat,
    heads: nat,
    head: int,
    n: nat,
    p: int,
)
    requires
        0 <= head < heads,
        0 <= p < n,
        n * heads * width <= short.len() <= long.len(),
        long.take(short.len() as int) == short,
    ensures
        head_row(short, width, heads, p, head) == head_row(long, width, heads, p, head),
{
    lemma_row_bounds(n as int, heads as int, p);
    lemma_row_bounds((n * heads) as int, width as int, p * heads + head);
    assert(head_row(long.take(short.len() as int), width, heads, p, head) =~= head_row(
        long,
        width,
        heads,
        p,
        head,
    ));
}

/// Query heads that were built for two stretches of tokens are those built for
/// all of them.
proof fn lemma_query_rows_joined<T>(
    config: &Config,
    q_first: Seq<T>,
    q_rest: Seq<T>,
    q_pe_first: Seq<Seq<T>>,
    q_pe_rest: Seq<Seq<T>>,
    i: int,
)
    requires
        q_first.len() == q_pe_first.len() * config.q_dim(),
        q_rest.len() == q_pe_rest.len() * config.q_dim(),
        0 <= i < q_pe_first.len() + q_pe_rest.len(),
        forall|j: int|
            0 <= j < q_pe_first.len() ==> (#[trigger] q_pe_first[j]).len()
                == config.qk_rope_head_dim,
        forall|j: int|
            0 <= j < q_pe_rest.len() ==> (#[trigger] q_pe_rest[j]).len()
                == config.qk_rope_head_dim,
    ensures
        ({
            let a = q_pe_first.len();
            let b = q_pe_rest.len();
            row_of(
                joined(
                    a + b,
                    query_rows(config, q_first + q_rest, q_pe_first + q_pe_rest),
                ),
                config.q_dim(),
                i,
            ) == if i < a {
                row_of(joined(a, query_rows(config, q_first, q_pe_first)), config.q_dim(), i)
            } else {
                row_of(joined(b, query_rows(config, q_rest, q_pe_rest)), config.q_dim(), i - a)
            }
        }),
{
    let d = config.q_dim();
    let a = q_pe_first.len();
    let b = q_pe_rest.len();
    let q = q_first + q_rest;
    let q_pe = q_pe_first + q_pe_rest;
    let first = query_rows(config, q_first, q_pe_first);
    let rest = query_rows(config, q_rest, q_pe_rest);
    let whole = query_rows(config, q, q_pe);
    assert forall|j: int| 0 <= j < a implies (#[trigger] first(j)).len() == d by {
        lemma_row_bounds(a as int, d as int, j);
    }
    assert forall|j: int| 0 <= j < b implies (#[trigger] rest(j)).len() == d by {
        lemma_row_bounds(b as int, d as int, j);
    }
    assert((a + b) * d == a * d + b * d) by (nonlinear_arith);
    assert forall|j: int| 0 <= j < a + b implies (#[trigger] whole(j)).len() == d by {
        lemma_row_bounds((a + b) as int, d as int, j);
    }
    lemma_joined_row(a + b, d, whole, i);
    if i < a {
        lemma_joined_row(a, d, first, i);
        lemma_row_bounds(a as int, d as int, i);
        assert(query_row(config, q, q_pe, i) =~= query_row(config, q_first, q_pe_first, i));
    } else {
        let u = i - a;
        lemma_joined_row(b, d, rest, u);
        lemma_row_bounds(b as int, d as int, u);
        assert(i * d == a * d + u * d) by (nonlinear_arith)
            requires
                i == a + u,
        ;
        assert(query_row(config, q, q_pe, i) =~= query_row(config, q_rest, q_pe_rest, u));
    }
}

/// Attending to some tokens and then, with the cache that this left, to those
/// that follow gives nothing that attending to all of them at once could not
/// give: the caches agree, and the outputs stand one behind the other.
pub proof fn law_attention_in_two_steps<
    T,
    R: Fn(T, T, usize, usize) -> (T, T),
    S: Fn(&[T], &[T]) -> T,
    P: Fn(&[T]) -> Vec<T>,
    A: Fn(T, T, T) -> T,
>(
    config: &Config,
    rotate: R,
    score: S,
    softmax: P,
    mul_add: A,
    zero: T,
    q_first: Seq<T>,
    kv_a_first: Seq<T>,
    kv_b_first: Seq<T>,
    q_rest: Seq<T>,
    kv_a_rest: Seq<T>,
    kv_b_rest: Seq<T>,
    start_pos: nat,
    len_first: nat,
    len_rest: nat,
    before: CacheView<T>,
    middle: CacheView<T>,
    after: CacheView<T>,
    k_pe_first: Seq<Seq<T>>,
    q_pe_first: Seq<Seq<T>>,
    rows_first: Seq<Seq<T>>,
    k_pe_rest: Seq<Seq<T>>,
    q_pe_rest: Seq<Seq<T>>,
    rows_rest: Seq<Seq<T>>,
)
    requires
        before.holds(config, start_pos),
        q_first.len() == len_first * config.heads() * config.q_dim(),
        kv_a_first.len() == len_first * config.kv_a_dim(),
        kv_b_first.len() == len_first * config.heads() * config.kv_dim(),
        q_rest.len() == len_rest * config.heads() * config.q_dim(),
        kv_a_rest.len() == len_rest * config.kv_a_dim(),
        kv_b_rest.len() == len_rest * config.heads() * config.kv_dim(),
        attended_tokens(
            config,
            rotate,
            score,
            softmax,
            mul_add,
            zero,
            q_first,
            kv_a_first,
            kv_b_first,
            start_pos as int,
            len_first as int,
            before,
            middle,
            k_pe_first,
            q_pe_first,
            rows_first,
        ),
        attended_tokens(
            config,
            rotate,
            score,
            softmax,
            mul_add,
            zero,
            q_rest,
            kv_a_rest,
            kv_b_rest,
            (start_pos + len_first) as int,
            len_rest as int,
            middle,
            after,
            k_pe_rest,
            q_pe_rest,
            rows_rest,
        ),
    ensures
        attended_tokens(
            config,
            rotate,
            score,
            softmax,
            mul_add,
            zero,
            q_first + q_rest,
            kv_a_first + kv_a_rest,
            kv_b_first + kv_b_rest,
            start_pos as int,
            (len_first + len_rest) as int,
            before,
            after,
            k_pe_first + k_pe_rest,
            q_pe_first + q_pe_rest,
            rows_first + rows_rest,
        ),
        joined(
            (len_first + len_rest) * config.heads(),
            listed(rows_first + rows_rest),
        ) == joined(len_first * config.heads(), listed(rows_first)) + joined(
            len_rest * config.heads(),
            listed(rows_rest),
        ),
{
    let heads = config.heads();
    let a = len_first * heads;
    let b = len_rest * heads;
    let rows = rows_first + rows_rest;
    let queries = joined(
        a + b,
        query_rows(config, q_first + q_rest, q_pe_first + q_pe_rest),
    );
    assert((len_first + len_rest) * heads == a + b) by (nonlinear_arith)
        requires
            a == len_first * heads,
            b == len_rest * heads,
    ;
    law_rotate_in_two_steps(
        config,
        rotate,
        zero,
        kv_a_first,
        kv_a_rest,
        start_pos as int,
        k_pe_first,
        k_pe_rest,
    );
    law_rotate_queries_in_two_steps(
        config,
        rotate,
        zero,
        q_first,
        q_rest,
        start_pos as int,
        len_first,
        len_rest,
        q_pe_first,
        q_pe_rest,
    );
    law_append_in_two_steps(config, before, kv_b_first, kv_b_rest, k_pe_first, k_pe_rest);
    law_append_extends_cache(config, before, kv_b_first, k_pe_first, start_pos, len_first);
    law_append_extends_cache(config, middle, kv_b_rest, k_pe_rest, start_pos + len_first, len_rest);
    assert forall|i: int| 0 <= i < a + b implies (#[trigger] rows[i]).len() == config.v_head_dim
        && attends(
        config,
        score,
        softmax,
        mul_add,
        zero,
        row_of(queries, config.q_dim(), i),
        after,
        i % heads as int,
        start_pos + i / heads as int + 1,
        rows[i],
    ) by {
        lemma_query_rows_joined(config, q_first, q_rest, q_pe_first, q_pe_rest, i);
        if i < a {
            lemma_token_of_row(i, len_first as int, heads as int);
            assert(rows[i] == rows_first[i]);
            let seen = (start_pos + i / heads as int + 1) as nat;
            lemma_seen_heads(seen, start_pos + len_first, heads, config.q_dim());
            lemma_seen_heads(seen, start_pos + len_first, heads, config.v_head_dim as nat);
            law_later_tokens_are_not_seen(
                config,
                score,
                softmax,
                mul_add,
                zero,
                row_of(queries, config.q_dim(), i),
                middle,
                after,
                i % heads as int,
                seen,
                rows[i],
            );
        } else {
            let u = i - a;
            lemma_token_of_row(u, len_rest as int, heads as int);
            lemma_shifted_row(u, len_first as int, heads as int);
            assert(rows[i] == rows_rest[u]);
        }
    }
    assert(rows.len() == a + b);
    assert forall|i: int| 0 <= i < a implies #[trigger] listed(rows)(i) == listed(rows_first)(
        i,
    ) by {}
    assert forall|i: int| 0 <= i < b implies #[trigger] listed(rows)(a + i) == listed(rows_rest)(
        i,
    ) by {}
    lemma_joined_split(a, b, listed(rows_first), listed(rows_rest), listed(rows));
}

/// The heads of fewer tokens take no more room.
proof fn lemma_seen_heads(n: nat, m: nat, heads: nat, width: nat)
    requires
        n <= m,
    ensures
        n * heads * width <= m * (heads * width),
{
    assert(n * heads * width <= m * (heads * width)) by (nonlinear_arith)
        requires
            n <= m,
            0 <= heads,
            0 <= width,
    ;
}

} // verus!
