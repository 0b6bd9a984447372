//! Attention state kept on the host, and how new tokens enter it.
//!
//! Buffers are flat and generic in their entry type. The arithmetic on entries
//! is a parameter (`rotate`, `inv_rms`, `scale`): what is proved here holds
//! whatever the arithmetic gives.
use vstd::prelude::*;

use crate::config::Config;
use crate::error::HostError;
use crate::rows::{filled, push_all, write_at};
#[allow(unused_imports)]
use crate::rows::{
    joined, lemma_joined_len, lemma_joined_same, lemma_joined_split, lemma_row_bounds, listed,
};

verus! {

/// The keys and values of one layer, as sequences.
#[verifier::ext_equal]
pub struct CacheView<T> {
    /// Key heads, token by token and within a token head by head.
    pub keys: Seq<T>,
    /// Value heads, in the same order.
    pub values: Seq<T>,
}

/// The keys and values that one layer has seen.
pub struct LayerCache<T> {
    keys: Vec<T>,
    values: Vec<T>,
}

impl<T> View for LayerCache<T> {
    type V = CacheView<T>;

    closed spec fn view(&self) -> CacheView<T> {
        CacheView { keys: self.keys@, values: self.values@ }
    }
}

/// Where the unrotated part of key head `i` and its value head stand in the
/// expanded key-value projection.
pub open spec fn kv_base(config: &Config, i: int) -> int {
    i * config.kv_dim()
}

/// Key head `i`: its unrotated part, then the rotated part that all heads of
/// its token share.
pub open spec fn key_row<T>(config: &Config, kv_b: Seq<T>, k_pe: Seq<Seq<T>>, i: int) -> Seq<T> {
    kv_b.subrange(kv_base(config, i), kv_base(config, i) + config.qk_nope_head_dim)
        + k_pe[i / config.heads() as int]
}

/// Value head `i`.
pub open spec fn value_row<T>(config: &Config, kv_b: Seq<T>, i: int) -> Seq<T> {
    kv_b.subrange(
        kv_base(config, i) + config.qk_nope_head_dim,
        kv_base(config, i) + config.kv_dim(),
    )
}

/// Query head `i`: its unrotated part, then its rotated part.
pub open spec fn query_row<T>(config: &Config, q: Seq<T>, q_pe: Seq<Seq<T>>, i: int) -> Seq<T> {
    q.subrange(i * config.q_dim(), i * config.q_dim() + config.qk_nope_head_dim) + q_pe[i]
}

/// The part of token `t` that is rotated into its key heads.
pub open spec fn raw_key_part<T>(config: &Config, kv_a: Seq<T>, t: int) -> Seq<T> {
    kv_a.subrange(t * config.kv_a_dim() + config.kv_lora_rank, (t + 1) * config.kv_a_dim())
}

/// The part of query head `i` that is rotated.
pub open spec fn raw_query_part<T>(config: &Config, q: Seq<T>, i: int) -> Seq<T> {
    q.subrange(i * config.q_dim() + config.qk_nope_head_dim, (i + 1) * config.q_dim())
}

/// All key heads, by number.
pub open spec fn key_rows<T>(config: &Config, kv_b: Seq<T>, k_pe: Seq<Seq<T>>) -> spec_fn(
    int,
) -> Seq<T> {
    |i: int| key_row(config, kv_b, k_pe, i)
}

/// All value heads, by number.
pub open spec fn value_rows<T>(config: &Config, kv_b: Seq<T>) -> spec_fn(int) -> Seq<T> {
    |i: int| value_row(config, kv_b, i)
}

/// All query heads, by number.
pub open spec fn query_rows<T>(config: &Config, q: Seq<T>, q_pe: Seq<Seq<T>>) -> spec_fn(
    int,
) -> Seq<T> {
    |i: int| query_row(config, q, q_pe, i)
}

impl<T> CacheView<T> {
    /// The empty cache.
    pub open spec fn empty() -> Self {
        CacheView { keys: Seq::empty(), values: Seq::empty() }
    }

    /// The cache with the key and value heads `0..n` added.
    pub open spec fn appended(
        self,
        config: &Config,
        kv_b: Seq<T>,
        k_pe: Seq<Seq<T>>,
        n: nat,
    ) -> Self {
        CacheView {
            keys: self.keys + joined(n, key_rows(config, kv_b, k_pe)),
            values: self.values + joined(n, value_rows(config, kv_b)),
        }
    }

    /// The cache holds the heads of exactly `n` tokens.
    pub open spec fn holds(self, config: &Config, n: nat) -> bool {
        &&& self.keys.len() == n * (config.heads() * config.q_dim())
        &&& self.values.len() == n * (config.heads() * config.v_head_dim)
    }

    /// Number of tokens, counted by the keys; a model without key entries
    /// counts none.
    pub open spec fn tokens(self, config: &Config) -> nat {
        if config.heads() * config.q_dim() == 0 {
            0
        } else {
            self.keys.len() / (config.heads() * config.q_dim())
        }
    }
}

/// The entries of pair `i`, one in each half, are what rotating the pair to
/// position `pos` can give.
pub open spec fn pair_rotated<T, R: Fn(T, T, usize, usize) -> (T, T)>(
    rotate: R,
    raw: Seq<T>,
    pos: int,
    out: Seq<T>,
    i: int,
) -> bool {
    let j = i + raw.len() as int / 2;
    call_ensures(rotate, (raw[i], raw[j], i as usize, pos as usize), (out[i], out[j]))
}

/// `out` is what rotating the pairs of `raw` to position `pos` can give: entry
/// `i` of the first half is paired with entry `i` of the second half, and a
/// last entry without a partner becomes `zero`.
pub open spec fn rotated<T, R: Fn(T, T, usize, usize) -> (T, T)>(
    rotate: R,
    zero: T,
    raw: Seq<T>,
    pos: int,
    out: Seq<T>,
) -> bool {
    &&& out.len() == raw.len()
    &&& forall|i: int|
        0 <= i < raw.len() as int / 2 ==> #[trigger] pair_rotated(rotate, raw, pos, out, i)
    &&& raw.len() % 2 == 1 ==> out.last() == zero
}

/// The pair rotation takes any two entries of any pair at the positions
/// `start_pos..end_pos`.
pub open spec fn rotates_all<T, R: Fn(T, T, usize, usize) -> (T, T)>(
    config: &Config,
    rotate: R,
    start_pos: int,
    end_pos: int,
) -> bool {
    forall|a: T, b: T, i: usize, p: usize|
        i < config.qk_rope_head_dim / 2 && start_pos <= p < end_pos ==> #[trigger] call_requires(
            rotate,
            (a, b, i, p),
        )
}

/// `k_pe` holds the rotated key part of each of the first `n` tokens, each
/// rotated to its own position.
pub open spec fn rotated_keys<T, R: Fn(T, T, usize, usize) -> (T, T)>(
    config: &Config,
    rotate: R,
    zero: T,
    kv_a: Seq<T>,
    start_pos: int,
    n: int,
    k_pe: Seq<Seq<T>>,
) -> bool {
    &&& k_pe.len() == n
    &&& forall|t: int|
        0 <= t < n ==> (#[trigger] k_pe[t]).len() == config.qk_rope_head_dim && rotated(
            rotate,
            zero,
            raw_key_part(config, kv_a, t),
            start_pos + t,
            k_pe[t],
        )
}

/// `q_pe` holds the rotated part of each of the first `n` query heads, each
/// rotated to the position of its token.
pub open spec fn rotated_queries<T, R: Fn(T, T, usize, usize) -> (T, T)>(
    config: &Config,
    rotate: R,
    zero: T,
    q: Seq<T>,
    start_pos: int,
    n: int,
    q_pe: Seq<Seq<T>>,
) -> bool {
    &&& q_pe.len() == n
    &&& forall|i: int|
        0 <= i < n ==> (#[trigger] q_pe[i]).len() == config.qk_rope_head_dim && rotated(
            rotate,
            zero,
            raw_query_part(config, q, i),
            start_pos + i / config.heads() as int,
            q_pe[i],
        )
}

impl<T> LayerCache<T> {
    /// An empty cache.
    pub fn new() -> (cache: Self)
        ensures
            cache@ == CacheView::<T>::empty(),
    {
        LayerCache { keys: Vec::new(), values: Vec::new() }
    }

    /// The key heads.
    pub fn keys(&self) -> (keys: &[T])
        ensures
            keys@ == self@.keys,
    {
        self.keys.as_slice()
    }

    /// The value heads.
    pub fn values(&self) -> (values: &[T])
        ensures
            values@ == self@.values,
    {
        self.values.as_slice()
    }

    /// Number of tokens whose keys the cache holds.
    pub fn len(&self, config: &Config) -> (n: usize)
        requires
            config.q_dim() <= usize::MAX,
            config.heads() * config.q_dim() <= usize::MAX,
        ensures
            n == self@.tokens(config),
    {
        let per_token: usize = config.num_attention_heads * config.query_head_dim();
        if per_token == 0 {
            return 0;
        }
        self.keys.len() / per_token
    }
}

/// Head `head` of token `token` is row `token * heads + head`.
pub(crate) proof fn lemma_row_token(token: int, head: int, heads: int)
    requires
        0 <= token,
        0 <= head < heads,
    ensures
        (token * heads + head) / heads == token,
        (token * heads + head) % heads == head,
{
    vstd::arithmetic::div_mod::lemma_fundamental_div_mod_converse(
        token * heads + head,
        heads,
        token,
        head,
    );
}

/// Rotates the pairs of one head part to position `pos`.
pub fn apply_rope<T: Copy, R: Fn(T, T, usize, usize) -> (T, T)>(
    input: &[T],
    pos: usize,
    zero: T,
    rotate: &R,
) -> (out: Vec<T>)
    requires
        forall|a: T, b: T, i: usize|
            i < input@.len() / 2 ==> #[trigger] call_requires(*rotate, (a, b, i, pos)),
    ensures
        rotated(*rotate, zero, input@, pos as int, out@),
{
    let dim: usize = input.len();
    let half: usize = dim / 2;
    let mut out: Vec<T> = filled(zero, dim);
    let mut i: usize = 0;
    while i < half
        invariant
            dim == input@.len(),
            half == dim / 2,
            i <= half,
            out@.len() == dim,
            forall|a: T, b: T, j: usize|
                j < input@.len() / 2 ==> #[trigger] call_requires(*rotate, (a, b, j, pos)),
            forall|j: int|
                0 <= j < i ==> #[trigger] pair_rotated(*rotate, input@, pos as int, out@, j),
            forall|j: int| i + half <= j < dim ==> #[trigger] out@[j] == zero,
        decreases half - i,
    {
        let ghost before = out@;
        let (x, y): (T, T) = rotate(input[i], input[i + half], i, pos);
        out[i] = x;
        out[i + half] = y;
        proof {
            assert forall|j: int| 0 <= j < i + 1 implies #[trigger] pair_rotated(
                *rotate,
                input@,
                pos as int,
                out@,
                j,
            ) by {
                if j < i {
                    assert(pair_rotated(*rotate, input@, pos as int, before, j));
                }
            }
        }
        i += 1;
    }
    out
}

/// Writing query head `row` behind the heads before it.
proof fn lemma_query_written<T>(
    config: &Config,
    q: Seq<T>,
    q_pe: Seq<Seq<T>>,
    rotated_part: Seq<T>,
    row: int,
    total: int,
    unset: Seq<T>,
    before: Seq<T>,
    after: Seq<T>,
)
    requires
        0 <= row < total,
        q_pe.len() == row,
        forall|i: int| 0 <= i < row ==> (#[trigger] q_pe[i]).len() == config.qk_rope_head_dim,
        rotated_part.len() == config.qk_rope_head_dim,
        total * config.q_dim() <= q.len(),
        total * config.q_dim() <= unset.len(),
        before == joined(row as nat, query_rows(config, q, q_pe)) + unset.skip(
            row * config.q_dim(),
        ),
        before.len() == after.len(),
        ({
            let base = row * config.q_dim();
            let mid = base + config.qk_nope_head_dim;
            let half_written = before.take(base) + q.subrange(base, mid) + before.skip(mid);
            after == half_written.take(mid) + rotated_part + half_written.skip(
                base + config.q_dim(),
            )
        }),
    ensures
        after == joined((row + 1) as nat, query_rows(config, q, q_pe.push(rotated_part)))
            + unset.skip((row + 1) * config.q_dim()),
{
    let d = config.q_dim();
    let rows = query_rows(config, q, q_pe.push(rotated_part));
    lemma_row_bounds(total, d as int, row);
    assert forall|i: int| 0 <= i < row implies #[trigger] query_rows(config, q, q_pe)(i) == rows(
        i,
    ) by {}
    lemma_joined_same(row as nat, query_rows(config, q, q_pe), rows);
    assert forall|i: int| 0 <= i < row implies (#[trigger] rows(i)).len() == d by {
        lemma_row_bounds(total, d as int, i);
    }
    lemma_joined_len(row as nat, d, rows);
    assert(joined((row + 1) as nat, rows) == joined(row as nat, rows) + rows(row));
    assert(rows(row) == q.subrange(row * d, row * d + config.qk_nope_head_dim) + rotated_part);
    assert(after =~= joined((row + 1) as nat, rows) + unset.skip((row + 1) * d));
}

/// Builds the query heads of `seq_len` tokens and adds their key and value
/// heads to the cache. The first token stands at position `start_pos`.
pub fn append_kv_and_build_queries<T: Copy, R: Fn(T, T, usize, usize) -> (T, T)>(
    config: &Config,
    q_host: &[T],
    kv_a_host: &[T],
    kv_b_host: &[T],
    start_pos: usize,
    seq_len: usize,
    queries: &mut [T],
    cache: &mut LayerCache<T>,
    zero: T,
    rotate: R,
)
    requires
        config.wf(),
        start_pos + seq_len <= usize::MAX + 1,
        seq_len * config.heads() <= usize::MAX,
        seq_len * config.heads() * config.q_dim() <= q_host@.len(),
        seq_len * config.kv_a_dim() <= kv_a_host@.len(),
        seq_len * config.heads() * config.kv_dim() <= kv_b_host@.len(),
        seq_len * config.heads() * config.q_dim() <= old(queries)@.len(),
        rotates_all(config, rotate, start_pos as int, start_pos + seq_len),
    ensures
        exists|k_pe: Seq<Seq<T>>, q_pe: Seq<Seq<T>>|
            {
                &&& #[trigger] rotated_keys(
                    config,
                    rotate,
                    zero,
                    kv_a_host@,
                    start_pos as int,
                    seq_len as int,
                    k_pe,
                )
                &&& #[trigger] rotated_queries(
                    config,
                    rotate,
                    zero,
                    q_host@,
                    start_pos as int,
                    seq_len * config.heads(),
                    q_pe,
                )
                &&& final(cache)@ == old(cache)@.appended(
                    config,
                    kv_b_host@,
                    k_pe,
                    (seq_len * config.heads()) as nat,
                )
                &&& final(queries)@ == joined(
                    (seq_len * config.heads()) as nat,
                    query_rows(config, q_host@, q_pe),
                ) + old(queries)@.skip(seq_len * config.heads() * config.q_dim())
            },
{
    let heads: usize = config.num_attention_heads;
    let nope: usize = config.qk_nope_head_dim;
    let rope_dim: usize = config.qk_rope_head_dim;
    let q_dim: usize = config.query_head_dim();
    let kv_dim: usize = config.qk_nope_head_dim + config.v_head_dim;
    let kv_a_dim: usize = config.kv_a_proj_rows();
    let ghost q = q_host@;
    let ghost kv_a = kv_a_host@;
    let ghost kv_b = kv_b_host@;
    let ghost mut k_pe: Seq<Seq<T>> = Seq::empty();
    let ghost mut q_pe: Seq<Seq<T>> = Seq::empty();
    let ghost total = seq_len * config.heads();
    let ghost q_len: usize = q_host.len();
    let ghost kv_a_len: usize = kv_a_host.len();
    let ghost kv_b_len: usize = kv_b_host.len();
    let ghost queries_len: usize = queries.len();

    let mut row: usize = 0;
    let mut token: usize = 0;
    proof {
        assert(0 * config.heads() == 0) by (nonlinear_arith);
        assert(0 * config.q_dim() == 0) by (nonlinear_arith);
        assert(old(queries)@.skip(0) =~= old(queries)@);
        assert(queries@ =~= joined(0, query_rows(config, q, q_pe)) + old(queries)@.skip(0));
        assert(cache@ =~= old(cache)@.appended(config, kv_b, k_pe, 0));
    }
    while token < seq_len
        invariant
            config.wf(),
            heads == config.heads(),
            nope == config.qk_nope_head_dim,
            rope_dim == config.qk_rope_head_dim,
            q_dim == config.q_dim(),
            kv_dim == config.kv_dim(),
            kv_a_dim == config.kv_a_dim(),
            q == q_host@,
            kv_a == kv_a_host@,
            kv_b == kv_b_host@,
            q_len == q.len(),
            kv_a_len == kv_a.len(),
            kv_b_len == kv_b.len(),
            queries_len == old(queries)@.len(),
            queries@.len() == queries_len,
            total == seq_len * config.heads(),
            total <= usize::MAX,
            total * q_dim <= q_len,
            seq_len * kv_a_dim <= kv_a_len,
            total * kv_dim <= kv_b_len,
            total * q_dim <= queries_len,
            start_pos + seq_len <= usize::MAX + 1,
            rotates_all(config, rotate, start_pos as int, start_pos + seq_len),
            token <= seq_len,
            row == token * config.heads(),
            rotated_keys(config, rotate, zero, kv_a, start_pos as int, token as int, k_pe),
            rotated_queries(config, rotate, zero, q, start_pos as int, row as int, q_pe),
            cache@ == old(cache)@.appended(config, kv_b, k_pe, row as nat),
            queries@ == joined(row as nat, query_rows(config, q, q_pe)) + old(queries)@.skip(
                row * q_dim,
            ),
        decreases seq_len - token,
    {
        let pos: usize = start_pos + token;
        proof {
            lemma_row_bounds(seq_len as int, kv_a_dim as int, token as int);
            lemma_row_bounds(seq_len as int, heads as int, token as int);
        }
        let part: usize = token * kv_a_dim + config.kv_lora_rank;
        let raw: &[T] = &kv_a_host[part..part + rope_dim];
        let k_row: Vec<T> = apply_rope(raw, pos, zero, &rotate);
        let ghost k_before = k_pe;
        proof {
            assert(raw@ =~= raw_key_part(config, kv_a, token as int));
            assert(rotated(
                rotate,
                zero,
                raw_key_part(config, kv_a, token as int),
                start_pos + token,
                k_row@,
            ));
            k_pe = k_pe.push(k_row@);
            assert forall|i: int| 0 <= i < row implies #[trigger] key_rows(
                config,
                kv_b,
                k_before,
            )(i) == key_rows(config, kv_b, k_pe)(i) by {
                assert(0 <= i / (heads as int) && i / (heads as int) < token) by (nonlinear_arith)
                    requires
                        0 <= i < token * heads,
                        0 <= heads,
                ;
            }
            lemma_joined_same(
                row as nat,
                key_rows(config, kv_b, k_before),
                key_rows(config, kv_b, k_pe),
            );
        }
        let mut head: usize = 0;
        while head < heads
            invariant
                config.wf(),
                heads == config.heads(),
                nope == config.qk_nope_head_dim,
                rope_dim == config.qk_rope_head_dim,
                q_dim == config.q_dim(),
                kv_dim == config.kv_dim(),
                q == q_host@,
                kv_b == kv_b_host@,
                q_len == q.len(),
                kv_b_len == kv_b.len(),
                queries_len == old(queries)@.len(),
                queries@.len() == queries_len,
                total == seq_len * config.heads(),
                total <= usize::MAX,
                total * q_dim <= q_len,
                total * kv_dim <= kv_b_len,
                total * q_dim <= queries_len,
                start_pos + seq_len <= usize::MAX + 1,
                rotates_all(config, rotate, start_pos as int, start_pos + seq_len),
                token < seq_len,
                pos == start_pos + token,
                (token + 1) * heads <= total,
                (token + 1) * heads == token * heads + heads,
                head <= heads,
                row == token * config.heads() + head,
                k_pe.len() == token + 1,
                k_pe[token as int] == k_row@,
                k_row@.len() == rope_dim,
                rotated_queries(config, rotate, zero, q, start_pos as int, row as int, q_pe),
                cache@ == old(cache)@.appended(config, kv_b, k_pe, row as nat),
                queries@ == joined(row as nat, query_rows(config, q, q_pe)) + old(queries)@.skip(
                    row * q_dim,
                ),
            decreases heads - head,
        {
            proof {
                lemma_row_bounds(total, q_dim as int, row as int);
                lemma_row_bounds(total, kv_dim as int, row as int);
                lemma_row_token(token as int, head as int, heads as int);
            }
            let q_base: usize = row * q_dim;
            let raw_q: &[T] = &q_host[q_base + nope..q_base + q_dim];
            let q_row: Vec<T> = apply_rope(raw_q, pos, zero, &rotate);
            let ghost q_before = q_pe;
            let ghost written = queries@;
            proof {
                assert(raw_q@ =~= raw_query_part(config, q, row as int));
                assert(rotated(
                    rotate,
                    zero,
                    raw_query_part(config, q, row as int),
                    pos as int,
                    q_row@,
                ));
                q_pe = q_pe.push(q_row@);
            }
            write_at(queries, q_base, &q_host[q_base..q_base + nope]);
            write_at(queries, q_base + nope, q_row.as_slice());
            let base: usize = row * kv_dim;
            push_all(&mut cache.keys, &kv_b_host[base..base + nope]);
            push_all(&mut cache.keys, k_row.as_slice());
            push_all(&mut cache.values, &kv_b_host[base + nope..base + kv_dim]);
            proof {
                lemma_query_written(
                    config,
                    q,
                    q_before,
                    q_row@,
                    row as int,
                    total,
                    old(queries)@,
                    written,
                    queries@,
                );
                assert(cache@ =~= old(cache)@.appended(config, kv_b, k_pe, (row + 1) as nat));
            }
            row = row + 1;
            head = head + 1;
        }
        token = token + 1;
    }
    proof {
        assert(rotated_keys(config, rotate, zero, kv_a, start_pos as int, seq_len as int, k_pe));
        assert(rotated_queries(config, rotate, zero, q, start_pos as int, total, q_pe));
    }
}

/// The caches of all layers.
pub struct DecodeCache<T> {
    /// One cache per layer.
    pub layers: Vec<LayerCache<T>>,
}

impl<T> DecodeCache<T> {
    /// An empty cache for every layer of the model.
    pub fn new(config: &Config) -> (cache: Self)
        ensures
            cache.layers@.len() == config.num_hidden_layers,
            forall|i: int|
                0 <= i < cache.layers@.len() ==> (#[trigger] cache.layers@[i])@ == CacheView::<
                    T,
                >::empty(),
    {
        let mut layers: Vec<LayerCache<T>> = Vec::new();
        let mut i: usize = 0;
        while i < config.num_hidden_layers
            invariant
                i <= config.num_hidden_layers,
                layers@.len() == i,
                forall|j: int|
                    0 <= j < i ==> (#[trigger] layers@[j])@ == CacheView::<T>::empty(),
            decreases config.num_hidden_layers - i,
        {
            layers.push(LayerCache::new());
            i += 1;
        }
        DecodeCache { layers }
    }

    /// Refuses a cache that does not have one entry per layer of the model.
    pub fn check_layers(&self, layers: usize) -> (result: Result<(), HostError>)
        ensures
            result == (if self.layers@.len() == layers {
                Ok::<(), HostError>(())
            } else {
                Err::<(), HostError>(HostError::LayerCount)
            }),
    {
        if self.layers.len() == layers {
            Ok(())
        } else {
            Err(HostError::LayerCount)
        }
    }
}

/// Whether new tokens that start at `start_pos` continue the cache.
pub open spec fn continues<T>(
    config: &Config,
    cache: CacheView<T>,
    start_pos: usize,
) -> Result<(), HostError> {
    if cache.tokens(config) == start_pos {
        Ok(())
    } else {
        Err(HostError::CachePosition { cache_len: cache.tokens(config) as usize, start_pos })
    }
}

/// Refuses tokens that do not start where the cache ends.
pub fn check_cache_position<T>(
    config: &Config,
    cache: &LayerCache<T>,
    start_pos: usize,
) -> (result: Result<(), HostError>)
    requires
        config.q_dim() <= usize::MAX,
        config.heads() * config.q_dim() <= usize::MAX,
    ensures
        result == continues(config, cache@, start_pos),
{
    let cache_len: usize = cache.len(config);
    if cache_len == start_pos {
        Ok(())
    } else {
        Err(HostError::CachePosition { cache_len, start_pos })
    }
}

/// Refuses host data of another length than `seq_len` hidden states.
pub fn check_hidden_len(got: usize, hidden_dim: usize, seq_len: usize) -> (result: Result<
    (),
    HostError,
>)
    requires
        hidden_dim * seq_len <= usize::MAX,
    ensures
        result == (if got == hidden_dim * seq_len {
            Ok::<(), HostError>(())
        } else {
            Err::<(), HostError>(
                HostError::HiddenLen { got, expected: (hidden_dim * seq_len) as usize },
            )
        }),
{
    let expected: usize = hidden_dim * seq_len;
    if got == expected {
        Ok(())
    } else {
        Err(HostError::HiddenLen { got, expected })
    }
}

/// `out` is what normalising one row can give: every entry is scaled by the
/// row's common factor and its own weight, and is `zero` where there is no
/// weight for it.
pub open spec fn normalized<T, U, N: Fn(&[T]) -> T, S: Fn(T, T, T) -> U>(
    inv_rms: N,
    scale: S,
    zero: U,
    input: Seq<T>,
    weight: Seq<T>,
    out: Seq<U>,
) -> bool {
    &&& out.len() == input.len()
    &&& exists|x: &[T], factor: T|
        {
            &&& x@ == input
            &&& #[trigger] call_ensures(inv_rms, (x,), factor)
            &&& forall|i: int|
                0 <= i < input.len() && i < weight.len() ==> call_ensures(
                    scale,
                    (input[i], factor, weight[i]),
                    #[trigger] out[i],
                )
        }
    &&& forall|i: int| weight.len() <= i < input.len() ==> #[trigger] out[i] == zero
}

/// The arithmetic of row normalisation takes every row of `width` entries.
pub open spec fn normalizes_all<T, U, N: Fn(&[T]) -> T, S: Fn(T, T, T) -> U>(
    inv_rms: N,
    scale: S,
    width: nat,
) -> bool {
    &&& forall|x: &[T]| x@.len() == width ==> #[trigger] call_requires(inv_rms, (x,))
    &&& forall|a: T, b: T, c: T| #[trigger] call_requires(scale, (a, b, c))
}

/// `after` is what normalising one row into `before` can give: every entry of
/// the row that has a weight and a place is scaled by the row's common factor
/// and its own weight, and the other places are kept.
pub open spec fn normalized_into<T, U, N: Fn(&[T]) -> T, S: Fn(T, T, T) -> U>(
    inv_rms: N,
    scale: S,
    input: Seq<T>,
    weight: Seq<T>,
    before: Seq<U>,
    after: Seq<U>,
) -> bool {
    &&& after.len() == before.len()
    &&& exists|x: &[T], factor: T|
        {
            &&& x@ == input
            &&& #[trigger] call_ensures(inv_rms, (x,), factor)
            &&& forall|i: int|
                0 <= i < before.len() && i < input.len() && i < weight.len() ==> call_ensures(
                    scale,
                    (input[i], factor, weight[i]),
                    #[trigger] after[i],
                )
        }
    &&& forall|i: int|
        0 <= i < before.len() && (i >= input.len() || i >= weight.len()) ==> #[trigger] after[i]
            == before[i]
}

/// Normalises one row into `out`.
pub fn rms_norm_host<T: Copy, U, N: Fn(&[T]) -> T, S: Fn(T, T, T) -> U>(
    input: &[T],
    weight: &[T],
    out: &mut [U],
    inv_rms: &N,
    scale: &S,
)
    requires
        normalizes_all(*inv_rms, *scale, input@.len()),
    ensures
        normalized_into(*inv_rms, *scale, input@, weight@, old(out)@, final(out)@),
{
    let factor: T = inv_rms(input);
    let ghost total: usize = out.len();
    let mut i: usize = 0;
    while i < out.len() && i < input.len() && i < weight.len()
        invariant
            total == old(out)@.len(),
            out@.len() == total,
            i <= total,
            i <= input@.len(),
            i <= weight@.len(),
            normalizes_all(*inv_rms, *scale, input@.len()),
            forall|j: int|
                0 <= j < i ==> call_ensures(
                    *scale,
                    (input@[j], factor, weight@[j]),
                    #[trigger] out@[j],
                ),
            forall|j: int| i <= j < total ==> #[trigger] out@[j] == old(out)@[j],
        decreases total - i,
    {
        let entry: U = scale(input[i], factor, weight[i]);
        out[i] = entry;
        i += 1;
    }
}

/// The compressed key-value state of token `t`.
pub open spec fn compressed_part<T>(config: &Config, kv_a: Seq<T>, t: int) -> Seq<T> {
    kv_a.subrange(t * config.kv_a_dim(), t * config.kv_a_dim() + config.kv_lora_rank)
}

/// `rows` holds the normalised compressed state of each of the first `n`
/// tokens.
pub open spec fn normalized_rows<T, U, N: Fn(&[T]) -> T, S: Fn(T, T, T) -> U>(
    config: &Config,
    inv_rms: N,
    scale: S,
    zero: U,
    kv_a: Seq<T>,
    weight: Seq<T>,
    n: int,
    rows: Seq<Seq<U>>,
) -> bool {
    &&& rows.len() == n
    &&& forall|t: int|
        0 <= t < n ==> (#[trigger] rows[t]).len() == config.kv_lora_rank && normalized(
            inv_rms,
            scale,
            zero,
            compressed_part(config, kv_a, t),
            weight,
            rows[t],
        )
}

/// Normalises the compressed key-value state of each of `seq_len` tokens and
/// lays the results end to end.
pub fn normalize_compressed_kv<T: Copy, U: Copy, N: Fn(&[T]) -> T, S: Fn(T, T, T) -> U>(
    config: &Config,
    kv_a_host: &[T],
    norm_weight: &[T],
    seq_len: usize,
    zero: U,
    inv_rms: N,
    scale: S,
) -> (out: Vec<U>)
    requires
        config.kv_a_dim() <= usize::MAX,
        seq_len > 0 ==> (seq_len - 1) * config.kv_a_dim() + config.kv_lora_rank
            <= kv_a_host@.len(),
        normalizes_all(inv_rms, scale, config.kv_lora_rank as nat),
    ensures
        out@.len() == seq_len * config.kv_lora_rank,
        exists|rows: Seq<Seq<U>>|
            {
                &&& #[trigger] normalized_rows(
                    config,
                    inv_rms,
                    scale,
                    zero,
                    kv_a_host@,
                    norm_weight@,
                    seq_len as int,
                    rows,
                )
                &&& out@ == joined(seq_len as nat, listed(rows))
            },
{
    let kv_a_dim: usize = config.kv_a_proj_rows();
    let ghost kv_a_len: usize = kv_a_host.len();
    let rank: usize = config.kv_lora_rank;
    let mut out: Vec<U> = Vec::new();
    let ghost mut rows: Seq<Seq<U>> = Seq::empty();
    let mut token: usize = 0;
    while token < seq_len
        invariant
            kv_a_dim == config.kv_a_dim(),
            rank == config.kv_lora_rank,
            kv_a_len == kv_a_host@.len(),
            seq_len > 0 ==> (seq_len - 1) * kv_a_dim + rank <= kv_a_len,
            normalizes_all(inv_rms, scale, config.kv_lora_rank as nat),
            token <= seq_len,
            normalized_rows(
                config,
                inv_rms,
                scale,
                zero,
                kv_a_host@,
                norm_weight@,
                token as int,
                rows,
            ),
            out@ == joined(token as nat, listed(rows)),
        decreases seq_len - token,
    {
        assert(0 <= token * kv_a_dim <= (seq_len - 1) * kv_a_dim) by (nonlinear_arith)
            requires
                0 <= token <= seq_len - 1,
                0 <= kv_a_dim,
        ;
        let base: usize = token * kv_a_dim;
        let input: &[T] = &kv_a_host[base..base + rank];
        let mut row: Vec<U> = filled(zero, rank);
        rms_norm_host(input, norm_weight, row.as_mut_slice(), &inv_rms, &scale);
        assert(normalized(inv_rms, scale, zero, input@, norm_weight@, row@));
        push_all(&mut out, row.as_slice());
        let ghost before = rows;
        proof {
            rows = rows.push(row@);
            assert(input@ == compressed_part(config, kv_a_host@, token as int));
            lemma_joined_same(token as nat, listed(before), listed(rows));
        }
        token += 1;
    }
    proof {
        lemma_joined_len(seq_len as nat, rank as nat, listed(rows));
    }
    out
}

/// A cache that holds `n` tokens counts `n` tokens, where keys have entries.
pub proof fn law_cache_counts_tokens<T>(config: &Config, cache: CacheView<T>, n: nat)
    requires
        cache.holds(config, n),
        config.heads() * config.q_dim() > 0,
    ensures
        cache.tokens(config) == n,
{
    vstd::arithmetic::div_mod::lemma_div_multiples_vanish(
        n as int,
        (config.heads() * config.q_dim()) as int,
    );
    assert(n * (config.heads() * config.q_dim()) == (config.heads() * config.q_dim()) * n)
        by (nonlinear_arith);
}

/// Adding the heads of `seq_len` tokens to a cache of `n` tokens gives a cache
/// of `n + seq_len` tokens that starts with what was there.
pub proof fn law_append_extends_cache<T>(
    config: &Config,
    cache: CacheView<T>,
    kv_b: Seq<T>,
    k_pe: Seq<Seq<T>>,
    n: nat,
    seq_len: nat,
)
    requires
        cache.holds(config, n),
        k_pe.len() == seq_len,
        forall|t: int| 0 <= t < seq_len ==> (#[trigger] k_pe[t]).len() == config.qk_rope_head_dim,
        seq_len * config.heads() * config.kv_dim() <= kv_b.len(),
    ensures
        cache.appended(config, kv_b, k_pe, seq_len * config.heads()).holds(config, n + seq_len),
        cache.appended(config, kv_b, k_pe, seq_len * config.heads()).keys.take(
            cache.keys.len() as int,
        ) == cache.keys,
        cache.appended(config, kv_b, k_pe, seq_len * config.heads()).values.take(
            cache.values.len() as int,
        ) == cache.values,
{
    let rows = seq_len * config.heads();
    let after = cache.appended(config, kv_b, k_pe, rows);
    let keys = key_rows(config, kv_b, k_pe);
    let values = value_rows(config, kv_b);
    assert forall|i: int| 0 <= i < rows implies (#[trigger] keys(i)).len() == config.q_dim() by {
        lemma_row_bounds(rows as int, config.kv_dim() as int, i);
        lemma_token_of_row(i, seq_len as int, config.heads() as int);
    }
    assert forall|i: int| 0 <= i < rows implies (#[trigger] values(i)).len()
        == config.v_head_dim by {
        lemma_row_bounds(rows as int, config.kv_dim() as int, i);
    }
    lemma_joined_len(rows, config.q_dim(), keys);
    lemma_joined_len(rows, config.v_head_dim as nat, values);
    lemma_token_widths(n, seq_len, config.heads(), config.q_dim());
    lemma_token_widths(n, seq_len, config.heads(), config.v_head_dim as nat);
    assert(after.keys.take(cache.keys.len() as int) =~= cache.keys);
    assert(after.values.take(cache.values.len() as int) =~= cache.values);
}

/// Row `i` of `n` tokens belongs to one of them.
pub(crate) proof fn lemma_token_of_row(i: int, n: int, heads: int)
    requires
        0 <= i < n * heads,
        0 <= heads,
        0 <= n,
    ensures
        heads > 0,
        0 <= i / heads < n,
{
    assert(heads > 0) by (nonlinear_arith)
        requires
            0 <= i < n * heads,
            0 <= heads,
    ;
    assert(0 <= i / heads && i / heads < n) by (nonlinear_arith)
        requires
            0 <= i < n * heads,
            heads > 0,
    ;
}

/// Heads of two stretches of tokens are heads of all of them.
proof fn lemma_token_widths(n: nat, m: nat, heads: nat, width: nat)
    ensures
        n * (heads * width) + m * heads * width == (n + m) * (heads * width),
{
    assert(n * (heads * width) + m * heads * width == (n + m) * (heads * width))
        by (nonlinear_arith);
}

/// Adding the heads of some tokens and then those of more tokens leaves the
/// cache as adding all of them at once would.
pub proof fn law_append_in_two_steps<T>(
    config: &Config,
    cache: CacheView<T>,
    kv_b_first: Seq<T>,
    kv_b_rest: Seq<T>,
    k_pe_first: Seq<Seq<T>>,
    k_pe_rest: Seq<Seq<T>>,
)
    requires
        kv_b_first.len() == k_pe_first.len() * config.heads() * config.kv_dim(),
        kv_b_rest.len() == k_pe_rest.len() * config.heads() * config.kv_dim(),
    ensures
        cache.appended(
            config,
            kv_b_first + kv_b_rest,
            k_pe_first + k_pe_rest,
            (k_pe_first.len() + k_pe_rest.len()) * config.heads(),
        ) == cache.appended(
            config,
            kv_b_first,
            k_pe_first,
            k_pe_first.len() * config.heads(),
        ).appended(config, kv_b_rest, k_pe_rest, k_pe_rest.len() * config.heads()),
{
    let heads = config.heads();
    let d = config.kv_dim();
    let a = k_pe_first.len() * heads;
    let b = k_pe_rest.len() * heads;
    let kv_b = kv_b_first + kv_b_rest;
    let k_pe = k_pe_first + k_pe_rest;
    assert((k_pe_first.len() + k_pe_rest.len()) * heads == a + b) by (nonlinear_arith)
        requires
            a == k_pe_first.len() * heads,
            b == k_pe_rest.len() * heads,
    ;
    assert forall|i: int| 0 <= i < a implies #[trigger] key_rows(config, kv_b, k_pe)(i) == key_rows(
        config,
        kv_b_first,
        k_pe_first,
    )(i) && value_rows(config, kv_b)(i) == value_rows(config, kv_b_first)(i) by {
        lemma_row_bounds(a as int, d as int, i);
        lemma_token_of_row(i, k_pe_first.len() as int, heads as int);
        assert(key_row(config, kv_b, k_pe, i) =~= key_row(config, kv_b_first, k_pe_first, i));
        assert(value_row(config, kv_b, i) =~= value_row(config, kv_b_first, i));
    }
    assert forall|i: int| 0 <= i < b implies #[trigger] key_rows(config, kv_b, k_pe)(a + i)
        == key_rows(config, kv_b_rest, k_pe_rest)(i) && value_rows(config, kv_b)(a + i)
        == value_rows(config, kv_b_rest)(i) by {
        lemma_row_bounds(b as int, d as int, i);
        lemma_token_of_row(i, k_pe_rest.len() as int, heads as int);
        assert((a + i) * d == a * d + i * d) by (nonlinear_arith);
        assert((a + i) / heads as int == k_pe_first.len() + i / heads as int) by {
            vstd::arithmetic::div_mod::lemma_hoist_over_denominator(
                i,
                k_pe_first.len() as int,
                heads,
            );
            assert(k_pe_first.len() * heads == a);
        }
        assert(key_row(config, kv_b, k_pe, a + i) =~= key_row(config, kv_b_rest, k_pe_rest, i));
        assert(value_row(config, kv_b, a + i) =~= value_row(config, kv_b_rest, i));
    }
    assert forall|i: int| 0 <= i < a implies #[trigger] value_rows(config, kv_b)(i) == value_rows(
        config,
        kv_b_first,
    )(i) by {
        assert(key_rows(config, kv_b, k_pe)(i) == key_rows(config, kv_b_first, k_pe_first)(i));
    }
    assert forall|i: int| 0 <= i < b implies #[trigger] value_rows(config, kv_b)(a + i)
        == value_rows(config, kv_b_rest)(i) by {
        assert(key_rows(config, kv_b, k_pe)(a + i) == key_rows(config, kv_b_rest, k_pe_rest)(i));
    }
    lemma_joined_split(
        a,
        b,
        key_rows(config, kv_b_first, k_pe_first),
        key_rows(config, kv_b_rest, k_pe_rest),
        key_rows(config, kv_b, k_pe),
    );
    lemma_joined_split(
        a,
        b,
        value_rows(config, kv_b_first),
        value_rows(config, kv_b_rest),
        value_rows(config, kv_b),
    );
    assert(cache.appended(config, kv_b, k_pe, a + b) =~= cache.appended(
        config,
        kv_b_first,
        k_pe_first,
        a,
    ).appended(config, kv_b_rest, k_pe_rest, b));
}

/// Tokens that are rotated in two stretches, the second one starting where the
/// first one ends, are rotated as in one stretch.
pub proof fn law_rotate_in_two_steps<T, R: Fn(T, T, usize, usize) -> (T, T)>(
    config: &Config,
    rotate: R,
    zero: T,
    kv_a_first: Seq<T>,
    kv_a_rest: Seq<T>,
    start_pos: int,
    k_pe_first: Seq<Seq<T>>,
    k_pe_rest: Seq<Seq<T>>,
)
    requires
        kv_a_first.len() == k_pe_first.len() * config.kv_a_dim(),
        kv_a_rest.len() == k_pe_rest.len() * config.kv_a_dim(),
        rotated_keys(
            config,
            rotate,
            zero,
            kv_a_first,
            start_pos,
            k_pe_first.len() as int,
            k_pe_first,
        ),
        rotated_keys(
            config,
            rotate,
            zero,
            kv_a_rest,
            start_pos + k_pe_first.len(),
            k_pe_rest.len() as int,
            k_pe_rest,
        ),
    ensures
        rotated_keys(
            config,
            rotate,
            zero,
            kv_a_first + kv_a_rest,
            start_pos,
            (k_pe_first.len() + k_pe_rest.len()) as int,
            k_pe_first + k_pe_rest,
        ),
{
    let d = config.kv_a_dim();
    let a = k_pe_first.len() as int;
    let b = k_pe_rest.len() as int;
    let kv_a = kv_a_first + kv_a_rest;
    let k_pe = k_pe_first + k_pe_rest;
    assert forall|t: int| 0 <= t < a + b implies (#[trigger] k_pe[t]).len()
        == config.qk_rope_head_dim && rotated(
        rotate,
        zero,
        raw_key_part(config, kv_a, t),
        start_pos + t,
        k_pe[t],
    ) by {
        if t < a {
            lemma_row_bounds(a, d as int, t);
            assert(k_pe[t] == k_pe_first[t]);
            assert(raw_key_part(config, kv_a, t) =~= raw_key_part(config, kv_a_first, t));
        } else {
            let u = t - a;
            lemma_row_bounds(b, d as int, u);
            assert(t * d == a * d + u * d) by (nonlinear_arith)
                requires
                    t == a + u,
            ;
            assert((t + 1) * d == a * d + (u + 1) * d) by (nonlinear_arith)
                requires
                    t == a + u,
            ;
            assert(k_pe[t] == k_pe_rest[u]);
            assert(raw_key_part(config, kv_a, t) =~= raw_key_part(config, kv_a_rest, u));
        }
    }
}

/// Row `i` behind the rows of `n` tokens belongs to the token that many places
/// later, and is the same head.
pub(crate) proof fn lemma_shifted_row(i: int, n: int, heads: int)
    requires
        0 <= i,
        0 <= n,
        heads > 0,
    ensures
        (n * heads + i) / heads == n + i / heads,
        (n * heads + i) % heads == i % heads,
{
    vstd::arithmetic::div_mod::lemma_hoist_over_denominator(i, n, heads as nat);
    vstd::arithmetic::div_mod::lemma_mod_multiples_vanish(n, i, heads);
    assert(n * heads == heads * n) by (nonlinear_arith);
}

/// Query heads of tokens that are rotated in two stretches, the second one
/// starting where the first one ends, are rotated as in one stretch.
pub proof fn law_rotate_queries_in_two_steps<T, R: Fn(T, T, usize, usize) -> (T, T)>(
    config: &Config,
    rotate: R,
    zero: T,
    q_first: Seq<T>,
    q_rest: Seq<T>,
    start_pos: int,
    len_first: nat,
    len_rest: nat,
    q_pe_first: Seq<Seq<T>>,
    q_pe_rest: Seq<Seq<T>>,
)
    requires
        q_first.len() == len_first * config.heads() * config.q_dim(),
        q_rest.len() == len_rest * config.heads() * config.q_dim(),
        rotated_queries(
            config,
            rotate,
            zero,
            q_first,
            start_pos,
            (len_first * config.heads()) as int,
            q_pe_first,
        ),
        rotated_queries(
            config,
            rotate,
            zero,
            q_rest,
            start_pos + len_first,
            (len_rest * config.heads()) as int,
            q_pe_rest,
        ),
    ensures
        rotated_queries(
            config,
            rotate,
            zero,
            q_first + q_rest,
            start_pos,
            ((len_first + len_rest) * config.heads()) as int,
            q_pe_first + q_pe_rest,
        ),
{
    let d = config.q_dim();
    let heads = config.heads();
    let a = (len_first * heads) as int;
    let b = (len_rest * heads) as int;
    let q = q_first + q_rest;
    let q_pe = q_pe_first + q_pe_rest;
    assert((len_first + len_rest) * heads == a + b) by (nonlinear_arith)
        requires
            a == len_first * heads,
            b == len_rest * heads,
    ;
    assert forall|i: int| 0 <= i < a + b implies (#[trigger] q_pe[i]).len()
        == config.qk_rope_head_dim && rotated(
        rotate,
        zero,
        raw_query_part(config, q, i),
        start_pos + i / heads as int,
        q_pe[i],
    ) by {
        if i < a {
            lemma_row_bounds(a, d as int, i);
            assert(q_pe[i] == q_pe_first[i]);
            assert(raw_query_part(config, q, i) =~= raw_query_part(config, q_first, i));
        } else {
            let u = i - a;
            lemma_row_bounds(b, d as int, u);
            lemma_token_of_row(u, len_rest as int, heads as int);
            lemma_shifted_row(u, len_first as int, heads as int);
            assert(i * d == a * d + u * d) by (nonlinear_arith)
                requires
                    i == a + u,
            ;
            assert((i + 1) * d == a * d + (u + 1) * d) by (nonlinear_arith)
                requires
                    i == a + u,
            ;
            assert(q_pe[i] == q_pe_rest[u]);
            assert(raw_query_part(config, q, i) =~= raw_query_part(config, q_rest, u));
        }
    }
}

} // verus!
