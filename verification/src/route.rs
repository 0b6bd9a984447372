//! Which experts each token visits, and in which order the visits are made.
use vstd::prelude::*;

#[allow(unused_imports)]
use crate::attention::softmax_of;
use crate::config::Config;
use crate::ep::ExpertParallelLayout;
#[allow(unused_imports)]
use crate::error::ModelError;
#[allow(unused_imports)]
use crate::rows::{lemma_row_bounds, row_of};

verus! {

/// Expert `a` comes before expert `b`: it ranks higher, or ranks equal and has
/// the smaller number.
pub open spec fn ahead(ranks: Seq<u32>, a: int, b: int) -> bool {
    ranks[a] > ranks[b] || (ranks[a] == ranks[b] && a < b)
}

/// `chosen` lists the first `k` experts, best first; all of them where there
/// are fewer.
pub open spec fn is_topk(ranks: Seq<u32>, k: nat, chosen: Seq<usize>) -> bool {
    &&& chosen.len() == if k <= ranks.len() {
        k
    } else {
        ranks.len()
    }
    &&& forall|i: int| 0 <= i < chosen.len() ==> (#[trigger] chosen[i]) < ranks.len()
    &&& forall|i: int, j: int|
        0 <= i < j < chosen.len() ==> ahead(
            ranks,
            #[trigger] chosen[i] as int,
            #[trigger] chosen[j] as int,
        )
    &&& forall|i: int, e: usize|
        0 <= i < chosen.len() && e < ranks.len() && !#[trigger] chosen.contains(e) ==> ahead(
            ranks,
            #[trigger] chosen[i] as int,
            e as int,
        )
}

/// The expert numbers of a list of routes.
pub open spec fn visited<W>(routes: Seq<(usize, W)>) -> Seq<usize> {
    routes.map_values(|route: (usize, W)| route.0)
}

/// `routes` are the routes of a token whose experts have these ranks and
/// weights.
pub open spec fn is_routing<W>(
    ranks: Seq<u32>,
    weights: Seq<W>,
    k: nat,
    routes: Seq<(usize, W)>,
) -> bool {
    &&& is_topk(ranks, k, visited(routes))
    &&& forall|i: int|
        0 <= i < routes.len() ==> (#[trigger] routes[i]).1 == weights[routes[i].0 as int]
}

/// The best expert that is not taken yet.
fn best_left(ranks: &[u32], taken: &Vec<bool>) -> (best: usize)
    requires
        taken@.len() == ranks@.len(),
        exists|e: int| 0 <= e < taken@.len() && !#[trigger] taken@[e],
    ensures
        best < ranks@.len(),
        !taken@[best as int],
        forall|e: int|
            0 <= e < ranks@.len() && e != best && !#[trigger] taken@[e] ==> ahead(
                ranks@,
                best as int,
                e,
            ),
{
    let mut best: usize = 0;
    let mut found: bool = false;
    let mut e: usize = 0;
    while e < ranks.len()
        invariant
            taken@.len() == ranks@.len(),
            e <= ranks@.len(),
            found ==> best < e && !taken@[best as int],
            !found ==> forall|x: int| 0 <= x < e ==> #[trigger] taken@[x],
            found ==> forall|x: int|
                0 <= x < e && x != best && !#[trigger] taken@[x] ==> ahead(ranks@, best as int, x),
        decreases ranks@.len() - e,
    {
        if !taken[e] && (!found || ranks[e] > ranks[best]) {
            best = e;
            found = true;
        }
        e += 1;
    }
    assert(found) by {
        let x = choose|x: int| 0 <= x < taken@.len() && !#[trigger] taken@[x];
        assert(!taken@[x]);
    }
    best
}

/// The routes of one token, whose experts have these ranks and weights: the `k`
/// experts that rank highest, best first; of experts with equal ranks the one
/// with the smaller number comes first.
pub fn topk_routes<W: Copy>(ranks: &[u32], weights: &[W], k: usize) -> (routes: Vec<(usize, W)>)
    requires
        ranks@.len() == weights@.len(),
    ensures
        is_routing(ranks@, weights@, k as nat, routes@),
{
    let n: usize = ranks.len();
    let want: usize = if k <= n {
        k
    } else {
        n
    };
    let mut taken: Vec<bool> = Vec::new();
    let mut e: usize = 0;
    while e < n
        invariant
            e <= n,
            taken@.len() == e,
            forall|x: int| 0 <= x < e ==> !#[trigger] taken@[x],
        decreases n - e,
    {
        taken.push(false);
        e += 1;
    }
    let mut routes: Vec<(usize, W)> = Vec::new();
    let ghost mut chosen: Seq<usize> = Seq::empty();
    while routes.len() < want
        invariant
            n == ranks@.len(),
            n == weights@.len(),
            n == taken@.len(),
            want <= n,
            routes@.len() <= want,
            chosen.len() == routes@.len(),
            forall|i: int| 0 <= i < chosen.len() ==> #[trigger] chosen[i] == routes@[i].0,
            forall|i: int| 0 <= i < chosen.len() ==> (#[trigger] chosen[i]) < n,
            forall|i: int|
                0 <= i < routes@.len() ==> (#[trigger] routes@[i]).1
                    == weights@[routes@[i].0 as int],
            forall|e: usize| e < n ==> (#[trigger] taken@[e as int] <==> chosen.contains(e)),
            forall|i: int, j: int|
                0 <= i < j < chosen.len() ==> ahead(
                    ranks@,
                    #[trigger] chosen[i] as int,
                    #[trigger] chosen[j] as int,
                ),
            forall|i: int, e: usize|
                0 <= i < chosen.len() && e < n && !#[trigger] taken@[e as int] ==> ahead(
                    ranks@,
                    #[trigger] chosen[i] as int,
                    e as int,
                ),
        decreases want - routes@.len(),
    {
        proof {
            lemma_some_left(taken@, chosen);
        }
        let best: usize = best_left(ranks, &taken);
        let ghost before = chosen;
        let ghost taken_before = taken@;
        routes.push((best, weights[best]));
        taken[best] = true;
        proof {
            chosen = chosen.push(best);
            assert forall|e: usize| e < n implies (#[trigger] taken@[e as int] <==> chosen.contains(
                e,
            )) by {
                if e == best {
                    assert(chosen[chosen.len() - 1] == best);
                } else {
                    assert(taken@[e as int] == taken_before[e as int]);
                    if before.contains(e) {
                        let i = choose|i: int| 0 <= i < before.len() && before[i] == e;
                        assert(chosen[i] == e);
                    }
                    if chosen.contains(e) {
                        let i = choose|i: int| 0 <= i < chosen.len() && chosen[i] == e;
                        assert(before[i] == e);
                    }
                }
            }
            assert forall|i: int, e: usize|
                0 <= i < chosen.len() && e < n && !#[trigger] taken@[e as int] implies ahead(
                ranks@,
                #[trigger] chosen[i] as int,
                e as int,
            ) by {
                assert(!taken_before[e as int]);
                if i < before.len() {
                    assert(chosen[i] == before[i]);
                }
            }
            assert forall|i: int, j: int| 0 <= i < j < chosen.len() implies ahead(
                ranks@,
                #[trigger] chosen[i] as int,
                #[trigger] chosen[j] as int,
            ) by {
                if j == before.len() {
                    assert(!taken_before[best as int]);
                    assert(chosen[i] == before[i]);
                } else {
                    assert(chosen[i] == before[i]);
                    assert(chosen[j] == before[j]);
                }
            }
        }
    }
    proof {
        assert(visited(routes@) =~= chosen);
        assert forall|i: int, e: usize|
            0 <= i < chosen.len() && e < n && !#[trigger] chosen.contains(e) implies ahead(
            ranks@,
            #[trigger] chosen[i] as int,
            e as int,
        ) by {
            assert(!taken@[e as int]);
        }
    }
    routes
}

/// While fewer experts are chosen than there are, one is left.
proof fn lemma_some_left(taken: Seq<bool>, chosen: Seq<usize>)
    requires
        chosen.len() < taken.len() <= usize::MAX,
        forall|e: usize| e < taken.len() && #[trigger] taken[e as int] ==> chosen.contains(e),
    ensures
        exists|e: int| 0 <= e < taken.len() && !#[trigger] taken[e],
    decreases taken.len(),
{
    let last = taken.len() - 1;
    if taken[last] {
        assert(taken[(last as usize) as int]);
        assert(chosen.contains(last as usize));
        let i = choose|i: int| 0 <= i < chosen.len() && chosen[i] == last as usize;
        let rest = chosen.remove(i);
        assert forall|e: usize|
            e < taken.drop_last().len() && #[trigger] taken.drop_last()[e as int] implies rest.contains(
        e) by {
            assert(taken[e as int]);
            let j = choose|j: int| 0 <= j < chosen.len() && chosen[j] == e;
            if j < i {
                assert(rest[j] == e);
            } else {
                assert(rest[j - 1] == e);
            }
        }
        if chosen.len() == 0 {
            assert(false);
        }
        lemma_some_left(taken.drop_last(), rest);
        let e = choose|e: int| 0 <= e < taken.drop_last().len() && !#[trigger] taken.drop_last()[e];
        assert(!taken[e]);
    }
}

/// `ranks` is what ranking each share can give.
pub open spec fn ranks_of<W, K: Fn(W) -> u32>(rank: K, shares: Seq<W>, ranks: Seq<u32>) -> bool {
    &&& ranks.len() == shares.len()
    &&& forall|i: int|
        0 <= i < shares.len() ==> call_ensures(rank, (shares[i],), #[trigger] ranks[i])
}

/// `routes` are routes that a token with these router logits can have: its
/// shares and their ranks come from the logits, and the routes from both.
pub open spec fn is_token_routing<L, W, P: Fn(&[L]) -> Vec<W>, K: Fn(W) -> u32>(
    softmax: P,
    rank: K,
    logits: Seq<L>,
    k: nat,
    routes: Seq<(usize, W)>,
) -> bool {
    exists|shares: Seq<W>, ranks: Seq<u32>|
        {
            &&& #[trigger] softmax_of(softmax, logits, shares)
            &&& shares.len() == logits.len()
            &&& #[trigger] ranks_of(rank, shares, ranks)
            &&& is_routing(ranks, shares, k, routes)
        }
}

/// `routes` are routes that the tokens of a layer with these router logits can
/// have, one row of logits and one list of routes per token.
pub open spec fn is_layer_routing<L, W, P: Fn(&[L]) -> Vec<W>, K: Fn(W) -> u32>(
    config: &Config,
    softmax: P,
    rank: K,
    logits: Seq<L>,
    routes: Seq<Vec<(usize, W)>>,
) -> bool {
    forall|t: int|
        0 <= t < routes.len() ==> is_token_routing(
            softmax,
            rank,
            row_of(logits, config.n_routed_experts as nat, t),
            config.num_experts_per_token as nat,
            #[trigger] routes[t]@,
        )
}

/// The routes of `seq_len` tokens.
///
/// `logits` is the router's output, one row per token and one entry per expert.
/// A token visits the experts with the largest softmax shares, largest first;
/// of equal shares the one of the expert with the smaller number comes first.
/// `rank` orders the shares: larger where the share is larger.
pub fn topk_softmax_routes<L, W: Copy, P: Fn(&[L]) -> Vec<W>, K: Fn(W) -> u32>(
    config: &Config,
    logits: &[L],
    seq_len: usize,
    softmax: P,
    rank: K,
) -> (routes: Vec<Vec<(usize, W)>>)
    requires
        seq_len * config.n_routed_experts <= logits@.len(),
        forall|x: &[L]|
            x@.len() == config.n_routed_experts ==> #[trigger] call_requires(softmax, (x,)),
        forall|x: &[L], v: Vec<W>|
            x@.len() == config.n_routed_experts && #[trigger] call_ensures(softmax, (x,), v)
                ==> v@.len() == x@.len(),
        forall|w: W| #[trigger] call_requires(rank, (w,)),
    ensures
        routes@.len() == seq_len,
        is_layer_routing(config, softmax, rank, logits@, routes@),
{
    let n: usize = config.n_routed_experts;
    let ghost logits_len: usize = logits.len();
    let mut routes: Vec<Vec<(usize, W)>> = Vec::new();
    let mut token: usize = 0;
    while token < seq_len
        invariant
            n == config.n_routed_experts,
            logits_len == logits@.len(),
            seq_len * n <= logits_len,
            forall|x: &[L]| x@.len() == n ==> #[trigger] call_requires(softmax, (x,)),
            forall|x: &[L], v: Vec<W>|
                x@.len() == n && #[trigger] call_ensures(softmax, (x,), v) ==> v@.len()
                    == x@.len(),
            forall|w: W| #[trigger] call_requires(rank, (w,)),
            token <= seq_len,
            routes@.len() == token,
            is_layer_routing(config, softmax, rank, logits@, routes@),
        decreases seq_len - token,
    {
        proof {
            lemma_row_bounds(seq_len as int, n as int, token as int);
        }
        let base: usize = token * n;
        let row: &[L] = &logits[base..base + n];
        let shares: Vec<W> = softmax(row);
        let mut ranks: Vec<u32> = Vec::new();
        while ranks.len() < shares.len()
            invariant
                ranks@.len() <= shares@.len(),
                forall|w: W| #[trigger] call_requires(rank, (w,)),
                forall|i: int|
                    0 <= i < ranks@.len() ==> call_ensures(
                        rank,
                        (shares@[i],),
                        #[trigger] ranks@[i],
                    ),
            decreases shares@.len() - ranks@.len(),
        {
            ranks.push(rank(shares[ranks.len()]));
        }
        assert(softmax_of(softmax, row@, shares@));
        assert(ranks_of(rank, shares@, ranks@));
        routes.push(
            topk_routes(ranks.as_slice(), shares.as_slice(), config.num_experts_per_token),
        );
        token += 1;
    }
    routes
}

/// The ranks alone decide which experts a token visits, and in which order.
pub proof fn law_topk_is_unique(ranks: Seq<u32>, k: nat, left: Seq<usize>, right: Seq<usize>)
    requires
        is_topk(ranks, k, left),
        is_topk(ranks, k, right),
    ensures
        left == right,
{
    assert forall|j: int| 0 <= j < left.len() implies left[j] == right[j] by {
        lemma_topk_same(ranks, k, left, right, j);
    }
    assert(left =~= right);
}

/// Where it ranks the given shares, `rank` follows the order `larger`: a share
/// ranks higher exactly where it is larger.
pub open spec fn rank_follows<W, K: Fn(W) -> u32>(
    rank: K,
    larger: spec_fn(W, W) -> bool,
    shares: Seq<W>,
) -> bool {
    forall|i: int, j: int, x: u32, y: u32|
        0 <= i < shares.len() && 0 <= j < shares.len() && #[trigger] call_ensures(
            rank,
            (shares[i],),
            x,
        ) && #[trigger] call_ensures(rank, (shares[j],), y) ==> (larger(shares[i], shares[j])
            <==> x > y)
}

/// A route comes before expert `e` with share `share`: the route's share is
/// larger, or neither is larger and the route's expert has the smaller number.
pub open spec fn preferred<W>(
    larger: spec_fn(W, W) -> bool,
    route: (usize, W),
    e: int,
    share: W,
) -> bool {
    larger(route.1, share) || (!larger(share, route.1) && route.0 < e)
}

/// `routes` go to the experts with the largest shares, largest first, and of
/// equal shares the one of the expert with the smaller number comes first.
pub open spec fn by_share<W>(
    larger: spec_fn(W, W) -> bool,
    shares: Seq<W>,
    k: nat,
    routes: Seq<(usize, W)>,
) -> bool {
    &&& routes.len() == if k <= shares.len() {
        k
    } else {
        shares.len()
    }
    &&& forall|i: int|
        0 <= i < routes.len() ==> (#[trigger] routes[i]).0 < shares.len() && routes[i].1
            == shares[routes[i].0 as int]
    &&& forall|i: int, j: int|
        0 <= i < j < routes.len() ==> preferred(
            larger,
            #[trigger] routes[i],
            (#[trigger] routes[j]).0 as int,
            routes[j].1,
        )
    &&& forall|i: int, e: usize|
        0 <= i < routes.len() && e < shares.len() && !#[trigger] visited(routes).contains(e)
            ==> preferred(larger, #[trigger] routes[i], e as int, shares[e as int])
}

/// Where `rank` follows an order of the shares, the routes are those of the
/// largest shares, in descending order.
pub proof fn law_routes_descend_by_share<W, K: Fn(W) -> u32>(
    rank: K,
    larger: spec_fn(W, W) -> bool,
    shares: Seq<W>,
    ranks: Seq<u32>,
    k: nat,
    routes: Seq<(usize, W)>,
)
    requires
        ranks_of(rank, shares, ranks),
        rank_follows(rank, larger, shares),
        is_routing(ranks, shares, k, routes),
    ensures
        by_share(larger, shares, k, routes),
{
    let chosen = visited(routes);
    assert forall|a: int, b: int| 0 <= a < shares.len() && 0 <= b < shares.len() implies larger(
        #[trigger] shares[a],
        #[trigger] shares[b],
    ) == (ranks[a] > ranks[b]) by {
        assert(call_ensures(rank, (shares[a],), ranks[a]));
        assert(call_ensures(rank, (shares[b],), ranks[b]));
    }
    assert forall|i: int| 0 <= i < routes.len() implies (#[trigger] routes[i]).0 < shares.len()
        && routes[i].1 == shares[routes[i].0 as int] by {
        assert(chosen[i] == routes[i].0);
    }
    assert forall|i: int, j: int| 0 <= i < j < routes.len() implies preferred(
        larger,
        #[trigger] routes[i],
        (#[trigger] routes[j]).0 as int,
        routes[j].1,
    ) by {
        assert(chosen[i] == routes[i].0 && chosen[j] == routes[j].0);
        assert(ahead(ranks, chosen[i] as int, chosen[j] as int));
    }
    assert forall|i: int, e: usize|
        0 <= i < routes.len() && e < shares.len() && !#[trigger] visited(routes).contains(
            e,
        ) implies preferred(larger, #[trigger] routes[i], e as int, shares[e as int]) by {
        assert(chosen[i] == routes[i].0);
        assert(ahead(ranks, chosen[i] as int, e as int));
    }
}

/// Every token of a layer is routed to the experts with its largest softmax
/// shares, wherever `rank` follows the order of the shares.
pub proof fn law_tokens_go_to_the_largest_shares<
    L,
    W,
    P: Fn(&[L]) -> Vec<W>,
    K: Fn(W) -> u32,
>(
    config: &Config,
    softmax: P,
    rank: K,
    larger: spec_fn(W, W) -> bool,
    logits: Seq<L>,
    routes: Seq<Vec<(usize, W)>>,
    t: int,
)
    requires
        is_layer_routing(config, softmax, rank, logits, routes),
        0 <= t < routes.len(),
        forall|shares: Seq<W>|
            #[trigger] softmax_of(
                softmax,
                row_of(logits, config.n_routed_experts as nat, t),
                shares,
            ) ==> rank_follows(rank, larger, shares),
    ensures
        exists|shares: Seq<W>|
            {
                &&& #[trigger] softmax_of(
                    softmax,
                    row_of(logits, config.n_routed_experts as nat, t),
                    shares,
                )
                &&& by_share(larger, shares, config.num_experts_per_token as nat, routes[t]@)
            },
{
    let row = row_of(logits, config.n_routed_experts as nat, t);
    let k = config.num_experts_per_token as nat;
    assert(is_token_routing(softmax, rank, row, k, routes[t]@));
    let (shares, ranks) = choose|shares: Seq<W>, ranks: Seq<u32>|
        {
            &&& #[trigger] softmax_of(softmax, row, shares)
            &&& shares.len() == row.len()
            &&& #[trigger] ranks_of(rank, shares, ranks)
            &&& is_routing(ranks, shares, k, routes[t]@)
        };
    law_routes_descend_by_share(rank, larger, shares, ranks, k, routes[t]@);
}

proof fn lemma_topk_same(ranks: Seq<u32>, k: nat, left: Seq<usize>, right: Seq<usize>, j: int)
    requires
        is_topk(ranks, k, left),
        is_topk(ranks, k, right),
        0 <= j < left.len(),
    ensures
        left[j] == right[j],
    decreases j,
{
    assert forall|i: int| 0 <= i < j implies left[i] == right[i] by {
        lemma_topk_same(ranks, k, left, right, i);
    }
    let a = left[j];
    let b = right[j];
    if a != b {
        lemma_not_ahead(ranks, k, right, left, j);
        lemma_not_ahead(ranks, k, left, right, j);
    }
}

/// Where two choices agree up to place `j`, the right one's expert there is not
/// ahead of the left one's.
proof fn lemma_not_ahead(
    ranks: Seq<u32>,
    k: nat,
    left: Seq<usize>,
    right: Seq<usize>,
    j: int,
)
    requires
        is_topk(ranks, k, left),
        is_topk(ranks, k, right),
        0 <= j < left.len(),
        forall|i: int| 0 <= i < j ==> left[i] == right[i],
        left[j] != right[j],
    ensures
        !ahead(ranks, right[j] as int, left[j] as int),
{
    let e = right[j];
    if left.contains(e) {
        let m = choose|m: int| 0 <= m < left.len() && left[m] == e;
        if m < j {
            assert(right[m] == right[j]);
        } else {
            assert(ahead(ranks, left[j] as int, left[m] as int));
        }
    } else {
        assert(ahead(ranks, left[j] as int, e as int));
    }
}

/// One visit of a token to an expert.
#[derive(Debug, PartialEq, Eq)]
pub struct Dispatch<W> {
    /// The token.
    pub token: usize,
    /// Where the token's hidden state starts.
    pub offset: usize,
    /// The expert.
    pub global_expert: usize,
    /// The weight of the expert's output.
    pub weight: W,
}

/// The visits of token `t`, in order.
pub open spec fn token_dispatches<W>(hidden_size: usize, t: int, routes: Seq<(usize, W)>) -> Seq<
    Dispatch<W>,
> {
    Seq::new(
        routes.len(),
        |j: int|
            Dispatch {
                token: t as usize,
                offset: (t * hidden_size) as usize,
                global_expert: routes[j].0,
                weight: routes[j].1,
            },
    )
}

/// The visits of the first `n` tokens, token by token.
pub open spec fn all_dispatches<W>(
    hidden_size: usize,
    routes: Seq<Vec<(usize, W)>>,
    n: nat,
) -> Seq<Dispatch<W>>
    decreases n,
{
    if n == 0 {
        Seq::empty()
    } else {
        all_dispatches(hidden_size, routes, (n - 1) as nat) + token_dispatches(
            hidden_size,
            n - 1,
            routes[n - 1]@,
        )
    }
}

/// Lists every visit, token by token and within a token best expert first.
pub fn dispatches<W: Copy>(config: &Config, routes: &[Vec<(usize, W)>]) -> (list: Vec<Dispatch<W>>)
    requires
        routes@.len() * config.hidden_size <= usize::MAX,
    ensures
        list@ == all_dispatches(config.hidden_size, routes@, routes@.len()),
{
    let mut list: Vec<Dispatch<W>> = Vec::new();
    let n: usize = routes.len();
    let hidden_size: usize = config.hidden_size;
    let mut token: usize = 0;
    while token < n
        invariant
            n == routes@.len(),
            hidden_size == config.hidden_size,
            n * hidden_size <= usize::MAX,
            token <= n,
            list@ == all_dispatches(hidden_size, routes@, token as nat),
        decreases n - token,
    {
        proof {
            lemma_row_bounds(n as int, hidden_size as int, token as int);
        }
        let offset: usize = token * hidden_size;
        let ghost before = list@;
        let ghost visits = token_dispatches(hidden_size, token as int, routes@[token as int]@);
        let mut j: usize = 0;
        while j < routes[token].len()
            invariant
                token < n,
                n == routes@.len(),
                offset == token * hidden_size,
                visits == token_dispatches(hidden_size, token as int, routes@[token as int]@),
                j <= routes@[token as int]@.len(),
                list@ == before + visits.take(j as int),
            decreases routes@[token as int]@.len() - j,
        {
            let route: (usize, W) = routes[token][j];
            list.push(Dispatch { token, offset, global_expert: route.0, weight: route.1 });
            j += 1;
            assert(visits.take(j as int) =~= visits.take(j - 1).push(visits[j - 1]));
        }
        assert(visits.take(j as int) =~= visits);
        token += 1;
    }
    list
}

/// How many visits stay on the driver rank and how many leave it.
#[derive(Clone, Copy, Debug, PartialEq, Eq)]
pub struct RouteCounts {
    /// Visits to experts of the driver rank.
    pub local: usize,
    /// Visits to experts of another rank.
    pub remote: usize,
}

/// Number of visits to experts that the driver rank owns.
pub open spec fn local_count<W>(layout: &ExpertParallelLayout, list: Seq<Dispatch<W>>) -> nat
    decreases list.len(),
{
    if list.len() == 0 {
        0
    } else {
        local_count(layout, list.drop_last()) + if layout.owner_of(list.last().global_expert)
            == Ok::<usize, ModelError>(0) {
            1nat
        } else {
            0nat
        }
    }
}

/// Number of visits to experts that another rank owns.
pub open spec fn remote_count<W>(layout: &ExpertParallelLayout, list: Seq<Dispatch<W>>) -> nat
    decreases list.len(),
{
    if list.len() == 0 {
        0
    } else {
        remote_count(layout, list.drop_last()) + match layout.owner_of(list.last().global_expert) {
            Ok(owner) => if owner != 0 {
                1nat
            } else {
                0nat
            },
            Err(_) => 0nat,
        }
    }
}

/// Counts the visits by where the visited expert lives.
pub fn route_counts<W>(layout: &ExpertParallelLayout, list: &[Dispatch<W>]) -> (counts: RouteCounts)
    ensures
        counts.local == local_count(layout, list@),
        counts.remote == remote_count(layout, list@),
{
    let mut local: usize = 0;
    let mut remote: usize = 0;
    let n: usize = list.len();
    let mut i: usize = 0;
    while i < n
        invariant
            n == list@.len(),
            i <= n,
            local + remote <= i,
            local == local_count(layout, list@.take(i as int)),
            remote == remote_count(layout, list@.take(i as int)),
        decreases n - i,
    {
        match layout.owner_rank(list[i].global_expert) {
            Ok(owner) => {
                if owner == 0 {
                    local += 1;
                } else {
                    remote += 1;
                }
            },
            Err(_) => {},
        }
        i += 1;
        proof {
            assert(list@.take(i as int).drop_last() =~= list@.take(i - 1));
            assert(list@.take(i as int).last() == list@[i - 1]);
        }
    }
    assert(list@.take(n as int) =~= list@);
    RouteCounts { local, remote }
}

/// Where every visited expert has an owner, each visit is counted once.
pub proof fn law_each_visit_is_counted_once<W>(
    layout: &ExpertParallelLayout,
    list: Seq<Dispatch<W>>,
)
    requires
        forall|i: int| 0 <= i < list.len() ==> layout.owner_of((#[trigger] list[i]).global_expert) is Ok,
    ensures
        local_count(layout, list) + remote_count(layout, list) == list.len(),
    decreases list.len(),
{
    if list.len() > 0 {
        let rest = list.drop_last();
        assert forall|i: int| 0 <= i < rest.len() implies layout.owner_of(
            (#[trigger] rest[i]).global_expert,
        ) is Ok by {
            assert(rest[i] == list[i]);
        }
        law_each_visit_is_counted_once(layout, rest);
        assert(list[list.len() - 1] == list.last());
    }
}

/// If every token has `k` routes, there are `k` visits per token.
pub proof fn law_visits_per_token<W>(
    hidden_size: usize,
    routes: Seq<Vec<(usize, W)>>,
    n: nat,
    k: nat,
)
    requires
        n <= routes.len(),
        forall|t: int| 0 <= t < n ==> (#[trigger] routes[t]@).len() == k,
    ensures
        all_dispatches(hidden_size, routes, n).len() == n * k,
    decreases n,
{
    if n > 0 {
        law_visits_per_token(hidden_size, routes, (n - 1) as nat, k);
        assert(routes[n - 1]@.len() == k);
        assert((n - 1) * k + k == n * k) by (nonlinear_arith);
    } else {
        assert(0 * k == 0) by (nonlinear_arith);
    }
}

/// The smaller of the number of experts to visit and the number there are.
pub open spec fn routes_per_token(config: &Config) -> nat {
    if config.num_experts_per_token <= config.n_routed_experts {
        config.num_experts_per_token as nat
    } else {
        config.n_routed_experts as nat
    }
}

/// Every token of a layer has as many routes as it can, all to experts that
/// there are.
pub proof fn law_tokens_have_all_routes<L, W, P: Fn(&[L]) -> Vec<W>, K: Fn(W) -> u32>(
    config: &Config,
    softmax: P,
    rank: K,
    logits: Seq<L>,
    routes: Seq<Vec<(usize, W)>>,
)
    requires
        routes.len() * config.n_routed_experts <= logits.len(),
        is_layer_routing(config, softmax, rank, logits, routes),
    ensures
        forall|t: int|
            0 <= t < routes.len() ==> {
                &&& (#[trigger] routes[t]@).len() == routes_per_token(config)
                &&& forall|j: int|
                    0 <= j < routes[t]@.len() ==> (#[trigger] routes[t]@[j]).0
                        < config.n_routed_experts
            },
{
    let n = config.n_routed_experts as nat;
    let k = config.num_experts_per_token as nat;
    assert forall|t: int| 0 <= t < routes.len() implies {
        &&& (#[trigger] routes[t]@).len() == routes_per_token(config)
        &&& forall|j: int| 0 <= j < routes[t]@.len() ==> (#[trigger] routes[t]@[j]).0 < n
    } by {
        lemma_row_bounds(routes.len() as int, n as int, t);
        let row = row_of(logits, n, t);
        let (shares, ranks) = choose|shares: Seq<W>, ranks: Seq<u32>|
            {
                &&& #[trigger] softmax_of(softmax, row, shares)
                &&& shares.len() == row.len()
                &&& #[trigger] ranks_of(rank, shares, ranks)
                &&& is_routing(ranks, shares, k, routes[t]@)
            };
        let chosen = visited(routes[t]@);
        assert(row.len() == n);
        assert forall|j: int| 0 <= j < routes[t]@.len() implies (#[trigger] routes[t]@[j]).0
            < n by {
            assert(chosen[j] == routes[t]@[j].0);
        }
    }
}

/// Where every routed expert has an owner, a mixture layer counts as many
/// visits as its tokens have routes.
pub proof fn law_layer_counts_all_routes<L, W, P: Fn(&[L]) -> Vec<W>, K: Fn(W) -> u32>(
    config: &Config,
    layout: &ExpertParallelLayout,
    softmax: P,
    rank: K,
    logits: Seq<L>,
    routes: Seq<Vec<(usize, W)>>,
)
    requires
        layout.owners@.len() == config.n_routed_experts,
        routes.len() * config.n_routed_experts <= logits.len(),
        is_layer_routing(config, softmax, rank, logits, routes),
    ensures
        ({
            let list = all_dispatches(config.hidden_size, routes, routes.len());
            local_count(layout, list) + remote_count(layout, list) == routes.len()
                * routes_per_token(config)
        }),
{
    let list = all_dispatches(config.hidden_size, routes, routes.len());
    law_tokens_have_all_routes(config, softmax, rank, logits, routes);
    law_visits_per_token(config.hidden_size, routes, routes.len(), routes_per_token(config));
    lemma_dispatched_experts(
        config.hidden_size,
        routes,
        routes.len(),
        config.n_routed_experts as nat,
    );
    law_each_visit_is_counted_once(layout, list);
}

/// The listed visits go to experts that the routes name.
proof fn lemma_dispatched_experts<W>(
    hidden_size: usize,
    routes: Seq<Vec<(usize, W)>>,
    n: nat,
    experts: nat,
)
    requires
        n <= routes.len(),
        forall|t: int|
            0 <= t < n ==> forall|j: int|
                0 <= j < (#[trigger] routes[t]@).len() ==> (#[trigger] routes[t]@[j]).0 < experts,
    ensures
        forall|i: int|
            0 <= i < all_dispatches(hidden_size, routes, n).len() ==> (#[trigger] all_dispatches(
                hidden_size,
                routes,
                n,
            )[i]).global_expert < experts,
    decreases n,
{
    if n > 0 {
        lemma_dispatched_experts(hidden_size, routes, (n - 1) as nat, experts);
        let before = all_dispatches(hidden_size, routes, (n - 1) as nat);
        let list = all_dispatches(hidden_size, routes, n);
        let added = token_dispatches(hidden_size, n - 1, routes[n - 1]@);
        assert forall|i: int| 0 <= i < list.len() implies (#[trigger] list[i]).global_expert
            < experts by {
            if i < before.len() {
                assert(list[i] == before[i]);
            } else {
                let j = i - before.len();
                assert(list[i] == added[j]);
                assert(routes[n - 1]@[j].0 < experts);
            }
        }
    }
}

} // verus!
