//! Routing and mixing visit by visit: which experts a token visits, what each
//! visit is given and adds, and how the visits are counted.
use vstd::prelude::*;

#[allow(unused_imports)]
use crate::config::Config;
#[allow(unused_imports)]
use crate::entries::lemma_running_sum;
#[allow(unused_imports)]
use crate::ep::ExpertParallelLayout;
#[allow(unused_imports)]
use crate::mixture::{
    added, answered, layer_mixes, lemma_last_mixed, lemma_mixed_len, mixed, mixes_to,
};
#[allow(unused_imports)]
use crate::attention::softmax_of;
#[allow(unused_imports)]
use crate::route::{
    ahead, all_dispatches, is_layer_routing, is_routing, is_token_routing, is_topk, local_count,
    ranks_of, remote_count, routes_per_token, token_dispatches, visited, Dispatch, RouteCounts,
};
#[allow(unused_imports)]
use crate::rows::{lemma_row_bounds, row_of};

verus! {

/// The routes of a token: as many as asked for and there are, each with the
/// share of its expert, by descending rank of the shares and among equal ranks
/// by ascending number; and no expert that was left out comes before one that
/// was not.
pub proof fn law_token_routes<L, W, P: Fn(&[L]) -> Vec<W>, K: Fn(W) -> u32>(
    softmax: P,
    rank: K,
    logits: Seq<L>,
    k: nat,
    routes: Seq<(usize, W)>,
) -> (by: (Seq<W>, Seq<u32>))
    requires
        is_token_routing(softmax, rank, logits, k, routes),
    ensures
        by.0.len() == logits.len(),
        by.1.len() == logits.len(),
        exists|x: &[L], v: Vec<W>|
            x@ == logits && v@ == by.0 && #[trigger] call_ensures(softmax, (x,), v),
        forall|i: int|
            0 <= i < logits.len() ==> call_ensures(rank, (by.0[i],), #[trigger] by.1[i]),
        routes.len() == if k <= logits.len() {
            k
        } else {
            logits.len()
        },
        forall|i: int|
            0 <= i < routes.len() ==> (#[trigger] routes[i]).0 < logits.len() && routes[i].1
                == by.0[routes[i].0 as int],
        forall|i: int, j: int|
            0 <= i < j < routes.len() ==> {
                ||| by.1[(#[trigger] routes[i]).0 as int] > by.1[(#[trigger] routes[j]).0 as int]
                ||| (by.1[routes[i].0 as int] == by.1[routes[j].0 as int] && routes[i].0
                    < routes[j].0)
            },
        forall|i: int, e: int|
            #![trigger routes[i], by.1[e]]
            0 <= i < routes.len() && 0 <= e < logits.len() && (forall|m: int|
                0 <= m < routes.len() ==> (#[trigger] routes[m]).0 != e) ==> {
                ||| by.1[routes[i].0 as int] > by.1[e]
                ||| (by.1[routes[i].0 as int] == by.1[e] && routes[i].0 < e)
            },
{
    let (shares, ranks) = choose|shares: Seq<W>, ranks: Seq<u32>|
        {
            &&& #[trigger] softmax_of(softmax, logits, shares)
            &&& shares.len() == logits.len()
            &&& #[trigger] ranks_of(rank, shares, ranks)
            &&& is_routing(ranks, shares, k, routes)
        };
    let chosen = visited(routes);
    assert forall|i: int| 0 <= i < routes.len() implies (#[trigger] routes[i]).0 < logits.len()
        && routes[i].1 == shares[routes[i].0 as int] by {
        assert(chosen[i] == routes[i].0);
    }
    assert forall|i: int, j: int| 0 <= i < j < routes.len() implies {
        ||| ranks[(#[trigger] routes[i]).0 as int] > ranks[(#[trigger] routes[j]).0 as int]
        ||| (ranks[routes[i].0 as int] == ranks[routes[j].0 as int] && routes[i].0 < routes[j].0)
    } by {
        assert(chosen[i] == routes[i].0 && chosen[j] == routes[j].0);
        assert(ahead(ranks, chosen[i] as int, chosen[j] as int));
    }
    assert forall|i: int, e: int|
        #![trigger routes[i], ranks[e]]
        0 <= i < routes.len() && 0 <= e < logits.len() && (forall|m: int|
            0 <= m < routes.len() ==> (#[trigger] routes[m]).0 != e) implies {
        ||| ranks[routes[i].0 as int] > ranks[e]
        ||| (ranks[routes[i].0 as int] == ranks[e] && routes[i].0 < e)
    } by {
        let expert = e as usize;
        let (x, v) = choose|x: &[L], v: Vec<W>|
            x@ == logits && v@ == shares && #[trigger] call_ensures(softmax, (x,), v);
        assert(v.len() == shares.len());
        assert(chosen[i] == routes[i].0);
        assert(!chosen.contains(expert)) by {
            if chosen.contains(expert) {
                let m = choose|m: int| 0 <= m < chosen.len() && chosen[m] == expert;
                assert(routes[m].0 == chosen[m]);
            }
        }
        assert(ahead(ranks, chosen[i] as int, expert as int));
    }
    assert(visited(routes).len() == routes.len());
    (shares, ranks)
}

/// The tokens of a layer are routed by their own rows of router logits.
pub proof fn law_layer_routes<L, W, P: Fn(&[L]) -> Vec<W>, K: Fn(W) -> u32>(
    config: &Config,
    softmax: P,
    rank: K,
    logits: Seq<L>,
    routes: Seq<Vec<(usize, W)>>,
    t: int,
)
    requires
        is_layer_routing(config, softmax, rank, logits, routes),
        0 <= t < routes.len(),
    ensures
        is_token_routing(
            softmax,
            rank,
            logits.subrange(
                t * config.n_routed_experts,
                t * config.n_routed_experts + config.n_routed_experts,
            ),
            config.num_experts_per_token as nat,
            routes[t]@,
        ),
{
    assert(routes[t]@ == routes[t]@);
}

/// Where higher ranks are larger shares, a token visits the experts with the
/// largest shares: of two routes the earlier one has the larger share, or an
/// equal one and the smaller number, and so has every route against an expert
/// that the token does not visit.
pub proof fn law_largest_shares_first<L, W, P: Fn(&[L]) -> Vec<W>, K: Fn(W) -> u32>(
    softmax: P,
    rank: K,
    larger: spec_fn(W, W) -> bool,
    logits: Seq<L>,
    k: nat,
    routes: Seq<(usize, W)>,
) -> (shares: Seq<W>)
    requires
        is_token_routing(softmax, rank, logits, k, routes),
        forall|a: W, b: W, x: u32, y: u32|
            #[trigger] call_ensures(rank, (a,), x) && #[trigger] call_ensures(rank, (b,), y) ==> (
            larger(a, b) <==> x > y),
    ensures
        exists|x: &[L], v: Vec<W>|
            x@ == logits && v@ == shares && #[trigger] call_ensures(softmax, (x,), v),
        forall|i: int|
            0 <= i < routes.len() ==> (#[trigger] routes[i]).1 == shares[routes[i].0 as int],
        forall|i: int, j: int|
            0 <= i < j < routes.len() ==> {
                ||| larger((#[trigger] routes[i]).1, (#[trigger] routes[j]).1)
                ||| (!larger(routes[j].1, routes[i].1) && routes[i].0 < routes[j].0)
            },
        forall|i: int, e: int|
            #![trigger routes[i], shares[e]]
            0 <= i < routes.len() && 0 <= e < logits.len() && (forall|m: int|
                0 <= m < routes.len() ==> (#[trigger] routes[m]).0 != e) ==> {
                ||| larger(routes[i].1, shares[e])
                ||| (!larger(shares[e], routes[i].1) && routes[i].0 < e)
            },
{
    let by = law_token_routes(softmax, rank, logits, k, routes);
    let shares = by.0;
    let ranks = by.1;
    assert forall|a: int, b: int| 0 <= a < logits.len() && 0 <= b < logits.len() implies larger(
        #[trigger] shares[a],
        #[trigger] shares[b],
    ) == (ranks[a] > ranks[b]) by {
        assert(call_ensures(rank, (shares[a],), ranks[a]));
        assert(call_ensures(rank, (shares[b],), ranks[b]));
    }
    assert forall|i: int, e: int|
        #![trigger routes[i], shares[e]]
        0 <= i < routes.len() && 0 <= e < logits.len() && (forall|m: int|
            0 <= m < routes.len() ==> (#[trigger] routes[m]).0 != e) implies {
        ||| larger(routes[i].1, shares[e])
        ||| (!larger(shares[e], routes[i].1) && routes[i].0 < e)
    } by {
        assert(ranks[e] == ranks[e]);
        assert(larger(shares[routes[i].0 as int], shares[e]) == (ranks[routes[i].0 as int]
            > ranks[e]));
        assert(larger(shares[e], shares[routes[i].0 as int]) == (ranks[e]
            > ranks[routes[i].0 as int]));
    }
    shares
}

/// The visits of a layer are the routes of its tokens, token by token and in
/// the order of each token's routes: those of token `t` start where those of
/// the tokens before it end.
pub proof fn law_visits_are_the_routes<W>(
    hidden_size: usize,
    routes: Seq<Vec<(usize, W)>>,
    n: nat,
) -> (starts: Seq<int>)
    requires
        n <= routes.len(),
        n <= usize::MAX,
        n * hidden_size <= usize::MAX,
    ensures
        starts.len() == n + 1,
        starts[0] == 0,
        starts[n as int] == all_dispatches(hidden_size, routes, n).len(),
        forall|t: int|
            0 <= t < n ==> starts[t + 1] == starts[t] + (#[trigger] routes[t])@.len(),
        forall|t: int|
            0 <= t <= n ==> 0 <= #[trigger] starts[t] <= all_dispatches(
                hidden_size,
                routes,
                n,
            ).len(),
        forall|t: int, j: int|
            #![trigger routes[t]@[j]]
            0 <= t < n && 0 <= j < routes[t]@.len() ==> all_dispatches(
                hidden_size,
                routes,
                n,
            )[starts[t] + j] == (Dispatch {
                token: t as usize,
                offset: (t * hidden_size) as usize,
                global_expert: routes[t]@[j].0,
                weight: routes[t]@[j].1,
            }),
    decreases n,
{
    if n == 0 {
        seq![0int]
    } else {
        let m = (n - 1) as nat;
        lemma_row_bounds(n as int, hidden_size as int, n - 1);
        let before = law_visits_are_the_routes(hidden_size, routes, m);
        let list = all_dispatches(hidden_size, routes, n);
        let shorter = all_dispatches(hidden_size, routes, m);
        let added_visits = token_dispatches(hidden_size, n - 1, routes[n - 1]@);
        let starts = before.push(list.len() as int);
        assert(list == shorter + added_visits);
        assert forall|t: int| 0 <= t < n implies starts[t + 1] == starts[t] + (
        #[trigger] routes[t])@.len() by {
            if t < m {
                assert(before[t + 1] == before[t] + routes[t]@.len());
            }
        }
        assert forall|t: int| 0 <= t <= n implies 0 <= #[trigger] starts[t] <= list.len() by {
            if t <= m {
                assert(starts[t] == before[t]);
            }
        }
        assert forall|t: int, j: int|
            #![trigger routes[t]@[j]]
            0 <= t < n && 0 <= j < routes[t]@.len() implies list[starts[t] + j] == (Dispatch {
            token: t as usize,
            offset: (t * hidden_size) as usize,
            global_expert: routes[t]@[j].0,
            weight: routes[t]@[j].1,
        }) by {
            let route = routes[t]@[j];
            assert(starts[t] == before[t]);
            if t < m {
                assert(before[t + 1] == before[t] + routes[t]@.len());
                assert(before[t + 1] <= shorter.len());
                assert(shorter[before[t] + j].weight == route.1);
                assert(list[before[t] + j] == shorter[before[t] + j]);
            } else {
                assert(list[shorter.len() + j] == added_visits[j]);
            }
        }
        starts
    }
}

/// The visits are counted by the rank that the placement names for the visited
/// expert: rank 0 is local, every other rank is remote.
pub proof fn law_visits_are_counted_by_owner<W>(
    layout: &ExpertParallelLayout,
    visits: Seq<Dispatch<W>>,
)
    ensures
        local_count(layout, visits) == visits.filter(
            |visit: Dispatch<W>|
                visit.global_expert < layout.owners@.len()
                    && layout.owners@[visit.global_expert as int] == 0,
        ).len(),
        remote_count(layout, visits) == visits.filter(
            |visit: Dispatch<W>|
                visit.global_expert < layout.owners@.len()
                    && layout.owners@[visit.global_expert as int] != 0,
        ).len(),
    decreases visits.len(),
{
    reveal(Seq::filter);
    if visits.len() > 0 {
        law_visits_are_counted_by_owner(layout, visits.drop_last());
    }
}

/// Mixing step by step: each visited expert is asked with the entries of its
/// token's row of the input, and each entry of its answer is added, weighted,
/// to the entry of the token's state in the same place; all other entries stay.
pub proof fn law_mixing_step_by_step<
    'a,
    B,
    T,
    W,
    E,
    X: Fn(usize, &[B]) -> Result<Vec<T>, E>,
    A: Fn(T, W, T) -> T,
>(
    expert: X,
    mul_add: A,
    hidden_size: usize,
    input: Seq<B>,
    visits: Seq<Dispatch<W>>,
    before: Seq<T>,
    after: Seq<T>,
) -> (steps: (Seq<&'a [B]>, Seq<Vec<T>>, Seq<Seq<T>>))
    requires
        mixed(expert, mul_add, hidden_size, input, visits, before, after),
    ensures
        steps.0.len() == visits.len(),
        steps.1.len() == visits.len(),
        steps.2.len() == visits.len() + 1,
        steps.2[0] == before,
        steps.2[visits.len() as int] == after,
        forall|j: int|
            0 <= j < visits.len() ==> {
                &&& (#[trigger] steps.0[j])@ == input.subrange(
                    visits[j].offset as int,
                    visits[j].offset + hidden_size,
                )
                &&& call_ensures(
                    expert,
                    (visits[j].global_expert, steps.0[j]),
                    Ok::<Vec<T>, E>(steps.1[j]),
                )
            },
        forall|j: int| 0 <= j <= visits.len() ==> (#[trigger] steps.2[j]).len() == before.len(),
        forall|j: int, i: int|
            #![trigger visits[j], steps.2[j][i]]
            0 <= j < visits.len() && 0 <= i < before.len() ==> {
                if visits[j].offset <= i < visits[j].offset + hidden_size && i < visits[j].offset
                    + steps.1[j]@.len() {
                    call_ensures(
                        mul_add,
                        (
                            steps.2[j][i],
                            visits[j].weight,
                            steps.1[j]@[i - visits[j].offset],
                        ),
                        steps.2[j + 1][i],
                    )
                } else {
                    steps.2[j + 1][i] == steps.2[j][i]
                }
            },
    decreases visits.len(),
{
    if visits.len() == 0 {
        (Seq::empty(), Seq::empty(), seq![before])
    } else {
        let rest = visits.drop_last();
        let last = visits.last();
        let m = rest.len() as int;
        let (middle, out) = lemma_last_mixed(
            expert,
            mul_add,
            hidden_size,
            input,
            visits,
            before,
            after,
        );
        let (asked, outs, states) = law_mixing_step_by_step(
            expert,
            mul_add,
            hidden_size,
            input,
            rest,
            before,
            middle,
        );
        let x = choose|x: &[B]|
            x@ == input.subrange(last.offset as int, last.offset + hidden_size)
                && #[trigger] call_ensures(
                expert,
                (last.global_expert, x),
                Ok::<Vec<T>, E>(out),
            );
        assert(answered(expert, hidden_size, input, last, Ok::<Vec<T>, E>(out)));
        let steps = (asked.push(x), outs.push(out), states.push(after));
        assert(visits[m] == last);
        assert forall|j: int| 0 <= j < visits.len() implies {
            &&& (#[trigger] steps.0[j])@ == input.subrange(
                visits[j].offset as int,
                visits[j].offset + hidden_size,
            )
            &&& call_ensures(
                expert,
                (visits[j].global_expert, steps.0[j]),
                Ok::<Vec<T>, E>(steps.1[j]),
            )
        } by {
            if j < m {
                assert(visits[j] == rest[j]);
                assert(steps.0[j] == asked[j] && steps.1[j] == outs[j]);
            }
        }
        assert forall|j: int| 0 <= j <= visits.len() implies (#[trigger] steps.2[j]).len()
            == before.len() by {
            if j <= m {
                assert(steps.2[j] == states[j]);
            } else {
                assert(states[m].len() == before.len());
            }
        }
        assert forall|j: int, i: int|
            #![trigger visits[j], steps.2[j][i]]
            0 <= j < visits.len() && 0 <= i < before.len() implies {
            if visits[j].offset <= i < visits[j].offset + hidden_size && i < visits[j].offset
                + steps.1[j]@.len() {
                call_ensures(
                    mul_add,
                    (steps.2[j][i], visits[j].weight, steps.1[j]@[i - visits[j].offset]),
                    steps.2[j + 1][i],
                )
            } else {
                steps.2[j + 1][i] == steps.2[j][i]
            }
        } by {
            if j < m {
                assert(visits[j] == rest[j]);
                assert(steps.1[j] == outs[j]);
                assert(steps.2[j] == states[j] && steps.2[j + 1] == states[j + 1]);
                assert(states[j][i] == states[j][i]);
            } else {
                assert(steps.2[j] == middle && steps.2[j + 1] == after);
                assert(steps.1[j] == out);
                assert(after[i] == after[i]);
            }
        }
        steps
    }
}

/// Where entries and weights stand for integers, every entry of the mixed
/// states is what it was plus, for each visit of its token, the weight of the
/// visit times the entry in the same place of the expert's output.
pub proof fn law_mixing_adds_up<
    B,
    T,
    W,
    E,
    X: Fn(usize, &[B]) -> Result<Vec<T>, E>,
    A: Fn(T, W, T) -> T,
>(
    expert: X,
    mul_add: A,
    value: spec_fn(T) -> int,
    weight: spec_fn(W) -> int,
    hidden_size: usize,
    input: Seq<B>,
    visits: Seq<Dispatch<W>>,
    before: Seq<T>,
    after: Seq<T>,
) -> (outs: Seq<Vec<T>>)
    requires
        mixed(expert, mul_add, hidden_size, input, visits, before, after),
        forall|a: T, w: W, b: T, r: T|
            #[trigger] call_ensures(mul_add, (a, w, b), r) ==> value(r) == value(a) + weight(w)
                * value(b),
    ensures
        outs.len() == visits.len(),
        after.len() == before.len(),
        forall|i: int|
            0 <= i < before.len() ==> value(#[trigger] after[i]) == value(before[i]) + Seq::new(
                visits.len(),
                |j: int|
                    if visits[j].offset <= i < visits[j].offset + hidden_size && i
                        < visits[j].offset + outs[j]@.len() {
                        weight(visits[j].weight) * value(outs[j]@[i - visits[j].offset])
                    } else {
                        0
                    },
            ).fold_left(0int, |a: int, b: int| a + b),
{
    let steps = law_mixing_step_by_step(
        expert,
        mul_add,
        hidden_size,
        input,
        visits,
        before,
        after,
    );
    let outs = steps.1;
    let states = steps.2;
    let n = visits.len();
    assert(states[n as int].len() == before.len());
    assert forall|i: int| 0 <= i < before.len() implies value(#[trigger] after[i]) == value(
        before[i],
    ) + Seq::new(
        visits.len(),
        |j: int|
            if visits[j].offset <= i < visits[j].offset + hidden_size && i < visits[j].offset
                + outs[j]@.len() {
                weight(visits[j].weight) * value(outs[j]@[i - visits[j].offset])
            } else {
                0
            },
    ).fold_left(0int, |a: int, b: int| a + b) by {
        let terms = Seq::new(
            visits.len(),
            |j: int|
                if visits[j].offset <= i < visits[j].offset + hidden_size && i < visits[j].offset
                    + outs[j]@.len() {
                    weight(visits[j].weight) * value(outs[j]@[i - visits[j].offset])
                } else {
                    0
                },
        );
        let sums = Seq::new(n + 1, |j: int| value(states[j][i]) - value(before[i]));
        assert forall|j: int| 0 <= j < n implies sums[j] + #[trigger] terms[j] == sums[j + 1] by {
            assert(visits[j] == visits[j] && states[j][i] == states[j][i]);
        }
        lemma_running_sum(terms, sums, n);
        assert(terms.take(n as int) =~= terms);
    }
    outs
}

/// What making the visits gives: every visit is mixed in, or the answer of one
/// is the error that comes back, after those before it were mixed in.
pub proof fn law_first_failure_comes_back<
    B,
    T,
    W,
    E,
    X: Fn(usize, &[B]) -> Result<Vec<T>, E>,
    A: Fn(T, W, T) -> T,
>(
    expert: X,
    mul_add: A,
    hidden_size: usize,
    input: Seq<B>,
    visits: Seq<Dispatch<W>>,
    before: Seq<T>,
    after: Seq<T>,
    failed: Option<E>,
) -> (made: nat)
    requires
        mixes_to(expert, mul_add, hidden_size, input, visits, before, after, failed),
    ensures
        made <= visits.len(),
        mixed(expert, mul_add, hidden_size, input, visits.take(made as int), before, after),
        failed is None <==> made == visits.len(),
        failed matches Some(error) ==> exists|x: &[B]|
            x@ == input.subrange(
                visits[made as int].offset as int,
                visits[made as int].offset + hidden_size,
            ) && #[trigger] call_ensures(
                expert,
                (visits[made as int].global_expert, x),
                Err::<Vec<T>, E>(error),
            ),
{
    match failed {
        None => {
            assert(visits.take(visits.len() as int) =~= visits);
            visits.len()
        },
        Some(error) => {
            let i = choose|i: int|
                {
                    &&& 0 <= i < visits.len()
                    &&& mixed(expert, mul_add, hidden_size, input, visits.take(i), before, after)
                    &&& answered(
                        expert,
                        hidden_size,
                        input,
                        #[trigger] visits[i],
                        Err::<Vec<T>, E>(error),
                    )
                };
            i as nat
        },
    }
}

/// A mixture layer is made of the parts above: routes of its router logits, the
/// visits that the routes list, what making them gives, and their counts.
pub proof fn law_layer_parts<
    L,
    B,
    T,
    W,
    E,
    P: Fn(&[L]) -> Vec<W>,
    K: Fn(W) -> u32,
    X: Fn(usize, &[B]) -> Result<Vec<T>, E>,
    A: Fn(T, W, T) -> T,
>(
    config: &Config,
    layout: &ExpertParallelLayout,
    softmax: P,
    rank: K,
    expert: X,
    mul_add: A,
    logits: Seq<L>,
    input: Seq<B>,
    seq_len: usize,
    before: Seq<T>,
    after: Seq<T>,
    result: Result<RouteCounts, E>,
) -> (routes: Seq<Vec<(usize, W)>>)
    requires
        layer_mixes(
            config,
            layout,
            softmax,
            rank,
            expert,
            mul_add,
            logits,
            input,
            seq_len,
            before,
            after,
            result,
        ),
    ensures
        routes.len() == seq_len,
        is_layer_routing(config, softmax, rank, logits, routes),
        mixes_to(
            expert,
            mul_add,
            config.hidden_size,
            input,
            all_dispatches(config.hidden_size, routes, seq_len as nat),
            before,
            after,
            match result {
                Ok(_) => None,
                Err(error) => Some(error),
            },
        ),
        result matches Ok(counts) ==> {
            &&& counts.local == all_dispatches(config.hidden_size, routes, seq_len as nat).filter(
                |visit: Dispatch<W>|
                    visit.global_expert < layout.owners@.len()
                        && layout.owners@[visit.global_expert as int] == 0,
            ).len()
            &&& counts.remote == all_dispatches(
                config.hidden_size,
                routes,
                seq_len as nat,
            ).filter(
                |visit: Dispatch<W>|
                    visit.global_expert < layout.owners@.len()
                        && layout.owners@[visit.global_expert as int] != 0,
            ).len()
        },
{
    let routes = choose|routes: Seq<Vec<(usize, W)>>|
        {
            let visits = all_dispatches(config.hidden_size, routes, seq_len as nat);
            &&& routes.len() == seq_len
            &&& #[trigger] is_layer_routing(config, softmax, rank, logits, routes)
            &&& mixes_to(
                expert,
                mul_add,
                config.hidden_size,
                input,
                visits,
                before,
                after,
                result.err(),
            )
            &&& result matches Ok(counts) ==> counts.local == local_count(layout, visits)
                && counts.remote == remote_count(layout, visits)
        };
    law_visits_are_counted_by_owner(
        layout,
        all_dispatches(config.hidden_size, routes, seq_len as nat),
    );
    routes
}

} // verus!
