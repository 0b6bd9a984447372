//! A mixture layer: every visited expert's weighted output is added to its
//! token's hidden state.
use vstd::prelude::*;

use crate::config::Config;
use crate::ep::ExpertParallelLayout;
#[allow(unused_imports)]
use crate::route::{
    all_dispatches, is_layer_routing, law_layer_counts_all_routes, law_tokens_have_all_routes,
    law_visits_per_token, local_count, remote_count, routes_per_token, token_dispatches,
};
use crate::route::{dispatches, route_counts, topk_softmax_routes, Dispatch, RouteCounts};
#[allow(unused_imports)]
use crate::rows::{lemma_row_bounds, row_of};

verus! {

/// `after` is what can come of adding an expert's weighted output to the
/// hidden state that starts at `offset`: entry by entry, as far as both go.
pub open spec fn added<T, W, A: Fn(T, W, T) -> T>(
    mul_add: A,
    offset: usize,
    hidden_size: usize,
    weight: W,
    out: Seq<T>,
    before: Seq<T>,
    after: Seq<T>,
) -> bool {
    &&& after.len() == before.len()
    &&& forall|i: int|
        0 <= i < after.len() && !(offset <= i < offset + hidden_size && i < offset + out.len())
            ==> #[trigger] after[i] == before[i]
    &&& forall|i: int|
        offset <= i < offset + hidden_size && i < offset + out.len() ==> call_ensures(
            mul_add,
            (before[i], weight, out[i - offset]),
            #[trigger] after[i],
        )
}

/// Adds an expert's weighted output to a token's hidden state, entry by entry
/// as far as both go.
pub fn accumulate<T: Copy, W: Copy, A: Fn(T, W, T) -> T>(
    accum: &mut [T],
    offset: usize,
    hidden_size: usize,
    weight: W,
    out: &[T],
    mul_add: &A,
)
    requires
        offset + hidden_size <= old(accum)@.len(),
        forall|a: T, w: W, b: T| #[trigger] call_requires(*mul_add, (a, w, b)),
    ensures
        added(
            *mul_add,
            offset,
            hidden_size,
            weight,
            out@,
            old(accum)@,
            final(accum)@,
        ),
{
    let ghost total: usize = accum.len();
    let mut j: usize = 0;
    while j < hidden_size && j < out.len()
        invariant
            total == old(accum)@.len(),
            offset + hidden_size <= total,
            accum@.len() == total,
            j <= hidden_size,
            j <= out@.len(),
            forall|a: T, w: W, b: T| #[trigger] call_requires(*mul_add, (a, w, b)),
            forall|i: int|
                0 <= i < total && !(offset <= i < offset + j) ==> #[trigger] accum@[i]
                    == old(accum)@[i],
            forall|i: int|
                offset <= i < offset + j ==> call_ensures(
                    *mul_add,
                    (old(accum)@[i], weight, out@[i - offset]),
                    #[trigger] accum@[i],
                ),
        decreases hidden_size - j,
    {
        let sum: T = mul_add(accum[offset + j], weight, out[j]);
        accum[offset + j] = sum;
        j += 1;
    }
}

/// `answer` is what the expert of a visit can give for the token's input.
pub open spec fn answered<B, T, W, E, X: Fn(usize, &[B]) -> Result<Vec<T>, E>>(
    expert: X,
    hidden_size: usize,
    input: Seq<B>,
    visit: Dispatch<W>,
    answer: Result<Vec<T>, E>,
) -> bool {
    exists|x: &[B]|
        x@ == input.subrange(visit.offset as int, visit.offset + hidden_size)
            && #[trigger] call_ensures(expert, (visit.global_expert, x), answer)
}

/// `after` is what can come of making all visits in order: each expert answers
/// with an output, and the weighted output is added to the token's hidden
/// state.
pub open spec fn mixed<
    B,
    T,
    W,
    E,
    X: Fn(usize, &[B]) -> Result<Vec<T>, E>,
    A: Fn(T, W, T) -> T,
>(
    expert: X,
    mul_add: A,
    hidden_size: usize,
    input: Seq<B>,
    visits: Seq<Dispatch<W>>,
    before: Seq<T>,
    after: Seq<T>,
) -> bool
    decreases visits.len(),
{
    if visits.len() == 0 {
        after == before
    } else {
        exists|middle: Seq<T>, out: Vec<T>|
            {
                &&& mixed(
                    expert,
                    mul_add,
                    hidden_size,
                    input,
                    visits.drop_last(),
                    before,
                    middle,
                )
                &&& answered(expert, hidden_size, input, visits.last(), Ok(out))
                &&& #[trigger] added(
                    mul_add,
                    visits.last().offset,
                    hidden_size,
                    visits.last().weight,
                    out@,
                    middle,
                    after,
                )
            }
    }
}

/// What making the visits can give: all are made and mixed in, or one fails
/// with `error` after those before it were.
pub open spec fn mixes_to<
    B,
    T,
    W,
    E,
    X: Fn(usize, &[B]) -> Result<Vec<T>, E>,
    A: Fn(T, W, T) -> T,
>(
    expert: X,
    mul_add: A,
    hidden_size: usize,
    input: Seq<B>,
    visits: Seq<Dispatch<W>>,
    before: Seq<T>,
    after: Seq<T>,
    failed: Option<E>,
) -> bool {
    match failed {
        None => mixed(expert, mul_add, hidden_size, input, visits, before, after),
        Some(error) => exists|i: int|
            {
                &&& 0 <= i < visits.len()
                &&& mixed(expert, mul_add, hidden_size, input, visits.take(i), before, after)
                &&& answered(
                    expert,
                    hidden_size,
                    input,
                    #[trigger] visits[i],
                    Err::<Vec<T>, E>(error),
                )
            },
    }
}

/// Makes the visits in order and adds each weighted output to its token's
/// hidden state, until one fails.
pub fn mix_experts<
    B,
    T: Copy,
    W: Copy,
    E,
    X: Fn(usize, &[B]) -> Result<Vec<T>, E>,
    A: Fn(T, W, T) -> T,
>(
    config: &Config,
    visits: &[Dispatch<W>],
    input: &[B],
    accum: &mut [T],
    expert: X,
    mul_add: A,
) -> (result: Result<(), E>)
    requires
        forall|i: int|
            0 <= i < visits@.len() ==> (#[trigger] visits@[i]).offset + config.hidden_size
                <= input@.len(),
        forall|i: int|
            0 <= i < visits@.len() ==> (#[trigger] visits@[i]).offset + config.hidden_size
                <= old(accum)@.len(),
        forall|e: usize, x: &[B]|
            x@.len() == config.hidden_size ==> #[trigger] call_requires(expert, (e, x)),
        forall|a: T, w: W, b: T| #[trigger] call_requires(mul_add, (a, w, b)),
    ensures
        final(accum)@.len() == old(accum)@.len(),
        mixes_to(
            expert,
            mul_add,
            config.hidden_size,
            input@,
            visits@,
            old(accum)@,
            final(accum)@,
            result.err(),
        ),
{
    let n: usize = visits.len();
    let hidden_size: usize = config.hidden_size;
    let ghost input_len: usize = input.len();
    let ghost total: usize = accum.len();
    let mut i: usize = 0;
    while i < n
        invariant
            n == visits@.len(),
            i <= n,
            hidden_size == config.hidden_size,
            input_len == input@.len(),
            total == old(accum)@.len(),
            accum@.len() == total,
            forall|j: int|
                0 <= j < n ==> (#[trigger] visits@[j]).offset + hidden_size <= input_len,
            forall|j: int| 0 <= j < n ==> (#[trigger] visits@[j]).offset + hidden_size <= total,
            forall|e: usize, x: &[B]|
                x@.len() == hidden_size ==> #[trigger] call_requires(expert, (e, x)),
            forall|a: T, w: W, b: T| #[trigger] call_requires(mul_add, (a, w, b)),
            mixed(
                expert,
                mul_add,
                hidden_size,
                input@,
                visits@.take(i as int),
                old(accum)@,
                accum@,
            ),
        decreases n - i,
    {
        let visit: &Dispatch<W> = &visits[i];
        let offset: usize = visit.offset;
        let row: &[B] = &input[offset..offset + hidden_size];
        let answer: Result<Vec<T>, E> = expert(visit.global_expert, row);
        assert(answered(expert, hidden_size, input@, visits@[i as int], answer));
        match answer {
            Err(error) => {
                return Err(error);
            },
            Ok(out) => {
                let ghost middle = accum@;
                accumulate(accum, offset, hidden_size, visit.weight, out.as_slice(), &mul_add);
                i += 1;
                proof {
                    let made = visits@.take(i as int);
                    assert(made.drop_last() =~= visits@.take(i - 1));
                    assert(made.last() == visits@[i - 1]);
                    assert(mixed(
                        expert,
                        mul_add,
                        hidden_size,
                        input@,
                        made.drop_last(),
                        old(accum)@,
                        middle,
                    ));
                    assert(added(
                        mul_add,
                        made.last().offset,
                        hidden_size,
                        made.last().weight,
                        out@,
                        middle,
                        accum@,
                    ));
                }
            },
        }
    }
    assert(visits@.take(n as int) =~= visits@);
    Ok(())
}

/// Every visit of the first `n` tokens starts at its token's hidden state.
proof fn lemma_dispatched_offsets<W>(hidden_size: usize, routes: Seq<Vec<(usize, W)>>, n: nat)
    requires
        n <= routes.len(),
        n * hidden_size <= usize::MAX,
    ensures
        forall|i: int|
            0 <= i < all_dispatches(hidden_size, routes, n).len() ==> (#[trigger] all_dispatches(
                hidden_size,
                routes,
                n,
            )[i]).offset + hidden_size <= n * hidden_size,
    decreases n,
{
    if n > 0 {
        lemma_row_bounds(n as int, hidden_size as int, n - 1);
        lemma_dispatched_offsets(hidden_size, routes, (n - 1) as nat);
        let before = all_dispatches(hidden_size, routes, (n - 1) as nat);
        let list = all_dispatches(hidden_size, routes, n);
        assert forall|i: int| 0 <= i < list.len() implies (#[trigger] list[i]).offset + hidden_size
            <= n * hidden_size by {
            if i < before.len() {
                assert(list[i] == before[i]);
            }
        }
    }
}

/// What a mixture layer can do to the hidden states `before`: the visits that
/// can come of the router logits are made and mixed in, and where none fails
/// they are counted by where the visited expert lives.
pub open spec fn layer_mixes<
    L,
    B,
    T,
    W,
    E,
    P: Fn(&[L]) -> Vec<W>,
    K: Fn(W) -> u32,
    X: Fn(usize, &[B]) -> Result<Vec<T>, E>,
    A: Fn(T, W, T) -> T,
>(
    config: &Config,
    layout: &ExpertParallelLayout,
    softmax: P,
    rank: K,
    expert: X,
    mul_add: A,
    logits: Seq<L>,
    input: Seq<B>,
    seq_len: usize,
    before: Seq<T>,
    after: Seq<T>,
    result: Result<RouteCounts, E>,
) -> bool {
    exists|routes: Seq<Vec<(usize, W)>>|
        {
            let visits = all_dispatches(config.hidden_size, routes, seq_len as nat);
            &&& routes.len() == seq_len
            &&& #[trigger] is_layer_routing(config, softmax, rank, logits, routes)
            &&& mixes_to(
                expert,
                mul_add,
                config.hidden_size,
                input,
                visits,
                before,
                after,
                result.err(),
            )
            &&& result matches Ok(counts) ==> counts.local == local_count(layout, visits)
                && counts.remote == remote_count(layout, visits)
        }
}

/// A mixture layer on the host: routes each token, has the chosen experts
/// answer for it and adds their weighted outputs to `accum`, which holds the
/// outputs of the experts that all tokens share.
pub fn moe_host<
    L,
    B,
    T: Copy,
    W: Copy,
    E,
    P: Fn(&[L]) -> Vec<W>,
    K: Fn(W) -> u32,
    X: Fn(usize, &[B]) -> Result<Vec<T>, E>,
    A: Fn(T, W, T) -> T,
>(
    config: &Config,
    layout: &ExpertParallelLayout,
    logits: &[L],
    input: &[B],
    accum: &mut [T],
    seq_len: usize,
    softmax: P,
    rank: K,
    expert: X,
    mul_add: A,
) -> (result: Result<RouteCounts, E>)
    requires
        seq_len * config.n_routed_experts <= logits@.len(),
        seq_len * config.hidden_size <= input@.len(),
        routes_per_token(config) > 0 ==> seq_len * config.hidden_size <= old(accum)@.len(),
        forall|x: &[L]|
            x@.len() == config.n_routed_experts ==> #[trigger] call_requires(softmax, (x,)),
        forall|x: &[L], v: Vec<W>|
            x@.len() == config.n_routed_experts && #[trigger] call_ensures(softmax, (x,), v)
                ==> v@.len() == x@.len(),
        forall|w: W| #[trigger] call_requires(rank, (w,)),
        forall|e: usize, x: &[B]|
            x@.len() == config.hidden_size ==> #[trigger] call_requires(expert, (e, x)),
        forall|a: T, w: W, b: T| #[trigger] call_requires(mul_add, (a, w, b)),
    ensures
        final(accum)@.len() == old(accum)@.len(),
        layer_mixes(
            config,
            layout,
            softmax,
            rank,
            expert,
            mul_add,
            logits@,
            input@,
            seq_len,
            old(accum)@,
            final(accum)@,
            result,
        ),
{
    let ghost input_len: usize = input.len();
    let routes: Vec<Vec<(usize, W)>> = topk_softmax_routes(config, logits, seq_len, softmax, rank);
    let visits: Vec<Dispatch<W>> = dispatches(config, routes.as_slice());
    proof {
        lemma_dispatched_offsets(config.hidden_size, routes@, routes@.len());
        law_tokens_have_all_routes(config, softmax, rank, logits@, routes@);
        if routes_per_token(config) == 0 {
            law_visits_per_token(config.hidden_size, routes@, routes@.len(), 0);
            assert(routes@.len() * 0 == 0) by (nonlinear_arith);
        }
    }
    match mix_experts(config, visits.as_slice(), input, accum, expert, mul_add) {
        Err(error) => Err(error),
        Ok(()) => Ok(route_counts(layout, visits.as_slice())),
    }
}

/// Mixing in some visits and then others is mixing in all of them.
pub proof fn law_mixes_in_two_steps<
    B,
    T,
    W,
    E,
    X: Fn(usize, &[B]) -> Result<Vec<T>, E>,
    A: Fn(T, W, T) -> T,
>(
    expert: X,
    mul_add: A,
    hidden_size: usize,
    input: Seq<B>,
    first: Seq<Dispatch<W>>,
    second: Seq<Dispatch<W>>,
    before: Seq<T>,
    middle: Seq<T>,
    after: Seq<T>,
)
    requires
        mixed(expert, mul_add, hidden_size, input, first, before, middle),
        mixed(expert, mul_add, hidden_size, input, second, middle, after),
    ensures
        mixed(expert, mul_add, hidden_size, input, first + second, before, after),
    decreases second.len(),
{
    if second.len() == 0 {
        assert(first + second =~= first);
    } else {
        let last = second.last();
        let (late, out) = lemma_last_mixed(
            expert,
            mul_add,
            hidden_size,
            input,
            second,
            middle,
            after,
        );
        law_mixes_in_two_steps(
            expert,
            mul_add,
            hidden_size,
            input,
            first,
            second.drop_last(),
            before,
            middle,
            late,
        );
        let all = first + second;
        assert(all.drop_last() =~= first + second.drop_last());
        assert(all.last() == last);
        assert(added(
            mul_add,
            all.last().offset,
            hidden_size,
            all.last().weight,
            out@,
            late,
            after,
        ));
    }
}

/// Visits change only the hidden states of the tokens that make them.
pub proof fn law_unvisited_states_are_kept<
    B,
    T,
    W,
    E,
    X: Fn(usize, &[B]) -> Result<Vec<T>, E>,
    A: Fn(T, W, T) -> T,
>(
    expert: X,
    mul_add: A,
    hidden_size: usize,
    input: Seq<B>,
    visits: Seq<Dispatch<W>>,
    before: Seq<T>,
    after: Seq<T>,
    i: int,
)
    requires
        mixed(expert, mul_add, hidden_size, input, visits, before, after),
        0 <= i < before.len(),
        forall|j: int|
            0 <= j < visits.len() ==> !((#[trigger] visits[j]).offset <= i < visits[j].offset
                + hidden_size),
    ensures
        after.len() == before.len(),
        after[i] == before[i],
    decreases visits.len(),
{
    if visits.len() > 0 {
        let last = visits.last();
        let (middle, out) = lemma_last_mixed(
            expert,
            mul_add,
            hidden_size,
            input,
            visits,
            before,
            after,
        );
        let rest = visits.drop_last();
        assert forall|j: int| 0 <= j < rest.len() implies !((#[trigger] rest[j]).offset <= i
            < rest[j].offset + hidden_size) by {
            assert(rest[j] == visits[j]);
        }
        law_unvisited_states_are_kept(
            expert,
            mul_add,
            hidden_size,
            input,
            rest,
            before,
            middle,
            i,
        );
        assert(visits[visits.len() - 1] == last);
    }
}

/// Where every routed expert has an owner, a mixture layer that succeeds counts
/// all routes of all its tokens.
pub proof fn law_mixture_counts_all_routes<
    L,
    B,
    T,
    W,
    E,
    P: Fn(&[L]) -> Vec<W>,
    K: Fn(W) -> u32,
    X: Fn(usize, &[B]) -> Result<Vec<T>, E>,
    A: Fn(T, W, T) -> T,
>(
    config: &Config,
    layout: &ExpertParallelLayout,
    softmax: P,
    rank: K,
    expert: X,
    mul_add: A,
    logits: Seq<L>,
    input: Seq<B>,
    seq_len: usize,
    before: Seq<T>,
    after: Seq<T>,
    counts: RouteCounts,
)
    requires
        layout.owners@.len() == config.n_routed_experts,
        seq_len * config.n_routed_experts <= logits.len(),
        layer_mixes(
            config,
            layout,
            softmax,
            rank,
            expert,
            mul_add,
            logits,
            input,
            seq_len,
            before,
            after,
            Ok::<RouteCounts, E>(counts),
        ),
    ensures
        counts.local + counts.remote == seq_len * routes_per_token(config),
{
    let routes = choose|routes: Seq<Vec<(usize, W)>>|
        {
            let visits = all_dispatches(config.hidden_size, routes, seq_len as nat);
            &&& routes.len() == seq_len
            &&& #[trigger] is_layer_routing(config, softmax, rank, logits, routes)
            &&& counts.local == local_count(layout, visits)
            &&& counts.remote == remote_count(layout, visits)
        };
    law_layer_counts_all_routes(config, layout, softmax, rank, logits, routes);
}

/// Mixing keeps the number of entries.
pub proof fn lemma_mixed_len<
    B,
    T,
    W,
    E,
    X: Fn(usize, &[B]) -> Result<Vec<T>, E>,
    A: Fn(T, W, T) -> T,
>(
    expert: X,
    mul_add: A,
    hidden_size: usize,
    input: Seq<B>,
    visits: Seq<Dispatch<W>>,
    before: Seq<T>,
    after: Seq<T>,
)
    requires
        mixed(expert, mul_add, hidden_size, input, visits, before, after),
    ensures
        after.len() == before.len(),
    decreases visits.len(),
{
    if visits.len() > 0 {
        let (middle, out) = lemma_last_mixed(
            expert,
            mul_add,
            hidden_size,
            input,
            visits,
            before,
            after,
        );
        lemma_mixed_len(expert, mul_add, hidden_size, input, visits.drop_last(), before, middle);
    }
}

/// The states before the last visit, and the output that it added.
pub proof fn lemma_last_mixed<
    B,
    T,
    W,
    E,
    X: Fn(usize, &[B]) -> Result<Vec<T>, E>,
    A: Fn(T, W, T) -> T,
>(
    expert: X,
    mul_add: A,
    hidden_size: usize,
    input: Seq<B>,
    visits: Seq<Dispatch<W>>,
    before: Seq<T>,
    after: Seq<T>,
) -> (last: (Seq<T>, Vec<T>))
    requires
        mixed(expert, mul_add, hidden_size, input, visits, before, after),
        visits.len() > 0,
    ensures
        mixed(expert, mul_add, hidden_size, input, visits.drop_last(), before, last.0),
        answered(expert, hidden_size, input, visits.last(), Ok::<Vec<T>, E>(last.1)),
        added(
            mul_add,
            visits.last().offset,
            hidden_size,
            visits.last().weight,
            last.1@,
            last.0,
            after,
        ),
{
    choose|middle: Seq<T>, out: Vec<T>|
        {
            &&& mixed(
                expert,
                mul_add,
                hidden_size,
                input,
                visits.drop_last(),
                before,
                middle,
            )
            &&& answered(expert, hidden_size, input, visits.last(), Ok::<Vec<T>, E>(out))
            &&& #[trigger] added(
                mul_add,
                visits.last().offset,
                hidden_size,
                visits.last().weight,
                out@,
                middle,
                after,
            )
        }
}

/// The visits that token `t` makes, as visits of the only token there is.
pub open spec fn own_visits<W>(visits: Seq<Dispatch<W>>, t: int) -> Seq<Dispatch<W>>
    decreases visits.len(),
{
    if visits.len() == 0 {
        Seq::empty()
    } else {
        let before = own_visits(visits.drop_last(), t);
        let last = visits.last();
        if last.token == t {
            before.push(Dispatch { token: 0, offset: 0, ..last })
        } else {
            before
        }
    }
}

/// A token's row of the mixed states comes from its own row of the input, its
/// own row of the states and its own visits alone: it is what mixing that row
/// by itself can give.
pub proof fn law_rows_are_mixed_alone<
    B,
    T,
    W,
    E,
    X: Fn(usize, &[B]) -> Result<Vec<T>, E>,
    A: Fn(T, W, T) -> T,
>(
    expert: X,
    mul_add: A,
    hidden_size: usize,
    input: Seq<B>,
    visits: Seq<Dispatch<W>>,
    before: Seq<T>,
    after: Seq<T>,
    t: int,
)
    requires
        mixed(expert, mul_add, hidden_size, input, visits, before, after),
        forall|j: int|
            0 <= j < visits.len() ==> (#[trigger] visits[j]).offset == visits[j].token
                * hidden_size,
        0 <= t,
        (t + 1) * hidden_size <= input.len(),
        (t + 1) * hidden_size <= before.len(),
    ensures
        after.len() == before.len(),
        mixed(
            expert,
            mul_add,
            hidden_size,
            row_of(input, hidden_size as nat, t),
            own_visits(visits, t),
            row_of(before, hidden_size as nat, t),
            row_of(after, hidden_size as nat, t),
        ),
    decreases visits.len(),
{
    let h = hidden_size as nat;
    lemma_mixed_len(expert, mul_add, hidden_size, input, visits, before, after);
    lemma_row_bounds(t + 1, h as int, t);
    if visits.len() > 0 {
        let last = visits.last();
        let rest = visits.drop_last();
        let (middle, out) = lemma_last_mixed(
            expert,
            mul_add,
            hidden_size,
            input,
            visits,
            before,
            after,
        );
        assert forall|j: int| 0 <= j < rest.len() implies (#[trigger] rest[j]).offset
            == rest[j].token * hidden_size by {
            assert(rest[j] == visits[j]);
        }
        law_rows_are_mixed_alone(
            expert,
            mul_add,
            hidden_size,
            input,
            rest,
            before,
            middle,
            t,
        );
        assert(last == visits[visits.len() - 1]);
        let own = own_visits(visits, t);
        let row = row_of(input, h, t);
        if last.token == t {
            assert(own.drop_last() =~= own_visits(rest, t));
            assert(row.subrange(0, h as int) =~= input.subrange(
                last.offset as int,
                last.offset + hidden_size,
            ));
            let asked = choose|x: &[B]|
                x@ == input.subrange(last.offset as int, last.offset + hidden_size)
                    && #[trigger] call_ensures(
                    expert,
                    (last.global_expert, x),
                    Ok::<Vec<T>, E>(out),
                );
            assert(own.last() == (Dispatch { token: 0, offset: 0, ..last }));
            assert(asked@ == row.subrange(own.last().offset as int, own.last().offset
                + hidden_size));
            assert(call_ensures(
                expert,
                (own.last().global_expert, asked),
                Ok::<Vec<T>, E>(out),
            ));
            assert(answered(expert, hidden_size, row, own.last(), Ok::<Vec<T>, E>(out)));
            assert(added(
                mul_add,
                own.last().offset,
                hidden_size,
                own.last().weight,
                out@,
                row_of(middle, h, t),
                row_of(after, h, t),
            )) by {
                assert forall|i: int| 0 <= i < h && i < out@.len() implies call_ensures(
                    mul_add,
                    (row_of(middle, h, t)[i], last.weight, out@[i - 0]),
                    #[trigger] row_of(after, h, t)[i],
                ) by {
                    assert(row_of(after, h, t)[i] == after[t * h + i]);
                }
            }
        } else {
            assert forall|i: int| 0 <= i < h implies #[trigger] row_of(after, h, t)[i] == row_of(
                middle,
                h,
                t,
            )[i] by {
                lemma_rows_apart(t, last.token as int, h as int, t * h + i);
                assert(row_of(after, h, t)[i] == after[t * h + i]);
            }
            assert(row_of(after, h, t) =~= row_of(middle, h, t));
        }
    }
}

/// Different rows have no entry in common.
proof fn lemma_rows_apart(t: int, u: int, width: int, k: int)
    requires
        t != u,
        0 <= width,
        t * width <= k < t * width + width,
    ensures
        !(u * width <= k < u * width + width),
{
    if t < u {
        assert(t * width + width <= u * width) by (nonlinear_arith)
            requires
                t + 1 <= u,
                0 <= width,
        ;
    } else {
        assert(u * width + width <= t * width) by (nonlinear_arith)
            requires
                u + 1 <= t,
                0 <= width,
        ;
    }
}

/// A token's own visits among more visits.
proof fn lemma_own_visits_added<W>(first: Seq<Dispatch<W>>, second: Seq<Dispatch<W>>, t: int)
    ensures
        own_visits(first + second, t) == own_visits(first, t) + own_visits(second, t),
    decreases second.len(),
{
    if second.len() == 0 {
        assert(first + second =~= first);
        assert(own_visits(first, t) + own_visits(second, t) =~= own_visits(first, t));
    } else {
        let all = first + second;
        assert(all.drop_last() =~= first + second.drop_last());
        assert(all.last() == second.last());
        lemma_own_visits_added(first, second.drop_last(), t);
        assert(own_visits(all, t) =~= own_visits(first, t) + own_visits(second, t));
    }
}

/// The visits of one token are its own and nobody else's.
proof fn lemma_own_visits_of_token<W>(
    hidden_size: usize,
    u: int,
    routes: Seq<(usize, W)>,
    n: nat,
    t: int,
)
    requires
        0 <= u <= usize::MAX,
        n <= routes.len(),
    ensures
        own_visits(token_dispatches(hidden_size, u, routes).take(n as int), t) == if t == u {
            token_dispatches(hidden_size, 0, routes).take(n as int)
        } else {
            Seq::empty()
        },
    decreases n,
{
    let visits = token_dispatches(hidden_size, u, routes).take(n as int);
    let alone = token_dispatches(hidden_size, 0, routes);
    if n > 0 {
        assert(visits.drop_last() =~= token_dispatches(hidden_size, u, routes).take(n - 1));
        lemma_own_visits_of_token(hidden_size, u, routes, (n - 1) as nat, t);
        assert(0 * hidden_size == 0) by (nonlinear_arith);
        assert(visits.last() == token_dispatches(hidden_size, u, routes)[n - 1]);
        assert(alone.take(n as int) =~= alone.take(n - 1).push(alone[n - 1]));
    } else {
        assert(alone.take(0) =~= Seq::empty());
    }
}

/// The own visits of token `t` among those of the first `n` tokens.
proof fn lemma_own_visits_of_layer<W>(
    hidden_size: usize,
    routes: Seq<Vec<(usize, W)>>,
    n: nat,
    t: int,
)
    requires
        n <= routes.len(),
        n <= usize::MAX,
        n * hidden_size <= usize::MAX,
    ensures
        own_visits(all_dispatches(hidden_size, routes, n), t) == if 0 <= t < n {
            token_dispatches(hidden_size, 0, routes[t]@)
        } else {
            Seq::empty()
        },
        forall|j: int|
            0 <= j < all_dispatches(hidden_size, routes, n).len() ==> (#[trigger] all_dispatches(
                hidden_size,
                routes,
                n,
            )[j]).offset == all_dispatches(hidden_size, routes, n)[j].token * hidden_size,
    decreases n,
{
    if n > 0 {
        let before = all_dispatches(hidden_size, routes, (n - 1) as nat);
        let list = all_dispatches(hidden_size, routes, n);
        let last = routes[n - 1]@;
        let visits = token_dispatches(hidden_size, n - 1, last);
        lemma_row_bounds(n as int, hidden_size as int, n - 1);
        lemma_own_visits_of_layer(hidden_size, routes, (n - 1) as nat, t);
        lemma_own_visits_added(before, visits, t);
        lemma_own_visits_of_token(hidden_size, n - 1, last, last.len(), t);
        assert(visits.take(last.len() as int) =~= visits);
        let alone = token_dispatches(hidden_size, 0, last);
        assert(alone.take(last.len() as int) =~= alone);
        assert(own_visits(list, t) =~= if 0 <= t < n {
            token_dispatches(hidden_size, 0, routes[t]@)
        } else {
            Seq::empty()
        });
        assert forall|j: int| 0 <= j < list.len() implies (#[trigger] list[j]).offset
            == list[j].token * hidden_size by {
            if j < before.len() {
                assert(list[j] == before[j]);
            } else {
                assert(list[j] == visits[j - before.len()]);
            }
        }
    }
}

/// No more visits are counted than there are.
proof fn lemma_counts_bounded<W>(layout: &ExpertParallelLayout, visits: Seq<Dispatch<W>>)
    ensures
        local_count(layout, visits) <= visits.len(),
        remote_count(layout, visits) <= visits.len(),
    decreases visits.len(),
{
    if visits.len() > 0 {
        lemma_counts_bounded(layout, visits.drop_last());
    }
}

/// What a mixture layer does to a token depends on that token alone: its row
/// is what the layer can give for this token by itself, with its row of router
/// logits, its row of the input and its row of the states.
pub proof fn law_tokens_are_mixed_alone<
    L,
    B,
    T,
    W,
    E,
    P: Fn(&[L]) -> Vec<W>,
    K: Fn(W) -> u32,
    X: Fn(usize, &[B]) -> Result<Vec<T>, E>,
    A: Fn(T, W, T) -> T,
>(
    config: &Config,
    layout: &ExpertParallelLayout,
    softmax: P,
    rank: K,
    expert: X,
    mul_add: A,
    logits: Seq<L>,
    input: Seq<B>,
    seq_len: usize,
    before: Seq<T>,
    after: Seq<T>,
    counts: RouteCounts,
    t: int,
)
    requires
        seq_len * config.n_routed_experts <= logits.len(),
        seq_len * config.hidden_size <= input.len(),
        seq_len * config.hidden_size <= before.len(),
        seq_len * config.hidden_size <= usize::MAX,
        layer_mixes(
            config,
            layout,
            softmax,
            rank,
            expert,
            mul_add,
            logits,
            input,
            seq_len,
            before,
            after,
            Ok::<RouteCounts, E>(counts),
        ),
        0 <= t < seq_len,
    ensures
        after.len() == before.len(),
        exists|own_counts: RouteCounts|
            #[trigger] layer_mixes(
                config,
                layout,
                softmax,
                rank,
                expert,
                mul_add,
                row_of(logits, config.n_routed_experts as nat, t),
                row_of(input, config.hidden_size as nat, t),
                1,
                row_of(before, config.hidden_size as nat, t),
                row_of(after, config.hidden_size as nat, t),
                Ok::<RouteCounts, E>(own_counts),
            ),
{
    let h = config.hidden_size;
    let n = config.n_routed_experts as nat;
    let routes = choose|routes: Seq<Vec<(usize, W)>>|
        {
            &&& routes.len() == seq_len
            &&& #[trigger] is_layer_routing(config, softmax, rank, logits, routes)
            &&& mixed(
                expert,
                mul_add,
                h,
                input,
                all_dispatches(h, routes, seq_len as nat),
                before,
                after,
            )
        };
    let visits = all_dispatches(h, routes, seq_len as nat);
    lemma_row_bounds(seq_len as int, h as int, t);
    lemma_row_bounds(seq_len as int, n as int, t);
    lemma_own_visits_of_layer(h, routes, seq_len as nat, t);
    law_rows_are_mixed_alone(expert, mul_add, h, input, visits, before, after, t);

    let own_routes = seq![routes[t]];
    let own_logits = row_of(logits, n, t);
    let own = all_dispatches(h, own_routes, 1);
    assert(own =~= token_dispatches(h, 0, routes[t]@)) by {
        assert(all_dispatches(h, own_routes, 0) =~= Seq::empty());
        assert(own == all_dispatches(h, own_routes, 0) + token_dispatches(h, 0, own_routes[0]@));
    }
    assert(is_layer_routing(config, softmax, rank, own_logits, own_routes)) by {
        assert(0 * n == 0) by (nonlinear_arith);
        assert(row_of(own_logits, n, 0) =~= own_logits);
        assert(own_routes[0]@ == routes[t]@);
    }
    lemma_counts_bounded(layout, own);
    assert(own.len() == routes[t].len());
    let own_counts = RouteCounts {
        local: local_count(layout, own) as usize,
        remote: remote_count(layout, own) as usize,
    };
    assert(layer_mixes(
        config,
        layout,
        softmax,
        rank,
        expert,
        mul_add,
        own_logits,
        row_of(input, h as nat, t),
        1,
        row_of(before, h as nat, t),
        row_of(after, h as nat, t),
        Ok::<RouteCounts, E>(own_counts),
    ));
}

} // verus!
