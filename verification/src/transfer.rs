//! Hidden states on their way between host and device.
//!
//! The device is a parameter: a `Transfers` value activates it, copies buffers
//! in both directions and waits for it. `D` stands for a buffer on the device,
//! `B` for an entry of it and `F` for an entry that the host computes with.
use vstd::prelude::*;

use crate::error::TransferError;
#[allow(unused_imports)]
use crate::error::HostError;
use crate::host_ops::check_hidden_len;

verus! {

/// Hidden states on a device, `seq_len` rows of `hidden_dim` entries.
pub struct HiddenStates<D> {
    /// Where they are.
    pub data: D,
    /// Entries of a row.
    pub hidden_dim: usize,
    /// Number of rows.
    pub seq_len: usize,
}

/// What can be done with a device.
pub struct Transfers<FA, FU, FD, FY> {
    /// Makes it the current one.
    pub activate: FA,
    /// Copies entries to it.
    pub upload: FU,
    /// Copies a buffer from it.
    pub download: FD,
    /// Waits until it has done all that it was asked for.
    pub sync: FY,
}

/// What copying hidden states to the host can give: the device is activated,
/// the buffer is copied and the device is waited for, and the first failure
/// ends it.
pub open spec fn to_host_outcome<
    C,
    B,
    D,
    E,
    FA: Fn(&C) -> Result<(), E>,
    FU,
    FD: Fn(&C, &D) -> Result<Vec<B>, E>,
    FY: Fn(&C) -> Result<(), E>,
>(
    device: Transfers<FA, FU, FD, FY>,
    ctx: C,
    hidden: HiddenStates<D>,
    result: Result<Vec<B>, E>,
) -> bool {
    exists|active: Result<(), E>|
        {
            &&& #[trigger] call_ensures(device.activate, (&ctx,), active)
            &&& match active {
                Err(error) => result == Err::<Vec<B>, E>(error),
                Ok(()) => exists|copied: Result<Vec<B>, E>|
                    {
                        &&& #[trigger] call_ensures(
                            device.download,
                            (&ctx, &hidden.data),
                            copied,
                        )
                        &&& match copied {
                            Err(error) => result == Err::<Vec<B>, E>(error),
                            Ok(copied) => exists|synced: Result<(), E>|
                                {
                                    &&& #[trigger] call_ensures(device.sync, (&ctx,), synced)
                                    &&& match synced {
                                        Err(error) => result == Err::<Vec<B>, E>(error),
                                        Ok(()) => result == Ok::<Vec<B>, E>(copied),
                                    }
                                },
                        }
                    },
            }
        }
}

/// Copies hidden states to the host as they are.
pub fn hidden_to_bf16<
    C,
    B,
    D,
    E,
    FA: Fn(&C) -> Result<(), E>,
    FU,
    FD: Fn(&C, &D) -> Result<Vec<B>, E>,
    FY: Fn(&C) -> Result<(), E>,
>(device: &Transfers<FA, FU, FD, FY>, ctx: &C, hidden: &HiddenStates<D>) -> (result: Result<
    Vec<B>,
    E,
>)
    requires
        call_requires(device.activate, (ctx,)),
        forall|d: &D| #[trigger] call_requires(device.download, (ctx, d)),
        call_requires(device.sync, (ctx,)),
    ensures
        to_host_outcome(*device, *ctx, *hidden, result),
{
    match (device.activate)(ctx) {
        Ok(()) => {},
        Err(error) => {
            return Err(error);
        },
    }
    let copied: Vec<B> = match (device.download)(ctx, &hidden.data) {
        Ok(copied) => copied,
        Err(error) => {
            return Err(error);
        },
    };
    match (device.sync)(ctx) {
        Ok(()) => Ok(copied),
        Err(error) => Err(error),
    }
}

/// `after` is what converting each entry of `before` can give.
pub open spec fn converted<X, Y, F: Fn(X) -> Y>(
    convert: F,
    before: Seq<X>,
    after: Seq<Y>,
) -> bool {
    &&& after.len() == before.len()
    &&& forall|i: int|
        0 <= i < before.len() ==> call_ensures(convert, (before[i],), #[trigger] after[i])
}

/// Converts each entry.
fn convert_all<X: Copy, Y, F: Fn(X) -> Y>(entries: &[X], convert: &F) -> (out: Vec<Y>)
    requires
        forall|x: X| #[trigger] call_requires(*convert, (x,)),
    ensures
        converted(*convert, entries@, out@),
{
    let n: usize = entries.len();
    let mut out: Vec<Y> = Vec::new();
    while out.len() < n
        invariant
            n == entries@.len(),
            out@.len() <= n,
            forall|x: X| #[trigger] call_requires(*convert, (x,)),
            forall|i: int|
                0 <= i < out@.len() ==> call_ensures(
                    *convert,
                    (entries@[i],),
                    #[trigger] out@[i],
                ),
        decreases n - out@.len(),
    {
        let entry: Y = convert(entries[out.len()]);
        out.push(entry);
    }
    out
}

/// What copying hidden states to the host for computing can give.
pub open spec fn to_host_widened<
    C,
    B,
    D,
    E,
    F,
    FA: Fn(&C) -> Result<(), E>,
    FU,
    FD: Fn(&C, &D) -> Result<Vec<B>, E>,
    FY: Fn(&C) -> Result<(), E>,
    W: Fn(B) -> F,
>(
    device: Transfers<FA, FU, FD, FY>,
    ctx: C,
    hidden: HiddenStates<D>,
    widen: W,
    result: Result<Vec<F>, E>,
) -> bool {
    exists|raw: Result<Vec<B>, E>|
        {
            &&& #[trigger] to_host_outcome(device, ctx, hidden, raw)
            &&& match raw {
                Err(error) => result == Err::<Vec<F>, E>(error),
                Ok(raw) => result matches Ok(entries) && converted(widen, raw@, entries@),
            }
        }
}

/// Copies hidden states to the host, each entry widened for computing.
pub fn hidden_to_f32<
    C,
    B: Copy,
    D,
    E,
    F,
    FA: Fn(&C) -> Result<(), E>,
    FU,
    FD: Fn(&C, &D) -> Result<Vec<B>, E>,
    FY: Fn(&C) -> Result<(), E>,
    W: Fn(B) -> F,
>(
    device: &Transfers<FA, FU, FD, FY>,
    ctx: &C,
    hidden: &HiddenStates<D>,
    widen: W,
) -> (result: Result<Vec<F>, E>)
    requires
        call_requires(device.activate, (ctx,)),
        forall|d: &D| #[trigger] call_requires(device.download, (ctx, d)),
        call_requires(device.sync, (ctx,)),
        forall|b: B| #[trigger] call_requires(widen, (b,)),
    ensures
        to_host_widened(*device, *ctx, *hidden, widen, result),
{
    match hidden_to_bf16(device, ctx, hidden) {
        Ok(raw) => Ok(convert_all(raw.as_slice(), &widen)),
        Err(error) => Err(error),
    }
}

/// Copying these entries to the device can give `uploaded`.
pub open spec fn uploads<C, B, D, E, FU: Fn(&C, &[B]) -> Result<D, E>>(
    upload: FU,
    ctx: C,
    data: Seq<B>,
    uploaded: Result<D, E>,
) -> bool {
    exists|x: &[B]| x@ == data && #[trigger] call_ensures(upload, (&ctx, x), uploaded)
}

/// What putting host data on the device as `seq_len` rows of `hidden_dim`
/// entries can give: the device is activated, data of another length is
/// refused, and the data is copied; the first failure ends it.
pub open spec fn from_host_outcome<
    C,
    B,
    D,
    E,
    FA: Fn(&C) -> Result<(), E>,
    FU: Fn(&C, &[B]) -> Result<D, E>,
    FD,
    FY,
>(
    device: Transfers<FA, FU, FD, FY>,
    ctx: C,
    data: Seq<B>,
    hidden_dim: usize,
    seq_len: usize,
    result: Result<HiddenStates<D>, TransferError<E>>,
) -> bool {
    exists|active: Result<(), E>|
        {
            &&& #[trigger] call_ensures(device.activate, (&ctx,), active)
            &&& match active {
                Err(error) => result == Err::<HiddenStates<D>, TransferError<E>>(
                    TransferError::Device(error),
                ),
                Ok(()) => if data.len() != hidden_dim * seq_len {
                    result == Err::<HiddenStates<D>, TransferError<E>>(
                        TransferError::Host(
                            HostError::HiddenLen {
                                got: data.len() as usize,
                                expected: (hidden_dim * seq_len) as usize,
                            },
                        ),
                    )
                } else {
                    exists|uploaded: Result<D, E>|
                        {
                            &&& #[trigger] uploads(device.upload, ctx, data, uploaded)
                            &&& match uploaded {
                                Err(error) => result == Err::<HiddenStates<D>, TransferError<E>>(
                                    TransferError::Device(error),
                                ),
                                Ok(data) => result == Ok::<HiddenStates<D>, TransferError<E>>(
                                    HiddenStates { data, hidden_dim, seq_len },
                                ),
                            }
                        }
                },
            }
        }
}

/// Puts host data on the device as it is.
pub fn hidden_from_bf16_host<
    C,
    B,
    D,
    E,
    FA: Fn(&C) -> Result<(), E>,
    FU: Fn(&C, &[B]) -> Result<D, E>,
    FD,
    FY,
>(
    device: &Transfers<FA, FU, FD, FY>,
    ctx: &C,
    data: &[B],
    hidden_dim: usize,
    seq_len: usize,
) -> (result: Result<HiddenStates<D>, TransferError<E>>)
    requires
        hidden_dim * seq_len <= usize::MAX,
        call_requires(device.activate, (ctx,)),
        forall|x: &[B]| #[trigger] call_requires(device.upload, (ctx, x)),
    ensures
        from_host_outcome(*device, *ctx, data@, hidden_dim, seq_len, result),
{
    match (device.activate)(ctx) {
        Ok(()) => {},
        Err(error) => {
            return Err(TransferError::Device(error));
        },
    }
    match check_hidden_len(data.len(), hidden_dim, seq_len) {
        Ok(()) => {},
        Err(error) => {
            return Err(TransferError::Host(error));
        },
    }
    let uploaded: Result<D, E> = (device.upload)(ctx, data);
    assert(uploads(device.upload, *ctx, data@, uploaded));
    match uploaded {
        Ok(data) => Ok(HiddenStates { data, hidden_dim, seq_len }),
        Err(error) => Err(TransferError::Device(error)),
    }
}

/// What putting computed host data on the device can give.
pub open spec fn from_host_narrowed<
    C,
    B,
    D,
    E,
    F,
    FA: Fn(&C) -> Result<(), E>,
    FU: Fn(&C, &[B]) -> Result<D, E>,
    FD,
    FY,
    N: Fn(F) -> B,
>(
    device: Transfers<FA, FU, FD, FY>,
    ctx: C,
    data: Seq<F>,
    hidden_dim: usize,
    seq_len: usize,
    narrow: N,
    result: Result<HiddenStates<D>, TransferError<E>>,
) -> bool {
    exists|raw: Seq<B>|
        {
            &&& #[trigger] converted(narrow, data, raw)
            &&& from_host_outcome(device, ctx, raw, hidden_dim, seq_len, result)
        }
}

/// Puts computed host data on the device, each entry narrowed first.
pub fn hidden_from_f32_host<
    C,
    B,
    D,
    E,
    F: Copy,
    FA: Fn(&C) -> Result<(), E>,
    FU: Fn(&C, &[B]) -> Result<D, E>,
    FD,
    FY,
    N: Fn(F) -> B,
>(
    device: &Transfers<FA, FU, FD, FY>,
    ctx: &C,
    data: &[F],
    hidden_dim: usize,
    seq_len: usize,
    narrow: N,
) -> (result: Result<HiddenStates<D>, TransferError<E>>)
    requires
        hidden_dim * seq_len <= usize::MAX,
        call_requires(device.activate, (ctx,)),
        forall|x: &[B]| #[trigger] call_requires(device.upload, (ctx, x)),
        forall|f: F| #[trigger] call_requires(narrow, (f,)),
    ensures
        from_host_narrowed(*device, *ctx, data@, hidden_dim, seq_len, narrow, result),
{
    let raw: Vec<B> = convert_all(data, &narrow);
    hidden_from_bf16_host(device, ctx, raw.as_slice(), hidden_dim, seq_len)
}

/// The device hands back what was copied to it.
pub open spec fn copies_back<
    C,
    B,
    D,
    E,
    FA,
    FU: Fn(&C, &[B]) -> Result<D, E>,
    FD: Fn(&C, &D) -> Result<Vec<B>, E>,
    FY,
>(device: Transfers<FA, FU, FD, FY>, ctx: C) -> bool {
    forall|x: &[B], d: D, v: Vec<B>|
        #[trigger] call_ensures(device.upload, (&ctx, x), Ok::<D, E>(d))
            && #[trigger] call_ensures(device.download, (&ctx, &d), Ok::<Vec<B>, E>(v)) ==> v@
            == x@
}

/// Host data that was put on a device and copied back is what it was, entry by
/// entry, and in between it has the given shape; where the device hands back
/// what was copied to it.
pub proof fn law_round_trip_keeps_entries<
    C,
    B,
    D,
    E,
    FA: Fn(&C) -> Result<(), E>,
    FU: Fn(&C, &[B]) -> Result<D, E>,
    FD: Fn(&C, &D) -> Result<Vec<B>, E>,
    FY: Fn(&C) -> Result<(), E>,
>(
    device: Transfers<FA, FU, FD, FY>,
    ctx: C,
    data: Seq<B>,
    hidden_dim: usize,
    seq_len: usize,
    hidden: HiddenStates<D>,
    back: Vec<B>,
)
    requires
        copies_back(device, ctx),
        from_host_outcome(
            device,
            ctx,
            data,
            hidden_dim,
            seq_len,
            Ok::<HiddenStates<D>, TransferError<E>>(hidden),
        ),
        to_host_outcome(device, ctx, hidden, Ok::<Vec<B>, E>(back)),
    ensures
        hidden.hidden_dim == hidden_dim,
        hidden.seq_len == seq_len,
        data.len() == hidden_dim * seq_len,
        back@ == data,
{
    assert(uploads(device.upload, ctx, data, Ok::<D, E>(hidden.data)));
    let x = choose|x: &[B]|
        x@ == data && #[trigger] call_ensures(device.upload, (&ctx, x), Ok::<D, E>(hidden.data));
    assert(call_ensures(device.download, (&ctx, &hidden.data), Ok::<Vec<B>, E>(back)));
}

/// Where the device does not fail, host data is accepted exactly if it has the
/// length of the rows it is to be.
pub proof fn law_length_decides<
    C,
    B,
    D,
    E,
    FA: Fn(&C) -> Result<(), E>,
    FU: Fn(&C, &[B]) -> Result<D, E>,
    FD,
    FY,
>(
    device: Transfers<FA, FU, FD, FY>,
    ctx: C,
    data: Seq<B>,
    hidden_dim: usize,
    seq_len: usize,
    result: Result<HiddenStates<D>, TransferError<E>>,
)
    requires
        forall|active: Result<(), E>|
            #[trigger] call_ensures(device.activate, (&ctx,), active) ==> active is Ok,
        forall|uploaded: Result<D, E>|
            #[trigger] uploads(device.upload, ctx, data, uploaded) ==> uploaded is Ok,
        from_host_outcome(device, ctx, data, hidden_dim, seq_len, result),
    ensures
        result is Ok <==> data.len() == hidden_dim * seq_len,
        result matches Ok(hidden) ==> hidden.hidden_dim == hidden_dim && hidden.seq_len == seq_len,
{
}

/// What comes back from the device is its copy of the states' own buffer, and a
/// failure is one of activating, copying or waiting.
pub proof fn law_copied_to_host<
    C,
    B,
    D,
    E,
    FA: Fn(&C) -> Result<(), E>,
    FU,
    FD: Fn(&C, &D) -> Result<Vec<B>, E>,
    FY: Fn(&C) -> Result<(), E>,
>(
    device: Transfers<FA, FU, FD, FY>,
    ctx: C,
    bad: spec_fn(E) -> bool,
    hidden: HiddenStates<D>,
    result: Result<Vec<B>, E>,
)
    requires
        forall|error: E|
            #[trigger] call_ensures(device.activate, (&ctx,), Err::<(), E>(error)) ==> bad(error),
        forall|d: &D, error: E|
            #[trigger] call_ensures(device.download, (&ctx, d), Err::<Vec<B>, E>(error)) ==> bad(
                error,
            ),
        forall|error: E|
            #[trigger] call_ensures(device.sync, (&ctx,), Err::<(), E>(error)) ==> bad(error),
        to_host_outcome(device, ctx, hidden, result),
    ensures
        result matches Ok(copied) ==> {
            &&& exists|active: Result<(), E>|
                active is Ok && #[trigger] call_ensures(device.activate, (&ctx,), active)
            &&& call_ensures(device.download, (&ctx, &hidden.data), Ok::<Vec<B>, E>(copied))
            &&& exists|synced: Result<(), E>|
                synced is Ok && #[trigger] call_ensures(device.sync, (&ctx,), synced)
        },
        result matches Err(error) ==> bad(error),
{
}

/// Widened states are the copied states, each entry widened in its place.
pub proof fn law_widened_entries<
    C,
    B,
    D,
    E,
    F,
    FA: Fn(&C) -> Result<(), E>,
    FU,
    FD: Fn(&C, &D) -> Result<Vec<B>, E>,
    FY: Fn(&C) -> Result<(), E>,
    W: Fn(B) -> F,
>(
    device: Transfers<FA, FU, FD, FY>,
    ctx: C,
    hidden: HiddenStates<D>,
    widen: W,
    result: Result<Vec<F>, E>,
) -> (raw: Result<Vec<B>, E>)
    requires
        to_host_widened(device, ctx, hidden, widen, result),
    ensures
        to_host_outcome(device, ctx, hidden, raw),
        raw matches Err(error) ==> result == Err::<Vec<F>, E>(error),
        raw matches Ok(copied) ==> (result matches Ok(entries) && entries@.len() == copied@.len()
            && forall|i: int|
            0 <= i < copied@.len() ==> call_ensures(
                widen,
                (copied@[i],),
                #[trigger] entries@[i],
            )),
{
    choose|raw: Result<Vec<B>, E>|
        {
            &&& #[trigger] to_host_outcome(device, ctx, hidden, raw)
            &&& match raw {
                Err(error) => result == Err::<Vec<F>, E>(error),
                Ok(raw) => result matches Ok(entries) && converted(widen, raw@, entries@),
            }
        }
}

/// What is put on the device is the host data, in the given shape; data of
/// another length is refused with both lengths, and any other failure is one of
/// activating or copying.
pub proof fn law_put_on_device<
    C,
    B,
    D,
    E,
    FA: Fn(&C) -> Result<(), E>,
    FU: Fn(&C, &[B]) -> Result<D, E>,
    FD,
    FY,
>(
    device: Transfers<FA, FU, FD, FY>,
    ctx: C,
    bad: spec_fn(E) -> bool,
    data: Seq<B>,
    hidden_dim: usize,
    seq_len: usize,
    result: Result<HiddenStates<D>, TransferError<E>>,
)
    requires
        forall|error: E|
            #[trigger] call_ensures(device.activate, (&ctx,), Err::<(), E>(error)) ==> bad(error),
        forall|x: &[B], error: E|
            #[trigger] call_ensures(device.upload, (&ctx, x), Err::<D, E>(error)) ==> bad(error),
        from_host_outcome(device, ctx, data, hidden_dim, seq_len, result),
    ensures
        result matches Ok(hidden) ==> {
            &&& hidden.hidden_dim == hidden_dim
            &&& hidden.seq_len == seq_len
            &&& data.len() == hidden_dim * seq_len
            &&& exists|x: &[B]|
                x@ == data && #[trigger] call_ensures(
                    device.upload,
                    (&ctx, x),
                    Ok::<D, E>(hidden.data),
                )
        },
        result matches Err(TransferError::Host(error)) ==> data.len() != hidden_dim * seq_len
            && error == (HostError::HiddenLen {
            got: data.len() as usize,
            expected: (hidden_dim * seq_len) as usize,
        }),
        result matches Err(TransferError::Device(error)) ==> bad(error),
{
    match result {
        Ok(hidden) => {
            assert(uploads(device.upload, ctx, data, Ok::<D, E>(hidden.data)));
        },
        Err(_) => {},
    }
}

/// Narrowed data is put on the device with each entry narrowed in its place.
pub proof fn law_narrowed_entries<
    C,
    B,
    D,
    E,
    F,
    FA: Fn(&C) -> Result<(), E>,
    FU: Fn(&C, &[B]) -> Result<D, E>,
    FD,
    FY,
    N: Fn(F) -> B,
>(
    device: Transfers<FA, FU, FD, FY>,
    ctx: C,
    data: Seq<F>,
    hidden_dim: usize,
    seq_len: usize,
    narrow: N,
    result: Result<HiddenStates<D>, TransferError<E>>,
) -> (raw: Seq<B>)
    requires
        from_host_narrowed(device, ctx, data, hidden_dim, seq_len, narrow, result),
    ensures
        raw.len() == data.len(),
        forall|i: int|
            0 <= i < data.len() ==> call_ensures(narrow, (data[i],), #[trigger] raw[i]),
        from_host_outcome(device, ctx, raw, hidden_dim, seq_len, result),
{
    choose|raw: Seq<B>|
        {
            &&& #[trigger] converted(narrow, data, raw)
            &&& from_host_outcome(device, ctx, raw, hidden_dim, seq_len, result)
        }
}

} // verus!
