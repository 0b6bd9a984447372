//! What a caller of the engine sees: load options, model facts, the reason why
//! a generation ended, and when an engine takes requests.
use vstd::prelude::*;

verus! {

/// Declares `std::path::PathBuf`, which is carried through and never looked into.
#[verifier::external_type_specification]
#[verifier::external_body]
pub struct ExPathBuf(std::path::PathBuf);

/// Admits `Clone::clone` of `std::path::PathBuf`, which the derived clones of
/// the types with a path call. Nothing is claimed of the copy.
pub assume_specification[ <std::path::PathBuf as Clone>::clone ](
    path: &std::path::PathBuf,
) -> (copy: std::path::PathBuf);

/// How an engine is to be loaded.
#[derive(Clone, Debug)]
pub struct EngineLoadOptions {
    /// Whether decode steps are captured as device graphs.
    pub enable_cuda_graph: bool,
    /// Whether prefill steps are profiled.
    pub enable_prefill_profile: bool,
    /// The devices, one per rank.
    pub device_ordinals: Vec<usize>,
    /// Seed of the sampler.
    pub seed: u64,
}

impl Default for EngineLoadOptions {
    /// One device with captured graphs, no profile, and a fixed seed.
    fn default() -> (options: Self)
        ensures
            options.enable_cuda_graph,
            !options.enable_prefill_profile,
            options.device_ordinals@ == seq![0usize],
            options.seed == 42,
    {
        EngineLoadOptions {
            enable_cuda_graph: true,
            enable_prefill_profile: false,
            device_ordinals: vec![0],
            seed: 42,
        }
    }
}

/// What is known of a loaded model.
#[derive(Clone, Debug)]
pub struct ModelInfo {
    /// Its identifier.
    pub id: &'static str,
    /// Its name for display.
    pub display_name: String,
    /// Where it was loaded from.
    pub model_path: std::path::PathBuf,
    /// The longest context that it takes, where there is a limit.
    pub max_model_len: Option<u32>,
}

/// Why a generation ended.
#[derive(Clone, Copy, Debug, Eq, PartialEq, Structural)]
pub enum FinishReason {
    /// All tokens that were asked for have been generated.
    Length,
    /// The model gave the stop token.
    Stop,
    /// The generation failed.
    Error,
}

/// What becomes of a request.
#[derive(Clone, Copy, Debug, Eq, PartialEq, Structural)]
pub enum Submission {
    /// It is sent to the engine.
    Send,
    /// It is handed back to the caller.
    HandBack,
}

/// One thing that the end of an engine does.
#[derive(Clone, Copy, Debug, Eq, PartialEq, Structural)]
pub enum ShutdownStep {
    /// Close the channel that requests are sent on.
    CloseChannel,
    /// Wait for the engine thread to return.
    JoinThread,
}

/// What the end of an engine has to do.
#[derive(Clone, Copy, Debug, Eq, PartialEq, Structural)]
pub struct Shutdown {
    /// Close the channel that requests are sent on.
    pub close_channel: bool,
    /// Wait for the engine thread to return.
    pub join_thread: bool,
}

impl Shutdown {
    /// What is to be done, in order: the channel is closed before the thread is
    /// waited for, since the thread returns only when no more requests can come.
    pub open spec fn in_order(self) -> Seq<ShutdownStep> {
        (if self.close_channel {
            seq![ShutdownStep::CloseChannel]
        } else {
            Seq::empty()
        }) + (if self.join_thread {
            seq![ShutdownStep::JoinThread]
        } else {
            Seq::empty()
        })
    }

    /// What is to be done, in order.
    pub fn steps(&self) -> (steps: Vec<ShutdownStep>)
        ensures
            steps@ == self.in_order(),
    {
        let mut steps: Vec<ShutdownStep> = Vec::new();
        if self.close_channel {
            steps.push(ShutdownStep::CloseChannel);
        }
        if self.join_thread {
            steps.push(ShutdownStep::JoinThread);
        }
        assert(steps@ =~= self.in_order());
        steps
    }
}

/// What the last handle of an engine still owns.
#[derive(Clone, Copy, Debug, Eq, PartialEq, Structural)]
pub struct EngineOwnership {
    /// The sending end of the request channel.
    pub channel: bool,
    /// The engine thread.
    pub thread: bool,
}

impl EngineOwnership {
    /// What an engine owns that was shut down.
    pub open spec fn nothing() -> EngineOwnership {
        EngineOwnership { channel: false, thread: false }
    }

    /// What is to be done with what is owned. The engine thread does not wait
    /// for itself.
    pub open spec fn ended(self, on_engine_thread: bool) -> Shutdown {
        Shutdown {
            close_channel: self.channel,
            join_thread: self.thread && !on_engine_thread,
        }
    }

    /// A new engine owns its channel, and its thread where it was given one.
    pub fn new(thread: bool) -> (owned: Self)
        ensures
            owned == (EngineOwnership { channel: true, thread }),
    {
        EngineOwnership { channel: true, thread }
    }

    /// A request is sent while the channel is owned and handed back afterwards.
    pub fn submission(&self) -> (submission: Submission)
        ensures
            submission == (if self.channel {
                Submission::Send
            } else {
                Submission::HandBack
            }),
    {
        if self.channel {
            Submission::Send
        } else {
            Submission::HandBack
        }
    }

    /// Gives everything up: the channel is closed first, then an owned thread
    /// is waited for, unless the engine thread itself is giving up the engine.
    pub fn shut_down(&mut self, on_engine_thread: bool) -> (shutdown: Shutdown)
        ensures
            *final(self) == EngineOwnership::nothing(),
            shutdown == old(self).ended(on_engine_thread),
    {
        let shutdown = Shutdown {
            close_channel: self.channel,
            join_thread: self.thread && !on_engine_thread,
        };
        self.channel = false;
        self.thread = false;
        shutdown
    }
}

/// An engine that is shut down while it takes requests closes its channel
/// first of all, and whatever it waits for it waits for afterwards.
pub proof fn law_channel_closes_before_the_wait(owned: EngineOwnership, on_engine_thread: bool)
    requires
        owned.channel,
    ensures
        ({
            let steps = owned.ended(on_engine_thread).in_order();
            &&& steps[0] == ShutdownStep::CloseChannel
            &&& steps.contains(ShutdownStep::JoinThread) <==> owned.thread && !on_engine_thread
            &&& forall|i: int|
                0 <= i < steps.len() && #[trigger] steps[i] == ShutdownStep::JoinThread ==> i == 1
            &&& steps.len() <= 2
        }),
{
    let steps = owned.ended(on_engine_thread).in_order();
    if owned.thread && !on_engine_thread {
        assert(steps[1] == ShutdownStep::JoinThread);
    }
}

/// An engine is shut down once: a second end has nothing to do.
pub proof fn law_engine_ends_once(on_engine_thread: bool)
    ensures
        EngineOwnership::nothing().ended(on_engine_thread).in_order() == Seq::<
            ShutdownStep,
        >::empty(),
{
    assert(EngineOwnership::nothing().ended(on_engine_thread).in_order() =~= Seq::<
        ShutdownStep,
    >::empty());
}

/// A request channel and the thread that serves it, as far as shutting down is
/// concerned.
pub struct Serving {
    /// Number of senders that the channel has.
    pub senders: nat,
    /// Number of requests that were sent and not received yet.
    pub queued: nat,
    /// Whether the thread has returned.
    pub returned: bool,
}

impl Serving {
    /// One move of a thread that serves requests until the channel ends: it
    /// receives a request, or returns where none is left and no sender is, or
    /// waits for one.
    pub open spec fn moved(self) -> Serving {
        if self.returned {
            self
        } else if self.queued > 0 {
            Serving { queued: (self.queued - 1) as nat, ..self }
        } else if self.senders == 0 {
            Serving { returned: true, ..self }
        } else {
            self
        }
    }

    /// `n` moves of the thread.
    pub open spec fn after(self, n: nat) -> Serving
        decreases n,
    {
        if n == 0 {
            self
        } else {
            self.after((n - 1) as nat).moved()
        }
    }

    /// Whether the thread returns after some number of moves, without anything
    /// being done to the channel.
    pub open spec fn will_return(self) -> bool {
        exists|n: nat| (#[trigger] self.after(n)).returned
    }

    /// What a step of a shutdown leads to: a sender less, or the thread
    /// returned; nothing where the step waits for ever.
    pub open spec fn done(self, step: ShutdownStep) -> Option<Serving> {
        match step {
            ShutdownStep::CloseChannel => if self.senders > 0 {
                Some(Serving { senders: (self.senders - 1) as nat, ..self })
            } else {
                Some(self)
            },
            ShutdownStep::JoinThread => if self.will_return() {
                Some(self.after(choose|n: nat| (#[trigger] self.after(n)).returned))
            } else {
                None
            },
        }
    }

    /// What the steps of a shutdown lead to, one after the other.
    pub open spec fn all_done(self, steps: Seq<ShutdownStep>) -> Option<Serving>
        decreases steps.len(),
    {
        if steps.len() == 0 {
            Some(self)
        } else {
            match self.all_done(steps.drop_last()) {
                Some(before) => before.done(steps.last()),
                None => None,
            }
        }
    }
}

/// A thread without senders receives what is queued, and then returns.
proof fn lemma_queue_is_drained(serving: Serving, n: nat)
    requires
        serving.senders == 0,
        !serving.returned,
    ensures
        n <= serving.queued ==> serving.after(n) == (Serving {
            queued: (serving.queued - n) as nat,
            ..serving
        }),
        serving.after(n).returned <==> n > serving.queued,
        serving.after(n).returned ==> serving.after(n).queued == 0,
        serving.after(n).senders == 0,
    decreases n,
{
    if n > 0 {
        lemma_queue_is_drained(serving, (n - 1) as nat);
    }
}

/// A thread whose channel has a sender does not return.
proof fn lemma_sender_keeps_thread(serving: Serving, n: nat)
    requires
        serving.senders > 0,
        !serving.returned,
    ensures
        !serving.after(n).returned,
        serving.after(n).senders == serving.senders,
    decreases n,
{
    if n > 0 {
        lemma_sender_keeps_thread(serving, (n - 1) as nat);
    }
}

/// Shutting down from another thread does not deadlock: with the last sender
/// gone the thread receives every queued request and then returns, and the
/// shutdown ends after that.
pub proof fn law_shutdown_waits_for_the_thread(owned: EngineOwnership, serving: Serving)
    requires
        owned.channel,
        owned.thread,
        serving.senders == 1,
        !serving.returned,
    ensures
        serving.all_done(owned.ended(false).in_order()) == Some(
            (Serving { senders: 0, queued: 0, returned: true }),
        ),
{
    let steps = owned.ended(false).in_order();
    assert(steps =~= seq![ShutdownStep::CloseChannel, ShutdownStep::JoinThread]);
    let closed = Serving { senders: 0, ..serving };
    assert(steps.drop_last() =~= seq![ShutdownStep::CloseChannel]);
    assert(steps.drop_last().drop_last() =~= Seq::<ShutdownStep>::empty());
    assert(serving.all_done(steps.drop_last().drop_last()) == Some(serving));
    assert(serving.all_done(steps.drop_last()) == Some(closed));
    lemma_queue_is_drained(closed, closed.queued + 1);
    assert(closed.after(closed.queued + 1).returned);
    let n = choose|n: nat| (#[trigger] closed.after(n)).returned;
    lemma_queue_is_drained(closed, n);
}

/// The order matters: a thread that is waited for before the channel is closed
/// never returns.
pub proof fn law_waiting_first_would_deadlock(serving: Serving)
    requires
        serving.senders > 0,
        !serving.returned,
    ensures
        serving.done(ShutdownStep::JoinThread) is None,
{
    assert forall|n: nat| !(#[trigger] serving.after(n)).returned by {
        lemma_sender_keeps_thread(serving, n);
    }
}

/// A shutdown on the engine thread itself, or of an engine without a thread,
/// waits for nothing: it gives up the sender and ends.
pub proof fn law_shutdown_without_wait(
    owned: EngineOwnership,
    on_engine_thread: bool,
    serving: Serving,
)
    requires
        owned.channel,
        !owned.thread || on_engine_thread,
        serving.senders > 0,
    ensures
        serving.all_done(owned.ended(on_engine_thread).in_order()) == Some(
            (Serving { senders: (serving.senders - 1) as nat, ..serving }),
        ),
{
    let steps = owned.ended(on_engine_thread).in_order();
    assert(steps =~= seq![ShutdownStep::CloseChannel]);
    assert(steps.drop_last() =~= Seq::<ShutdownStep>::empty());
    assert(serving.all_done(steps.drop_last()) == Some(serving));
}

} // verus!
