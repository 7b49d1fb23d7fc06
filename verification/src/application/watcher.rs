//! The decisions of the file watcher: which file-system events count as
//! changes, and when the debounced callback runs. Receiving events and
//! running the callback happen outside the library.

use vstd::prelude::*;

verus! {

/// The debounce interval used unless another is set, in milliseconds.
pub const DEFAULT_DEBOUNCE_MS: u64 = 500;

/// The kind of a file-system event.
#[derive(Debug, Clone, Copy, PartialEq, Eq, Structural)]
pub enum ChangeKind {
    Create,
    Remove,
    Modify,
    Access,
    Other,
    Any,
}

/// Whether an event of this kind is a change that should re-run the
/// callback: creations, removals and modifications are; accesses and other
/// events are not.
pub open spec fn relevant(kind: ChangeKind) -> bool {
    kind == ChangeKind::Create || kind == ChangeKind::Remove || kind == ChangeKind::Modify
}

/// Whether an event of this kind is a change that should re-run the
/// callback.
pub fn is_relevant_event(kind: ChangeKind) -> (r: bool)
    ensures
        r == relevant(kind),
{
    match kind {
        ChangeKind::Create | ChangeKind::Remove | ChangeKind::Modify => true,
        ChangeKind::Access | ChangeKind::Other | ChangeKind::Any => false,
    }
}

/// What the watch loop received.
#[derive(Debug, Clone, Copy, PartialEq, Eq, Structural)]
pub enum WatchInput {
    /// A file-system event of this kind.
    Event(ChangeKind),
    /// The watcher reported an error.
    Error,
    /// Nothing arrived within the debounce interval.
    Timeout,
    /// The event channel closed.
    Disconnected,
}

/// What the watch loop does next.
#[derive(Debug, Clone, Copy, PartialEq, Eq, Structural)]
pub enum WatchAction {
    /// Keep waiting.
    Continue,
    /// Report the watcher's error, then keep waiting.
    ReportError,
    /// Run the callback, then keep waiting.
    RunCallback,
    /// Stop watching.
    Stop,
}

/// The time from `since` to `now` in milliseconds, zero if `now` is earlier.
pub open spec fn elapsed_ms(since: u64, now: u64) -> int {
    if now >= since {
        now - since
    } else {
        0
    }
}

/// The debouncer: whether a change awaits the callback, when the callback
/// last ran (milliseconds on a clock that never goes back), and the
/// debounce interval.
#[derive(Debug, Clone, Copy, PartialEq, Eq, Structural)]
pub struct Debouncer {
    pub pending: bool,
    pub last_trigger_ms: u64,
    pub debounce_ms: u64,
}

/// One step of the debouncer on what the loop received at time `now_ms`: a
/// relevant event marks a change pending; an error is reported; a timeout
/// runs the callback when a change is pending and at least the debounce
/// interval has passed since the callback last ran (nothing is pending
/// after it, and the callback counts as run at `now_ms`); a closed channel
/// stops the loop. Nothing else changes.
pub open spec fn debounce_step(d: Debouncer, input: WatchInput, now_ms: u64) -> (Debouncer, WatchAction) {
    match input {
        WatchInput::Event(k) => (Debouncer { pending: d.pending || relevant(k), ..d }, WatchAction::Continue),
        WatchInput::Error => (d, WatchAction::ReportError),
        WatchInput::Timeout => if d.pending && elapsed_ms(d.last_trigger_ms, now_ms) >= d.debounce_ms {
            (Debouncer { pending: false, last_trigger_ms: now_ms, ..d }, WatchAction::RunCallback)
        } else {
            (d, WatchAction::Continue)
        },
        WatchInput::Disconnected => (d, WatchAction::Stop),
    }
}

/// The actions the debouncer takes on a run of inputs, each with its time.
pub open spec fn debounce_run(d: Debouncer, inputs: Seq<(WatchInput, u64)>) -> Seq<WatchAction>
    decreases inputs.len(),
{
    if inputs.len() == 0 {
        seq![]
    } else {
        let (d2, a) = debounce_step(d, inputs[0].0, inputs[0].1);
        seq![a] + debounce_run(d2, inputs.drop_first())
    }
}

/// Whether an input is a relevant change.
pub open spec fn is_change(input: WatchInput) -> bool {
    match input {
        WatchInput::Event(k) => relevant(k),
        _ => false,
    }
}

impl Debouncer {
    /// A debouncer with nothing pending, counting from `now_ms`.
    pub fn new(debounce_ms: u64, now_ms: u64) -> (r: Self)
        ensures
            !r.pending,
            r.last_trigger_ms == now_ms,
            r.debounce_ms == debounce_ms,
    {
        Debouncer { pending: false, last_trigger_ms: now_ms, debounce_ms }
    }

    /// Takes in what the loop received at time `now_ms`: see
    /// `debounce_step`.
    pub fn step(&mut self, input: WatchInput, now_ms: u64) -> (r: WatchAction)
        ensures
            (*final(self), r) == debounce_step(*old(self), input, now_ms),
    {
        match input {
            WatchInput::Event(kind) => {
                if is_relevant_event(kind) {
                    self.pending = true;
                }
                WatchAction::Continue
            },
            WatchInput::Error => WatchAction::ReportError,
            WatchInput::Timeout => {
                let elapsed: u64 = if now_ms >= self.last_trigger_ms { now_ms - self.last_trigger_ms } else { 0 };
                if self.pending && elapsed >= self.debounce_ms {
                    self.pending = false;
                    self.last_trigger_ms = now_ms;
                    WatchAction::RunCallback
                } else {
                    WatchAction::Continue
                }
            },
            WatchInput::Disconnected => WatchAction::Stop,
        }
    }
}

/// The callback never runs without a relevant change: from a state with
/// nothing pending, a run of inputs none of which is a relevant change
/// never runs the callback.
pub proof fn lemma_no_callback_without_change(d: Debouncer, inputs: Seq<(WatchInput, u64)>)
    requires
        !d.pending,
        forall|i: int| 0 <= i < inputs.len() ==> !is_change(#[trigger] inputs[i].0),
    ensures
        forall|j: int| 0 <= j < debounce_run(d, inputs).len() ==> #[trigger] debounce_run(d, inputs)[j] != WatchAction::RunCallback,
        debounce_run(d, inputs).len() == inputs.len(),
    decreases inputs.len(),
{
    if inputs.len() > 0 {
        let (d2, a) = debounce_step(d, inputs[0].0, inputs[0].1);
        assert(!is_change(inputs[0].0));
        assert(!d2.pending);
        let rest = inputs.drop_first();
        assert forall|i: int| 0 <= i < rest.len() implies !is_change(#[trigger] rest[i].0) by {
            assert(rest[i] == inputs[i + 1]);
        }
        lemma_no_callback_without_change(d2, rest);
        let run = debounce_run(d, inputs);
        assert(run == seq![a] + debounce_run(d2, rest));
        assert forall|j: int| 0 <= j < run.len() implies #[trigger] run[j] != WatchAction::RunCallback by {
            if j > 0 {
                assert(run[j] == debounce_run(d2, rest)[j - 1]);
            }
        }
    }
}

/// Changes that arrive together run the callback once: after any number
/// of events of which at least one is a relevant change, a timeout at least
/// the debounce interval after the callback last ran runs it, and a second
/// timeout right after does not.
pub proof fn lemma_changes_coalesce(d: Debouncer, events: Seq<ChangeKind>, now_ms: u64)
    requires
        exists|i: int| 0 <= i < events.len() && relevant(#[trigger] events[i]),
        elapsed_ms(d.last_trigger_ms, now_ms) >= d.debounce_ms,
    ensures
        ({
            let inputs = events.map_values(|k: ChangeKind| (WatchInput::Event(k), now_ms)).push((WatchInput::Timeout, now_ms)).push((WatchInput::Timeout, now_ms));
            let run = debounce_run(d, inputs);
            &&& run.len() == events.len() + 2
            &&& forall|j: int| 0 <= j < events.len() ==> #[trigger] run[j] == WatchAction::Continue
            &&& run[events.len() as int] == WatchAction::RunCallback
            &&& run[events.len() as int + 1] == WatchAction::Continue
        }),
{
    lemma_events_then_timeouts(d, events, now_ms, false);
}

proof fn lemma_events_then_timeouts(d: Debouncer, events: Seq<ChangeKind>, now_ms: u64, seen: bool)
    requires
        seen || exists|i: int| 0 <= i < events.len() && relevant(#[trigger] events[i]),
        seen ==> d.pending,
        elapsed_ms(d.last_trigger_ms, now_ms) >= d.debounce_ms,
    ensures
        ({
            let inputs = events.map_values(|k: ChangeKind| (WatchInput::Event(k), now_ms)).push((WatchInput::Timeout, now_ms)).push((WatchInput::Timeout, now_ms));
            let run = debounce_run(d, inputs);
            &&& run.len() == events.len() + 2
            &&& forall|j: int| 0 <= j < events.len() ==> #[trigger] run[j] == WatchAction::Continue
            &&& run[events.len() as int] == WatchAction::RunCallback
            &&& run[events.len() as int + 1] == WatchAction::Continue
        }),
    decreases events.len(),
{
    let inputs = events.map_values(|k: ChangeKind| (WatchInput::Event(k), now_ms)).push((WatchInput::Timeout, now_ms)).push((WatchInput::Timeout, now_ms));
    if events.len() == 0 {
        assert(d.pending);
        let (d2, a) = debounce_step(d, WatchInput::Timeout, now_ms);
        assert(a == WatchAction::RunCallback);
        assert(!d2.pending);
        let rest = inputs.drop_first();
        assert(rest =~= seq![(WatchInput::Timeout, now_ms)]);
        let (d3, b) = debounce_step(d2, WatchInput::Timeout, now_ms);
        assert(b == WatchAction::Continue);
        assert(debounce_run(d3, rest.drop_first()) =~= Seq::<WatchAction>::empty());
        assert(debounce_run(d2, rest) =~= seq![b]);
        assert(debounce_run(d, inputs) =~= seq![a, b]);
    } else {
        let k = events[0];
        let (d2, a) = debounce_step(d, WatchInput::Event(k), now_ms);
        assert(a == WatchAction::Continue);
        let rest_events = events.drop_first();
        let seen2 = seen || relevant(k);
        if !seen2 {
            let i = choose|i: int| 0 <= i < events.len() && relevant(#[trigger] events[i]);
            assert(i != 0);
            assert(rest_events[i - 1] == events[i]);
        }
        lemma_events_then_timeouts(d2, rest_events, now_ms, seen2);
        let rest_inputs = rest_events.map_values(|k: ChangeKind| (WatchInput::Event(k), now_ms)).push((WatchInput::Timeout, now_ms)).push((WatchInput::Timeout, now_ms));
        assert(inputs.drop_first() =~= rest_inputs);
        assert(inputs[0] == (WatchInput::Event(k), now_ms));
        let run = debounce_run(d, inputs);
        let run2 = debounce_run(d2, rest_inputs);
        assert(run == seq![a] + run2);
        assert forall|j: int| 0 <= j < events.len() implies #[trigger] run[j] == WatchAction::Continue by {
            if j > 0 {
                assert(run[j] == run2[j - 1]);
            }
        }
        assert(run[events.len() as int] == run2[events.len() - 1]);
        assert(run[events.len() as int + 1] == run2[events.len() as int]);
    }
}

} // verus!
