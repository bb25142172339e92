//! The submission driver: the decisions that take a composed teleport call
//! to a finalized outcome or to a classified failure.
//!
//! The driver does no work on the network itself. It is told what happened
//! (a notification) and answers with what to do next (an action). The
//! caller signs, submits and listens, and hands each result back. A
//! submission moves forward only: composed, signed, broadcasting, in a
//! block, done. Nothing is ever retried, and the call is handed to the
//! network at most once.

use vstd::prelude::*;

verus! {

/// One event that the chain emitted while it executed the transaction.
#[derive(Clone, Debug, PartialEq, Eq)]
pub struct ChainEvent {
    /// The part of the runtime that emitted the event.
    pub pallet: String,
    /// The name of the event.
    pub variant: String,
    /// The fields of the event, as the chain encoded them.
    pub data: Vec<u8>,
}

/// The kinds of failure, by the point at which the submission stopped.
#[derive(Clone, Copy, Debug, PartialEq, Eq, Structural)]
pub enum FailureKind {
    /// The node could not be reached, or the session with it broke.
    Connection,
    /// The key material could not be had, or the call could not be signed.
    Signing,
    /// The node refused the signed call before executing it.
    Broadcast,
    /// The call was included in a block and the runtime rejected it.
    Dispatch,
    /// The caller gave the submission up before it was included.
    Abandoned,
}

/// Why a submission failed. Each failure but the last carries the reason
/// that the outside gave.
#[derive(Clone, Debug, PartialEq, Eq)]
pub enum Failure {
    Connection(String),
    Signing(String),
    Broadcast(String),
    Dispatch(String),
    Abandoned,
}

/// How a submission ended.
#[derive(Clone, Debug, PartialEq, Eq)]
pub enum Outcome {
    /// The block that holds the transaction is final; these are the events
    /// of the transaction, in the order the chain emitted them.
    Finalized(Vec<ChainEvent>),
    /// The transaction was included in a block, and the caller stopped
    /// waiting before that block became final.
    IncludedButNotFinalized,
    /// The submission failed.
    Failed(Failure),
}

/// Where a submission stands.
#[derive(Clone, Debug, PartialEq, Eq)]
pub enum Stage {
    /// The call is assembled and not yet signed.
    Composed,
    /// The call is signed and not yet handed to the node.
    Signed,
    /// The node has the call; it is in no block yet.
    Broadcasting,
    /// A block holds the call; the block is not yet final.
    InBlock,
    /// The submission is over.
    Done(Outcome),
}

/// What the outside reports to the driver.
#[derive(Clone, Debug, PartialEq, Eq)]
pub enum Notification {
    /// The call was signed.
    SigningSucceeded,
    /// The key material could not be had, or signing failed.
    SigningFailed(String),
    /// The node took the call and its progress is being watched.
    BroadcastAccepted,
    /// The node refused the call, or dropped it before any block held it.
    BroadcastRejected(String),
    /// The node cannot be reached.
    ConnectionFailed(String),
    /// A block holds the call.
    Included,
    /// The block that holds the call is final and the call succeeded.
    Finalized(Vec<ChainEvent>),
    /// The call was executed and the runtime rejected it.
    DispatchFailed(String),
    /// The caller gives the submission up.
    Cancelled,
}

/// What the driver asks the caller to do next.
#[derive(Clone, Copy, Debug, PartialEq, Eq, Structural)]
pub enum Action {
    /// Sign the call.
    Sign,
    /// Hand the signed call to the node and watch its progress.
    Submit,
    /// Do nothing new; wait for the next notification.
    Watch,
    /// Stop; the submission is over.
    Stop,
}

impl Failure {
    /// The kind of this failure.
    pub open spec fn spec_kind(self) -> FailureKind {
        match self {
            Failure::Connection(_) => FailureKind::Connection,
            Failure::Signing(_) => FailureKind::Signing,
            Failure::Broadcast(_) => FailureKind::Broadcast,
            Failure::Dispatch(_) => FailureKind::Dispatch,
            Failure::Abandoned => FailureKind::Abandoned,
        }
    }

    /// The kind of this failure.
    pub fn kind(&self) -> (k: FailureKind)
        ensures
            k == self.spec_kind(),
    {
        match self {
            Failure::Connection(_) => FailureKind::Connection,
            Failure::Signing(_) => FailureKind::Signing,
            Failure::Broadcast(_) => FailureKind::Broadcast,
            Failure::Dispatch(_) => FailureKind::Dispatch,
            Failure::Abandoned => FailureKind::Abandoned,
        }
    }

    /// The reason that the outside gave, if the failure carries one.
    pub fn reason(&self) -> (r: Option<&String>)
        ensures
            match *self {
                Failure::Connection(s) => r == Some(&s),
                Failure::Signing(s) => r == Some(&s),
                Failure::Broadcast(s) => r == Some(&s),
                Failure::Dispatch(s) => r == Some(&s),
                Failure::Abandoned => r.is_none(),
            },
    {
        match self {
            Failure::Connection(s) => Some(s),
            Failure::Signing(s) => Some(s),
            Failure::Broadcast(s) => Some(s),
            Failure::Dispatch(s) => Some(s),
            Failure::Abandoned => None,
        }
    }
}

impl Stage {
    /// How far along a submission is: a number that no transition lowers.
    pub open spec fn rank(self) -> nat {
        match self {
            Stage::Composed => 0,
            Stage::Signed => 1,
            Stage::Broadcasting => 2,
            Stage::InBlock => 3,
            Stage::Done(_) => 4,
        }
    }

    /// Where every submission starts, and the first thing to do.
    pub fn start() -> (r: (Stage, Action))
        ensures
            r == (Stage::Composed, Action::Sign),
    {
        (Stage::Composed, Action::Sign)
    }

    /// Whether the submission is over.
    pub fn is_done(&self) -> (b: bool)
        ensures
            b == (*self is Done),
    {
        match self {
            Stage::Done(_) => true,
            _ => false,
        }
    }

    /// How the submission ended, once it is over.
    pub fn outcome(&self) -> (r: Option<&Outcome>)
        ensures
            match *self {
                Stage::Done(o) => r == Some(&o),
                _ => r.is_none(),
            },
    {
        match self {
            Stage::Done(o) => Some(o),
            _ => None,
        }
    }
}

/// How a submission that is over with failure `f` stands.
pub open spec fn failed(f: Failure) -> Stage {
    Stage::Done(Outcome::Failed(f))
}

/// The stage that follows `stage` on `note`, and what to do then.
///
/// A submission that is over stays as it is. One that is not over ends on a
/// cancellation and on a lost connection, whatever its stage. Each other
/// notification moves the submission on from the stages at which it can
/// occur; anywhere else it changes nothing, and the caller keeps waiting.
/// Finality implies inclusion, so a final result is taken from a node that
/// never reported the block.
pub open spec fn transition(stage: Stage, note: Notification) -> (Stage, Action) {
    match stage {
        Stage::Done(o) => (Stage::Done(o), Action::Stop),
        Stage::Composed => match note {
            Notification::SigningSucceeded => (Stage::Signed, Action::Submit),
            Notification::SigningFailed(r) => (failed(Failure::Signing(r)), Action::Stop),
            Notification::ConnectionFailed(r) => (failed(Failure::Connection(r)), Action::Stop),
            Notification::Cancelled => (failed(Failure::Abandoned), Action::Stop),
            _ => (Stage::Composed, Action::Watch),
        },
        Stage::Signed => match note {
            Notification::BroadcastAccepted => (Stage::Broadcasting, Action::Watch),
            Notification::BroadcastRejected(r) => (failed(Failure::Broadcast(r)), Action::Stop),
            Notification::ConnectionFailed(r) => (failed(Failure::Connection(r)), Action::Stop),
            Notification::Cancelled => (failed(Failure::Abandoned), Action::Stop),
            _ => (Stage::Signed, Action::Watch),
        },
        Stage::Broadcasting => match note {
            Notification::Included => (Stage::InBlock, Action::Watch),
            Notification::Finalized(events) => (
                Stage::Done(Outcome::Finalized(events)),
                Action::Stop,
            ),
            Notification::DispatchFailed(r) => (failed(Failure::Dispatch(r)), Action::Stop),
            Notification::BroadcastRejected(r) => (failed(Failure::Broadcast(r)), Action::Stop),
            Notification::ConnectionFailed(r) => (failed(Failure::Connection(r)), Action::Stop),
            Notification::Cancelled => (failed(Failure::Abandoned), Action::Stop),
            _ => (Stage::Broadcasting, Action::Watch),
        },
        Stage::InBlock => match note {
            Notification::Finalized(events) => (
                Stage::Done(Outcome::Finalized(events)),
                Action::Stop,
            ),
            Notification::DispatchFailed(r) => (failed(Failure::Dispatch(r)), Action::Stop),
            Notification::ConnectionFailed(r) => (failed(Failure::Connection(r)), Action::Stop),
            Notification::Cancelled => (
                Stage::Done(Outcome::IncludedButNotFinalized),
                Action::Stop,
            ),
            _ => (Stage::InBlock, Action::Watch),
        },
    }
}

/// The stage that a submission at `stage` reaches when it is told `notes`
/// in order.
pub open spec fn stage_after(stage: Stage, notes: Seq<Notification>) -> Stage
    decreases notes.len(),
{
    if notes.len() == 0 {
        stage
    } else {
        stage_after(transition(stage, notes[0]).0, notes.skip(1))
    }
}

/// The actions that a submission at `stage` asks for when it is told
/// `notes` in order, one for each notification.
pub open spec fn actions_after(stage: Stage, notes: Seq<Notification>) -> Seq<Action>
    decreases notes.len(),
{
    if notes.len() == 0 {
        Seq::empty()
    } else {
        seq![transition(stage, notes[0]).1] + actions_after(
            transition(stage, notes[0]).0,
            notes.skip(1),
        )
    }
}

/// How often `actions` asks to hand the call to the node.
pub open spec fn submit_count(actions: Seq<Action>) -> nat
    decreases actions.len(),
{
    if actions.len() == 0 {
        0
    } else if actions[0] == Action::Submit {
        1 + submit_count(actions.skip(1))
    } else {
        submit_count(actions.skip(1))
    }
}

/// Takes a submission from `stage` to its next stage on `note`, and says
/// what to do then.
pub fn step(stage: Stage, note: Notification) -> (r: (Stage, Action))
    ensures
        r == transition(stage, note),
{
    match stage {
        Stage::Done(o) => (Stage::Done(o), Action::Stop),
        Stage::Composed => match note {
            Notification::SigningSucceeded => (Stage::Signed, Action::Submit),
            Notification::SigningFailed(r) => (
                Stage::Done(Outcome::Failed(Failure::Signing(r))),
                Action::Stop,
            ),
            Notification::ConnectionFailed(r) => (
                Stage::Done(Outcome::Failed(Failure::Connection(r))),
                Action::Stop,
            ),
            Notification::Cancelled => (
                Stage::Done(Outcome::Failed(Failure::Abandoned)),
                Action::Stop,
            ),
            _ => (Stage::Composed, Action::Watch),
        },
        Stage::Signed => match note {
            Notification::BroadcastAccepted => (Stage::Broadcasting, Action::Watch),
            Notification::BroadcastRejected(r) => (
                Stage::Done(Outcome::Failed(Failure::Broadcast(r))),
                Action::Stop,
            ),
            Notification::ConnectionFailed(r) => (
                Stage::Done(Outcome::Failed(Failure::Connection(r))),
                Action::Stop,
            ),
            Notification::Cancelled => (
                Stage::Done(Outcome::Failed(Failure::Abandoned)),
                Action::Stop,
            ),
            _ => (Stage::Signed, Action::Watch),
        },
        Stage::Broadcasting => match note {
            Notification::Included => (Stage::InBlock, Action::Watch),
            Notification::Finalized(events) => (
                Stage::Done(Outcome::Finalized(events)),
                Action::Stop,
            ),
            Notification::DispatchFailed(r) => (
                Stage::Done(Outcome::Failed(Failure::Dispatch(r))),
                Action::Stop,
            ),
            Notification::BroadcastRejected(r) => (
                Stage::Done(Outcome::Failed(Failure::Broadcast(r))),
                Action::Stop,
            ),
            Notification::ConnectionFailed(r) => (
                Stage::Done(Outcome::Failed(Failure::Connection(r))),
                Action::Stop,
            ),
            Notification::Cancelled => (
                Stage::Done(Outcome::Failed(Failure::Abandoned)),
                Action::Stop,
            ),
            _ => (Stage::Broadcasting, Action::Watch),
        },
        Stage::InBlock => match note {
            Notification::Finalized(events) => (
                Stage::Done(Outcome::Finalized(events)),
                Action::Stop,
            ),
            Notification::DispatchFailed(r) => (
                Stage::Done(Outcome::Failed(Failure::Dispatch(r))),
                Action::Stop,
            ),
            Notification::ConnectionFailed(r) => (
                Stage::Done(Outcome::Failed(Failure::Connection(r))),
                Action::Stop,
            ),
            Notification::Cancelled => (
                Stage::Done(Outcome::IncludedButNotFinalized),
                Action::Stop,
            ),
            _ => (Stage::InBlock, Action::Watch),
        },
    }
}

/// Takes a submission from `stage` through `notes` in order; gives the
/// stage it reaches and the actions it asked for, one for each
/// notification.
pub fn replay(stage: Stage, notes: Vec<Notification>) -> (r: (Stage, Vec<Action>))
    ensures
        r.0 == stage_after(stage, notes@),
        r.1@ == actions_after(stage, notes@),
        submit_count(r.1@) <= 1,
{
    let mut current = stage;
    let mut left = notes;
    let mut actions: Vec<Action> = Vec::new();
    proof {
        lemma_at_most_one_submit(stage, notes@);
        assert(actions@ + actions_after(current, left@) =~= actions_after(stage, notes@));
    }
    while left.len() > 0
        invariant
            stage_after(current, left@) == stage_after(stage, notes@),
            actions@ + actions_after(current, left@) == actions_after(stage, notes@),
        decreases left.len(),
    {
        let ghost before = left@;
        let ghost asked = actions@;
        let ghost was = current;
        let note = left.remove(0);
        proof {
            assert(left@ =~= before.skip(1));
        }
        let (next, action) = step(current, note);
        current = next;
        actions.push(action);
        proof {
            assert(asked.push(action) + actions_after(current, left@) =~= asked + actions_after(
                was,
                before,
            ));
        }
    }
    proof {
        assert(actions@ + Seq::<Action>::empty() =~= actions@);
    }
    (current, actions)
}

/// A submission that is over stays over, with the same outcome, and asks
/// for nothing more.
pub proof fn lemma_done_is_final(outcome: Outcome, note: Notification)
    ensures
        transition(Stage::Done(outcome), note) == (Stage::Done(outcome), Action::Stop),
{
}

/// A submission that is over stays as it is through any notifications.
pub proof fn lemma_done_stays(outcome: Outcome, notes: Seq<Notification>)
    ensures
        stage_after(Stage::Done(outcome), notes) == Stage::Done(outcome),
        submit_count(actions_after(Stage::Done(outcome), notes)) == 0,
    decreases notes.len(),
{
    if notes.len() > 0 {
        lemma_done_stays(outcome, notes.skip(1));
        let actions = actions_after(Stage::Done(outcome), notes);
        assert(actions[0] == Action::Stop);
        assert(actions.skip(1) =~= actions_after(Stage::Done(outcome), notes.skip(1)));
    }
}

/// No transition leads back: the next stage is never behind the current
/// one.
pub proof fn lemma_one_way(stage: Stage, note: Notification)
    ensures
        transition(stage, note).0.rank() >= stage.rank(),
{
}

/// The call is handed to the node only on leaving the composed stage, when
/// signing has succeeded.
pub proof fn lemma_submit_only_after_signing(stage: Stage, note: Notification)
    ensures
        transition(stage, note).1 == Action::Submit <==> stage == Stage::Composed && note
            == Notification::SigningSucceeded,
        transition(stage, note).1 != Action::Sign,
{
}

/// Whatever the notifications, the call is handed to the node at most
/// once, and never again by a submission that is past the composed stage.
pub proof fn lemma_at_most_one_submit(stage: Stage, notes: Seq<Notification>)
    ensures
        submit_count(actions_after(stage, notes)) <= 1,
        stage.rank() >= 1 ==> submit_count(actions_after(stage, notes)) == 0,
    decreases notes.len(),
{
    if notes.len() > 0 {
        let (next, action) = transition(stage, notes[0]);
        let actions = actions_after(stage, notes);
        lemma_at_most_one_submit(next, notes.skip(1));
        lemma_submit_only_after_signing(stage, notes[0]);
        lemma_one_way(stage, notes[0]);
        assert(actions[0] == action);
        assert(actions.skip(1) =~= actions_after(next, notes.skip(1)));
    }
}

/// A submission whose signing fails is over at once with a signing
/// failure, and the call never reaches the node, whatever is reported
/// afterwards.
pub proof fn lemma_signing_failure_never_submits(reason: String, later: Seq<Notification>)
    ensures
        stage_after(Stage::Composed, seq![Notification::SigningFailed(reason)] + later) == failed(
            Failure::Signing(reason),
        ),
        submit_count(
            actions_after(Stage::Composed, seq![Notification::SigningFailed(reason)] + later),
        ) == 0,
{
    let notes = seq![Notification::SigningFailed(reason)] + later;
    let outcome = Outcome::Failed(Failure::Signing(reason));
    lemma_done_stays(outcome, later);
    assert(notes[0] == Notification::SigningFailed(reason));
    assert(notes.skip(1) =~= later);
    let actions = actions_after(Stage::Composed, notes);
    assert(actions[0] == Action::Stop);
    assert(actions.skip(1) =~= actions_after(Stage::Done(outcome), later));
}

/// Whether a submission at `stage` can only have come there by way of the
/// node: it is waiting on the node, or it ended with a final block, with an
/// abandoned block, or with a refusal by the node or by the runtime.
pub open spec fn went_to_node(stage: Stage) -> bool {
    match stage {
        Stage::Composed => false,
        Stage::Signed => true,
        Stage::Broadcasting => true,
        Stage::InBlock => true,
        Stage::Done(Outcome::Finalized(_)) => true,
        Stage::Done(Outcome::IncludedButNotFinalized) => true,
        Stage::Done(Outcome::Failed(f)) => f.spec_kind() == FailureKind::Broadcast
            || f.spec_kind() == FailureKind::Dispatch,
    }
}

/// A submission that is past signing never ends with a signing failure.
pub proof fn lemma_no_signing_failure_later(stage: Stage, notes: Seq<Notification>)
    requires
        stage != Stage::Composed,
        !(stage matches Stage::Done(Outcome::Failed(f)) && f.spec_kind() == FailureKind::Signing),
    ensures
        !(stage_after(stage, notes) matches Stage::Done(Outcome::Failed(f)) && f.spec_kind()
            == FailureKind::Signing),
        stage_after(stage, notes) != Stage::Composed,
    decreases notes.len(),
{
    if notes.len() > 0 {
        lemma_no_signing_failure_later(transition(stage, notes[0]).0, notes.skip(1));
    }
}

/// Every submission that starts composed and comes to stand where only the
/// node can have taken it was handed to the node exactly once; and one that
/// ends with a signing failure was never handed to it.
pub proof fn lemma_exactly_one_submit(notes: Seq<Notification>)
    ensures
        went_to_node(stage_after(Stage::Composed, notes)) ==> submit_count(
            actions_after(Stage::Composed, notes),
        ) == 1,
        (stage_after(Stage::Composed, notes) matches Stage::Done(Outcome::Failed(f))
            && f.spec_kind() == FailureKind::Signing) ==> submit_count(
            actions_after(Stage::Composed, notes),
        ) == 0,
    decreases notes.len(),
{
    if notes.len() > 0 {
        let (next, action) = transition(Stage::Composed, notes[0]);
        let rest = notes.skip(1);
        let actions = actions_after(Stage::Composed, notes);
        assert(actions[0] == action);
        assert(actions.skip(1) =~= actions_after(next, rest));
        match next {
            Stage::Composed => {
                lemma_exactly_one_submit(rest);
            },
            Stage::Done(outcome) => {
                lemma_done_stays(outcome, rest);
            },
            _ => {
                lemma_at_most_one_submit(next, rest);
                lemma_no_signing_failure_later(next, rest);
            },
        }
    }
}

/// A cancellation ends every submission that is not over, without handing
/// anything to the node: as included but not finalized when a block holds
/// the call, as abandoned otherwise.
pub proof fn lemma_cancel_ends(stage: Stage)
    requires
        !(stage is Done),
    ensures
        transition(stage, Notification::Cancelled).1 == Action::Stop,
        transition(stage, Notification::Cancelled).0 == if stage == Stage::InBlock {
            Stage::Done(Outcome::IncludedButNotFinalized)
        } else {
            failed(Failure::Abandoned)
        },
{
}

/// A final result carries the events of the notification that reported
/// it, the same events in the same order, and comes only from a submission
/// that the node had.
pub proof fn lemma_finalized_keeps_events(stage: Stage, note: Notification, events: Vec<ChainEvent>)
    requires
        !(stage is Done),
    ensures
        transition(stage, note).0 == Stage::Done(Outcome::Finalized(events)) <==> note
            == Notification::Finalized(events) && (stage == Stage::Broadcasting || stage
            == Stage::InBlock),
{
}

/// A rejection by the runtime is reported as a dispatch failure and never
/// as a broadcast failure; a refusal by the node is reported as a
/// broadcast failure and never as a dispatch failure.
pub proof fn lemma_failure_kinds_apart(stage: Stage, note: Notification, f: Failure)
    requires
        !(stage is Done),
        transition(stage, note).0 == failed(f),
    ensures
        f.spec_kind() == FailureKind::Dispatch <==> note is DispatchFailed,
        f.spec_kind() == FailureKind::Broadcast <==> note is BroadcastRejected,
        f.spec_kind() == FailureKind::Signing <==> note is SigningFailed,
        f.spec_kind() == FailureKind::Connection <==> note is ConnectionFailed,
        f.spec_kind() == FailureKind::Abandoned <==> note is Cancelled,
{
}

} // verus!
