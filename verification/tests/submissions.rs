use xcm_teleport::submission::{
    replay, step, Action, ChainEvent, Failure, FailureKind, Notification, Outcome, Stage,
};

fn event(pallet: &str, variant: &str, data: &[u8]) -> ChainEvent {
    ChainEvent { pallet: pallet.to_string(), variant: variant.to_string(), data: data.to_vec() }
}

fn reason(words: &str) -> String {
    words.to_string()
}

fn failed(f: Failure) -> Stage {
    Stage::Done(Outcome::Failed(f))
}

fn every_notification() -> Vec<Notification> {
    vec![
        Notification::SigningSucceeded,
        Notification::SigningFailed(reason("no key")),
        Notification::BroadcastAccepted,
        Notification::BroadcastRejected(reason("bad nonce")),
        Notification::ConnectionFailed(reason("unreachable")),
        Notification::Included,
        Notification::Finalized(vec![event("Balances", "Withdraw", &[1])]),
        Notification::DispatchFailed(reason("no funds")),
        Notification::Cancelled,
    ]
}

fn every_stage() -> Vec<Stage> {
    vec![
        Stage::Composed,
        Stage::Signed,
        Stage::Broadcasting,
        Stage::InBlock,
        Stage::Done(Outcome::Finalized(vec![event("System", "ExtrinsicSuccess", &[])])),
        Stage::Done(Outcome::IncludedButNotFinalized),
        failed(Failure::Dispatch(reason("no funds"))),
    ]
}

fn rank(stage: &Stage) -> u8 {
    match stage {
        Stage::Composed => 0,
        Stage::Signed => 1,
        Stage::Broadcasting => 2,
        Stage::InBlock => 3,
        Stage::Done(_) => 4,
    }
}

#[test]
fn a_submission_starts_composed_and_asks_to_sign() {
    assert_eq!(Stage::start(), (Stage::Composed, Action::Sign));
    assert!(!Stage::Composed.is_done());
    assert_eq!(Stage::Composed.outcome(), None);
}

#[test]
fn the_straight_path() {
    let (stage, action) = step(Stage::Composed, Notification::SigningSucceeded);
    assert_eq!((stage.clone(), action), (Stage::Signed, Action::Submit));
    let (stage, action) = step(stage, Notification::BroadcastAccepted);
    assert_eq!((stage.clone(), action), (Stage::Broadcasting, Action::Watch));
    let (stage, action) = step(stage, Notification::Included);
    assert_eq!((stage.clone(), action), (Stage::InBlock, Action::Watch));
    assert!(!stage.is_done());
    let (stage, action) = step(stage, Notification::Finalized(Vec::new()));
    assert_eq!((stage.clone(), action), (Stage::Done(Outcome::Finalized(Vec::new())), Action::Stop));
    assert!(stage.is_done());
    assert_eq!(stage.outcome(), Some(&Outcome::Finalized(Vec::new())));
}

#[test]
fn signing_failure_never_reaches_the_network() {
    let (stage, action) = step(Stage::Composed, Notification::SigningFailed(reason("Secret string error")));
    assert_eq!(stage, failed(Failure::Signing(reason("Secret string error"))));
    assert_eq!(action, Action::Stop);
    let mut notes = vec![Notification::SigningFailed(reason("Secret string error"))];
    notes.extend(every_notification());
    let (stage, actions) = replay(Stage::Composed, notes);
    assert_eq!(stage, failed(Failure::Signing(reason("Secret string error"))));
    assert!(actions.iter().all(|a| *a == Action::Stop));
    match stage.outcome() {
        Some(Outcome::Failed(f)) => {
            assert_eq!(f.kind(), FailureKind::Signing);
            assert_eq!(f.reason(), Some(&reason("Secret string error")));
        }
        _ => panic!("the submission failed"),
    }
}

#[test]
fn cancelling_a_broadcast_that_is_never_included() {
    let notes = vec![
        Notification::SigningSucceeded,
        Notification::BroadcastAccepted,
        Notification::Cancelled,
    ];
    let (stage, actions) = replay(Stage::Composed, notes);
    assert_eq!(stage, failed(Failure::Abandoned));
    assert_eq!(actions, vec![Action::Submit, Action::Watch, Action::Stop]);
    assert_eq!(actions.iter().filter(|a| **a == Action::Submit).count(), 1);
    // nothing that is reported afterwards revives it
    let (stage, action) = step(stage, Notification::Included);
    assert_eq!((stage, action), (failed(Failure::Abandoned), Action::Stop));
}

#[test]
fn cancelling_after_inclusion() {
    let (stage, action) = step(Stage::InBlock, Notification::Cancelled);
    assert_eq!(stage, Stage::Done(Outcome::IncludedButNotFinalized));
    assert_eq!(action, Action::Stop);
}

#[test]
fn cancelling_before_submission() {
    assert_eq!(
        step(Stage::Composed, Notification::Cancelled),
        (failed(Failure::Abandoned), Action::Stop)
    );
    assert_eq!(
        step(Stage::Signed, Notification::Cancelled),
        (failed(Failure::Abandoned), Action::Stop)
    );
    let failure = Failure::Abandoned;
    assert_eq!(failure.kind(), FailureKind::Abandoned);
    assert_eq!(failure.reason(), None);
}

#[test]
fn finalized_events_keep_their_order() {
    let first = event("Balances", "Withdraw", &[1, 2, 3]);
    let second = event("XcmPallet", "Attempted", &[4]);
    let notes = vec![
        Notification::SigningSucceeded,
        Notification::BroadcastAccepted,
        Notification::Included,
        Notification::Finalized(vec![first.clone(), second.clone()]),
    ];
    let (stage, actions) = replay(Stage::Composed, notes);
    assert_eq!(stage, Stage::Done(Outcome::Finalized(vec![first.clone(), second.clone()])));
    assert_ne!(stage, Stage::Done(Outcome::Finalized(vec![second, first])));
    assert_eq!(actions, vec![Action::Submit, Action::Watch, Action::Watch, Action::Stop]);
}

#[test]
fn finality_without_a_reported_block() {
    let events = vec![event("System", "ExtrinsicSuccess", &[])];
    assert_eq!(
        step(Stage::Broadcasting, Notification::Finalized(events.clone())),
        (Stage::Done(Outcome::Finalized(events)), Action::Stop)
    );
}

#[test]
fn rejection_by_the_runtime_is_a_dispatch_failure() {
    let notes = vec![
        Notification::SigningSucceeded,
        Notification::BroadcastAccepted,
        Notification::Included,
        Notification::DispatchFailed(reason("Balances::InsufficientBalance")),
    ];
    let (stage, _) = replay(Stage::Composed, notes);
    assert_eq!(stage, failed(Failure::Dispatch(reason("Balances::InsufficientBalance"))));
    match stage.outcome() {
        Some(Outcome::Failed(f)) => {
            assert_eq!(f.kind(), FailureKind::Dispatch);
            assert_ne!(f.kind(), FailureKind::Broadcast);
        }
        _ => panic!("the submission failed"),
    }
    assert_eq!(
        step(Stage::Broadcasting, Notification::DispatchFailed(reason("x"))).0,
        failed(Failure::Dispatch(reason("x")))
    );
}

#[test]
fn refusal_by_the_node_is_a_broadcast_failure() {
    for stage in [Stage::Signed, Stage::Broadcasting] {
        let (next, action) = step(stage, Notification::BroadcastRejected(reason("bad nonce")));
        assert_eq!(next, failed(Failure::Broadcast(reason("bad nonce"))));
        assert_eq!(action, Action::Stop);
    }
    let f = Failure::Broadcast(reason("bad nonce"));
    assert_eq!(f.kind(), FailureKind::Broadcast);
    assert_eq!(f.reason(), Some(&reason("bad nonce")));
}

#[test]
fn a_lost_connection_ends_any_open_submission() {
    for stage in [Stage::Composed, Stage::Signed, Stage::Broadcasting, Stage::InBlock] {
        let (next, action) = step(stage, Notification::ConnectionFailed(reason("unreachable")));
        assert_eq!(next, failed(Failure::Connection(reason("unreachable"))));
        assert_eq!(action, Action::Stop);
    }
    assert_eq!(Failure::Connection(reason("x")).kind(), FailureKind::Connection);
}

#[test]
fn notifications_out_of_place_change_nothing() {
    let ignored = |stage: Stage, note: Notification| {
        assert_eq!(step(stage.clone(), note), (stage, Action::Watch));
    };
    ignored(Stage::Composed, Notification::BroadcastAccepted);
    ignored(Stage::Composed, Notification::BroadcastRejected(reason("x")));
    ignored(Stage::Composed, Notification::Included);
    ignored(Stage::Composed, Notification::Finalized(Vec::new()));
    ignored(Stage::Composed, Notification::DispatchFailed(reason("x")));
    ignored(Stage::Signed, Notification::SigningSucceeded);
    ignored(Stage::Signed, Notification::SigningFailed(reason("x")));
    ignored(Stage::Signed, Notification::Included);
    ignored(Stage::Signed, Notification::Finalized(Vec::new()));
    ignored(Stage::Signed, Notification::DispatchFailed(reason("x")));
    ignored(Stage::Broadcasting, Notification::SigningSucceeded);
    ignored(Stage::Broadcasting, Notification::SigningFailed(reason("x")));
    ignored(Stage::Broadcasting, Notification::BroadcastAccepted);
    ignored(Stage::InBlock, Notification::SigningSucceeded);
    ignored(Stage::InBlock, Notification::SigningFailed(reason("x")));
    ignored(Stage::InBlock, Notification::BroadcastAccepted);
    ignored(Stage::InBlock, Notification::BroadcastRejected(reason("x")));
    ignored(Stage::InBlock, Notification::Included);
}

#[test]
fn a_finished_submission_stays_as_it_is() {
    for stage in every_stage() {
        if !stage.is_done() {
            continue;
        }
        for note in every_notification() {
            assert_eq!(step(stage.clone(), note), (stage.clone(), Action::Stop));
        }
    }
}

#[test]
fn no_transition_leads_back() {
    for stage in every_stage() {
        for note in every_notification() {
            let (next, action) = step(stage.clone(), note.clone());
            assert!(rank(&next) >= rank(&stage));
            assert_ne!(action, Action::Sign);
            let submits = stage == Stage::Composed && note == Notification::SigningSucceeded;
            assert_eq!(action == Action::Submit, submits);
            assert_eq!(action == Action::Stop, next.is_done());
        }
    }
}

#[test]
fn the_call_is_submitted_at_most_once() {
    let notes = every_notification();
    let mut i = 0;
    while i < notes.len() {
        let mut j = 0;
        while j < notes.len() {
            let mut k = 0;
            while k < notes.len() {
                let trace = vec![
                    notes[i].clone(),
                    Notification::SigningSucceeded,
                    notes[j].clone(),
                    Notification::SigningSucceeded,
                    notes[k].clone(),
                ];
                let (_, actions) = replay(Stage::Composed, trace);
                assert_eq!(actions.len(), 5);
                assert!(actions.iter().filter(|a| **a == Action::Submit).count() <= 1);
                k += 1;
            }
            j += 1;
        }
        i += 1;
    }
}

#[test]
fn replay_of_nothing() {
    for stage in every_stage() {
        assert_eq!(replay(stage.clone(), Vec::new()), (stage, Vec::new()));
    }
}

#[test]
fn replay_follows_step() {
    let notes = every_notification();
    for start in every_stage() {
        let mut stage = start.clone();
        let mut asked = Vec::new();
        for note in notes.iter() {
            let (next, action) = step(stage, note.clone());
            stage = next;
            asked.push(action);
        }
        assert_eq!(replay(start, notes.clone()), (stage, asked));
    }
}
