use std::collections::HashMap;

use dbx_core::two_phase_commit::{
    commit_failure_text, not_found_text, prepare_failure_text, Action, Event, ParticipantCall, ParticipantInfo,
    TransactionLog, TransactionStatus, TwoPhaseCommit, VoteResult,
};

struct MockParticipant {
    id: String,
    name: String,
    fail_prepare: bool,
    fail_commit: bool,
    fail_rollback: bool,
    calls: Vec<ParticipantCall>,
}

impl MockParticipant {
    fn new(id: &str, name: &str) -> Self {
        MockParticipant {
            id: id.to_string(),
            name: name.to_string(),
            fail_prepare: false,
            fail_commit: false,
            fail_rollback: false,
            calls: Vec::new(),
        }
    }

    fn with_prepare_failure(mut self) -> Self {
        self.fail_prepare = true;
        self
    }

    fn with_commit_failure(mut self) -> Self {
        self.fail_commit = true;
        self
    }

    fn with_rollback_failure(mut self) -> Self {
        self.fail_rollback = true;
        self
    }

    fn info(&self) -> ParticipantInfo {
        ParticipantInfo { id: self.id.clone(), name: self.name.clone(), role: "worker".to_string() }
    }

    fn answer(&mut self, call: ParticipantCall) -> Result<(), String> {
        self.calls.push(call);
        let fails = match call {
            ParticipantCall::Prepare => self.fail_prepare,
            ParticipantCall::Commit => self.fail_commit,
            ParticipantCall::Rollback => self.fail_rollback,
        };
        if fails {
            let what = match call {
                ParticipantCall::Prepare => "prepare",
                ParticipantCall::Commit => "commit",
                ParticipantCall::Rollback => "rollback",
            };
            Err(format!("{}: {} failed", self.id, what))
        } else {
            Ok(())
        }
    }
}

/// An in-memory log store standing in for the persistence backend.
struct Store {
    logs: HashMap<String, TransactionLog>,
}

impl Store {
    fn new() -> Self {
        Store { logs: HashMap::new() }
    }

    fn save(&mut self, log: TransactionLog) {
        self.logs.insert(TwoPhaseCommit::log_key(&log.transaction_id), log);
    }

    fn status_of(&self, tx: &str) -> Option<String> {
        self.logs.get(&TwoPhaseCommit::log_key(tx)).map(|l| l.status.clone())
    }
}

fn empty_metadata() -> serde_json::Value {
    serde_json::Value::Object(serde_json::Map::new())
}

/// Performs the coordinator's actions until it finishes; returns the log the
/// run ends with, or its error.
fn drive(
    coordinator: &mut TwoPhaseCommit,
    first: Action,
    tx: &str,
    participants: &mut [MockParticipant],
    store: &mut Store,
) -> Result<TransactionLog, String> {
    let infos: Vec<ParticipantInfo> = participants.iter().map(|p| p.info()).collect();
    let key = TwoPhaseCommit::log_key(tx);
    let mut last: Option<TransactionLog> = None;
    let mut action = first;
    loop {
        let event = match action {
            Action::SaveNewLog => {
                store.save(TransactionLog::new(tx.to_string(), &infos, empty_metadata()));
                Event::Done
            }
            Action::CreateState | Action::MarkState(_) => Event::Done,
            Action::SetStatus(status) => match store.logs.get_mut(&key) {
                Some(log) => {
                    log.set_status(status);
                    last = Some(log.clone());
                    Event::Done
                }
                None => Event::Failed(not_found_text(tx)),
            },
            Action::LoadLog => match store.logs.get(&key) {
                Some(log) => {
                    last = Some(log.clone());
                    Event::Loaded(Some(log.status.clone()))
                }
                None => Event::Loaded(None),
            },
            Action::Call(call, i) => match participants[i].answer(call) {
                Ok(()) => Event::Done,
                Err(e) => Event::Failed(e),
            },
            Action::Finish => {
                return match coordinator.outcome() {
                    Some(Ok(())) => Ok(last.expect("a finished run has read or written its log")),
                    Some(Err(e)) => Err(e),
                    None => Err("coordinator did not finish".to_string()),
                };
            }
        };
        action = coordinator.step(&event);
    }
}

fn execute(tx: &str, participants: &mut [MockParticipant], store: &mut Store) -> Result<TransactionLog, String> {
    let infos: Vec<ParticipantInfo> = participants.iter().map(|p| p.info()).collect();
    let mut coordinator = TwoPhaseCommit::new();
    let first = coordinator.execute(tx, &infos);
    drive(&mut coordinator, first, tx, participants, store)
}

fn recover(tx: &str, participants: &mut [MockParticipant], store: &mut Store) -> Result<TransactionLog, String> {
    let infos: Vec<ParticipantInfo> = participants.iter().map(|p| p.info()).collect();
    let mut coordinator = TwoPhaseCommit::new();
    let first = coordinator.recover(tx, &infos);
    drive(&mut coordinator, first, tx, participants, store)
}

fn logged(tx: &str, status: TransactionStatus) -> TransactionLog {
    let info = ParticipantInfo { id: "p1".to_string(), name: "w1".to_string(), role: "worker".to_string() };
    let mut log = TransactionLog::new(tx.to_string(), &[info], empty_metadata());
    log.set_status(status);
    log
}

#[test]
fn two_phase_commit_success() {
    let mut store = Store::new();
    let mut ps = vec![MockParticipant::new("p1", "worker1"), MockParticipant::new("p2", "worker2")];
    let result = execute("tx_success", &mut ps, &mut store);
    assert!(result.is_ok());
    let log = result.unwrap();
    assert_eq!(log.status, TransactionStatus::Committed.as_str());
}

#[test]
fn two_phase_commit_prepare_failure_triggers_rollback() {
    let mut store = Store::new();
    let mut ps = vec![
        MockParticipant::new("p1", "good").with_commit_failure(),
        MockParticipant::new("p2", "bad").with_prepare_failure(),
    ];
    let result = execute("tx_prepare_fail", &mut ps, &mut store);
    assert!(result.is_err());
    let err = result.unwrap_err();
    assert!(err.contains("Prepare phase failed"));
    assert!(err.contains("p2"));
}

#[test]
fn two_phase_commit_commit_failure_triggers_rollback() {
    let mut store = Store::new();
    let mut ps = vec![MockParticipant::new("p1", "fail_commit").with_commit_failure(), MockParticipant::new("p2", "ok")];
    let result = execute("tx_commit_fail", &mut ps, &mut store);
    assert!(result.is_err());
    assert_eq!(store.status_of("tx_commit_fail").unwrap(), TransactionStatus::RolledBack.as_str());
}

#[test]
fn two_phase_commit_empty_participants() {
    let mut store = Store::new();
    let mut ps: Vec<MockParticipant> = vec![];
    let result = execute("tx_empty", &mut ps, &mut store);
    assert!(result.is_ok());
    let log = result.unwrap();
    assert_eq!(log.status, TransactionStatus::Committed.as_str());
}

#[test]
fn recovery_from_preparing_state() {
    let mut store = Store::new();
    store.save(logged("tx_recover_preparing", TransactionStatus::Preparing));
    let mut ps = vec![MockParticipant::new("p1", "w1")];
    let result = recover("tx_recover_preparing", &mut ps, &mut store);
    assert!(result.is_ok());
    assert_eq!(result.unwrap().status, TransactionStatus::RolledBack.as_str());
}

#[test]
fn recovery_from_committing_state() {
    let mut store = Store::new();
    store.save(logged("tx_recover_committing", TransactionStatus::Committing));
    let mut ps = vec![MockParticipant::new("p1", "w1")];
    let result = recover("tx_recover_committing", &mut ps, &mut store);
    assert!(result.is_ok());
    assert_eq!(result.unwrap().status, TransactionStatus::Committed.as_str());
}

#[test]
fn recovery_already_completed_noop() {
    let mut store = Store::new();
    store.save(logged("tx_done", TransactionStatus::Committed));
    let mut ps = vec![MockParticipant::new("p1", "w1")];
    let result = recover("tx_done", &mut ps, &mut store);
    assert!(result.is_ok());
    assert_eq!(result.unwrap().status, TransactionStatus::Committed.as_str());
    assert!(ps[0].calls.is_empty());
}

#[test]
fn recovery_unknown_transaction_errors() {
    let mut store = Store::new();
    let mut ps = vec![MockParticipant::new("p1", "w1")];
    let result = recover("tx_nonexistent", &mut ps, &mut store);
    assert!(result.is_err());
}

// ---- further scenarios ----

#[test]
fn status_text_round_trips() {
    let all = [
        TransactionStatus::Preparing,
        TransactionStatus::Prepared,
        TransactionStatus::Committing,
        TransactionStatus::Committed,
        TransactionStatus::RollingBack,
        TransactionStatus::RolledBack,
        TransactionStatus::Unknown,
    ];
    for s in all {
        assert_eq!(TransactionStatus::from_str(s.as_str()), s);
    }
    assert_eq!(TransactionStatus::RollingBack.as_str(), "rolling_back");
    assert_eq!(TransactionStatus::from_str("bogus"), TransactionStatus::Unknown);
    assert_eq!(TransactionStatus::from_str("Committed"), TransactionStatus::Unknown);
}

#[test]
fn log_and_state_keys() {
    assert_eq!(TwoPhaseCommit::log_key("tx1"), "2pc:tx:tx1");
    assert_eq!(TwoPhaseCommit::state_key("tx1"), "2pc_tx1");
}

#[test]
fn prepare_failure_message_is_exact_and_nobody_commits() {
    let mut store = Store::new();
    let mut ps = vec![
        MockParticipant::new("p1", "good"),
        MockParticipant::new("p2", "bad").with_prepare_failure(),
        MockParticipant::new("p3", "never asked"),
    ];
    let err = execute("tx_x", &mut ps, &mut store).unwrap_err();
    assert_eq!(
        err,
        "Prepare phase failed: participants did not agree. Rejections: [p2: p2: prepare failed]. Status: rolled_back"
    );
    assert_eq!(ps[0].calls, vec![ParticipantCall::Prepare, ParticipantCall::Rollback]);
    assert_eq!(ps[1].calls, vec![ParticipantCall::Prepare, ParticipantCall::Rollback]);
    assert_eq!(ps[2].calls, vec![ParticipantCall::Rollback]);
    assert_eq!(store.status_of("tx_x").unwrap(), "rolled_back");
}

#[test]
fn commit_failure_message_joins_participant_errors() {
    let mut store = Store::new();
    let mut ps = vec![
        MockParticipant::new("p1", "a").with_commit_failure(),
        MockParticipant::new("p2", "b").with_commit_failure().with_rollback_failure(),
    ];
    let err = execute("tx_y", &mut ps, &mut store).unwrap_err();
    assert_eq!(
        err,
        "Commit phase failed: p1: p1: commit failed; p2: p2: commit failed. Transaction rolled back. Status: rolled_back"
    );
    assert_eq!(ps[1].calls, vec![ParticipantCall::Prepare, ParticipantCall::Commit, ParticipantCall::Rollback]);
}

#[test]
fn recovery_unknown_status_and_missing_log_messages() {
    let mut store = Store::new();
    let mut log = logged("tx_odd", TransactionStatus::Committed);
    log.status = "half-done".to_string();
    store.save(log);
    let mut ps = vec![MockParticipant::new("p1", "w1")];
    assert_eq!(
        recover("tx_odd", &mut ps, &mut store).unwrap_err(),
        "Unknown transaction status for tx_odd: cannot recover"
    );
    assert_eq!(recover("tx_gone", &mut ps, &mut store).unwrap_err(), "No transaction log found for: tx_gone");
    assert!(ps[0].calls.is_empty());
}

#[test]
fn recovery_commit_failure_rolls_back() {
    let mut store = Store::new();
    store.save(logged("tx_rc", TransactionStatus::Committing));
    let mut ps = vec![MockParticipant::new("p1", "w1").with_commit_failure()];
    let err = recover("tx_rc", &mut ps, &mut store).unwrap_err();
    assert_eq!(err, "Recovery failed during commit: p1: p1: commit failed");
    assert_eq!(store.status_of("tx_rc").unwrap(), "rolled_back");
    assert_eq!(ps[0].calls, vec![ParticipantCall::Commit, ParticipantCall::Rollback]);
}

#[test]
fn recovery_rollback_failure_is_reported() {
    let mut store = Store::new();
    store.save(logged("tx_rb", TransactionStatus::RollingBack));
    let mut ps = vec![MockParticipant::new("p1", "w1").with_rollback_failure()];
    let err = recover("tx_rb", &mut ps, &mut store).unwrap_err();
    assert_eq!(err, "p1: p1: rollback failed");
    assert_eq!(store.status_of("tx_rb").unwrap(), "rolling_back");
}

#[test]
fn status_write_failure_ends_execution() {
    let mut coordinator = TwoPhaseCommit::new();
    let infos = vec![ParticipantInfo { id: "p1".to_string(), name: "n".to_string(), role: "r".to_string() }];
    assert_eq!(coordinator.execute("tx_z", &infos), Action::SaveNewLog);
    assert_eq!(coordinator.step(&Event::Done), Action::CreateState);
    assert_eq!(coordinator.step(&Event::Done), Action::SetStatus(TransactionStatus::Preparing));
    let next = coordinator.step(&Event::Failed(not_found_text("tx_z")));
    assert_eq!(next, Action::Finish);
    assert_eq!(coordinator.outcome(), Some(Err("Transaction not found: tx_z".to_string())));
}

#[test]
fn message_builders() {
    let votes = vec![
        VoteResult { participant_id: "a".to_string(), vote: true, reason: None },
        VoteResult { participant_id: "b".to_string(), vote: false, reason: None },
        VoteResult { participant_id: "c".to_string(), vote: false, reason: Some("disk full".to_string()) },
    ];
    assert_eq!(
        prepare_failure_text(&votes),
        "Prepare phase failed: participants did not agree. Rejections: [b: no reason, c: disk full]. Status: rolled_back"
    );
    assert_eq!(
        commit_failure_text("x"),
        "Commit phase failed: x. Transaction rolled back. Status: rolled_back"
    );
    assert_eq!(not_found_text("t"), "Transaction not found: t");
}

#[test]
fn new_log_is_preparing() {
    let info = ParticipantInfo { id: "p".to_string(), name: "n".to_string(), role: "r".to_string() };
    let log = TransactionLog::new("t".to_string(), &[info], serde_json::Value::Null);
    assert_eq!(log.status, "preparing");
    assert_eq!(log.participants.len(), 1);
    assert!(!log.created_at.is_empty());
}
