//! Two-phase commit coordination.
//!
//! The coordinator is a state machine: each call of [`TwoPhaseCommit::step`]
//! takes the outcome of the previous action (a log write, a participant call,
//! a log read) and returns the next action to perform. Whoever drives the
//! machine performs the actions (storage, network, awaits) and feeds back
//! their outcomes; every decision of the protocol is made here.

use vstd::prelude::*;

use crate::text::{concat, concat3, join_seq, join_strings, lemma_string_views_push, str_eq, string_views};

verus! {

/// Where a distributed transaction stands, as written in its log.
#[derive(Debug, Clone, Copy, PartialEq, Eq, Structural)]
pub enum TransactionStatus {
    Preparing,
    Prepared,
    Committing,
    Committed,
    RollingBack,
    RolledBack,
    Unknown,
}

/// The text under which a status is stored in a transaction log.
pub open spec fn status_text(s: TransactionStatus) -> Seq<char> {
    match s {
        TransactionStatus::Preparing => "preparing"@,
        TransactionStatus::Prepared => "prepared"@,
        TransactionStatus::Committing => "committing"@,
        TransactionStatus::Committed => "committed"@,
        TransactionStatus::RollingBack => "rolling_back"@,
        TransactionStatus::RolledBack => "rolled_back"@,
        TransactionStatus::Unknown => "unknown"@,
    }
}

/// The status a stored text names; any other text is `Unknown`.
pub open spec fn status_from_text(t: Seq<char>) -> TransactionStatus {
    if t == "preparing"@ {
        TransactionStatus::Preparing
    } else if t == "prepared"@ {
        TransactionStatus::Prepared
    } else if t == "committing"@ {
        TransactionStatus::Committing
    } else if t == "committed"@ {
        TransactionStatus::Committed
    } else if t == "rolling_back"@ {
        TransactionStatus::RollingBack
    } else if t == "rolled_back"@ {
        TransactionStatus::RolledBack
    } else {
        TransactionStatus::Unknown
    }
}

impl TransactionStatus {
    /// The text stored in the log for this status.
    pub fn as_str(&self) -> (r: &'static str)
        ensures
            r@ == status_text(*self),
    {
        match self {
            TransactionStatus::Preparing => "preparing",
            TransactionStatus::Prepared => "prepared",
            TransactionStatus::Committing => "committing",
            TransactionStatus::Committed => "committed",
            TransactionStatus::RollingBack => "rolling_back",
            TransactionStatus::RolledBack => "rolled_back",
            TransactionStatus::Unknown => "unknown",
        }
    }

    /// Reads a stored status; text that names no status gives `Unknown`.
    pub fn from_str(s: &str) -> (r: TransactionStatus)
        ensures
            r == status_from_text(s@),
    {
        if str_eq(s, "preparing") {
            TransactionStatus::Preparing
        } else if str_eq(s, "prepared") {
            TransactionStatus::Prepared
        } else if str_eq(s, "committing") {
            TransactionStatus::Committing
        } else if str_eq(s, "committed") {
            TransactionStatus::Committed
        } else if str_eq(s, "rolling_back") {
            TransactionStatus::RollingBack
        } else if str_eq(s, "rolled_back") {
            TransactionStatus::RolledBack
        } else {
            TransactionStatus::Unknown
        }
    }
}

/// Reading back the text written for a status gives that status again.
pub proof fn law_status_text_round_trip(s: TransactionStatus)
    ensures
        status_from_text(status_text(s)) == s,
{
    reveal_strlit("preparing");
    reveal_strlit("prepared");
    reveal_strlit("committing");
    reveal_strlit("committed");
    reveal_strlit("rolling_back");
    reveal_strlit("rolled_back");
    reveal_strlit("unknown");
    let t = status_text(s);
    assert(t.len() == 9 && t != "preparing"@ ==> t[0] != "preparing"@[0]);
    assert(t.len() == 9 && t != "committed"@ ==> t[0] != "committed"@[0]);
}

/// A participant's answer to the prepare request.
#[derive(Debug, Clone)]
pub struct VoteResult {
    pub participant_id: String,
    pub vote: bool,
    pub reason: Option<String>,
}

/// A vote as plain values.
pub struct VoteRecord {
    pub participant_id: Seq<char>,
    pub vote: bool,
    pub reason: Option<Seq<char>>,
}

pub open spec fn opt_view(o: Option<String>) -> Option<Seq<char>> {
    match o {
        Some(s) => Some(s@),
        None => None,
    }
}

impl View for VoteResult {
    type V = VoteRecord;

    open spec fn view(&self) -> VoteRecord {
        VoteRecord { participant_id: self.participant_id@, vote: self.vote, reason: opt_view(self.reason) }
    }
}

/// Identity of a participant, as recorded in the transaction log.
#[derive(Debug)]
pub struct ParticipantInfo {
    pub id: String,
    pub name: String,
    pub role: String,
}

impl Clone for ParticipantInfo {
    fn clone(&self) -> (r: Self)
        ensures
            r == *self,
    {
        ParticipantInfo { id: self.id.clone(), name: self.name.clone(), role: self.role.clone() }
    }
}

#[verifier::external_type_specification]
#[verifier::external_body]
pub struct ExJsonValue(serde_json::Value);

/// `serde_json::Value::clone`, which `derive(Clone)` writes for the enum: the
/// copy equals the value it was taken from.
pub assume_specification[ <serde_json::Value as Clone>::clone ](v: &serde_json::Value) -> (r: serde_json::Value)
    ensures
        r == *v,
;

/// The current time in UTC, in RFC 3339 form: `chrono::Utc::now` rendered by
/// `DateTime::to_rfc3339`. It depends on the clock, so nothing is stated of it.
#[verifier::external_body]
fn utc_now_rfc3339() -> String {
    chrono::Utc::now().to_rfc3339()
}

/// The persisted record of a transaction.
#[derive(Debug, Clone)]
pub struct TransactionLog {
    pub transaction_id: String,
    pub status: String,
    pub participants: Vec<ParticipantInfo>,
    pub created_at: String,
    pub updated_at: String,
    pub metadata: serde_json::Value,
}

impl TransactionLog {
    /// A fresh log in status `preparing`, stamped with the current time.
    pub fn new(transaction_id: String, participants: &[ParticipantInfo], metadata: serde_json::Value) -> (r: Self)
        ensures
            r.transaction_id == transaction_id,
            r.status@ == status_text(TransactionStatus::Preparing),
            r.participants@ == participants@,
            r.metadata == metadata,
    {
        let mut copied: Vec<ParticipantInfo> = Vec::new();
        let mut i: usize = 0;
        while i < participants.len()
            invariant
                i <= participants.len(),
                copied@ == participants@.subrange(0, i as int),
            decreases participants.len() - i,
        {
            copied.push(participants[i].clone());
            i = i + 1;
        }
        assert(participants@.subrange(0, participants.len() as int) =~= participants@);
        TransactionLog {
            transaction_id,
            status: String::from_str(TransactionStatus::Preparing.as_str()),
            participants: copied,
            created_at: utc_now_rfc3339(),
            updated_at: utc_now_rfc3339(),
            metadata,
        }
    }

    /// Records `status` and stamps the update time; nothing else changes.
    pub fn set_status(&mut self, status: TransactionStatus)
        ensures
            final(self).status@ == status_text(status),
            final(self).transaction_id == old(self).transaction_id,
            final(self).participants == old(self).participants,
            final(self).created_at == old(self).created_at,
            final(self).metadata == old(self).metadata,
    {
        self.status = String::from_str(status.as_str());
        self.updated_at = utc_now_rfc3339();
    }
}

/// `"{id}: {reason}"`, the reason defaulting to `no reason`.
pub open spec fn rejection_line(v: VoteRecord) -> Seq<char> {
    v.participant_id + ": "@ + match v.reason {
        Some(r) => r,
        None => "no reason"@,
    }
}

/// One line per negative vote, in voting order.
pub open spec fn rejection_lines(votes: Seq<VoteRecord>) -> Seq<Seq<char>>
    decreases votes.len(),
{
    if votes.len() == 0 {
        Seq::empty()
    } else {
        let rest = rejection_lines(votes.drop_last());
        if votes.last().vote {
            rest
        } else {
            rest.push(rejection_line(votes.last()))
        }
    }
}

/// The error of an execution whose prepare phase was rejected.
pub open spec fn prepare_failure_message(votes: Seq<VoteRecord>) -> Seq<char> {
    "Prepare phase failed: participants did not agree. Rejections: ["@ + join_seq(rejection_lines(votes), ", "@)
        + "]. Status: "@ + status_text(TransactionStatus::RolledBack)
}

/// The error of an execution whose commit phase failed with `e`.
pub open spec fn commit_failure_message(e: Seq<char>) -> Seq<char> {
    "Commit phase failed: "@ + e + ". Transaction rolled back. Status: "@ + status_text(
        TransactionStatus::RolledBack,
    )
}

/// The error of a recovery whose commit phase failed with `e`.
pub open spec fn recovery_failure_message(e: Seq<char>) -> Seq<char> {
    "Recovery failed during commit: "@ + e
}

/// The error of a recovery that finds a status it cannot act on.
pub open spec fn unknown_status_message(id: Seq<char>) -> Seq<char> {
    "Unknown transaction status for "@ + id + ": cannot recover"@
}

/// The error of a recovery that finds no log.
pub open spec fn missing_log_message(id: Seq<char>) -> Seq<char> {
    "No transaction log found for: "@ + id
}

/// The error of a status update whose log has disappeared.
pub open spec fn not_found_message(id: Seq<char>) -> Seq<char> {
    "Transaction not found: "@ + id
}

/// The line recorded when participant `id` fails a commit or rollback with `e`.
pub open spec fn participant_error_line(id: Seq<char>, e: Seq<char>) -> Seq<char> {
    id + ": "@ + e
}

fn rejection_line_exec(v: &VoteResult) -> (r: String)
    ensures
        r@ == rejection_line(v@),
{
    match &v.reason {
        Some(reason) => concat3(v.participant_id.as_str(), ": ", reason.as_str()),
        None => concat3(v.participant_id.as_str(), ": ", "no reason"),
    }
}

/// Builds the error returned when the prepare phase is rejected.
pub fn prepare_failure_text(votes: &Vec<VoteResult>) -> (r: String)
    ensures
        r@ == prepare_failure_message(vote_views(votes@)),
{
    let ghost views = vote_views(votes@);
    let mut lines: Vec<String> = Vec::new();
    let mut i: usize = 0;
    while i < votes.len()
        invariant
            i <= votes.len(),
            views == vote_views(votes@),
            string_views(lines@) == rejection_lines(views.subrange(0, i as int)),
        decreases votes.len() - i,
    {
        let ghost before = string_views(lines@);
        assert(views.subrange(0, i + 1).drop_last() =~= views.subrange(0, i as int));
        if !votes[i].vote {
            let line = rejection_line_exec(&votes[i]);
            lines.push(line);
            assert(string_views(lines@) =~= before.push(rejection_line(views[i as int])));
        }
        i = i + 1;
    }
    assert(views.subrange(0, votes.len() as int) =~= views);
    let joined = join_strings(lines.as_slice(), ", ");
    let mut r = concat(
        "Prepare phase failed: participants did not agree. Rejections: [",
        joined.as_str(),
    );
    r.append("]. Status: ");
    r.append(TransactionStatus::RolledBack.as_str());
    r
}

/// Which protocol a coordinator is running.
#[derive(Debug, Clone, Copy, PartialEq, Eq, Structural)]
pub enum RunMode {
    Execute,
    Recover,
}

/// The request sent to a participant.
#[derive(Debug, Clone, Copy, PartialEq, Eq, Structural)]
pub enum ParticipantCall {
    Prepare,
    Commit,
    Rollback,
}

/// The outcome recorded on the transaction's state record when an execution ends.
#[derive(Debug, Clone, Copy, PartialEq, Eq, Structural)]
pub enum StateMark {
    Completed,
    Failed,
}

/// What the driver must do next.
#[derive(Debug, Clone, Copy, PartialEq, Eq, Structural)]
pub enum Action {
    /// Write a fresh log for the transaction, in status `preparing`.
    SaveNewLog,
    /// Create the transaction's state record, in phase `begin`.
    CreateState,
    /// Load the log, set its status (and update time) and save it again.
    SetStatus(TransactionStatus),
    /// Send a request to the participant at this position.
    Call(ParticipantCall, usize),
    /// Mark the state record; its outcome does not matter.
    MarkState(StateMark),
    /// Read the transaction's log.
    LoadLog,
    /// The run is over; its result is [`TwoPhaseCommit::outcome`].
    Finish,
}

/// What came of the last action.
#[derive(Debug, Clone)]
pub enum Event {
    /// It succeeded.
    Done,
    /// It failed with this error.
    Failed(String),
    /// The log was read: the stored status text, or nothing if there is no log.
    Loaded(Option<String>),
}

/// Where a run stands: which action's outcome it awaits.
#[derive(Debug, Clone, Copy, PartialEq, Eq, Structural)]
pub enum Stage {
    Idle,
    SavingLog,
    CreatingState,
    MarkingPreparing,
    Preparing(usize),
    MarkingPrepared,
    MarkingCommitting,
    Committing(usize),
    MarkingCommitted,
    CompletingState,
    MarkingRollingBack,
    RollingBack(usize),
    MarkingRolledBack,
    FailingState,
    Loading,
    RecoverRollingBack(usize),
    SettlingRolledBack,
    RecoverCommitting(usize),
    SettlingCommitted,
    RecoverUndoing(usize),
    SettlingUndo,
    Finished,
}

/// The position of the participant a stage awaits, if it awaits one.
pub open spec fn stage_index(st: Stage) -> Option<int> {
    match st {
        Stage::Preparing(i) => Some(i as int),
        Stage::Committing(i) => Some(i as int),
        Stage::RollingBack(i) => Some(i as int),
        Stage::RecoverRollingBack(i) => Some(i as int),
        Stage::RecoverCommitting(i) => Some(i as int),
        Stage::RecoverUndoing(i) => Some(i as int),
        _ => None,
    }
}

/// A coordinator as plain values.
#[verifier::ext_equal]
pub struct CoordinatorView {
    pub mode: RunMode,
    pub transaction_id: Seq<char>,
    pub participants: Seq<Seq<char>>,
    pub stage: Stage,
    /// Prepare votes received so far, in participant order.
    pub votes: Seq<VoteRecord>,
    /// Errors of the commit or rollback round in progress.
    pub errors: Seq<Seq<char>>,
    /// The error of a failed commit round.
    pub commit_error: Option<Seq<char>>,
    /// Once finished: the error the run ends with, if any.
    pub outcome_error: Option<Seq<char>>,
}

/// Coordinator of one two-phase commit run (an execution or a recovery).
pub struct TwoPhaseCommit {
    mode: RunMode,
    transaction_id: String,
    participants: Vec<String>,
    stage: Stage,
    votes: Vec<VoteResult>,
    errors: Vec<String>,
    commit_error: Option<String>,
    outcome_error: Option<String>,
}

pub open spec fn vote_views(v: Seq<VoteResult>) -> Seq<VoteRecord> {
    v.map_values(|x: VoteResult| x@)
}

impl View for TwoPhaseCommit {
    type V = CoordinatorView;

    closed spec fn view(&self) -> CoordinatorView {
        CoordinatorView {
            mode: self.mode,
            transaction_id: self.transaction_id@,
            participants: string_views(self.participants@),
            stage: self.stage,
            votes: vote_views(self.votes@),
            errors: string_views(self.errors@),
            commit_error: opt_view(self.commit_error),
            outcome_error: opt_view(self.outcome_error),
        }
    }
}

/// Moves to `stage`, asking for `a`.
pub open spec fn goto(s: CoordinatorView, stage: Stage, a: Action) -> (CoordinatorView, Action) {
    (CoordinatorView { stage, ..s }, a)
}

/// Ends the run, with `err` as its error if there is one.
pub open spec fn finish(s: CoordinatorView, err: Option<Seq<char>>) -> (CoordinatorView, Action) {
    (CoordinatorView { stage: Stage::Finished, outcome_error: err, ..s }, Action::Finish)
}

/// The error an event reports, if any.
pub open spec fn failure_of(e: Event) -> Option<Seq<char>> {
    match e {
        Event::Failed(m) => Some(m@),
        _ => None,
    }
}

/// Goes on after a log or state step: a failure ends the run with its error.
pub open spec fn unless_failed(s: CoordinatorView, e: Event, then: (CoordinatorView, Action)) -> (
    CoordinatorView,
    Action,
) {
    match failure_of(e) {
        Some(m) => finish(s, Some(m)),
        None => then,
    }
}

/// Records the error of the participant at `i`, if its call failed.
pub open spec fn record(s: CoordinatorView, i: int, e: Event) -> CoordinatorView {
    match failure_of(e) {
        Some(m) => CoordinatorView {
            errors: s.errors.push(participant_error_line(s.participants[i], m)),
            ..s
        },
        None => s,
    }
}

/// The errors of a round, joined.
pub open spec fn joined_errors(s: CoordinatorView) -> Seq<char> {
    join_seq(s.errors, "; "@)
}

/// Asks participant `i` to prepare, or marks the transaction prepared once all have.
pub open spec fn prepare_from(s: CoordinatorView, i: int) -> (CoordinatorView, Action) {
    if i < s.participants.len() {
        goto(s, Stage::Preparing(i as usize), Action::Call(ParticipantCall::Prepare, i as usize))
    } else {
        goto(s, Stage::MarkingPrepared, Action::SetStatus(TransactionStatus::Prepared))
    }
}

/// Asks participant `i` to commit; once all have been asked, marks the
/// transaction committed, or starts rolling back if any commit failed.
pub open spec fn commit_from(s: CoordinatorView, i: int) -> (CoordinatorView, Action) {
    if i < s.participants.len() {
        goto(s, Stage::Committing(i as usize), Action::Call(ParticipantCall::Commit, i as usize))
    } else if s.errors.len() == 0 {
        goto(s, Stage::MarkingCommitted, Action::SetStatus(TransactionStatus::Committed))
    } else {
        goto(
            CoordinatorView { commit_error: Some(joined_errors(s)), errors: Seq::empty(), ..s },
            Stage::MarkingRollingBack,
            Action::SetStatus(TransactionStatus::RollingBack),
        )
    }
}

/// Asks participant `i` to roll back (ignoring failures), then marks the
/// transaction rolled back.
pub open spec fn rollback_from(s: CoordinatorView, i: int) -> (CoordinatorView, Action) {
    if i < s.participants.len() {
        goto(s, Stage::RollingBack(i as usize), Action::Call(ParticipantCall::Rollback, i as usize))
    } else {
        goto(s, Stage::MarkingRolledBack, Action::SetStatus(TransactionStatus::RolledBack))
    }
}

/// Recovery rollback round: a failed rollback ends the recovery with the
/// joined errors; otherwise the transaction is marked rolled back.
pub open spec fn recover_rollback_from(s: CoordinatorView, i: int) -> (CoordinatorView, Action) {
    if i < s.participants.len() {
        goto(s, Stage::RecoverRollingBack(i as usize), Action::Call(ParticipantCall::Rollback, i as usize))
    } else if s.errors.len() == 0 {
        goto(s, Stage::SettlingRolledBack, Action::SetStatus(TransactionStatus::RolledBack))
    } else {
        finish(s, Some(joined_errors(s)))
    }
}

/// Recovery undo round, after a failed recovery commit.
pub open spec fn recover_undo_from(s: CoordinatorView, i: int) -> (CoordinatorView, Action) {
    if i < s.participants.len() {
        goto(s, Stage::RecoverUndoing(i as usize), Action::Call(ParticipantCall::Rollback, i as usize))
    } else if s.errors.len() == 0 {
        goto(s, Stage::SettlingUndo, Action::SetStatus(TransactionStatus::RolledBack))
    } else {
        finish(s, Some(joined_errors(s)))
    }
}

/// Recovery commit round: all commits succeeding settles the transaction as
/// committed; otherwise everyone is rolled back.
pub open spec fn recover_commit_from(s: CoordinatorView, i: int) -> (CoordinatorView, Action) {
    if i < s.participants.len() {
        goto(s, Stage::RecoverCommitting(i as usize), Action::Call(ParticipantCall::Commit, i as usize))
    } else if s.errors.len() == 0 {
        goto(s, Stage::SettlingCommitted, Action::SetStatus(TransactionStatus::Committed))
    } else {
        recover_undo_from(CoordinatorView { commit_error: Some(joined_errors(s)), errors: Seq::empty(), ..s }, 0)
    }
}

/// What recovery does with a transaction found in `status`.
pub open spec fn recover_from_status(s: CoordinatorView, status: TransactionStatus) -> (
    CoordinatorView,
    Action,
) {
    match status {
        TransactionStatus::Preparing | TransactionStatus::Prepared | TransactionStatus::RollingBack =>
            recover_rollback_from(s, 0),
        TransactionStatus::Committing => recover_commit_from(s, 0),
        TransactionStatus::Committed | TransactionStatus::RolledBack => finish(s, None),
        TransactionStatus::Unknown => finish(s, Some(unknown_status_message(s.transaction_id))),
    }
}

/// A positive vote from participant `i`.
pub open spec fn yes_vote(s: CoordinatorView, i: int) -> VoteRecord {
    VoteRecord { participant_id: s.participants[i], vote: true, reason: None }
}

/// A negative vote from participant `i`, for `reason`.
pub open spec fn no_vote(s: CoordinatorView, i: int, reason: Seq<char>) -> VoteRecord {
    VoteRecord { participant_id: s.participants[i], vote: false, reason: Some(reason) }
}

/// The error an execution that reached its failure mark ends with.
pub open spec fn execution_failure(s: CoordinatorView) -> Seq<char> {
    match s.commit_error {
        Some(c) => commit_failure_message(c),
        None => prepare_failure_message(s.votes),
    }
}

/// The protocol: the next coordinator and action, given the outcome `e` of
/// the action the coordinator `s` awaits.
pub open spec fn next(s: CoordinatorView, e: Event) -> (CoordinatorView, Action) {
    match s.stage {
        Stage::Idle | Stage::Finished => (s, Action::Finish),
        Stage::SavingLog => unless_failed(s, e, goto(s, Stage::CreatingState, Action::CreateState)),
        Stage::CreatingState => unless_failed(
            s,
            e,
            goto(s, Stage::MarkingPreparing, Action::SetStatus(TransactionStatus::Preparing)),
        ),
        Stage::MarkingPreparing => unless_failed(s, e, prepare_from(s, 0)),
        Stage::Preparing(i) => match failure_of(e) {
            Some(m) => goto(
                CoordinatorView { votes: s.votes.push(no_vote(s, i as int, m)), ..s },
                Stage::MarkingRollingBack,
                Action::SetStatus(TransactionStatus::RollingBack),
            ),
            None => prepare_from(CoordinatorView { votes: s.votes.push(yes_vote(s, i as int)), ..s }, i + 1),
        },
        Stage::MarkingPrepared => unless_failed(
            s,
            e,
            goto(s, Stage::MarkingCommitting, Action::SetStatus(TransactionStatus::Committing)),
        ),
        Stage::MarkingCommitting => unless_failed(s, e, commit_from(s, 0)),
        Stage::Committing(i) => commit_from(record(s, i as int, e), i + 1),
        Stage::MarkingCommitted => unless_failed(
            s,
            e,
            goto(s, Stage::CompletingState, Action::MarkState(StateMark::Completed)),
        ),
        Stage::CompletingState => finish(s, None),
        Stage::MarkingRollingBack => unless_failed(s, e, rollback_from(s, 0)),
        Stage::RollingBack(i) => rollback_from(s, i + 1),
        Stage::MarkingRolledBack => unless_failed(
            s,
            e,
            goto(s, Stage::FailingState, Action::MarkState(StateMark::Failed)),
        ),
        Stage::FailingState => finish(s, Some(execution_failure(s))),
        Stage::Loading => match e {
            Event::Failed(m) => finish(s, Some(m@)),
            Event::Loaded(Some(t)) => recover_from_status(s, status_from_text(t@)),
            _ => finish(s, Some(missing_log_message(s.transaction_id))),
        },
        Stage::RecoverRollingBack(i) => recover_rollback_from(record(s, i as int, e), i + 1),
        Stage::SettlingRolledBack => unless_failed(s, e, finish(s, None)),
        Stage::RecoverCommitting(i) => recover_commit_from(record(s, i as int, e), i + 1),
        Stage::SettlingCommitted => unless_failed(s, e, finish(s, None)),
        Stage::RecoverUndoing(i) => recover_undo_from(record(s, i as int, e), i + 1),
        Stage::SettlingUndo => match s.commit_error {
            Some(c) => match failure_of(e) {
                Some(_) => finish(s, Some(c)),
                None => finish(s, Some(recovery_failure_message(c))),
            },
            None => unless_failed(s, e, finish(s, None)),
        },
    }
}

/// Builds the error of an execution whose commit round failed with `e`.
pub fn commit_failure_text(e: &str) -> (r: String)
    ensures
        r@ == commit_failure_message(e@),
{
    let mut r = concat3("Commit phase failed: ", e, ". Transaction rolled back. Status: ");
    r.append(TransactionStatus::RolledBack.as_str());
    r
}

/// Builds the error of a status update that finds no log for `transaction_id`.
pub fn not_found_text(transaction_id: &str) -> (r: String)
    ensures
        r@ == not_found_message(transaction_id@),
{
    concat("Transaction not found: ", transaction_id)
}

proof fn lemma_vote_views_push(v: Seq<VoteResult>, x: VoteResult)
    ensures
        vote_views(v.push(x)) == vote_views(v).push(x@),
{
    assert(vote_views(v.push(x)) =~= vote_views(v).push(x@));
}

/// The error a failed event reports.
fn failure_exec(e: &Event) -> (r: Option<String>)
    ensures
        opt_view(r) == failure_of(*e),
{
    match e {
        Event::Failed(m) => Some(m.clone()),
        _ => None,
    }
}

/// Whether a stage's participant position, if it has one, is below `n`.
pub open spec fn index_below(st: Stage, n: int) -> bool {
    match stage_index(st) {
        Some(i) => 0 <= i < n,
        None => true,
    }
}

impl TwoPhaseCommit {
    #[verifier::type_invariant]
    spec fn awaited_participant_exists(self) -> bool {
        index_below(self.stage, self.participants.len() as int)
    }

    /// A coordinator with no run in progress.
    pub fn new() -> (c: TwoPhaseCommit)
        ensures
            c@ == (CoordinatorView {
                mode: RunMode::Execute,
                transaction_id: Seq::empty(),
                participants: Seq::empty(),
                stage: Stage::Idle,
                votes: Seq::empty(),
                errors: Seq::empty(),
                commit_error: None,
                outcome_error: None,
            }),
    {
        TwoPhaseCommit {
            mode: RunMode::Execute,
            transaction_id: String::new(),
            participants: Vec::new(),
            stage: Stage::Idle,
            votes: Vec::new(),
            errors: Vec::new(),
            commit_error: None,
            outcome_error: None,
        }
    }

    /// The storage key of a transaction's log: `2pc:tx:{transaction_id}`.
    pub fn log_key(transaction_id: &str) -> (r: String)
        ensures
            r@ == "2pc:tx:"@ + transaction_id@,
    {
        concat("2pc:tx:", transaction_id)
    }

    /// The name of a transaction's state record: `2pc_{transaction_id}`.
    pub fn state_key(transaction_id: &str) -> (r: String)
        ensures
            r@ == "2pc_"@ + transaction_id@,
    {
        concat("2pc_", transaction_id)
    }

    proof fn lemma_participants(&self)
        ensures
            self@.participants.len() == self.participants.len(),
            forall|i: int| 0 <= i < self.participants.len() ==> #[trigger] self@.participants[i] == self.participants@[i]@,
    {
    }

    fn start(&mut self, mode: RunMode, transaction_id: &str, participants: &[ParticipantInfo], stage: Stage)
        requires
            stage_index(stage) is None,
        ensures
            final(self)@ == (CoordinatorView {
                mode,
                transaction_id: transaction_id@,
                participants: participants@.map_values(|p: ParticipantInfo| p.id@),
                stage,
                votes: Seq::empty(),
                errors: Seq::empty(),
                commit_error: None,
                outcome_error: None,
            }),
    {
        let mut ids: Vec<String> = Vec::new();
        let mut i: usize = 0;
        while i < participants.len()
            invariant
                i <= participants.len(),
                string_views(ids@) == participants@.subrange(0, i as int).map_values(|p: ParticipantInfo| p.id@),
            decreases participants.len() - i,
        {
            let id = participants[i].id.clone();
            proof {
                lemma_string_views_push(ids@, id);
            }
            ids.push(id);
            assert(participants@.subrange(0, i + 1).map_values(|p: ParticipantInfo| p.id@) =~= participants@.subrange(
                0,
                i as int,
            ).map_values(|p: ParticipantInfo| p.id@).push(participants@[i as int].id@));
            i = i + 1;
        }
        assert(participants@.subrange(0, participants.len() as int) =~= participants@);
        self.stage = Stage::Idle;
        self.mode = mode;
        self.transaction_id = String::from_str(transaction_id);
        self.participants = ids;
        self.votes = Vec::new();
        self.errors = Vec::new();
        self.commit_error = None;
        self.outcome_error = None;
        self.stage = stage;
        assert(vote_views(self.votes@) =~= Seq::empty());
        assert(string_views(self.errors@) =~= Seq::empty());
    }

    /// Starts executing `transaction_id` across `participants`, in their order.
    pub fn execute(&mut self, transaction_id: &str, participants: &[ParticipantInfo]) -> (a: Action)
        ensures
            final(self)@ == (CoordinatorView {
                mode: RunMode::Execute,
                transaction_id: transaction_id@,
                participants: participants@.map_values(|p: ParticipantInfo| p.id@),
                stage: Stage::SavingLog,
                votes: Seq::empty(),
                errors: Seq::empty(),
                commit_error: None,
                outcome_error: None,
            }),
            a == Action::SaveNewLog,
            execution_invariant(final(self)@),
    {
        self.start(RunMode::Execute, transaction_id, participants, Stage::SavingLog);
        assert(participants@.len() == participants.len());
        Action::SaveNewLog
    }

    /// Starts recovering `transaction_id` across `participants`, in their order.
    pub fn recover(&mut self, transaction_id: &str, participants: &[ParticipantInfo]) -> (a: Action)
        ensures
            final(self)@ == (CoordinatorView {
                mode: RunMode::Recover,
                transaction_id: transaction_id@,
                participants: participants@.map_values(|p: ParticipantInfo| p.id@),
                stage: Stage::Loading,
                votes: Seq::empty(),
                errors: Seq::empty(),
                commit_error: None,
                outcome_error: None,
            }),
            a == Action::LoadLog,
    {
        self.start(RunMode::Recover, transaction_id, participants, Stage::Loading);
        Action::LoadLog
    }

    /// The result of the run: nothing while it is in progress (or none was
    /// started), else `Ok` or its error.
    pub fn outcome(&self) -> (r: Option<Result<(), String>>)
        ensures
            self@.stage != Stage::Finished ==> r is None,
            self@.stage == Stage::Finished ==> match self@.outcome_error {
                None => r == Some(Ok::<(), String>(())),
                Some(m) => r matches Some(Err(x)) && x@ == m,
            },
    {
        if self.stage != Stage::Finished {
            return None;
        }
        match &self.outcome_error {
            None => Some(Ok(())),
            Some(m) => Some(Err(m.clone())),
        }
    }

    /// The prepare votes received so far.
    pub fn votes(&self) -> (r: &Vec<VoteResult>)
        ensures
            vote_views(r@) == self@.votes,
    {
        &self.votes
    }

    fn finish_exec(&mut self, err: Option<String>) -> (a: Action)
        ensures
            (final(self)@, a) == finish(old(self)@, opt_view(err)),
    {
        self.stage = Stage::Finished;
        self.outcome_error = err;
        Action::Finish
    }

    fn goto_exec(&mut self, st: Stage, a: Action) -> (r: Action)
        requires
            index_below(st, old(self).participants.len() as int),
        ensures
            (final(self)@, r) == goto(old(self)@, st, a),
    {
        self.stage = st;
        a
    }

    fn record_exec(&mut self, i: usize, e: &Event)
        requires
            i < old(self).participants.len(),
        ensures
            final(self)@ == record(old(self)@, i as int, *e),
    {
        proof {
            use_type_invariant(&*self);
            self.lemma_participants();
        }
        if let Event::Failed(m) = e {
            let line = concat3(self.participants[i].as_str(), ": ", m.as_str());
            proof {
                lemma_string_views_push(self.errors@, line);
            }
            let mut errs: Vec<String> = Vec::new();
            std::mem::swap(&mut errs, &mut self.errors);
            errs.push(line);
            std::mem::swap(&mut errs, &mut self.errors);
        }
    }

    fn prepare_from_exec(&mut self, i: usize) -> (a: Action)
        requires
            i <= old(self).participants.len(),
        ensures
            (final(self)@, a) == prepare_from(old(self)@, i as int),
    {
        proof {
            self.lemma_participants();
        }
        if i < self.participants.len() {
            self.goto_exec(Stage::Preparing(i), Action::Call(ParticipantCall::Prepare, i))
        } else {
            self.goto_exec(Stage::MarkingPrepared, Action::SetStatus(TransactionStatus::Prepared))
        }
    }

    /// Moves the errors of the round just finished into `commit_error`.
    fn close_commit_round(&mut self)
        ensures
            final(self)@ == (CoordinatorView {
                commit_error: Some(joined_errors(old(self)@)),
                errors: Seq::empty(),
                ..old(self)@
            }),
    {
        proof {
            use_type_invariant(&*self);
        }
        let joined = join_strings(self.errors.as_slice(), "; ");
        self.commit_error = Some(joined);
        self.errors = Vec::new();
        assert(string_views(self.errors@) =~= Seq::empty());
    }

    fn commit_from_exec(&mut self, i: usize) -> (a: Action)
        requires
            i <= old(self).participants.len(),
        ensures
            (final(self)@, a) == commit_from(old(self)@, i as int),
    {
        proof {
            self.lemma_participants();
        }
        if i < self.participants.len() {
            self.goto_exec(Stage::Committing(i), Action::Call(ParticipantCall::Commit, i))
        } else if self.errors.len() == 0 {
            self.goto_exec(Stage::MarkingCommitted, Action::SetStatus(TransactionStatus::Committed))
        } else {
            self.close_commit_round();
            self.goto_exec(Stage::MarkingRollingBack, Action::SetStatus(TransactionStatus::RollingBack))
        }
    }

    fn rollback_from_exec(&mut self, i: usize) -> (a: Action)
        requires
            i <= old(self).participants.len(),
        ensures
            (final(self)@, a) == rollback_from(old(self)@, i as int),
    {
        proof {
            self.lemma_participants();
        }
        if i < self.participants.len() {
            self.goto_exec(Stage::RollingBack(i), Action::Call(ParticipantCall::Rollback, i))
        } else {
            self.goto_exec(Stage::MarkingRolledBack, Action::SetStatus(TransactionStatus::RolledBack))
        }
    }

    fn finish_with_errors(&mut self) -> (a: Action)
        ensures
            (final(self)@, a) == finish(old(self)@, Some(joined_errors(old(self)@))),
    {
        let joined = join_strings(self.errors.as_slice(), "; ");
        self.finish_exec(Some(joined))
    }

    fn recover_rollback_from_exec(&mut self, i: usize) -> (a: Action)
        requires
            i <= old(self).participants.len(),
        ensures
            (final(self)@, a) == recover_rollback_from(old(self)@, i as int),
    {
        proof {
            self.lemma_participants();
        }
        if i < self.participants.len() {
            self.goto_exec(Stage::RecoverRollingBack(i), Action::Call(ParticipantCall::Rollback, i))
        } else if self.errors.len() == 0 {
            self.goto_exec(Stage::SettlingRolledBack, Action::SetStatus(TransactionStatus::RolledBack))
        } else {
            self.finish_with_errors()
        }
    }

    fn recover_undo_from_exec(&mut self, i: usize) -> (a: Action)
        requires
            i <= old(self).participants.len(),
        ensures
            (final(self)@, a) == recover_undo_from(old(self)@, i as int),
    {
        proof {
            self.lemma_participants();
        }
        if i < self.participants.len() {
            self.goto_exec(Stage::RecoverUndoing(i), Action::Call(ParticipantCall::Rollback, i))
        } else if self.errors.len() == 0 {
            self.goto_exec(Stage::SettlingUndo, Action::SetStatus(TransactionStatus::RolledBack))
        } else {
            self.finish_with_errors()
        }
    }

    fn recover_commit_from_exec(&mut self, i: usize) -> (a: Action)
        requires
            i <= old(self).participants.len(),
        ensures
            (final(self)@, a) == recover_commit_from(old(self)@, i as int),
    {
        proof {
            self.lemma_participants();
        }
        if i < self.participants.len() {
            self.goto_exec(Stage::RecoverCommitting(i), Action::Call(ParticipantCall::Commit, i))
        } else if self.errors.len() == 0 {
            self.goto_exec(Stage::SettlingCommitted, Action::SetStatus(TransactionStatus::Committed))
        } else {
            self.close_commit_round();
            self.recover_undo_from_exec(0)
        }
    }

    fn recover_from_status_exec(&mut self, status: TransactionStatus) -> (a: Action)
        ensures
            (final(self)@, a) == recover_from_status(old(self)@, status),
    {
        match status {
            TransactionStatus::Preparing | TransactionStatus::Prepared | TransactionStatus::RollingBack => {
                self.recover_rollback_from_exec(0)
            },
            TransactionStatus::Committing => self.recover_commit_from_exec(0),
            TransactionStatus::Committed | TransactionStatus::RolledBack => self.finish_exec(None),
            TransactionStatus::Unknown => {
                let mut m = concat("Unknown transaction status for ", self.transaction_id.as_str());
                m.append(": cannot recover");
                self.finish_exec(Some(m))
            },
        }
    }

    fn push_vote(&mut self, i: usize, vote: bool, reason: Option<String>)
        requires
            i < old(self).participants.len(),
        ensures
            final(self)@ == (CoordinatorView {
                votes: old(self)@.votes.push(
                    VoteRecord { participant_id: old(self)@.participants[i as int], vote, reason: opt_view(reason) },
                ),
                ..old(self)@
            }),
    {
        proof {
            use_type_invariant(&*self);
            self.lemma_participants();
        }
        let v = VoteResult { participant_id: self.participants[i].clone(), vote, reason };
        proof {
            lemma_vote_views_push(self.votes@, v);
        }
        let mut votes: Vec<VoteResult> = Vec::new();
        std::mem::swap(&mut votes, &mut self.votes);
        votes.push(v);
        std::mem::swap(&mut votes, &mut self.votes);
    }

    /// Feeds back the outcome of the last action and returns the next one.
    pub fn step(&mut self, event: &Event) -> (a: Action)
        ensures
            (final(self)@, a) == next(old(self)@, *event),
    {
        proof {
            use_type_invariant(&*self);
            self.lemma_participants();
        }
        let failed = failure_exec(event);
        match self.stage {
            Stage::Idle | Stage::Finished => Action::Finish,
            Stage::SavingLog => match failed {
                Some(m) => self.finish_exec(Some(m)),
                None => self.goto_exec(Stage::CreatingState, Action::CreateState),
            },
            Stage::CreatingState => match failed {
                Some(m) => self.finish_exec(Some(m)),
                None => self.goto_exec(Stage::MarkingPreparing, Action::SetStatus(TransactionStatus::Preparing)),
            },
            Stage::MarkingPreparing => match failed {
                Some(m) => self.finish_exec(Some(m)),
                None => self.prepare_from_exec(0),
            },
            Stage::Preparing(i) => match failed {
                Some(m) => {
                    self.push_vote(i, false, Some(m));
                    self.goto_exec(Stage::MarkingRollingBack, Action::SetStatus(TransactionStatus::RollingBack))
                },
                None => {
                    self.push_vote(i, true, None);
                    self.prepare_from_exec(i + 1)
                },
            },
            Stage::MarkingPrepared => match failed {
                Some(m) => self.finish_exec(Some(m)),
                None => self.goto_exec(Stage::MarkingCommitting, Action::SetStatus(TransactionStatus::Committing)),
            },
            Stage::MarkingCommitting => match failed {
                Some(m) => self.finish_exec(Some(m)),
                None => self.commit_from_exec(0),
            },
            Stage::Committing(i) => {
                self.record_exec(i, event);
                self.commit_from_exec(i + 1)
            },
            Stage::MarkingCommitted => match failed {
                Some(m) => self.finish_exec(Some(m)),
                None => self.goto_exec(Stage::CompletingState, Action::MarkState(StateMark::Completed)),
            },
            Stage::CompletingState => self.finish_exec(None),
            Stage::MarkingRollingBack => match failed {
                Some(m) => self.finish_exec(Some(m)),
                None => self.rollback_from_exec(0),
            },
            Stage::RollingBack(i) => self.rollback_from_exec(i + 1),
            Stage::MarkingRolledBack => match failed {
                Some(m) => self.finish_exec(Some(m)),
                None => self.goto_exec(Stage::FailingState, Action::MarkState(StateMark::Failed)),
            },
            Stage::FailingState => {
                let msg = match &self.commit_error {
                    Some(c) => commit_failure_text(c.as_str()),
                    None => prepare_failure_text(&self.votes),
                };
                self.finish_exec(Some(msg))
            },
            Stage::Loading => match event {
                Event::Failed(m) => self.finish_exec(Some(m.clone())),
                Event::Loaded(Some(t)) => {
                    let status = TransactionStatus::from_str(t.as_str());
                    self.recover_from_status_exec(status)
                },
                _ => {
                    let m = concat("No transaction log found for: ", self.transaction_id.as_str());
                    self.finish_exec(Some(m))
                },
            },
            Stage::RecoverRollingBack(i) => {
                self.record_exec(i, event);
                self.recover_rollback_from_exec(i + 1)
            },
            Stage::SettlingRolledBack | Stage::SettlingCommitted => match failed {
                Some(m) => self.finish_exec(Some(m)),
                None => self.finish_exec(None),
            },
            Stage::RecoverCommitting(i) => {
                self.record_exec(i, event);
                self.recover_commit_from_exec(i + 1)
            },
            Stage::RecoverUndoing(i) => {
                self.record_exec(i, event);
                self.recover_undo_from_exec(i + 1)
            },
            Stage::SettlingUndo => {
                let saved: Option<String> = match &self.commit_error {
                    Some(c) => Some(c.clone()),
                    None => None,
                };
                match saved {
                    Some(c) => match failed {
                        Some(_) => self.finish_exec(Some(c)),
                        None => {
                            let m = concat("Recovery failed during commit: ", c.as_str());
                            self.finish_exec(Some(m))
                        },
                    },
                    None => match failed {
                        Some(m) => self.finish_exec(Some(m)),
                        None => self.finish_exec(None),
                    },
                }
            },
        }
    }
}

/// Every vote is a yes.
pub open spec fn all_yes(votes: Seq<VoteRecord>) -> bool {
    forall|k: int| 0 <= k < votes.len() ==> #[trigger] votes[k].vote
}

/// The votes are yes up to a last one that is a no.
pub open spec fn rejected_last(votes: Seq<VoteRecord>) -> bool {
    &&& votes.len() > 0
    &&& !votes.last().vote
    &&& all_yes(votes.drop_last())
}

/// What holds at every point of an execution (as opposed to a recovery).
pub open spec fn execution_invariant(s: CoordinatorView) -> bool {
    let n = s.participants.len();
    &&& s.mode == RunMode::Execute
    &&& n <= usize::MAX
    &&& index_below(s.stage, n as int)
    &&& match s.stage {
        Stage::Idle | Stage::SavingLog | Stage::CreatingState | Stage::MarkingPreparing => {
            &&& s.votes.len() == 0
            &&& s.commit_error is None
            &&& s.errors.len() == 0
        },
        Stage::Preparing(i) => {
            &&& s.votes.len() == i
            &&& all_yes(s.votes)
            &&& s.commit_error is None
            &&& s.errors.len() == 0
        },
        Stage::MarkingPrepared | Stage::MarkingCommitting | Stage::MarkingCommitted | Stage::CompletingState => {
            &&& s.votes.len() == n
            &&& all_yes(s.votes)
            &&& s.commit_error is None
            &&& s.errors.len() == 0
        },
        Stage::Committing(_) => {
            &&& s.votes.len() == n
            &&& all_yes(s.votes)
            &&& s.commit_error is None
        },
        Stage::MarkingRollingBack | Stage::RollingBack(_) | Stage::MarkingRolledBack | Stage::FailingState => {
            ||| (s.commit_error is Some && s.votes.len() == n && all_yes(s.votes))
            ||| (s.commit_error is None && rejected_last(s.votes) && s.votes.len() <= n)
        },
        Stage::Finished => true,
        _ => false,
    }
}

proof fn lemma_push_yes(votes: Seq<VoteRecord>, v: VoteRecord)
    requires
        all_yes(votes),
        v.vote,
    ensures
        all_yes(votes.push(v)),
{
    assert forall|k: int| 0 <= k < votes.push(v).len() implies #[trigger] votes.push(v)[k].vote by {
        if k < votes.len() {
            assert(votes.push(v)[k] == votes[k]);
        }
    }
}

proof fn lemma_push_no(votes: Seq<VoteRecord>, v: VoteRecord)
    requires
        all_yes(votes),
        !v.vote,
    ensures
        rejected_last(votes.push(v)),
        !all_yes(votes.push(v)),
{
    assert(votes.push(v).drop_last() =~= votes);
    assert(!votes.push(v)[votes.len() as int].vote);
}

/// Every step of an execution keeps the execution invariant.
pub proof fn law_execution_invariant_is_kept(s: CoordinatorView, e: Event)
    requires
        execution_invariant(s),
    ensures
        execution_invariant(next(s, e).0),
{
    match s.stage {
        Stage::Preparing(i) => {
            match failure_of(e) {
                Some(m) => lemma_push_no(s.votes, no_vote(s, i as int, m)),
                None => lemma_push_yes(s.votes, yes_vote(s, i as int)),
            }
        },
        _ => {},
    }
}

/// A participant is asked to commit only once every participant has voted yes.
pub proof fn law_commit_requires_unanimous_yes(s: CoordinatorView, e: Event)
    requires
        execution_invariant(s),
        next(s, e).1 matches Action::Call(ParticipantCall::Commit, _),
    ensures
        next(s, e).0.votes.len() == s.participants.len(),
        all_yes(next(s, e).0.votes),
{
    match s.stage {
        Stage::Preparing(i) => {
            match failure_of(e) {
                Some(m) => {},
                None => lemma_push_yes(s.votes, yes_vote(s, i as int)),
            }
        },
        _ => {},
    }
}

/// Once a participant has voted no, nobody is asked to prepare or to commit.
pub proof fn law_rejection_ends_prepare_and_commit(s: CoordinatorView, e: Event)
    requires
        execution_invariant(s),
        !all_yes(s.votes),
    ensures
        !(next(s, e).1 matches Action::Call(ParticipantCall::Prepare, _)),
        !(next(s, e).1 matches Action::Call(ParticipantCall::Commit, _)),
{
}

/// A rejected prepare is answered by marking the transaction rolling back.
pub proof fn law_rejected_prepare_starts_rollback(s: CoordinatorView, e: Event)
    requires
        execution_invariant(s),
        s.stage matches Stage::Preparing(_),
        e is Failed,
    ensures
        next(s, e).1 == Action::SetStatus(TransactionStatus::RollingBack),
        rejected_last(next(s, e).0.votes),
{
    if let Stage::Preparing(i) = s.stage {
        lemma_push_no(s.votes, no_vote(s, i as int, failure_of(e)->0));
    }
}

/// An execution ends without error only after every participant voted yes,
/// every commit succeeded and the committed status was written.
pub proof fn law_execution_succeeds_only_when_committed(s: CoordinatorView, e: Event)
    requires
        execution_invariant(s),
        s.stage != Stage::Finished,
        next(s, e).0.stage == Stage::Finished,
        next(s, e).0.outcome_error is None,
    ensures
        s.stage == Stage::CompletingState,
        s.votes.len() == s.participants.len(),
        all_yes(s.votes),
        s.commit_error is None,
        s.errors.len() == 0,
{
}

/// The completion mark is reached only through a successful write of the
/// committed status.
pub proof fn law_completion_follows_committed_status(s: CoordinatorView, e: Event)
    requires
        execution_invariant(s),
        s.stage != Stage::CompletingState,
        next(s, e).0.stage == Stage::CompletingState,
    ensures
        s.stage == Stage::MarkingCommitted,
        failure_of(e) is None,
{
}

/// A failing rollback does not stop the rollback round of an execution.
pub proof fn law_execution_rollback_ignores_failures(s: CoordinatorView, e1: Event, e2: Event)
    requires
        s.stage matches Stage::RollingBack(_),
    ensures
        next(s, e1) == next(s, e2),
{
}

/// Recovering a transaction whose log says committed or rolled back contacts
/// no participant and succeeds.
pub proof fn law_recovery_of_settled_transaction_is_noop(s: CoordinatorView, t: String)
    requires
        s.stage == Stage::Loading,
        status_from_text(t@) == TransactionStatus::Committed || status_from_text(t@)
            == TransactionStatus::RolledBack,
    ensures
        next(s, Event::Loaded(Some(t))) == finish(s, None),
{
}

/// Recovering a transaction whose log holds an unknown status fails without
/// contacting any participant.
pub proof fn law_recovery_of_unknown_status_fails(s: CoordinatorView, t: String)
    requires
        s.stage == Stage::Loading,
        status_from_text(t@) == TransactionStatus::Unknown,
    ensures
        next(s, Event::Loaded(Some(t))) == finish(s, Some(unknown_status_message(s.transaction_id))),
{
}

/// Recovering a transaction with no log fails without contacting any participant.
pub proof fn law_recovery_without_log_fails(s: CoordinatorView)
    requires
        s.stage == Stage::Loading,
    ensures
        next(s, Event::Loaded(None)) == finish(s, Some(missing_log_message(s.transaction_id))),
{
}

/// Recovery finishes what the log says was under way: a transaction caught
/// committing is committed at every participant, one caught preparing,
/// prepared or rolling back is rolled back at every participant.
pub proof fn law_recovery_resumes_logged_phase(s: CoordinatorView, t: String)
    requires
        s.stage == Stage::Loading,
        s.participants.len() > 0,
    ensures
        status_from_text(t@) == TransactionStatus::Committing ==> next(s, Event::Loaded(Some(t))).1
            == Action::Call(ParticipantCall::Commit, 0),
        (status_from_text(t@) == TransactionStatus::Preparing || status_from_text(t@)
            == TransactionStatus::Prepared || status_from_text(t@) == TransactionStatus::RollingBack) ==> next(
            s,
            Event::Loaded(Some(t)),
        ).1 == Action::Call(ParticipantCall::Rollback, 0),
{
}

} // verus!
