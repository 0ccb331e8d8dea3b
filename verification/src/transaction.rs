//! Renaming a batch as one transaction: every file goes to a temporary name
//! first and to its target second, every rename that succeeded is written to a
//! journal, and a failure undoes what was done so far.
use vstd::prelude::*;
use vstd::string::StringExecFns;
use crate::fs::{FileSystem, IoFailure};
use crate::paths::{with_file_name, with_file_name_of};
use crate::text::{decimal_of, push_decimal, text_of};

verus! {

/// One rename that was carried out.
#[derive(Debug, Clone, PartialEq, Eq)]
pub struct TransactionStep {
    pub from: String,
    pub to: String,
}

/// The mathematical value of a [`TransactionStep`].
pub struct StepModel {
    pub from: Seq<char>,
    pub to: Seq<char>,
}

impl View for TransactionStep {
    type V = StepModel;

    open spec fn view(&self) -> StepModel {
        StepModel { from: self.from@, to: self.to@ }
    }
}

/// The values of a list of steps.
pub open spec fn step_models(steps: Seq<TransactionStep>) -> Seq<StepModel> {
    Seq::new(steps.len(), |i: int| steps[i]@)
}

/// The record of one transaction: the renames to temporary names that
/// succeeded, the renames to targets that succeeded, and whether all of them
/// did. Steps are only ever appended.
#[derive(Debug, Clone)]
pub struct TransactionJournal {
    pub id: String,
    pub phase1: Vec<TransactionStep>,
    pub phase2: Vec<TransactionStep>,
    pub completed: bool,
}

/// The mathematical value of a [`TransactionJournal`].
pub struct JournalModel {
    pub id: Seq<char>,
    pub phase1: Seq<StepModel>,
    pub phase2: Seq<StepModel>,
    pub completed: bool,
}

impl View for TransactionJournal {
    type V = JournalModel;

    open spec fn view(&self) -> JournalModel {
        JournalModel {
            id: self.id@,
            phase1: step_models(self.phase1@),
            phase2: step_models(self.phase2@),
            completed: self.completed,
        }
    }
}

/// The values of a list of plans: pairs of source and target.
pub open spec fn plan_models(plans: Seq<(String, String)>) -> Seq<(Seq<char>, Seq<char>)> {
    Seq::new(plans.len(), |i: int| (plans[i].0@, plans[i].1@))
}

/// What went wrong in a transaction.
#[derive(Debug, Clone, PartialEq, Eq)]
pub enum TransactionError {
    /// The journal is not that of a completed transaction, so there is
    /// nothing to undo.
    NotUndoable,
    /// The filesystem refused the rename of `from` to `to` while a journal
    /// was being undone.
    RenameFailed { from: String, to: String, cause: IoFailure },
    /// The plan to rename `source` to `target` broke off because the
    /// filesystem refused the rename of `from` to `to`, one of the two renames
    /// that the plan is made of.
    PlanFailed { source: String, target: String, from: String, to: String, cause: IoFailure },
    /// The preview holds `count` items with conflicts, so nothing of it may
    /// be renamed.
    Conflicts { count: usize },
}

impl TransactionError {
    /// Whether this error says that the rename of `from` to `to` failed.
    pub open spec fn names(&self, from: Seq<char>, to: Seq<char>) -> bool {
        self matches TransactionError::RenameFailed { from: f, to: t, .. } && f@ == from && t@
            == to
    }

    /// The text of the error as a sequence of characters.
    pub open spec fn spec_message(&self) -> Seq<char> {
        match self {
            TransactionError::NotUndoable => "Cannot undo incomplete transaction"@,
            TransactionError::RenameFailed { from, to, cause } => "Cannot rename "@ + from@
                + " to "@ + to@ + ": "@ + cause.message@,
            TransactionError::PlanFailed { source, target, from, to, cause } => "Cannot rename "@
                + source@ + " to "@ + target@ + ": the rename of "@ + from@ + " to "@ + to@
                + " failed: "@ + cause.message@,
            TransactionError::Conflicts { count } => "Cannot commit: "@ + decimal_of(*count as nat)
                + " conflicts detected."@,
        }
    }

    /// The text of the error, for a reader.
    pub fn message(&self) -> (r: String)
        ensures
            r@ == self.spec_message(),
    {
        match self {
            TransactionError::NotUndoable => String::from_str("Cannot undo incomplete transaction"),
            TransactionError::RenameFailed { from, to, cause } => {
                let mut out = String::from_str("Cannot rename ");
                out.append(from.as_str());
                out.append(" to ");
                out.append(to.as_str());
                out.append(": ");
                out.append(cause.message.as_str());
                out
            },
            TransactionError::PlanFailed { source, target, from, to, cause } => {
                let mut out = String::from_str("Cannot rename ");
                out.append(source.as_str());
                out.append(" to ");
                out.append(target.as_str());
                out.append(": the rename of ");
                out.append(from.as_str());
                out.append(" to ");
                out.append(to.as_str());
                out.append(" failed: ");
                out.append(cause.message.as_str());
                out
            },
            TransactionError::Conflicts { count } => {
                let mut digits: Vec<char> = Vec::new();
                push_decimal(&mut digits, *count as u128);
                let number = text_of(&digits);
                let mut out = String::from_str("Cannot commit: ");
                out.append(number.as_str());
                out.append(" conflicts detected.");
                assert(digits@ =~= decimal_of(*count as nat));
                out
            },
        }
    }
}

/// The file name of a temporary made from a token.
pub open spec fn temp_name(token: Seq<char>) -> Seq<char> {
    "gravity-"@ + token + ".tmp"@
}

/// Whether `temp` is a temporary for `source`: a path in the directory of
/// `source` whose file name is a temporary name.
pub open spec fn temp_for(source: Seq<char>, temp: Seq<char>) -> bool {
    exists|token: Seq<char>| temp == with_file_name_of(source, #[trigger] temp_name(token))
}

/// Whether a journal is the record of a transaction over `plans`, complete or
/// broken off: the first phase has a step for each of the first plans, from
/// the source to a temporary beside it; the second phase starts only when the
/// first is through, and has a step for each of the first plans, from the
/// temporary to the target; and the journal is completed exactly when both
/// phases have a step for every plan.
pub open spec fn records(journal: JournalModel, plans: Seq<(Seq<char>, Seq<char>)>) -> bool {
    &&& journal.phase1.len() <= plans.len()
    &&& journal.phase2.len() <= journal.phase1.len()
    &&& journal.phase2.len() > 0 ==> journal.phase1.len() == plans.len()
    &&& forall|i: int|
        0 <= i < journal.phase1.len() ==> (#[trigger] journal.phase1[i]).from == plans[i].0
            && temp_for(plans[i].0, journal.phase1[i].to)
    &&& forall|i: int|
        0 <= i < journal.phase2.len() ==> (#[trigger] journal.phase2[i]).from
            == journal.phase1[i].to && journal.phase2[i].to == plans[i].1
    &&& journal.completed <==> journal.phase1.len() == plans.len() && journal.phase2.len()
        == plans.len()
}

/// Whether an error says that the plan to rename `source` to `target` broke
/// off at the rename of `from` to `to`.
pub open spec fn blames(
    error: &TransactionError,
    source: Seq<char>,
    target: Seq<char>,
    from: Seq<char>,
    to: Seq<char>,
) -> bool {
    error matches TransactionError::PlanFailed { source: s, target: g, from: f, to: t, .. } && s@
        == source && g@ == target && f@ == from && t@ == to
}

/// Whether an error tells where a transaction over `plans` broke off, given
/// its journal. While the first phase is not through, the plan is the one
/// after the last step of the first phase, and the rename that failed is the
/// one from its source to a temporary beside it. Afterwards the plan is the
/// one after the last step of the second phase, and the rename that failed is
/// the one from its temporary to its target.
pub open spec fn broke_at(
    journal: JournalModel,
    plans: Seq<(Seq<char>, Seq<char>)>,
    error: &TransactionError,
) -> bool {
    if journal.phase1.len() < plans.len() {
        let plan = plans[journal.phase1.len() as int];
        exists|temp: Seq<char>|
            temp_for(plan.0, temp) && #[trigger] blames(error, plan.0, plan.1, plan.0, temp)
    } else {
        let plan = plans[journal.phase2.len() as int];
        journal.phase2.len() < plans.len() && blames(
            error,
            plan.0,
            plan.1,
            journal.phase1[journal.phase2.len() as int].to,
            plan.1,
        )
    }
}

/// How many answers of the filesystem precede its first refusal: the place of
/// the first answer that is an error, or the number of answers where none is.
pub open spec fn first_refusal(answers: Seq<Result<(), IoFailure>>) -> int
    decreases answers.len(),
{
    if answers.len() == 0 {
        0
    } else if answers[0] is Err {
        0
    } else {
        1 + first_refusal(answers.drop_first())
    }
}

/// What a transaction comes to.
pub enum Outcome {
    /// Every rename was made.
    Done { journal: JournalModel },
    /// The plan to rename `source` to `target` broke off at the rename of
    /// `from` to `to`, which the filesystem refused for `cause`.
    Broke {
        journal: JournalModel,
        source: Seq<char>,
        target: Seq<char>,
        from: Seq<char>,
        to: Seq<char>,
        cause: IoFailure,
    },
}

/// What a transaction over `plans` comes to, given the temporary of each plan
/// and what the filesystem answers to the renames in the order in which they
/// are made: first every source to its temporary, then every temporary to its
/// target. The renames before the first refusal are in the journal, the first
/// phase before the second. Where nothing is refused the journal is
/// completed; else the transaction broke off at the rename that was refused.
/// Answers after the first refusal are never asked for.
pub open spec fn settled(
    id: Seq<char>,
    plans: Seq<(Seq<char>, Seq<char>)>,
    temps: Seq<Seq<char>>,
    answers: Seq<Result<(), IoFailure>>,
) -> Outcome {
    let n = plans.len() as int;
    let made = first_refusal(answers);
    let moved = if made < n {
        made
    } else {
        n
    };
    let placed = if made < n {
        0
    } else if made < 2 * n {
        made - n
    } else {
        n
    };
    let journal = JournalModel {
        id,
        phase1: Seq::new(moved as nat, |i: int| StepModel { from: plans[i].0, to: temps[i] }),
        phase2: Seq::new(placed as nat, |i: int| StepModel { from: temps[i], to: plans[i].1 }),
        completed: made >= 2 * n,
    };
    if made >= 2 * n {
        Outcome::Done { journal }
    } else if made < n {
        Outcome::Broke {
            journal,
            source: plans[made].0,
            target: plans[made].1,
            from: plans[made].0,
            to: temps[made],
            cause: answers[made]->Err_0,
        }
    } else {
        Outcome::Broke {
            journal,
            source: plans[made - n].0,
            target: plans[made - n].1,
            from: temps[made - n],
            to: plans[made - n].1,
            cause: answers[made]->Err_0,
        }
    }
}

/// Whether the result of a transaction is a given outcome.
pub open spec fn comes_to(
    r: Result<TransactionJournal, (TransactionJournal, TransactionError)>,
    outcome: Outcome,
) -> bool {
    match r {
        Ok(journal) => outcome == (Outcome::Done { journal: journal@ }),
        Err((journal, error)) => outcome matches Outcome::Broke {
            journal: broken,
            source,
            target,
            from,
            to,
            cause,
        } && broken == journal@ && blames(&error, source, target, from, to) && (error
            matches TransactionError::PlanFailed { cause: given, .. } && given == cause),
    }
}

/// The identifier of the journal that a transaction came back with.
pub open spec fn journal_id(
    r: Result<TransactionJournal, (TransactionJournal, TransactionError)>,
) -> Seq<char> {
    match r {
        Ok(journal) => journal.id@,
        Err((journal, _)) => journal.id@,
    }
}

/// Whether the result of a transaction over `plans` is what the temporaries
/// and the answers of the filesystem make it: there is a temporary beside the
/// source of every plan, the answers are those to the renames that were made
/// and to the one that was refused, if any, and the result is what
/// [`settled`] says.
pub open spec fn explained_by(
    r: Result<TransactionJournal, (TransactionJournal, TransactionError)>,
    plans: Seq<(Seq<char>, Seq<char>)>,
    temps: Seq<Seq<char>>,
    answers: Seq<Result<(), IoFailure>>,
) -> bool {
    &&& temps.len() == plans.len()
    &&& forall|i: int| 0 <= i < plans.len() ==> temp_for(plans[i].0, #[trigger] temps[i])
    &&& first_refusal(answers) < answers.len() || answers.len() == 2 * plans.len()
    &&& comes_to(r, settled(journal_id(r), plans, temps, answers))
}

/// Where every answer is a success, no answer is the first refusal.
pub proof fn lemma_no_refusal(answers: Seq<Result<(), IoFailure>>)
    requires
        forall|k: int| 0 <= k < answers.len() ==> #[trigger] answers[k] is Ok,
    ensures
        first_refusal(answers) == answers.len(),
    decreases answers.len(),
{
    if answers.len() > 0 {
        assert(answers[0] is Ok);
        let rest = answers.drop_first();
        assert forall|k: int| 0 <= k < rest.len() implies #[trigger] rest[k] is Ok by {
            assert(answers[k + 1] is Ok);
        }
        lemma_no_refusal(answers.drop_first());
    }
}

/// The first refusal is the first answer that is an error.
pub proof fn lemma_first_refusal(answers: Seq<Result<(), IoFailure>>, at: int)
    requires
        0 <= at < answers.len(),
        answers[at] is Err,
        forall|k: int| 0 <= k < at ==> #[trigger] answers[k] is Ok,
    ensures
        first_refusal(answers) == at,
    decreases answers.len(),
{
    if at > 0 {
        assert(answers[0] is Ok);
        assert forall|k: int| 0 <= k < at - 1 implies #[trigger] answers.drop_first()[k] is Ok by {
            assert(answers[k + 1] is Ok);
        }
        assert(answers.drop_first()[at - 1] == answers[at]);
        lemma_first_refusal(answers.drop_first(), at - 1);
    }
}

/// Where the filesystem makes every rename, the transaction is completed and
/// its journal holds both renames of every plan, in the order of the plans.
pub proof fn lemma_all_made_is_done(
    id: Seq<char>,
    plans: Seq<(Seq<char>, Seq<char>)>,
    temps: Seq<Seq<char>>,
    answers: Seq<Result<(), IoFailure>>,
)
    requires
        answers.len() == 2 * plans.len(),
        forall|k: int| 0 <= k < answers.len() ==> #[trigger] answers[k] is Ok,
    ensures
        settled(id, plans, temps, answers) matches Outcome::Done { journal } && journal.completed
            && journal.phase1.len() == plans.len() && journal.phase2.len() == plans.len()
            && (forall|i: int|
            0 <= i < plans.len() ==> (#[trigger] journal.phase1[i]).from == plans[i].0
                && journal.phase2[i].from == journal.phase1[i].to && journal.phase2[i].to
                == plans[i].1),
{
    lemma_no_refusal(answers);
}

/// Where the filesystem refuses a rename of the first phase, the journal holds
/// the renames of the first phase that were made before it and nothing of the
/// second phase, it is not completed, and the outcome names the plan that
/// broke off, its source and target, and the cause that the filesystem gave.
pub proof fn lemma_refusal_in_first_phase(
    id: Seq<char>,
    plans: Seq<(Seq<char>, Seq<char>)>,
    temps: Seq<Seq<char>>,
    answers: Seq<Result<(), IoFailure>>,
    at: int,
)
    requires
        0 <= at < plans.len(),
        at < answers.len(),
        answers[at] is Err,
        forall|k: int| 0 <= k < at ==> #[trigger] answers[k] is Ok,
    ensures
        settled(id, plans, temps, answers) matches Outcome::Broke {
            journal,
            source,
            target,
            from,
            to,
            cause,
        } && journal.phase1.len() == at && journal.phase2.len() == 0 && !journal.completed
            && source == plans[at].0 && target == plans[at].1 && from == plans[at].0 && to
            == temps[at] && cause == answers[at]->Err_0 && (forall|i: int|
            0 <= i < at ==> #[trigger] journal.phase1[i] == (StepModel {
                from: plans[i].0,
                to: temps[i],
            })),
{
    lemma_first_refusal(answers, at);
}

/// Where the filesystem refuses a rename of the second phase, the journal
/// holds the whole first phase and the renames of the second phase that were
/// made before it, it is not completed, and the outcome names the plan that
/// broke off, the rename from its temporary to its target, and the cause that
/// the filesystem gave.
pub proof fn lemma_refusal_in_second_phase(
    id: Seq<char>,
    plans: Seq<(Seq<char>, Seq<char>)>,
    temps: Seq<Seq<char>>,
    answers: Seq<Result<(), IoFailure>>,
    at: int,
)
    requires
        0 <= at < plans.len(),
        plans.len() + at < answers.len(),
        answers[plans.len() + at] is Err,
        forall|k: int| 0 <= k < plans.len() + at ==> #[trigger] answers[k] is Ok,
    ensures
        settled(id, plans, temps, answers) matches Outcome::Broke {
            journal,
            source,
            target,
            from,
            to,
            cause,
        } && journal.phase1.len() == plans.len() && journal.phase2.len() == at
            && !journal.completed && source == plans[at].0 && target == plans[at].1 && from
            == temps[at] && to == plans[at].1 && cause == answers[plans.len() + at]->Err_0,
{
    lemma_first_refusal(answers, plans.len() + at);
}

/// Whether the result of making a list of renames in order, up to the first
/// that is refused, is what the answers of the filesystem make it: the answers
/// are those to the renames that were made and to the one that was refused, if
/// any; where nothing is refused the result is `Ok`; else it is the error that
/// names the rename that was refused and carries the cause that the
/// filesystem gave.
pub open spec fn attempted(
    r: Result<(), TransactionError>,
    steps: Seq<StepModel>,
    answers: Seq<Result<(), IoFailure>>,
) -> bool {
    let made = first_refusal(answers);
    &&& answers.len() <= steps.len()
    &&& made < answers.len() || answers.len() == steps.len()
    &&& if made == steps.len() {
        r is Ok
    } else {
        r matches Err(error) && error.names(steps[made].from, steps[made].to) && (error
            matches TransactionError::RenameFailed { cause, .. } && cause
            == answers[made]->Err_0)
    }
}

/// The renames that undo a list of steps: the steps from the last to the
/// first, each turned round.
pub open spec fn turned_back(steps: Seq<StepModel>) -> Seq<StepModel> {
    Seq::new(
        steps.len(),
        |i: int|
            StepModel { from: steps[steps.len() - 1 - i].to, to: steps[steps.len() - 1 - i].from },
    )
}

/// The renames that undo a journal, in the order in which they are made: the
/// second phase turned back, then the first.
pub open spec fn undo_steps(journal: JournalModel) -> Seq<StepModel> {
    turned_back(journal.phase2) + turned_back(journal.phase1)
}

/// Trusted: calls `uuid::Uuid::new_v4` and hands the identifier back in its
/// hyphenated text form. The identifier is random, so nothing is claimed of
/// it. The call panics where the operating system cannot supply random bytes.
#[verifier::external_body]
pub(crate) fn fresh_token() -> (r: String) {
    uuid::Uuid::new_v4().to_string()
}

/// The temporary path for a source: a file beside the source whose name is
/// made from the token.
pub fn temp_path(source: &str, token: &str) -> (r: String)
    ensures
        r@ == with_file_name_of(source@, temp_name(token@)),
{
    let mut name = String::from_str("gravity-");
    name.append(token);
    name.append(".tmp");
    with_file_name(source, name.as_str())
}

/// An empty journal with the given identifier.
pub fn open_journal(id: String) -> (r: TransactionJournal)
    ensures
        r@ == (JournalModel {
            id: id@,
            phase1: Seq::empty(),
            phase2: Seq::empty(),
            completed: false,
        }),
        r.phase1@.len() == 0,
        r.phase2@.len() == 0,
{
    let journal = TransactionJournal {
        id,
        phase1: Vec::new(),
        phase2: Vec::new(),
        completed: false,
    };
    proof {
        assert(journal@.phase1 =~= Seq::<StepModel>::empty());
        assert(journal@.phase2 =~= Seq::<StepModel>::empty());
    }
    journal
}

/// Renames batches over a filesystem.
pub struct TransactionExecutor<'a, F: FileSystem> {
    fs: &'a F,
}

impl<'a, F: FileSystem> TransactionExecutor<'a, F> {
    /// The filesystem that the executor renames on.
    pub closed spec fn filesystem(&self) -> &'a F {
        self.fs
    }

    /// An executor that renames on the given filesystem.
    pub fn new(fs: &'a F) -> (r: Self)
        ensures
            r.filesystem() == fs,
    {
        TransactionExecutor { fs }
    }

    /// Renames every source of `plans` to its target, in two phases: first
    /// each source to a fresh temporary beside it, then each temporary to its
    /// target, both in the order of the plans. Every rename that succeeded is
    /// in the journal, as [`record_rename`] puts it there. The first rename
    /// that fails ends the transaction: what was done is turned back, last
    /// step first, failures of that ignored, and the journal comes back with
    /// the error, which names the plan that broke off, the rename that failed
    /// and the cause. With no plans there is nothing that can fail. Given the
    /// temporaries and what the filesystem answered to each rename, the result
    /// is what [`settled`] says.
    pub fn execute(&self, plans: &Vec<(String, String)>) -> (r: Result<
        TransactionJournal,
        (TransactionJournal, TransactionError),
    >)
        ensures
            match r {
                Ok(journal) => records(journal@, plan_models(plans@)) && journal.completed,
                Err((journal, error)) => records(journal@, plan_models(plans@))
                    && !journal.completed && broke_at(journal@, plan_models(plans@), &error),
            },
            exists|temps: Seq<Seq<char>>, answers: Seq<Result<(), IoFailure>>| #[trigger]
                explained_by(r, plan_models(plans@), temps, answers),
            plans.len() == 0 ==> r is Ok,
    {
        let ghost wanted = plan_models(plans@);
        let mut journal = open_journal(fresh_token());
        let ghost id = journal.id@;
        let ghost mut temps: Seq<Seq<char>> = Seq::empty();
        let ghost mut answers: Seq<Result<(), IoFailure>> = Seq::empty();
        let mut i: usize = 0;
        while i < plans.len()
            invariant
                i <= plans.len(),
                wanted == plan_models(plans@),
                journal.id@ == id,
                journal.phase1.len() == i,
                journal.phase2.len() == 0,
                !journal.completed,
                temps.len() == i,
                answers.len() == i,
                forall|k: int| 0 <= k < i ==> #[trigger] answers[k] is Ok,
                forall|k: int| 0 <= k < i ==> temp_for(wanted[k].0, #[trigger] temps[k]),
                forall|k: int|
                    0 <= k < i ==> #[trigger] journal@.phase1[k] == (StepModel {
                        from: wanted[k].0,
                        to: temps[k],
                    }),
            decreases plans.len() - i,
        {
            let plan = &plans[i];
            let token = fresh_token();
            let step = TransactionStep {
                from: plan.0.clone(),
                to: temp_path(plan.0.as_str(), token.as_str()),
            };
            proof {
                assert(step@.to == with_file_name_of(plan.0@, temp_name(token@)));
                assert(temp_for(plan.0@, step@.to));
                assert(wanted[i as int] == (plan.0@, plan.1@));
            }
            let ghost before = journal@.phase1;
            let outcome = self.fs.rename(step.from.as_str(), step.to.as_str());
            let ghost answer = outcome;
            match record_rename(&mut journal.phase1, plan, step, outcome) {
                Err(error) => {
                    self.rollback_phase1(&journal);
                    proof {
                        assert(journal@.phase1 == before);
                        assert(journal.phase1.len() == journal@.phase1.len());
                        assert(journal@.phase2 =~= Seq::<StepModel>::empty());
                        assert(records(journal@, wanted));
                        let broken = wanted[i as int];
                        assert(blames(&error, broken.0, broken.1, broken.0, step@.to));
                        assert(broke_at(journal@, wanted, &error));
                        let all_temps = Seq::new(
                            wanted.len(),
                            |k: int|
                                if k < i {
                                    temps[k]
                                } else if k == i {
                                    step@.to
                                } else {
                                    with_file_name_of(wanted[k].0, temp_name(Seq::empty()))
                                },
                        );
                        let all_answers = answers.push(answer);
                        lemma_first_refusal(all_answers, i as int);
                        let result: Result<
                            TransactionJournal,
                            (TransactionJournal, TransactionError),
                        > = Err((journal, error));
                        let told = settled(id, wanted, all_temps, all_answers);
                        assert(told matches Outcome::Broke { journal: broken_journal, .. }
                            && broken_journal.phase1 =~= journal@.phase1 && broken_journal.phase2
                            =~= journal@.phase2);
                        assert(comes_to(result, told));
                        assert forall|k: int| 0 <= k < wanted.len() implies temp_for(
                            wanted[k].0,
                            #[trigger] all_temps[k],
                        ) by {
                            if k > i {
                                assert(all_temps[k] == with_file_name_of(
                                    wanted[k].0,
                                    temp_name(Seq::empty()),
                                ));
                            }
                        }
                        assert(explained_by(result, wanted, all_temps, all_answers));
                    }
                    return Err((journal, error));
                },
                Ok(()) => {
                    proof {
                        assert(journal@.phase1 == before.push(step@));
                        assert(journal.phase1.len() == journal@.phase1.len());
                        temps = temps.push(step@.to);
                        answers = answers.push(answer);
                    }
                },
            }
            i = i + 1;
        }
        let mut i: usize = 0;
        while i < plans.len()
            invariant
                i <= plans.len(),
                wanted == plan_models(plans@),
                journal.id@ == id,
                journal.phase1.len() == plans.len(),
                journal.phase2.len() == i,
                !journal.completed,
                temps.len() == plans.len(),
                answers.len() == plans.len() + i,
                forall|k: int| 0 <= k < answers.len() ==> #[trigger] answers[k] is Ok,
                forall|k: int|
                    0 <= k < plans.len() ==> temp_for(wanted[k].0, #[trigger] temps[k]),
                forall|k: int|
                    0 <= k < plans.len() ==> #[trigger] journal@.phase1[k] == (StepModel {
                        from: wanted[k].0,
                        to: temps[k],
                    }),
                forall|k: int|
                    0 <= k < i ==> #[trigger] journal@.phase2[k] == (StepModel {
                        from: temps[k],
                        to: wanted[k].1,
                    }),
            decreases plans.len() - i,
        {
            let plan = &plans[i];
            let step = TransactionStep { from: journal.phase1[i].to.clone(), to: plan.1.clone() };
            proof {
                assert(wanted[i as int] == (plan.0@, plan.1@));
                assert(journal@.phase1[i as int] == journal.phase1@[i as int]@);
                assert(step@.from == temps[i as int]);
            }
            let ghost first = journal@.phase1;
            let ghost before = journal@.phase2;
            let outcome = self.fs.rename(step.from.as_str(), step.to.as_str());
            let ghost answer = outcome;
            match record_rename(&mut journal.phase2, plan, step, outcome) {
                Err(error) => {
                    self.rollback_phase2(&journal);
                    self.rollback_phase1(&journal);
                    proof {
                        assert(journal@.phase1 == first && journal@.phase2 == before);
                        assert(journal.phase2.len() == journal@.phase2.len());
                        assert(journal.phase1.len() == journal@.phase1.len());
                        assert(records(journal@, wanted));
                        assert(broke_at(journal@, wanted, &error));
                        let all_answers = answers.push(answer);
                        lemma_first_refusal(all_answers, plans.len() + i);
                        let result: Result<
                            TransactionJournal,
                            (TransactionJournal, TransactionError),
                        > = Err((journal, error));
                        let told = settled(id, wanted, temps, all_answers);
                        assert(told matches Outcome::Broke { journal: broken_journal, .. }
                            && broken_journal.phase1 =~= journal@.phase1 && broken_journal.phase2
                            =~= journal@.phase2);
                        assert(comes_to(result, told));
                        assert(explained_by(result, wanted, temps, all_answers));
                    }
                    return Err((journal, error));
                },
                Ok(()) => {
                    proof {
                        assert(journal@.phase1 == first);
                        assert(journal@.phase2 == before.push(step@));
                        assert(journal.phase2.len() == journal@.phase2.len());
                        answers = answers.push(answer);
                    }
                },
            }
            i = i + 1;
        }
        let ghost first = journal@.phase1;
        let ghost second = journal@.phase2;
        proof {
            assert(first.len() == journal.phase1.len());
            assert(second.len() == journal.phase2.len());
        }
        journal.completed = true;
        proof {
            assert(journal@.phase1 == first && journal@.phase2 == second);
            assert(records(journal@, wanted));
            lemma_no_refusal(answers);
            let result: Result<TransactionJournal, (TransactionJournal, TransactionError)> = Ok(
                journal,
            );
            let told = settled(id, wanted, temps, answers);
            assert(told matches Outcome::Done { journal: whole } && whole.phase1 =~= first
                && whole.phase2 =~= second);
            assert(comes_to(result, told));
            assert(explained_by(result, wanted, temps, answers));
        }
        Ok(journal)
    }

    /// Turns back the first phase of a journal, last step first. A rename
    /// that fails is passed over.
    fn rollback_phase1(&self, journal: &TransactionJournal) {
        let back = turned_back_steps(&journal.phase1);
        self.attempt_all(&back);
    }

    /// Turns back the second phase of a journal, last step first. A rename
    /// that fails is passed over.
    fn rollback_phase2(&self, journal: &TransactionJournal) {
        let back = turned_back_steps(&journal.phase2);
        self.attempt_all(&back);
    }

    /// Makes every rename of a list, in order. A rename that fails is passed
    /// over.
    fn attempt_all(&self, steps: &Vec<TransactionStep>) {
        let mut k: usize = 0;
        while k < steps.len()
            invariant
                k <= steps.len(),
            decreases steps.len() - k,
        {
            let _ = self.fs.rename(steps[k].from.as_str(), steps[k].to.as_str());
            k = k + 1;
        }
    }

    /// Makes the renames of a list in order and stops at the first that
    /// fails.
    fn attempt_each(&self, steps: &Vec<TransactionStep>) -> (r: Result<(), TransactionError>)
        ensures
            steps.len() == 0 ==> r is Ok,
            r matches Err(error) ==> exists|k: int|
                0 <= k < steps.len() && error.names(
                    (#[trigger] step_models(steps@)[k]).from,
                    step_models(steps@)[k].to,
                ),
            exists|answers: Seq<Result<(), IoFailure>>| #[trigger]
                attempted(r, step_models(steps@), answers),
    {
        let ghost wanted = step_models(steps@);
        let ghost mut answers: Seq<Result<(), IoFailure>> = Seq::empty();
        let mut k: usize = 0;
        while k < steps.len()
            invariant
                k <= steps.len(),
                wanted == step_models(steps@),
                answers.len() == k,
                forall|j: int| 0 <= j < k ==> #[trigger] answers[j] is Ok,
            decreases steps.len() - k,
        {
            let step = &steps[k];
            let outcome = self.fs.rename(step.from.as_str(), step.to.as_str());
            let ghost answer = outcome;
            match rename_result(step, outcome) {
                Err(error) => {
                    proof {
                        assert(error.names(wanted[k as int].from, wanted[k as int].to));
                        let all_answers = answers.push(answer);
                        lemma_first_refusal(all_answers, k as int);
                        assert(attempted(Err(error), wanted, all_answers));
                    }
                    return Err(error);
                },
                Ok(()) => {
                    proof {
                        answers = answers.push(answer);
                    }
                },
            }
            k = k + 1;
        }
        proof {
            lemma_no_refusal(answers);
            assert(attempted(Ok(()), wanted, answers));
        }
        Ok(())
    }

    /// Undoes a completed transaction: makes the renames of [`undo_plan`] in
    /// order, which turns back the second phase and then the first, each last
    /// step first. A journal that is not completed is refused with
    /// `NotUndoable` before anything is renamed. The first rename that fails
    /// ends the undo and comes back as the error; what was turned back before
    /// it stays so. Given what the filesystem answered to each rename, the
    /// result is what [`attempted`] says.
    pub fn undo(&self, journal: &TransactionJournal) -> (r: Result<(), TransactionError>)
        ensures
            !journal.completed ==> r == Err::<(), TransactionError>(TransactionError::NotUndoable),
            journal.completed ==> match r {
                Ok(()) => true,
                Err(error) => exists|k: int|
                    0 <= k < undo_steps(journal@).len() && error.names(
                        (#[trigger] undo_steps(journal@)[k]).from,
                        undo_steps(journal@)[k].to,
                    ),
            },
            journal.completed ==> exists|answers: Seq<Result<(), IoFailure>>| #[trigger]
                attempted(r, undo_steps(journal@), answers),
            journal.completed && journal.phase1.len() == 0 && journal.phase2.len() == 0 ==> r is Ok,
    {
        match undo_plan(journal) {
            Err(refusal) => Err(refusal),
            Ok(steps) => {
                proof {
                    assert(step_models(steps@).len() == steps.len());
                }
                self.attempt_each(&steps)
            },
        }
    }
}

/// Takes note of what the filesystem answered to one rename of a plan. A
/// rename that was made is appended to the steps done so far, and the
/// transaction goes on. A rename that was refused leaves the steps as they
/// are and ends the transaction with the error that names the plan, the
/// rename and the cause that the filesystem gave.
pub fn record_rename(
    done: &mut Vec<TransactionStep>,
    plan: &(String, String),
    step: TransactionStep,
    outcome: Result<(), IoFailure>,
) -> (r: Result<(), TransactionError>)
    ensures
        match outcome {
            Ok(()) => r is Ok && step_models(final(done)@) == step_models(old(done)@).push(step@),
            Err(cause) => step_models(final(done)@) == step_models(old(done)@) && (r matches Err(
                TransactionError::PlanFailed { source, target, from, to, cause: given },
            ) && source@ == plan.0@ && target@ == plan.1@ && from@ == step@.from && to@
                == step@.to && given == cause),
        },
{
    match outcome {
        Ok(()) => {
            done.push(step);
            assert(step_models(done@) =~= step_models(old(done)@).push(step@));
            Ok(())
        },
        Err(cause) => Err(
            TransactionError::PlanFailed {
                source: plan.0.clone(),
                target: plan.1.clone(),
                from: step.from,
                to: step.to,
                cause,
            },
        ),
    }
}

/// What an attempted rename comes to, given what the filesystem answered:
/// nothing where the rename was made, and where it was refused the error that
/// names the rename and carries the cause that the filesystem gave.
pub fn rename_result(step: &TransactionStep, outcome: Result<(), IoFailure>) -> (r: Result<
    (),
    TransactionError,
>)
    ensures
        match outcome {
            Ok(()) => r is Ok,
            Err(cause) => r matches Err(TransactionError::RenameFailed { from, to, cause: given })
                && from@ == step.from@ && to@ == step.to@ && given == cause,
        },
{
    match outcome {
        Ok(()) => Ok(()),
        Err(cause) => Err(
            TransactionError::RenameFailed { from: step.from.clone(), to: step.to.clone(), cause },
        ),
    }
}

/// The renames that turn a list of steps back, in the order in which they are
/// to be made: the steps from the last to the first, each turned round.
pub fn turned_back_steps(steps: &Vec<TransactionStep>) -> (r: Vec<TransactionStep>)
    ensures
        step_models(r@) == turned_back(step_models(steps@)),
{
    let mut back: Vec<TransactionStep> = Vec::new();
    let mut left: usize = steps.len();
    while left > 0
        invariant
            left <= steps.len(),
            back.len() == steps.len() - left,
            forall|k: int|
                0 <= k < back.len() ==> (#[trigger] back@[k])@ == turned_back(
                    step_models(steps@),
                )[k],
        decreases left,
    {
        left = left - 1;
        let step = &steps[left];
        back.push(TransactionStep { from: step.to.clone(), to: step.from.clone() });
    }
    assert(step_models(back@) =~= turned_back(step_models(steps@)));
    back
}

/// The renames that undo a journal, in the order in which they are to be
/// made. A journal that is not that of a completed transaction has none: it
/// is refused with `NotUndoable`.
pub fn undo_plan(journal: &TransactionJournal) -> (r: Result<
    Vec<TransactionStep>,
    TransactionError,
>)
    ensures
        match r {
            Ok(steps) => journal.completed && step_models(steps@) == undo_steps(journal@),
            Err(error) => !journal.completed && error is NotUndoable,
        },
{
    if !journal.completed {
        return Err(TransactionError::NotUndoable);
    }
    let mut steps = turned_back_steps(&journal.phase2);
    let mut first = turned_back_steps(&journal.phase1);
    let ghost second_part = step_models(steps@);
    let ghost first_part = step_models(first@);
    steps.append(&mut first);
    assert(step_models(steps@) =~= second_part + first_part);
    Ok(steps)
}

} // verus!
