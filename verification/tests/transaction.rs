use gravity_core::{
    approved_plans, undo_plan, Conflict, FileSystem, IoFailure, Metadata, PreviewItem,
    TransactionError, TransactionExecutor, TransactionJournal, TransactionStep,
};
use std::cell::RefCell;
use std::collections::BTreeMap;

/// A filesystem in memory: a map from paths to contents. A chosen rename
/// call, counted from one, fails.
struct MockFs {
    files: RefCell<BTreeMap<String, String>>,
    renames: RefCell<Vec<(String, String)>>,
    failing_call: Option<usize>,
}

impl MockFs {
    fn with(files: &[(&str, &str)]) -> MockFs {
        MockFs {
            files: RefCell::new(
                files.iter().map(|(p, c)| (p.to_string(), c.to_string())).collect(),
            ),
            renames: RefCell::new(Vec::new()),
            failing_call: None,
        }
    }

    fn failing_at(mut self, call: usize) -> MockFs {
        self.failing_call = Some(call);
        self
    }

    fn snapshot(&self) -> BTreeMap<String, String> {
        self.files.borrow().clone()
    }
}

impl FileSystem for MockFs {
    fn path_exists(&self, path: &str) -> bool {
        self.files.borrow().contains_key(path)
    }
    fn is_dir(&self, _path: &str) -> bool {
        false
    }
    fn rename(&self, from: &str, to: &str) -> Result<(), IoFailure> {
        self.renames.borrow_mut().push((from.to_string(), to.to_string()));
        if Some(self.renames.borrow().len()) == self.failing_call {
            return Err(IoFailure { message: "simulated failure".to_string() });
        }
        let mut files = self.files.borrow_mut();
        match files.remove(from) {
            Some(content) => {
                files.insert(to.to_string(), content);
                Ok(())
            }
            None => Err(IoFailure { message: format!("{} does not exist", from) }),
        }
    }
    fn metadata(&self, _path: &str) -> Result<Metadata, IoFailure> {
        Err(IoFailure { message: "no metadata".to_string() })
    }
    fn is_case_sensitive(&self, _path: &str) -> bool {
        true
    }
}

fn plans(list: &[(&str, &str)]) -> Vec<(String, String)> {
    list.iter().map(|(s, t)| (s.to_string(), t.to_string())).collect()
}

fn is_temp_beside(temp: &str, source: &str) -> bool {
    let dir = match source.rfind('/') {
        Some(at) => &source[..=at],
        None => "",
    };
    temp.starts_with(&format!("{}gravity-", dir))
        && temp.ends_with(".tmp")
        && temp.len() == dir.len() + "gravity-".len() + 36 + ".tmp".len()
        && !temp[dir.len()..].contains('/')
}

#[test]
fn execute_renames_through_temporaries() {
    let fs = MockFs::with(&[("d/a", "A"), ("d/b", "B")]);
    let wanted = plans(&[("d/a", "d/x"), ("d/b", "e/y")]);
    let journal = TransactionExecutor::new(&fs).execute(&wanted).expect("no rename fails");

    assert!(journal.completed);
    assert_eq!(journal.id.len(), 36);
    assert_eq!(journal.phase1.len(), 2);
    assert_eq!(journal.phase2.len(), 2);
    for i in 0..2 {
        assert_eq!(journal.phase1[i].from, wanted[i].0);
        assert!(is_temp_beside(&journal.phase1[i].to, &wanted[i].0));
        assert_eq!(journal.phase2[i].from, journal.phase1[i].to);
        assert_eq!(journal.phase2[i].to, wanted[i].1);
    }
    assert_ne!(journal.phase1[0].to, journal.phase1[1].to);
    assert_eq!(
        fs.snapshot(),
        BTreeMap::from([("d/x".to_string(), "A".to_string()), ("e/y".to_string(), "B".to_string())])
    );
    // The renames were made in the order of the journal: first phase, then second.
    let made: Vec<(String, String)> = journal
        .phase1
        .iter()
        .chain(journal.phase2.iter())
        .map(|s| (s.from.clone(), s.to.clone()))
        .collect();
    assert_eq!(*fs.renames.borrow(), made);
}

#[test]
fn execute_swaps_two_names() {
    let fs = MockFs::with(&[("a", "A"), ("b", "B")]);
    let journal =
        TransactionExecutor::new(&fs).execute(&plans(&[("a", "b"), ("b", "a")])).expect("swap");
    assert!(journal.completed);
    assert_eq!(
        fs.snapshot(),
        BTreeMap::from([("a".to_string(), "B".to_string()), ("b".to_string(), "A".to_string())])
    );
}

#[test]
fn execute_then_undo_restores_every_path() {
    let before = [("p/a", "A"), ("p/b", "B"), ("p/c", "C"), ("q/keep", "K")];
    let fs = MockFs::with(&before);
    let executor = TransactionExecutor::new(&fs);
    // A rotation and a move into another directory.
    let journal = executor
        .execute(&plans(&[("p/a", "p/b"), ("p/b", "p/c"), ("p/c", "q/a")]))
        .expect("no rename fails");
    assert_eq!(
        fs.snapshot(),
        BTreeMap::from([
            ("p/b".to_string(), "A".to_string()),
            ("p/c".to_string(), "B".to_string()),
            ("q/a".to_string(), "C".to_string()),
            ("q/keep".to_string(), "K".to_string()),
        ])
    );
    assert_eq!(executor.undo(&journal), Ok(()));
    assert_eq!(fs.snapshot(), MockFs::with(&before).snapshot());
    // Undo made the renames of the journal backwards: second phase first.
    let made = fs.renames.borrow();
    let undone: Vec<(String, String)> = journal
        .phase2
        .iter()
        .rev()
        .chain(journal.phase1.iter().rev())
        .map(|s| (s.to.clone(), s.from.clone()))
        .collect();
    assert_eq!(made[6..], undone[..]);
}

#[test]
fn scenario_second_rename_of_phase_one_fails() {
    let before = [("a", "A"), ("b", "B"), ("c", "C")];
    let fs = MockFs::with(&before).failing_at(2);
    let wanted = plans(&[("a", "x"), ("b", "y"), ("c", "z")]);
    let (journal, error) =
        TransactionExecutor::new(&fs).execute(&wanted).expect_err("the second rename fails");

    assert_eq!(journal.phase1.len(), 1);
    assert_eq!(journal.phase2.len(), 0);
    assert!(!journal.completed);
    assert_eq!(journal.phase1[0].from, "a");
    assert_eq!(fs.snapshot(), MockFs::with(&before).snapshot());
    match &error {
        TransactionError::PlanFailed { source, target, from, to, cause } => {
            assert_eq!(source, "b");
            assert_eq!(target, "y");
            assert_eq!(from, "b");
            assert!(is_temp_beside(to, "b"));
            assert_eq!(cause.message, "simulated failure");
        }
        other => panic!("{:?}", other),
    }
    // Two renames forward, one back; the third plan was never touched.
    let made = fs.renames.borrow();
    assert_eq!(made.len(), 3);
    assert_eq!(made[2], (journal.phase1[0].to.clone(), "a".to_string()));
}

#[test]
fn failure_in_phase_two_rolls_back_both_phases() {
    let before = [("a", "A"), ("b", "B"), ("c", "C")];
    // Calls 1 to 3 are the first phase; call 5 is the second rename of the second.
    let fs = MockFs::with(&before).failing_at(5);
    let wanted = plans(&[("a", "x"), ("b", "y"), ("c", "z")]);
    let (journal, error) =
        TransactionExecutor::new(&fs).execute(&wanted).expect_err("the fifth rename fails");

    assert_eq!(journal.phase1.len(), 3);
    assert_eq!(journal.phase2.len(), 1);
    assert!(!journal.completed);
    assert_eq!(journal.phase2[0].to, "x");
    assert_eq!(fs.snapshot(), MockFs::with(&before).snapshot());
    assert_eq!(
        error,
        TransactionError::PlanFailed {
            source: "b".to_string(),
            target: "y".to_string(),
            from: journal.phase1[1].to.clone(),
            to: "y".to_string(),
            cause: IoFailure { message: "simulated failure".to_string() },
        }
    );
    // Rolled back last step first: the second phase, then the first.
    let made = fs.renames.borrow();
    let back: Vec<(String, String)> = vec![
        ("x".to_string(), journal.phase1[0].to.clone()),
        (journal.phase1[2].to.clone(), "c".to_string()),
        (journal.phase1[1].to.clone(), "b".to_string()),
        (journal.phase1[0].to.clone(), "a".to_string()),
    ];
    assert_eq!(made[5..], back[..]);
}

#[test]
fn failure_of_the_first_rename_leaves_an_empty_journal() {
    let fs = MockFs::with(&[("a", "A")]).failing_at(1);
    let (journal, error) =
        TransactionExecutor::new(&fs).execute(&plans(&[("a", "x")])).expect_err("fails");
    assert!(journal.phase1.is_empty() && journal.phase2.is_empty() && !journal.completed);
    assert!(matches!(
        error,
        TransactionError::PlanFailed { ref source, ref target, ref from, .. }
            if source == "a" && target == "x" && from == "a"
    ));
    assert_eq!(fs.renames.borrow().len(), 1);
}

#[test]
fn failures_during_rollback_are_passed_over() {
    // The source of the second plan is missing, so its rename fails; the
    // rollback of the first is then told to fail too (call 3).
    let fs = MockFs::with(&[("a", "A")]).failing_at(3);
    let (journal, error) = TransactionExecutor::new(&fs)
        .execute(&plans(&[("a", "x"), ("missing", "y")]))
        .expect_err("the second rename fails");
    assert_eq!(journal.phase1.len(), 1);
    assert!(matches!(
        error,
        TransactionError::PlanFailed { ref source, ref cause, .. }
            if source == "missing" && cause.message == "missing does not exist"
    ));
    // The error of the rollback is not surfaced; the file stays at its temporary.
    assert_eq!(fs.renames.borrow().len(), 3);
    assert_eq!(fs.snapshot().keys().cloned().collect::<Vec<_>>(), vec![journal.phase1[0].to.clone()]);
}

#[test]
fn execute_with_no_plans_completes_at_once() {
    let fs = MockFs::with(&[("a", "A")]);
    let journal = TransactionExecutor::new(&fs).execute(&vec![]).expect("nothing can fail");
    assert!(journal.completed);
    assert!(journal.phase1.is_empty() && journal.phase2.is_empty());
    assert!(fs.renames.borrow().is_empty());
    assert_eq!(TransactionExecutor::new(&fs).undo(&journal), Ok(()));
    assert!(fs.renames.borrow().is_empty());
}

#[test]
fn every_transaction_has_its_own_identifier() {
    let fs = MockFs::with(&[]);
    let executor = TransactionExecutor::new(&fs);
    let first = executor.execute(&vec![]).unwrap();
    let second = executor.execute(&vec![]).unwrap();
    assert_ne!(first.id, second.id);
}

#[test]
fn scenario_undo_of_incomplete_journal_is_refused() {
    let fs = MockFs::with(&[("tmp", "A")]);
    let journal = TransactionJournal {
        id: "0".to_string(),
        phase1: vec![TransactionStep { from: "a".to_string(), to: "tmp".to_string() }],
        phase2: vec![],
        completed: false,
    };
    let result = TransactionExecutor::new(&fs).undo(&journal);
    assert_eq!(result, Err(TransactionError::NotUndoable));
    assert_eq!(result.unwrap_err().message(), "Cannot undo incomplete transaction");
    assert!(fs.renames.borrow().is_empty());
    assert_eq!(fs.snapshot(), MockFs::with(&[("tmp", "A")]).snapshot());
}

#[test]
fn undo_of_a_failed_execute_is_refused() {
    let fs = MockFs::with(&[("a", "A"), ("b", "B")]).failing_at(2);
    let executor = TransactionExecutor::new(&fs);
    let (journal, _) = executor.execute(&plans(&[("a", "x"), ("b", "y")])).expect_err("fails");
    let made = fs.renames.borrow().len();
    assert_eq!(executor.undo(&journal), Err(TransactionError::NotUndoable));
    assert_eq!(fs.renames.borrow().len(), made);
}

#[test]
fn undo_stops_at_the_first_failure() {
    let fs = MockFs::with(&[("x", "A"), ("y", "B")]).failing_at(2);
    let journal = TransactionJournal {
        id: "0".to_string(),
        phase1: vec![
            TransactionStep { from: "a".to_string(), to: "t1".to_string() },
            TransactionStep { from: "b".to_string(), to: "t2".to_string() },
        ],
        phase2: vec![
            TransactionStep { from: "t1".to_string(), to: "x".to_string() },
            TransactionStep { from: "t2".to_string(), to: "y".to_string() },
        ],
        completed: true,
    };
    let result = TransactionExecutor::new(&fs).undo(&journal);
    assert_eq!(
        result,
        Err(TransactionError::RenameFailed {
            from: "x".to_string(),
            to: "t1".to_string(),
            cause: IoFailure { message: "simulated failure".to_string() },
        })
    );
    // The first step of the undo stays done; nothing after the failure is tried.
    assert_eq!(
        *fs.renames.borrow(),
        vec![("y".to_string(), "t2".to_string()), ("x".to_string(), "t1".to_string())]
    );
    assert_eq!(
        fs.snapshot(),
        BTreeMap::from([("t2".to_string(), "B".to_string()), ("x".to_string(), "A".to_string())])
    );
}

fn item(original: &str, target: &str, conflicts: Vec<Conflict>, warnings: Vec<&str>) -> PreviewItem {
    PreviewItem {
        original_path: original.to_string(),
        new_path: target.to_string(),
        conflicts,
        warnings: warnings.into_iter().map(|w| w.to_string()).collect(),
    }
}

#[test]
fn clean_preview_becomes_plans() {
    let preview = vec![item("a", "x", vec![], vec![]), item("b", "b", vec![], vec!["a warning"])];
    assert_eq!(approved_plans(&preview), Ok(plans(&[("a", "x"), ("b", "b")])));
    assert_eq!(approved_plans(&vec![]), Ok(vec![]));
}

#[test]
fn preview_with_conflicts_is_refused() {
    let collision = Conflict::Collision { path: "x".to_string() };
    let preview = vec![
        item("a", "x", vec![collision.clone()], vec![]),
        item("b", "y", vec![], vec![]),
        item(
            "c",
            "x",
            vec![collision.clone(), Conflict::ReservedName { name: "x".to_string() }],
            vec![],
        ),
    ];
    let error = approved_plans(&preview).expect_err("two items carry conflicts");
    assert_eq!(error, TransactionError::Conflicts { count: 2 });
    assert_eq!(error.message(), "Cannot commit: 2 conflicts detected.");
}

#[test]
fn rename_error_names_the_pair() {
    let error = TransactionError::RenameFailed {
        from: "a".to_string(),
        to: "b".to_string(),
        cause: IoFailure { message: "denied".to_string() },
    };
    assert_eq!(error.message(), "Cannot rename a to b: denied");
}

#[test]
fn commit_refuses_conflicts_before_touching_anything() {
    let fs = MockFs::with(&[("a", "A"), ("b", "B")]);
    let preview = vec![
        item("a", "x", vec![Conflict::Collision { path: "x".to_string() }], vec![]),
        item("b", "x", vec![Conflict::Collision { path: "x".to_string() }], vec![]),
    ];
    let result = TransactionExecutor::new(&fs).commit(&preview);
    match result {
        Err((None, error)) => assert_eq!(error, TransactionError::Conflicts { count: 2 }),
        other => panic!("{:?}", other),
    }
    assert!(fs.renames.borrow().is_empty());
    assert_eq!(fs.snapshot(), MockFs::with(&[("a", "A"), ("b", "B")]).snapshot());
}

#[test]
fn commit_executes_a_clean_preview() {
    let fs = MockFs::with(&[("a", "A"), ("b", "B")]);
    let preview = vec![item("a", "b", vec![], vec![]), item("b", "c", vec![], vec!["note"])];
    let executor = TransactionExecutor::new(&fs);
    let journal = executor.commit(&preview).expect("nothing stands in the way");
    assert!(journal.completed);
    assert_eq!(journal.phase2[0].to, "b");
    assert_eq!(journal.phase2[1].to, "c");
    assert_eq!(
        fs.snapshot(),
        BTreeMap::from([("b".to_string(), "A".to_string()), ("c".to_string(), "B".to_string())])
    );
    assert_eq!(executor.undo(&journal), Ok(()));
    assert_eq!(fs.snapshot(), MockFs::with(&[("a", "A"), ("b", "B")]).snapshot());
}

#[test]
fn commit_hands_back_the_journal_of_a_failed_transaction() {
    let fs = MockFs::with(&[("a", "A")]).failing_at(2);
    let preview = vec![item("a", "x", vec![], vec![])];
    match TransactionExecutor::new(&fs).commit(&preview) {
        Err((Some(journal), TransactionError::PlanFailed { to, .. })) => {
            assert_eq!(journal.phase1.len(), 1);
            assert!(journal.phase2.is_empty() && !journal.completed);
            assert_eq!(to, "x");
        }
        other => panic!("{:?}", other),
    }
    assert_eq!(fs.snapshot(), MockFs::with(&[("a", "A")]).snapshot());
}

fn step(from: &str, to: &str) -> TransactionStep {
    TransactionStep { from: from.to_string(), to: to.to_string() }
}

#[test]
fn undo_plan_turns_the_journal_back() {
    let journal = TransactionJournal {
        id: "0".to_string(),
        phase1: vec![step("a", "t1"), step("b", "t2")],
        phase2: vec![step("t1", "x"), step("t2", "y")],
        completed: true,
    };
    assert_eq!(
        undo_plan(&journal),
        Ok(vec![step("y", "t2"), step("x", "t1"), step("t2", "b"), step("t1", "a")])
    );
    let open = TransactionJournal { completed: false, ..journal.clone() };
    assert_eq!(undo_plan(&open), Err(TransactionError::NotUndoable));
    let empty =
        TransactionJournal { id: "0".to_string(), phase1: vec![], phase2: vec![], completed: true };
    assert_eq!(undo_plan(&empty), Ok(vec![]));
}

#[test]
fn undo_makes_the_renames_of_its_plan() {
    let fs = MockFs::with(&[("x", "A"), ("y", "B")]);
    let journal = TransactionJournal {
        id: "0".to_string(),
        phase1: vec![step("a", "t1"), step("b", "t2")],
        phase2: vec![step("t1", "x"), step("t2", "y")],
        completed: true,
    };
    assert_eq!(TransactionExecutor::new(&fs).undo(&journal), Ok(()));
    let made: Vec<TransactionStep> =
        fs.renames.borrow().iter().map(|(from, to)| step(from, to)).collect();
    assert_eq!(Ok(made), undo_plan(&journal));
    assert_eq!(
        fs.snapshot(),
        BTreeMap::from([("a".to_string(), "A".to_string()), ("b".to_string(), "B".to_string())])
    );
}

#[test]
fn rename_result_follows_the_answer_of_the_filesystem() {
    let moved = step("a", "b");
    assert_eq!(gravity_core::transaction::rename_result(&moved, Ok(())), Ok(()));
    assert_eq!(
        gravity_core::transaction::rename_result(&moved, Err(IoFailure { message: "denied".to_string() })),
        Err(TransactionError::RenameFailed {
            from: "a".to_string(),
            to: "b".to_string(),
            cause: IoFailure { message: "denied".to_string() },
        })
    );
}

#[test]
fn record_rename_appends_what_was_made_and_reports_what_was_refused() {
    let plan = ("a".to_string(), "x".to_string());
    let mut done = vec![step("0", "t0")];
    let made = gravity_core::transaction::record_rename(&mut done, &plan, step("a", "t1"), Ok(()));
    assert_eq!(made, Ok(()));
    assert_eq!(done, vec![step("0", "t0"), step("a", "t1")]);

    let refused = gravity_core::transaction::record_rename(
        &mut done,
        &plan,
        step("t1", "x"),
        Err(IoFailure { message: "denied".to_string() }),
    );
    assert_eq!(
        refused,
        Err(TransactionError::PlanFailed {
            source: "a".to_string(),
            target: "x".to_string(),
            from: "t1".to_string(),
            to: "x".to_string(),
            cause: IoFailure { message: "denied".to_string() },
        })
    );
    assert_eq!(done, vec![step("0", "t0"), step("a", "t1")]);
    assert_eq!(
        refused.unwrap_err().message(),
        "Cannot rename a to x: the rename of t1 to x failed: denied"
    );
}

#[test]
fn every_rename_made_gives_a_completed_journal() {
    let fs = MockFs::with(&[("a", "A"), ("b", "B"), ("c", "C")]);
    let wanted = plans(&[("a", "x"), ("b", "y"), ("c", "z")]);
    let journal = TransactionExecutor::new(&fs).execute(&wanted).expect("no rename fails");
    assert!(journal.completed);
    assert_eq!((journal.phase1.len(), journal.phase2.len()), (3, 3));
    // Six renames: the first phase in the order of the plans, then the second.
    let made = fs.renames.borrow();
    assert_eq!(made.len(), 6);
    for i in 0..3 {
        assert_eq!(made[i], (wanted[i].0.clone(), journal.phase1[i].to.clone()));
        assert_eq!(made[3 + i], (journal.phase1[i].to.clone(), wanted[i].1.clone()));
    }
}
