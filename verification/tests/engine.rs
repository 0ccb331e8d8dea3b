use gravity_core::{
    BatchIndex, Conflict, Engine, FileSystem, IoFailure, Metadata, Moment, Pipeline, Position,
    PreviewItem, Probe, Rule,
};
use std::cell::RefCell;
use std::collections::HashSet;

/// A filesystem in memory that records what it is asked.
struct MockFs {
    files: HashSet<String>,
    case_sensitive: bool,
    dates: Option<Metadata>,
    asked: RefCell<Vec<String>>,
}

impl MockFs {
    fn with(files: &[&str], case_sensitive: bool) -> MockFs {
        MockFs {
            files: files.iter().map(|f| f.to_string()).collect(),
            case_sensitive,
            dates: None,
            asked: RefCell::new(Vec::new()),
        }
    }
}

impl FileSystem for MockFs {
    fn path_exists(&self, path: &str) -> bool {
        self.asked.borrow_mut().push(format!("exists {}", path));
        self.files.contains(path)
    }
    fn is_dir(&self, _path: &str) -> bool {
        false
    }
    fn rename(&self, _from: &str, _to: &str) -> Result<(), IoFailure> {
        panic!("a preview must not rename");
    }
    fn metadata(&self, path: &str) -> Result<Metadata, IoFailure> {
        self.asked.borrow_mut().push(format!("metadata {}", path));
        self.dates.ok_or(IoFailure { message: "no metadata".to_string() })
    }
    fn is_case_sensitive(&self, _path: &str) -> bool {
        self.case_sensitive
    }
}

fn paths(list: &[&str]) -> Vec<String> {
    list.iter().map(|p| p.to_string()).collect()
}

fn constant() -> Pipeline {
    Pipeline {
        rules: vec![Rule::RegexReplace {
            pattern: "^.*$".to_string(),
            replacement: "constant".to_string(),
        }],
    }
}

fn prefixed(prefix: &str) -> Pipeline {
    Pipeline {
        rules: vec![Rule::Literal { text: prefix.to_string(), position: Position::Start }],
    }
}

fn unchanged() -> Pipeline {
    Pipeline { rules: vec![] }
}

fn collision(path: &str) -> Conflict {
    Conflict::Collision { path: path.to_string() }
}

#[test]
fn scenario_constant_name_collides() {
    let fs = MockFs::with(&["a.txt", "b.txt"], true);
    let engine = Engine::new(&fs);
    let results = engine.generate_preview(&paths(&["a.txt", "b.txt"]), &constant());
    assert_eq!(results.len(), 2);
    for item in &results {
        assert_eq!(item.new_path, "constant.txt");
        assert!(item.conflicts.contains(&collision("constant.txt")));
        assert!(item.warnings.is_empty());
    }
    assert_eq!(results[0].original_path, "a.txt");
    assert_eq!(results[1].original_path, "b.txt");
    assert_eq!(results[0].conflicts, vec![collision("constant.txt")]);
}

#[test]
fn test_preview_detects_all_collisions() {
    let names = ["one", "two", "three", "f o u r", "5", "six_", "Seven", "eight", "nine"];
    for count in 2..names.len() {
        let fs = MockFs::with(&names[..count], true);
        let engine = Engine::new(&fs);
        let files = paths(&names[..count]);
        let results = engine.generate_preview(&files, &constant());

        // All results should have a collision conflict because they all rename to the same thing
        assert_eq!(results.len(), count);
        for item in results {
            assert!(item.conflicts.iter().any(|c| matches!(c, Conflict::Collision { .. })));
        }
    }
}

#[test]
fn only_equal_targets_collide() {
    let files = paths(&["one", "two.txt", "three.tar.gz", "dir/four", "dir/five.md", "six"]);
    let fs = MockFs::with(&["one", "two.txt", "three.tar.gz", "dir/four", "dir/five.md", "six"], true);
    let results = Engine::new(&fs).generate_preview(&files, &constant());
    let targets: Vec<&str> = results.iter().map(|i| i.new_path.as_str()).collect();
    assert_eq!(
        targets,
        vec![
            "constant",
            "constant.txt",
            "constant.gz",
            "dir/constant",
            "dir/constant.md",
            "constant"
        ]
    );
    for (at, item) in results.iter().enumerate() {
        if at == 0 || at == 5 {
            assert_eq!(item.conflicts, vec![collision("constant")]);
        } else {
            assert!(item.conflicts.is_empty());
        }
    }
}

#[test]
fn case_collision_only_where_case_does_not_count() {
    let files = paths(&["a.txt", "A.TXT"]);

    let insensitive = MockFs::with(&["a.txt", "A.TXT"], false);
    let results = Engine::new(&insensitive).generate_preview(&files, &unchanged());
    assert_eq!(results[0].new_path, "a.txt");
    assert_eq!(results[1].new_path, "A.TXT");
    assert_eq!(results[0].conflicts, vec![Conflict::CaseCollision { path: "a.txt".to_string() }]);
    assert_eq!(results[1].conflicts, vec![Conflict::CaseCollision { path: "A.TXT".to_string() }]);

    let sensitive = MockFs::with(&["a.txt", "A.TXT"], true);
    let results = Engine::new(&sensitive).generate_preview(&files, &unchanged());
    assert!(results[0].conflicts.is_empty());
    assert!(results[1].conflicts.is_empty());
}

#[test]
fn clean_batch_has_no_conflicts() {
    let fs = MockFs::with(&["dir/a.txt", "dir/b.txt", "other/a.txt"], false);
    let files = paths(&["dir/a.txt", "dir/b.txt", "other/a.txt"]);
    let results = Engine::new(&fs).generate_preview(&files, &prefixed("new_"));
    let targets: Vec<&str> = results.iter().map(|i| i.new_path.as_str()).collect();
    assert_eq!(targets, vec!["dir/new_a.txt", "dir/new_b.txt", "other/new_a.txt"]);
    for item in &results {
        assert!(item.conflicts.is_empty());
        assert!(item.warnings.is_empty());
    }
}

#[test]
fn missing_source_is_reported_and_keeps_its_name() {
    let fs = MockFs::with(&["here.txt"], true);
    let files = paths(&["gone.txt", "here.txt"]);
    let results = Engine::new(&fs).generate_preview(&files, &prefixed("x"));
    assert_eq!(results[0].new_path, "gone.txt");
    assert_eq!(results[0].conflicts, vec![Conflict::SourceNotFound { path: "gone.txt".to_string() }]);
    assert_eq!(results[1].new_path, "xhere.txt");
    assert!(results[1].conflicts.is_empty());
}

#[test]
fn path_without_file_name_gets_a_warning() {
    let fs = MockFs::with(&["..", "a"], true);
    let results = Engine::new(&fs).generate_preview(&paths(&["..", "a"]), &prefixed("x"));
    assert_eq!(results[0].new_path, "..");
    assert!(results[0].conflicts.is_empty());
    assert_eq!(
        results[0].warnings,
        vec!["Failed to parse filename: Rule execution failed: Invalid path".to_string()]
    );
    assert_eq!(results[1].new_path, "xa");
}

#[test]
fn existing_target_is_reported_unless_the_batch_vacates_it() {
    // "xa" is on disk and no item of the batch moves it away.
    let fs = MockFs::with(&["a", "xa"], true);
    let results = Engine::new(&fs).generate_preview(&paths(&["a"]), &prefixed("x"));
    assert_eq!(results[0].conflicts, vec![Conflict::TargetExists { path: "xa".to_string() }]);

    // "xa" is on disk, but it is itself renamed in the same batch.
    let results = Engine::new(&fs).generate_preview(&paths(&["a", "xa"]), &prefixed("x"));
    assert_eq!(results[0].new_path, "xa");
    assert_eq!(results[1].new_path, "xxa");
    assert!(results[0].conflicts.is_empty());
    assert!(results[1].conflicts.is_empty());
}

#[test]
fn renaming_to_itself_is_no_conflict_and_asks_nothing() {
    let fs = MockFs::with(&["a.txt"], true);
    let results = Engine::new(&fs).generate_preview(&paths(&["a.txt"]), &unchanged());
    assert!(results[0].conflicts.is_empty());
    // The only existence question was about the source.
    assert_eq!(*fs.asked.borrow(), vec!["exists a.txt".to_string()]);
}

#[test]
fn case_only_rename_is_the_same_place_where_case_does_not_count() {
    let upper = Pipeline {
        rules: vec![Rule::CaseTransform { transform: gravity_core::CaseType::Uppercase }],
    };
    // On a filesystem that ignores case the target "exists": it is the source.
    let mut fs = MockFs::with(&["a.txt", "A.txt"], false);
    let results = Engine::new(&fs).generate_preview(&paths(&["a.txt"]), &upper);
    assert_eq!(results[0].new_path, "A.txt");
    assert!(results[0].conflicts.is_empty());
    assert_eq!(*fs.asked.borrow(), vec!["exists a.txt".to_string()]);
    // Where case counts, "A.txt" is another file and the filesystem is asked
    // about it; but a target that is a source of the batch case apart counts
    // as moved away, so it is still not reported.
    fs.case_sensitive = true;
    fs.asked.borrow_mut().clear();
    let results = Engine::new(&fs).generate_preview(&paths(&["a.txt"]), &upper);
    assert!(results[0].conflicts.is_empty());
    assert_eq!(*fs.asked.borrow(), vec!["exists a.txt".to_string(), "exists A.txt".to_string()]);
}

#[test]
fn reserved_names_whatever_case_and_extension() {
    let reserved = [
        "CON", "PRN", "AUX", "NUL", "COM1", "COM2", "COM3", "COM4", "COM5", "COM6", "COM7",
        "COM8", "COM9", "LPT1", "LPT2", "LPT3", "LPT4", "LPT5", "LPT6", "LPT7", "LPT8", "LPT9",
    ];
    assert_eq!(reserved.len(), 22);
    for word in reserved {
        for name in [
            word.to_string(),
            word.to_lowercase(),
            format!("{}.txt", word),
            format!("dir/{}.TXT", word.to_lowercase()),
            format!("{}{}.log", &word[..1], word[1..].to_lowercase()),
        ] {
            assert!(gravity_core::is_reserved_name(&name), "{}", name);
        }
    }
    for name in ["CONSOLE", "COM0", "COM10", "LPT", "nul.d/file", "", "xCON", "COM1.tar.gz"] {
        assert!(!gravity_core::is_reserved_name(name), "{}", name);
    }
}

#[test]
fn reserved_target_carries_its_base_name() {
    let to_nul = Pipeline {
        rules: vec![Rule::RegexReplace { pattern: "^.*$".to_string(), replacement: "nul".to_string() }],
    };
    let fs = MockFs::with(&["docs/a.txt"], true);
    let results = Engine::new(&fs).generate_preview(&paths(&["docs/a.txt"]), &to_nul);
    assert_eq!(results[0].new_path, "docs/nul.txt");
    assert_eq!(results[0].conflicts, vec![Conflict::ReservedName { name: "nul".to_string() }]);
}

#[test]
fn conflicts_are_all_reported_in_order() {
    // Two items go to "con.txt", which exists on disk and is reserved.
    let to_con = Pipeline {
        rules: vec![Rule::RegexReplace { pattern: "^.*$".to_string(), replacement: "con".to_string() }],
    };
    let fs = MockFs::with(&["a.txt", "b.txt", "con.txt", "CON.txt"], false);
    let results = Engine::new(&fs).generate_preview(&paths(&["a.txt", "b.txt"]), &to_con);
    for item in &results {
        assert_eq!(
            item.conflicts,
            vec![
                Conflict::TargetExists { path: "con.txt".to_string() },
                Conflict::Collision { path: "con.txt".to_string() },
                Conflict::ReservedName { name: "con".to_string() },
            ]
        );
    }
}

#[test]
fn batch_index_answers_for_any_item() {
    let originals = paths(&["a", "b", "c", "D"]);
    let targets = paths(&["x", "X", "x", "b"]);
    let index = BatchIndex::build(&originals, &targets);
    let quiet = Probe { case_sensitive: true, target_exists: false };
    let loud = Probe { case_sensitive: false, target_exists: true };

    assert_eq!(index.conflicts_for("a", "x", quiet), vec![collision("x")]);
    assert_eq!(index.conflicts_for("b", "X", quiet), vec![]);
    assert_eq!(
        index.conflicts_for("a", "x", loud),
        vec![
            Conflict::TargetExists { path: "x".to_string() },
            collision("x"),
            Conflict::CaseCollision { path: "x".to_string() },
        ]
    );
    assert_eq!(
        index.conflicts_for("b", "X", loud),
        vec![
            Conflict::TargetExists { path: "X".to_string() },
            Conflict::CaseCollision { path: "X".to_string() },
        ]
    );
    // "b" exists but the batch moves it away; "B" is the same place case apart.
    assert_eq!(index.conflicts_for("D", "b", loud), vec![]);
    assert_eq!(index.conflicts_for("D", "B", loud), vec![]);
    // "d" is vacated case apart, even where case counts.
    assert_eq!(
        index.conflicts_for("a", "d", Probe { case_sensitive: true, target_exists: true }),
        vec![]
    );
    assert_eq!(
        index.conflicts_for("a", "e", Probe { case_sensitive: true, target_exists: true }),
        vec![Conflict::TargetExists { path: "e".to_string() }]
    );
}

#[test]
fn the_three_passes_can_be_run_one_by_one() {
    let fs = MockFs::with(&["a.txt", "b.txt"], true);
    let engine = Engine::new(&fs);
    let files = paths(&["a.txt", "b.txt"]);
    let pipeline = constant();
    let mut items: Vec<PreviewItem> =
        files.iter().enumerate().map(|(i, f)| engine.draft(i, f, &pipeline)).collect();
    let targets: Vec<String> = items.iter().map(|i| i.new_path.clone()).collect();
    let index = BatchIndex::build(&files, &targets);
    for item in items.iter_mut() {
        engine.inspect(item, &index);
    }
    let whole = engine.generate_preview(&files, &pipeline);
    for (one, other) in items.iter().zip(whole.iter()) {
        assert_eq!(one.original_path, other.original_path);
        assert_eq!(one.new_path, other.new_path);
        assert_eq!(one.conflicts, other.conflicts);
        assert_eq!(one.warnings, other.warnings);
    }
}

#[test]
fn file_dates_are_asked_only_when_the_pipeline_uses_them() {
    let stamp = Moment { seconds: 86_400 * 365, nanos: 0, offset: 0 };
    let mut fs = MockFs::with(&["a.txt"], true);
    fs.dates = Some(Metadata { created: None, modified: Some(stamp), captured: None });
    let dated = |source| Pipeline {
        rules: vec![Rule::DateInsertion { format: "_%Y".to_string(), source }],
    };

    let results =
        Engine::new(&fs).generate_preview(&paths(&["a.txt"]), &dated(gravity_core::DateSource::Modified));
    assert_eq!(results[0].new_path, "a_1971.txt");
    assert!(fs.asked.borrow().contains(&"metadata a.txt".to_string()));

    fs.asked.borrow_mut().clear();
    let results =
        Engine::new(&fs).generate_preview(&paths(&["a.txt"]), &dated(gravity_core::DateSource::Created));
    assert_eq!(results[0].new_path, "a.txt");

    fs.asked.borrow_mut().clear();
    let _ = Engine::new(&fs).generate_preview(&paths(&["a.txt"]), &prefixed("x"));
    assert!(!fs.asked.borrow().contains(&"metadata a.txt".to_string()));
}

#[test]
fn counter_uses_the_position_in_the_batch() {
    let fs = MockFs::with(&["a.txt", "b.txt", "c.txt"], true);
    let pipeline = Pipeline {
        rules: vec![
            Rule::RegexReplace { pattern: "^.*$".to_string(), replacement: "img".to_string() },
            Rule::Counter { padding: 2, start: 1, step: 1, separator: "_".to_string() },
        ],
    };
    let results = Engine::new(&fs).generate_preview(&paths(&["a.txt", "b.txt", "c.txt"]), &pipeline);
    let targets: Vec<&str> = results.iter().map(|i| i.new_path.as_str()).collect();
    assert_eq!(targets, vec!["img_01.txt", "img_02.txt", "img_03.txt"]);
    assert!(results.iter().all(|i| i.conflicts.is_empty()));
}

#[test]
fn empty_batch_gives_an_empty_preview() {
    let fs = MockFs::with(&[], true);
    assert!(Engine::new(&fs).generate_preview(&vec![], &constant()).is_empty());
}

#[test]
fn unreadable_name_keeps_its_path_and_gets_a_warning() {
    let item = gravity_core::engine::unreadable_item("dir/caf\u{fffd}.txt");
    assert_eq!(item.original_path, "dir/caf\u{fffd}.txt");
    assert_eq!(item.new_path, "dir/caf\u{fffd}.txt");
    assert!(item.conflicts.is_empty());
    assert_eq!(
        item.warnings,
        vec!["Failed to parse filename: Rule execution failed: Invalid path".to_string()]
    );
}
