//! The preview of a batch: for every source path the name that the pipeline
//! gives it, and every conflict that stands against the rename. Nothing on
//! disk is changed.
use vstd::prelude::*;
use vstd::string::StringExecFns;
use crate::conflicts::{
    case_collides, collides, conflict_models, folded, found_conflicts, grouped, is_same_place,
    lemma_appended_contains, lemma_case_collision_is_reported, lemma_collision_is_reported,
    lemma_count_many, lemma_count_two, lemma_found_without_case_collision,
    lemma_reserved_is_reported, reserved_target, reserved_word, BatchIndex, Conflict,
    ConflictModel, Probe,
};
use crate::fs::FileSystem;
use crate::models::{parsed_name, Context, DateSource, Filename, GravityError, Pipeline, Rule};
use crate::paths::{stem_text, with_file_name, with_file_name_of};
use crate::text::{lowercase_of, texts, uppercase_of};

verus! {

/// One proposed rename with what stands against it.
#[derive(Debug, Clone)]
pub struct PreviewItem {
    pub original_path: String,
    pub new_path: String,
    pub conflicts: Vec<Conflict>,
    pub warnings: Vec<String>,
}

/// The mathematical value of a [`PreviewItem`].
pub struct PreviewModel {
    pub original_path: Seq<char>,
    pub new_path: Seq<char>,
    pub conflicts: Seq<ConflictModel>,
    pub warnings: Seq<Seq<char>>,
}

impl View for PreviewItem {
    type V = PreviewModel;

    open spec fn view(&self) -> PreviewModel {
        PreviewModel {
            original_path: self.original_path@,
            new_path: self.new_path@,
            conflicts: conflict_models(self.conflicts@),
            warnings: texts(self.warnings@),
        }
    }
}

/// The warning that an item carries when its path has no file name to parse.
pub open spec fn parse_warning() -> Seq<char> {
    "Failed to parse filename: "@ + ("Rule execution failed: "@ + "Invalid path"@)
}

/// The item that the first pass makes of a path: a path whose source is
/// missing keeps its name and carries `SourceNotFound`; a path without a file
/// name keeps its name and carries a warning; any other path gets the name
/// that the pipeline makes of its file name, in the same directory.
pub open spec fn drafted(
    path: Seq<char>,
    source_exists: bool,
    pipeline: &Pipeline,
    context: &Context,
) -> PreviewModel {
    if !source_exists {
        PreviewModel {
            original_path: path,
            new_path: path,
            conflicts: seq![ConflictModel::SourceNotFound { path }],
            warnings: Seq::empty(),
        }
    } else {
        match parsed_name(path) {
            Some(name) => PreviewModel {
                original_path: path,
                new_path: with_file_name_of(path, pipeline.applied(name, context).text()),
                conflicts: Seq::empty(),
                warnings: Seq::empty(),
            },
            None => PreviewModel {
                original_path: path,
                new_path: path,
                conflicts: Seq::empty(),
                warnings: seq![parse_warning()],
            },
        }
    }
}

/// What was seen of one item while its preview was made: whether its source
/// exists, the context that its name was rewritten in, and what the filesystem
/// said of its target.
pub struct Sighting {
    pub source_exists: bool,
    pub context: Context,
    pub probe: Probe,
}

impl Sighting {
    /// Whether the context is the one of the file at `index` with path `path`.
    pub open spec fn fits(self, index: int, path: Seq<char>) -> bool {
        self.context.index == index && (self.context.path matches Some(p) && p@ == path)
    }
}

/// The targets that the first pass gives the files of a batch.
pub open spec fn targets_of(files: Seq<Seq<char>>, pipeline: &Pipeline, seen: Seq<Sighting>) -> Seq<
    Seq<char>,
> {
    Seq::new(
        files.len(),
        |j: int| drafted(files[j], seen[j].source_exists, pipeline, &seen[j].context).new_path,
    )
}

/// The preview of the file at `i` of a batch: what the first pass made of it,
/// with the conflicts that show against the whole batch appended.
pub open spec fn previewed(
    files: Seq<Seq<char>>,
    pipeline: &Pipeline,
    seen: Seq<Sighting>,
    i: int,
) -> PreviewModel {
    let draft = drafted(files[i], seen[i].source_exists, pipeline, &seen[i].context);
    PreviewModel {
        original_path: draft.original_path,
        new_path: draft.new_path,
        conflicts: draft.conflicts + found_conflicts(
            files,
            targets_of(files, pipeline, seen),
            files[i],
            draft.new_path,
            seen[i].probe,
        ),
        warnings: draft.warnings,
    }
}

/// The item for a path whose source does not exist.
pub fn missing_item(path: &str) -> (r: PreviewItem)
    ensures
        forall|pipeline: &Pipeline, context: &Context|
            r@ == #[trigger] drafted(path@, false, pipeline, context),
{
    let mut conflicts: Vec<Conflict> = Vec::new();
    conflicts.push(Conflict::SourceNotFound { path: String::from_str(path) });
    let item = PreviewItem {
        original_path: String::from_str(path),
        new_path: String::from_str(path),
        conflicts,
        warnings: Vec::new(),
    };
    proof {
        assert(item@.conflicts =~= seq![ConflictModel::SourceNotFound { path: path@ }]);
        assert(item@.warnings =~= Seq::<Seq<char>>::empty());
    }
    item
}

/// The item for a path whose source exists but whose name cannot be read, so
/// that there is no file name to rewrite: the path keeps its name and the item
/// carries the warning of a failed parse. `path` is the path as far as it can
/// be written as text.
pub fn unreadable_item(path: &str) -> (r: PreviewItem)
    ensures
        r@ == (PreviewModel {
            original_path: path@,
            new_path: path@,
            conflicts: Seq::empty(),
            warnings: seq![parse_warning()],
        }),
{
    let error = GravityError::RuleError(String::from_str("Invalid path"));
    let mut text = String::from_str("Failed to parse filename: ");
    let reason = error.message();
    text.append(reason.as_str());
    let mut warnings: Vec<String> = Vec::new();
    warnings.push(text);
    let item = PreviewItem {
        original_path: String::from_str(path),
        new_path: String::from_str(path),
        conflicts: Vec::new(),
        warnings,
    };
    proof {
        assert(item@.conflicts =~= Seq::<ConflictModel>::empty());
        assert(item@.warnings =~= seq![parse_warning()]);
    }
    item
}

/// The item for a path whose source exists: renamed by the pipeline where the
/// path has a file name, kept with a warning where it has none.
pub fn renamed_item(path: &str, pipeline: &Pipeline, context: &Context) -> (r: PreviewItem)
    ensures
        r@ == drafted(path@, true, pipeline, context),
{
    match Filename::from_path(path) {
        Ok(name) => {
            let new_name = pipeline.apply(&name, context).to_string();
            let item = PreviewItem {
                original_path: String::from_str(path),
                new_path: with_file_name(path, new_name.as_str()),
                conflicts: Vec::new(),
                warnings: Vec::new(),
            };
            proof {
                assert(item@.conflicts =~= Seq::<ConflictModel>::empty());
                assert(item@.warnings =~= Seq::<Seq<char>>::empty());
            }
            item
        },
        Err(_) => unreadable_item(path),
    }
}

impl Pipeline {
    /// Whether some rule of the pipeline inserts a date that belongs to the
    /// file, as opposed to the current time.
    pub open spec fn reads_file_dates(&self) -> bool {
        exists|k: int|
            0 <= k < self.rules@.len() && (#[trigger] self.rules@[k] matches Rule::DateInsertion {
                source,
                ..
            } && source != DateSource::Current)
    }

    /// Whether some rule of the pipeline inserts a date that belongs to the
    /// file. Only then is the filesystem asked for a file's dates.
    pub fn uses_file_dates(&self) -> (r: bool)
        ensures
            r == self.reads_file_dates(),
    {
        let mut k: usize = 0;
        while k < self.rules.len()
            invariant
                k <= self.rules.len(),
                forall|j: int|
                    0 <= j < k ==> !(#[trigger] self.rules@[j] matches Rule::DateInsertion {
                        source,
                        ..
                    } && source != DateSource::Current),
            decreases self.rules.len() - k,
        {
            match &self.rules[k] {
                Rule::DateInsertion { format: _, source } => {
                    match source {
                        DateSource::Current => {},
                        _ => {
                            return true;
                        },
                    }
                },
                _ => {},
            }
            k = k + 1;
        }
        false
    }
}

/// Makes previews over a filesystem.
pub struct Engine<'a, F: FileSystem> {
    fs: &'a F,
}

impl<'a, F: FileSystem> Engine<'a, F> {
    /// The filesystem that the engine reads.
    pub closed spec fn filesystem(&self) -> &'a F {
        self.fs
    }

    /// An engine that reads the given filesystem.
    pub fn new(fs: &'a F) -> (r: Self)
        ensures
            r.filesystem() == fs,
    {
        Engine { fs }
    }

    /// The context for the file at `index`: the current time, and the dates
    /// of the file where the pipeline uses them and the filesystem has them.
    fn context_for(&self, index: usize, path: &str, pipeline: &Pipeline) -> (r: Context)
        ensures
            r.index == index,
            r.path matches Some(p) && p@ == path@,
    {
        if pipeline.uses_file_dates() {
            match self.fs.metadata(path) {
                Ok(dates) => Context::with_metadata(index, Some(String::from_str(path)), &dates),
                Err(_) => Context::new(index, Some(String::from_str(path))),
            }
        } else {
            Context::new(index, Some(String::from_str(path)))
        }
    }

    /// First pass, for one file: asks the filesystem whether the source
    /// exists, and gives the file its new name. The item depends on nothing
    /// but the file itself.
    pub fn draft(&self, index: usize, path: &str, pipeline: &Pipeline) -> (r: PreviewItem)
        ensures
            exists|seen: Sighting|
                (seen.source_exists ==> seen.fits(index as int, path@)) && r@ == #[trigger] drafted(
                    path@,
                    seen.source_exists,
                    pipeline,
                    &seen.context,
                ),
    {
        if !self.fs.path_exists(path) {
            let item = missing_item(path);
            proof {
                let seen = Sighting {
                    source_exists: false,
                    context: arbitrary(),
                    probe: Probe { case_sensitive: true, target_exists: false },
                };
                assert(item@ == drafted(path@, seen.source_exists, pipeline, &seen.context));
            }
            item
        } else {
            let context = self.context_for(index, path, pipeline);
            let item = renamed_item(path, pipeline, &context);
            proof {
                let seen = Sighting {
                    source_exists: true,
                    context,
                    probe: Probe { case_sensitive: true, target_exists: false },
                };
                assert(seen.fits(index as int, path@));
                assert(item@ == drafted(path@, seen.source_exists, pipeline, &seen.context));
            }
            item
        }
    }

    /// Third pass, for one file: asks the filesystem about the item's target
    /// and appends every conflict that shows against the batch. The existence
    /// of the target is asked only where the rename moves the file.
    pub fn inspect(&self, item: &mut PreviewItem, index: &BatchIndex)
        ensures
            final(item)@.original_path == old(item)@.original_path,
            final(item)@.new_path == old(item)@.new_path,
            final(item)@.warnings == old(item)@.warnings,
            exists|probe: Probe|
                final(item)@.conflicts == old(item)@.conflicts + #[trigger] found_conflicts(
                    index.originals(),
                    index.targets(),
                    old(item)@.original_path,
                    old(item)@.new_path,
                    probe,
                ),
    {
        let case_sensitive = self.fs.is_case_sensitive(item.original_path.as_str());
        let moved = !is_same_place(
            item.original_path.as_str(),
            item.new_path.as_str(),
            case_sensitive,
        );
        let target_exists = if moved {
            self.fs.path_exists(item.new_path.as_str())
        } else {
            false
        };
        let probe = Probe { case_sensitive, target_exists };
        let mut found = index.conflicts_for(
            item.original_path.as_str(),
            item.new_path.as_str(),
            probe,
        );
        let ghost before = item.conflicts@;
        let ghost added = found@;
        item.conflicts.append(&mut found);
        proof {
            assert(conflict_models(before + added) =~= conflict_models(before) + conflict_models(
                added,
            ));
            assert(item@.conflicts == old(item)@.conflicts + found_conflicts(
                index.originals(),
                index.targets(),
                old(item)@.original_path,
                old(item)@.new_path,
                probe,
            ));
        }
    }

    /// The preview of a batch: one item per file, in the order of the files.
    /// The first pass names each file on its own; the second indexes the
    /// targets of the whole batch; the third holds each item against that
    /// index. What the result is follows from what the filesystem answered.
    pub fn generate_preview(&self, files: &Vec<String>, pipeline: &Pipeline) -> (r: Vec<
        PreviewItem,
    >)
        ensures
            r.len() == files.len(),
            exists|seen: Seq<Sighting>| #[trigger] explains(texts(files@), pipeline, seen, r@),
    {
        let ghost all = texts(files@);
        let mut results: Vec<PreviewItem> = Vec::new();
        let mut targets: Vec<String> = Vec::new();
        let ghost mut seen: Seq<Sighting> = Seq::empty();
        let mut i: usize = 0;
        while i < files.len()
            invariant
                i <= files.len(),
                all == texts(files@),
                results.len() == i,
                targets.len() == i,
                seen.len() == i,
                forall|j: int|
                    0 <= j < i ==> ((#[trigger] seen[j]).source_exists ==> seen[j].fits(j, all[j])),
                forall|j: int|
                    0 <= j < i ==> (#[trigger] results@[j])@ == drafted(
                        all[j],
                        seen[j].source_exists,
                        pipeline,
                        &seen[j].context,
                    ),
                forall|j: int| 0 <= j < i ==> (#[trigger] targets@[j])@ == results@[j]@.new_path,
            decreases files.len() - i,
        {
            let item = self.draft(i, files[i].as_str(), pipeline);
            proof {
                let sighting = choose|sighting: Sighting|
                    (sighting.source_exists ==> sighting.fits(i as int, files@[i as int]@))
                        && item@ == #[trigger] drafted(
                        files@[i as int]@,
                        sighting.source_exists,
                        pipeline,
                        &sighting.context,
                    );
                assert(all[i as int] == files@[i as int]@);
                seen = seen.push(sighting);
            }
            targets.push(item.new_path.clone());
            results.push(item);
            i = i + 1;
        }
        let index = BatchIndex::build(files, &targets);
        proof {
            assert(texts(targets@) =~= targets_of(all, pipeline, seen));
        }
        let ghost planned = targets_of(all, pipeline, seen);
        let mut i: usize = 0;
        while i < results.len()
            invariant
                i <= results.len(),
                all == texts(files@),
                results.len() == files.len(),
                seen.len() == files.len(),
                index.originals() == all,
                index.targets() == planned,
                planned == targets_of(all, pipeline, seen),
                forall|j: int|
                    0 <= j < seen.len() ==> ((#[trigger] seen[j]).source_exists ==> seen[j].fits(
                        j,
                        all[j],
                    )),
                forall|j: int|
                    0 <= j < i ==> (#[trigger] results@[j])@ == previewed(all, pipeline, seen, j),
                forall|j: int|
                    i <= j < results.len() ==> (#[trigger] results@[j])@ == drafted(
                        all[j],
                        seen[j].source_exists,
                        pipeline,
                        &seen[j].context,
                    ),
            decreases results.len() - i,
        {
            let ghost earlier = seen;
            let ghost draft = results@[i as int]@;
            self.inspect(&mut results[i], &index);
            proof {
                let probe = choose|probe: Probe|
                    results@[i as int]@.conflicts == draft.conflicts + #[trigger] found_conflicts(
                        index.originals(),
                        index.targets(),
                        draft.original_path,
                        draft.new_path,
                        probe,
                    );
                seen = seen.update(
                    i as int,
                    Sighting {
                        source_exists: earlier[i as int].source_exists,
                        context: earlier[i as int].context,
                        probe,
                    },
                );
                assert(targets_of(all, pipeline, seen) =~= targets_of(all, pipeline, earlier));
                assert forall|j: int| 0 <= j < i implies (#[trigger] results@[j])@ == previewed(
                    all,
                    pipeline,
                    seen,
                    j,
                ) by {
                    assert(seen[j] == earlier[j]);
                    assert(previewed(all, pipeline, seen, j) == previewed(
                        all,
                        pipeline,
                        earlier,
                        j,
                    ));
                }
                assert(results@[i as int]@ == previewed(all, pipeline, seen, i as int));
            }
            i = i + 1;
        }
        proof {
            assert(explains(all, pipeline, seen, results@));
        }
        results
    }
}

/// Whether a list of items is the preview of a batch of files, given what was
/// seen of each: as many items as files, in the same order, each as the three
/// passes make it.
pub open spec fn explains(
    files: Seq<Seq<char>>,
    pipeline: &Pipeline,
    seen: Seq<Sighting>,
    items: Seq<PreviewItem>,
) -> bool {
    &&& seen.len() == files.len()
    &&& items.len() == files.len()
    &&& forall|i: int|
        0 <= i < files.len() ==> {
            &&& seen[i].source_exists ==> seen[i].fits(i, files[i])
            &&& (#[trigger] items[i])@ == previewed(files, pipeline, seen, i)
        }
}

/// Whether a batch is clean: every source exists, nothing was found at any
/// target, no two items have the same target, no target has a reserved base
/// name, and no item on a filesystem that ignores case has a target that
/// another item has case apart.
pub open spec fn clean_batch(
    files: Seq<Seq<char>>,
    pipeline: &Pipeline,
    seen: Seq<Sighting>,
) -> bool {
    let targets = targets_of(files, pipeline, seen);
    &&& seen.len() == files.len()
    &&& forall|j: int| 0 <= j < files.len() ==> (#[trigger] seen[j]).source_exists
    &&& forall|j: int| 0 <= j < files.len() ==> !(#[trigger] seen[j]).probe.target_exists
    &&& forall|j: int, k: int|
        0 <= j < files.len() && 0 <= k < files.len() && j != k ==> #[trigger] targets[j]
            != #[trigger] targets[k]
    &&& forall|j: int| 0 <= j < files.len() ==> !reserved_target(#[trigger] targets[j])
    &&& forall|j: int, k: int|
        0 <= j < files.len() && 0 <= k < files.len() && j != k && !seen[j].probe.case_sensitive
            ==> lowercase_of(#[trigger] targets[j]) != lowercase_of(#[trigger] targets[k])
}

/// In a clean batch no item carries a conflict.
pub proof fn lemma_clean_batch_has_no_conflicts(
    files: Seq<Seq<char>>,
    pipeline: &Pipeline,
    seen: Seq<Sighting>,
    i: int,
)
    requires
        clean_batch(files, pipeline, seen),
        0 <= i < files.len(),
    ensures
        previewed(files, pipeline, seen, i).conflicts == Seq::<ConflictModel>::empty(),
{
    let targets = targets_of(files, pipeline, seen);
    let target = targets[i];
    assert(seen[i].source_exists);
    assert(!seen[i].probe.target_exists);
    if collides(targets, target) {
        lemma_count_many(targets, target);
        let (a, b) = choose|a: int, b: int|
            0 <= a < b < targets.len() && targets[a] == target && targets[b] == target;
        assert(targets[a] != targets[b]);
    }
    if !seen[i].probe.case_sensitive && case_collides(targets, target) {
        let path = choose|path: Seq<char>| #[trigger]
            grouped(targets, lowercase_of(target), path) && path != target;
        let k = choose|k: int| 0 <= k < targets.len() && targets[k] == path;
        assert(lowercase_of(targets[i]) != lowercase_of(targets[k]));
    }
    assert(!reserved_target(targets[i]));
    assert(previewed(files, pipeline, seen, i).conflicts =~= Seq::<ConflictModel>::empty());
}

/// Where two different items of a batch have the same target, each of the two
/// carries a collision for that target.
pub proof fn lemma_shared_target_collides(
    files: Seq<Seq<char>>,
    pipeline: &Pipeline,
    seen: Seq<Sighting>,
    i: int,
    j: int,
)
    requires
        seen.len() == files.len(),
        0 <= i < files.len(),
        0 <= j < files.len(),
        i != j,
        targets_of(files, pipeline, seen)[i] == targets_of(files, pipeline, seen)[j],
    ensures
        previewed(files, pipeline, seen, i).conflicts.contains(
            ConflictModel::Collision { path: targets_of(files, pipeline, seen)[i] },
        ),
        previewed(files, pipeline, seen, j).conflicts.contains(
            ConflictModel::Collision { path: targets_of(files, pipeline, seen)[i] },
        ),
{
    let targets = targets_of(files, pipeline, seen);
    if i < j {
        lemma_count_two(targets, i, j);
    } else {
        lemma_count_two(targets, j, i);
    }
    lemma_collision_is_reported(files, targets, files[i], targets[i], seen[i].probe);
    lemma_collision_is_reported(files, targets, files[j], targets[j], seen[j].probe);
    let first = drafted(files[i], seen[i].source_exists, pipeline, &seen[i].context).conflicts;
    let second = drafted(files[j], seen[j].source_exists, pipeline, &seen[j].context).conflicts;
    lemma_appended_contains(
        first,
        found_conflicts(files, targets, files[i], targets[i], seen[i].probe),
        ConflictModel::Collision { path: targets[i] },
    );
    lemma_appended_contains(
        second,
        found_conflicts(files, targets, files[j], targets[j], seen[j].probe),
        ConflictModel::Collision { path: targets[i] },
    );
}

/// An item whose target has a reserved base name, in whatever case and with
/// whatever extension, carries `ReservedName` with that base name.
pub proof fn lemma_reserved_target_is_reported(
    files: Seq<Seq<char>>,
    pipeline: &Pipeline,
    seen: Seq<Sighting>,
    i: int,
)
    requires
        seen.len() == files.len(),
        0 <= i < files.len(),
        reserved_word(uppercase_of(stem_text(targets_of(files, pipeline, seen)[i]))),
    ensures
        previewed(files, pipeline, seen, i).conflicts.contains(
            ConflictModel::ReservedName { name: stem_text(targets_of(files, pipeline, seen)[i]) },
        ),
{
    let targets = targets_of(files, pipeline, seen);
    lemma_reserved_is_reported(files, targets, files[i], targets[i], seen[i].probe);
    lemma_appended_contains(
        drafted(files[i], seen[i].source_exists, pipeline, &seen[i].context).conflicts,
        found_conflicts(files, targets, files[i], targets[i], seen[i].probe),
        ConflictModel::ReservedName { name: stem_text(targets[i]) },
    );
}

/// Where two items of a batch have targets that differ only by case, each
/// of them that lives on a filesystem that ignores case carries a case
/// collision for its target.
pub proof fn lemma_case_twins_collide(
    files: Seq<Seq<char>>,
    pipeline: &Pipeline,
    seen: Seq<Sighting>,
    i: int,
    j: int,
)
    requires
        seen.len() == files.len(),
        0 <= i < files.len(),
        0 <= j < files.len(),
        targets_of(files, pipeline, seen)[i] != targets_of(files, pipeline, seen)[j],
        lowercase_of(targets_of(files, pipeline, seen)[i]) == lowercase_of(
            targets_of(files, pipeline, seen)[j],
        ),
        !seen[i].probe.case_sensitive,
    ensures
        previewed(files, pipeline, seen, i).conflicts.contains(
            ConflictModel::CaseCollision { path: targets_of(files, pipeline, seen)[i] },
        ),
{
    let targets = targets_of(files, pipeline, seen);
    let lowered = folded(targets);
    assert(lowered[i] == lowered[j]);
    if i < j {
        lemma_count_two(lowered, i, j);
    } else {
        lemma_count_two(lowered, j, i);
    }
    assert(grouped(targets, lowercase_of(targets[i]), targets[j]));
    lemma_case_collision_is_reported(files, targets, files[i], targets[i], seen[i].probe);
    lemma_appended_contains(
        drafted(files[i], seen[i].source_exists, pipeline, &seen[i].context).conflicts,
        found_conflicts(files, targets, files[i], targets[i], seen[i].probe),
        ConflictModel::CaseCollision { path: targets[i] },
    );
}

/// An item that lives on a filesystem that tells case apart carries no case
/// collision, whatever the targets of the batch are.
pub proof fn lemma_no_case_collision_where_case_counts(
    files: Seq<Seq<char>>,
    pipeline: &Pipeline,
    seen: Seq<Sighting>,
    i: int,
    path: Seq<char>,
)
    requires
        seen.len() == files.len(),
        0 <= i < files.len(),
        seen[i].probe.case_sensitive,
    ensures
        !previewed(files, pipeline, seen, i).conflicts.contains(
            ConflictModel::CaseCollision { path },
        ),
{
    let conflicts = previewed(files, pipeline, seen, i).conflicts;
    let wanted = ConflictModel::CaseCollision { path };
    if conflicts.contains(wanted) {
        let k = choose|k: int| 0 <= k < conflicts.len() && conflicts[k] == wanted;
        let first = drafted(files[i], seen[i].source_exists, pipeline, &seen[i].context).conflicts;
        if k < first.len() {
            assert(conflicts[k] == first[k]);
        } else {
            let found = found_conflicts(
                files,
                targets_of(files, pipeline, seen),
                files[i],
                targets_of(files, pipeline, seen)[i],
                seen[i].probe,
            );
            assert(conflicts[k] == found[k - first.len()]);
            lemma_found_without_case_collision(
                files,
                targets_of(files, pipeline, seen),
                files[i],
                targets_of(files, pipeline, seen)[i],
                seen[i].probe,
                k - first.len(),
            );
        }
    }
}

} // verus!
