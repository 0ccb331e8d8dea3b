//! What a journal does to a filesystem, on a model in which a filesystem is a
//! map from paths to what is stored there and nobody else touches it. The
//! model is where the two-phase protocol is shown to be reversible.
use vstd::prelude::*;
use crate::transaction::{records, turned_back, undo_steps, JournalModel, StepModel};

verus! {

/// The filesystem after one rename: what was at `from` is at `to`, and nothing
/// is at `from`. A rename whose source is missing changes nothing.
pub open spec fn renamed(disk: Map<Seq<char>, int>, step: StepModel) -> Map<Seq<char>, int> {
    if disk.contains_key(step.from) {
        disk.remove(step.from).insert(step.to, disk[step.from])
    } else {
        disk
    }
}

/// The filesystem after a list of renames, made in order.
pub open spec fn replayed(disk: Map<Seq<char>, int>, steps: Seq<StepModel>) -> Map<Seq<char>, int>
    decreases steps.len(),
{
    if steps.len() == 0 {
        disk
    } else {
        renamed(replayed(disk, steps.drop_last()), steps.last())
    }
}

/// Whether every rename of a list, made in order, moves a file that is there
/// to a path where nothing is.
pub open spec fn replays_cleanly(disk: Map<Seq<char>, int>, steps: Seq<StepModel>) -> bool {
    forall|m: int|
        0 <= m < steps.len() ==> {
            &&& replayed(disk, #[trigger] steps.take(m)).contains_key(steps[m].from)
            &&& !replayed(disk, steps.take(m)).contains_key(steps[m].to)
        }
}

/// The filesystem after a completed transaction: both phases of its journal,
/// made in order.
pub open spec fn executed(disk: Map<Seq<char>, int>, journal: JournalModel) -> Map<Seq<char>, int> {
    replayed(replayed(disk, journal.phase1), journal.phase2)
}

/// The filesystem after the undo of a journal.
pub open spec fn undone(disk: Map<Seq<char>, int>, journal: JournalModel) -> Map<Seq<char>, int> {
    replayed(disk, undo_steps(journal))
}

/// Renames made one list after another are the renames of the two lists put
/// together.
pub proof fn lemma_replayed_in_parts(
    disk: Map<Seq<char>, int>,
    first: Seq<StepModel>,
    second: Seq<StepModel>,
)
    ensures
        replayed(disk, first + second) == replayed(replayed(disk, first), second),
    decreases second.len(),
{
    if second.len() == 0 {
        assert(first + second =~= first);
    } else {
        lemma_replayed_in_parts(disk, first, second.drop_last());
        assert((first + second).drop_last() =~= first + second.drop_last());
        assert((first + second).last() == second.last());
    }
}

/// A rename that moved a file to a free path is undone by the rename back.
pub proof fn lemma_rename_back(disk: Map<Seq<char>, int>, step: StepModel)
    requires
        disk.contains_key(step.from),
        !disk.contains_key(step.to),
    ensures
        renamed(renamed(disk, step), StepModel { from: step.to, to: step.from }) == disk,
{
    assert(renamed(renamed(disk, step), StepModel { from: step.to, to: step.from }) =~= disk);
}

/// Turning back two lists of steps put together turns back the second, then
/// the first.
pub proof fn lemma_turned_back_in_parts(first: Seq<StepModel>, second: Seq<StepModel>)
    ensures
        turned_back(first + second) == turned_back(second) + turned_back(first),
{
    assert(turned_back(first + second) =~= turned_back(second) + turned_back(first));
}

/// Renames that replayed cleanly are undone by turning them back: the
/// filesystem is as it was before the first of them.
pub proof fn lemma_turned_back_restores(disk: Map<Seq<char>, int>, steps: Seq<StepModel>)
    requires
        replays_cleanly(disk, steps),
    ensures
        replayed(replayed(disk, steps), turned_back(steps)) == disk,
    decreases steps.len(),
{
    if steps.len() == 0 {
        assert(turned_back(steps) =~= Seq::<StepModel>::empty());
    } else {
        let init = steps.drop_last();
        let last = steps.last();
        let back = StepModel { from: last.to, to: last.from };
        let before = replayed(disk, init);
        assert(replays_cleanly(disk, init)) by {
            assert forall|m: int| 0 <= m < init.len() implies {
                &&& replayed(disk, #[trigger] init.take(m)).contains_key(init[m].from)
                &&& !replayed(disk, init.take(m)).contains_key(init[m].to)
            } by {
                assert(init.take(m) =~= steps.take(m));
            }
        }
        assert(steps.take(steps.len() - 1) =~= init);
        assert(before.contains_key(last.from) && !before.contains_key(last.to));
        lemma_turned_back_restores(disk, init);
        assert(turned_back(steps) =~= seq![back] + turned_back(init));
        lemma_replayed_in_parts(replayed(disk, steps), seq![back], turned_back(init));
        let after = replayed(disk, steps);
        assert(seq![back].drop_last() =~= Seq::<StepModel>::empty());
        assert(seq![back].last() == back);
        assert(replayed(after, Seq::<StepModel>::empty()) == after);
        assert(replayed(after, seq![back]) == renamed(after, back));
        lemma_rename_back(before, last);
    }
}

/// The undo of a completed transaction restores the filesystem: where every
/// rename of the transaction moved a file that was there to a path where
/// nothing was, the filesystem after the transaction and its undo is the
/// filesystem before the transaction, path for path.
pub proof fn lemma_undo_restores(disk: Map<Seq<char>, int>, journal: JournalModel)
    requires
        replays_cleanly(disk, journal.phase1 + journal.phase2),
    ensures
        undone(executed(disk, journal), journal) == disk,
{
    lemma_replayed_in_parts(disk, journal.phase1, journal.phase2);
    lemma_turned_back_in_parts(journal.phase1, journal.phase2);
    lemma_turned_back_restores(disk, journal.phase1 + journal.phase2);
}

/// Whether a path stands in a list at a place from `lo` up to, not
/// including, `hi`.
pub open spec fn among(list: Seq<Seq<char>>, lo: int, hi: int, path: Seq<char>) -> bool {
    exists|k: int| lo <= k < hi && 0 <= k < list.len() && #[trigger] list[k] == path
}

/// The renames of a transaction that goes through: every source to its
/// temporary, then every temporary to its target.
pub open spec fn two_phases(
    sources: Seq<Seq<char>>,
    temps: Seq<Seq<char>>,
    targets: Seq<Seq<char>>,
) -> Seq<StepModel> {
    Seq::new(sources.len(), |i: int| StepModel { from: sources[i], to: temps[i] }) + Seq::new(
        sources.len(),
        |i: int| StepModel { from: temps[i], to: targets[i] },
    )
}

/// Whether a batch can be renamed on a filesystem without loss: every source
/// is there, no two sources and no two targets are the same, every target is
/// free or is a source of the batch, and the temporaries are fresh: not on the
/// filesystem, all different, and none of them a target.
pub open spec fn renames_safely(
    disk: Map<Seq<char>, int>,
    sources: Seq<Seq<char>>,
    temps: Seq<Seq<char>>,
    targets: Seq<Seq<char>>,
) -> bool {
    let n = sources.len();
    &&& temps.len() == n
    &&& targets.len() == n
    &&& forall|i: int| 0 <= i < n ==> disk.contains_key(#[trigger] sources[i])
    &&& forall|i: int, k: int| 0 <= i < n && 0 <= k < n && i != k ==> #[trigger] sources[i]
        != #[trigger] sources[k]
    &&& forall|i: int, k: int| 0 <= i < n && 0 <= k < n && i != k ==> #[trigger] targets[i]
        != #[trigger] targets[k]
    &&& forall|i: int|
        0 <= i < n && disk.contains_key(#[trigger] targets[i]) ==> among(
            sources,
            0,
            n as int,
            targets[i],
        )
    &&& forall|i: int| 0 <= i < n ==> !disk.contains_key(#[trigger] temps[i])
    &&& forall|i: int, k: int| 0 <= i < n && 0 <= k < n && i != k ==> #[trigger] temps[i]
        != #[trigger] temps[k]
    &&& forall|i: int, k: int|
        0 <= i < n && 0 <= k < n ==> #[trigger] temps[i] != #[trigger] targets[k]
}

/// Whether something is at a path when the first `moved` sources have gone to
/// their temporaries and the first `placed` temporaries to their targets.
pub open spec fn occupied(
    disk: Map<Seq<char>, int>,
    sources: Seq<Seq<char>>,
    temps: Seq<Seq<char>>,
    targets: Seq<Seq<char>>,
    moved: int,
    placed: int,
    path: Seq<char>,
) -> bool {
    ||| disk.contains_key(path) && !among(sources, 0, moved, path)
    ||| among(temps, placed, moved, path)
    ||| among(targets, 0, placed, path)
}

/// How many sources have gone to their temporaries after the first `m`
/// renames of a transaction over `n` plans.
pub open spec fn moved_after(n: int, m: int) -> int {
    if m <= n {
        m
    } else {
        n
    }
}

/// How many temporaries have gone to their targets after the first `m`
/// renames of a transaction over `n` plans.
pub open spec fn placed_after(n: int, m: int) -> int {
    if m <= n {
        0
    } else {
        m - n
    }
}

/// After the first `m` renames of a transaction on a batch that renames
/// safely, the paths where something is are those that [`occupied`] says.
pub proof fn lemma_state_after(
    disk: Map<Seq<char>, int>,
    sources: Seq<Seq<char>>,
    temps: Seq<Seq<char>>,
    targets: Seq<Seq<char>>,
    m: int,
)
    requires
        renames_safely(disk, sources, temps, targets),
        0 <= m <= 2 * sources.len(),
    ensures
        forall|path: Seq<char>|
            #[trigger] replayed(disk, two_phases(sources, temps, targets).take(m)).contains_key(
                path,
            ) <==> occupied(
                disk,
                sources,
                temps,
                targets,
                moved_after(sources.len() as int, m),
                placed_after(sources.len() as int, m),
                path,
            ),
    decreases m,
{
    let n = sources.len() as int;
    let steps = two_phases(sources, temps, targets);
    if m == 0 {
        assert(steps.take(0) =~= Seq::<StepModel>::empty());
    } else {
        let k = m - 1;
        lemma_state_after(disk, sources, temps, targets, k);
        let before = replayed(disk, steps.take(k));
        let step = steps[k];
        assert(steps.take(m).drop_last() =~= steps.take(k));
        assert(steps.take(m).last() == step);
        let after = replayed(disk, steps.take(m));
        assert(after == renamed(before, step));
        if k < n {
            assert(step.from == sources[k] && step.to == temps[k]);
            assert(before.contains_key(sources[k])) by {
                assert(disk.contains_key(sources[k]));
                if among(sources, 0, k, sources[k]) {
                    let j = choose|j: int|
                        0 <= j < k && 0 <= j < sources.len() && #[trigger] sources[j] == sources[k];
                    assert(sources[j] != sources[k]);
                }
            }
            assert forall|path: Seq<char>| #[trigger] after.contains_key(path) <==> occupied(
                disk,
                sources,
                temps,
                targets,
                m,
                0,
                path,
            ) by {
                assert(before.contains_key(path) <==> occupied(
                    disk,
                    sources,
                    temps,
                    targets,
                    k,
                    0,
                    path,
                ));
                lemma_among_longer(sources, 0, k, path);
                lemma_among_longer(temps, 0, k, path);
                if among(temps, 0, k, path) {
                    let j = choose|j: int|
                        0 <= j < k && 0 <= j < temps.len() && #[trigger] temps[j] == path;
                    assert(!disk.contains_key(temps[j]));
                    assert(path != sources[k]);
                }
            }
        } else {
            let j = k - n;
            assert(step.from == temps[j] && step.to == targets[j]);
            assert(before.contains_key(temps[j])) by {
                assert(among(temps, j, n, temps[j]));
            }
            assert forall|path: Seq<char>| #[trigger] after.contains_key(path) <==> occupied(
                disk,
                sources,
                temps,
                targets,
                n,
                j + 1,
                path,
            ) by {
                assert(before.contains_key(path) <==> occupied(
                    disk,
                    sources,
                    temps,
                    targets,
                    n,
                    j,
                    path,
                ));
                lemma_among_shorter(temps, j, n, path);
                lemma_among_longer(targets, 0, j, path);
                assert(!disk.contains_key(temps[j]));
                if among(targets, 0, j, path) {
                    let i = choose|i: int|
                        0 <= i < j && 0 <= i < targets.len() && #[trigger] targets[i] == path;
                    assert(temps[j] != targets[i]);
                }
                if among(temps, j + 1, n, path) {
                    let i = choose|i: int|
                        j + 1 <= i < n && 0 <= i < temps.len() && #[trigger] temps[i] == path;
                    assert(temps[i] != temps[j]);
                }
            }
        }
    }
}

/// A path stands among the places up to and including `hi` if and only if it
/// stands among those before `hi` or at `hi` itself.
pub proof fn lemma_among_longer(list: Seq<Seq<char>>, lo: int, hi: int, path: Seq<char>)
    requires
        0 <= lo <= hi < list.len(),
    ensures
        among(list, lo, hi + 1, path) <==> among(list, lo, hi, path) || list[hi] == path,
{
    if among(list, lo, hi + 1, path) {
        let k = choose|k: int|
            lo <= k < hi + 1 && 0 <= k < list.len() && #[trigger] list[k] == path;
        if k < hi {
            assert(among(list, lo, hi, path));
        }
    }
    if among(list, lo, hi, path) {
        let k = choose|k: int| lo <= k < hi && 0 <= k < list.len() && #[trigger] list[k] == path;
        assert(lo <= k < hi + 1 && list[k] == path);
    }
    if list[hi] == path {
        assert(lo <= hi < hi + 1 && list[hi] == path);
    }
}

/// A path stands among the places from `lo` on if and only if it stands at
/// `lo` itself or among those after it.
pub proof fn lemma_among_shorter(list: Seq<Seq<char>>, lo: int, hi: int, path: Seq<char>)
    requires
        0 <= lo < hi <= list.len(),
    ensures
        among(list, lo, hi, path) <==> list[lo] == path || among(list, lo + 1, hi, path),
{
    if among(list, lo, hi, path) {
        let k = choose|k: int| lo <= k < hi && 0 <= k < list.len() && #[trigger] list[k] == path;
        if k > lo {
            assert(among(list, lo + 1, hi, path));
        }
    }
    if among(list, lo + 1, hi, path) {
        let k = choose|k: int|
            lo + 1 <= k < hi && 0 <= k < list.len() && #[trigger] list[k] == path;
        assert(lo <= k < hi && list[k] == path);
    }
    if list[lo] == path {
        assert(lo <= lo < hi && list[lo] == path);
    }
}

/// On a batch that renames safely, every rename of the two phases moves a
/// file that is there to a path where nothing is: renaming through fresh
/// temporaries never overwrites anything, also where the batch swaps names.
pub proof fn lemma_safe_batch_replays_cleanly(
    disk: Map<Seq<char>, int>,
    sources: Seq<Seq<char>>,
    temps: Seq<Seq<char>>,
    targets: Seq<Seq<char>>,
)
    requires
        renames_safely(disk, sources, temps, targets),
    ensures
        replays_cleanly(disk, two_phases(sources, temps, targets)),
{
    let n = sources.len() as int;
    let steps = two_phases(sources, temps, targets);
    assert forall|m: int| 0 <= m < steps.len() implies {
        &&& replayed(disk, #[trigger] steps.take(m)).contains_key(steps[m].from)
        &&& !replayed(disk, steps.take(m)).contains_key(steps[m].to)
    } by {
        lemma_state_after(disk, sources, temps, targets, m);
        let state = replayed(disk, steps.take(m));
        if m < n {
            assert(steps[m].from == sources[m] && steps[m].to == temps[m]);
            if among(sources, 0, m, sources[m]) {
                let j = choose|j: int|
                    0 <= j < m && 0 <= j < sources.len() && #[trigger] sources[j] == sources[m];
                assert(sources[j] != sources[m]);
            }
            assert(disk.contains_key(sources[m]));
            assert(state.contains_key(sources[m]));
            if among(temps, 0, m, temps[m]) {
                let j = choose|j: int|
                    0 <= j < m && 0 <= j < temps.len() && #[trigger] temps[j] == temps[m];
                assert(temps[j] != temps[m]);
            }
            assert(!disk.contains_key(temps[m]));
            assert(!state.contains_key(temps[m]));
        } else {
            let j = m - n;
            assert(steps[m].from == temps[j] && steps[m].to == targets[j]);
            assert(among(temps, j, n, temps[j]));
            assert(state.contains_key(temps[j]));
            if among(temps, j, n, targets[j]) {
                let i = choose|i: int|
                    j <= i < n && 0 <= i < temps.len() && #[trigger] temps[i] == targets[j];
                assert(temps[i] != targets[j]);
            }
            if among(targets, 0, j, targets[j]) {
                let i = choose|i: int|
                    0 <= i < j && 0 <= i < targets.len() && #[trigger] targets[i] == targets[j];
                assert(targets[i] != targets[j]);
            }
            if disk.contains_key(targets[j]) {
                assert(among(sources, 0, n, targets[j]));
            }
            assert(!state.contains_key(targets[j]));
        }
    }
}

/// The sources of a list of plans.
pub open spec fn sources_of(plans: Seq<(Seq<char>, Seq<char>)>) -> Seq<Seq<char>> {
    Seq::new(plans.len(), |i: int| plans[i].0)
}

/// The targets of a list of plans.
pub open spec fn targets_of_plans(plans: Seq<(Seq<char>, Seq<char>)>) -> Seq<Seq<char>> {
    Seq::new(plans.len(), |i: int| plans[i].1)
}

/// The temporaries that a journal went through.
pub open spec fn temps_of(journal: JournalModel) -> Seq<Seq<char>> {
    Seq::new(journal.phase1.len(), |i: int| journal.phase1[i].to)
}

/// A transaction followed by its undo restores every path: where a journal is
/// the completed record of a transaction over plans that rename safely on a
/// filesystem, with the temporaries that the journal names, the filesystem
/// after the transaction and the undo of the journal is the filesystem before
/// the transaction.
pub proof fn lemma_execute_then_undo_restores(
    disk: Map<Seq<char>, int>,
    plans: Seq<(Seq<char>, Seq<char>)>,
    journal: JournalModel,
)
    requires
        records(journal, plans),
        journal.completed,
        renames_safely(disk, sources_of(plans), temps_of(journal), targets_of_plans(plans)),
    ensures
        undone(executed(disk, journal), journal) == disk,
{
    let sources = sources_of(plans);
    let temps = temps_of(journal);
    let targets = targets_of_plans(plans);
    assert(journal.phase1 + journal.phase2 =~= two_phases(sources, temps, targets));
    lemma_safe_batch_replays_cleanly(disk, sources, temps, targets);
    lemma_undo_restores(disk, journal);
}

/// Renames that replay cleanly do so up to any point.
pub proof fn lemma_prefix_replays_cleanly(disk: Map<Seq<char>, int>, steps: Seq<StepModel>, m: int)
    requires
        replays_cleanly(disk, steps),
        0 <= m <= steps.len(),
    ensures
        replays_cleanly(disk, steps.take(m)),
{
    let prefix = steps.take(m);
    assert forall|k: int| 0 <= k < prefix.len() implies {
        &&& replayed(disk, #[trigger] prefix.take(k)).contains_key(prefix[k].from)
        &&& !replayed(disk, prefix.take(k)).contains_key(prefix[k].to)
    } by {
        assert(prefix.take(k) =~= steps.take(k));
    }
}

/// A transaction that broke off leaves nothing behind once it is rolled back:
/// where a journal is the record of a transaction over plans, complete or
/// not, and the plans that the first phase reached rename safely on a
/// filesystem with the temporaries that the journal names, the filesystem
/// after the renames of the journal and their turning back, second phase
/// first, is the filesystem before the transaction.
pub proof fn lemma_rollback_restores(
    disk: Map<Seq<char>, int>,
    plans: Seq<(Seq<char>, Seq<char>)>,
    journal: JournalModel,
)
    requires
        records(journal, plans),
        renames_safely(
            disk,
            sources_of(plans).take(journal.phase1.len() as int),
            temps_of(journal),
            targets_of_plans(plans).take(journal.phase1.len() as int),
        ),
    ensures
        undone(executed(disk, journal), journal) == disk,
{
    let reached = journal.phase1.len() as int;
    let sources = sources_of(plans).take(reached);
    let temps = temps_of(journal);
    let targets = targets_of_plans(plans).take(reached);
    let whole = two_phases(sources, temps, targets);
    let done = reached + journal.phase2.len();
    assert(journal.phase1 + journal.phase2 =~= whole.take(done));
    lemma_safe_batch_replays_cleanly(disk, sources, temps, targets);
    lemma_prefix_replays_cleanly(disk, whole, done);
    lemma_undo_restores(disk, journal);
}

} // verus!
