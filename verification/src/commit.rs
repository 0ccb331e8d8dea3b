//! From a preview to a transaction: only a preview without conflicts becomes
//! a list of plans.
use vstd::prelude::*;
use crate::engine::{PreviewItem, PreviewModel};
use crate::fs::{FileSystem, IoFailure};
use crate::transaction::{
    broke_at, explained_by, plan_models, records, TransactionError, TransactionExecutor,
    TransactionJournal,
};

verus! {

/// The values of a list of preview items.
pub open spec fn preview_models(items: Seq<PreviewItem>) -> Seq<PreviewModel> {
    Seq::new(items.len(), |i: int| items[i]@)
}

/// How many items of a preview carry a conflict.
pub open spec fn conflicted(items: Seq<PreviewModel>) -> nat
    decreases items.len(),
{
    if items.len() == 0 {
        0
    } else if items.last().conflicts.len() > 0 {
        conflicted(items.drop_last()) + 1
    } else {
        conflicted(items.drop_last())
    }
}

/// The plans that a preview stands for: of each item the source and the
/// target, in order.
pub open spec fn plans_of(items: Seq<PreviewModel>) -> Seq<(Seq<char>, Seq<char>)> {
    Seq::new(items.len(), |i: int| (items[i].original_path, items[i].new_path))
}

/// Not more items of a preview carry a conflict than it has items.
pub proof fn lemma_conflicted_bounded(items: Seq<PreviewModel>)
    ensures
        conflicted(items) <= items.len(),
    decreases items.len(),
{
    if items.len() > 0 {
        lemma_conflicted_bounded(items.drop_last());
    }
}

/// The plans of a preview, for a transaction. A preview in which any item
/// carries a conflict is refused as a whole, with the number of such items;
/// warnings do not stand in the way.
pub fn approved_plans(items: &Vec<PreviewItem>) -> (r: Result<
    Vec<(String, String)>,
    TransactionError,
>)
    ensures
        match r {
            Ok(plans) => conflicted(preview_models(items@)) == 0 && plan_models(plans@) == plans_of(
                preview_models(items@),
            ),
            Err(error) => conflicted(preview_models(items@)) > 0 && (error
                matches TransactionError::Conflicts { count } && count == conflicted(
                preview_models(items@),
            )),
        },
{
    let ghost all = preview_models(items@);
    let mut plans: Vec<(String, String)> = Vec::new();
    let mut count: usize = 0;
    let mut i: usize = 0;
    assert(all.take(0) =~= Seq::<PreviewModel>::empty());
    while i < items.len()
        invariant
            i <= items.len(),
            all == preview_models(items@),
            count == conflicted(all.take(i as int)),
            plans.len() == i,
            forall|k: int|
                0 <= k < i ==> (#[trigger] plans@[k]).0@ == all[k].original_path && plans@[k].1@
                    == all[k].new_path,
        decreases items.len() - i,
    {
        proof {
            assert(all.take(i + 1).drop_last() =~= all.take(i as int));
            assert(all.take(i + 1).last() == items@[i as int]@);
            lemma_conflicted_bounded(all.take(i as int));
        }
        if items[i].conflicts.len() > 0 {
            count = count + 1;
        }
        plans.push((items[i].original_path.clone(), items[i].new_path.clone()));
        i = i + 1;
    }
    proof {
        assert(all.take(items.len() as int) =~= all);
    }
    if count > 0 {
        Err(TransactionError::Conflicts { count })
    } else {
        proof {
            assert(plan_models(plans@) =~= plans_of(all));
        }
        Ok(plans)
    }
}

/// The result of a commit that was not refused, as the result of the
/// transaction that it ran.
pub open spec fn as_executed(
    r: Result<TransactionJournal, (Option<TransactionJournal>, TransactionError)>,
) -> Result<TransactionJournal, (TransactionJournal, TransactionError)> {
    match r {
        Ok(journal) => Ok(journal),
        Err((Some(journal), error)) => Err((journal, error)),
        Err((None, error)) => arbitrary(),
    }
}

impl<'a, F: FileSystem> TransactionExecutor<'a, F> {
    /// Renames what a preview proposes. A preview in which any item carries a
    /// conflict is refused before anything is renamed: there is no journal
    /// then, and the error says how many items stand in the way. A preview
    /// without conflicts is executed as a transaction over its plans.
    pub fn commit(&self, items: &Vec<PreviewItem>) -> (r: Result<
        TransactionJournal,
        (Option<TransactionJournal>, TransactionError),
    >)
        ensures
            conflicted(preview_models(items@)) > 0 ==> (r matches Err((None, error)) && (error
                matches TransactionError::Conflicts { count } && count == conflicted(
                preview_models(items@),
            ))),
            conflicted(preview_models(items@)) == 0 ==> match r {
                Ok(journal) => records(journal@, plans_of(preview_models(items@)))
                    && journal.completed,
                Err((Some(journal), error)) => records(
                    journal@,
                    plans_of(preview_models(items@)),
                ) && !journal.completed && broke_at(
                    journal@,
                    plans_of(preview_models(items@)),
                    &error,
                ),
                Err((None, _)) => false,
            },
            conflicted(preview_models(items@)) == 0 ==> exists|
                temps: Seq<Seq<char>>,
                answers: Seq<Result<(), IoFailure>>,
            | #[trigger]
                explained_by(as_executed(r), plans_of(preview_models(items@)), temps, answers),
            items.len() == 0 ==> r is Ok,
    {
        match approved_plans(items) {
            Err(refusal) => Err((None, refusal)),
            Ok(plans) => {
                proof {
                    assert(plan_models(plans@).len() == plans.len());
                    assert(plans_of(preview_models(items@)).len() == items.len());
                }
                match self.execute(&plans) {
                    Ok(journal) => Ok(journal),
                    Err((journal, error)) => Err((Some(journal), error)),
                }
            },
        }
    }
}

} // verus!
