//! The reasons for which a proposed rename must not be committed, and the
//! index over a whole batch from which they are read off for each item.
use vstd::prelude::*;
use vstd::hash_map::StringHashMap;
use vstd::hash_set::StringHashSet;
use vstd::string::StringExecFns;
use crate::paths::{stem_or_empty, stem_text};
use crate::text::{lowercase, lowercase_of, same_text, texts, uppercase, uppercase_of};

verus! {

/// A reason for which a proposed rename must not be committed.
#[derive(Debug, Clone, PartialEq, Eq, Hash)]
pub enum Conflict {
    /// Something that this batch does not move away is already at the target.
    TargetExists { path: String },
    /// Another item of the batch has the very same target.
    Collision { path: String },
    /// Another item of the batch has a target that differs only by case, on
    /// a filesystem that does not tell the two apart.
    CaseCollision { path: String },
    /// The base name of the target is a reserved device name.
    ReservedName { name: String },
    /// Nothing exists at the source.
    SourceNotFound { path: String },
}

/// The mathematical value of a [`Conflict`].
pub enum ConflictModel {
    TargetExists { path: Seq<char> },
    Collision { path: Seq<char> },
    CaseCollision { path: Seq<char> },
    ReservedName { name: Seq<char> },
    SourceNotFound { path: Seq<char> },
}

impl View for Conflict {
    type V = ConflictModel;

    open spec fn view(&self) -> ConflictModel {
        match self {
            Conflict::TargetExists { path } => ConflictModel::TargetExists { path: path@ },
            Conflict::Collision { path } => ConflictModel::Collision { path: path@ },
            Conflict::CaseCollision { path } => ConflictModel::CaseCollision { path: path@ },
            Conflict::ReservedName { name } => ConflictModel::ReservedName { name: name@ },
            Conflict::SourceNotFound { path } => ConflictModel::SourceNotFound { path: path@ },
        }
    }
}

/// The values of a list of conflicts.
pub open spec fn conflict_models(list: Seq<Conflict>) -> Seq<ConflictModel> {
    Seq::new(list.len(), |i: int| list[i]@)
}

/// What the filesystem said of one item: whether names that differ only by
/// case are different files where its source lives, and whether something
/// exists at its target. Where the target is the source itself the second
/// question is not asked, and the answer recorded is `false`.
#[derive(Debug, Clone, Copy, PartialEq, Eq)]
pub struct Probe {
    pub case_sensitive: bool,
    pub target_exists: bool,
}

/// How often a text occurs in a list.
pub open spec fn count_of(list: Seq<Seq<char>>, item: Seq<char>) -> nat
    decreases list.len(),
{
    if list.len() == 0 {
        0
    } else if list.last() == item {
        count_of(list.drop_last(), item) + 1
    } else {
        count_of(list.drop_last(), item)
    }
}

/// A list of paths, each in lower case.
pub open spec fn folded(list: Seq<Seq<char>>) -> Seq<Seq<char>> {
    Seq::new(list.len(), |i: int| lowercase_of(list[i]))
}

/// Whether a word, already in upper case, is one of the device names that
/// some filesystems reserve: CON, PRN, AUX, NUL, COM1 to COM9, LPT1 to LPT9.
pub open spec fn reserved_word(word: Seq<char>) -> bool {
    ||| word == "CON"@
    ||| word == "PRN"@
    ||| word == "AUX"@
    ||| word == "NUL"@
    ||| word == "COM1"@
    ||| word == "COM2"@
    ||| word == "COM3"@
    ||| word == "COM4"@
    ||| word == "COM5"@
    ||| word == "COM6"@
    ||| word == "COM7"@
    ||| word == "COM8"@
    ||| word == "COM9"@
    ||| word == "LPT1"@
    ||| word == "LPT2"@
    ||| word == "LPT3"@
    ||| word == "LPT4"@
    ||| word == "LPT5"@
    ||| word == "LPT6"@
    ||| word == "LPT7"@
    ||| word == "LPT8"@
    ||| word == "LPT9"@
}

/// Whether the base name of a path, whatever its case and whatever the
/// extension, is a reserved device name.
pub open spec fn reserved_target(path: Seq<char>) -> bool {
    reserved_word(uppercase_of(stem_text(path)))
}

/// Whether renaming `original` to `target` leaves the file where it is: the
/// two are the same path, or differ only by case where case does not count.
pub open spec fn same_place(original: Seq<char>, target: Seq<char>, case_sensitive: bool) -> bool {
    if case_sensitive {
        target == original
    } else {
        lowercase_of(target) == lowercase_of(original)
    }
}

/// Whether a target is the source of some item of the batch, case apart, so
/// that what is there now moves away in the same batch.
pub open spec fn vacated(originals: Seq<Seq<char>>, target: Seq<char>) -> bool {
    folded(originals).contains(lowercase_of(target))
}

/// Whether more than one item of the batch has exactly this target.
pub open spec fn collides(targets: Seq<Seq<char>>, target: Seq<char>) -> bool {
    count_of(targets, target) > 1
}

/// Whether a path is a target of the batch that is `key` in lower case.
pub open spec fn grouped(targets: Seq<Seq<char>>, key: Seq<char>, path: Seq<char>) -> bool {
    lowercase_of(path) == key && targets.contains(path)
}

/// Whether more than one item of the batch has this target case apart, and
/// one of them writes it differently.
pub open spec fn case_collides(targets: Seq<Seq<char>>, target: Seq<char>) -> bool {
    &&& count_of(folded(targets), lowercase_of(target)) > 1
    &&& exists|path: Seq<char>| #[trigger]
        grouped(targets, lowercase_of(target), path) && path != target
}

/// The conflicts of one item that show when it is held against the whole
/// batch, in the order in which they are reported: target exists, collision,
/// case collision, reserved name. `originals` and `targets` are the sources and
/// targets of all items of the batch.
pub open spec fn found_conflicts(
    originals: Seq<Seq<char>>,
    targets: Seq<Seq<char>>,
    original: Seq<char>,
    target: Seq<char>,
    probe: Probe,
) -> Seq<ConflictModel> {
    let exists_part = if !same_place(original, target, probe.case_sensitive) && probe.target_exists
        && !vacated(originals, target) {
        seq![ConflictModel::TargetExists { path: target }]
    } else {
        Seq::empty()
    };
    let collision_part = if collides(targets, target) {
        seq![ConflictModel::Collision { path: target }]
    } else {
        Seq::empty()
    };
    let case_part = if !probe.case_sensitive && case_collides(targets, target) {
        seq![ConflictModel::CaseCollision { path: target }]
    } else {
        Seq::empty()
    };
    let reserved_part = if reserved_target(target) {
        seq![ConflictModel::ReservedName { name: stem_text(target) }]
    } else {
        Seq::empty()
    };
    exists_part + collision_part + case_part + reserved_part
}

/// Whether a word, already in upper case, is a reserved device name.
pub fn is_reserved_word(word: &str) -> (r: bool)
    ensures
        r == reserved_word(word@),
{
    same_text(word, "CON") || same_text(word, "PRN") || same_text(word, "AUX") || same_text(
        word,
        "NUL",
    ) || same_text(word, "COM1") || same_text(word, "COM2") || same_text(word, "COM3")
        || same_text(word, "COM4") || same_text(word, "COM5") || same_text(word, "COM6")
        || same_text(word, "COM7") || same_text(word, "COM8") || same_text(word, "COM9")
        || same_text(word, "LPT1") || same_text(word, "LPT2") || same_text(word, "LPT3")
        || same_text(word, "LPT4") || same_text(word, "LPT5") || same_text(word, "LPT6")
        || same_text(word, "LPT7") || same_text(word, "LPT8") || same_text(word, "LPT9")
}

/// Whether the base name of a path is a reserved device name. The base name
/// is the final component without its extension; it is compared in upper
/// case, so neither case nor extension matters.
pub fn is_reserved_name(path: &str) -> (r: bool)
    ensures
        r == reserved_target(path@),
{
    let stem = stem_or_empty(path);
    let upper = uppercase(stem.as_str());
    is_reserved_word(upper.as_str())
}

/// Whether renaming `original` to `target` leaves the file where it is.
pub fn is_same_place(original: &str, target: &str, case_sensitive: bool) -> (r: bool)
    ensures
        r == same_place(original@, target@, case_sensitive),
{
    if case_sensitive {
        same_text(target, original)
    } else {
        let a = lowercase(target);
        let b = lowercase(original);
        same_text(a.as_str(), b.as_str())
    }
}

/// Whether a map holds, for every text of a list, how often it occurs there,
/// and nothing else.
pub open spec fn tallies(counts: Map<Seq<char>, usize>, list: Seq<Seq<char>>) -> bool {
    forall|key: Seq<char>|
        #![trigger counts.contains_key(key)]
        #![trigger count_of(list, key)]
        {
            &&& counts.contains_key(key) <==> count_of(list, key) > 0
            &&& counts.contains_key(key) ==> counts[key] == count_of(list, key)
        }
}

/// Whether a path is listed under a key.
pub open spec fn listed(
    groups: Map<Seq<char>, Vec<String>>,
    key: Seq<char>,
    path: Seq<char>,
) -> bool {
    groups.contains_key(key) && texts(groups[key]@).contains(path)
}

/// Whether a map lists, under each lower-case path, exactly the targets that
/// are that path in lower case.
pub open spec fn groups_by_case(
    groups: Map<Seq<char>, Vec<String>>,
    targets: Seq<Seq<char>>,
) -> bool {
    forall|key: Seq<char>, path: Seq<char>|
        #![trigger listed(groups, key, path)]
        #![trigger grouped(targets, key, path)]
        listed(groups, key, path) <==> grouped(targets, key, path)
}

/// A text occurs in a list at most as often as the list is long.
pub proof fn lemma_count_bounded(list: Seq<Seq<char>>, item: Seq<char>)
    ensures
        count_of(list, item) <= list.len(),
    decreases list.len(),
{
    if list.len() > 0 {
        lemma_count_bounded(list.drop_last(), item);
    }
}

/// A text occurs in a list if and only if its count there is positive.
pub proof fn lemma_count_positive(list: Seq<Seq<char>>, item: Seq<char>)
    ensures
        count_of(list, item) > 0 <==> list.contains(item),
    decreases list.len(),
{
    if list.len() > 0 {
        lemma_count_positive(list.drop_last(), item);
        if list.last() == item {
            assert(list[list.len() - 1] == item);
        } else if list.drop_last().contains(item) {
            let k = choose|k: int| 0 <= k < list.drop_last().len() && list.drop_last()[k] == item;
            assert(list[k] == item);
        } else if list.contains(item) {
            let k = choose|k: int| 0 <= k < list.len() && list[k] == item;
            assert(list.drop_last()[k] == item);
        }
    }
}

/// A text that stands at two places of a list occurs there at least twice.
pub proof fn lemma_count_two(list: Seq<Seq<char>>, i: int, j: int)
    requires
        0 <= i < j < list.len(),
        list[i] == list[j],
    ensures
        count_of(list, list[i]) >= 2,
    decreases list.len(),
{
    if j == list.len() - 1 {
        lemma_count_positive(list.drop_last(), list[i]);
        assert(list.drop_last()[i] == list[i]);
    } else {
        assert(list.drop_last()[i] == list[i]);
        assert(list.drop_last()[j] == list[j]);
        lemma_count_two(list.drop_last(), i, j);
    }
}

/// A text that occurs more than once in a list stands at two places of it.
pub proof fn lemma_count_many(list: Seq<Seq<char>>, item: Seq<char>)
    requires
        count_of(list, item) > 1,
    ensures
        exists|i: int, j: int| 0 <= i < j < list.len() && list[i] == item && list[j] == item,
    decreases list.len(),
{
    if list.last() == item {
        lemma_count_positive(list.drop_last(), item);
        let i = choose|i: int| 0 <= i < list.drop_last().len() && list.drop_last()[i] == item;
        assert(list[i] == item && list[list.len() - 1] == item);
    } else {
        lemma_count_many(list.drop_last(), item);
        let (i, j) = choose|i: int, j: int|
            0 <= i < j < list.drop_last().len() && list.drop_last()[i] == item
                && list.drop_last()[j] == item;
        assert(list[i] == item && list[j] == item);
    }
}

/// Counts how often each text occurs in a list.
fn tally(keys: &Vec<String>) -> (r: StringHashMap<usize>)
    ensures
        tallies(r@, texts(keys@)),
{
    let ghost all = texts(keys@);
    let mut counts: StringHashMap<usize> = StringHashMap::new();
    let mut k: usize = 0;
    assert forall|key: Seq<char>| count_of(all.take(0), key) == 0 by {}
    while k < keys.len()
        invariant
            k <= keys.len(),
            all == texts(keys@),
            tallies(counts@, all.take(k as int)),
        decreases keys.len() - k,
    {
        let key = keys[k].clone();
        let seen: usize = match counts.get(key.as_str()) {
            Some(n) => *n,
            None => 0,
        };
        proof {
            lemma_count_bounded(all.take(k as int), key@);
            assert(all.take(k + 1).drop_last() =~= all.take(k as int));
            assert(all.take(k + 1).last() == key@);
            assert(counts@.contains_key(key@) <==> count_of(all.take(k as int), key@) > 0);
            assert(seen == count_of(all.take(k as int), key@));
        }
        let ghost before = counts@;
        counts.insert(key, seen + 1);
        proof {
            assert forall|other: Seq<char>|
                #![trigger counts@.contains_key(other)]
                #![trigger count_of(all.take(k + 1), other)]
                {
                    &&& counts@.contains_key(other) <==> count_of(all.take(k + 1), other) > 0
                    &&& counts@.contains_key(other) ==> counts@[other] == count_of(
                        all.take(k + 1),
                        other,
                    )
                } by {
                assert(before.contains_key(other) <==> count_of(all.take(k as int), other) > 0);
            }
        }
        k = k + 1;
    }
    assert(all.take(keys.len() as int) =~= all);
    counts
}

/// Every path of a list in lower case.
fn fold_all(paths: &Vec<String>) -> (r: Vec<String>)
    ensures
        texts(r@) == folded(texts(paths@)),
{
    let mut out: Vec<String> = Vec::new();
    let mut k: usize = 0;
    while k < paths.len()
        invariant
            k <= paths.len(),
            out.len() == k,
            forall|i: int| 0 <= i < k ==> (#[trigger] out@[i])@ == lowercase_of(paths@[i]@),
        decreases paths.len() - k,
    {
        out.push(lowercase(paths[k].as_str()));
        k = k + 1;
    }
    assert(texts(out@) =~= folded(texts(paths@)));
    out
}

/// The texts of a list as a set.
fn collect(keys: &Vec<String>) -> (r: StringHashSet)
    ensures
        forall|key: Seq<char>| r@.contains(key) <==> texts(keys@).contains(key),
{
    let ghost all = texts(keys@);
    let mut set = StringHashSet::new();
    let mut k: usize = 0;
    while k < keys.len()
        invariant
            k <= keys.len(),
            all == texts(keys@),
            forall|key: Seq<char>| set@.contains(key) <==> all.take(k as int).contains(key),
        decreases keys.len() - k,
    {
        set.insert(keys[k].clone());
        proof {
            assert forall|key: Seq<char>| set@.contains(key) <==> all.take(k + 1).contains(
                key,
            ) by {
                lemma_take_contains(all, k as int, key);
            }
        }
        k = k + 1;
    }
    assert(all.take(keys.len() as int) =~= all);
    set
}

/// A text is among the first `k + 1` of a list if and only if it is among the
/// first `k` or is the one at `k`.
proof fn lemma_take_contains(list: Seq<Seq<char>>, k: int, item: Seq<char>)
    requires
        0 <= k < list.len(),
    ensures
        list.take(k + 1).contains(item) <==> (list.take(k).contains(item) || list[k] == item),
{
    let longer = list.take(k + 1);
    let shorter = list.take(k);
    if longer.contains(item) {
        let i = choose|i: int| 0 <= i < longer.len() && longer[i] == item;
        if i < k {
            assert(shorter[i] == item);
        }
    }
    if shorter.contains(item) {
        let i = choose|i: int| 0 <= i < shorter.len() && shorter[i] == item;
        assert(longer[i] == item);
    }
    if list[k] == item {
        assert(longer[k] == item);
    }
}

/// Whether a list holds a text.
fn holds(list: &Vec<String>, item: &str) -> (r: bool)
    ensures
        r == texts(list@).contains(item@),
{
    let mut k: usize = 0;
    while k < list.len()
        invariant
            k <= list.len(),
            forall|i: int| 0 <= i < k ==> texts(list@)[i] != item@,
        decreases list.len() - k,
    {
        if same_text(list[k].as_str(), item) {
            assert(texts(list@)[k as int] == item@);
            return true;
        }
        k = k + 1;
    }
    false
}

/// Whether a list holds a text other than the given one.
fn holds_another(list: &Vec<String>, item: &str) -> (r: bool)
    ensures
        r == exists|path: Seq<char>| texts(list@).contains(path) && path != item@,
{
    let mut k: usize = 0;
    while k < list.len()
        invariant
            k <= list.len(),
            forall|i: int| 0 <= i < k ==> texts(list@)[i] == item@,
        decreases list.len() - k,
    {
        if !same_text(list[k].as_str(), item) {
            assert(texts(list@).contains(texts(list@)[k as int]));
            return true;
        }
        k = k + 1;
    }
    false
}

/// A copy of a list of paths with one more path, unless the list holds it
/// already.
fn with_variant(list: &Vec<String>, path: &str) -> (r: Vec<String>)
    ensures
        forall|other: Seq<char>|
            texts(r@).contains(other) <==> (texts(list@).contains(other) || other == path@),
{
    let mut out: Vec<String> = Vec::new();
    let mut k: usize = 0;
    while k < list.len()
        invariant
            k <= list.len(),
            out.len() == k,
            forall|i: int| 0 <= i < k ==> (#[trigger] out@[i])@ == list@[i]@,
        decreases list.len() - k,
    {
        out.push(list[k].clone());
        k = k + 1;
    }
    assert(texts(out@) =~= texts(list@));
    if !holds(&out, path) {
        let ghost before = texts(out@);
        out.push(String::from_str(path));
        proof {
            assert(texts(out@) =~= before.push(path@));
            assert(texts(out@).take(before.len() as int) =~= before);
            assert forall|other: Seq<char>|
                texts(out@).contains(other) <==> (before.contains(other) || other == path@) by {
                lemma_take_contains(texts(out@), before.len() as int, other);
            }
        }
    }
    out
}

/// Lists, under each lower-case path, the targets that are that path in lower
/// case, each once.
fn group(keys: &Vec<String>, targets: &Vec<String>) -> (r: StringHashMap<Vec<String>>)
    requires
        texts(keys@) == folded(texts(targets@)),
    ensures
        groups_by_case(r@, texts(targets@)),
{
    let ghost all = texts(targets@);
    let mut groups: StringHashMap<Vec<String>> = StringHashMap::new();
    let mut k: usize = 0;
    assert(keys.len() == targets.len()) by {
        assert(texts(keys@).len() == keys.len());
        assert(folded(texts(targets@)).len() == targets.len());
    }
    while k < targets.len()
        invariant
            k <= targets.len(),
            keys.len() == targets.len(),
            all == texts(targets@),
            texts(keys@) == folded(all),
            groups_by_case(groups@, all.take(k as int)),
        decreases targets.len() - k,
    {
        let key = keys[k].clone();
        let ghost path = all[k as int];
        proof {
            assert(texts(keys@)[k as int] == lowercase_of(all[k as int]));
            assert(key@ == lowercase_of(path));
        }
        let list = match groups.get(key.as_str()) {
            Some(known) => with_variant(known, targets[k].as_str()),
            None => with_variant(&Vec::new(), targets[k].as_str()),
        };
        let ghost before = groups@;
        groups.insert(key, list);
        proof {
            assert forall|other_key: Seq<char>, other: Seq<char>|
                #![trigger listed(groups@, other_key, other)]
                #![trigger grouped(all.take(k + 1), other_key, other)]
                listed(groups@, other_key, other) <==> grouped(
                    all.take(k + 1),
                    other_key,
                    other,
                ) by {
                lemma_take_contains(all, k as int, other);
                assert(listed(before, other_key, other) <==> grouped(
                    all.take(k as int),
                    other_key,
                    other,
                ));
                if other_key == key@ {
                    if !before.contains_key(key@) {
                        assert(!listed(before, other_key, other));
                    }
                }
            }
        }
        k = k + 1;
    }
    assert(all.take(targets.len() as int) =~= all);
    groups
}

/// What a batch holds, indexed once so that each item can be held against the
/// whole without looking at the others again: how often each target occurs,
/// how often it occurs case apart, which spellings each lower-case target has,
/// and which paths the batch moves away from. The index is read-only once
/// built.
pub struct BatchIndex {
    exact: StringHashMap<usize>,
    lowered: StringHashMap<usize>,
    variants: StringHashMap<Vec<String>>,
    sources: StringHashSet,
    originals: Ghost<Seq<Seq<char>>>,
    targets: Ghost<Seq<Seq<char>>>,
}

impl BatchIndex {
    /// The sources of the batch, in order.
    pub closed spec fn originals(&self) -> Seq<Seq<char>> {
        self.originals@
    }

    /// The targets of the batch, in order.
    pub closed spec fn targets(&self) -> Seq<Seq<char>> {
        self.targets@
    }

    #[verifier::type_invariant]
    spec fn wf(&self) -> bool {
        &&& tallies(self.exact@, self.targets@)
        &&& tallies(self.lowered@, folded(self.targets@))
        &&& groups_by_case(self.variants@, self.targets@)
        &&& forall|key: Seq<char>|
            self.sources@.contains(key) <==> folded(self.originals@).contains(key)
    }

    /// Indexes a batch given by the sources and the targets of its items.
    pub fn build(originals: &Vec<String>, targets: &Vec<String>) -> (r: BatchIndex)
        ensures
            r.originals() == texts(originals@),
            r.targets() == texts(targets@),
    {
        let lowered_targets = fold_all(targets);
        let lowered_originals = fold_all(originals);
        BatchIndex {
            exact: tally(targets),
            lowered: tally(&lowered_targets),
            variants: group(&lowered_targets, targets),
            sources: collect(&lowered_originals),
            originals: Ghost(texts(originals@)),
            targets: Ghost(texts(targets@)),
        }
    }

    /// The conflicts of one item that show when it is held against the batch,
    /// given what the filesystem said of it. Every conflict that applies is
    /// reported; none hides another.
    pub fn conflicts_for(&self, original: &str, target: &str, probe: Probe) -> (r: Vec<Conflict>)
        ensures
            conflict_models(r@) == found_conflicts(
                self.originals(),
                self.targets(),
                original@,
                target@,
                probe,
            ),
    {
        proof {
            use_type_invariant(self);
        }
        let lowered = lowercase(target);
        let mut out: Vec<Conflict> = Vec::new();
        if !is_same_place(original, target, probe.case_sensitive) && probe.target_exists
            && !self.sources.contains(lowered.as_str()) {
            out.push(Conflict::TargetExists { path: String::from_str(target) });
        }
        let same: usize = match self.exact.get(target) {
            Some(n) => *n,
            None => 0,
        };
        if same > 1 {
            out.push(Conflict::Collision { path: String::from_str(target) });
        }
        if !probe.case_sensitive {
            let alike: usize = match self.lowered.get(lowered.as_str()) {
                Some(n) => *n,
                None => 0,
            };
            let another = match self.variants.get(lowered.as_str()) {
                Some(list) => holds_another(list, target),
                None => false,
            };
            proof {
                assert(another == exists|path: Seq<char>| #[trigger]
                    grouped(self.targets@, lowered@, path) && path != target@) by {
                    if another {
                        let path = choose|path: Seq<char>|
                            texts(self.variants@[lowered@]@).contains(path) && path != target@;
                        assert(listed(self.variants@, lowered@, path));
                        assert(grouped(self.targets@, lowered@, path));
                    }
                    if exists|path: Seq<char>| #[trigger]
                        grouped(self.targets@, lowered@, path) && path != target@ {
                        let path = choose|path: Seq<char>| #[trigger]
                            grouped(self.targets@, lowered@, path) && path != target@;
                        assert(listed(self.variants@, lowered@, path));
                    }
                }
            }
            if alike > 1 && another {
                out.push(Conflict::CaseCollision { path: String::from_str(target) });
            }
        }
        if is_reserved_name(target) {
            out.push(Conflict::ReservedName { name: stem_or_empty(target) });
        }
        proof {
            assert(conflict_models(out@) =~= found_conflicts(
                self.originals@,
                self.targets@,
                original@,
                target@,
                probe,
            ));
        }
        out
    }
}

/// What a list holds, a longer list that ends with it holds too.
pub proof fn lemma_appended_contains(
    head: Seq<ConflictModel>,
    tail: Seq<ConflictModel>,
    item: ConflictModel,
)
    requires
        tail.contains(item),
    ensures
        (head + tail).contains(item),
{
    let k = choose|k: int| 0 <= k < tail.len() && tail[k] == item;
    assert((head + tail)[head.len() + k] == item);
}

/// A target that more than one item of the batch has is reported as a
/// collision, whatever else is reported.
pub proof fn lemma_collision_is_reported(
    originals: Seq<Seq<char>>,
    targets: Seq<Seq<char>>,
    original: Seq<char>,
    target: Seq<char>,
    probe: Probe,
)
    requires
        count_of(targets, target) > 1,
    ensures
        found_conflicts(originals, targets, original, target, probe).contains(
            ConflictModel::Collision { path: target },
        ),
{
    let found = found_conflicts(originals, targets, original, target, probe);
    let wanted = ConflictModel::Collision { path: target };
    if !same_place(original, target, probe.case_sensitive) && probe.target_exists && !vacated(
        originals,
        target,
    ) {
        assert(found[1] == wanted);
    } else {
        assert(found[0] == wanted);
    }
}

/// A target whose base name is a reserved device name, in whatever case and
/// with whatever extension, is reported as such, whatever else is reported.
pub proof fn lemma_reserved_is_reported(
    originals: Seq<Seq<char>>,
    targets: Seq<Seq<char>>,
    original: Seq<char>,
    target: Seq<char>,
    probe: Probe,
)
    requires
        reserved_word(uppercase_of(stem_text(target))),
    ensures
        found_conflicts(originals, targets, original, target, probe).contains(
            ConflictModel::ReservedName { name: stem_text(target) },
        ),
{
    let found = found_conflicts(originals, targets, original, target, probe);
    let wanted = ConflictModel::ReservedName { name: stem_text(target) };
    assert(found[found.len() - 1] == wanted);
}

/// A target that another item of the batch has in another spelling is
/// reported as a case collision where case does not count, whatever else is
/// reported.
pub proof fn lemma_case_collision_is_reported(
    originals: Seq<Seq<char>>,
    targets: Seq<Seq<char>>,
    original: Seq<char>,
    target: Seq<char>,
    probe: Probe,
)
    requires
        !probe.case_sensitive,
        case_collides(targets, target),
    ensures
        found_conflicts(originals, targets, original, target, probe).contains(
            ConflictModel::CaseCollision { path: target },
        ),
{
    let found = found_conflicts(originals, targets, original, target, probe);
    let wanted = ConflictModel::CaseCollision { path: target };
    let shown = !same_place(original, target, probe.case_sensitive) && probe.target_exists
        && !vacated(originals, target);
    let at: int = if shown && collides(targets, target) {
        2
    } else if shown || collides(targets, target) {
        1
    } else {
        0
    };
    assert(found[at] == wanted);
}

/// Where case counts, nothing that is reported of an item against the batch
/// is a case collision.
pub proof fn lemma_found_without_case_collision(
    originals: Seq<Seq<char>>,
    targets: Seq<Seq<char>>,
    original: Seq<char>,
    target: Seq<char>,
    probe: Probe,
    k: int,
)
    requires
        probe.case_sensitive,
        0 <= k < found_conflicts(originals, targets, original, target, probe).len(),
    ensures
        !(found_conflicts(originals, targets, original, target, probe)[k]
            is CaseCollision),
{
    let shown = !same_place(original, target, probe.case_sensitive) && probe.target_exists
        && !vacated(originals, target);
    let found = found_conflicts(originals, targets, original, target, probe);
    if shown {
        assert(found[0] is TargetExists);
    }
    if collides(targets, target) {
        assert(found[if shown { 1int } else { 0int }] is Collision);
    }
    if reserved_target(target) {
        assert(found[found.len() - 1] is ReservedName);
    }
}

} // verus!
