//! The definition store: which definitions a directory scan yields, and the
//! two indices that list the definitions of each context and each category.

use vstd::prelude::*;
use vstd::hash_map::StringHashMap;
use std::collections::HashMap;
use crate::bhtimer::{texts_view, TimerFile, TimerFileView};

verus! {

/// Why one definition file gave no definition.
#[derive(Clone, Copy, Debug, PartialEq, Eq, Structural)]
pub enum LoadFailure {
    /// The file could not be read.
    Unreadable,
    /// The file was read and its content is no definition.
    Malformed,
}

/// What became of one file that the scan found.
#[derive(Debug)]
pub enum FileOutcome {
    Loaded { path: String, timer: TimerFile },
    Failed { path: String, failure: LoadFailure, reason: String },
}

/// The mathematical view of a `FileOutcome`.
pub enum OutcomeView {
    Loaded { path: Seq<char>, timer: TimerFileView },
    Failed { path: Seq<char>, failure: LoadFailure, reason: Seq<char> },
}

impl View for FileOutcome {
    type V = OutcomeView;

    open spec fn view(&self) -> OutcomeView {
        match self {
            FileOutcome::Loaded { path, timer } => OutcomeView::Loaded {
                path: path@,
                timer: timer@,
            },
            FileOutcome::Failed { path, failure, reason } => OutcomeView::Failed {
                path: path@,
                failure: *failure,
                reason: reason@,
            },
        }
    }
}

/// The views of the outcomes of one scan, in scan order.
pub open spec fn outcomes_view(outcomes: Seq<FileOutcome>) -> Seq<OutcomeView> {
    outcomes.map_values(|o: FileOutcome| o@)
}

/// A file that the load step passed over.
#[derive(Debug)]
pub struct SkippedFile {
    pub path: String,
    pub failure: LoadFailure,
    pub reason: String,
}

/// The mathematical view of a `SkippedFile`.
pub struct SkipView {
    pub path: Seq<char>,
    pub failure: LoadFailure,
    pub reason: Seq<char>,
}

impl View for SkippedFile {
    type V = SkipView;

    open spec fn view(&self) -> SkipView {
        SkipView { path: self.path@, failure: self.failure, reason: self.reason@ }
    }
}

/// The result of loading every file of one scan.
#[derive(Debug)]
pub struct LoadReport {
    /// The definitions that loaded, in scan order.
    pub timers: Vec<TimerFile>,
    /// The files that were passed over, in scan order: one log line each.
    pub skipped: Vec<SkippedFile>,
}

/// The scan pattern was refused, so no file could be looked for.
#[derive(Debug)]
pub struct PatternFault {
    /// Where in the pattern the fault lies.
    pub position: usize,
    pub message: String,
}

/// Why the load step as a whole gave up.
#[derive(Debug)]
pub enum LoadError {
    ScanPattern { position: usize, message: String },
}

/// The views of a list of definitions, in order.
pub open spec fn timers_view(timers: Seq<TimerFile>) -> Seq<TimerFileView> {
    timers.map_values(|t: TimerFile| t@)
}

/// The views of a list of skipped files, in order.
pub open spec fn skips_view(skipped: Seq<SkippedFile>) -> Seq<SkipView> {
    skipped.map_values(|s: SkippedFile| s@)
}

/// The definitions among `outcomes`, in scan order.
pub open spec fn loaded(outcomes: Seq<OutcomeView>) -> Seq<TimerFileView>
    decreases outcomes.len(),
{
    if outcomes.len() == 0 {
        Seq::empty()
    } else {
        let before = loaded(outcomes.drop_last());
        match outcomes.last() {
            OutcomeView::Loaded { timer, .. } => before.push(timer),
            OutcomeView::Failed { .. } => before,
        }
    }
}

/// The failures among `outcomes`, in scan order.
pub open spec fn skipped(outcomes: Seq<OutcomeView>) -> Seq<SkipView>
    decreases outcomes.len(),
{
    if outcomes.len() == 0 {
        Seq::empty()
    } else {
        let before = skipped(outcomes.drop_last());
        match outcomes.last() {
            OutcomeView::Loaded { .. } => before,
            OutcomeView::Failed { path, failure, reason } => before.push(
                SkipView { path, failure, reason },
            ),
        }
    }
}

/// Loads the definitions of one scan.
///
/// A refused scan pattern ends the load with an error. Otherwise every file
/// counts for itself: one that could not be read or understood is passed
/// over and listed, and all the others load.
pub fn load_all(scan: Result<Vec<FileOutcome>, PatternFault>) -> (result: Result<
    LoadReport,
    LoadError,
>)
    ensures
        match scan {
            Ok(outcomes) => {
                &&& result matches Ok(report)
                &&& timers_view(report.timers@) == loaded(outcomes_view(outcomes@))
                &&& skips_view(report.skipped@) == skipped(outcomes_view(outcomes@))
            },
            Err(fault) => {
                &&& result matches Err(LoadError::ScanPattern { position, message })
                &&& position == fault.position
                &&& message@ == fault.message@
            },
        },
{
    match scan {
        Err(fault) => Err(
            LoadError::ScanPattern { position: fault.position, message: fault.message },
        ),
        Ok(outcomes) => {
            let mut timers: Vec<TimerFile> = Vec::new();
            let mut passed_over: Vec<SkippedFile> = Vec::new();
            let ghost all = outcomes_view(outcomes@);
            let mut i: usize = 0;
            while i < outcomes.len()
                invariant
                    i <= outcomes.len(),
                    all == outcomes_view(outcomes@),
                    timers_view(timers@) == loaded(all.take(i as int)),
                    skips_view(passed_over@) == skipped(all.take(i as int)),
                decreases outcomes.len() - i,
            {
                proof {
                    assert(all.take(i + 1).drop_last() =~= all.take(i as int));
                    assert(all.take(i + 1).last() == outcomes@[i as int]@);
                }
                let ghost timers_before = timers@;
                let ghost skips_before = passed_over@;
                match &outcomes[i] {
                    FileOutcome::Loaded { timer, .. } => {
                        timers.push(timer.clone());
                        assert(timers_view(timers@) =~= timers_view(timers_before).push(
                            timer@,
                        ));
                    },
                    FileOutcome::Failed { path, failure, reason } => {
                        passed_over.push(
                            SkippedFile {
                                path: path.clone(),
                                failure: *failure,
                                reason: reason.clone(),
                            },
                        );
                        assert(skips_view(passed_over@) =~= skips_view(skips_before).push(
                            SkipView { path: path@, failure: *failure, reason: reason@ },
                        ));
                    },
                }
                i = i + 1;
            }
            proof {
                assert(all.take(outcomes.len() as int) =~= all);
            }
            Ok(LoadReport { timers, skipped: passed_over })
        },
    }
}

/// The definitions among `timers` that the state machine can start, in
/// load order.
pub open spec fn startable_among(timers: Seq<TimerFileView>) -> Seq<TimerFileView>
    decreases timers.len(),
{
    if timers.len() == 0 {
        Seq::empty()
    } else {
        let before = startable_among(timers.drop_last());
        if timers.last().startable() {
            before.push(timers.last())
        } else {
            before
        }
    }
}

/// The ids of the definitions among `timers` that the state machine cannot
/// start, in load order.
pub open spec fn unstartable_ids(timers: Seq<TimerFileView>) -> Seq<Seq<char>>
    decreases timers.len(),
{
    if timers.len() == 0 {
        Seq::empty()
    } else {
        let before = unstartable_ids(timers.drop_last());
        if timers.last().startable() {
            before
        } else {
            before.push(timers.last().id)
        }
    }
}

/// The definitions of one load, parted by whether they can be started.
#[derive(Debug)]
pub struct Admission {
    /// The definitions that can be started, in load order.
    pub admitted: Vec<TimerFile>,
    /// The ids of the definitions that were turned away, in load order.
    pub rejected: Vec<String>,
}

/// Checks the content of loaded definitions before they reach the state
/// machine.
///
/// A definition without a first phase, or whose first phase starts on a
/// location trigger without a position, is turned away here, so that no
/// evaluation tick ever meets it.
pub fn admit_startable(timers: Vec<TimerFile>) -> (admission: Admission)
    ensures
        timers_view(admission.admitted@) == startable_among(timers_view(timers@)),
        texts_view(admission.rejected@) == unstartable_ids(timers_view(timers@)),
        forall|i: int|
            0 <= i < admission.admitted.len() ==> (#[trigger] admission.admitted[i])@.startable(),
{
    let mut admitted: Vec<TimerFile> = Vec::new();
    let mut rejected: Vec<String> = Vec::new();
    let ghost all = timers_view(timers@);
    let mut i: usize = 0;
    while i < timers.len()
        invariant
            i <= timers.len(),
            all == timers_view(timers@),
            timers_view(admitted@) == startable_among(all.take(i as int)),
            texts_view(rejected@) == unstartable_ids(all.take(i as int)),
            forall|k: int| 0 <= k < admitted.len() ==> (#[trigger] admitted[k])@.startable(),
        decreases timers.len() - i,
    {
        let timer: &TimerFile = &timers[i];
        let ghost admitted_before = admitted@;
        let ghost rejected_before = rejected@;
        proof {
            assert(all.take(i + 1).drop_last() =~= all.take(i as int));
            assert(all.take(i + 1).last() == timer@);
        }
        if timer.is_startable() {
            admitted.push(timer.clone());
            assert(timers_view(admitted@) =~= timers_view(admitted_before).push(timer@));
        } else {
            rejected.push(timer.id.clone());
            assert(texts_view(rejected@) =~= texts_view(rejected_before).push(timer@.id));
        }
        i = i + 1;
    }
    proof {
        assert(all.take(timers.len() as int) =~= all);
    }
    Admission { admitted, rejected }
}

/// The definition that a loaded file gave.
pub open spec fn definition_of(outcome: OutcomeView) -> TimerFileView
    recommends
        outcome is Loaded,
{
    outcome->timer
}

/// The definitions of files that all loaded, in scan order.
pub open spec fn definitions_of(outcomes: Seq<OutcomeView>) -> Seq<TimerFileView> {
    outcomes.map_values(|o: OutcomeView| definition_of(o))
}

/// The entry under which a failed file is listed.
pub open spec fn skip_of(outcome: OutcomeView) -> SkipView
    recommends
        outcome is Failed,
{
    SkipView {
        path: outcome->Failed_path,
        failure: outcome->failure,
        reason: outcome->reason,
    }
}

/// Loading two scans one after the other gives what loading each gives,
/// one after the other: no file has a bearing on another.
pub proof fn lemma_load_splits(first: Seq<OutcomeView>, second: Seq<OutcomeView>)
    ensures
        loaded(first + second) == loaded(first) + loaded(second),
        skipped(first + second) == skipped(first) + skipped(second),
    decreases second.len(),
{
    if second.len() == 0 {
        assert(first + second =~= first);
        assert(loaded(first) + loaded(second) =~= loaded(first));
        assert(skipped(first) + skipped(second) =~= skipped(first));
    } else {
        assert((first + second).drop_last() =~= first + second.drop_last());
        assert((first + second).last() == second.last());
        lemma_load_splits(first, second.drop_last());
        assert(loaded(first + second) =~= loaded(first) + loaded(second));
        assert(skipped(first + second) =~= skipped(first) + skipped(second));
    }
}

/// Where no file fails, nothing is passed over and every definition loads.
pub proof fn lemma_all_loaded(outcomes: Seq<OutcomeView>)
    requires
        forall|j: int| 0 <= j < outcomes.len() ==> (#[trigger] outcomes[j]) is Loaded,
    ensures
        skipped(outcomes) == Seq::<SkipView>::empty(),
        loaded(outcomes) == definitions_of(outcomes),
    decreases outcomes.len(),
{
    if outcomes.len() > 0 {
        lemma_all_loaded(outcomes.drop_last());
        assert(loaded(outcomes) =~= definitions_of(outcomes));
    } else {
        assert(loaded(outcomes) =~= definitions_of(outcomes));
    }
}

/// If exactly one file of a scan fails, the load passes over that file and
/// no other, and yields the definitions of all the others in scan order.
pub proof fn lemma_one_failure_one_skip(outcomes: Seq<OutcomeView>, k: int)
    requires
        0 <= k < outcomes.len(),
        outcomes[k] is Failed,
        forall|j: int| 0 <= j < outcomes.len() && j != k ==> (#[trigger] outcomes[j]) is Loaded,
    ensures
        skipped(outcomes) == seq![skip_of(outcomes[k])],
        loaded(outcomes) == definitions_of(outcomes.remove(k)),
{
    let before = outcomes.take(k);
    let failed = seq![outcomes[k]];
    let after = outcomes.skip(k + 1);
    assert(outcomes =~= before + failed + after);
    lemma_load_splits(before + failed, after);
    lemma_load_splits(before, failed);
    lemma_all_loaded(before);
    lemma_all_loaded(after);
    assert(failed.drop_last() =~= Seq::<OutcomeView>::empty());
    assert(failed.last() == outcomes[k]);
    assert(loaded(failed.drop_last()) =~= Seq::<TimerFileView>::empty());
    assert(skipped(failed.drop_last()) =~= Seq::<SkipView>::empty());
    assert(loaded(failed) =~= Seq::<TimerFileView>::empty());
    assert(skipped(failed) =~= seq![skip_of(outcomes[k])]);
    assert(skipped(outcomes) =~= seq![skip_of(outcomes[k])]);
    assert(loaded(outcomes) =~= definitions_of(outcomes.remove(k)));
}

/// The ids that an index lists under `key`, in the order in which they
/// were listed; none where the index has no bucket for `key`.
pub open spec fn bucket<K>(index: Map<K, Seq<Seq<char>>>, key: K) -> Seq<Seq<char>> {
    if index.contains_key(key) {
        index[key]
    } else {
        Seq::empty()
    }
}

/// The ids of the definitions among `timers` that are bound to the context
/// `map_id`, in load order. An id stands once for each such definition.
pub open spec fn ids_bound_to(timers: Seq<TimerFileView>, map_id: u32) -> Seq<Seq<char>>
    decreases timers.len(),
{
    if timers.len() == 0 {
        Seq::empty()
    } else {
        let before = ids_bound_to(timers.drop_last(), map_id);
        if timers.last().map_id == map_id {
            before.push(timers.last().id)
        } else {
            before
        }
    }
}

/// The ids of the definitions among `timers` that belong to `category`, in
/// load order. An id stands once for each such definition.
pub open spec fn ids_in_category(timers: Seq<TimerFileView>, category: Seq<char>) -> Seq<
    Seq<char>,
>
    decreases timers.len(),
{
    if timers.len() == 0 {
        Seq::empty()
    } else {
        let before = ids_in_category(timers.drop_last(), category);
        if timers.last().category == category {
            before.push(timers.last().id)
        } else {
            before
        }
    }
}

/// The context index after `timers` were added to `index`: each id is
/// appended to the bucket of its context, and a bucket exists for every
/// context that had one or that a definition is bound to.
pub open spec fn context_index_with(
    index: Map<u32, Seq<Seq<char>>>,
    timers: Seq<TimerFileView>,
) -> Map<u32, Seq<Seq<char>>> {
    Map::new(
        |map_id: u32| index.contains_key(map_id) || ids_bound_to(timers, map_id).len() > 0,
        |map_id: u32| bucket(index, map_id) + ids_bound_to(timers, map_id),
    )
}

/// The category index after `timers` were added to `index`: each id is
/// appended to the bucket of its category, and a bucket exists for every
/// category that had one or that a definition belongs to.
pub open spec fn category_index_with(
    index: Map<Seq<char>, Seq<Seq<char>>>,
    timers: Seq<TimerFileView>,
) -> Map<Seq<char>, Seq<Seq<char>>> {
    Map::new(
        |category: Seq<char>|
            index.contains_key(category) || ids_in_category(timers, category).len() > 0,
        |category: Seq<char>| bucket(index, category) + ids_in_category(timers, category),
    )
}

/// The primary mapping after `timers` were stored in `store`, in load
/// order: a definition replaces an earlier one of the same id.
pub open spec fn with_definitions(
    store: Map<Seq<char>, TimerFileView>,
    timers: Seq<TimerFileView>,
) -> Map<Seq<char>, TimerFileView>
    decreases timers.len(),
{
    if timers.len() == 0 {
        store
    } else {
        with_definitions(store, timers.drop_last()).insert(timers.last().id, timers.last())
    }
}

/// The mathematical view of a context index.
pub open spec fn context_index_view(index: Map<u32, Vec<String>>) -> Map<u32, Seq<Seq<char>>> {
    Map::new(|map_id: u32| index.contains_key(map_id), |map_id: u32| texts_view(index[map_id]@))
}

/// The mathematical view of a category index.
pub open spec fn category_index_view(index: Map<Seq<char>, Vec<String>>) -> Map<
    Seq<char>,
    Seq<Seq<char>>,
> {
    Map::new(
        |category: Seq<char>| index.contains_key(category),
        |category: Seq<char>| texts_view(index[category]@),
    )
}

/// The mathematical view of the primary mapping.
pub open spec fn store_view(store: Map<Seq<char>, TimerFile>) -> Map<Seq<char>, TimerFileView> {
    Map::new(|id: Seq<char>| store.contains_key(id), |id: Seq<char>| store[id]@)
}

/// An index with `id` appended to the bucket of `key`.
pub open spec fn appended<K>(index: Map<K, Seq<Seq<char>>>, key: K, id: Seq<char>) -> Map<
    K,
    Seq<Seq<char>>,
> {
    index.insert(key, bucket(index, key).push(id))
}

proof fn lemma_context_index_step(
    index: Map<u32, Seq<Seq<char>>>,
    timers: Seq<TimerFileView>,
    next: TimerFileView,
)
    ensures
        context_index_with(index, timers.push(next)) == appended(
            context_index_with(index, timers),
            next.map_id,
            next.id,
        ),
{
    let longer = timers.push(next);
    assert(longer.drop_last() =~= timers);
    let left = context_index_with(index, longer);
    let right = appended(context_index_with(index, timers), next.map_id, next.id);
    assert forall|map_id: u32| left.contains_key(map_id) == right.contains_key(map_id) by {}
    assert forall|map_id: u32| left.contains_key(map_id) implies left[map_id] == right[map_id] by {
        assert(left[map_id] =~= right[map_id]);
    }
    assert(left =~= right);
}

proof fn lemma_category_index_step(
    index: Map<Seq<char>, Seq<Seq<char>>>,
    timers: Seq<TimerFileView>,
    next: TimerFileView,
)
    ensures
        category_index_with(index, timers.push(next)) == appended(
            category_index_with(index, timers),
            next.category,
            next.id,
        ),
{
    let longer = timers.push(next);
    assert(longer.drop_last() =~= timers);
    let left = category_index_with(index, longer);
    let right = appended(category_index_with(index, timers), next.category, next.id);
    assert forall|category: Seq<char>|
        left.contains_key(category) == right.contains_key(category) by {}
    assert forall|category: Seq<char>| left.contains_key(category) implies left[category]
        == right[category] by {
        assert(left[category] =~= right[category]);
    }
    assert(left =~= right);
}

/// The bucket that follows `existing` once `id` is listed in it.
fn with_id_appended(existing: Option<&Vec<String>>, id: &String) -> (ids: Vec<String>)
    ensures
        texts_view(ids@) == (match existing {
            Some(listed) => texts_view(listed@),
            None => Seq::empty(),
        }).push(id@),
{
    let mut ids: Vec<String> = match existing {
        Some(listed) => {
            let copied: Vec<String> = listed.clone();
            assert(texts_view(copied@) =~= texts_view(listed@));
            copied
        },
        None => Vec::new(),
    };
    let ghost listed_before = texts_view(ids@);
    ids.push(id.clone());
    assert(texts_view(ids@) =~= listed_before.push(id@));
    ids
}

/// Lists one id under one context.
fn list_under_context(index: &mut HashMap<u32, Vec<String>>, map_id: u32, id: &String)
    ensures
        context_index_view(final(index)@) == appended(
            context_index_view(old(index)@),
            map_id,
            id@,
        ),
{
    broadcast use vstd::std_specs::hash::group_hash_axioms;

    let ids: Vec<String> = with_id_appended(index.get(&map_id), id);
    index.insert(map_id, ids);
    assert(context_index_view(index@) =~= appended(
        context_index_view(old(index)@),
        map_id,
        id@,
    ));
}

/// Lists one id under one category.
fn list_under_category(index: &mut StringHashMap<Vec<String>>, category: &String, id: &String)
    ensures
        category_index_view(final(index)@) == appended(
            category_index_view(old(index)@),
            category@,
            id@,
        ),
{
    let ids: Vec<String> = with_id_appended(index.get(category.as_str()), id);
    index.insert(category.clone(), ids);
    assert(category_index_view(index@) =~= appended(
        category_index_view(old(index)@),
        category@,
        id@,
    ));
}

/// Adds the definitions to both indices, in load order.
///
/// Each id is appended to the bucket of its context and to the bucket of its
/// category; a bucket is made when its first id arrives.
pub fn extend_indices(
    context_to_ids: &mut HashMap<u32, Vec<String>>,
    category_to_ids: &mut StringHashMap<Vec<String>>,
    definitions: &Vec<TimerFile>,
)
    ensures
        context_index_view(final(context_to_ids)@) == context_index_with(
            context_index_view(old(context_to_ids)@),
            timers_view(definitions@),
        ),
        category_index_view(final(category_to_ids)@) == category_index_with(
            category_index_view(old(category_to_ids)@),
            timers_view(definitions@),
        ),
{
    let ghost contexts_before = context_index_view(context_to_ids@);
    let ghost categories_before = category_index_view(category_to_ids@);
    let ghost all = timers_view(definitions@);
    proof {
        assert(context_index_with(contexts_before, all.take(0)) =~= contexts_before) by {
            assert forall|map_id: u32| contexts_before.contains_key(map_id) implies bucket(
                contexts_before,
                map_id,
            ) + ids_bound_to(all.take(0), map_id) == #[trigger] contexts_before[map_id] by {
                assert(bucket(contexts_before, map_id) + ids_bound_to(all.take(0), map_id)
                    =~= contexts_before[map_id]);
            }
        }
        assert(category_index_with(categories_before, all.take(0)) =~= categories_before) by {
            assert forall|category: Seq<char>|
                categories_before.contains_key(category) implies bucket(
                categories_before,
                category,
            ) + ids_in_category(all.take(0), category)
                == #[trigger] categories_before[category] by {
                assert(bucket(categories_before, category) + ids_in_category(
                    all.take(0),
                    category,
                ) =~= categories_before[category]);
            }
        }
    }
    let mut i: usize = 0;
    while i < definitions.len()
        invariant
            i <= definitions.len(),
            all == timers_view(definitions@),
            context_index_view(context_to_ids@) == context_index_with(
                contexts_before,
                all.take(i as int),
            ),
            category_index_view(category_to_ids@) == category_index_with(
                categories_before,
                all.take(i as int),
            ),
        decreases definitions.len() - i,
    {
        let timer: &TimerFile = &definitions[i];
        proof {
            assert(all.take(i + 1) =~= all.take(i as int).push(timer@));
            lemma_context_index_step(contexts_before, all.take(i as int), timer@);
            lemma_category_index_step(categories_before, all.take(i as int), timer@);
        }
        list_under_context(context_to_ids, timer.map_id, &timer.id);
        list_under_category(category_to_ids, &timer.category, &timer.id);
        i = i + 1;
    }
    proof {
        assert(all.take(definitions.len() as int) =~= all);
    }
}

/// Builds the context index and the category index of `definitions`.
pub fn build_indices(definitions: &Vec<TimerFile>) -> (indices: (
    HashMap<u32, Vec<String>>,
    StringHashMap<Vec<String>>,
))
    ensures
        context_index_view(indices.0@) == context_index_with(
            Map::empty(),
            timers_view(definitions@),
        ),
        category_index_view(indices.1@) == category_index_with(
            Map::empty(),
            timers_view(definitions@),
        ),
{
    broadcast use vstd::std_specs::hash::group_hash_axioms;

    let mut context_to_ids: HashMap<u32, Vec<String>> = HashMap::new();
    let mut category_to_ids: StringHashMap<Vec<String>> = StringHashMap::new();
    assert(context_index_view(context_to_ids@) =~= Map::empty());
    assert(category_index_view(category_to_ids@) =~= Map::empty());
    extend_indices(&mut context_to_ids, &mut category_to_ids, definitions);
    (context_to_ids, category_to_ids)
}

/// Stores the definitions in the primary mapping, each under its id, in
/// load order: a definition replaces an earlier one of the same id.
pub fn store_definitions(store: &mut StringHashMap<TimerFile>, definitions: &Vec<TimerFile>)
    ensures
        store_view(final(store)@) == with_definitions(
            store_view(old(store)@),
            timers_view(definitions@),
        ),
{
    let ghost store_before = store_view(store@);
    let ghost all = timers_view(definitions@);
    let mut i: usize = 0;
    while i < definitions.len()
        invariant
            i <= definitions.len(),
            all == timers_view(definitions@),
            store_view(store@) == with_definitions(store_before, all.take(i as int)),
        decreases definitions.len() - i,
    {
        let timer: &TimerFile = &definitions[i];
        let ghost stored_before = store@;
        proof {
            assert(all.take(i + 1).drop_last() =~= all.take(i as int));
            assert(all.take(i + 1).last() == timer@);
        }
        store.insert(timer.id.clone(), timer.clone());
        assert(store_view(store@) =~= store_view(stored_before).insert(timer@.id, timer@));
        i = i + 1;
    }
    proof {
        assert(all.take(definitions.len() as int) =~= all);
    }
}

/// How often `id` stands in `ids`.
pub open spec fn occurrences(ids: Seq<Seq<char>>, id: Seq<char>) -> nat
    decreases ids.len(),
{
    if ids.len() == 0 {
        0
    } else {
        occurrences(ids.drop_last(), id) + if ids.last() == id {
            1nat
        } else {
            0nat
        }
    }
}

/// `id` stands among the ids bound to `map_id` exactly if some definition
/// has that id and that context.
pub proof fn lemma_bound_ids(timers: Seq<TimerFileView>, map_id: u32, id: Seq<char>)
    ensures
        ids_bound_to(timers, map_id).contains(id) <==> exists|j: int|
            0 <= j < timers.len() && (#[trigger] timers[j]).id == id && timers[j].map_id
                == map_id,
    decreases timers.len(),
{
    if timers.len() > 0 {
        let before = timers.drop_last();
        let last = timers.last();
        let ids_before = ids_bound_to(before, map_id);
        let ids = ids_bound_to(timers, map_id);
        lemma_bound_ids(before, map_id, id);
        if ids.contains(id) {
            let k = choose|k: int| 0 <= k < ids.len() && ids[k] == id;
            if last.map_id == map_id && k == ids.len() - 1 {
                assert(timers[timers.len() - 1].id == id);
            } else {
                assert(ids_before[k] == id);
                let j = choose|j: int|
                    0 <= j < before.len() && (#[trigger] before[j]).id == id && before[j].map_id
                        == map_id;
                assert(timers[j] == before[j]);
            }
        }
        if exists|j: int|
            0 <= j < timers.len() && (#[trigger] timers[j]).id == id && timers[j].map_id
                == map_id {
            let j = choose|j: int|
                0 <= j < timers.len() && (#[trigger] timers[j]).id == id && timers[j].map_id
                    == map_id;
            if j == timers.len() - 1 {
                assert(ids[ids.len() - 1] == id);
            } else {
                assert(before[j] == timers[j]);
                let k = choose|k: int| 0 <= k < ids_before.len() && ids_before[k] == id;
                assert(ids[k] == id);
            }
        }
    }
}

/// Where no definition has both the id and the context, the id does not
/// stand among the ids bound to the context.
proof fn lemma_unbound_id_unlisted(timers: Seq<TimerFileView>, map_id: u32, id: Seq<char>)
    requires
        forall|j: int|
            0 <= j < timers.len() ==> !((#[trigger] timers[j]).id == id && timers[j].map_id
                == map_id),
    ensures
        occurrences(ids_bound_to(timers, map_id), id) == 0,
    decreases timers.len(),
{
    if timers.len() > 0 {
        let before = timers.drop_last();
        assert forall|j: int| 0 <= j < before.len() implies !((#[trigger] before[j]).id == id
            && before[j].map_id == map_id) by {
            assert(before[j] == timers[j]);
        }
        lemma_unbound_id_unlisted(before, map_id, id);
        assert(!(timers[timers.len() - 1].id == id && timers[timers.len() - 1].map_id == map_id));
        if timers.last().map_id == map_id {
            assert(ids_bound_to(timers, map_id).drop_last() =~= ids_bound_to(before, map_id));
        }
    }
}

/// Where no definition has both the id and the category, the id does not
/// stand among the ids of the category.
proof fn lemma_uncategorised_id_unlisted(
    timers: Seq<TimerFileView>,
    category: Seq<char>,
    id: Seq<char>,
)
    requires
        forall|j: int|
            0 <= j < timers.len() ==> !((#[trigger] timers[j]).id == id && timers[j].category
                == category),
    ensures
        occurrences(ids_in_category(timers, category), id) == 0,
    decreases timers.len(),
{
    if timers.len() > 0 {
        let before = timers.drop_last();
        assert forall|j: int| 0 <= j < before.len() implies !((#[trigger] before[j]).id == id
            && before[j].category == category) by {
            assert(before[j] == timers[j]);
        }
        lemma_uncategorised_id_unlisted(before, category, id);
        assert(!(timers[timers.len() - 1].id == id && timers[timers.len() - 1].category
            == category));
        if timers.last().category == category {
            assert(ids_in_category(timers, category).drop_last() =~= ids_in_category(
                before,
                category,
            ));
        }
    }
}

proof fn lemma_bound_once(timers: Seq<TimerFileView>, i: int)
    requires
        0 <= i < timers.len(),
        forall|j: int|
            0 <= j < timers.len() && j != i ==> !((#[trigger] timers[j]).id == timers[i].id
                && timers[j].map_id == timers[i].map_id),
    ensures
        occurrences(ids_bound_to(timers, timers[i].map_id), timers[i].id) == 1,
    decreases timers.len(),
{
    let id = timers[i].id;
    let map_id = timers[i].map_id;
    let before = timers.drop_last();
    let last = timers.len() - 1;
    if i == last {
        assert forall|j: int| 0 <= j < before.len() implies !((#[trigger] before[j]).id == id
            && before[j].map_id == map_id) by {
            assert(before[j] == timers[j]);
        }
        lemma_unbound_id_unlisted(before, map_id, id);
        assert(ids_bound_to(timers, map_id).drop_last() =~= ids_bound_to(before, map_id));
    } else {
        assert(before[i] == timers[i]);
        assert forall|j: int| 0 <= j < before.len() && j != i implies !((
        #[trigger] before[j]).id == before[i].id && before[j].map_id == before[i].map_id) by {
            assert(before[j] == timers[j]);
        }
        lemma_bound_once(before, i);
        assert(!(timers[last].id == id && timers[last].map_id == map_id));
        if timers.last().map_id == map_id {
            assert(ids_bound_to(timers, map_id).drop_last() =~= ids_bound_to(before, map_id));
        }
    }
}

proof fn lemma_categorised_once(timers: Seq<TimerFileView>, i: int)
    requires
        0 <= i < timers.len(),
        forall|j: int|
            0 <= j < timers.len() && j != i ==> !((#[trigger] timers[j]).id == timers[i].id
                && timers[j].category == timers[i].category),
    ensures
        occurrences(ids_in_category(timers, timers[i].category), timers[i].id) == 1,
    decreases timers.len(),
{
    let id = timers[i].id;
    let category = timers[i].category;
    let before = timers.drop_last();
    let last = timers.len() - 1;
    if i == last {
        assert forall|j: int| 0 <= j < before.len() implies !((#[trigger] before[j]).id == id
            && before[j].category == category) by {
            assert(before[j] == timers[j]);
        }
        lemma_uncategorised_id_unlisted(before, category, id);
        assert(ids_in_category(timers, category).drop_last() =~= ids_in_category(
            before,
            category,
        ));
    } else {
        assert(before[i] == timers[i]);
        assert forall|j: int| 0 <= j < before.len() && j != i implies !((
        #[trigger] before[j]).id == before[i].id && before[j].category
            == before[i].category) by {
            assert(before[j] == timers[j]);
        }
        lemma_categorised_once(before, i);
        assert(!(timers[last].id == id && timers[last].category == category));
        if timers.last().category == category {
            assert(ids_in_category(timers, category).drop_last() =~= ids_in_category(
                before,
                category,
            ));
        }
    }
}

/// The indices built from `timers` list the id of a definition exactly once
/// in the bucket of its context, unless another definition has the same id
/// and the same context.
pub proof fn lemma_context_bucket_lists_once(timers: Seq<TimerFileView>, i: int)
    requires
        0 <= i < timers.len(),
        forall|j: int|
            0 <= j < timers.len() && j != i ==> !((#[trigger] timers[j]).id == timers[i].id
                && timers[j].map_id == timers[i].map_id),
    ensures
        occurrences(
            bucket(context_index_with(Map::empty(), timers), timers[i].map_id),
            timers[i].id,
        ) == 1,
{
    lemma_bound_once(timers, i);
    let listed = bucket(context_index_with(Map::empty(), timers), timers[i].map_id);
    assert(listed =~= ids_bound_to(timers, timers[i].map_id));
}

/// The indices built from `timers` list the id of a definition exactly once
/// in the bucket of its category, unless another definition has the same id
/// and the same category.
pub proof fn lemma_category_bucket_lists_once(timers: Seq<TimerFileView>, i: int)
    requires
        0 <= i < timers.len(),
        forall|j: int|
            0 <= j < timers.len() && j != i ==> !((#[trigger] timers[j]).id == timers[i].id
                && timers[j].category == timers[i].category),
    ensures
        occurrences(
            bucket(category_index_with(Map::empty(), timers), timers[i].category),
            timers[i].id,
        ) == 1,
{
    lemma_categorised_once(timers, i);
    let listed = bucket(category_index_with(Map::empty(), timers), timers[i].category);
    assert(listed =~= ids_in_category(timers, timers[i].category));
}

/// An id is stored exactly if it was stored before or a definition has it.
pub proof fn lemma_stored_ids(
    store: Map<Seq<char>, TimerFileView>,
    timers: Seq<TimerFileView>,
    id: Seq<char>,
)
    ensures
        with_definitions(store, timers).contains_key(id) <==> store.contains_key(id) || exists|
            j: int,
        | 0 <= j < timers.len() && (#[trigger] timers[j]).id == id,
    decreases timers.len(),
{
    if timers.len() > 0 {
        let before = timers.drop_last();
        lemma_stored_ids(store, before, id);
        if exists|j: int| 0 <= j < before.len() && (#[trigger] before[j]).id == id {
            let j = choose|j: int| 0 <= j < before.len() && (#[trigger] before[j]).id == id;
            assert(timers[j] == before[j]);
        }
        if exists|j: int| 0 <= j < timers.len() && (#[trigger] timers[j]).id == id {
            let j = choose|j: int| 0 <= j < timers.len() && (#[trigger] timers[j]).id == id;
            if j < timers.len() - 1 {
                assert(before[j] == timers[j]);
            }
        }
    }
}

/// Under an id the store holds the last definition that has it.
pub proof fn lemma_last_definition_stored(
    store: Map<Seq<char>, TimerFileView>,
    timers: Seq<TimerFileView>,
    i: int,
)
    requires
        0 <= i < timers.len(),
        forall|j: int| i < j < timers.len() ==> (#[trigger] timers[j]).id != timers[i].id,
    ensures
        with_definitions(store, timers).contains_key(timers[i].id),
        with_definitions(store, timers)[timers[i].id] == timers[i],
    decreases timers.len(),
{
    if i < timers.len() - 1 {
        let before = timers.drop_last();
        assert(before[i] == timers[i]);
        assert forall|j: int| i < j < before.len() implies (#[trigger] before[j]).id
            != before[i].id by {
            assert(before[j] == timers[j]);
        }
        lemma_last_definition_stored(store, before, i);
        assert(timers[timers.len() - 1].id != timers[i].id);
    }
}

/// What the store holds under an id was held before or is one of the
/// definitions that have the id.
pub proof fn lemma_stored_value(
    store: Map<Seq<char>, TimerFileView>,
    timers: Seq<TimerFileView>,
    id: Seq<char>,
)
    requires
        with_definitions(store, timers).contains_key(id),
    ensures
        (store.contains_key(id) && with_definitions(store, timers)[id] == store[id]) || exists|
            j: int,
        |
            0 <= j < timers.len() && with_definitions(store, timers)[id] == #[trigger] timers[j]
                && timers[j].id == id,
    decreases timers.len(),
{
    if timers.len() > 0 {
        let before = timers.drop_last();
        if timers.last().id == id {
            assert(with_definitions(store, timers)[id] == timers[timers.len() - 1]);
        } else {
            lemma_stored_value(store, before, id);
            if !(store.contains_key(id) && with_definitions(store, before)[id] == store[id]) {
                let j = choose|j: int|
                    0 <= j < before.len() && with_definitions(store, before)[id]
                        == #[trigger] before[j] && before[j].id == id;
                assert(timers[j] == before[j]);
            }
        }
    }
}

} // verus!
