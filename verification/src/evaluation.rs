//! The end-to-end evaluation of one submission.
//!
//! An evaluation checks the submission's shape, wins single-flight
//! admission, consumes the judge's message stream, persists the terminal
//! result, and emits a status timeline: `Started`, the per-line events,
//! and a terminal `Done` or `Error`.  The judge process itself is spawned
//! outside the library; the orchestrator receives its collected standard
//! output, one line per entry, or the fact that it could not be spawned.
//! The guard is released on every path that acquired it.

use crate::decode::decode_line;
use crate::decode::spec_decode_line;
use crate::events::Event;
use crate::events::EventModel;
use crate::events::SubmissionStatus as EventStatus;
use crate::events::SubmissionStatusModel as EventStatusModel;
use crate::guard::EvaluationGuard;
use crate::messages::IOIResult;
use crate::messages::IOIResultModel;
use crate::messages::IOISolutionResultsModel;
use crate::messages::IOISolutionTestCaseResultModel;
use crate::messages::SourceFileCompilationModel;
use crate::messages::SourceFileCompilationStatus;
use crate::messages::State;
use crate::messages::TaskMakerMessage;
use crate::messages::TaskMakerMessageModel;
use crate::store::NewTestcaseResult;
use crate::store::Participation;
use crate::store::Store;
use crate::store::StoreModel;
use crate::store::Subtask;
use crate::store::SubtaskResult;
use crate::store::SubmissionModel;
use crate::store::SubmissionStatus;
use crate::store::TestcaseResultModel;
use crate::store::spec_mark_internal_error;
use crate::store::spec_participation_by_id;
use crate::store::spec_set_compilation_failed;
use crate::store::spec_set_submission_result;
use crate::store::spec_subtask_by_num;
use vstd::prelude::*;

verus! {

/// Why an evaluation failed.
#[derive(PartialEq, Eq, Structural, Clone, Copy, Debug)]
pub enum EvaluationError {
    /// The submission does not hold exactly one file.
    WrongNumberOfFiles { number: usize },
    /// Another evaluation of the same submission is in flight.
    AlreadyEvaluating,
    /// The judge process could not be started.
    SpawnFailed,
    /// The terminal result carries no compilation record for the file.
    MissingCompilationRecord,
    /// The terminal result carries no testing record for the file.
    MissingTestingRecord,
    /// The judge scored a subtask number the task does not have.
    UnknownSubtask { num: i64 },
    /// A testcase result carries no execution, or its times do not fit.
    MissingTestcaseExecution,
    /// The store has no room for further result rows.
    IdSpaceExhausted,
    /// The terminal result is of the open-ended format, whose
    /// persistence is unsupported.
    UnsupportedFormat,
}

/// The text shown to subscribers for each failure.
pub open spec fn spec_error_message(e: EvaluationError) -> Seq<char> {
    match e {
        EvaluationError::WrongNumberOfFiles { .. } => "unsupported number of files"@,
        EvaluationError::AlreadyEvaluating => "submission is already being evaluated"@,
        EvaluationError::SpawnFailed => "could not start the judge"@,
        EvaluationError::MissingCompilationRecord => "no compilation record for the submitted file"@,
        EvaluationError::MissingTestingRecord => "no testing record for the submitted file"@,
        EvaluationError::UnknownSubtask { .. } => "judge scored an unknown subtask"@,
        EvaluationError::MissingTestcaseExecution => "testcase result without an execution"@,
        EvaluationError::IdSpaceExhausted => "no identifiers left for result rows"@,
        EvaluationError::UnsupportedFormat => "open-ended results are not supported"@,
    }
}

impl EvaluationError {
    /// The text shown to subscribers for this failure.
    pub fn message(&self) -> (r: String)
        ensures
            r@ == spec_error_message(*self),
    {
        match self {
            EvaluationError::WrongNumberOfFiles { .. } => String::from_str(
                "unsupported number of files",
            ),
            EvaluationError::AlreadyEvaluating => String::from_str(
                "submission is already being evaluated",
            ),
            EvaluationError::SpawnFailed => String::from_str("could not start the judge"),
            EvaluationError::MissingCompilationRecord => String::from_str(
                "no compilation record for the submitted file",
            ),
            EvaluationError::MissingTestingRecord => String::from_str(
                "no testing record for the submitted file",
            ),
            EvaluationError::UnknownSubtask { .. } => String::from_str(
                "judge scored an unknown subtask",
            ),
            EvaluationError::MissingTestcaseExecution => String::from_str(
                "testcase result without an execution",
            ),
            EvaluationError::IdSpaceExhausted => String::from_str(
                "no identifiers left for result rows",
            ),
            EvaluationError::UnsupportedFormat => String::from_str(
                "open-ended results are not supported",
            ),
        }
    }
}

/// The text shown for a line that could not be decoded.
pub open spec fn spec_decode_error_message() -> Seq<char> {
    "invalid judge message"@
}

/// What became of the judge process: it could not be spawned, or it ran
/// and printed these lines on its standard output.
#[derive(Debug)]
pub enum JudgeOutcome {
    SpawnFailed,
    Spawned(Vec<String>),
}

pub enum JudgeOutcomeModel {
    SpawnFailed,
    Spawned(Seq<Seq<char>>),
}

impl View for JudgeOutcome {
    type V = JudgeOutcomeModel;

    open spec fn view(&self) -> JudgeOutcomeModel {
        match self {
            JudgeOutcome::SpawnFailed => JudgeOutcomeModel::SpawnFailed,
            JudgeOutcome::Spawned(lines) => JudgeOutcomeModel::Spawned(
                lines@.map_values(|l: String| l@),
            ),
        }
    }
}

/// The value under the first entry with the given text key, if any.
pub open spec fn spec_assoc_str<V>(entries: Seq<(Seq<char>, V)>, key: Seq<char>) -> Option<V>
    decreases entries.len(),
{
    if entries.len() == 0 {
        None
    } else if entries[0].0 == key {
        Some(entries[0].1)
    } else {
        spec_assoc_str(entries.drop_first(), key)
    }
}

/// Each scored subtask number resolved to its relational subtask id,
/// keeping the judge's order; nothing if some number is unknown.
pub open spec fn spec_resolve_subtasks(
    subtasks: Seq<Subtask>,
    task_id: i64,
    scores: Seq<(i64, u64)>,
) -> Option<Seq<(i64, u64)>>
    decreases scores.len(),
{
    if scores.len() == 0 {
        Some(Seq::empty())
    } else {
        match spec_subtask_by_num(subtasks, task_id, scores[0].0) {
            Some(st) => match spec_resolve_subtasks(subtasks, task_id, scores.drop_first()) {
                Some(rest) => Some(seq![(st.id, scores[0].1)] + rest),
                None => None,
            },
            None => None,
        }
    }
}

/// The first scored subtask number the task does not have.
pub open spec fn spec_first_unknown(
    subtasks: Seq<Subtask>,
    task_id: i64,
    scores: Seq<(i64, u64)>,
) -> Option<i64>
    decreases scores.len(),
{
    if scores.len() == 0 {
        None
    } else if spec_subtask_by_num(subtasks, task_id, scores[0].0) is None {
        Some(scores[0].0)
    } else {
        spec_first_unknown(subtasks, task_id, scores.drop_first())
    }
}

/// The subtask-result rows that persisting resolved scores inserts,
/// with ids handed out in order from `base`.
pub open spec fn spec_subtask_rows(resolved: Seq<(i64, u64)>, sub_id: i64, base: int) -> Seq<
    SubtaskResult,
> {
    resolved.map(
        |k: int, p: (i64, u64)|
            SubtaskResult {
                id: (base + k) as i64,
                submission_id: sub_id,
                score: p.1,
                subtask_id: p.0,
            },
    )
}

/// The position in the resolved list of the entry for a subtask id.
pub open spec fn spec_resolved_index(resolved: Seq<(i64, u64)>, subtask_id: i64) -> Option<int>
    decreases resolved.len(),
{
    if resolved.len() == 0 {
        None
    } else if resolved[0].0 == subtask_id {
        Some(0)
    } else {
        match spec_resolved_index(resolved.drop_first(), subtask_id) {
            Some(i) => Some(i + 1),
            None => None,
        }
    }
}

/// The testcase rows of one subtask, ids not yet handed out.  There are
/// none where some testcase carries no execution or its summed time does
/// not fit.
pub open spec fn spec_proto_rows_for(
    cases: Seq<(i64, IOISolutionTestCaseResultModel)>,
    subtask_result_id: i64,
) -> Option<Seq<TestcaseResultModel>>
    decreases cases.len(),
{
    if cases.len() == 0 {
        Some(Seq::empty())
    } else {
        let (num, tc) = cases[0];
        if tc.result.len() == 0 || tc.result[0].resources.cpu_time + tc.result[0].resources.sys_time
            > u64::MAX {
            None
        } else {
            match spec_proto_rows_for(cases.drop_first(), subtask_result_id) {
                Some(rest) => Some(
                    seq![
                        TestcaseResultModel {
                            id: 0,
                            subtask_result_id,
                            running_time: (tc.result[0].resources.cpu_time
                                + tc.result[0].resources.sys_time) as u64,
                            memory_usage: tc.result[0].resources.memory,
                            message: tc.message,
                            score: tc.score,
                            num,
                        },
                    ] + rest,
                ),
                None => None,
            }
        }
    }
}

/// The testcase rows of the whole per-subtask map, ids not yet handed
/// out, each row pointing at the subtask-result row inserted for its
/// subtask.
pub open spec fn spec_proto_testcase_rows(
    tcmap: Seq<(i64, Seq<(i64, IOISolutionTestCaseResultModel)>)>,
    subtasks: Seq<Subtask>,
    task_id: i64,
    resolved: Seq<(i64, u64)>,
    base: int,
) -> Result<Seq<TestcaseResultModel>, EvaluationError>
    decreases tcmap.len(),
{
    if tcmap.len() == 0 {
        Ok(Seq::empty())
    } else {
        let (st_num, cases) = tcmap[0];
        match spec_subtask_by_num(subtasks, task_id, st_num) {
            None => Err(EvaluationError::UnknownSubtask { num: st_num }),
            Some(st) => match spec_resolved_index(resolved, st.id) {
                None => Err(EvaluationError::UnknownSubtask { num: st_num }),
                Some(idx) => match spec_proto_rows_for(cases, (base + idx) as i64) {
                    None => Err(EvaluationError::MissingTestcaseExecution),
                    Some(rows) => match spec_proto_testcase_rows(
                        tcmap.drop_first(),
                        subtasks,
                        task_id,
                        resolved,
                        base,
                    ) {
                        Ok(rest) => Ok(rows + rest),
                        Err(e) => Err(e),
                    },
                },
            },
        }
    }
}

/// Rows with their ids handed out in order from `base`.
pub open spec fn spec_assign_ids(rows: Seq<TestcaseResultModel>, base: int) -> Seq<
    TestcaseResultModel,
> {
    rows.map(|k: int, r: TestcaseResultModel| TestcaseResultModel { id: (base + k) as i64, ..r })
}


/// How many testcase rows a per-subtask map holds in all.
pub open spec fn spec_total_cases(
    tcmap: Seq<(i64, Seq<(i64, IOISolutionTestCaseResultModel)>)>,
) -> int
    decreases tcmap.len(),
{
    if tcmap.len() == 0 {
        0
    } else {
        tcmap[0].1.len() + spec_total_cases(tcmap.drop_first())
    }
}

/// What persisting one terminal result of the standard format does to
/// the store, and what it returns: the compilation record decides
/// between the failure short circuit and the full success transaction.
pub open spec fn spec_persist_ioi(store: StoreModel, sub: SubmissionModel, result: IOIResultModel) -> (
    StoreModel,
    Result<u64, EvaluationError>,
) {
    let file = sub.files[0];
    match spec_assoc_str(result.solutions, file) {
        None => (store, Err(EvaluationError::MissingCompilationRecord)),
        Some(comp) => match spec_assoc_str(result.testing, file) {
            None => (store, Err(EvaluationError::MissingTestingRecord)),
            Some(t) => if comp.status == SourceFileCompilationStatus::Failure {
                (spec_set_compilation_failed(store, sub.id, comp.stderr), Ok(0))
            } else {
                match spec_resolve_subtasks(store.subtasks, sub.task_id, t.subtask_scores) {
                    None => (
                        store,
                        Err(
                            EvaluationError::UnknownSubtask {
                                num: spec_first_unknown(
                                    store.subtasks,
                                    sub.task_id,
                                    t.subtask_scores,
                                ).unwrap(),
                            },
                        ),
                    ),
                    Some(resolved) => if store.next_id + resolved.len() + spec_total_cases(
                        t.testcase_results,
                    ) > i64::MAX {
                        (store, Err(EvaluationError::IdSpaceExhausted))
                    } else {
                        match spec_proto_testcase_rows(
                            t.testcase_results,
                            store.subtasks,
                            sub.task_id,
                            resolved,
                            store.next_id as int,
                        ) {
                            Err(e) => (store, Err(e)),
                            Ok(proto) => {
                                let base = store.next_id as int;
                                let updated = spec_set_submission_result(
                                    store,
                                    sub.id,
                                    t.score,
                                    comp.stderr,
                                );
                                (
                                    StoreModel {
                                        subtask_results: updated.subtask_results
                                            + spec_subtask_rows(resolved, sub.id, base),
                                        testcase_results: updated.testcase_results
                                            + spec_assign_ids(proto, base + resolved.len()),
                                        next_id: (base + resolved.len() + proto.len()) as i64,
                                        ..updated
                                    },
                                    Ok(t.score),
                                )
                            },
                        }
                    },
                }
            },
        },
    }
}

/// Find a file's compilation record in the terminal result.
fn find_solution<'a>(entries: &'a Vec<(String, crate::messages::SourceFileCompilation)>, key: &str) -> (r:
    Option<&'a crate::messages::SourceFileCompilation>)
    ensures
        match r {
            Some(c) => spec_assoc_str(
                entries@.map_values(
                    |p: (String, crate::messages::SourceFileCompilation)| (p.0@, p.1@),
                ),
                key@,
            ) == Some(c@),
            None => spec_assoc_str(
                entries@.map_values(
                    |p: (String, crate::messages::SourceFileCompilation)| (p.0@, p.1@),
                ),
                key@,
            ) is None,
        },
{
    let ghost model = entries@.map_values(
        |p: (String, crate::messages::SourceFileCompilation)| (p.0@, p.1@),
    );
    let mut i: usize = 0;
    proof {
        assert(model.skip(0) =~= model);
    }
    while i < entries.len()
        invariant
            i <= entries@.len(),
            model == entries@.map_values(
                |p: (String, crate::messages::SourceFileCompilation)| (p.0@, p.1@),
            ),
            model.len() == entries@.len(),
            spec_assoc_str(model, key@) == spec_assoc_str(model.skip(i as int), key@),
        decreases entries@.len() - i,
    {
        proof {
            assert(model.skip(i as int)[0] == model[i as int]);
            assert(model[i as int] == (entries@[i as int].0@, entries@[i as int].1@));
            assert(model.skip(i as int).drop_first() =~= model.skip(i + 1));
        }
        if crate::json::str_eq(entries[i].0.as_str(), key) {
            return Some(&entries[i].1);
        }
        i += 1;
    }
    proof {
        assert(model.skip(model.len() as int)
            =~= Seq::<(Seq<char>, SourceFileCompilationModel)>::empty());
    }
    None
}

/// Find a file's testing record in the terminal result.
fn find_testing<'a>(entries: &'a Vec<(String, crate::messages::IOISolutionResults)>, key: &str) -> (r:
    Option<&'a crate::messages::IOISolutionResults>)
    ensures
        match r {
            Some(t) => spec_assoc_str(
                entries@.map_values(
                    |p: (String, crate::messages::IOISolutionResults)| (p.0@, p.1@),
                ),
                key@,
            ) == Some(t@),
            None => spec_assoc_str(
                entries@.map_values(
                    |p: (String, crate::messages::IOISolutionResults)| (p.0@, p.1@),
                ),
                key@,
            ) is None,
        },
{
    let ghost model = entries@.map_values(
        |p: (String, crate::messages::IOISolutionResults)| (p.0@, p.1@),
    );
    let mut i: usize = 0;
    proof {
        assert(model.skip(0) =~= model);
    }
    while i < entries.len()
        invariant
            i <= entries@.len(),
            model == entries@.map_values(
                |p: (String, crate::messages::IOISolutionResults)| (p.0@, p.1@),
            ),
            model.len() == entries@.len(),
            spec_assoc_str(model, key@) == spec_assoc_str(model.skip(i as int), key@),
        decreases entries@.len() - i,
    {
        proof {
            assert(model.skip(i as int)[0] == model[i as int]);
            assert(model[i as int] == (entries@[i as int].0@, entries@[i as int].1@));
            assert(model.skip(i as int).drop_first() =~= model.skip(i + 1));
        }
        if crate::json::str_eq(entries[i].0.as_str(), key) {
            return Some(&entries[i].1);
        }
        i += 1;
    }
    proof {
        assert(model.skip(model.len() as int)
            =~= Seq::<(Seq<char>, IOISolutionResultsModel)>::empty());
    }
    None
}

/// The position in the resolved list of the entry for a subtask id.
fn resolved_index(resolved: &Vec<(i64, u64)>, subtask_id: i64) -> (r: Option<usize>)
    ensures
        match r {
            Some(k) => spec_resolved_index(resolved@, subtask_id) == Some(k as int) && k
                < resolved@.len(),
            None => spec_resolved_index(resolved@, subtask_id) is None,
        },
{
    let mut i: usize = 0;
    proof {
        assert(resolved@.skip(0) =~= resolved@);
    }
    while i < resolved.len()
        invariant
            i <= resolved@.len(),
            spec_resolved_index(resolved@, subtask_id) == (match spec_resolved_index(
                resolved@.skip(i as int),
                subtask_id,
            ) {
                Some(j) => Some(i + j),
                None => None,
            }),
        decreases resolved@.len() - i,
    {
        proof {
            assert(resolved@.skip(i as int)[0] == resolved@[i as int]);
            assert(resolved@.skip(i as int).drop_first() =~= resolved@.skip(i + 1));
        }
        if resolved[i].0 == subtask_id {
            return Some(i);
        }
        i += 1;
    }
    proof {
        assert(resolved@.skip(resolved@.len() as int) =~= Seq::<(i64, u64)>::empty());
    }
    None
}

/// Store the terminal result of the standard task format for one
/// submission: on a failed compilation, the submission alone is updated;
/// otherwise the submission, one subtask-result row per scored subtask,
/// and one testcase row per judged testcase are stored together, or
/// nothing is stored at all.
#[verifier::loop_isolation(false)]
#[verifier::rlimit(100)]
pub fn populate_ioi_submission_results(
    store: &mut Store,
    submission_id: i64,
    result: &IOIResult,
) -> (r: Result<u64, EvaluationError>)
    requires
        old(store)@.wf(),
        old(store)@.submission(submission_id) is Some,
        old(store)@.submission(submission_id).unwrap().files.len() == 1,
    ensures
        final(store)@.wf(),
        (final(store)@, r) === spec_persist_ioi(
            old(store)@,
            old(store)@.submission(submission_id).unwrap(),
            result@,
        ),
{
    let ghost pre = store@;
    let ghost sub = pre.submission(submission_id).unwrap();
    let (file, task_id) = {
        let s = store.get_submission(submission_id).unwrap();
        (s.files[0].clone(), s.task_id)
    };
    proof {
        assert(sub.files[0] == old(store)@.submission(submission_id).unwrap().files[0]);
        assert(file@ == sub.files[0]);
        assert(task_id == sub.task_id);
        assert(sub.id == submission_id);
    }
    // locate the records for the submitted file
    let comp = match find_solution(&result.solutions, file.as_str()) {
        Some(c) => c,
        None => {
            return Err(EvaluationError::MissingCompilationRecord);
        },
    };
    let testing = match find_testing(&result.testing, file.as_str()) {
        Some(t) => t,
        None => {
            return Err(EvaluationError::MissingTestingRecord);
        },
    };
    // a failed compilation short-circuits: update the submission alone
    if comp.status == SourceFileCompilationStatus::Failure {
        store.set_compilation_failed(submission_id, comp.stderr.clone());
        return Ok(0);
    }
    // resolve every scored subtask number to its relational id
    let ghost scores = testing@.subtask_scores;
    let mut resolved: Vec<(i64, u64)> = Vec::new();
    let mut i: usize = 0;
    proof {
        assert(scores.skip(0) =~= scores);
        assert(resolved@ + spec_resolve_subtasks(pre.subtasks, sub.task_id, scores).unwrap()
            =~= spec_resolve_subtasks(pre.subtasks, sub.task_id, scores).unwrap());
    }
    while i < testing.subtask_scores.len()
        invariant
            store@ == pre,
            i <= scores.len(),
            scores == testing.subtask_scores@,
            resolved@.len() == i,
            (match spec_resolve_subtasks(pre.subtasks, sub.task_id, scores.skip(i as int)) {
                Some(rest) => spec_resolve_subtasks(pre.subtasks, sub.task_id, scores) == Some(
                    resolved@ + rest,
                ),
                None => spec_resolve_subtasks(pre.subtasks, sub.task_id, scores) is None,
            }),
            spec_first_unknown(pre.subtasks, sub.task_id, scores) == spec_first_unknown(
                pre.subtasks,
                sub.task_id,
                scores.skip(i as int),
            ),
            sub.task_id == task_id,
        decreases scores.len() - i,
    {
        proof {
            assert(scores.skip(i as int)[0] == scores[i as int]);
            assert(scores.skip(i as int).drop_first() =~= scores.skip(i + 1));
        }
        let (num, sc) = testing.subtask_scores[i];
        match store.subtask_id_by_num(task_id, num) {
            Some(st_id) => {
                let ghost prev = resolved@;
                resolved.push((st_id, sc));
                proof {
                    let whole = spec_resolve_subtasks(pre.subtasks, sub.task_id, scores);
                    let rest0 = spec_resolve_subtasks(
                        pre.subtasks,
                        sub.task_id,
                        scores.skip(i as int),
                    );
                    if rest0 is Some {
                        let rest1 = spec_resolve_subtasks(
                            pre.subtasks,
                            sub.task_id,
                            scores.skip(i + 1),
                        );
                        assert(rest0.unwrap() == seq![
                            (spec_subtask_by_num(pre.subtasks, sub.task_id, scores[i as int].0).unwrap().id,
                            scores[i as int].1),
                        ] + rest1.unwrap());
                        assert(prev + rest0.unwrap() =~= resolved@ + rest1.unwrap());
                    }
                }
            },
            None => {
                proof {
                    assert(spec_first_unknown(pre.subtasks, sub.task_id, scores) == Some(num));
                }
                return Err(EvaluationError::UnknownSubtask { num });
            },
        }
        i += 1;
    }
    proof {
        assert(scores.skip(scores.len() as int) =~= Seq::<(i64, u64)>::empty());
        assert(resolved@ + Seq::<(i64, u64)>::empty() =~= resolved@);
        assert(spec_resolve_subtasks(pre.subtasks, sub.task_id, scores) == Some(resolved@));
    }
    // check there is room for every row this transaction inserts
    let ghost tcmapm = testing@.testcase_results;
    let mut total: u128 = 0;
    let mut j: usize = 0;
    proof {
        assert(tcmapm.skip(0) =~= tcmapm);
        lemma_total_cases_bound(tcmapm);
    }
    while j < testing.testcase_results.len()
        invariant
            store@ == pre,
            j <= tcmapm.len(),
            tcmapm == testing@.testcase_results,
            tcmapm.len() == testing.testcase_results@.len(),
            forall|k: int| 0 <= k < tcmapm.len() ==> (#[trigger] tcmapm[k]).1.len()
                == testing.testcase_results@[k].1@.len(),
            total + spec_total_cases(tcmapm.skip(j as int)) == spec_total_cases(tcmapm),
            total <= j * (usize::MAX as int),
        decreases tcmapm.len() - j,
    {
        let cl = testing.testcase_results[j].1.len();
        proof {
            assert(tcmapm.skip(j as int)[0] == tcmapm[j as int]);
            assert(tcmapm.skip(j as int).drop_first() =~= tcmapm.skip(j + 1));
            assert(cl == tcmapm[j as int].1.len());
            assert(total + cl <= (j + 1) * (usize::MAX as int)) by (nonlinear_arith)
                requires
                    total <= j * (usize::MAX as int),
                    cl <= usize::MAX,
                    0 <= j,
            ;
            assert((j + 1) * (usize::MAX as int) <= (usize::MAX as int) * (usize::MAX as int))
                by (nonlinear_arith)
                requires
                    0 <= j + 1 <= usize::MAX,
            ;
            assert((usize::MAX as int) * (usize::MAX as int) <= u128::MAX as int)
                by (nonlinear_arith);
        }
        total = total + cl as u128;
        j += 1;
    }
    proof {
        assert(tcmapm.skip(tcmapm.len() as int)
            =~= Seq::<(i64, Seq<(i64, IOISolutionTestCaseResultModel)>)>::empty());
        assert(total == spec_total_cases(tcmapm));
    }
    let base = store.next_id;
    proof {
        assert(base == pre.next_id);
        assert(base >= 1);
    }
    if total > i64::MAX as u128 || base as u128 + resolved.len() as u128 + total > i64::MAX
        as u128 {
        return Err(EvaluationError::IdSpaceExhausted);
    }
    // build every testcase row, pointing at the ids the subtask rows
    // will take
    let mut proto: Vec<NewTestcaseResult> = Vec::new();
    let mut j: usize = 0;
    proof {
        assert(proto_view(proto@) =~= Seq::<TestcaseResultModel>::empty());
        assert(proto_view(proto@) + spec_proto_testcase_rows(
            tcmapm,
            pre.subtasks,
            sub.task_id,
            resolved@,
            base as int,
        ).unwrap() =~= spec_proto_testcase_rows(
            tcmapm,
            pre.subtasks,
            sub.task_id,
            resolved@,
            base as int,
        ).unwrap());
    }
    while j < testing.testcase_results.len()
        invariant
            store@ == pre,
            j <= tcmapm.len(),
            tcmapm == testing@.testcase_results,
            tcmapm.len() == testing.testcase_results@.len(),
            forall|k: int| 0 <= k < tcmapm.len() ==> (#[trigger] tcmapm[k]).0
                == testing.testcase_results@[k].0,
            forall|k: int| 0 <= k < tcmapm.len() ==> (#[trigger] tcmapm[k]).1
                == testing.testcase_results@[k].1@.map_values(
                |q: (i64, crate::messages::IOISolutionTestCaseResult)| (q.0, q.1@),
            ),
            spec_resolve_subtasks(pre.subtasks, sub.task_id, scores) == Some(resolved@),
            base == pre.next_id,
            base + resolved@.len() <= i64::MAX,
            sub.task_id == task_id,
            forall|k: int| 0 <= k < proto@.len() ==> base <= (
            #[trigger] proto@[k]).subtask_result_id < base + resolved@.len(),
            (match spec_proto_testcase_rows(
                tcmapm.skip(j as int),
                pre.subtasks,
                sub.task_id,
                resolved@,
                base as int,
            ) {
                Ok(rest) => spec_proto_testcase_rows(
                    tcmapm,
                    pre.subtasks,
                    sub.task_id,
                    resolved@,
                    base as int,
                ) == Ok::<_, EvaluationError>(proto_view(proto@) + rest),
                Err(e) => spec_proto_testcase_rows(
                    tcmapm,
                    pre.subtasks,
                    sub.task_id,
                    resolved@,
                    base as int,
                ) == Err::<Seq<TestcaseResultModel>, _>(e),
            }),
        decreases tcmapm.len() - j,
    {
        proof {
            assert(tcmapm.skip(j as int)[0] == tcmapm[j as int]);
            assert(tcmapm.skip(j as int).drop_first() =~= tcmapm.skip(j + 1));
        }
        let st_num = testing.testcase_results[j].0;
        let st_id = match store.subtask_id_by_num(task_id, st_num) {
            Some(st_id) => st_id,
            None => {
                return Err(EvaluationError::UnknownSubtask { num: st_num });
            },
        };
        let idx = match resolved_index(&resolved, st_id) {
            Some(idx) => idx,
            None => {
                return Err(EvaluationError::UnknownSubtask { num: st_num });
            },
        };
        let srid: i64 = base + idx as i64;
        // the rows of this subtask, in testcase order
        let ghost cases = tcmapm[j as int].1;
        let cn = testing.testcase_results[j].1.len();
        let mut rows: Vec<NewTestcaseResult> = Vec::new();
        let mut k: usize = 0;
        proof {
            assert(cases.skip(0) =~= cases);
            assert(proto_view(rows@) =~= Seq::<TestcaseResultModel>::empty());
            assert(proto_view(rows@) + spec_proto_rows_for(cases, srid).unwrap()
                =~= spec_proto_rows_for(cases, srid).unwrap());
        }
        while k < cn
            invariant
                store@ == pre,
                j < tcmapm.len(),
                k <= cases.len(),
                cn == cases.len(),
                cn == testing.testcase_results@[j as int].1@.len(),
                cases == testing.testcase_results@[j as int].1@.map_values(
                    |q: (i64, crate::messages::IOISolutionTestCaseResult)| (q.0, q.1@),
                ),
                forall|w: int| 0 <= w < rows@.len() ==> (#[trigger] rows@[w]).subtask_result_id
                    == srid,
                (match spec_proto_rows_for(cases.skip(k as int), srid) {
                    Some(rest) => spec_proto_rows_for(cases, srid) == Some(
                        proto_view(rows@) + rest,
                    ),
                    None => spec_proto_rows_for(cases, srid) is None,
                }),
            decreases cn - k,
        {
            proof {
                assert(cases.skip(k as int)[0] == cases[k as int]);
                assert(cases.skip(k as int).drop_first() =~= cases.skip(k + 1));
                assert(cases[k as int].1 == testing.testcase_results@[j as int].1@[k as int].1@);
            }
            let (tc_num, tc) = &testing.testcase_results[j].1[k];
            match NewTestcaseResult::from_ioi_testcase_result(srid, *tc_num, tc) {
                Some(row) => {
                    let ghost prev = rows@;
                    rows.push(row);
                    proof {
                        let rest0 = spec_proto_rows_for(cases.skip(k as int), srid);
                        if rest0 is Some {
                            let rest1 = spec_proto_rows_for(cases.skip(k + 1), srid);
                            assert(proto_view(rows@) =~= proto_view(prev).push(
                                proto_view(rows@).last(),
                            ));
                            assert(proto_view(prev) + rest0.unwrap() =~= proto_view(rows@)
                                + rest1.unwrap());
                        }
                    }
                },
                None => {
                    return Err(EvaluationError::MissingTestcaseExecution);
                },
            }
            k += 1;
        }
        proof {
            assert(cases.skip(cases.len() as int)
                =~= Seq::<(i64, IOISolutionTestCaseResultModel)>::empty());
            assert(proto_view(rows@) + Seq::<TestcaseResultModel>::empty() =~= proto_view(rows@));
            assert(spec_proto_rows_for(cases, srid) == Some(proto_view(rows@)));
        }
        let ghost pproto = proto@;
        let ghost rowsm = rows@;
        let mut rows = rows;
        proto.append(&mut rows);
        proof {
            assert(proto@ == pproto + rowsm);
            assert forall|w: int| 0 <= w < proto@.len()
                implies base <= (#[trigger] proto@[w]).subtask_result_id < base
                    + resolved@.len() by {
                if w >= pproto.len() {
                    assert(proto@[w] == rowsm[w - pproto.len()]);
                }
            }
            assert(proto_view(proto@) =~= proto_view(pproto) + spec_proto_rows_for(
                cases,
                srid,
            ).unwrap());
            let rest0 = spec_proto_testcase_rows(
                tcmapm.skip(j as int),
                pre.subtasks,
                sub.task_id,
                resolved@,
                base as int,
            );
            if rest0 is Ok {
                let rest1 = spec_proto_testcase_rows(
                    tcmapm.skip(j + 1),
                    pre.subtasks,
                    sub.task_id,
                    resolved@,
                    base as int,
                );
                assert(proto_view(pproto) + rest0.unwrap() =~= proto_view(proto@)
                    + rest1.unwrap());
            }
        }
        j += 1;
    }
    proof {
        assert(tcmapm.skip(tcmapm.len() as int)
            =~= Seq::<(i64, Seq<(i64, IOISolutionTestCaseResultModel)>)>::empty());
        assert(proto_view(proto@) + Seq::<TestcaseResultModel>::empty() =~= proto_view(proto@));
        assert(spec_proto_testcase_rows(
            tcmapm,
            pre.subtasks,
            sub.task_id,
            resolved@,
            base as int,
        ) == Ok::<_, EvaluationError>(proto_view(proto@)));
        lemma_proto_len(tcmapm, pre.subtasks, sub.task_id, resolved@, base as int);
    }
    // the transaction: update the submission, then insert every row
    let score = testing.score;
    store.set_submission_result(submission_id, score, comp.stderr.clone());
    let ghost s1 = store@;
    let ghost srows = spec_subtask_rows(resolved@, sub.id, base as int);
    let mut k: usize = 0;
    proof {
        assert(s1.subtask_results + srows.take(0) =~= s1.subtask_results);
        assert(s1 == spec_set_submission_result(pre, sub.id, testing@.score, comp@.stderr));
        assert(s1.next_id == pre.next_id);
        assert(s1.subtasks == pre.subtasks);
    }
    while k < resolved.len()
        invariant
            k <= resolved@.len(),
            store@.wf(),
            base + resolved@.len() + proto_view(proto@).len() <= i64::MAX,
            srows == spec_subtask_rows(resolved@, sub.id, base as int),
            srows.len() == resolved@.len(),
            sub.id == submission_id,
            store@ == (StoreModel {
                subtask_results: s1.subtask_results + srows.take(k as int),
                next_id: (base + k) as i64,
                ..s1
            }),
        decreases resolved@.len() - k,
    {
        let (st_id, sc) = resolved[k];
        let newid = store.insert_subtask_result(
            crate::store::NewSubtaskResult { submission_id, score: sc, subtask_id: st_id },
        );
        proof {
            assert(newid == base + k);
            assert(srows[k as int] == SubtaskResult {
                id: (base + k) as i64,
                submission_id: sub.id,
                score: resolved@[k as int].1,
                subtask_id: resolved@[k as int].0,
            });
            assert(srows.take(k + 1) =~= srows.take(k as int).push(srows[k as int]));
            assert((s1.subtask_results + srows.take(k as int)).push(srows[k as int])
                =~= s1.subtask_results + srows.take(k + 1));
        }
        k += 1;
    }
    proof {
        assert(srows.take(srows.len() as int) =~= srows);
    }
    let ghost s2 = store@;
    let ghost trows = spec_assign_ids(proto_view(proto@), base + resolved@.len() as int);
    let mut k: usize = 0;
    proof {
        assert(s2.testcase_results == s1.testcase_results);
        assert(s2.testcase_results + trows.take(0) =~= s2.testcase_results);
        assert(trows.len() == proto_view(proto@).len());
    }
    while k < proto.len()
        invariant
            k <= proto@.len(),
            store@.wf(),
            proto_view(proto@).len() == proto@.len(),
            trows == spec_assign_ids(proto_view(proto@), base + resolved@.len() as int),
            trows.len() == proto@.len(),
            base + resolved@.len() + proto@.len() <= i64::MAX,
            srows == spec_subtask_rows(resolved@, sub.id, base as int),
            srows.len() == resolved@.len(),
            s2 == (StoreModel {
                subtask_results: s1.subtask_results + srows,
                next_id: (base + resolved@.len()) as i64,
                ..s1
            }),
            forall|w: int| 0 <= w < proto@.len() ==> base <= (
            #[trigger] proto@[w]).subtask_result_id < base + resolved@.len(),
            store@ == (StoreModel {
                testcase_results: s2.testcase_results + trows.take(k as int),
                next_id: (base + resolved@.len() + k) as i64,
                ..s2
            }),
        decreases proto@.len() - k,
    {
        let ghost scur = store@;
        let row = proto_take(&proto, k);
        proof {
            let srid = row.subtask_result_id;
            let w = s1.subtask_results.len() + (srid - base);
            assert(scur.subtask_results[w as int].id == srid) by {
                assert(scur.subtask_results == s1.subtask_results + srows);
                assert(srows[(srid - base) as int].id == srid);
            }
            crate::store::lemma_has_subtask_result_at(scur.subtask_results, w as int);
        }
        let ok = store.insert_testcase_result(row);
        proof {
            assert(ok);
            assert(trows[k as int] == TestcaseResultModel {
                id: (base + resolved@.len() + k) as i64,
                ..proto_view(proto@)[k as int]
            });
            assert(trows.take(k + 1) =~= trows.take(k as int).push(trows[k as int]));
            assert((s2.testcase_results + trows.take(k as int)).push(trows[k as int])
                =~= s2.testcase_results + trows.take(k + 1));
        }
        k += 1;
    }
    proof {
        assert(trows.take(trows.len() as int) =~= trows);
        let expected = spec_persist_ioi(pre, sub, result@).0;
        assert(store@.subtask_results =~= expected.subtask_results);
        assert(store@.testcase_results =~= expected.testcase_results);
        assert(store@ == expected);
    }
    Ok(score)
}

/// The model rows of planned testcase rows, ids not yet handed out.
pub open spec fn proto_view(v: Seq<NewTestcaseResult>) -> Seq<TestcaseResultModel> {
    v.map_values(
        |q: NewTestcaseResult|
            TestcaseResultModel {
                id: 0,
                subtask_result_id: q.subtask_result_id,
                running_time: q.running_time,
                memory_usage: q.memory_usage,
                message: q.message@,
                score: q.score,
                num: q.num,
            },
    )
}

/// A planned row count never exceeds one row per map entry per slot.
proof fn lemma_total_cases_bound(tcmap: Seq<(i64, Seq<(i64, IOISolutionTestCaseResultModel)>)>)
    ensures
        0 <= spec_total_cases(tcmap),
    decreases tcmap.len(),
{
    if tcmap.len() > 0 {
        lemma_total_cases_bound(tcmap.drop_first());
    }
}

/// Planned rows are one per judged testcase.
proof fn lemma_proto_len(
    tcmap: Seq<(i64, Seq<(i64, IOISolutionTestCaseResultModel)>)>,
    subtasks: Seq<Subtask>,
    task_id: i64,
    resolved: Seq<(i64, u64)>,
    base: int,
)
    requires
        spec_proto_testcase_rows(tcmap, subtasks, task_id, resolved, base) is Ok,
    ensures
        spec_proto_testcase_rows(tcmap, subtasks, task_id, resolved, base).unwrap().len()
            == spec_total_cases(tcmap),
    decreases tcmap.len(),
{
    if tcmap.len() > 0 {
        let (st_num, cases) = tcmap[0];
        let st = spec_subtask_by_num(subtasks, task_id, st_num).unwrap();
        let idx = spec_resolved_index(resolved, st.id).unwrap();
        lemma_proto_rows_for_len(cases, (base + idx) as i64);
        lemma_proto_len(tcmap.drop_first(), subtasks, task_id, resolved, base);
    }
}

/// One subtask's planned rows are one per judged testcase.
proof fn lemma_proto_rows_for_len(cases: Seq<(i64, IOISolutionTestCaseResultModel)>, srid: i64)
    requires
        spec_proto_rows_for(cases, srid) is Some,
    ensures
        spec_proto_rows_for(cases, srid).unwrap().len() == cases.len(),
    decreases cases.len(),
{
    if cases.len() > 0 {
        lemma_proto_rows_for_len(cases.drop_first(), srid);
    }
}

/// Hand out one planned row, by value.
fn proto_take(proto: &Vec<NewTestcaseResult>, k: usize) -> (r: NewTestcaseResult)
    requires
        k < proto@.len(),
    ensures
        proto_view(seq![r])[0] == proto_view(proto@)[k as int],
        r.subtask_result_id == proto@[k as int].subtask_result_id,
{
    let row = &proto[k];
    NewTestcaseResult {
        subtask_result_id: row.subtask_result_id,
        running_time: row.running_time,
        memory_usage: row.memory_usage,
        message: row.message.clone(),
        score: row.score,
        num: row.num,
    }
}


/// Record that the open-ended result format cannot be persisted: the
/// store is untouched and the typed failure is returned.
pub fn populate_terry_submission_results(store: &mut Store, submission_id: i64) -> (r: Result<
    u64,
    EvaluationError,
>)
    ensures
        final(store)@ == old(store)@,
        r === Err::<u64, EvaluationError>(EvaluationError::UnsupportedFormat),
{
    let _ = submission_id;
    Err(EvaluationError::UnsupportedFormat)
}

/// The status event closing a failed evaluation.
pub open spec fn spec_error_event(submission_id: i64, e: EvaluationError) -> EventModel {
    EventModel {
        submission_id,
        update_id: 0,
        status: EventStatusModel::Error { message: spec_error_message(e) },
    }
}

/// The status event closing a successful evaluation.
pub open spec fn spec_done_event(submission_id: i64, score: u64) -> EventModel {
    EventModel { submission_id, update_id: 0, status: EventStatusModel::Done { score } }
}

/// Everything one evaluation leaves behind: the store, the in-flight
/// set, the status timeline, and what the caller is told.
pub struct EvalOutcome {
    pub store: StoreModel,
    pub events: Seq<EventModel>,
    pub score: u64,
    pub err: Option<EvaluationError>,
}

/// What consuming the judge's output lines does, line by line: a
/// compilation message for the judged file is reported, a terminal
/// result is persisted (a persistence failure marks the submission as an
/// internal error and stops), an undecodable line is reported and
/// skipped, and any other recognized message is ignored.
pub open spec fn spec_process_lines(
    store: StoreModel,
    submission_id: i64,
    path: Seq<char>,
    lines: Seq<Seq<char>>,
    next_update: int,
    score: u64,
) -> EvalOutcome
    decreases lines.len(),
{
    if lines.len() == 0 {
        EvalOutcome { store, events: Seq::empty(), score, err: None }
    } else {
        let tail = lines.drop_first();
        match spec_decode_line(lines[0]) {
            TaskMakerMessageModel::Compilation(c) => {
                if c.data.path == path && (c.state == State::Skipped || c.state == State::Failure
                    || c.state == State::Success) {
                    let ev = EventModel {
                        submission_id,
                        update_id: next_update as i64,
                        status: EventStatusModel::Compiled {
                            compiler_stderr: Seq::empty(),
                            success: c.state == State::Success,
                        },
                    };
                    let rest = spec_process_lines(
                        store,
                        submission_id,
                        path,
                        tail,
                        next_update + 1,
                        score,
                    );
                    EvalOutcome { events: seq![ev] + rest.events, ..rest }
                } else {
                    spec_process_lines(store, submission_id, path, tail, next_update, score)
                }
            },
            TaskMakerMessageModel::IOIResult(r) => {
                let sub = store.submission(submission_id).unwrap();
                let persisted = spec_persist_ioi(store, sub, r);
                match persisted.1 {
                    Ok(sc) => spec_process_lines(
                        persisted.0,
                        submission_id,
                        path,
                        tail,
                        next_update,
                        sc,
                    ),
                    Err(e) => EvalOutcome {
                        store: spec_mark_internal_error(persisted.0, submission_id),
                        events: Seq::empty(),
                        score,
                        err: Some(e),
                    },
                }
            },
            TaskMakerMessageModel::TerryResult => EvalOutcome {
                store: spec_mark_internal_error(store, submission_id),
                events: Seq::empty(),
                score,
                err: Some(EvaluationError::UnsupportedFormat),
            },
            TaskMakerMessageModel::Malformed => {
                let ev = EventModel {
                    submission_id,
                    update_id: next_update as i64,
                    status: EventStatusModel::Error { message: spec_decode_error_message() },
                };
                let rest = spec_process_lines(
                    store,
                    submission_id,
                    path,
                    tail,
                    next_update + 1,
                    score,
                );
                EvalOutcome { events: seq![ev] + rest.events, ..rest }
            },
            _ => spec_process_lines(store, submission_id, path, tail, next_update, score),
        }
    }
}

/// What one whole evaluation does, from the shape check through the
/// terminal event.
pub open spec fn spec_evaluate(
    store: StoreModel,
    guard: Set<i64>,
    submission_id: i64,
    path: Seq<char>,
    outcome: JudgeOutcomeModel,
) -> EvalOutcome {
    let sub = store.submission(submission_id).unwrap();
    if sub.files.len() != 1 {
        let e = EvaluationError::WrongNumberOfFiles { number: sub.files.len() as usize };
        EvalOutcome {
            store: spec_mark_internal_error(store, submission_id),
            events: seq![spec_error_event(submission_id, e)],
            score: 0,
            err: Some(e),
        }
    } else if guard.contains(submission_id) {
        EvalOutcome {
            store,
            events: seq![spec_error_event(submission_id, EvaluationError::AlreadyEvaluating)],
            score: 0,
            err: Some(EvaluationError::AlreadyEvaluating),
        }
    } else {
        match outcome {
            JudgeOutcomeModel::SpawnFailed => EvalOutcome {
                store,
                events: seq![spec_error_event(submission_id, EvaluationError::SpawnFailed)],
                score: 0,
                err: Some(EvaluationError::SpawnFailed),
            },
            JudgeOutcomeModel::Spawned(lines) => {
                let started = EventModel {
                    submission_id,
                    update_id: 0,
                    status: EventStatusModel::Started,
                };
                let p = spec_process_lines(store, submission_id, path, lines, 1, 0);
                match p.err {
                    Some(e) => EvalOutcome {
                        store: p.store,
                        events: seq![started] + p.events + seq![
                            spec_error_event(submission_id, e),
                        ],
                        score: p.score,
                        err: Some(e),
                    },
                    None => EvalOutcome {
                        store: p.store,
                        events: seq![started] + p.events + seq![
                            spec_done_event(submission_id, p.score),
                        ],
                        score: p.score,
                        err: None,
                    },
                }
            },
        }
    }
}

/// Updating the submission row at its own index, keeping its id, moves
/// every lookup along.
proof fn lemma_submission_lookup_update(subs: Seq<SubmissionModel>, i: int, row: SubmissionModel)
    requires
        forall|a: int, b: int|
            0 <= a < b < subs.len() ==> (#[trigger] subs[a]).id != (#[trigger] subs[b]).id,
        0 <= i < subs.len(),
        row.id == subs[i].id,
    ensures
        forall|id: i64|
            crate::store::spec_submission_index(subs.update(i, row), id)
                == crate::store::spec_submission_index(subs, id),
{
    let upd = subs.update(i, row);
    assert forall|id: i64|
        crate::store::spec_submission_index(upd, id) == crate::store::spec_submission_index(
            subs,
            id,
        ) by {
        assert(upd.len() == subs.len());
        assert forall|w: int| 0 <= w < subs.len() implies (#[trigger] upd[w]).id
            == subs[w].id by {}
        if exists|w: int| 0 <= w < subs.len() && (#[trigger] subs[w]).id == id {
            let w = choose|w: int| 0 <= w < subs.len() && (#[trigger] subs[w]).id == id;
            assert(upd[w].id == id);
            let a = choose|a: int| 0 <= a < upd.len() && (#[trigger] upd[a]).id == id;
            let b = choose|b: int| 0 <= b < subs.len() && (#[trigger] subs[b]).id == id;
            assert(subs[a].id == id);
            assert(a == b) by {
                if a < b {
                    assert(subs[a].id != subs[b].id);
                } else if b < a {
                    assert(subs[b].id != subs[a].id);
                }
            }
        } else {
            assert forall|w: int| 0 <= w < upd.len() implies (#[trigger] upd[w]).id != id by {
                assert(subs[w].id != id);
            }
        }
    }
}

/// A persisted or marked store still holds the submission, under the
/// same id, files and task.
proof fn lemma_update_preserves_submission(pre: StoreModel, post: StoreModel, submission_id: i64)
    requires
        pre.wf(),
        pre.submission(submission_id) is Some,
        post.submissions == pre.submissions || (exists|i: int, row: SubmissionModel|
            0 <= i < pre.submissions.len() && pre.submissions[i].id == row.id && row.files
                == pre.submissions[i].files && row.task_id == pre.submissions[i].task_id
                && post.submissions == #[trigger] pre.submissions.update(i, row)),
    ensures
        post.submission(submission_id) is Some,
        post.submission(submission_id).unwrap().files == pre.submission(
            submission_id,
        ).unwrap().files,
        post.submission(submission_id).unwrap().task_id == pre.submission(
            submission_id,
        ).unwrap().task_id,
        post.submission(submission_id).unwrap().id == pre.submission(submission_id).unwrap().id,
{
    if post.submissions != pre.submissions {
        let (i, row) = choose|i: int, row: SubmissionModel|
            0 <= i < pre.submissions.len() && pre.submissions[i].id == row.id && row.files
                == pre.submissions[i].files && row.task_id == pre.submissions[i].task_id
                && post.submissions == #[trigger] pre.submissions.update(i, row);
        lemma_submission_lookup_update(pre.submissions, i, row);
    }
}

/// Evaluate one submission end to end: check its shape, win admission,
/// consume the judge's output, and emit the status timeline.  The guard
/// is left exactly as it was on every path, the store holds the outcome,
/// and the returned events are the full ordered timeline for the run.
#[verifier::loop_isolation(false)]
#[verifier::rlimit(100)]
pub fn evaluate_submission(
    store: &mut Store,
    guard: &mut EvaluationGuard,
    submission_id: i64,
    solution_path: &str,
    outcome: &JudgeOutcome,
) -> (r: (Result<u64, EvaluationError>, Vec<Event>))
    requires
        old(store)@.wf(),
        old(guard).wf(),
        old(store)@.submission(submission_id) is Some,
        (match old(store)@.submission(submission_id) {
            Some(sub) => sub.id == submission_id,
            None => true,
        }),
        (match outcome@ {
            JudgeOutcomeModel::Spawned(lines) => lines.len() <= 1000000000,
            JudgeOutcomeModel::SpawnFailed => true,
        }),
    ensures
        final(store)@.wf(),
        final(guard).wf(),
        final(guard)@ === old(guard)@,
        ({
            let o = spec_evaluate(old(store)@, old(guard)@, submission_id, solution_path@, outcome@);
            &&& final(store)@ == o.store
            &&& r.1@.map_values(|e: Event| e@) == o.events
            &&& (match o.err {
                Some(e) => r.0 === Err::<u64, EvaluationError>(e),
                None => r.0 === Ok::<u64, EvaluationError>(o.score),
            })
        }),
{
    let ghost pre = store@;
    let ghost g0 = guard@;
    let ghost o = spec_evaluate(pre, g0, submission_id, solution_path@, outcome@);
    let ghost sub = pre.submission(submission_id).unwrap();
    let mut events: Vec<Event> = Vec::new();
    // a submission must hold exactly one file
    let files_len = {
        let s = store.get_submission(submission_id).unwrap();
        s.files.len()
    };
    if files_len != 1 {
        crate::store::mark_internal_error(store, submission_id);
        let e = EvaluationError::WrongNumberOfFiles { number: files_len };
        events.push(Event {
            submission_id,
            update_id: 0,
            status: EventStatus::Error { message: e.message() },
        });
        proof {
            assert(events@.map_values(|ev: Event| ev@) =~= seq![
                spec_error_event(submission_id, e),
            ]);
        }
        return (Err(e), events);
    }
    // single-flight admission
    if !guard.acquire(submission_id) {
        let e = EvaluationError::AlreadyEvaluating;
        events.push(Event {
            submission_id,
            update_id: 0,
            status: EventStatus::Error { message: e.message() },
        });
        proof {
            assert(events@.map_values(|ev: Event| ev@) =~= seq![
                spec_error_event(submission_id, e),
            ]);
        }
        return (Err(e), events);
    }
    let lines = match outcome {
        JudgeOutcome::SpawnFailed => {
            guard.release(submission_id);
            let e = EvaluationError::SpawnFailed;
            events.push(Event {
                submission_id,
                update_id: 0,
                status: EventStatus::Error { message: e.message() },
            });
            proof {
                assert(guard@ =~= g0);
                assert(events@.map_values(|ev: Event| ev@) =~= seq![
                    spec_error_event(submission_id, e),
                ]);
            }
            return (Err(e), events);
        },
        JudgeOutcome::Spawned(lines) => lines,
    };
    let ghost linesm = lines@.map_values(|l: String| l@);
    let ghost total = spec_process_lines(pre, submission_id, solution_path@, linesm, 1, 0);
    events.push(Event { submission_id, update_id: 0, status: EventStatus::Started });
    let mut score: u64 = 0;
    let mut upd: i64 = 1;
    let mut i: usize = 0;
    proof {
        assert(linesm.skip(0) =~= linesm);
        assert(events@.map_values(|ev: Event| ev@).skip(1) =~= Seq::<EventModel>::empty());
        assert(Seq::<EventModel>::empty() + total.events =~= total.events);
    }
    while i < lines.len()
        invariant
            i <= linesm.len(),
            linesm.len() == lines@.len(),
            linesm == lines@.map_values(|l: String| l@),
            guard.wf(),
            guard@ == g0.insert(submission_id),
            !g0.contains(submission_id),
            store@.wf(),
            store@.submission(submission_id) is Some,
            store@.submission(submission_id).unwrap().files == sub.files,
            store@.submission(submission_id).unwrap().task_id == sub.task_id,
            store@.submission(submission_id).unwrap().id == sub.id,
            sub.files.len() == 1,
            sub.id == submission_id,
            1 <= upd <= 1 + i,
            events@.len() >= 1,
            events@[0]@ == (EventModel {
                submission_id,
                update_id: 0,
                status: EventStatusModel::Started,
            }),
            ({
                let rest = spec_process_lines(
                    store@,
                    submission_id,
                    solution_path@,
                    linesm.skip(i as int),
                    upd as int,
                    score,
                );
                &&& total.store == rest.store
                &&& total.events == events@.map_values(|ev: Event| ev@).skip(1) + rest.events
                &&& total.score == rest.score
                &&& total.err == rest.err
            }),
        decreases linesm.len() - i,
    {
        proof {
            assert(linesm.skip(i as int)[0] == linesm[i as int]);
            assert(linesm[i as int] == lines@[i as int]@);
            assert(linesm.skip(i as int).drop_first() =~= linesm.skip(i + 1));
        }
        let msg = decode_line(lines[i].as_str());
        let ghost evs0 = events@;
        match msg {
            TaskMakerMessage::Compilation(c) => {
                if crate::json::str_eq(c.data.path.as_str(), solution_path) {
                    match c.state {
                        State::Skipped | State::Failure | State::Success => {
                            let success = match c.state {
                                State::Success => true,
                                _ => false,
                            };
                            events.push(Event {
                                submission_id,
                                update_id: upd,
                                status: EventStatus::Compiled {
                                    compiler_stderr: String::new(),
                                    success,
                                },
                            });
                            upd = upd + 1;
                            proof {
                                assert(events@.map_values(|ev: Event| ev@)
                                    =~= evs0.map_values(|ev: Event| ev@).push(
                                    events@.last()@));
                                assert(events@.map_values(|ev: Event| ev@).skip(1)
                                    =~= evs0.map_values(|ev: Event| ev@).skip(1).push(
                                    events@.last()@));
                                let rest1 = spec_process_lines(
                                    store@,
                                    submission_id,
                                    solution_path@,
                                    linesm.skip(i + 1),
                                    upd as int,
                                    score,
                                );
                                assert(evs0.map_values(|ev: Event| ev@).skip(1) + (seq![
                                    events@.last()@,
                                ] + rest1.events) =~= events@.map_values(|ev: Event| ev@).skip(
                                    1,
                                ) + rest1.events);
                            }
                        },
                        _ => {},
                    }
                }
            },
            TaskMakerMessage::IOIResult(res) => {
                let ghost scur = store@;
                match populate_ioi_submission_results(store, submission_id, &res) {
                    Ok(sc) => {
                        score = sc;
                        proof {
                            let subc = scur.submission(submission_id).unwrap();
                            lemma_persist_row_shape(scur, subc, res@);
                            lemma_update_preserves_submission(scur, store@, submission_id);
                        }
                    },
                    Err(e) => {
                        let ghost spersist = store@;
                        proof {
                            let subc = scur.submission(submission_id).unwrap();
                            lemma_persist_row_shape(scur, subc, res@);
                            lemma_update_preserves_submission(scur, store@, submission_id);
                        }
                        crate::store::mark_internal_error(store, submission_id);
                        guard.release(submission_id);
                        events.push(Event {
                            submission_id,
                            update_id: 0,
                            status: EventStatus::Error { message: e.message() },
                        });
                        proof {
                            assert(guard@ =~= g0);
                            assert(events@.map_values(|ev: Event| ev@) =~= evs0.map_values(
                                |ev: Event| ev@,
                            ).push(spec_error_event(submission_id, e)));
                            assert(o.events =~= seq![events@[0]@] + total.events + seq![
                                spec_error_event(submission_id, e),
                            ]);
                            assert(total.events =~= evs0.map_values(|ev: Event| ev@).skip(1));
                            assert(events@.map_values(|ev: Event| ev@) =~= seq![events@[0]@]
                                + evs0.map_values(|ev: Event| ev@).skip(1) + seq![
                                spec_error_event(submission_id, e),
                            ]);
                        }
                        return (Err(e), events);
                    },
                }
            },
            TaskMakerMessage::TerryResult => {
                match populate_terry_submission_results(store, submission_id) {
                    Ok(_) => {
                        proof {
                            assert(false);
                        }
                    },
                    Err(e) => {
                        crate::store::mark_internal_error(store, submission_id);
                        guard.release(submission_id);
                        events.push(Event {
                            submission_id,
                            update_id: 0,
                            status: EventStatus::Error { message: e.message() },
                        });
                        proof {
                            assert(guard@ =~= g0);
                            assert(events@.map_values(|ev: Event| ev@) =~= evs0.map_values(
                                |ev: Event| ev@,
                            ).push(spec_error_event(submission_id, e)));
                            assert(total.events =~= evs0.map_values(|ev: Event| ev@).skip(1));
                            assert(events@.map_values(|ev: Event| ev@) =~= seq![events@[0]@]
                                + evs0.map_values(|ev: Event| ev@).skip(1) + seq![
                                spec_error_event(submission_id, e),
                            ]);
                        }
                        return (Err(e), events);
                    },
                }
            },
            TaskMakerMessage::Other => {},
            TaskMakerMessage::Malformed => {
                events.push(Event {
                    submission_id,
                    update_id: upd,
                    status: EventStatus::Error {
                        message: String::from_str("invalid judge message"),
                    },
                });
                upd = upd + 1;
                proof {
                    assert(events@.map_values(|ev: Event| ev@) =~= evs0.map_values(
                        |ev: Event| ev@,
                    ).push(events@.last()@));
                    assert(events@.map_values(|ev: Event| ev@).skip(1) =~= evs0.map_values(
                        |ev: Event| ev@,
                    ).skip(1).push(events@.last()@));
                    let rest1 = spec_process_lines(
                        store@,
                        submission_id,
                        solution_path@,
                        linesm.skip(i + 1),
                        upd as int,
                        score,
                    );
                    assert(evs0.map_values(|ev: Event| ev@).skip(1) + (seq![events@.last()@]
                        + rest1.events) =~= events@.map_values(|ev: Event| ev@).skip(1)
                        + rest1.events);
                }
            },
        }
        i += 1;
    }
    proof {
        assert(linesm.skip(linesm.len() as int) =~= Seq::<Seq<char>>::empty());
        assert(total.events =~= events@.map_values(|ev: Event| ev@).skip(1));
    }
    guard.release(submission_id);
    events.push(Event {
        submission_id,
        update_id: 0,
        status: EventStatus::Done { score },
    });
    proof {
        assert(guard@ =~= g0);
        assert(o.events =~= seq![events@[0]@] + total.events + seq![
            spec_done_event(submission_id, score),
        ]);
        assert(events@.map_values(|ev: Event| ev@) =~= seq![events@[0]@] + total.events + seq![
            spec_done_event(submission_id, score),
        ]);
    }
    (Ok(score), events)
}

/// What a persisted store's submissions can look like: unchanged, or the
/// submission's own row rewritten in place with its id, files and task
/// kept.
proof fn lemma_persist_row_shape(pre: StoreModel, sub: SubmissionModel, result: IOIResultModel)
    requires
        pre.wf(),
        pre.submission(sub.id) == Some(sub),
    ensures
        ({
            let post = spec_persist_ioi(pre, sub, result).0;
            post.submissions == pre.submissions || (exists|i: int, row: SubmissionModel|
                0 <= i < pre.submissions.len() && pre.submissions[i].id == row.id && row.files
                    == pre.submissions[i].files && row.task_id == pre.submissions[i].task_id
                    && post.submissions == #[trigger] pre.submissions.update(i, row))
        }),
{
    let post = spec_persist_ioi(pre, sub, result).0;
    let idx = crate::store::spec_submission_index(pre.submissions, sub.id);
    if post.submissions != pre.submissions {
        let i = idx.unwrap();
        assert(pre.submissions[i].id == sub.id);
        let file = sub.files[0];
        let comp = spec_assoc_str(result.solutions, file).unwrap();
        let t = spec_assoc_str(result.testing, file).unwrap();
        if comp.status == SourceFileCompilationStatus::Failure {
            let row = SubmissionModel {
                status: SubmissionStatus::CompilationError,
                score: Some(0),
                compilation_messages: Some(comp.stderr),
                ..pre.submissions[i]
            };
            assert(post.submissions == pre.submissions.update(i, row));
        } else {
            let row = SubmissionModel {
                status: SubmissionStatus::Success,
                score: Some(t.score),
                compilation_messages: Some(comp.stderr),
                ..pre.submissions[i]
            };
            assert(post.submissions == pre.submissions.update(i, row));
        }
    }
}


/// The submissions the periodic sweep re-issues: every submission still
/// waiting whose participation — and so its user — can be resolved,
/// paired with that user, in store order.
pub open spec fn spec_pending(subs: Seq<SubmissionModel>, parts: Seq<Participation>) -> Seq<
    (i64, i64),
>
    decreases subs.len(),
{
    if subs.len() == 0 {
        Seq::empty()
    } else {
        let rest = spec_pending(subs.drop_first(), parts);
        if subs[0].status == SubmissionStatus::Waiting {
            match spec_participation_by_id(parts, subs[0].participation_id) {
                Some(p) => seq![(subs[0].id, p.user_id)] + rest,
                None => rest,
            }
        } else {
            rest
        }
    }
}

/// The recovery sweep's decision: which submissions to evaluate, and for
/// which user.  Running the judge on each of them is the caller's work.
pub fn pending_submissions(store: &Store) -> (r: Vec<(i64, i64)>)
    ensures
        r@ == spec_pending(store@.submissions, store@.participations),
{
    let ghost subs = store@.submissions;
    let ghost parts = store@.participations;
    let mut out: Vec<(i64, i64)> = Vec::new();
    let mut i: usize = 0;
    proof {
        assert(subs.skip(0) =~= subs);
        assert(out@ + spec_pending(subs, parts) =~= spec_pending(subs, parts));
    }
    while i < store.submissions.len()
        invariant
            i <= subs.len(),
            subs == store@.submissions,
            parts == store@.participations,
            subs.len() == store.submissions@.len(),
            forall|k: int| 0 <= k < subs.len() ==> (#[trigger] subs[k]).status
                == store.submissions@[k].status,
            forall|k: int| 0 <= k < subs.len() ==> (#[trigger] subs[k]).participation_id
                == store.submissions@[k].participation_id,
            forall|k: int| 0 <= k < subs.len() ==> (#[trigger] subs[k]).id
                == store.submissions@[k].id,
            spec_pending(subs, parts) == out@ + spec_pending(subs.skip(i as int), parts),
        decreases subs.len() - i,
    {
        proof {
            assert(subs.skip(i as int)[0] == subs[i as int]);
            assert(subs.skip(i as int).drop_first() =~= subs.skip(i + 1));
        }
        let ghost pout = out@;
        if match store.submissions[i].status {
            SubmissionStatus::Waiting => true,
            _ => false,
        } {
            match store.participation_by_id(store.submissions[i].participation_id) {
                Some(p) => {
                    out.push((store.submissions[i].id, p.user_id));
                    proof {
                        assert(pout + (seq![(subs[i as int].id, p.user_id)] + spec_pending(
                            subs.skip(i + 1),
                            parts,
                        )) =~= out@ + spec_pending(subs.skip(i + 1), parts));
                    }
                },
                None => {},
            }
        }
        i += 1;
    }
    proof {
        assert(subs.skip(subs.len() as int) =~= Seq::<SubmissionModel>::empty());
        assert(out@ + Seq::<(i64, i64)>::empty() =~= out@);
    }
    out
}

/// Whether submission ids are unique in a row list.
pub open spec fn unique_submission_ids(subs: Seq<SubmissionModel>) -> bool {
    forall|a: int, b: int|
        0 <= a < b < subs.len() ==> (#[trigger] subs[a]).id != (#[trigger] subs[b]).id
}

/// Marking a present submission makes it an internal error; other rows
/// and tables do not move.
pub proof fn lemma_mark_status(store: StoreModel, submission_id: i64)
    requires
        unique_submission_ids(store.submissions),
        store.submission(submission_id) is Some,
    ensures
        spec_mark_internal_error(store, submission_id).submission(submission_id) is Some,
        spec_mark_internal_error(store, submission_id).submission(submission_id).unwrap().status
            == SubmissionStatus::InternalError,
        unique_submission_ids(spec_mark_internal_error(store, submission_id).submissions),
{
    let i = crate::store::spec_submission_index(store.submissions, submission_id).unwrap();
    let row = SubmissionModel {
        status: SubmissionStatus::InternalError,
        ..store.submissions[i]
    };
    lemma_submission_lookup_update(store.submissions, i, row);
    let post = spec_mark_internal_error(store, submission_id);
    assert(post.submissions == store.submissions.update(i, row));
    assert(post.submission(submission_id) == Some(row));
    assert forall|a: int, b: int| 0 <= a < b < post.submissions.len()
        implies (#[trigger] post.submissions[a]).id != (#[trigger] post.submissions[b]).id by {
        assert(store.submissions[a].id != store.submissions[b].id);
    }
}

/// Persisting a terminal result leaves the submission present, with a
/// terminal status on success; and submission ids stay unique.
pub proof fn lemma_persist_submission_status(
    pre: StoreModel,
    sub: SubmissionModel,
    result: IOIResultModel,
)
    requires
        unique_submission_ids(pre.submissions),
        pre.submission(sub.id) == Some(sub),
    ensures
        ({
            let (post, r) = spec_persist_ioi(pre, sub, result);
            &&& unique_submission_ids(post.submissions)
            &&& post.submission(sub.id) is Some
            &&& post.submission(sub.id).unwrap().id == sub.id
            &&& post.submission(sub.id).unwrap().files == sub.files
            &&& post.submission(sub.id).unwrap().task_id == sub.task_id
            &&& (r is Ok ==> post.submission(sub.id).unwrap().status
                != SubmissionStatus::Waiting)
            &&& (r is Err ==> post == pre)
        }),
{
    let (post, r) = spec_persist_ioi(pre, sub, result);
    let i = crate::store::spec_submission_index(pre.submissions, sub.id).unwrap();
    assert(pre.submissions[i] == sub);
    if post.submissions != pre.submissions {
        let file = sub.files[0];
        let comp = spec_assoc_str(result.solutions, file).unwrap();
        let t = spec_assoc_str(result.testing, file).unwrap();
        if comp.status == SourceFileCompilationStatus::Failure {
            let row = SubmissionModel {
                status: SubmissionStatus::CompilationError,
                score: Some(0),
                compilation_messages: Some(comp.stderr),
                ..sub
            };
            lemma_submission_lookup_update(pre.submissions, i, row);
            assert(post.submissions == pre.submissions.update(i, row));
            assert(post.submission(sub.id) == Some(row));
        } else {
            let row = SubmissionModel {
                status: SubmissionStatus::Success,
                score: Some(t.score),
                compilation_messages: Some(comp.stderr),
                ..sub
            };
            lemma_submission_lookup_update(pre.submissions, i, row);
            assert(post.submissions == pre.submissions.update(i, row));
            assert(post.submission(sub.id) == Some(row));
        }
        assert forall|a: int, b: int| 0 <= a < b < post.submissions.len()
            implies (#[trigger] post.submissions[a]).id != (
            #[trigger] post.submissions[b]).id by {
            assert(pre.submissions[a].id != pre.submissions[b].id);
        }
    }
}

/// Whether a line decodes to a terminal result message of either format.
pub open spec fn spec_is_terminal_line(line: Seq<char>) -> bool {
    match spec_decode_line(line) {
        TaskMakerMessageModel::IOIResult(_) => true,
        TaskMakerMessageModel::TerryResult => true,
        _ => false,
    }
}

/// Consuming the stream ends with a non-waiting submission wherever some
/// line carries a terminal result, or the submission had already left
/// the waiting state.
proof fn lemma_process_leaves_waiting(
    store: StoreModel,
    submission_id: i64,
    path: Seq<char>,
    lines: Seq<Seq<char>>,
    next_update: int,
    score: u64,
)
    requires
        unique_submission_ids(store.submissions),
        store.submission(submission_id) is Some,
        store.submission(submission_id).unwrap().id == submission_id,
    ensures
        ({
            let p = spec_process_lines(store, submission_id, path, lines, next_update, score);
            &&& p.store.submission(submission_id) is Some
            &&& ((exists|i: int| 0 <= i < lines.len() && spec_is_terminal_line(#[trigger] lines[i]))
                || store.submission(submission_id).unwrap().status != SubmissionStatus::Waiting
                ==> p.store.submission(submission_id).unwrap().status
                != SubmissionStatus::Waiting)
        }),
    decreases lines.len(),
{
    let p = spec_process_lines(store, submission_id, path, lines, next_update, score);
    if lines.len() == 0 {
    } else {
        let tail = lines.drop_first();
        let ghost shift_terminal = (exists|i: int|
            0 <= i < tail.len() && spec_is_terminal_line(#[trigger] tail[i]));
        assert((exists|i: int|
            0 <= i < lines.len() && spec_is_terminal_line(#[trigger] lines[i]))
            && !spec_is_terminal_line(lines[0]) ==> shift_terminal) by {
            if (exists|i: int|
                0 <= i < lines.len() && spec_is_terminal_line(#[trigger] lines[i]))
                && !spec_is_terminal_line(lines[0]) {
                let i = choose|i: int|
                    0 <= i < lines.len() && spec_is_terminal_line(#[trigger] lines[i]);
                assert(tail[i - 1] == lines[i]);
            }
        }
        assert(shift_terminal ==> (exists|i: int|
            0 <= i < lines.len() && spec_is_terminal_line(#[trigger] lines[i]))) by {
            if shift_terminal {
                let i = choose|i: int|
                    0 <= i < tail.len() && spec_is_terminal_line(#[trigger] tail[i]);
                assert(lines[i + 1] == tail[i]);
            }
        }
        match spec_decode_line(lines[0]) {
            TaskMakerMessageModel::IOIResult(r) => {
                let sub = store.submission(submission_id).unwrap();
                lemma_persist_submission_status(store, sub, r);
                let persisted = spec_persist_ioi(store, sub, r);
                match persisted.1 {
                    Ok(sc) => {
                        lemma_process_leaves_waiting(
                            persisted.0,
                            submission_id,
                            path,
                            tail,
                            next_update,
                            sc,
                        );
                    },
                    Err(e) => {
                        lemma_mark_status(persisted.0, submission_id);
                    },
                }
            },
            TaskMakerMessageModel::TerryResult => {
                lemma_mark_status(store, submission_id);
            },
            _ => {
                // a reported line advances the event number, an ignored
                // one does not; the store is untouched either way
                lemma_process_leaves_waiting(
                    store,
                    submission_id,
                    path,
                    tail,
                    next_update + 1,
                    score,
                );
                lemma_process_leaves_waiting(store, submission_id, path, tail, next_update, score);
            },
        }
    }
}

/// Sweep liveness: a submission left waiting, with no admission conflict
/// and a judge run that was spawned and reached a terminal result
/// message, does not stay waiting after its evaluation — whatever the
/// rest of the stream holds.  A judge run that emits no terminal message,
/// or that could not be spawned, leaves the submission waiting for the
/// next sweep.
pub proof fn lemma_sweep_liveness(
    store: StoreModel,
    guard: Set<i64>,
    submission_id: i64,
    path: Seq<char>,
    lines: Seq<Seq<char>>,
)
    requires
        store.wf(),
        store.submission(submission_id) is Some,
        store.submission(submission_id).unwrap().id == submission_id,
        !guard.contains(submission_id),
        exists|i: int| 0 <= i < lines.len() && spec_is_terminal_line(#[trigger] lines[i]),
    ensures
        ({
            let o = spec_evaluate(
                store,
                guard,
                submission_id,
                path,
                JudgeOutcomeModel::Spawned(lines),
            );
            &&& o.store.submission(submission_id) is Some
            &&& o.store.submission(submission_id).unwrap().status != SubmissionStatus::Waiting
        }),
{
    let sub = store.submission(submission_id).unwrap();
    if sub.files.len() != 1 {
        lemma_mark_status(store, submission_id);
    } else {
        lemma_process_leaves_waiting(store, submission_id, path, lines, 1, 0);
    }
}

/// Shape-check law: a submission with a file count other than one is
/// refused before the judge or the guard is touched — the caller gets
/// the typed error, the submission is marked as an internal error, and
/// no result row appears.
pub proof fn lemma_wrong_file_count(
    store: StoreModel,
    guard: Set<i64>,
    submission_id: i64,
    path: Seq<char>,
    outcome: JudgeOutcomeModel,
)
    requires
        unique_submission_ids(store.submissions),
        store.submission(submission_id) is Some,
        store.submission(submission_id).unwrap().files.len() != 1,
    ensures
        ({
            let o = spec_evaluate(store, guard, submission_id, path, outcome);
            &&& o.err == Some(
                EvaluationError::WrongNumberOfFiles {
                    number: store.submission(submission_id).unwrap().files.len() as usize,
                },
            )
            &&& o.store.submission(submission_id).unwrap().status
                == SubmissionStatus::InternalError
            &&& o.store.subtask_results == store.subtask_results
            &&& o.store.testcase_results == store.testcase_results
            &&& o.events =~= seq![
                spec_error_event(
                    submission_id,
                    EvaluationError::WrongNumberOfFiles {
                        number: store.submission(submission_id).unwrap().files.len() as usize,
                    },
                ),
            ]
        }),
{
    lemma_mark_status(store, submission_id);
}

/// Compilation-failure law: a terminal result whose compilation record
/// for the submitted file reports a failure updates the submission alone
/// — compilation error, score zero, the captured messages — and inserts
/// no subtask or testcase row.
pub proof fn lemma_compilation_failure(pre: StoreModel, sub: SubmissionModel, result: IOIResultModel)
    requires
        unique_submission_ids(pre.submissions),
        pre.submission(sub.id) == Some(sub),
        spec_assoc_str(result.solutions, sub.files[0]) is Some,
        spec_assoc_str(result.testing, sub.files[0]) is Some,
        spec_assoc_str(result.solutions, sub.files[0]).unwrap().status
            == SourceFileCompilationStatus::Failure,
    ensures
        ({
            let (post, r) = spec_persist_ioi(pre, sub, result);
            &&& r == Ok::<u64, EvaluationError>(0)
            &&& post.subtask_results == pre.subtask_results
            &&& post.testcase_results == pre.testcase_results
            &&& post.submission(sub.id) is Some
            &&& post.submission(sub.id).unwrap().status == SubmissionStatus::CompilationError
            &&& post.submission(sub.id).unwrap().score == Some(0u64)
            &&& post.submission(sub.id).unwrap().compilation_messages == Some(
                spec_assoc_str(result.solutions, sub.files[0]).unwrap().stderr,
            )
        }),
{
    let i = crate::store::spec_submission_index(pre.submissions, sub.id).unwrap();
    assert(pre.submissions[i] == sub);
    let comp = spec_assoc_str(result.solutions, sub.files[0]).unwrap();
    let row = SubmissionModel {
        status: SubmissionStatus::CompilationError,
        score: Some(0),
        compilation_messages: Some(comp.stderr),
        ..sub
    };
    lemma_submission_lookup_update(pre.submissions, i, row);
    let post = spec_persist_ioi(pre, sub, result).0;
    assert(post.submissions == pre.submissions.update(i, row));
    assert(post.submission(sub.id) == Some(row));
}


/// Resolution keeps the judge's scores, entry for entry.
proof fn lemma_resolve_shape(subtasks: Seq<Subtask>, task_id: i64, scores: Seq<(i64, u64)>)
    requires
        spec_resolve_subtasks(subtasks, task_id, scores) is Some,
    ensures
        spec_resolve_subtasks(subtasks, task_id, scores).unwrap().len() == scores.len(),
        forall|k: int|
            0 <= k < scores.len() ==> (#[trigger] spec_resolve_subtasks(
                subtasks,
                task_id,
                scores,
            ).unwrap()[k]).1 == scores[k].1,
    decreases scores.len(),
{
    if scores.len() > 0 {
        lemma_resolve_shape(subtasks, task_id, scores.drop_first());
        let resolved = spec_resolve_subtasks(subtasks, task_id, scores).unwrap();
        let rest = spec_resolve_subtasks(subtasks, task_id, scores.drop_first()).unwrap();
        assert forall|k: int| 0 <= k < scores.len()
            implies (#[trigger] resolved[k]).1 == scores[k].1 by {
            if k > 0 {
                assert(resolved[k] == rest[k - 1]);
                assert(scores.drop_first()[k - 1] == scores[k]);
            }
        }
    }
}

/// One subtask's planned rows carry its testcases' numbers, scores,
/// messages, and the sum of user and system time, in order.
proof fn lemma_proto_rows_shape(cases: Seq<(i64, IOISolutionTestCaseResultModel)>, srid: i64)
    requires
        spec_proto_rows_for(cases, srid) is Some,
    ensures
        ({
            let rows = spec_proto_rows_for(cases, srid).unwrap();
            &&& rows.len() == cases.len()
            &&& forall|k: int|
                0 <= k < cases.len() ==> (#[trigger] rows[k]) == (TestcaseResultModel {
                    id: 0,
                    subtask_result_id: srid,
                    running_time: (cases[k].1.result[0].resources.cpu_time
                        + cases[k].1.result[0].resources.sys_time) as u64,
                    memory_usage: cases[k].1.result[0].resources.memory,
                    message: cases[k].1.message,
                    score: cases[k].1.score,
                    num: cases[k].0,
                })
        }),
    decreases cases.len(),
{
    if cases.len() > 0 {
        lemma_proto_rows_shape(cases.drop_first(), srid);
        let rows = spec_proto_rows_for(cases, srid).unwrap();
        let rest = spec_proto_rows_for(cases.drop_first(), srid).unwrap();
        assert forall|k: int| 0 <= k < cases.len()
            implies (#[trigger] rows[k]) == (TestcaseResultModel {
                id: 0,
                subtask_result_id: srid,
                running_time: (cases[k].1.result[0].resources.cpu_time
                    + cases[k].1.result[0].resources.sys_time) as u64,
                memory_usage: cases[k].1.result[0].resources.memory,
                message: cases[k].1.message,
                score: cases[k].1.score,
                num: cases[k].0,
            }) by {
            if k > 0 {
                assert(rows[k] == rest[k - 1]);
                assert(cases.drop_first()[k - 1] == cases[k]);
            }
        }
    }
}

/// Every planned testcase row records some judged testcase of the map:
/// its number, score, message, and the sum of its user and system time.
proof fn lemma_proto_flatten(
    tcmap: Seq<(i64, Seq<(i64, IOISolutionTestCaseResultModel)>)>,
    subtasks: Seq<Subtask>,
    task_id: i64,
    resolved: Seq<(i64, u64)>,
    base: int,
    w: int,
)
    requires
        spec_proto_testcase_rows(tcmap, subtasks, task_id, resolved, base) is Ok,
        0 <= w < spec_proto_testcase_rows(tcmap, subtasks, task_id, resolved, base).unwrap().len(),
    ensures
        ({
            let rows = spec_proto_testcase_rows(tcmap, subtasks, task_id, resolved, base).unwrap();
            exists|j: int, k: int|
                0 <= j < tcmap.len() && 0 <= k < tcmap[j].1.len() && (#[trigger] tcmap[j].1[k])
                    == tcmap[j].1[k] && rows[w].running_time == (tcmap[j].1[k].1.result[0].resources.cpu_time
                    + tcmap[j].1[k].1.result[0].resources.sys_time) as u64 && rows[w].memory_usage
                    == tcmap[j].1[k].1.result[0].resources.memory && rows[w].message
                    == tcmap[j].1[k].1.message && rows[w].score == tcmap[j].1[k].1.score
                    && rows[w].num == tcmap[j].1[k].0
        }),
    decreases tcmap.len(),
{
    let rows = spec_proto_testcase_rows(tcmap, subtasks, task_id, resolved, base).unwrap();
    let (st_num, cases) = tcmap[0];
    let st = spec_subtask_by_num(subtasks, task_id, st_num).unwrap();
    let idx = spec_resolved_index(resolved, st.id).unwrap();
    let srid = (base + idx) as i64;
    let head = spec_proto_rows_for(cases, srid).unwrap();
    let rest = spec_proto_testcase_rows(tcmap.drop_first(), subtasks, task_id, resolved, base);
    lemma_proto_rows_shape(cases, srid);
    assert(rows == head + rest.unwrap());
    if w < head.len() {
        assert(rows[w] == head[w]);
        assert(0 <= 0 < tcmap.len() && 0 <= w < tcmap[0].1.len() && (#[trigger] tcmap[0].1[w])
            == tcmap[0].1[w] && rows[w].running_time == (tcmap[0].1[w].1.result[0].resources.cpu_time
            + tcmap[0].1[w].1.result[0].resources.sys_time) as u64 && rows[w].memory_usage
            == tcmap[0].1[w].1.result[0].resources.memory && rows[w].message
            == tcmap[0].1[w].1.message && rows[w].score == tcmap[0].1[w].1.score && rows[w].num
            == tcmap[0].1[w].0);
    } else {
        lemma_proto_flatten(
            tcmap.drop_first(),
            subtasks,
            task_id,
            resolved,
            base,
            w - head.len(),
        );
        let (j, k) = choose|j: int, k: int|
            0 <= j < tcmap.drop_first().len() && 0 <= k < tcmap.drop_first()[j].1.len() && (
            #[trigger] tcmap.drop_first()[j].1[k]) == tcmap.drop_first()[j].1[k]
                && rest.unwrap()[w - head.len()].running_time == (
            tcmap.drop_first()[j].1[k].1.result[0].resources.cpu_time
                + tcmap.drop_first()[j].1[k].1.result[0].resources.sys_time) as u64
                && rest.unwrap()[w - head.len()].memory_usage
                == tcmap.drop_first()[j].1[k].1.result[0].resources.memory && rest.unwrap()[w
                - head.len()].message == tcmap.drop_first()[j].1[k].1.message && rest.unwrap()[w
                - head.len()].score == tcmap.drop_first()[j].1[k].1.score && rest.unwrap()[w
                - head.len()].num == tcmap.drop_first()[j].1[k].0;
        assert(tcmap[j + 1] == tcmap.drop_first()[j]);
        assert(rows[w] == rest.unwrap()[w - head.len()]);
        assert(0 <= j + 1 < tcmap.len() && 0 <= k < tcmap[j + 1].1.len() && (
        #[trigger] tcmap[j + 1].1[k]) == tcmap[j + 1].1[k] && rows[w].running_time == (tcmap[j
            + 1].1[k].1.result[0].resources.cpu_time
            + tcmap[j + 1].1[k].1.result[0].resources.sys_time) as u64 && rows[w].memory_usage
            == tcmap[j + 1].1[k].1.result[0].resources.memory && rows[w].message == tcmap[j
            + 1].1[k].1.message && rows[w].score == tcmap[j + 1].1[k].1.score && rows[w].num
            == tcmap[j + 1].1[k].0);
    }
}

/// Whether a row records one of the judged testcases of the map: its
/// number and score, and a running time that is the sum of that
/// testcase's user and system time.
pub open spec fn spec_records_some_testcase(
    tcmap: Seq<(i64, Seq<(i64, IOISolutionTestCaseResultModel)>)>,
    row: TestcaseResultModel,
) -> bool {
    exists|j: int, k: int|
        0 <= j < tcmap.len() && 0 <= k < tcmap[j].1.len() && row.running_time == ((
        #[trigger] tcmap[j].1[k]).1.result[0].resources.cpu_time
            + tcmap[j].1[k].1.result[0].resources.sys_time) as u64 && row.score
            == tcmap[j].1[k].1.score && row.num == tcmap[j].1[k].0
}

/// Success law: a persisted terminal result whose compilation succeeded
/// stores the judge's top-level score on the submission, one
/// subtask-result row per scored subtask carrying exactly the judge's
/// score for it, and one testcase row per judged testcase whose running
/// time is the sum of that testcase's user and system time.
pub proof fn lemma_success_persistence(pre: StoreModel, sub: SubmissionModel, result: IOIResultModel)
    requires
        unique_submission_ids(pre.submissions),
        pre.submission(sub.id) == Some(sub),
        spec_assoc_str(result.solutions, sub.files[0]) is Some,
        spec_assoc_str(result.solutions, sub.files[0]).unwrap().status
            != SourceFileCompilationStatus::Failure,
        spec_persist_ioi(pre, sub, result).1 is Ok,
    ensures
        ({
            let t = spec_assoc_str(result.testing, sub.files[0]).unwrap();
            let (post, r) = spec_persist_ioi(pre, sub, result);
            let fresh = post.subtask_results.skip(pre.subtask_results.len() as int);
            let freshtc = post.testcase_results.skip(pre.testcase_results.len() as int);
            &&& r == Ok::<u64, EvaluationError>(t.score)
            &&& post.submission(sub.id) is Some
            &&& post.submission(sub.id).unwrap().status == SubmissionStatus::Success
            &&& post.submission(sub.id).unwrap().score == Some(t.score)
            &&& post.subtask_results.len() == pre.subtask_results.len()
                + t.subtask_scores.len()
            &&& forall|k: int|
                0 <= k < t.subtask_scores.len() ==> (#[trigger] fresh[k]).score
                    == t.subtask_scores[k].1 && fresh[k].submission_id == sub.id
            &&& freshtc.len() == spec_total_cases(t.testcase_results)
            &&& forall|w: int|
                0 <= w < freshtc.len() ==> spec_records_some_testcase(
                    t.testcase_results,
                    #[trigger] freshtc[w],
                )
        }),
{
    let t = spec_assoc_str(result.testing, sub.files[0]).unwrap();
    let (post, r) = spec_persist_ioi(pre, sub, result);
    let resolved = spec_resolve_subtasks(pre.subtasks, sub.task_id, t.subtask_scores).unwrap();
    let base = pre.next_id as int;
    let proto = spec_proto_testcase_rows(
        t.testcase_results,
        pre.subtasks,
        sub.task_id,
        resolved,
        base,
    ).unwrap();
    lemma_resolve_shape(pre.subtasks, sub.task_id, t.subtask_scores);
    lemma_proto_len(t.testcase_results, pre.subtasks, sub.task_id, resolved, base);
    let i = crate::store::spec_submission_index(pre.submissions, sub.id).unwrap();
    assert(pre.submissions[i] == sub);
    let comp = spec_assoc_str(result.solutions, sub.files[0]).unwrap();
    let row = SubmissionModel {
        status: SubmissionStatus::Success,
        score: Some(t.score),
        compilation_messages: Some(comp.stderr),
        ..sub
    };
    lemma_submission_lookup_update(pre.submissions, i, row);
    assert(post.submission(sub.id) == Some(row));
    let srows = spec_subtask_rows(resolved, sub.id, base);
    assert(post.subtask_results == pre.subtask_results + srows);
    let fresh = post.subtask_results.skip(pre.subtask_results.len() as int);
    assert(fresh =~= srows);
    assert forall|k: int| 0 <= k < t.subtask_scores.len()
        implies (#[trigger] fresh[k]).score == t.subtask_scores[k].1 && fresh[k].submission_id
            == sub.id by {
        assert(srows[k].score == resolved[k].1);
    }
    let trows = spec_assign_ids(proto, base + resolved.len());
    assert(post.testcase_results == pre.testcase_results + trows);
    let freshtc = post.testcase_results.skip(pre.testcase_results.len() as int);
    assert(freshtc =~= trows);
    assert forall|w: int| 0 <= w < freshtc.len()
        implies spec_records_some_testcase(t.testcase_results, #[trigger] freshtc[w]) by {
        lemma_proto_flatten(t.testcase_results, pre.subtasks, sub.task_id, resolved, base, w);
        let (j, k) = choose|j: int, k: int|
            0 <= j < t.testcase_results.len() && 0 <= k < t.testcase_results[j].1.len() && (
            #[trigger] t.testcase_results[j].1[k]) == t.testcase_results[j].1[k]
                && proto[w].running_time == (
            t.testcase_results[j].1[k].1.result[0].resources.cpu_time
                + t.testcase_results[j].1[k].1.result[0].resources.sys_time) as u64
                && proto[w].memory_usage
                == t.testcase_results[j].1[k].1.result[0].resources.memory && proto[w].message
                == t.testcase_results[j].1[k].1.message && proto[w].score
                == t.testcase_results[j].1[k].1.score && proto[w].num
                == t.testcase_results[j].1[k].0;
        assert(freshtc[w] == trows[w]);
        assert(trows[w].running_time == proto[w].running_time);
        assert(0 <= j < t.testcase_results.len() && 0 <= k < t.testcase_results[j].1.len()
            && freshtc[w].running_time == ((#[trigger] t.testcase_results[j].1[k]).1.result[0].resources.cpu_time
            + t.testcase_results[j].1[k].1.result[0].resources.sys_time) as u64
            && freshtc[w].score == t.testcase_results[j].1[k].1.score && freshtc[w].num
            == t.testcase_results[j].1[k].0);
    }
}

} // verus!} // verus!
