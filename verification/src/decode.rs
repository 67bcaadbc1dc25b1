//! Decoding judge message documents into [`TaskMakerMessage`].
//!
//! Each spec function here says what one payload shape denotes; the
//! matching executable function is proved to return exactly that.  The
//! decoder validates the payloads the engine acts upon — compilation
//! progress and the standard-format terminal result — and leaves the
//! payloads of recognized progress tags unexamined.

use crate::json::JsonValue;
use crate::json::decode_json;
use crate::json::field_arr;
use crate::json::field_milli;
use crate::json::field_obj;
use crate::json::field_str;
use crate::json::field_u64;
use crate::json::json_milli;
use crate::json::json_of;
use crate::json::json_str;
use crate::json::obj_get;
use crate::json::parse_int_text;
use crate::json::spec_field_arr;
use crate::json::spec_field_milli;
use crate::json::spec_field_obj;
use crate::json::spec_field_str;
use crate::json::spec_field_u64;
use crate::json::spec_json_milli;
use crate::json::spec_json_str;
use crate::json::spec_obj_get;
use crate::json::spec_seq_int;
use crate::json::str_eq;
use crate::messages::Compilation;
use crate::messages::CompilationData;
use crate::messages::CompilationDataModel;
use crate::messages::CompilationModel;
use crate::messages::IOIResult;
use crate::messages::IOIResultModel;
use crate::messages::IOISolutionResults;
use crate::messages::IOISolutionResultsModel;
use crate::messages::IOISolutionSubtaskResult;
use crate::messages::IOISolutionTestCaseResult;
use crate::messages::IOISolutionTestCaseResultModel;
use crate::messages::IOISolutionTestCaseStatus;
use crate::messages::Resources;
use crate::messages::ResultStatus;
use crate::messages::RunResult;
use crate::messages::SourceFileCompilation;
use crate::messages::SourceFileCompilationModel;
use crate::messages::SourceFileCompilationStatus;
use crate::messages::State;
use crate::messages::TaskMakerMessage;
use crate::messages::TaskMakerMessageModel;
use crate::messages::spec_compilation_status_of;
use crate::messages::spec_known_tag;
use crate::messages::spec_result_status_of;
use crate::messages::spec_state_of;
use crate::messages::spec_subtask_result_of;
use crate::messages::spec_tag_of;
use crate::messages::spec_testcase_status_of;
use vstd::prelude::*;

verus! {

/// What one execution-result document denotes.
pub open spec fn spec_decode_run(v: JsonValue) -> Option<RunResult> {
    match v {
        JsonValue::Obj(f) => {
            let fs = f@;
            match (spec_field_str(fs, "status"@), spec_field_obj(fs, "resources"@)) {
                (Some(st), Some(rf)) => {
                    match (
                        spec_result_status_of(st),
                        spec_field_milli(rf, "cpu_time"@),
                        spec_field_milli(rf, "sys_time"@),
                        spec_field_milli(rf, "wall_time"@),
                        spec_field_u64(rf, "memory"@),
                    ) {
                        (Some(status), Some(cpu), Some(sys), Some(wall), Some(mem)) => Some(
                            RunResult {
                                status,
                                resources: Resources {
                                    cpu_time: cpu,
                                    sys_time: sys,
                                    wall_time: wall,
                                    memory: mem,
                                },
                            },
                        ),
                        _ => None,
                    }
                },
                _ => None,
            }
        },
        _ => None,
    }
}

/// Decode one execution result.
fn decode_run(v: &JsonValue) -> (r: Option<RunResult>)
    ensures
        r == spec_decode_run(*v),
{
    let f = match v {
        JsonValue::Obj(f) => f,
        _ => { return None; },
    };
    let st = match field_str(f, "status") {
        Some(st) => st,
        None => { return None; },
    };
    let rf = match field_obj(f, "resources") {
        Some(rf) => rf,
        None => { return None; },
    };
    let status = match compilation_run_status(st.as_str()) {
        Some(status) => status,
        None => { return None; },
    };
    let cpu = match field_milli(rf, "cpu_time") {
        Some(x) => x,
        None => { return None; },
    };
    let sys = match field_milli(rf, "sys_time") {
        Some(x) => x,
        None => { return None; },
    };
    let wall = match field_milli(rf, "wall_time") {
        Some(x) => x,
        None => { return None; },
    };
    let mem = match field_u64(rf, "memory") {
        Some(x) => x,
        None => { return None; },
    };
    Some(RunResult {
        status,
        resources: Resources { cpu_time: cpu, sys_time: sys, wall_time: wall, memory: mem },
    })
}

/// Map a status text to an execution status.
fn compilation_run_status(s: &str) -> (r: Option<ResultStatus>)
    ensures
        r == spec_result_status_of(s@),
{
    if str_eq(s, "SUCCESS") {
        Some(ResultStatus::Success)
    } else if str_eq(s, "SIGNAL") {
        Some(ResultStatus::Signal)
    } else if str_eq(s, "RETURN_CODE") {
        Some(ResultStatus::ReturnCode)
    } else if str_eq(s, "TIME_LIMIT") {
        Some(ResultStatus::TimeLimit)
    } else if str_eq(s, "WALL_LIMIT") {
        Some(ResultStatus::WallLimit)
    } else if str_eq(s, "MEMORY_LIMIT") {
        Some(ResultStatus::MemoryLimit)
    } else if str_eq(s, "MISSING_FILES") {
        Some(ResultStatus::MissingFiles)
    } else if str_eq(s, "INVALID_REQUEST") {
        Some(ResultStatus::InvalidRequest)
    } else if str_eq(s, "INTERNAL_ERROR") {
        Some(ResultStatus::InternalError)
    } else {
        None
    }
}

/// Map a state text to a progress state.
fn state_of(s: &str) -> (r: Option<State>)
    ensures
        r == spec_state_of(s@),
{
    if str_eq(s, "WAITING") {
        Some(State::Waiting)
    } else if str_eq(s, "SKIPPED") {
        Some(State::Skipped)
    } else if str_eq(s, "START") {
        Some(State::Start)
    } else if str_eq(s, "WARNING") {
        Some(State::Warning)
    } else if str_eq(s, "ERROR") {
        Some(State::Error)
    } else if str_eq(s, "FAILURE") {
        Some(State::Failure)
    } else if str_eq(s, "SUCCESS") {
        Some(State::Success)
    } else {
        None
    }
}

/// Map a status text to a compilation status.
fn compilation_status_of(s: &str) -> (r: Option<SourceFileCompilationStatus>)
    ensures
        r == spec_compilation_status_of(s@),
{
    if str_eq(s, "WAITING") {
        Some(SourceFileCompilationStatus::Waiting)
    } else if str_eq(s, "COMPILING") {
        Some(SourceFileCompilationStatus::Compiling)
    } else if str_eq(s, "DONE") {
        Some(SourceFileCompilationStatus::Done)
    } else if str_eq(s, "FAILURE") {
        Some(SourceFileCompilationStatus::Failure)
    } else {
        None
    }
}

/// Map a status text to a per-testcase status.
fn testcase_status_of(s: &str) -> (r: Option<IOISolutionTestCaseStatus>)
    ensures
        r == spec_testcase_status_of(s@),
{
    if str_eq(s, "WAITING") {
        Some(IOISolutionTestCaseStatus::Waiting)
    } else if str_eq(s, "SOLVING") {
        Some(IOISolutionTestCaseStatus::Solving)
    } else if str_eq(s, "SOLVED") {
        Some(IOISolutionTestCaseStatus::Solved)
    } else if str_eq(s, "CHECKING") {
        Some(IOISolutionTestCaseStatus::Checking)
    } else if str_eq(s, "ACCEPTED") {
        Some(IOISolutionTestCaseStatus::Accepted)
    } else if str_eq(s, "WRONG_ANSWER") {
        Some(IOISolutionTestCaseStatus::WrongAnswer)
    } else if str_eq(s, "PARTIAL") {
        Some(IOISolutionTestCaseStatus::Partial)
    } else if str_eq(s, "FAILED") {
        Some(IOISolutionTestCaseStatus::Failed)
    } else if str_eq(s, "SKIPPED") {
        Some(IOISolutionTestCaseStatus::Skipped)
    } else {
        None
    }
}

/// Map a status text to a per-subtask status.
fn subtask_result_of(s: &str) -> (r: Option<IOISolutionSubtaskResult>)
    ensures
        r == spec_subtask_result_of(s@),
{
    if str_eq(s, "WAITING") {
        Some(IOISolutionSubtaskResult::Waiting)
    } else if str_eq(s, "RUNNING") {
        Some(IOISolutionSubtaskResult::Running)
    } else if str_eq(s, "ACCEPTED") {
        Some(IOISolutionSubtaskResult::Accepted)
    } else if str_eq(s, "PARTIAL") {
        Some(IOISolutionSubtaskResult::Partial)
    } else if str_eq(s, "REJECTED") {
        Some(IOISolutionSubtaskResult::Rejected)
    } else {
        None
    }
}

/// What an array of execution results denotes.
pub open spec fn spec_decode_runs(items: Seq<JsonValue>) -> Option<Seq<RunResult>>
    decreases items.len(),
{
    if items.len() == 0 {
        Some(Seq::empty())
    } else {
        match spec_decode_runs(items.drop_last()) {
            None => None,
            Some(rest) => match spec_decode_run(items.last()) {
                Some(run) => Some(rest.push(run)),
                None => None,
            },
        }
    }
}

proof fn lemma_runs_none(items: Seq<JsonValue>, i: int)
    requires
        0 <= i <= items.len(),
        spec_decode_runs(items.take(i)) is None,
    ensures
        spec_decode_runs(items) is None,
    decreases items.len() - i,
{
    if i == items.len() {
        assert(items.take(i) =~= items);
    } else {
        assert(items.take(i + 1).drop_last() =~= items.take(i));
        lemma_runs_none(items, i + 1);
    }
}

/// Decode an array of execution results.
fn decode_runs(items: &Vec<JsonValue>) -> (r: Option<Vec<RunResult>>)
    ensures
        match r {
            Some(v) => spec_decode_runs(items@) == Some(v@),
            None => spec_decode_runs(items@) is None,
        },
{
    let mut out: Vec<RunResult> = Vec::new();
    let mut i: usize = 0;
    proof {
        assert(items@.take(0) =~= Seq::<JsonValue>::empty());
    }
    while i < items.len()
        invariant
            i <= items@.len(),
            spec_decode_runs(items@.take(i as int)) == Some(out@),
        decreases items@.len() - i,
    {
        proof {
            assert(items@.take(i + 1).drop_last() =~= items@.take(i as int));
            assert(items@.take(i + 1).last() == items@[i as int]);
        }
        match decode_run(&items[i]) {
            Some(run) => {
                out.push(run);
            },
            None => {
                proof {
                    lemma_runs_none(items@, i + 1);
                }
                return None;
            },
        }
        i += 1;
    }
    proof {
        assert(items@.take(items@.len() as int) =~= items@);
    }
    Some(out)
}

/// What one testcase-result document denotes.
pub open spec fn spec_decode_testcase(v: JsonValue) -> Option<IOISolutionTestCaseResultModel> {
    match v {
        JsonValue::Obj(f) => {
            let fs = f@;
            match (
                spec_field_str(fs, "status"@),
                spec_field_milli(fs, "score"@),
                spec_field_str(fs, "message"@),
                spec_field_arr(fs, "result"@),
            ) {
                (Some(st), Some(score), Some(message), Some(items)) => {
                    match (spec_testcase_status_of(st), spec_decode_runs(items)) {
                        (Some(status), Some(result)) => Some(
                            IOISolutionTestCaseResultModel { status, result, score, message },
                        ),
                        _ => None,
                    }
                },
                _ => None,
            }
        },
        _ => None,
    }
}

/// Decode one testcase result.
fn decode_testcase(v: &JsonValue) -> (r: Option<IOISolutionTestCaseResult>)
    ensures
        match r {
            Some(tc) => spec_decode_testcase(*v) == Some(tc@),
            None => spec_decode_testcase(*v) is None,
        },
{
    let f = match v {
        JsonValue::Obj(f) => f,
        _ => { return None; },
    };
    let st = match field_str(f, "status") {
        Some(st) => st,
        None => { return None; },
    };
    let score = match field_milli(f, "score") {
        Some(x) => x,
        None => { return None; },
    };
    let message = match field_str(f, "message") {
        Some(m) => m,
        None => { return None; },
    };
    let items = match field_arr(f, "result") {
        Some(a) => a,
        None => { return None; },
    };
    let status = match testcase_status_of(st.as_str()) {
        Some(status) => status,
        None => { return None; },
    };
    let result = match decode_runs(items) {
        Some(rs) => rs,
        None => { return None; },
    };
    Some(IOISolutionTestCaseResult { status, result, score, message: message.clone() })
}

/// What a map from subtask number to score denotes.
pub open spec fn spec_decode_subtask_scores(fields: Seq<(String, JsonValue)>) -> Option<
    Seq<(i64, u64)>,
>
    decreases fields.len(),
{
    if fields.len() == 0 {
        Some(Seq::empty())
    } else {
        match spec_decode_subtask_scores(fields.drop_last()) {
            None => None,
            Some(rest) => match (spec_seq_int(fields.last().0@), spec_json_milli(
                fields.last().1,
            )) {
                (Some(k), Some(m)) => Some(rest.push((k, m))),
                _ => None,
            },
        }
    }
}

proof fn lemma_subtask_scores_none(fields: Seq<(String, JsonValue)>, i: int)
    requires
        0 <= i <= fields.len(),
        spec_decode_subtask_scores(fields.take(i)) is None,
    ensures
        spec_decode_subtask_scores(fields) is None,
    decreases fields.len() - i,
{
    if i == fields.len() {
        assert(fields.take(i) =~= fields);
    } else {
        assert(fields.take(i + 1).drop_last() =~= fields.take(i));
        lemma_subtask_scores_none(fields, i + 1);
    }
}

/// Decode a map from subtask number to score.
fn decode_subtask_scores(fields: &Vec<(String, JsonValue)>) -> (r: Option<Vec<(i64, u64)>>)
    ensures
        match r {
            Some(v) => spec_decode_subtask_scores(fields@) == Some(v@),
            None => spec_decode_subtask_scores(fields@) is None,
        },
{
    let mut out: Vec<(i64, u64)> = Vec::new();
    let mut i: usize = 0;
    proof {
        assert(fields@.take(0) =~= Seq::<(String, JsonValue)>::empty());
    }
    while i < fields.len()
        invariant
            i <= fields@.len(),
            spec_decode_subtask_scores(fields@.take(i as int)) == Some(out@),
        decreases fields@.len() - i,
    {
        proof {
            assert(fields@.take(i + 1).drop_last() =~= fields@.take(i as int));
            assert(fields@.take(i + 1).last() == fields@[i as int]);
        }
        let k = match parse_int_text(fields[i].0.as_str()) {
            Some(k) => k,
            None => {
                proof {
                    lemma_subtask_scores_none(fields@, i + 1);
                }
                return None;
            },
        };
        let m = match json_milli(&fields[i].1) {
            Some(m) => m,
            None => {
                proof {
                    lemma_subtask_scores_none(fields@, i + 1);
                }
                return None;
            },
        };
        out.push((k, m));
        i += 1;
    }
    proof {
        assert(fields@.take(fields@.len() as int) =~= fields@);
    }
    Some(out)
}

/// What a map from subtask number to subtask status denotes.
pub open spec fn spec_decode_subtask_results(fields: Seq<(String, JsonValue)>) -> Option<
    Seq<(i64, IOISolutionSubtaskResult)>,
>
    decreases fields.len(),
{
    if fields.len() == 0 {
        Some(Seq::empty())
    } else {
        match spec_decode_subtask_results(fields.drop_last()) {
            None => None,
            Some(rest) => match (spec_seq_int(fields.last().0@), spec_json_str(fields.last().1)) {
                (Some(k), Some(t)) => match spec_subtask_result_of(t) {
                    Some(s) => Some(rest.push((k, s))),
                    None => None,
                },
                _ => None,
            },
        }
    }
}

proof fn lemma_subtask_results_none(fields: Seq<(String, JsonValue)>, i: int)
    requires
        0 <= i <= fields.len(),
        spec_decode_subtask_results(fields.take(i)) is None,
    ensures
        spec_decode_subtask_results(fields) is None,
    decreases fields.len() - i,
{
    if i == fields.len() {
        assert(fields.take(i) =~= fields);
    } else {
        assert(fields.take(i + 1).drop_last() =~= fields.take(i));
        lemma_subtask_results_none(fields, i + 1);
    }
}

/// Decode a map from subtask number to subtask status.
fn decode_subtask_results(fields: &Vec<(String, JsonValue)>) -> (r: Option<
    Vec<(i64, IOISolutionSubtaskResult)>,
>)
    ensures
        match r {
            Some(v) => spec_decode_subtask_results(fields@) == Some(v@),
            None => spec_decode_subtask_results(fields@) is None,
        },
{
    let mut out: Vec<(i64, IOISolutionSubtaskResult)> = Vec::new();
    let mut i: usize = 0;
    proof {
        assert(fields@.take(0) =~= Seq::<(String, JsonValue)>::empty());
    }
    while i < fields.len()
        invariant
            i <= fields@.len(),
            spec_decode_subtask_results(fields@.take(i as int)) == Some(out@),
        decreases fields@.len() - i,
    {
        proof {
            assert(fields@.take(i + 1).drop_last() =~= fields@.take(i as int));
            assert(fields@.take(i + 1).last() == fields@[i as int]);
        }
        let k = match parse_int_text(fields[i].0.as_str()) {
            Some(k) => k,
            None => {
                proof {
                    lemma_subtask_results_none(fields@, i + 1);
                }
                return None;
            },
        };
        let t = match json_str(&fields[i].1) {
            Some(t) => t,
            None => {
                proof {
                    lemma_subtask_results_none(fields@, i + 1);
                }
                return None;
            },
        };
        let s = match subtask_result_of(t.as_str()) {
            Some(s) => s,
            None => {
                proof {
                    lemma_subtask_results_none(fields@, i + 1);
                }
                return None;
            },
        };
        out.push((k, s));
        i += 1;
    }
    proof {
        assert(fields@.take(fields@.len() as int) =~= fields@);
    }
    Some(out)
}

/// What a map from testcase number to testcase result denotes.
pub open spec fn spec_decode_testcase_entries(fields: Seq<(String, JsonValue)>) -> Option<
    Seq<(i64, IOISolutionTestCaseResultModel)>,
>
    decreases fields.len(),
{
    if fields.len() == 0 {
        Some(Seq::empty())
    } else {
        match spec_decode_testcase_entries(fields.drop_last()) {
            None => None,
            Some(rest) => match (spec_seq_int(fields.last().0@), spec_decode_testcase(
                fields.last().1,
            )) {
                (Some(k), Some(tc)) => Some(rest.push((k, tc))),
                _ => None,
            },
        }
    }
}

proof fn lemma_testcase_entries_none(fields: Seq<(String, JsonValue)>, i: int)
    requires
        0 <= i <= fields.len(),
        spec_decode_testcase_entries(fields.take(i)) is None,
    ensures
        spec_decode_testcase_entries(fields) is None,
    decreases fields.len() - i,
{
    if i == fields.len() {
        assert(fields.take(i) =~= fields);
    } else {
        assert(fields.take(i + 1).drop_last() =~= fields.take(i));
        lemma_testcase_entries_none(fields, i + 1);
    }
}

/// Decode a map from testcase number to testcase result.
fn decode_testcase_entries(fields: &Vec<(String, JsonValue)>) -> (r: Option<
    Vec<(i64, IOISolutionTestCaseResult)>,
>)
    ensures
        match r {
            Some(v) => spec_decode_testcase_entries(fields@) == Some(
                v@.map_values(|q: (i64, IOISolutionTestCaseResult)| (q.0, q.1@)),
            ),
            None => spec_decode_testcase_entries(fields@) is None,
        },
{
    let mut out: Vec<(i64, IOISolutionTestCaseResult)> = Vec::new();
    let mut i: usize = 0;
    proof {
        assert(fields@.take(0) =~= Seq::<(String, JsonValue)>::empty());
        assert(out@.map_values(|q: (i64, IOISolutionTestCaseResult)| (q.0, q.1@))
            =~= Seq::<(i64, IOISolutionTestCaseResultModel)>::empty());
    }
    while i < fields.len()
        invariant
            i <= fields@.len(),
            spec_decode_testcase_entries(fields@.take(i as int)) == Some(
                out@.map_values(|q: (i64, IOISolutionTestCaseResult)| (q.0, q.1@)),
            ),
        decreases fields@.len() - i,
    {
        proof {
            assert(fields@.take(i + 1).drop_last() =~= fields@.take(i as int));
            assert(fields@.take(i + 1).last() == fields@[i as int]);
        }
        let k = match parse_int_text(fields[i].0.as_str()) {
            Some(k) => k,
            None => {
                proof {
                    lemma_testcase_entries_none(fields@, i + 1);
                }
                return None;
            },
        };
        let tc = match decode_testcase(&fields[i].1) {
            Some(tc) => tc,
            None => {
                proof {
                    lemma_testcase_entries_none(fields@, i + 1);
                }
                return None;
            },
        };
        let ghost pre = out@;
        out.push((k, tc));
        proof {
            assert(out@.map_values(|q: (i64, IOISolutionTestCaseResult)| (q.0, q.1@))
                =~= pre.map_values(|q: (i64, IOISolutionTestCaseResult)| (q.0, q.1@)).push(
                (k, tc@)));
        }
        i += 1;
    }
    proof {
        assert(fields@.take(fields@.len() as int) =~= fields@);
    }
    Some(out)
}

/// What a map from subtask number to its testcase map denotes.
pub open spec fn spec_decode_testcase_map(fields: Seq<(String, JsonValue)>) -> Option<
    Seq<(i64, Seq<(i64, IOISolutionTestCaseResultModel)>)>,
>
    decreases fields.len(),
{
    if fields.len() == 0 {
        Some(Seq::empty())
    } else {
        match spec_decode_testcase_map(fields.drop_last()) {
            None => None,
            Some(rest) => match spec_seq_int(fields.last().0@) {
                Some(k) => match fields.last().1 {
                    JsonValue::Obj(inner) => match spec_decode_testcase_entries(inner@) {
                        Some(tcs) => Some(rest.push((k, tcs))),
                        None => None,
                    },
                    _ => None,
                },
                None => None,
            },
        }
    }
}

proof fn lemma_testcase_map_none(fields: Seq<(String, JsonValue)>, i: int)
    requires
        0 <= i <= fields.len(),
        spec_decode_testcase_map(fields.take(i)) is None,
    ensures
        spec_decode_testcase_map(fields) is None,
    decreases fields.len() - i,
{
    if i == fields.len() {
        assert(fields.take(i) =~= fields);
    } else {
        assert(fields.take(i + 1).drop_last() =~= fields.take(i));
        lemma_testcase_map_none(fields, i + 1);
    }
}

/// Decode a map from subtask number to its testcase map.
fn decode_testcase_map(fields: &Vec<(String, JsonValue)>) -> (r: Option<
    Vec<(i64, Vec<(i64, IOISolutionTestCaseResult)>)>,
>)
    ensures
        match r {
            Some(v) => spec_decode_testcase_map(fields@) == Some(
                v@.map_values(
                    |p: (i64, Vec<(i64, IOISolutionTestCaseResult)>)|
                        (p.0, p.1@.map_values(|q: (i64, IOISolutionTestCaseResult)| (q.0, q.1@))),
                ),
            ),
            None => spec_decode_testcase_map(fields@) is None,
        },
{
    let mut out: Vec<(i64, Vec<(i64, IOISolutionTestCaseResult)>)> = Vec::new();
    let mut i: usize = 0;
    proof {
        assert(fields@.take(0) =~= Seq::<(String, JsonValue)>::empty());
        assert(out@.map_values(
            |p: (i64, Vec<(i64, IOISolutionTestCaseResult)>)|
                (p.0, p.1@.map_values(|q: (i64, IOISolutionTestCaseResult)| (q.0, q.1@))),
        ) =~= Seq::<(i64, Seq<(i64, IOISolutionTestCaseResultModel)>)>::empty());
    }
    while i < fields.len()
        invariant
            i <= fields@.len(),
            spec_decode_testcase_map(fields@.take(i as int)) == Some(
                out@.map_values(
                    |p: (i64, Vec<(i64, IOISolutionTestCaseResult)>)|
                        (p.0, p.1@.map_values(|q: (i64, IOISolutionTestCaseResult)| (q.0, q.1@))),
                ),
            ),
        decreases fields@.len() - i,
    {
        proof {
            assert(fields@.take(i + 1).drop_last() =~= fields@.take(i as int));
            assert(fields@.take(i + 1).last() == fields@[i as int]);
        }
        let k = match parse_int_text(fields[i].0.as_str()) {
            Some(k) => k,
            None => {
                proof {
                    lemma_testcase_map_none(fields@, i + 1);
                }
                return None;
            },
        };
        let inner = match &fields[i].1 {
            JsonValue::Obj(inner) => inner,
            _ => {
                proof {
                    lemma_testcase_map_none(fields@, i + 1);
                }
                return None;
            },
        };
        let tcs = match decode_testcase_entries(inner) {
            Some(tcs) => tcs,
            None => {
                proof {
                    lemma_testcase_map_none(fields@, i + 1);
                }
                return None;
            },
        };
        let ghost pre = out@;
        let ghost tcs_model = tcs@.map_values(|q: (i64, IOISolutionTestCaseResult)| (q.0, q.1@));
        out.push((k, tcs));
        proof {
            assert(out@.map_values(
                |p: (i64, Vec<(i64, IOISolutionTestCaseResult)>)|
                    (p.0, p.1@.map_values(|q: (i64, IOISolutionTestCaseResult)| (q.0, q.1@))),
            ) =~= pre.map_values(
                |p: (i64, Vec<(i64, IOISolutionTestCaseResult)>)|
                    (p.0, p.1@.map_values(|q: (i64, IOISolutionTestCaseResult)| (q.0, q.1@))),
            ).push((k, tcs_model)));
        }
        i += 1;
    }
    proof {
        assert(fields@.take(fields@.len() as int) =~= fields@);
    }
    Some(out)
}

/// What one compilation record of the terminal result denotes.  A
/// missing or null execution, or a missing or null standard error,
/// stands for an empty captured standard error: the engine treats them
/// alike.
pub open spec fn spec_decode_sfc(v: JsonValue) -> Option<SourceFileCompilationModel> {
    match v {
        JsonValue::Obj(f) => {
            let fs = f@;
            match spec_field_str(fs, "status"@) {
                Some(st) => match spec_compilation_status_of(st) {
                    Some(status) => match spec_obj_get(fs, "compilation"@) {
                        None => Some(
                            SourceFileCompilationModel { status, stderr: Seq::empty() },
                        ),
                        Some(JsonValue::Null) => Some(
                            SourceFileCompilationModel { status, stderr: Seq::empty() },
                        ),
                        Some(JsonValue::Obj(ef)) => match spec_obj_get(ef@, "stderr"@) {
                            None => Some(
                                SourceFileCompilationModel { status, stderr: Seq::empty() },
                            ),
                            Some(JsonValue::Null) => Some(
                                SourceFileCompilationModel { status, stderr: Seq::empty() },
                            ),
                            Some(JsonValue::Str(s)) => Some(
                                SourceFileCompilationModel { status, stderr: s@ },
                            ),
                            Some(_) => None,
                        },
                        Some(_) => None,
                    },
                    None => None,
                },
                None => None,
            }
        },
        _ => None,
    }
}

/// Decode one compilation record.
fn decode_sfc(v: &JsonValue) -> (r: Option<SourceFileCompilation>)
    ensures
        match r {
            Some(c) => spec_decode_sfc(*v) == Some(c@),
            None => spec_decode_sfc(*v) is None,
        },
{
    let f = match v {
        JsonValue::Obj(f) => f,
        _ => { return None; },
    };
    let st = match field_str(f, "status") {
        Some(st) => st,
        None => { return None; },
    };
    let status = match compilation_status_of(st.as_str()) {
        Some(status) => status,
        None => { return None; },
    };
    match obj_get(f, "compilation") {
        None => Some(SourceFileCompilation { status, stderr: String::new() }),
        Some(JsonValue::Null) => Some(SourceFileCompilation { status, stderr: String::new() }),
        Some(JsonValue::Obj(ef)) => match obj_get(ef, "stderr") {
            None => Some(SourceFileCompilation { status, stderr: String::new() }),
            Some(JsonValue::Null) => Some(SourceFileCompilation { status, stderr: String::new() }),
            Some(JsonValue::Str(s)) => Some(SourceFileCompilation { status, stderr: s.clone() }),
            Some(_) => None,
        },
        Some(_) => None,
    }
}

/// What a map from file name to compilation record denotes.
pub open spec fn spec_decode_solutions(fields: Seq<(String, JsonValue)>) -> Option<
    Seq<(Seq<char>, SourceFileCompilationModel)>,
>
    decreases fields.len(),
{
    if fields.len() == 0 {
        Some(Seq::empty())
    } else {
        match spec_decode_solutions(fields.drop_last()) {
            None => None,
            Some(rest) => match spec_decode_sfc(fields.last().1) {
                Some(c) => Some(rest.push((fields.last().0@, c))),
                None => None,
            },
        }
    }
}

proof fn lemma_solutions_none(fields: Seq<(String, JsonValue)>, i: int)
    requires
        0 <= i <= fields.len(),
        spec_decode_solutions(fields.take(i)) is None,
    ensures
        spec_decode_solutions(fields) is None,
    decreases fields.len() - i,
{
    if i == fields.len() {
        assert(fields.take(i) =~= fields);
    } else {
        assert(fields.take(i + 1).drop_last() =~= fields.take(i));
        lemma_solutions_none(fields, i + 1);
    }
}

/// Decode a map from file name to compilation record.
fn decode_solutions(fields: &Vec<(String, JsonValue)>) -> (r: Option<
    Vec<(String, SourceFileCompilation)>,
>)
    ensures
        match r {
            Some(v) => spec_decode_solutions(fields@) == Some(
                v@.map_values(|p: (String, SourceFileCompilation)| (p.0@, p.1@)),
            ),
            None => spec_decode_solutions(fields@) is None,
        },
{
    let mut out: Vec<(String, SourceFileCompilation)> = Vec::new();
    let mut i: usize = 0;
    proof {
        assert(fields@.take(0) =~= Seq::<(String, JsonValue)>::empty());
        assert(out@.map_values(|p: (String, SourceFileCompilation)| (p.0@, p.1@))
            =~= Seq::<(Seq<char>, SourceFileCompilationModel)>::empty());
    }
    while i < fields.len()
        invariant
            i <= fields@.len(),
            spec_decode_solutions(fields@.take(i as int)) == Some(
                out@.map_values(|p: (String, SourceFileCompilation)| (p.0@, p.1@)),
            ),
        decreases fields@.len() - i,
    {
        proof {
            assert(fields@.take(i + 1).drop_last() =~= fields@.take(i as int));
            assert(fields@.take(i + 1).last() == fields@[i as int]);
        }
        let c = match decode_sfc(&fields[i].1) {
            Some(c) => c,
            None => {
                proof {
                    lemma_solutions_none(fields@, i + 1);
                }
                return None;
            },
        };
        let name = fields[i].0.clone();
        let ghost pre = out@;
        let ghost cm = c@;
        let ghost namev = name@;
        out.push((name, c));
        proof {
            assert(out@.map_values(|p: (String, SourceFileCompilation)| (p.0@, p.1@))
                =~= pre.map_values(|p: (String, SourceFileCompilation)| (p.0@, p.1@)).push(
                (namev, cm)));
        }
        i += 1;
    }
    proof {
        assert(fields@.take(fields@.len() as int) =~= fields@);
    }
    Some(out)
}

/// What one testing record of the terminal result denotes.
pub open spec fn spec_decode_solution_results(v: JsonValue) -> Option<IOISolutionResultsModel> {
    match v {
        JsonValue::Obj(f) => {
            let fs = f@;
            match (
                spec_field_milli(fs, "score"@),
                spec_field_obj(fs, "subtask_scores"@),
                spec_field_obj(fs, "subtask_results"@),
                spec_field_obj(fs, "testcase_results"@),
            ) {
                (Some(score), Some(ssf), Some(srf), Some(tcf)) => {
                    match (
                        spec_decode_subtask_scores(ssf),
                        spec_decode_subtask_results(srf),
                        spec_decode_testcase_map(tcf),
                    ) {
                        (Some(subtask_scores), Some(subtask_results), Some(testcase_results)) =>
                            Some(
                            IOISolutionResultsModel {
                                score,
                                subtask_scores,
                                subtask_results,
                                testcase_results,
                            },
                        ),
                        _ => None,
                    }
                },
                _ => None,
            }
        },
        _ => None,
    }
}

/// Decode one testing record.
fn decode_solution_results(v: &JsonValue) -> (r: Option<IOISolutionResults>)
    ensures
        match r {
            Some(sr) => spec_decode_solution_results(*v) == Some(sr@),
            None => spec_decode_solution_results(*v) is None,
        },
{
    let f = match v {
        JsonValue::Obj(f) => f,
        _ => { return None; },
    };
    let score = match field_milli(f, "score") {
        Some(x) => x,
        None => { return None; },
    };
    let ssf = match field_obj(f, "subtask_scores") {
        Some(x) => x,
        None => { return None; },
    };
    let srf = match field_obj(f, "subtask_results") {
        Some(x) => x,
        None => { return None; },
    };
    let tcf = match field_obj(f, "testcase_results") {
        Some(x) => x,
        None => { return None; },
    };
    let subtask_scores = match decode_subtask_scores(ssf) {
        Some(x) => x,
        None => { return None; },
    };
    let subtask_results = match decode_subtask_results(srf) {
        Some(x) => x,
        None => { return None; },
    };
    let testcase_results = match decode_testcase_map(tcf) {
        Some(x) => x,
        None => { return None; },
    };
    Some(IOISolutionResults { score, subtask_scores, subtask_results, testcase_results })
}

/// What a map from file name to testing record denotes.
pub open spec fn spec_decode_testing(fields: Seq<(String, JsonValue)>) -> Option<
    Seq<(Seq<char>, IOISolutionResultsModel)>,
>
    decreases fields.len(),
{
    if fields.len() == 0 {
        Some(Seq::empty())
    } else {
        match spec_decode_testing(fields.drop_last()) {
            None => None,
            Some(rest) => match spec_decode_solution_results(fields.last().1) {
                Some(sr) => Some(rest.push((fields.last().0@, sr))),
                None => None,
            },
        }
    }
}

proof fn lemma_testing_none(fields: Seq<(String, JsonValue)>, i: int)
    requires
        0 <= i <= fields.len(),
        spec_decode_testing(fields.take(i)) is None,
    ensures
        spec_decode_testing(fields) is None,
    decreases fields.len() - i,
{
    if i == fields.len() {
        assert(fields.take(i) =~= fields);
    } else {
        assert(fields.take(i + 1).drop_last() =~= fields.take(i));
        lemma_testing_none(fields, i + 1);
    }
}

/// Decode a map from file name to testing record.
fn decode_testing(fields: &Vec<(String, JsonValue)>) -> (r: Option<
    Vec<(String, IOISolutionResults)>,
>)
    ensures
        match r {
            Some(v) => spec_decode_testing(fields@) == Some(
                v@.map_values(|p: (String, IOISolutionResults)| (p.0@, p.1@)),
            ),
            None => spec_decode_testing(fields@) is None,
        },
{
    let mut out: Vec<(String, IOISolutionResults)> = Vec::new();
    let mut i: usize = 0;
    proof {
        assert(fields@.take(0) =~= Seq::<(String, JsonValue)>::empty());
        assert(out@.map_values(|p: (String, IOISolutionResults)| (p.0@, p.1@))
            =~= Seq::<(Seq<char>, IOISolutionResultsModel)>::empty());
    }
    while i < fields.len()
        invariant
            i <= fields@.len(),
            spec_decode_testing(fields@.take(i as int)) == Some(
                out@.map_values(|p: (String, IOISolutionResults)| (p.0@, p.1@)),
            ),
        decreases fields@.len() - i,
    {
        proof {
            assert(fields@.take(i + 1).drop_last() =~= fields@.take(i as int));
            assert(fields@.take(i + 1).last() == fields@[i as int]);
        }
        let sr = match decode_solution_results(&fields[i].1) {
            Some(sr) => sr,
            None => {
                proof {
                    lemma_testing_none(fields@, i + 1);
                }
                return None;
            },
        };
        let name = fields[i].0.clone();
        let ghost pre = out@;
        let ghost srm = sr@;
        let ghost namev = name@;
        out.push((name, sr));
        proof {
            assert(out@.map_values(|p: (String, IOISolutionResults)| (p.0@, p.1@))
                =~= pre.map_values(|p: (String, IOISolutionResults)| (p.0@, p.1@)).push(
                (namev, srm)));
        }
        i += 1;
    }
    proof {
        assert(fields@.take(fields@.len() as int) =~= fields@);
    }
    Some(out)
}

/// What a terminal result document of the standard format denotes.
pub open spec fn spec_decode_ioi_result(v: JsonValue) -> Option<IOIResultModel> {
    match v {
        JsonValue::Obj(f) => {
            let fs = f@;
            match (spec_field_obj(fs, "solutions"@), spec_field_obj(fs, "testing"@)) {
                (Some(sf), Some(tf)) => match (spec_decode_solutions(sf), spec_decode_testing(
                    tf,
                )) {
                    (Some(solutions), Some(testing)) => Some(
                        IOIResultModel { solutions, testing },
                    ),
                    _ => None,
                },
                _ => None,
            }
        },
        _ => None,
    }
}

/// Decode a terminal result document of the standard format.
fn decode_ioi_result(v: &JsonValue) -> (r: Option<IOIResult>)
    ensures
        match r {
            Some(res) => spec_decode_ioi_result(*v) == Some(res@),
            None => spec_decode_ioi_result(*v) is None,
        },
{
    let f = match v {
        JsonValue::Obj(f) => f,
        _ => { return None; },
    };
    let sf = match field_obj(f, "solutions") {
        Some(x) => x,
        None => { return None; },
    };
    let tf = match field_obj(f, "testing") {
        Some(x) => x,
        None => { return None; },
    };
    let solutions = match decode_solutions(sf) {
        Some(x) => x,
        None => { return None; },
    };
    let testing = match decode_testing(tf) {
        Some(x) => x,
        None => { return None; },
    };
    Some(IOIResult { solutions, testing })
}

/// What a compilation progress document denotes.
pub open spec fn spec_decode_compilation(v: JsonValue) -> Option<CompilationModel> {
    match v {
        JsonValue::Obj(f) => {
            let fs = f@;
            match (spec_field_str(fs, "state"@), spec_field_obj(fs, "data"@)) {
                (Some(st), Some(df)) => {
                    match (
                        spec_state_of(st),
                        spec_field_str(df, "file"@),
                        spec_field_str(df, "path"@),
                    ) {
                        (Some(state), Some(file), Some(path)) => Some(
                            CompilationModel { state, data: CompilationDataModel { file, path } },
                        ),
                        _ => None,
                    }
                },
                _ => None,
            }
        },
        _ => None,
    }
}

/// Decode a compilation progress document.
fn decode_compilation(v: &JsonValue) -> (r: Option<Compilation>)
    ensures
        match r {
            Some(c) => spec_decode_compilation(*v) == Some(c@),
            None => spec_decode_compilation(*v) is None,
        },
{
    let f = match v {
        JsonValue::Obj(f) => f,
        _ => { return None; },
    };
    let st = match field_str(f, "state") {
        Some(x) => x,
        None => { return None; },
    };
    let df = match field_obj(f, "data") {
        Some(x) => x,
        None => { return None; },
    };
    let state = match state_of(st.as_str()) {
        Some(x) => x,
        None => { return None; },
    };
    let file = match field_str(df, "file") {
        Some(x) => x,
        None => { return None; },
    };
    let path = match field_str(df, "path") {
        Some(x) => x,
        None => { return None; },
    };
    Some(Compilation {
        state,
        data: CompilationData { file: file.clone(), path: path.clone() },
    })
}

/// What one JSON document of the stream denotes.
pub open spec fn spec_decode_message(v: JsonValue) -> TaskMakerMessageModel {
    match spec_tag_of(v) {
        Some(tag) => if tag == "compilation"@ {
            match spec_decode_compilation(v) {
                Some(c) => TaskMakerMessageModel::Compilation(c),
                None => TaskMakerMessageModel::Malformed,
            }
        } else if tag == "result"@ {
            match spec_decode_ioi_result(v) {
                Some(r) => TaskMakerMessageModel::IOIResult(r),
                None => TaskMakerMessageModel::Malformed,
            }
        } else if tag == "terry-result"@ {
            TaskMakerMessageModel::TerryResult
        } else if spec_known_tag(tag) {
            TaskMakerMessageModel::Other
        } else {
            TaskMakerMessageModel::Malformed
        },
        None => TaskMakerMessageModel::Malformed,
    }
}

/// Decode one JSON document of the stream.
pub fn decode_message(v: &JsonValue) -> (m: TaskMakerMessage)
    ensures
        m@ == spec_decode_message(*v),
{
    let f = match v {
        JsonValue::Obj(f) => f,
        _ => { return TaskMakerMessage::Malformed; },
    };
    let tag = match field_str(f, "action") {
        Some(tag) => tag,
        None => { return TaskMakerMessage::Malformed; },
    };
    proof {
        assert(spec_tag_of(*v) == Some(tag@));
    }
    let t = tag.as_str();
    if str_eq(t, "compilation") {
        match decode_compilation(v) {
            Some(c) => TaskMakerMessage::Compilation(c),
            None => TaskMakerMessage::Malformed,
        }
    } else if str_eq(t, "result") {
        match decode_ioi_result(v) {
            Some(r) => TaskMakerMessage::IOIResult(r),
            None => TaskMakerMessage::Malformed,
        }
    } else if str_eq(t, "terry-result") {
        TaskMakerMessage::TerryResult
    } else if str_eq(t, "testcase-outcome") || str_eq(t, "subtask-outcome") || str_eq(t, "checking")
        || str_eq(t, "evaluation") || str_eq(t, "validation") || str_eq(t, "generation") || str_eq(
        t,
        "solution",
    ) || str_eq(t, "terry-generation") || str_eq(t, "terry-validation") || str_eq(
        t,
        "terry-evaluation",
    ) || str_eq(t, "terry-checking") || str_eq(t, "terry-solution-outcome") || str_eq(
        t,
        "sanity-check-solution",
    ) || str_eq(t, "sanity-check-validation") || str_eq(t, "statement-compilation") || str_eq(
        t,
        "asy-cropping",
    ) || str_eq(t, "warning") || str_eq(t, "error") {
        TaskMakerMessage::Other
    } else {
        TaskMakerMessage::Malformed
    }
}

/// What one line of the judge's standard output denotes: the decoded
/// message, or a malformed item where the line is not a JSON document of
/// the documented shape.
pub open spec fn spec_decode_line(s: Seq<char>) -> TaskMakerMessageModel {
    match json_of(s) {
        Some(v) => spec_decode_message(v),
        None => TaskMakerMessageModel::Malformed,
    }
}

/// Decode one line of the judge's standard output.
pub fn decode_line(line: &str) -> (m: TaskMakerMessage)
    ensures
        m@ == spec_decode_line(line@),
{
    match decode_json(line) {
        Some(v) => decode_message(&v),
        None => TaskMakerMessage::Malformed,
    }
}

} // verus!
