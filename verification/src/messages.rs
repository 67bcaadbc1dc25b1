//! The judge's message vocabulary.
//!
//! The judge prints one tagged JSON document per line.  The engine acts
//! on three tags: `compilation` progress, the terminal `result` of the
//! standard task format, and the terminal `terry-result` of the
//! open-ended format (recognized, but its persistence is unsupported).
//! Every other known tag is progress telemetry the engine ignores; an
//! unknown tag, or a known tag whose acted-upon payload is not of the
//! documented shape, is a malformed message, which is surfaced and never
//! fatal.  The decoded types below hold exactly what the engine reads of
//! each payload: fields it never reads are not modelled and not checked.
//!
//! Scores and times are held in thousandths of their unit (see
//! [`crate::num`]); a score of `87.5` is `87500`.

use crate::json::JsonValue;
use crate::json::spec_obj_get;
use vstd::prelude::*;

verus! {

/// Progress state of a judge work item.
#[derive(PartialEq, Eq, Structural, Clone, Copy, Debug)]
pub enum State {
    Waiting,
    Skipped,
    Start,
    Warning,
    Error,
    Failure,
    Success,
}

/// Outcome of one sandboxed execution.
#[derive(PartialEq, Eq, Structural, Clone, Copy, Debug)]
pub enum ResultStatus {
    Success,
    Signal,
    ReturnCode,
    TimeLimit,
    WallLimit,
    MemoryLimit,
    MissingFiles,
    InvalidRequest,
    InternalError,
}

/// Compilation state of one source file.
#[derive(PartialEq, Eq, Structural, Clone, Copy, Debug)]
pub enum SourceFileCompilationStatus {
    Waiting,
    Compiling,
    Done,
    Failure,
}

/// Terminal status of a solution on one testcase.
#[derive(PartialEq, Eq, Structural, Clone, Copy, Debug)]
pub enum IOISolutionTestCaseStatus {
    Waiting,
    Solving,
    Solved,
    Checking,
    Accepted,
    WrongAnswer,
    Partial,
    Failed,
    Skipped,
}

/// Terminal status of a solution on one subtask.
#[derive(PartialEq, Eq, Structural, Clone, Copy, Debug)]
pub enum IOISolutionSubtaskResult {
    Waiting,
    Running,
    Accepted,
    Partial,
    Rejected,
}

/// Resource usage of one execution, times in thousandths of a second.
#[derive(PartialEq, Eq, Structural, Clone, Copy, Debug)]
pub struct Resources {
    pub cpu_time: u64,
    pub sys_time: u64,
    pub wall_time: u64,
    pub memory: u64,
}

/// What the engine reads of one execution result.
#[derive(PartialEq, Eq, Structural, Clone, Copy, Debug)]
pub struct RunResult {
    pub status: ResultStatus,
    pub resources: Resources,
}

/// Compilation outcome of one source file: its status and the captured
/// compiler standard error (empty where the judge reported none).
#[derive(Debug)]
pub struct SourceFileCompilation {
    pub status: SourceFileCompilationStatus,
    pub stderr: String,
}

pub struct SourceFileCompilationModel {
    pub status: SourceFileCompilationStatus,
    pub stderr: Seq<char>,
}

impl View for SourceFileCompilation {
    type V = SourceFileCompilationModel;

    open spec fn view(&self) -> SourceFileCompilationModel {
        SourceFileCompilationModel { status: self.status, stderr: self.stderr@ }
    }
}

/// Terminal outcome of a solution on one testcase.
#[derive(Debug)]
pub struct IOISolutionTestCaseResult {
    pub status: IOISolutionTestCaseStatus,
    pub result: Vec<RunResult>,
    pub score: u64,
    pub message: String,
}

pub struct IOISolutionTestCaseResultModel {
    pub status: IOISolutionTestCaseStatus,
    pub result: Seq<RunResult>,
    pub score: u64,
    pub message: Seq<char>,
}

impl View for IOISolutionTestCaseResult {
    type V = IOISolutionTestCaseResultModel;

    open spec fn view(&self) -> IOISolutionTestCaseResultModel {
        IOISolutionTestCaseResultModel {
            status: self.status,
            result: self.result@,
            score: self.score,
            message: self.message@,
        }
    }
}

/// Terminal outcome of one solution: its score, and per-subtask and
/// per-testcase breakdowns, each keyed by number.
#[derive(Debug)]
pub struct IOISolutionResults {
    pub score: u64,
    pub subtask_scores: Vec<(i64, u64)>,
    pub subtask_results: Vec<(i64, IOISolutionSubtaskResult)>,
    pub testcase_results: Vec<(i64, Vec<(i64, IOISolutionTestCaseResult)>)>,
}

pub struct IOISolutionResultsModel {
    pub score: u64,
    pub subtask_scores: Seq<(i64, u64)>,
    pub subtask_results: Seq<(i64, IOISolutionSubtaskResult)>,
    pub testcase_results: Seq<(i64, Seq<(i64, IOISolutionTestCaseResultModel)>)>,
}

impl View for IOISolutionResults {
    type V = IOISolutionResultsModel;

    open spec fn view(&self) -> IOISolutionResultsModel {
        IOISolutionResultsModel {
            score: self.score,
            subtask_scores: self.subtask_scores@,
            subtask_results: self.subtask_results@,
            testcase_results: self.testcase_results@.map_values(
                |p: (i64, Vec<(i64, IOISolutionTestCaseResult)>)|
                    (p.0, p.1@.map_values(|q: (i64, IOISolutionTestCaseResult)| (q.0, q.1@))),
            ),
        }
    }
}

/// The terminal result message of the standard task format, keyed by
/// solution file name: the compilation record of every source file, and
/// the testing record of every solution.
#[derive(Debug)]
pub struct IOIResult {
    pub solutions: Vec<(String, SourceFileCompilation)>,
    pub testing: Vec<(String, IOISolutionResults)>,
}

pub struct IOIResultModel {
    pub solutions: Seq<(Seq<char>, SourceFileCompilationModel)>,
    pub testing: Seq<(Seq<char>, IOISolutionResultsModel)>,
}

impl View for IOIResult {
    type V = IOIResultModel;

    open spec fn view(&self) -> IOIResultModel {
        IOIResultModel {
            solutions: self.solutions@.map_values(
                |p: (String, SourceFileCompilation)| (p.0@, p.1@),
            ),
            testing: self.testing@.map_values(|p: (String, IOISolutionResults)| (p.0@, p.1@)),
        }
    }
}

/// Payload of a compilation progress message.
#[derive(Debug)]
pub struct CompilationData {
    pub file: String,
    pub path: String,
}

pub struct CompilationDataModel {
    pub file: Seq<char>,
    pub path: Seq<char>,
}

impl View for CompilationData {
    type V = CompilationDataModel;

    open spec fn view(&self) -> CompilationDataModel {
        CompilationDataModel { file: self.file@, path: self.path@ }
    }
}

/// A compilation progress message.
#[derive(Debug)]
pub struct Compilation {
    pub state: State,
    pub data: CompilationData,
}

pub struct CompilationModel {
    pub state: State,
    pub data: CompilationDataModel,
}

impl View for Compilation {
    type V = CompilationModel;

    open spec fn view(&self) -> CompilationModel {
        CompilationModel { state: self.state, data: self.data@ }
    }
}

/// One decoded line of the judge's stream.
#[derive(Debug)]
pub enum TaskMakerMessage {
    /// Compilation progress of one source file.
    Compilation(Compilation),
    /// Terminal result of the standard task format.
    IOIResult(IOIResult),
    /// Terminal result of the open-ended task format.
    TerryResult,
    /// A recognized progress message the engine does not act on.
    Other,
    /// A line that is not a message of the documented shape.
    Malformed,
}

pub enum TaskMakerMessageModel {
    Compilation(CompilationModel),
    IOIResult(IOIResultModel),
    TerryResult,
    Other,
    Malformed,
}

impl View for TaskMakerMessage {
    type V = TaskMakerMessageModel;

    open spec fn view(&self) -> TaskMakerMessageModel {
        match self {
            TaskMakerMessage::Compilation(c) => TaskMakerMessageModel::Compilation(c@),
            TaskMakerMessage::IOIResult(r) => TaskMakerMessageModel::IOIResult(r@),
            TaskMakerMessage::TerryResult => TaskMakerMessageModel::TerryResult,
            TaskMakerMessage::Other => TaskMakerMessageModel::Other,
            TaskMakerMessage::Malformed => TaskMakerMessageModel::Malformed,
        }
    }
}

/// The progress state a state text denotes.
pub open spec fn spec_state_of(s: Seq<char>) -> Option<State> {
    if s == "WAITING"@ {
        Some(State::Waiting)
    } else if s == "SKIPPED"@ {
        Some(State::Skipped)
    } else if s == "START"@ {
        Some(State::Start)
    } else if s == "WARNING"@ {
        Some(State::Warning)
    } else if s == "ERROR"@ {
        Some(State::Error)
    } else if s == "FAILURE"@ {
        Some(State::Failure)
    } else if s == "SUCCESS"@ {
        Some(State::Success)
    } else {
        None
    }
}

/// The execution status a status text denotes.
pub open spec fn spec_result_status_of(s: Seq<char>) -> Option<ResultStatus> {
    if s == "SUCCESS"@ {
        Some(ResultStatus::Success)
    } else if s == "SIGNAL"@ {
        Some(ResultStatus::Signal)
    } else if s == "RETURN_CODE"@ {
        Some(ResultStatus::ReturnCode)
    } else if s == "TIME_LIMIT"@ {
        Some(ResultStatus::TimeLimit)
    } else if s == "WALL_LIMIT"@ {
        Some(ResultStatus::WallLimit)
    } else if s == "MEMORY_LIMIT"@ {
        Some(ResultStatus::MemoryLimit)
    } else if s == "MISSING_FILES"@ {
        Some(ResultStatus::MissingFiles)
    } else if s == "INVALID_REQUEST"@ {
        Some(ResultStatus::InvalidRequest)
    } else if s == "INTERNAL_ERROR"@ {
        Some(ResultStatus::InternalError)
    } else {
        None
    }
}

/// The compilation status a status text denotes.
pub open spec fn spec_compilation_status_of(s: Seq<char>) -> Option<SourceFileCompilationStatus> {
    if s == "WAITING"@ {
        Some(SourceFileCompilationStatus::Waiting)
    } else if s == "COMPILING"@ {
        Some(SourceFileCompilationStatus::Compiling)
    } else if s == "DONE"@ {
        Some(SourceFileCompilationStatus::Done)
    } else if s == "FAILURE"@ {
        Some(SourceFileCompilationStatus::Failure)
    } else {
        None
    }
}

/// The per-testcase status a status text denotes.
pub open spec fn spec_testcase_status_of(s: Seq<char>) -> Option<IOISolutionTestCaseStatus> {
    if s == "WAITING"@ {
        Some(IOISolutionTestCaseStatus::Waiting)
    } else if s == "SOLVING"@ {
        Some(IOISolutionTestCaseStatus::Solving)
    } else if s == "SOLVED"@ {
        Some(IOISolutionTestCaseStatus::Solved)
    } else if s == "CHECKING"@ {
        Some(IOISolutionTestCaseStatus::Checking)
    } else if s == "ACCEPTED"@ {
        Some(IOISolutionTestCaseStatus::Accepted)
    } else if s == "WRONG_ANSWER"@ {
        Some(IOISolutionTestCaseStatus::WrongAnswer)
    } else if s == "PARTIAL"@ {
        Some(IOISolutionTestCaseStatus::Partial)
    } else if s == "FAILED"@ {
        Some(IOISolutionTestCaseStatus::Failed)
    } else if s == "SKIPPED"@ {
        Some(IOISolutionTestCaseStatus::Skipped)
    } else {
        None
    }
}

/// The per-subtask status a status text denotes.
pub open spec fn spec_subtask_result_of(s: Seq<char>) -> Option<IOISolutionSubtaskResult> {
    if s == "WAITING"@ {
        Some(IOISolutionSubtaskResult::Waiting)
    } else if s == "RUNNING"@ {
        Some(IOISolutionSubtaskResult::Running)
    } else if s == "ACCEPTED"@ {
        Some(IOISolutionSubtaskResult::Accepted)
    } else if s == "PARTIAL"@ {
        Some(IOISolutionSubtaskResult::Partial)
    } else if s == "REJECTED"@ {
        Some(IOISolutionSubtaskResult::Rejected)
    } else {
        None
    }
}

/// Whether a tag is one the judge is documented to print.
pub open spec fn spec_known_tag(s: Seq<char>) -> bool {
    ||| s == "testcase-outcome"@
    ||| s == "subtask-outcome"@
    ||| s == "checking"@
    ||| s == "evaluation"@
    ||| s == "validation"@
    ||| s == "generation"@
    ||| s == "solution"@
    ||| s == "result"@
    ||| s == "terry-generation"@
    ||| s == "terry-validation"@
    ||| s == "terry-evaluation"@
    ||| s == "terry-checking"@
    ||| s == "terry-solution-outcome"@
    ||| s == "terry-result"@
    ||| s == "compilation"@
    ||| s == "sanity-check-solution"@
    ||| s == "sanity-check-validation"@
    ||| s == "statement-compilation"@
    ||| s == "asy-cropping"@
    ||| s == "warning"@
    ||| s == "error"@
}

/// The tag of a message document, where it has one.
pub open spec fn spec_tag_of(v: JsonValue) -> Option<Seq<char>> {
    match v {
        JsonValue::Obj(fields) => match spec_obj_get(fields@, "action"@) {
            Some(JsonValue::Str(tag)) => Some(tag@),
            _ => None,
        },
        _ => None,
    }
}

} // verus!
