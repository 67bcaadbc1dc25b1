use tmsocial::evaluation::evaluate_submission;
use tmsocial::evaluation::pending_submissions;
use tmsocial::evaluation::EvaluationError;
use tmsocial::evaluation::JudgeOutcome;
use tmsocial::events::SubmissionStatus as EventStatus;
use tmsocial::guard::EvaluationGuard;
use tmsocial::store::Participation;
use tmsocial::store::Store;
use tmsocial::store::Submission;
use tmsocial::store::SubmissionStatus;
use tmsocial::store::Subtask;
use tmsocial::store::Task;
use tmsocial::store::TaskFormat;

fn store_with_submission(files: Vec<String>) -> Store {
    let mut store = Store::new();
    store.tasks.push(Task {
        id: 1,
        name: String::from("task"),
        title: String::from("A Task"),
        time_limit: 1000,
        memory_limit: 262144,
        max_score: 100000,
        format: TaskFormat::IOI,
        contest_id: 1,
    });
    store.subtasks.push(Subtask { id: 11, task_id: 1, num: 0, max_score: 50000 });
    store.subtasks.push(Subtask { id: 12, task_id: 1, num: 1, max_score: 50000 });
    store.participations.push(Participation { id: 3, contest_id: 1, user_id: 9 });
    store.submissions.push(Submission {
        id: 5,
        task_id: 1,
        files,
        status: SubmissionStatus::Waiting,
        compilation_messages: None,
        score: None,
        participation_id: 3,
    });
    store.next_id = 100;
    store
}

const SUCCESS_LINE: &str = r#"{"action":"result","solutions":{"sol.cpp":{"status":"DONE","compilation":{"stderr":"warned"}}},"testing":{"sol.cpp":{"score":87.5,"subtask_scores":{"0":50.0,"1":37.5},"subtask_results":{"0":"ACCEPTED","1":"PARTIAL"},"testcase_results":{"0":{"0":{"status":"ACCEPTED","score":1.0,"message":"ok","result":[{"status":"SUCCESS","resources":{"cpu_time":0.5,"sys_time":0.25,"wall_time":0.8,"memory":1024}}]},"1":{"status":"PARTIAL","score":0.5,"message":"half","result":[{"status":"SUCCESS","resources":{"cpu_time":0.125,"sys_time":0.125,"wall_time":0.3,"memory":2048}}]}},"1":{"0":{"status":"WRONG_ANSWER","score":0.0,"message":"bad","result":[{"status":"SUCCESS","resources":{"cpu_time":1.0,"sys_time":0.002,"wall_time":1.1,"memory":512}}]}}}}}}"#;

const COMPILE_FAIL_LINE: &str = r#"{"action":"result","solutions":{"sol.cpp":{"status":"FAILURE","compilation":{"stderr":"boom"}}},"testing":{"sol.cpp":{"score":0.0,"subtask_scores":{},"subtask_results":{},"testcase_results":{}}}}"#;

#[test]
fn wrong_file_count_is_refused() {
    let mut store = store_with_submission(vec![String::from("a.cpp"), String::from("b.cpp")]);
    let mut guard = EvaluationGuard::new();
    let (res, events) = evaluate_submission(
        &mut store,
        &mut guard,
        5,
        "/work/sol.cpp",
        &JudgeOutcome::Spawned(vec![]),
    );
    assert_eq!(res, Err(EvaluationError::WrongNumberOfFiles { number: 2 }));
    assert_eq!(store.submissions[0].status, SubmissionStatus::InternalError);
    assert_eq!(store.subtask_results.len(), 0);
    assert_eq!(store.testcase_results.len(), 0);
    assert_eq!(events.len(), 1);
    assert!(matches!(events[0].status, EventStatus::Error { .. }));
    assert_eq!(events[0].update_id, 0);
    // the guard was never acquired
    assert!(!guard.contains(5));
}

#[test]
fn admission_conflict_has_no_side_effects() {
    let mut store = store_with_submission(vec![String::from("sol.cpp")]);
    let mut guard = EvaluationGuard::new();
    assert!(guard.acquire(5));
    let (res, events) = evaluate_submission(
        &mut store,
        &mut guard,
        5,
        "/work/sol.cpp",
        &JudgeOutcome::Spawned(vec![String::from(SUCCESS_LINE)]),
    );
    assert_eq!(res, Err(EvaluationError::AlreadyEvaluating));
    assert_eq!(store.submissions[0].status, SubmissionStatus::Waiting);
    assert_eq!(store.subtask_results.len(), 0);
    assert_eq!(events.len(), 1);
    assert!(matches!(events[0].status, EventStatus::Error { .. }));
    // only one of the two admissions wins
    assert!(!guard.acquire(5));
    guard.release(5);
    assert!(guard.acquire(5));
}

#[test]
fn compilation_failure_short_circuits() {
    let mut store = store_with_submission(vec![String::from("sol.cpp")]);
    let mut guard = EvaluationGuard::new();
    let (res, events) = evaluate_submission(
        &mut store,
        &mut guard,
        5,
        "/work/sol.cpp",
        &JudgeOutcome::Spawned(vec![String::from(COMPILE_FAIL_LINE)]),
    );
    assert_eq!(res, Ok(0));
    let sub = &store.submissions[0];
    assert_eq!(sub.status, SubmissionStatus::CompilationError);
    assert_eq!(sub.score, Some(0));
    assert_eq!(sub.compilation_messages.as_deref(), Some("boom"));
    assert_eq!(store.subtask_results.len(), 0);
    assert_eq!(store.testcase_results.len(), 0);
    assert!(matches!(events.last().unwrap().status, EventStatus::Done { score: 0 }));
}

#[test]
fn successful_result_is_persisted() {
    let mut store = store_with_submission(vec![String::from("sol.cpp")]);
    let mut guard = EvaluationGuard::new();
    let (res, events) = evaluate_submission(
        &mut store,
        &mut guard,
        5,
        "/work/sol.cpp",
        &JudgeOutcome::Spawned(vec![String::from(SUCCESS_LINE)]),
    );
    assert_eq!(res, Ok(87500));
    let sub = &store.submissions[0];
    assert_eq!(sub.status, SubmissionStatus::Success);
    assert_eq!(sub.score, Some(87500));
    assert_eq!(sub.compilation_messages.as_deref(), Some("warned"));
    // exactly one subtask-result row per scored subtask, with its score
    assert_eq!(store.subtask_results.len(), 2);
    let mut scores: Vec<u64> = store.subtask_results.iter().map(|r| r.score).collect();
    scores.sort();
    assert_eq!(scores, vec![37500, 50000]);
    assert!(store.subtask_results.iter().all(|r| r.submission_id == 5));
    // one testcase row per judged testcase; running time is user + system
    assert_eq!(store.testcase_results.len(), 3);
    let mut times: Vec<u64> = store.testcase_results.iter().map(|r| r.running_time).collect();
    times.sort();
    assert_eq!(times, vec![250, 750, 1002]);
    // every testcase row points at an inserted subtask-result row
    for tc in &store.testcase_results {
        assert!(store.subtask_results.iter().any(|sr| sr.id == tc.subtask_result_id));
    }
    // the timeline ends in the terminal event, numbered zero again
    assert!(matches!(events[0].status, EventStatus::Started));
    assert_eq!(events[0].update_id, 0);
    assert!(matches!(events.last().unwrap().status, EventStatus::Done { score: 87500 }));
    assert_eq!(events.last().unwrap().update_id, 0);
    assert!(!guard.contains(5));
}

#[test]
fn compilation_events_follow_the_stream() {
    let mut store = store_with_submission(vec![String::from("sol.cpp")]);
    let mut guard = EvaluationGuard::new();
    let comp = r#"{"action":"compilation","state":"SUCCESS","data":{"file":"sol.cpp","path":"/work/sol.cpp"}}"#;
    let other_comp = r#"{"action":"compilation","state":"SUCCESS","data":{"file":"gen.cpp","path":"/work/gen.cpp"}}"#;
    let (res, events) = evaluate_submission(
        &mut store,
        &mut guard,
        5,
        "/work/sol.cpp",
        &JudgeOutcome::Spawned(vec![
            String::from(other_comp),
            String::from(comp),
            String::from("garbage"),
            String::from(SUCCESS_LINE),
        ]),
    );
    assert_eq!(res, Ok(87500));
    // Started, Compiled (for our path only), Error (garbage), Done
    assert_eq!(events.len(), 4);
    assert!(matches!(events[0].status, EventStatus::Started));
    assert!(matches!(events[1].status, EventStatus::Compiled { success: true, .. }));
    assert_eq!(events[1].update_id, 1);
    assert!(matches!(events[2].status, EventStatus::Error { .. }));
    assert_eq!(events[2].update_id, 2);
    assert!(matches!(events[3].status, EventStatus::Done { score: 87500 }));
}

#[test]
fn spawn_failure_leaves_the_submission_waiting() {
    let mut store = store_with_submission(vec![String::from("sol.cpp")]);
    let mut guard = EvaluationGuard::new();
    let (res, events) =
        evaluate_submission(&mut store, &mut guard, 5, "/work/sol.cpp", &JudgeOutcome::SpawnFailed);
    assert_eq!(res, Err(EvaluationError::SpawnFailed));
    assert_eq!(store.submissions[0].status, SubmissionStatus::Waiting);
    assert_eq!(events.len(), 1);
    assert!(!guard.contains(5));
}

#[test]
fn unknown_subtask_is_fatal() {
    let mut store = store_with_submission(vec![String::from("sol.cpp")]);
    let mut guard = EvaluationGuard::new();
    let line = r#"{"action":"result","solutions":{"sol.cpp":{"status":"DONE"}},"testing":{"sol.cpp":{"score":1.0,"subtask_scores":{"7":1.0},"subtask_results":{},"testcase_results":{}}}}"#;
    let (res, _) = evaluate_submission(
        &mut store,
        &mut guard,
        5,
        "/work/sol.cpp",
        &JudgeOutcome::Spawned(vec![String::from(line)]),
    );
    assert_eq!(res, Err(EvaluationError::UnknownSubtask { num: 7 }));
    assert_eq!(store.submissions[0].status, SubmissionStatus::InternalError);
    assert_eq!(store.subtask_results.len(), 0);
}

#[test]
fn missing_compilation_record_is_fatal() {
    let mut store = store_with_submission(vec![String::from("sol.cpp")]);
    let mut guard = EvaluationGuard::new();
    let line = r#"{"action":"result","solutions":{},"testing":{}}"#;
    let (res, _) = evaluate_submission(
        &mut store,
        &mut guard,
        5,
        "/work/sol.cpp",
        &JudgeOutcome::Spawned(vec![String::from(line)]),
    );
    assert_eq!(res, Err(EvaluationError::MissingCompilationRecord));
    assert_eq!(store.submissions[0].status, SubmissionStatus::InternalError);
}

#[test]
fn open_ended_results_are_unsupported() {
    let mut store = store_with_submission(vec![String::from("sol.cpp")]);
    let mut guard = EvaluationGuard::new();
    let (res, _) = evaluate_submission(
        &mut store,
        &mut guard,
        5,
        "/work/sol.cpp",
        &JudgeOutcome::Spawned(vec![String::from(r#"{"action":"terry-result"}"#)]),
    );
    assert_eq!(res, Err(EvaluationError::UnsupportedFormat));
    assert_eq!(store.submissions[0].status, SubmissionStatus::InternalError);
}

#[test]
fn stream_without_result_scores_zero_and_stays_waiting() {
    let mut store = store_with_submission(vec![String::from("sol.cpp")]);
    let mut guard = EvaluationGuard::new();
    let (res, events) = evaluate_submission(
        &mut store,
        &mut guard,
        5,
        "/work/sol.cpp",
        &JudgeOutcome::Spawned(vec![]),
    );
    assert_eq!(res, Ok(0));
    assert_eq!(store.submissions[0].status, SubmissionStatus::Waiting);
    assert!(matches!(events.last().unwrap().status, EventStatus::Done { score: 0 }));
}

#[test]
fn sweep_picks_up_waiting_submissions() {
    let mut store = store_with_submission(vec![String::from("sol.cpp")]);
    let pending = pending_submissions(&store);
    assert_eq!(pending, vec![(5, 9)]);
    // evaluating a pending submission with a terminal result leaves it
    // settled; the next sweep finds nothing
    let mut guard = EvaluationGuard::new();
    for (submission_id, _user_id) in pending {
        let (res, _) = evaluate_submission(
            &mut store,
            &mut guard,
            submission_id,
            "/work/sol.cpp",
            &JudgeOutcome::Spawned(vec![String::from(SUCCESS_LINE)]),
        );
        assert!(res.is_ok());
    }
    assert_ne!(store.submissions[0].status, SubmissionStatus::Waiting);
    assert_eq!(pending_submissions(&store), vec![]);
}

#[test]
fn sweep_skips_settled_submissions() {
    let mut store = store_with_submission(vec![String::from("sol.cpp")]);
    store.submissions[0].status = SubmissionStatus::InternalError;
    assert_eq!(pending_submissions(&store), vec![]);
}

#[test]
fn missing_testing_record_is_fatal() {
    let mut store = store_with_submission(vec![String::from("sol.cpp")]);
    let mut guard = EvaluationGuard::new();
    let line = r#"{"action":"result","solutions":{"sol.cpp":{"status":"DONE"}},"testing":{}}"#;
    let (res, _) = evaluate_submission(
        &mut store,
        &mut guard,
        5,
        "/work/sol.cpp",
        &JudgeOutcome::Spawned(vec![String::from(line)]),
    );
    assert_eq!(res, Err(EvaluationError::MissingTestingRecord));
    assert_eq!(store.submissions[0].status, SubmissionStatus::InternalError);
}

#[test]
fn testcase_without_execution_is_fatal() {
    let mut store = store_with_submission(vec![String::from("sol.cpp")]);
    let mut guard = EvaluationGuard::new();
    let line = r#"{"action":"result","solutions":{"sol.cpp":{"status":"DONE"}},"testing":{"sol.cpp":{"score":1.0,"subtask_scores":{"0":1.0},"subtask_results":{},"testcase_results":{"0":{"0":{"status":"ACCEPTED","score":1.0,"message":"ok","result":[]}}}}}}"#;
    let (res, _) = evaluate_submission(
        &mut store,
        &mut guard,
        5,
        "/work/sol.cpp",
        &JudgeOutcome::Spawned(vec![String::from(line)]),
    );
    assert_eq!(res, Err(EvaluationError::MissingTestcaseExecution));
    assert_eq!(store.submissions[0].status, SubmissionStatus::InternalError);
    assert_eq!(store.subtask_results.len(), 0);
    assert_eq!(store.testcase_results.len(), 0);
}

#[test]
fn exhausted_id_space_is_fatal() {
    let mut store = store_with_submission(vec![String::from("sol.cpp")]);
    store.next_id = i64::MAX - 1;
    let mut guard = EvaluationGuard::new();
    let (res, _) = evaluate_submission(
        &mut store,
        &mut guard,
        5,
        "/work/sol.cpp",
        &JudgeOutcome::Spawned(vec![String::from(SUCCESS_LINE)]),
    );
    assert_eq!(res, Err(EvaluationError::IdSpaceExhausted));
    assert_eq!(store.submissions[0].status, SubmissionStatus::InternalError);
    assert_eq!(store.subtask_results.len(), 0);
}
