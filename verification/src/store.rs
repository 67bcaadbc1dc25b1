//! The relational rows the engine reads and writes, and an in-memory
//! store of them.
//!
//! The engine's durable state lives in a relational database owned by an
//! outside collaborator; what the engine itself decides is which rows to
//! read, insert and update, and in what order.  This module holds those
//! rows as plain values and gives each operation an exact contract, so
//! the persistence logic is verified against it.  Scores and times are
//! whole numbers of thousandths of their unit (see [`crate::num`]).

use crate::messages::IOISolutionTestCaseResult;
use vstd::prelude::*;

verus! {

/// The two task formats the judge knows.
#[derive(PartialEq, Eq, Structural, Clone, Copy, Debug)]
pub enum TaskFormat {
    IOI,
    Terry,
}

/// Lifecycle status of a submission.
#[derive(PartialEq, Eq, Structural, Clone, Copy, Debug)]
pub enum SubmissionStatus {
    Waiting,
    CompilationError,
    Success,
    InternalError,
}

#[derive(Debug)]
pub struct Site {
    pub id: i64,
    pub domain: String,
}

pub struct SiteModel {
    pub id: i64,
    pub domain: Seq<char>,
}

impl View for Site {
    type V = SiteModel;

    open spec fn view(&self) -> SiteModel {
        SiteModel { id: self.id, domain: self.domain@ }
    }
}

#[derive(Debug)]
pub struct NewSite {
    pub domain: String,
}

#[derive(Debug)]
pub struct Contest {
    pub id: i64,
    pub site_id: i64,
    pub name: String,
}

pub struct ContestModel {
    pub id: i64,
    pub site_id: i64,
    pub name: Seq<char>,
}

impl View for Contest {
    type V = ContestModel;

    open spec fn view(&self) -> ContestModel {
        ContestModel { id: self.id, site_id: self.site_id, name: self.name@ }
    }
}

#[derive(Debug)]
pub struct NewContest {
    pub site_id: i64,
    pub name: String,
}

#[derive(Debug)]
pub struct User {
    pub id: i64,
    pub site_id: i64,
    pub username: String,
    pub login_token: Option<String>,
}

pub struct UserModel {
    pub id: i64,
    pub site_id: i64,
    pub username: Seq<char>,
    pub login_token: Option<Seq<char>>,
}

impl View for User {
    type V = UserModel;

    open spec fn view(&self) -> UserModel {
        UserModel {
            id: self.id,
            site_id: self.site_id,
            username: self.username@,
            login_token: match self.login_token {
                Some(ref t) => Some(t@),
                None => None,
            },
        }
    }
}

#[derive(Debug)]
pub struct NewUser {
    pub site_id: i64,
    pub username: String,
}

#[derive(PartialEq, Eq, Structural, Clone, Copy, Debug)]
pub struct Participation {
    pub id: i64,
    pub contest_id: i64,
    pub user_id: i64,
}

#[derive(PartialEq, Eq, Structural, Clone, Copy, Debug)]
pub struct NewParticipation {
    pub contest_id: i64,
    pub user_id: i64,
}

#[derive(Debug)]
pub struct Task {
    pub id: i64,
    pub name: String,
    pub title: String,
    pub time_limit: u64,
    pub memory_limit: i64,
    pub max_score: u64,
    pub format: TaskFormat,
    pub contest_id: i64,
}

pub struct TaskModel {
    pub id: i64,
    pub name: Seq<char>,
    pub title: Seq<char>,
    pub time_limit: u64,
    pub memory_limit: i64,
    pub max_score: u64,
    pub format: TaskFormat,
    pub contest_id: i64,
}

impl View for Task {
    type V = TaskModel;

    open spec fn view(&self) -> TaskModel {
        TaskModel {
            id: self.id,
            name: self.name@,
            title: self.title@,
            time_limit: self.time_limit,
            memory_limit: self.memory_limit,
            max_score: self.max_score,
            format: self.format,
            contest_id: self.contest_id,
        }
    }
}

#[derive(Debug)]
pub struct NewTask {
    pub name: String,
    pub title: String,
    pub time_limit: u64,
    pub memory_limit: i64,
    pub max_score: u64,
    pub format: TaskFormat,
    pub contest_id: i64,
}

#[derive(Debug)]
pub struct Submission {
    pub id: i64,
    pub task_id: i64,
    pub files: Vec<String>,
    pub status: SubmissionStatus,
    pub compilation_messages: Option<String>,
    pub score: Option<u64>,
    pub participation_id: i64,
}

pub struct SubmissionModel {
    pub id: i64,
    pub task_id: i64,
    pub files: Seq<Seq<char>>,
    pub status: SubmissionStatus,
    pub compilation_messages: Option<Seq<char>>,
    pub score: Option<u64>,
    pub participation_id: i64,
}

impl View for Submission {
    type V = SubmissionModel;

    open spec fn view(&self) -> SubmissionModel {
        SubmissionModel {
            id: self.id,
            task_id: self.task_id,
            files: self.files@.map_values(|f: String| f@),
            status: self.status,
            compilation_messages: match self.compilation_messages {
                Some(ref m) => Some(m@),
                None => None,
            },
            score: self.score,
            participation_id: self.participation_id,
        }
    }
}

#[derive(Debug)]
pub struct NewSubmission {
    pub files: Vec<String>,
    pub task_id: i64,
    pub participation_id: i64,
}

#[derive(PartialEq, Eq, Structural, Clone, Copy, Debug)]
pub struct Subtask {
    pub id: i64,
    pub task_id: i64,
    pub num: i64,
    pub max_score: u64,
}

#[derive(PartialEq, Eq, Structural, Clone, Copy, Debug)]
pub struct NewSubtask {
    pub task_id: i64,
    pub num: i64,
    pub max_score: u64,
}

#[derive(PartialEq, Eq, Structural, Clone, Copy, Debug)]
pub struct SubtaskResult {
    pub id: i64,
    pub submission_id: i64,
    pub score: u64,
    pub subtask_id: i64,
}

#[derive(PartialEq, Eq, Structural, Clone, Copy, Debug)]
pub struct NewSubtaskResult {
    pub submission_id: i64,
    pub score: u64,
    pub subtask_id: i64,
}

#[derive(Debug)]
pub struct TestcaseResult {
    pub id: i64,
    pub subtask_result_id: i64,
    pub running_time: u64,
    pub memory_usage: u64,
    pub message: String,
    pub score: u64,
    pub num: i64,
}

pub struct TestcaseResultModel {
    pub id: i64,
    pub subtask_result_id: i64,
    pub running_time: u64,
    pub memory_usage: u64,
    pub message: Seq<char>,
    pub score: u64,
    pub num: i64,
}

impl View for TestcaseResult {
    type V = TestcaseResultModel;

    open spec fn view(&self) -> TestcaseResultModel {
        TestcaseResultModel {
            id: self.id,
            subtask_result_id: self.subtask_result_id,
            running_time: self.running_time,
            memory_usage: self.memory_usage,
            message: self.message@,
            score: self.score,
            num: self.num,
        }
    }
}

#[derive(Debug)]
pub struct NewTestcaseResult {
    pub subtask_result_id: i64,
    pub running_time: u64,
    pub memory_usage: u64,
    pub message: String,
    pub score: u64,
    pub num: i64,
}

impl NewTestcaseResult {
    /// Build the row for one testcase of a judged solution.  The running
    /// time is the sum of user and system time.  There is no row where
    /// the judge reported no execution for the testcase (an invariant
    /// violation), or where the summed time does not fit.
    pub fn from_ioi_testcase_result(
        subtask_result_id: i64,
        tc_num: i64,
        testcase: &IOISolutionTestCaseResult,
    ) -> (r: Option<NewTestcaseResult>)
        ensures
            match r {
                Some(row) => {
                    &&& testcase.result@.len() > 0
                    &&& testcase.result@[0].resources.cpu_time
                        + testcase.result@[0].resources.sys_time <= u64::MAX
                    &&& row.subtask_result_id == subtask_result_id
                    &&& row.num == tc_num
                    &&& row.running_time == testcase.result@[0].resources.cpu_time
                        + testcase.result@[0].resources.sys_time
                    &&& row.memory_usage == testcase.result@[0].resources.memory
                    &&& row.message@ == testcase.message@
                    &&& row.score == testcase.score
                },
                None => testcase.result@.len() == 0 || testcase.result@[0].resources.cpu_time
                    + testcase.result@[0].resources.sys_time > u64::MAX,
            },
    {
        if testcase.result.len() == 0 {
            return None;
        }
        let resources = &testcase.result[0].resources;
        let sum = resources.cpu_time as u128 + resources.sys_time as u128;
        if sum > u64::MAX as u128 {
            return None;
        }
        Some(NewTestcaseResult {
            subtask_result_id,
            running_time: resources.cpu_time + resources.sys_time,
            memory_usage: resources.memory,
            message: testcase.message.clone(),
            score: testcase.score,
            num: tc_num,
        })
    }
}

/// The whole relational state the engine touches.
pub struct Store {
    pub sites: Vec<Site>,
    pub contests: Vec<Contest>,
    pub users: Vec<User>,
    pub participations: Vec<Participation>,
    pub tasks: Vec<Task>,
    pub subtasks: Vec<Subtask>,
    pub submissions: Vec<Submission>,
    pub subtask_results: Vec<SubtaskResult>,
    pub testcase_results: Vec<TestcaseResult>,
    pub next_id: i64,
}

pub struct StoreModel {
    pub sites: Seq<SiteModel>,
    pub contests: Seq<ContestModel>,
    pub users: Seq<UserModel>,
    pub participations: Seq<Participation>,
    pub tasks: Seq<TaskModel>,
    pub subtasks: Seq<Subtask>,
    pub submissions: Seq<SubmissionModel>,
    pub subtask_results: Seq<SubtaskResult>,
    pub testcase_results: Seq<TestcaseResultModel>,
    pub next_id: i64,
}

impl View for Store {
    type V = StoreModel;

    open spec fn view(&self) -> StoreModel {
        StoreModel {
            sites: self.sites@.map_values(|x: Site| x@),
            contests: self.contests@.map_values(|x: Contest| x@),
            users: self.users@.map_values(|x: User| x@),
            participations: self.participations@,
            tasks: self.tasks@.map_values(|x: Task| x@),
            subtasks: self.subtasks@,
            submissions: self.submissions@.map_values(|x: Submission| x@),
            subtask_results: self.subtask_results@,
            testcase_results: self.testcase_results@.map_values(|x: TestcaseResult| x@),
            next_id: self.next_id,
        }
    }
}

/// Whether some subtask-result row carries the given id.
pub open spec fn has_subtask_result(srs: Seq<SubtaskResult>, id: i64) -> bool
    decreases srs.len(),
{
    if srs.len() == 0 {
        false
    } else {
        srs.last().id == id || has_subtask_result(srs.drop_last(), id)
    }
}

/// The index of the submission row with the given id, if any.
pub open spec fn spec_submission_index(subs: Seq<SubmissionModel>, id: i64) -> Option<int> {
    if exists|i: int| 0 <= i < subs.len() && subs[i].id == id {
        Some(choose|i: int| 0 <= i < subs.len() && subs[i].id == id)
    } else {
        None
    }
}

impl StoreModel {
    /// Row identifiers are unique where the engine relies on it, every
    /// testcase row points at an existing subtask-result row, and
    /// `next_id` is fresher than every inserted row.
    pub open spec fn wf(self) -> bool {
        &&& forall|i: int, j: int|
            0 <= i < j < self.submissions.len() ==> (#[trigger] self.submissions[i]).id != (
            #[trigger] self.submissions[j]).id
        &&& forall|i: int, j: int|
            0 <= i < j < self.subtask_results.len() ==> (#[trigger] self.subtask_results[i]).id != (
            #[trigger] self.subtask_results[j]).id
        &&& forall|i: int|
            0 <= i < self.testcase_results.len() ==> has_subtask_result(
                self.subtask_results,
                (#[trigger] self.testcase_results[i]).subtask_result_id,
            )
        &&& forall|i: int|
            0 <= i < self.subtask_results.len() ==> (#[trigger] self.subtask_results[i]).id
                < self.next_id
        &&& forall|i: int|
            0 <= i < self.testcase_results.len() ==> (#[trigger] self.testcase_results[i]).id
                < self.next_id
        &&& forall|i: int|
            0 <= i < self.participations.len() ==> (#[trigger] self.participations[i]).id
                < self.next_id
        &&& 0 < self.next_id
    }

    /// The submission row with the given id, if any.
    pub open spec fn submission(self, id: i64) -> Option<SubmissionModel> {
        match spec_submission_index(self.submissions, id) {
            Some(i) => Some(self.submissions[i]),
            None => None,
        }
    }
}



/// A row set's membership, seen through a prefix that ends at a hit.
pub proof fn lemma_has_subtask_result_grows(srs: Seq<SubtaskResult>, i: int, id: i64)
    requires
        0 <= i <= srs.len(),
        has_subtask_result(srs.take(i), id),
    ensures
        has_subtask_result(srs, id),
    decreases srs.len() - i,
{
    if i == srs.len() {
        assert(srs.take(i) =~= srs);
    } else {
        assert(srs.take(i + 1).drop_last() =~= srs.take(i));
        lemma_has_subtask_result_grows(srs, i + 1, id);
    }
}

/// A row set holds every id it holds at some index.
pub proof fn lemma_has_subtask_result_at(srs: Seq<SubtaskResult>, w: int)
    requires
        0 <= w < srs.len(),
    ensures
        has_subtask_result(srs, srs[w].id),
    decreases srs.len(),
{
    if w < srs.len() - 1 {
        lemma_has_subtask_result_at(srs.drop_last(), w);
        assert(srs.drop_last()[w] == srs[w]);
    }
}

/// A submission-row update that keeps every id, and every other table,
/// keeps the store well formed.
pub proof fn lemma_wf_submissions_update(pre: StoreModel, post: StoreModel)
    requires
        pre.wf(),
        post.submissions.len() == pre.submissions.len(),
        forall|k: int|
            0 <= k < post.submissions.len() ==> (#[trigger] post.submissions[k]).id
                == pre.submissions[k].id,
        post.subtask_results == pre.subtask_results,
        post.testcase_results == pre.testcase_results,
        post.participations == pre.participations,
        post.next_id == pre.next_id,
    ensures
        post.wf(),
{
    assert(0 < post.next_id);
    assert forall|a: int, b: int| 0 <= a < b < post.submissions.len()
        implies (#[trigger] post.submissions[a]).id != (#[trigger] post.submissions[b]).id by {
        assert(pre.submissions[a].id != pre.submissions[b].id);
    }
}

/// Membership in a grown row set: a push keeps every earlier id present.
pub proof fn lemma_has_subtask_result_push(srs: Seq<SubtaskResult>, row: SubtaskResult, id: i64)
    ensures
        has_subtask_result(srs.push(row), id) == (row.id == id || has_subtask_result(srs, id)),
{
    assert(srs.push(row).drop_last() =~= srs);
    assert(srs.push(row).last() == row);
}

/// The first subtask of the given task with the given number, if any.
pub open spec fn spec_subtask_by_num(subtasks: Seq<Subtask>, task_id: i64, num: i64) -> Option<
    Subtask,
>
    decreases subtasks.len(),
{
    if subtasks.len() == 0 {
        None
    } else if subtasks[0].task_id == task_id && subtasks[0].num == num {
        Some(subtasks[0])
    } else {
        spec_subtask_by_num(subtasks.drop_first(), task_id, num)
    }
}

/// The first participation row with the given id, if any.
pub open spec fn spec_participation_by_id(parts: Seq<Participation>, id: i64) -> Option<
    Participation,
>
    decreases parts.len(),
{
    if parts.len() == 0 {
        None
    } else if parts[0].id == id {
        Some(parts[0])
    } else {
        spec_participation_by_id(parts.drop_first(), id)
    }
}


/// The store after a submission is marked as an internal error.
pub open spec fn spec_mark_internal_error(store: StoreModel, id: i64) -> StoreModel {
    match spec_submission_index(store.submissions, id) {
        Some(i) => StoreModel {
            submissions: store.submissions.update(
                i,
                SubmissionModel { status: SubmissionStatus::InternalError, ..store.submissions[i] },
            ),
            ..store
        },
        None => store,
    }
}

/// The store after a compilation failure is recorded on a submission.
pub open spec fn spec_set_compilation_failed(store: StoreModel, id: i64, messages: Seq<char>) -> StoreModel {
    match spec_submission_index(store.submissions, id) {
        Some(i) => StoreModel {
            submissions: store.submissions.update(
                i,
                SubmissionModel {
                    status: SubmissionStatus::CompilationError,
                    score: Some(0),
                    compilation_messages: Some(messages),
                    ..store.submissions[i]
                },
            ),
            ..store
        },
        None => store,
    }
}

/// The store after a successful evaluation is recorded on a submission.
pub open spec fn spec_set_submission_result(
    store: StoreModel,
    id: i64,
    score: u64,
    messages: Seq<char>,
) -> StoreModel {
    match spec_submission_index(store.submissions, id) {
        Some(i) => StoreModel {
            submissions: store.submissions.update(
                i,
                SubmissionModel {
                    status: SubmissionStatus::Success,
                    score: Some(score),
                    compilation_messages: Some(messages),
                    ..store.submissions[i]
                },
            ),
            ..store
        },
        None => store,
    }
}

impl Store {
    /// An empty store.
    pub fn new() -> (s: Store)
        ensures
            s@.wf(),
            s@.sites =~= Seq::<SiteModel>::empty(),
            s@.contests =~= Seq::<ContestModel>::empty(),
            s@.users =~= Seq::<UserModel>::empty(),
            s@.participations =~= Seq::<Participation>::empty(),
            s@.tasks =~= Seq::<TaskModel>::empty(),
            s@.subtasks =~= Seq::<Subtask>::empty(),
            s@.submissions =~= Seq::<SubmissionModel>::empty(),
            s@.subtask_results =~= Seq::<SubtaskResult>::empty(),
            s@.testcase_results =~= Seq::<TestcaseResultModel>::empty(),
            s@.next_id == 1,
    {
        Store {
            sites: Vec::new(),
            contests: Vec::new(),
            users: Vec::new(),
            participations: Vec::new(),
            tasks: Vec::new(),
            subtasks: Vec::new(),
            submissions: Vec::new(),
            subtask_results: Vec::new(),
            testcase_results: Vec::new(),
            next_id: 1,
        }
    }

    /// Find the position of the submission with the given id.
    fn submission_position(&self, id: i64) -> (r: Option<usize>)
        requires
            self@.wf(),
        ensures
            match r {
                Some(i) => spec_submission_index(self@.submissions, id) == Some(i as int) && i
                    < self@.submissions.len() && self@.submissions[i as int].id == id,
                None => spec_submission_index(self@.submissions, id) is None,
            },
        decreases 0int,
    {
        let ghost subs = self@.submissions;
        let mut i: usize = 0;
        while i < self.submissions.len()
            invariant
                self@.wf(),
                i <= self.submissions@.len(),
                subs == self@.submissions,
                subs.len() == self.submissions@.len(),
                forall|k: int| 0 <= k < i ==> (#[trigger] subs[k]).id != id,
                forall|k: int| 0 <= k < subs.len() ==> subs[k].id == self.submissions@[k].id,
            decreases self.submissions@.len() - i,
        {
            if self.submissions[i].id == id {
                proof {
                    assert(subs[i as int].id == id);
                    let w = choose|w: int| 0 <= w < subs.len() && subs[w].id == id;
                    assert(w == i) by {
                        if w < i {
                            assert(subs[w].id != subs[i as int].id);
                        } else if i < w {
                            assert(subs[i as int].id != subs[w].id);
                        }
                    }
                }
                return Some(i);
            }
            i += 1;
        }
        proof {
            assert forall|k: int| 0 <= k < subs.len() implies (#[trigger] subs[k]).id != id by {}
        }
        None
    }

    /// Read the submission with the given id.
    pub fn get_submission(&self, id: i64) -> (r: Option<&Submission>)
        requires
            self@.wf(),
        ensures
            match r {
                Some(s) => self@.submission(id) == Some(s@) && s.id == id,
                None => self@.submission(id) is None,
            },
    {
        match self.submission_position(id) {
            Some(i) => Some(&self.submissions[i]),
            None => None,
        }
    }

    /// Whether some subtask-result row carries the given id.
    pub fn has_subtask_result_id(&self, id: i64) -> (r: bool)
        ensures
            r == has_subtask_result(self@.subtask_results, id),
    {
        let ghost srs = self@.subtask_results;
        let mut i: usize = 0;
        proof {
            assert(srs.take(0) =~= Seq::<SubtaskResult>::empty());
        }
        let n = self.subtask_results.len();
        while i < n
            invariant
                i <= n,
                n == self.subtask_results@.len(),
                srs == self@.subtask_results,
                srs.len() == n,
                forall|k: int| 0 <= k < srs.len() ==> srs[k] == self.subtask_results@[k],
                !has_subtask_result(srs.take(i as int), id),
            decreases n - i,
        {
            proof {
                assert(srs.take(i + 1).drop_last() =~= srs.take(i as int));
                assert(srs.take(i + 1).last() == srs[i as int]);
            }
            if self.subtask_results[i].id == id {
                proof {
                    lemma_has_subtask_result_grows(srs, i + 1, id);
                }
                return true;
            }
            i += 1;
        }
        proof {
            assert(srs.take(srs.len() as int) =~= srs);
        }
        false
    }

    /// The relational id of the subtask of the given task with the given
    /// number.
    pub fn subtask_id_by_num(&self, task_id: i64, num: i64) -> (r: Option<i64>)
        ensures
            match r {
                Some(id) => match spec_subtask_by_num(self@.subtasks, task_id, num) {
                    Some(st) => st.id == id,
                    None => false,
                },
                None => spec_subtask_by_num(self@.subtasks, task_id, num) is None,
            },
    {
        let mut i: usize = 0;
        proof {
            assert(self@.subtasks.skip(0) =~= self@.subtasks);
        }
        while i < self.subtasks.len()
            invariant
                i <= self.subtasks@.len(),
                spec_subtask_by_num(self@.subtasks, task_id, num) == spec_subtask_by_num(
                    self@.subtasks.skip(i as int),
                    task_id,
                    num,
                ),
            decreases self.subtasks@.len() - i,
        {
            proof {
                assert(self@.subtasks.skip(i as int).drop_first() =~= self@.subtasks.skip(i + 1));
                assert(self@.subtasks.skip(i as int)[0] == self@.subtasks[i as int]);
            }
            if self.subtasks[i].task_id == task_id && self.subtasks[i].num == num {
                return Some(self.subtasks[i].id);
            }
            i += 1;
        }
        proof {
            assert(self@.subtasks.skip(self@.subtasks.len() as int) =~= Seq::<Subtask>::empty());
        }
        None
    }

    /// The participation row with the given id.
    pub fn participation_by_id(&self, id: i64) -> (r: Option<Participation>)
        ensures
            r == spec_participation_by_id(self@.participations, id),
    {
        let mut i: usize = 0;
        proof {
            assert(self@.participations.skip(0) =~= self@.participations);
        }
        while i < self.participations.len()
            invariant
                i <= self.participations@.len(),
                spec_participation_by_id(self@.participations, id) == spec_participation_by_id(
                    self@.participations.skip(i as int),
                    id,
                ),
            decreases self.participations@.len() - i,
        {
            proof {
                assert(self@.participations.skip(i as int)[0] == self@.participations[i as int]);
                assert(self@.participations.skip(i as int).drop_first()
                    =~= self@.participations.skip(i + 1));
            }
            if self.participations[i].id == id {
                return Some(self.participations[i]);
            }
            i += 1;
        }
        proof {
            assert(self@.participations.skip(self@.participations.len() as int)
                =~= Seq::<Participation>::empty());
        }
        None
    }

    /// Record a compilation failure: the submission is updated in place
    /// to a compilation error with score zero and the captured compiler
    /// messages.  No other row changes; an unknown id changes nothing.
    pub fn set_compilation_failed(&mut self, submission_id: i64, messages: String)
        requires
            old(self)@.wf(),
        ensures
            final(self)@.wf(),
            final(self)@ == spec_set_compilation_failed(old(self)@, submission_id, messages@),
    {
        let pos = self.submission_position(submission_id);
        match pos {
            Some(i) => {
                let ghost pre = self@;
                self.submissions[i].status = SubmissionStatus::CompilationError;
                self.submissions[i].score = Some(0);
                self.submissions[i].compilation_messages = Some(messages);
                proof {
                    assert(self.submissions@.map_values(|x: Submission| x@)
                        =~= pre.submissions.update(
                        i as int,
                        SubmissionModel {
                            status: SubmissionStatus::CompilationError,
                            score: Some(0),
                            compilation_messages: Some(messages@),
                            ..pre.submissions[i as int]
                        },
                    ));
                    let post = self@;
                    assert forall|k: int| 0 <= k < post.submissions.len()
                        implies (#[trigger] post.submissions[k]).id == pre.submissions[k].id by {}
                    lemma_wf_submissions_update(pre, post);
                }
            },
            None => {},
        }
    }

    /// Record a successful evaluation on the submission row itself: the
    /// status becomes success, with the judge-reported score and the
    /// captured compiler messages.  No other row changes; an unknown id
    /// changes nothing.
    pub fn set_submission_result(&mut self, submission_id: i64, score: u64, messages: String)
        requires
            old(self)@.wf(),
        ensures
            final(self)@.wf(),
            final(self)@ == spec_set_submission_result(old(self)@, submission_id, score, messages@),
    {
        let pos = self.submission_position(submission_id);
        match pos {
            Some(i) => {
                let ghost pre = self@;
                self.submissions[i].status = SubmissionStatus::Success;
                self.submissions[i].score = Some(score);
                self.submissions[i].compilation_messages = Some(messages);
                proof {
                    assert(self.submissions@.map_values(|x: Submission| x@)
                        =~= pre.submissions.update(
                        i as int,
                        SubmissionModel {
                            status: SubmissionStatus::Success,
                            score: Some(score),
                            compilation_messages: Some(messages@),
                            ..pre.submissions[i as int]
                        },
                    ));
                    let post = self@;
                    assert forall|k: int| 0 <= k < post.submissions.len()
                        implies (#[trigger] post.submissions[k]).id == pre.submissions[k].id by {}
                    lemma_wf_submissions_update(pre, post);
                }
            },
            None => {},
        }
    }

    /// Insert one subtask-result row under a fresh id and return it.
    pub fn insert_subtask_result(&mut self, row: NewSubtaskResult) -> (id: i64)
        requires
            old(self)@.wf(),
            old(self)@.next_id < i64::MAX,
        ensures
            final(self)@.wf(),
            id == old(self)@.next_id,
            final(self)@ == (StoreModel {
                subtask_results: old(self)@.subtask_results.push(
                    SubtaskResult {
                        id: old(self)@.next_id,
                        submission_id: row.submission_id,
                        score: row.score,
                        subtask_id: row.subtask_id,
                    },
                ),
                next_id: (old(self)@.next_id + 1) as i64,
                ..old(self)@
            }),
    {
        let ghost pre = self@;
        let id = self.next_id;
        self.subtask_results.push(SubtaskResult {
            id,
            submission_id: row.submission_id,
            score: row.score,
            subtask_id: row.subtask_id,
        });
        self.next_id = id + 1;
        proof {
            let post = self@;
            let newrow = SubtaskResult {
                id: pre.next_id,
                submission_id: row.submission_id,
                score: row.score,
                subtask_id: row.subtask_id,
            };
            assert(post.subtask_results =~= pre.subtask_results.push(newrow));
            assert(post.subtask_results.drop_last() =~= pre.subtask_results);
            assert forall|a: int, b: int| 0 <= a < b < post.subtask_results.len()
                implies (#[trigger] post.subtask_results[a]).id != (
                #[trigger] post.subtask_results[b]).id by {
                if b == post.subtask_results.len() - 1 {
                    assert(pre.subtask_results[a].id < pre.next_id);
                }
            }
            assert forall|a: int| 0 <= a < post.testcase_results.len()
                implies has_subtask_result(
                post.subtask_results,
                (#[trigger] post.testcase_results[a]).subtask_result_id,
            ) by {
                lemma_has_subtask_result_push(
                    pre.subtask_results,
                    newrow,
                    post.testcase_results[a].subtask_result_id,
                );
                assert(pre.testcase_results[a] == post.testcase_results[a]);
            }
            assert(post.wf());
        }
        id
    }

    /// Insert one testcase-result row under a fresh id.  The row is
    /// refused, and nothing changes, where it references no existing
    /// subtask-result row.
    pub fn insert_testcase_result(&mut self, row: NewTestcaseResult) -> (ok: bool)
        requires
            old(self)@.wf(),
            old(self)@.next_id < i64::MAX,
        ensures
            final(self)@.wf(),
            ok == has_subtask_result(old(self)@.subtask_results, row.subtask_result_id),
            ok ==> final(self)@ == (StoreModel {
                testcase_results: old(self)@.testcase_results.push(
                    TestcaseResultModel {
                        id: old(self)@.next_id,
                        subtask_result_id: row.subtask_result_id,
                        running_time: row.running_time,
                        memory_usage: row.memory_usage,
                        message: row.message@,
                        score: row.score,
                        num: row.num,
                    },
                ),
                next_id: (old(self)@.next_id + 1) as i64,
                ..old(self)@
            }),
            !ok ==> final(self)@ == old(self)@,
    {
        if !self.has_subtask_result_id(row.subtask_result_id) {
            return false;
        }
        let ghost pre = self@;
        let id = self.next_id;
        let ghost msg = row.message@;
        self.testcase_results.push(TestcaseResult {
            id,
            subtask_result_id: row.subtask_result_id,
            running_time: row.running_time,
            memory_usage: row.memory_usage,
            message: row.message,
            score: row.score,
            num: row.num,
        });
        self.next_id = id + 1;
        proof {
            let post = self@;
            assert(post.testcase_results =~= pre.testcase_results.push(
                TestcaseResultModel {
                    id: pre.next_id,
                    subtask_result_id: row.subtask_result_id,
                    running_time: row.running_time,
                    memory_usage: row.memory_usage,
                    message: msg,
                    score: row.score,
                    num: row.num,
                },
            ));
            assert forall|a: int| 0 <= a < post.testcase_results.len()
                implies has_subtask_result(
                post.subtask_results,
                (#[trigger] post.testcase_results[a]).subtask_result_id,
            ) by {
                if a < pre.testcase_results.len() {
                    assert(post.testcase_results[a] == pre.testcase_results[a]);
                }
            }
            assert(post.wf());
        }
        true
    }
}

/// Mark a submission as failed by an internal error.  Every other row,
/// and every other field of the submission, is untouched; marking an
/// unknown id changes nothing.
#[verifier::rlimit(50)]
pub fn mark_internal_error(store: &mut Store, submission_id: i64)
    requires
        old(store)@.wf(),
    ensures
        final(store)@ == spec_mark_internal_error(old(store)@, submission_id),
        final(store)@.wf(),
{
    let pos = store.submission_position(submission_id);
    match pos {
        Some(i) => {
            let ghost pre = store@;
            store.submissions[i].status = SubmissionStatus::InternalError;
            proof {
                assert(store.submissions@.map_values(|x: Submission| x@) =~= pre.submissions.update(
                    i as int,
                    SubmissionModel {
                        status: SubmissionStatus::InternalError,
                        ..pre.submissions[i as int]
                    },
                ));
                let post = store@;
                assert forall|k: int| 0 <= k < post.submissions.len()
                    implies (#[trigger] post.submissions[k]).id == pre.submissions[k].id by {}
                lemma_wf_submissions_update(pre, post);
            }
        },
        None => {},
    }
}

} // verus!
