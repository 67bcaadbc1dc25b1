//! The typed requests the storage layer answers, and their verified
//! answers over the in-memory store.
//!
//! Each request struct names one query or command; the matching method
//! on [`Store`] says exactly which rows answer it.  The wire and
//! transport around these requests live outside the library.

use crate::store::Contest;
use crate::store::ContestModel;
use crate::store::Participation;
use crate::store::Site;
use crate::store::SiteModel;
use crate::store::Store;
use crate::store::Submission;
use crate::store::SubmissionModel;
use crate::store::Task;
use crate::store::TaskModel;
use crate::store::User;
use crate::store::UserModel;
use vstd::prelude::*;

verus! {

/// Fetch the site serving a host name.
#[derive(Debug)]
pub struct GetSite {
    pub host: String,
}

/// Fetch one contest by id.
#[derive(PartialEq, Eq, Structural, Clone, Copy, Debug)]
pub struct GetContest {
    pub id: i64,
}

/// Fetch every contest of a site.
#[derive(PartialEq, Eq, Structural, Clone, Copy, Debug)]
pub struct GetContests {
    pub site_id: i64,
}

/// Enter a user into a contest.
#[derive(PartialEq, Eq, Structural, Clone, Copy, Debug)]
pub struct JoinContest {
    pub contest_id: i64,
    pub user_id: i64,
}

/// Fetch one user's participation in one contest.
#[derive(PartialEq, Eq, Structural, Clone, Copy, Debug)]
pub struct GetParticipation {
    pub user_id: i64,
    pub contest_id: i64,
}

/// Fetch every participation of a user.
#[derive(PartialEq, Eq, Structural, Clone, Copy, Debug)]
pub struct GetParticipationsByUser {
    pub user_id: i64,
}

/// Fetch every submission of a participation on a task.
#[derive(PartialEq, Eq, Structural, Clone, Copy, Debug)]
pub struct GetSubmissions {
    pub participation_id: i64,
    pub task_id: i64,
}

/// Fetch one submission by id; answered by [`Store::get_submission`].
#[derive(PartialEq, Eq, Structural, Clone, Copy, Debug)]
pub struct GetSubmission {
    pub submission_id: i64,
}

/// Fetch one task of one contest.
#[derive(PartialEq, Eq, Structural, Clone, Copy, Debug)]
pub struct GetTask {
    pub id: i64,
    pub contest_id: i64,
}

/// Fetch every task of a contest.
#[derive(PartialEq, Eq, Structural, Clone, Copy, Debug)]
pub struct GetTaskByContest {
    pub contest_id: i64,
}

/// Fetch one user by id.
#[derive(PartialEq, Eq, Structural, Clone, Copy, Debug)]
pub struct GetUser {
    pub id: i64,
}

/// Fetch one user of a site by name.
#[derive(Debug)]
pub struct GetUserByUsername {
    pub site_id: i64,
    pub username: String,
}

/// Fetch the user a login token belongs to.
#[derive(Debug)]
pub struct GetUserByToken {
    pub login_token: String,
}

/// Log a user of a site in, issuing a token where none is set.
#[derive(Debug)]
pub struct DoLogin {
    pub site_id: i64,
    pub username: String,
}

/// The login request body.
#[derive(Debug)]
pub struct LoginForm {
    pub username: String,
}

/// The first site serving a host.
pub open spec fn spec_site_by_host(sites: Seq<SiteModel>, host: Seq<char>) -> Option<SiteModel>
    decreases sites.len(),
{
    if sites.len() == 0 {
        None
    } else if sites[0].domain == host {
        Some(sites[0])
    } else {
        spec_site_by_host(sites.drop_first(), host)
    }
}

/// The first contest with the given id.
pub open spec fn spec_contest_by_id(contests: Seq<ContestModel>, id: i64) -> Option<ContestModel>
    decreases contests.len(),
{
    if contests.len() == 0 {
        None
    } else if contests[0].id == id {
        Some(contests[0])
    } else {
        spec_contest_by_id(contests.drop_first(), id)
    }
}

/// Every contest of a site, in store order.
pub open spec fn spec_contests_of_site(contests: Seq<ContestModel>, site_id: i64) -> Seq<
    ContestModel,
>
    decreases contests.len(),
{
    if contests.len() == 0 {
        Seq::empty()
    } else {
        let rest = spec_contests_of_site(contests.drop_first(), site_id);
        if contests[0].site_id == site_id {
            seq![contests[0]] + rest
        } else {
            rest
        }
    }
}

/// The first user with the given id.
pub open spec fn spec_user_by_id(users: Seq<UserModel>, id: i64) -> Option<UserModel>
    decreases users.len(),
{
    if users.len() == 0 {
        None
    } else if users[0].id == id {
        Some(users[0])
    } else {
        spec_user_by_id(users.drop_first(), id)
    }
}

/// The first user of the site with the given name.
pub open spec fn spec_user_by_username(
    users: Seq<UserModel>,
    site_id: i64,
    username: Seq<char>,
) -> Option<UserModel>
    decreases users.len(),
{
    if users.len() == 0 {
        None
    } else if users[0].site_id == site_id && users[0].username == username {
        Some(users[0])
    } else {
        spec_user_by_username(users.drop_first(), site_id, username)
    }
}

/// The first user holding the given login token.
pub open spec fn spec_user_by_token(users: Seq<UserModel>, token: Seq<char>) -> Option<UserModel>
    decreases users.len(),
{
    if users.len() == 0 {
        None
    } else if users[0].login_token == Some(token) {
        Some(users[0])
    } else {
        spec_user_by_token(users.drop_first(), token)
    }
}

/// The first participation of the user in the contest.
pub open spec fn spec_participation_of(
    parts: Seq<Participation>,
    user_id: i64,
    contest_id: i64,
) -> Option<Participation>
    decreases parts.len(),
{
    if parts.len() == 0 {
        None
    } else if parts[0].user_id == user_id && parts[0].contest_id == contest_id {
        Some(parts[0])
    } else {
        spec_participation_of(parts.drop_first(), user_id, contest_id)
    }
}

/// The first task of the contest with the given id.
pub open spec fn spec_task_of(tasks: Seq<TaskModel>, id: i64, contest_id: i64) -> Option<TaskModel>
    decreases tasks.len(),
{
    if tasks.len() == 0 {
        None
    } else if tasks[0].id == id && tasks[0].contest_id == contest_id {
        Some(tasks[0])
    } else {
        spec_task_of(tasks.drop_first(), id, contest_id)
    }
}

/// Every task of a contest, in store order.
pub open spec fn spec_tasks_of_contest(tasks: Seq<TaskModel>, contest_id: i64) -> Seq<TaskModel>
    decreases tasks.len(),
{
    if tasks.len() == 0 {
        Seq::empty()
    } else {
        let rest = spec_tasks_of_contest(tasks.drop_first(), contest_id);
        if tasks[0].contest_id == contest_id {
            seq![tasks[0]] + rest
        } else {
            rest
        }
    }
}

/// Every participation of a user, in store order.
pub open spec fn spec_participations_of_user(parts: Seq<Participation>, user_id: i64) -> Seq<
    Participation,
>
    decreases parts.len(),
{
    if parts.len() == 0 {
        Seq::empty()
    } else {
        let rest = spec_participations_of_user(parts.drop_first(), user_id);
        if parts[0].user_id == user_id {
            seq![parts[0]] + rest
        } else {
            rest
        }
    }
}

/// Every submission of a participation on a task, in store order.
pub open spec fn spec_submissions_of(
    subs: Seq<SubmissionModel>,
    participation_id: i64,
    task_id: i64,
) -> Seq<SubmissionModel>
    decreases subs.len(),
{
    if subs.len() == 0 {
        Seq::empty()
    } else {
        let rest = spec_submissions_of(subs.drop_first(), participation_id, task_id);
        if subs[0].participation_id == participation_id && subs[0].task_id == task_id {
            seq![subs[0]] + rest
        } else {
            rest
        }
    }
}

impl Store {
    /// Answer [`GetSite`]: the site serving the host, if one does.
    pub fn get_site(&self, req: &GetSite) -> (r: Option<&Site>)
        ensures
            match r {
                Some(s) => spec_site_by_host(self@.sites, req.host@) == Some(s@),
                None => spec_site_by_host(self@.sites, req.host@) is None,
            },
    {
        let ghost model = self@.sites;
        let mut i: usize = 0;
        proof {
            assert(model.skip(0) =~= model);
        }
        while i < self.sites.len()
            invariant
                i <= self.sites@.len(),
                model == self@.sites,
                model.len() == self.sites@.len(),
                forall|k: int| 0 <= k < model.len() ==> (#[trigger] model[k])
                    == self.sites@[k]@,
                spec_site_by_host(model, req.host@) == spec_site_by_host(
                    model.skip(i as int),
                    req.host@,
                ),
            decreases self.sites@.len() - i,
        {
            proof {
                assert(model.skip(i as int)[0] == model[i as int]);
                assert(model.skip(i as int).drop_first() =~= model.skip(i + 1));
            }
            if crate::json::str_eq(self.sites[i].domain.as_str(), req.host.as_str()) {
                return Some(&self.sites[i]);
            }
            i += 1;
        }
        proof {
            assert(model.skip(model.len() as int) =~= Seq::<SiteModel>::empty());
        }
        None
    }

    /// Answer [`GetContest`]: the contest with the id, if any.
    pub fn get_contest(&self, req: &GetContest) -> (r: Option<&Contest>)
        ensures
            match r {
                Some(c) => spec_contest_by_id(self@.contests, req.id) == Some(c@),
                None => spec_contest_by_id(self@.contests, req.id) is None,
            },
    {
        let ghost model = self@.contests;
        let mut i: usize = 0;
        proof {
            assert(model.skip(0) =~= model);
        }
        while i < self.contests.len()
            invariant
                i <= self.contests@.len(),
                model == self@.contests,
                model.len() == self.contests@.len(),
                forall|k: int| 0 <= k < model.len() ==> (#[trigger] model[k])
                    == self.contests@[k]@,
                spec_contest_by_id(model, req.id) == spec_contest_by_id(
                    model.skip(i as int),
                    req.id,
                ),
            decreases self.contests@.len() - i,
        {
            proof {
                assert(model.skip(i as int)[0] == model[i as int]);
                assert(model.skip(i as int).drop_first() =~= model.skip(i + 1));
            }
            if self.contests[i].id == req.id {
                return Some(&self.contests[i]);
            }
            i += 1;
        }
        proof {
            assert(model.skip(model.len() as int) =~= Seq::<ContestModel>::empty());
        }
        None
    }

    /// Answer [`GetContests`]: every contest of the site, in store order.
    pub fn get_contests(&self, req: &GetContests) -> (r: Vec<&Contest>)
        ensures
            r@.map_values(|c: &Contest| c@) == spec_contests_of_site(self@.contests, req.site_id),
    {
        let ghost model = self@.contests;
        let mut out: Vec<&Contest> = Vec::new();
        let mut i: usize = 0;
        proof {
            assert(model.skip(0) =~= model);
            assert(out@.map_values(|c: &Contest| c@) =~= Seq::<ContestModel>::empty());
            assert(Seq::<ContestModel>::empty() + spec_contests_of_site(model, req.site_id)
                =~= spec_contests_of_site(model, req.site_id));
        }
        while i < self.contests.len()
            invariant
                i <= self.contests@.len(),
                model == self@.contests,
                model.len() == self.contests@.len(),
                forall|k: int| 0 <= k < model.len() ==> (#[trigger] model[k])
                    == self.contests@[k]@,
                spec_contests_of_site(model, req.site_id) == out@.map_values(|c: &Contest| c@)
                    + spec_contests_of_site(model.skip(i as int), req.site_id),
            decreases self.contests@.len() - i,
        {
            proof {
                assert(model.skip(i as int)[0] == model[i as int]);
                assert(model.skip(i as int).drop_first() =~= model.skip(i + 1));
            }
            let ghost pout = out@;
            if self.contests[i].site_id == req.site_id {
                out.push(&self.contests[i]);
                proof {
                    assert(out@.map_values(|c: &Contest| c@) =~= pout.map_values(
                        |c: &Contest| c@,
                    ).push(model[i as int]));
                    assert(pout.map_values(|c: &Contest| c@) + (seq![model[i as int]]
                        + spec_contests_of_site(model.skip(i + 1), req.site_id))
                        =~= out@.map_values(|c: &Contest| c@) + spec_contests_of_site(
                        model.skip(i + 1),
                        req.site_id,
                    ));
                }
            }
            i += 1;
        }
        proof {
            assert(model.skip(model.len() as int) =~= Seq::<ContestModel>::empty());
            assert(out@.map_values(|c: &Contest| c@) + Seq::<ContestModel>::empty()
                =~= out@.map_values(|c: &Contest| c@));
        }
        out
    }

    /// Answer [`GetUser`]: the user with the id, if any.
    pub fn get_user(&self, req: &GetUser) -> (r: Option<&User>)
        ensures
            match r {
                Some(u) => spec_user_by_id(self@.users, req.id) == Some(u@),
                None => spec_user_by_id(self@.users, req.id) is None,
            },
    {
        let ghost model = self@.users;
        let mut i: usize = 0;
        proof {
            assert(model.skip(0) =~= model);
        }
        while i < self.users.len()
            invariant
                i <= self.users@.len(),
                model == self@.users,
                model.len() == self.users@.len(),
                forall|k: int| 0 <= k < model.len() ==> (#[trigger] model[k]) == self.users@[k]@,
                spec_user_by_id(model, req.id) == spec_user_by_id(model.skip(i as int), req.id),
            decreases self.users@.len() - i,
        {
            proof {
                assert(model.skip(i as int)[0] == model[i as int]);
                assert(model.skip(i as int).drop_first() =~= model.skip(i + 1));
            }
            if self.users[i].id == req.id {
                return Some(&self.users[i]);
            }
            i += 1;
        }
        proof {
            assert(model.skip(model.len() as int) =~= Seq::<UserModel>::empty());
        }
        None
    }

    /// Answer [`GetUserByUsername`]: the site's user of that name.
    pub fn get_user_by_username(&self, req: &GetUserByUsername) -> (r: Option<&User>)
        ensures
            match r {
                Some(u) => spec_user_by_username(self@.users, req.site_id, req.username@) == Some(
                    u@,
                ),
                None => spec_user_by_username(self@.users, req.site_id, req.username@) is None,
            },
    {
        let ghost model = self@.users;
        let mut i: usize = 0;
        proof {
            assert(model.skip(0) =~= model);
        }
        while i < self.users.len()
            invariant
                i <= self.users@.len(),
                model == self@.users,
                model.len() == self.users@.len(),
                forall|k: int| 0 <= k < model.len() ==> (#[trigger] model[k]) == self.users@[k]@,
                spec_user_by_username(model, req.site_id, req.username@) == spec_user_by_username(
                    model.skip(i as int),
                    req.site_id,
                    req.username@,
                ),
            decreases self.users@.len() - i,
        {
            proof {
                assert(model.skip(i as int)[0] == model[i as int]);
                assert(model.skip(i as int).drop_first() =~= model.skip(i + 1));
            }
            if self.users[i].site_id == req.site_id && crate::json::str_eq(
                self.users[i].username.as_str(),
                req.username.as_str(),
            ) {
                return Some(&self.users[i]);
            }
            i += 1;
        }
        proof {
            assert(model.skip(model.len() as int) =~= Seq::<UserModel>::empty());
        }
        None
    }

    /// Answer [`GetUserByToken`]: the user holding the login token.
    pub fn get_user_by_token(&self, req: &GetUserByToken) -> (r: Option<&User>)
        ensures
            match r {
                Some(u) => spec_user_by_token(self@.users, req.login_token@) == Some(u@),
                None => spec_user_by_token(self@.users, req.login_token@) is None,
            },
    {
        let ghost model = self@.users;
        let mut i: usize = 0;
        proof {
            assert(model.skip(0) =~= model);
        }
        while i < self.users.len()
            invariant
                i <= self.users@.len(),
                model == self@.users,
                model.len() == self.users@.len(),
                forall|k: int| 0 <= k < model.len() ==> (#[trigger] model[k]) == self.users@[k]@,
                spec_user_by_token(model, req.login_token@) == spec_user_by_token(
                    model.skip(i as int),
                    req.login_token@,
                ),
            decreases self.users@.len() - i,
        {
            proof {
                assert(model.skip(i as int)[0] == model[i as int]);
                assert(model.skip(i as int).drop_first() =~= model.skip(i + 1));
            }
            let hit = match &self.users[i].login_token {
                Some(t) => crate::json::str_eq(t.as_str(), req.login_token.as_str()),
                None => false,
            };
            if hit {
                return Some(&self.users[i]);
            }
            i += 1;
        }
        proof {
            assert(model.skip(model.len() as int) =~= Seq::<UserModel>::empty());
        }
        None
    }

    /// Answer [`GetParticipation`]: the user's participation in the
    /// contest, if entered.
    pub fn get_participation(&self, req: &GetParticipation) -> (r: Option<Participation>)
        ensures
            r == spec_participation_of(self@.participations, req.user_id, req.contest_id),
    {
        let ghost model = self@.participations;
        let mut i: usize = 0;
        proof {
            assert(model.skip(0) =~= model);
        }
        while i < self.participations.len()
            invariant
                i <= self.participations@.len(),
                model == self@.participations,
                spec_participation_of(model, req.user_id, req.contest_id) == spec_participation_of(
                    model.skip(i as int),
                    req.user_id,
                    req.contest_id,
                ),
            decreases self.participations@.len() - i,
        {
            proof {
                assert(model.skip(i as int)[0] == model[i as int]);
                assert(model.skip(i as int).drop_first() =~= model.skip(i + 1));
            }
            if self.participations[i].user_id == req.user_id && self.participations[i].contest_id
                == req.contest_id {
                return Some(self.participations[i]);
            }
            i += 1;
        }
        proof {
            assert(model.skip(model.len() as int) =~= Seq::<Participation>::empty());
        }
        None
    }

    /// Answer [`GetTask`]: the contest's task with the id, if any.
    pub fn get_task(&self, req: &GetTask) -> (r: Option<&Task>)
        ensures
            match r {
                Some(t) => spec_task_of(self@.tasks, req.id, req.contest_id) == Some(t@),
                None => spec_task_of(self@.tasks, req.id, req.contest_id) is None,
            },
    {
        let ghost model = self@.tasks;
        let mut i: usize = 0;
        proof {
            assert(model.skip(0) =~= model);
        }
        while i < self.tasks.len()
            invariant
                i <= self.tasks@.len(),
                model == self@.tasks,
                model.len() == self.tasks@.len(),
                forall|k: int| 0 <= k < model.len() ==> (#[trigger] model[k]) == self.tasks@[k]@,
                spec_task_of(model, req.id, req.contest_id) == spec_task_of(
                    model.skip(i as int),
                    req.id,
                    req.contest_id,
                ),
            decreases self.tasks@.len() - i,
        {
            proof {
                assert(model.skip(i as int)[0] == model[i as int]);
                assert(model.skip(i as int).drop_first() =~= model.skip(i + 1));
            }
            if self.tasks[i].id == req.id && self.tasks[i].contest_id == req.contest_id {
                return Some(&self.tasks[i]);
            }
            i += 1;
        }
        proof {
            assert(model.skip(model.len() as int) =~= Seq::<TaskModel>::empty());
        }
        None
    }

    /// Answer [`GetTaskByContest`]: every task of the contest, in store
    /// order.
    pub fn get_tasks_by_contest(&self, req: &GetTaskByContest) -> (r: Vec<&Task>)
        ensures
            r@.map_values(|t: &Task| t@) == spec_tasks_of_contest(self@.tasks, req.contest_id),
    {
        let ghost model = self@.tasks;
        let mut out: Vec<&Task> = Vec::new();
        let mut i: usize = 0;
        proof {
            assert(model.skip(0) =~= model);
            assert(out@.map_values(|t: &Task| t@) =~= Seq::<TaskModel>::empty());
            assert(Seq::<TaskModel>::empty() + spec_tasks_of_contest(model, req.contest_id)
                =~= spec_tasks_of_contest(model, req.contest_id));
        }
        while i < self.tasks.len()
            invariant
                i <= self.tasks@.len(),
                model == self@.tasks,
                model.len() == self.tasks@.len(),
                forall|k: int| 0 <= k < model.len() ==> (#[trigger] model[k]) == self.tasks@[k]@,
                spec_tasks_of_contest(model, req.contest_id) == out@.map_values(|t: &Task| t@)
                    + spec_tasks_of_contest(model.skip(i as int), req.contest_id),
            decreases self.tasks@.len() - i,
        {
            proof {
                assert(model.skip(i as int)[0] == model[i as int]);
                assert(model.skip(i as int).drop_first() =~= model.skip(i + 1));
            }
            let ghost pout = out@;
            if self.tasks[i].contest_id == req.contest_id {
                out.push(&self.tasks[i]);
                proof {
                    assert(out@.map_values(|t: &Task| t@) =~= pout.map_values(
                        |t: &Task| t@,
                    ).push(model[i as int]));
                    assert(pout.map_values(|t: &Task| t@) + (seq![model[i as int]]
                        + spec_tasks_of_contest(model.skip(i + 1), req.contest_id))
                        =~= out@.map_values(|t: &Task| t@) + spec_tasks_of_contest(
                        model.skip(i + 1),
                        req.contest_id,
                    ));
                }
            }
            i += 1;
        }
        proof {
            assert(model.skip(model.len() as int) =~= Seq::<TaskModel>::empty());
            assert(out@.map_values(|t: &Task| t@) + Seq::<TaskModel>::empty() =~= out@.map_values(
                |t: &Task| t@,
            ));
        }
        out
    }

    /// Answer [`GetParticipationsByUser`]: every participation of the
    /// user, in store order.
    pub fn get_participations_by_user(&self, req: &GetParticipationsByUser) -> (r: Vec<
        Participation,
    >)
        ensures
            r@ == spec_participations_of_user(self@.participations, req.user_id),
    {
        let ghost model = self@.participations;
        let mut out: Vec<Participation> = Vec::new();
        let mut i: usize = 0;
        proof {
            assert(model.skip(0) =~= model);
            assert(out@ + spec_participations_of_user(model, req.user_id)
                =~= spec_participations_of_user(model, req.user_id));
        }
        while i < self.participations.len()
            invariant
                i <= self.participations@.len(),
                model == self@.participations,
                spec_participations_of_user(model, req.user_id) == out@
                    + spec_participations_of_user(model.skip(i as int), req.user_id),
            decreases self.participations@.len() - i,
        {
            proof {
                assert(model.skip(i as int)[0] == model[i as int]);
                assert(model.skip(i as int).drop_first() =~= model.skip(i + 1));
            }
            let ghost pout = out@;
            if self.participations[i].user_id == req.user_id {
                out.push(self.participations[i]);
                proof {
                    assert(pout + (seq![model[i as int]] + spec_participations_of_user(
                        model.skip(i + 1),
                        req.user_id,
                    )) =~= out@ + spec_participations_of_user(model.skip(i + 1), req.user_id));
                }
            }
            i += 1;
        }
        proof {
            assert(model.skip(model.len() as int) =~= Seq::<Participation>::empty());
            assert(out@ + Seq::<Participation>::empty() =~= out@);
        }
        out
    }

    /// Answer [`GetSubmissions`]: every submission of the participation
    /// on the task, in store order.
    pub fn get_submissions(&self, req: &GetSubmissions) -> (r: Vec<&Submission>)
        ensures
            r@.map_values(|s: &Submission| s@) == spec_submissions_of(
                self@.submissions,
                req.participation_id,
                req.task_id,
            ),
    {
        let ghost model = self@.submissions;
        let mut out: Vec<&Submission> = Vec::new();
        let mut i: usize = 0;
        proof {
            assert(model.skip(0) =~= model);
            assert(out@.map_values(|s: &Submission| s@) =~= Seq::<SubmissionModel>::empty());
            assert(Seq::<SubmissionModel>::empty() + spec_submissions_of(
                model,
                req.participation_id,
                req.task_id,
            ) =~= spec_submissions_of(model, req.participation_id, req.task_id));
        }
        while i < self.submissions.len()
            invariant
                i <= self.submissions@.len(),
                model == self@.submissions,
                model.len() == self.submissions@.len(),
                forall|k: int| 0 <= k < model.len() ==> (#[trigger] model[k])
                    == self.submissions@[k]@,
                spec_submissions_of(model, req.participation_id, req.task_id) == out@.map_values(
                    |s: &Submission| s@,
                ) + spec_submissions_of(model.skip(i as int), req.participation_id, req.task_id),
            decreases self.submissions@.len() - i,
        {
            proof {
                assert(model.skip(i as int)[0] == model[i as int]);
                assert(model.skip(i as int).drop_first() =~= model.skip(i + 1));
            }
            let ghost pout = out@;
            if self.submissions[i].participation_id == req.participation_id
                && self.submissions[i].task_id == req.task_id {
                out.push(&self.submissions[i]);
                proof {
                    assert(out@.map_values(|s: &Submission| s@) =~= pout.map_values(
                        |s: &Submission| s@,
                    ).push(model[i as int]));
                    assert(pout.map_values(|s: &Submission| s@) + (seq![model[i as int]]
                        + spec_submissions_of(
                        model.skip(i + 1),
                        req.participation_id,
                        req.task_id,
                    )) =~= out@.map_values(|s: &Submission| s@) + spec_submissions_of(
                        model.skip(i + 1),
                        req.participation_id,
                        req.task_id,
                    ));
                }
            }
            i += 1;
        }
        proof {
            assert(model.skip(model.len() as int) =~= Seq::<SubmissionModel>::empty());
            assert(out@.map_values(|s: &Submission| s@) + Seq::<SubmissionModel>::empty()
                =~= out@.map_values(|s: &Submission| s@));
        }
        out
    }

    /// Answer [`JoinContest`]: insert a participation under a fresh id
    /// and return it, unless the user already participates (nothing then
    /// changes).
    pub fn join_contest(&mut self, req: &JoinContest) -> (r: Option<Participation>)
        requires
            old(self)@.wf(),
            old(self)@.next_id < i64::MAX,
        ensures
            final(self)@.wf(),
            (match spec_participation_of(old(self)@.participations, req.user_id, req.contest_id) {
                Some(_) => r is None && final(self)@ == old(self)@,
                None => {
                    let row = Participation {
                        id: old(self)@.next_id,
                        contest_id: req.contest_id,
                        user_id: req.user_id,
                    };
                    &&& r == Some(row)
                    &&& final(self)@ == (crate::store::StoreModel {
                        participations: old(self)@.participations.push(row),
                        next_id: (old(self)@.next_id + 1) as i64,
                        ..old(self)@
                    })
                },
            }),
    {
        let existing = self.get_participation(&GetParticipation {
            user_id: req.user_id,
            contest_id: req.contest_id,
        });
        match existing {
            Some(_) => None,
            None => {
                let ghost pre = self@;
                let row = Participation {
                    id: self.next_id,
                    contest_id: req.contest_id,
                    user_id: req.user_id,
                };
                self.participations.push(row);
                self.next_id = self.next_id + 1;
                proof {
                    let post = self@;
                    assert(post.participations =~= pre.participations.push(row));
                    assert forall|k: int| 0 <= k < post.participations.len()
                        implies (#[trigger] post.participations[k]).id < post.next_id by {
                        if k < pre.participations.len() {
                            assert(pre.participations[k].id < pre.next_id);
                        }
                    }
                    assert forall|a: int| 0 <= a < post.testcase_results.len()
                        implies crate::store::has_subtask_result(
                        post.subtask_results,
                        (#[trigger] post.testcase_results[a]).subtask_result_id,
                    ) by {
                        assert(pre.testcase_results[a] == post.testcase_results[a]);
                    }
                    assert(post.wf());
                }
                Some(row)
            },
        }
    }

    /// Answer [`DoLogin`]: find the site's user by name; a user with a
    /// token keeps it, one without is given the offered token.  The
    /// returned pair is the user's id and the token now in force; an
    /// unknown name changes nothing and returns nothing.  The token
    /// offered is drawn by the caller.
    pub fn do_login(&mut self, req: &DoLogin, fresh_token: String) -> (r: Option<(i64, String)>)
        ensures
            (match spec_user_by_username(old(self)@.users, req.site_id, req.username@) {
                None => r is None && final(self)@ == old(self)@,
                Some(u) => match u.login_token {
                    Some(t) => r is Some && r.unwrap().0 == u.id && r.unwrap().1@ == t
                        && final(self)@ == old(self)@,
                    None => r is Some && r.unwrap().0 == u.id && r.unwrap().1@ == fresh_token@
                        && spec_user_by_username(
                        final(self)@.users,
                        req.site_id,
                        req.username@,
                    ).unwrap().login_token == Some(fresh_token@),
                },
            }),
    {
        let ghost model = self@.users;
        let mut i: usize = 0;
        proof {
            assert(model.skip(0) =~= model);
        }
        while i < self.users.len()
            invariant
                self@ == old(self)@,
                i <= self.users@.len(),
                model == self@.users,
                model.len() == self.users@.len(),
                forall|k: int| 0 <= k < model.len() ==> (#[trigger] model[k]) == self.users@[k]@,
                forall|j: int| 0 <= j < i ==> !((#[trigger] model[j]).site_id == req.site_id
                    && model[j].username == req.username@),
                spec_user_by_username(model, req.site_id, req.username@) == spec_user_by_username(
                    model.skip(i as int),
                    req.site_id,
                    req.username@,
                ),
            decreases self.users@.len() - i,
        {
            proof {
                assert(model.skip(i as int)[0] == model[i as int]);
                assert(model.skip(i as int).drop_first() =~= model.skip(i + 1));
            }
            if self.users[i].site_id == req.site_id && crate::json::str_eq(
                self.users[i].username.as_str(),
                req.username.as_str(),
            ) {
                let id = self.users[i].id;
                match &self.users[i].login_token {
                    Some(t) => {
                        let token = t.clone();
                        return Some((id, token));
                    },
                    None => {
                        let ghost pre = self@;
                        let issued = fresh_token.clone();
                        self.users[i].login_token = Some(fresh_token);
                        proof {
                            let post = self@;
                            assert(post.users =~= pre.users.update(
                                i as int,
                                UserModel {
                                    login_token: Some(issued@),
                                    ..pre.users[i as int]
                                },
                            ));
                            lemma_username_lookup_update(
                                pre.users,
                                i as int,
                                UserModel {
                                    login_token: Some(issued@),
                                    ..pre.users[i as int]
                                },
                                req.site_id,
                                req.username@,
                            );
                        }
                        return Some((id, issued));
                    },
                }
            }
            i += 1;
        }
        proof {
            assert(model.skip(model.len() as int) =~= Seq::<UserModel>::empty());
        }
        None
    }
}

/// Updating the first matching user in place keeps the lookup pointed at
/// the updated row.
proof fn lemma_username_lookup_update(
    users: Seq<UserModel>,
    i: int,
    row: UserModel,
    site_id: i64,
    username: Seq<char>,
)
    requires
        0 <= i < users.len(),
        users[i].site_id == site_id,
        users[i].username == username,
        row.site_id == site_id,
        row.username == username,
        forall|j: int|
            0 <= j < i ==> !((#[trigger] users[j]).site_id == site_id && users[j].username
                == username),
    ensures
        spec_user_by_username(users.update(i, row), site_id, username) == Some(row),
    decreases users.len(),
{
    let upd = users.update(i, row);
    if i == 0 {
        assert(upd[0] == row);
    } else {
        assert(upd[0] == users[0]);
        assert(upd.drop_first() =~= users.drop_first().update(i - 1, row));
        assert forall|j: int| 0 <= j < i - 1
            implies !((#[trigger] users.drop_first()[j]).site_id == site_id
                && users.drop_first()[j].username == username) by {
            assert(users.drop_first()[j] == users[j + 1]);
        }
        assert(users.drop_first()[i - 1] == users[i]);
        lemma_username_lookup_update(users.drop_first(), i - 1, row, site_id, username);
    }
}

} // verus!
