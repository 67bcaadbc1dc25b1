use tmsocial::requests::DoLogin;
use tmsocial::requests::GetContest;
use tmsocial::requests::GetContests;
use tmsocial::requests::GetParticipation;
use tmsocial::requests::GetParticipationsByUser;
use tmsocial::requests::GetSite;
use tmsocial::requests::GetSubmissions;
use tmsocial::requests::GetTask;
use tmsocial::requests::GetTaskByContest;
use tmsocial::requests::GetUser;
use tmsocial::requests::GetUserByToken;
use tmsocial::requests::GetUserByUsername;
use tmsocial::requests::JoinContest;
use tmsocial::store::Contest;
use tmsocial::store::Site;
use tmsocial::store::Store;
use tmsocial::store::Task;
use tmsocial::store::TaskFormat;
use tmsocial::store::User;

fn small_site() -> Store {
    let mut store = Store::new();
    store.sites.push(Site { id: 1, domain: String::from("example.org") });
    store.contests.push(Contest { id: 1, site_id: 1, name: String::from("contest_a") });
    store.contests.push(Contest { id: 2, site_id: 1, name: String::from("contest_b") });
    store.contests.push(Contest { id: 3, site_id: 2, name: String::from("elsewhere") });
    store.users.push(User {
        id: 7,
        site_id: 1,
        username: String::from("username"),
        login_token: None,
    });
    store.tasks.push(Task {
        id: 4,
        name: String::from("task"),
        title: String::from("A Task"),
        time_limit: 1000,
        memory_limit: 262144,
        max_score: 100000,
        format: TaskFormat::IOI,
        contest_id: 1,
    });
    store.next_id = 50;
    store
}

#[test]
fn site_and_contest_lookups() {
    let store = small_site();
    assert_eq!(store.get_site(&GetSite { host: String::from("example.org") }).unwrap().id, 1);
    assert!(store.get_site(&GetSite { host: String::from("nowhere.test") }).is_none());
    assert_eq!(store.get_contest(&GetContest { id: 2 }).unwrap().name, "contest_b");
    assert!(store.get_contest(&GetContest { id: 9 }).is_none());
    let names: Vec<&str> = store
        .get_contests(&GetContests { site_id: 1 })
        .iter()
        .map(|c| c.name.as_str())
        .collect();
    assert_eq!(names, vec!["contest_a", "contest_b"]);
    assert_eq!(store.get_task(&GetTask { id: 4, contest_id: 1 }).unwrap().title, "A Task");
    assert!(store.get_task(&GetTask { id: 4, contest_id: 2 }).is_none());
}

#[test]
fn join_contest_is_idempotent() {
    let mut store = small_site();
    let first = store.join_contest(&JoinContest { contest_id: 1, user_id: 7 });
    assert!(first.is_some());
    let p = first.unwrap();
    assert_eq!((p.contest_id, p.user_id), (1, 7));
    assert_eq!(
        store.get_participation(&GetParticipation { user_id: 7, contest_id: 1 }),
        Some(p)
    );
    // a second join does not create a second participation
    assert!(store.join_contest(&JoinContest { contest_id: 1, user_id: 7 }).is_none());
    assert_eq!(store.participations.len(), 1);
}

#[test]
fn login_issues_and_keeps_tokens() {
    let mut store = small_site();
    assert!(store.get_user(&GetUser { id: 7 }).is_some());
    assert!(store
        .get_user_by_username(&GetUserByUsername {
            site_id: 1,
            username: String::from("username"),
        })
        .is_some());
    // a user without a token is given the offered one
    let login = DoLogin { site_id: 1, username: String::from("username") };
    let (uid, token) = store.do_login(&login, String::from("tok-1")).unwrap();
    assert_eq!(uid, 7);
    assert_eq!(token, "tok-1");
    assert_eq!(
        store.get_user_by_token(&GetUserByToken { login_token: String::from("tok-1") }).unwrap().id,
        7
    );
    // a user with a token keeps it; the fresh offer is discarded
    let (_, token2) = store.do_login(&login, String::from("tok-2")).unwrap();
    assert_eq!(token2, "tok-1");
    // an unknown name fails
    let bad = DoLogin { site_id: 1, username: String::from("not the right username") };
    assert!(store.do_login(&bad, String::from("tok-3")).is_none());
    // the right name on the wrong site fails
    let wrong_site = DoLogin { site_id: 2, username: String::from("username") };
    assert!(store.do_login(&wrong_site, String::from("tok-4")).is_none());
}

#[test]
fn list_queries_follow_store_order() {
    let mut store = small_site();
    store.join_contest(&JoinContest { contest_id: 1, user_id: 7 });
    store.join_contest(&JoinContest { contest_id: 2, user_id: 7 });
    let parts = store.get_participations_by_user(&GetParticipationsByUser { user_id: 7 });
    assert_eq!(parts.len(), 2);
    assert_eq!(parts[0].contest_id, 1);
    assert_eq!(parts[1].contest_id, 2);
    let tasks = store.get_tasks_by_contest(&GetTaskByContest { contest_id: 1 });
    assert_eq!(tasks.len(), 1);
    assert_eq!(tasks[0].id, 4);
    let subs = store.get_submissions(&GetSubmissions { participation_id: 1, task_id: 4 });
    assert_eq!(subs.len(), 0);
}
