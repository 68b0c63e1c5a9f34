use faramir::db::{handle_inserts, Db};
use faramir::reports::{project_summary, total_duration};
use faramir::models::project::{Project, Projects};
use faramir::models::timer::{CreateTimer, Timer, Timers};

fn add(db: &mut Db, project: &str, rid: &str, start: i64, end: Option<i64>) {
    let t = CreateTimer { rid: rid.to_string(), start, end, note: None };
    handle_inserts(db, project, None, &t).unwrap();
}

#[test]
fn total_duration_counts_running_until_now() {
    let mut db = Db::new();
    add(&mut db, "p", "a", 100, Some(160));
    add(&mut db, "p", "b", 200, None);
    add(&mut db, "q", "c", 0, Some(1000));
    let id = Project::find_by_name(&db, "p").unwrap().id;
    assert_eq!(total_duration(&db, id, 250), 60 + 50);
}

#[test]
fn project_summary_per_project() {
    let mut db = Db::new();
    add(&mut db, "zeta", "a", 0, Some(10));
    add(&mut db, "alpha", "b", 0, Some(30));
    add(&mut db, "alpha", "c", 5, None);
    Project::insert(&mut db, "empty").unwrap();
    let rows = project_summary(&db, 25);
    let seen: Vec<(String, usize, i128)> = rows.into_iter().map(|(p, n, s)| (p.name, n, s)).collect();
    assert_eq!(
        seen,
        vec![
            ("alpha".to_string(), 2, 30 + 20),
            ("empty".to_string(), 0, 0),
            ("zeta".to_string(), 1, 10),
        ]
    );
}

#[test]
fn timer_elapsed_and_total() {
    let t = Timer { id: 1, rid: "r".to_string(), start: 10, end: None, note: None };
    assert_eq!(t.elapsed(40), 30);
    let u = Timer { id: 2, rid: "s".to_string(), start: 10, end: Some(15), note: None };
    assert_eq!(u.elapsed(40), 5);
    let ts = Timers::new(vec![t, u]);
    assert_eq!(ts.total_seconds(40), 35);
    let wide = Timer { id: 3, rid: "w".to_string(), start: i64::MIN, end: Some(i64::MAX), note: None };
    assert_eq!(wide.elapsed(0), u64::MAX as i128);
}

#[test]
fn projects_push_and_len() {
    let mut ps = Projects::default();
    ps.push(Project { id: 1, name: "a".to_string() });
    assert_eq!(ps.len(), 1);
}
