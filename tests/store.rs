use faramir::db::{
    delete_project, delete_tag, delete_timer, edit_timer, handle_inserts, init_db,
    restart_last_timer, start_timer, stop_timer, stop_timers, Db, StopOutcome,
};
use faramir::errors::ErrorKind;
use faramir::models::project::{Project, Projects};
use faramir::models::tag::{Tag, Tags};
use faramir::models::timer::{CreateTimer, Timer, Timers};

fn timer_for(rid: &str, start: i64, end: Option<i64>) -> CreateTimer {
    CreateTimer { rid: rid.to_string(), start, end, note: None }
}

fn tag_names_of(db: &Db, timer_id: i32) -> Vec<String> {
    let mut names = Tags::for_timer(db, timer_id).unwrap().names();
    names.sort();
    names
}

#[test]
fn insert_project_twice_keeps_one_row() {
    let mut db = Db::new();
    assert_eq!(Project::insert(&mut db, "acme").unwrap(), 1);
    let first = Project::find_by_name(&db, "acme").unwrap().id;
    assert_eq!(Project::insert(&mut db, "acme").unwrap(), 0);
    let second = Project::find_by_name(&db, "acme").unwrap().id;
    assert_eq!(db.projects.len(), 1);
    assert_eq!(first, second);
}

#[test]
fn insert_and_get_id_reuses_existing_project() {
    let mut db = Db::new();
    let a = Project::insert_and_get_id(&mut db, "alpha").unwrap();
    let b = Project::insert_and_get_id(&mut db, "beta").unwrap();
    let again = Project::insert_and_get_id(&mut db, "alpha").unwrap();
    assert_eq!(a, 1);
    assert_eq!(b, 2);
    assert_eq!(again, a);
}

#[test]
fn start_timer_then_running_has_project_and_tags() {
    let mut db = Db::new();
    let rid = start_timer(&mut db, "acme", Some("t1,t2"), None, 1000).unwrap();
    let running = Timers::currently_running(&db).unwrap();
    assert_eq!(running.len(), 1);
    let timer = &running.0[0];
    assert_eq!(timer.rid, rid);
    assert_eq!(Project::for_timer(&db, timer.id).unwrap().name, "acme");
    assert_eq!(tag_names_of(&db, timer.id), vec!["t1".to_string(), "t2".to_string()]);
}

#[test]
fn start_timer_gives_fresh_rid() {
    let mut db = Db::new();
    let rid = start_timer(&mut db, "acme", None, Some("n".to_string()), 1000).unwrap();
    assert_eq!(rid.chars().count(), 12);
    assert!(rid.chars().all(|c| c.is_ascii_alphanumeric()));
    let t = Timer::find_by_rid(&db, &rid).unwrap();
    assert_eq!(t.note, Some("n".to_string()));
    assert_eq!(t.end, None);
    assert_eq!(t.start, 1000);
}

#[test]
fn stop_timer_sets_end_and_leaves_running() {
    let mut db = Db::new();
    handle_inserts(&mut db, "acme", None, &timer_for("r1", 1000, None)).unwrap();
    stop_timer(&mut db, "r1", 1500).unwrap();
    let t = Timer::find_by_rid(&db, "r1").unwrap();
    assert_eq!(t.end, Some(1500));
    assert!(t.end.unwrap() >= t.start);
    assert_eq!(Timers::currently_running(&db).unwrap().len(), 0);
}

#[test]
fn stop_timer_on_unknown_or_stopped_is_not_found() {
    let mut db = Db::new();
    handle_inserts(&mut db, "acme", None, &timer_for("r1", 10, Some(20))).unwrap();
    assert!(matches!(stop_timer(&mut db, "r1", 30).unwrap_err().0, ErrorKind::NotFound));
    assert!(matches!(stop_timer(&mut db, "zz", 30).unwrap_err().0, ErrorKind::NotFound));
    assert_eq!(Timer::find_by_rid(&db, "r1").unwrap().end, Some(20));
}

#[test]
fn delete_project_confirmed_keeps_timers() {
    let mut db = Db::new();
    handle_inserts(&mut db, "acme", None, &timer_for("r1", 10, Some(20))).unwrap();
    handle_inserts(&mut db, "acme", None, &timer_for("r2", 30, Some(40))).unwrap();
    handle_inserts(&mut db, "bolt", None, &timer_for("r3", 50, Some(60))).unwrap();
    delete_project(&mut db, "acme", true).unwrap();
    assert!(matches!(Project::find_by_name(&db, "acme").unwrap_err().0, ErrorKind::NotFound));
    assert_eq!(db.projects_timers.len(), 1);
    assert!(Timer::find_by_rid(&db, "r1").is_ok());
    assert!(Timer::find_by_rid(&db, "r2").is_ok());
    assert_eq!(db.timers.len(), 3);
}

#[test]
fn delete_project_unconfirmed_is_no_op() {
    let mut db = Db::new();
    handle_inserts(&mut db, "acme", None, &timer_for("r1", 10, Some(20))).unwrap();
    delete_project(&mut db, "acme", false).unwrap();
    assert!(Project::find_by_name(&db, "acme").is_ok());
    assert_eq!(db.projects_timers.len(), 1);
}

#[test]
fn delete_project_without_timers_needs_no_confirmation() {
    let mut db = Db::new();
    Project::insert(&mut db, "lonely").unwrap();
    delete_project(&mut db, "lonely", false).unwrap();
    assert_eq!(db.projects.len(), 0);
}

#[test]
fn delete_missing_project_is_not_found() {
    let mut db = Db::new();
    assert!(matches!(delete_project(&mut db, "nope", true).unwrap_err().0, ErrorKind::NotFound));
}

#[test]
fn delete_tag_removes_links_only() {
    let mut db = Db::new();
    handle_inserts(&mut db, "acme", Some("a,b"), &timer_for("r1", 10, Some(20))).unwrap();
    delete_tag(&mut db, "a", true).unwrap();
    assert!(matches!(Tag::find_by_name(&db, "a").unwrap_err().0, ErrorKind::NotFound));
    assert_eq!(db.tags_timers.len(), 1);
    assert_eq!(db.timers.len(), 1);
    let t = Timer::find_by_rid(&db, "r1").unwrap();
    assert_eq!(tag_names_of(&db, t.id), vec!["b".to_string()]);
}

#[test]
fn delete_timer_removes_its_links() {
    let mut db = Db::new();
    handle_inserts(&mut db, "acme", Some("a"), &timer_for("r1", 10, Some(20))).unwrap();
    handle_inserts(&mut db, "acme", Some("a"), &timer_for("r2", 30, Some(40))).unwrap();
    delete_timer(&mut db, "r1").unwrap();
    assert!(matches!(Timer::find_by_rid(&db, "r1").unwrap_err().0, ErrorKind::NotFound));
    assert_eq!(db.projects_timers.len(), 1);
    assert_eq!(db.tags_timers.len(), 1);
    assert!(Project::find_by_name(&db, "acme").is_ok());
    assert!(matches!(delete_timer(&mut db, "r1").unwrap_err().0, ErrorKind::NotFound));
}

#[test]
fn batch_insert_repeated_name_once() {
    let mut db = Db::new();
    let names = vec!["a".to_string(), "b".to_string(), "a".to_string()];
    let ids = Tag::batch_insert(&mut db, names).unwrap();
    assert_eq!(ids, vec![1, 2]);
    assert_eq!(Tag::find_by_name(&db, "a").unwrap().id, 1);
    assert_eq!(Tag::find_by_name(&db, "b").unwrap().id, 2);
    assert_eq!(db.tags.len(), 2);
}

#[test]
fn batch_insert_keeps_existing_tags() {
    let mut db = Db::new();
    Tag::insert(&mut db, "b").unwrap();
    let ids = Tag::batch_insert(&mut db, vec!["a".to_string(), "b".to_string()]).unwrap();
    assert_eq!(ids, vec![1, 2]);
    assert_eq!(Tag::find_by_name(&db, "a").unwrap().id, 2);
}

#[test]
fn history_limit_three() {
    let mut db = Db::new();
    for i in 0..5 {
        let rid = format!("f{}", i);
        handle_inserts(&mut db, "p", None, &timer_for(&rid, i * 10, Some(i * 10 + 5))).unwrap();
    }
    handle_inserts(&mut db, "p", None, &timer_for("run", 100, None)).unwrap();
    let h = Timers::limit(&db, 3).unwrap();
    assert_eq!(h.len(), 3);
    assert!(h.0.iter().all(|t| t.end.is_some()));
    assert_eq!(h.0[0].rid, "f0");
    assert_eq!(Timers::limit(&db, 10).unwrap().len(), 5);
    assert_eq!(Timers::finished(&db).unwrap().len(), 5);
    assert_eq!(Timers::all(&db).unwrap().len(), 6);
}

#[test]
fn edit_timer_round_trip() {
    let mut db = Db::new();
    handle_inserts(&mut db, "p", None, &timer_for("r1", 100, Some(200))).unwrap();
    let mut t = Timer::find_by_rid(&db, "r1").unwrap();
    let id = t.id;
    t.start = 50;
    t.end = Some(300);
    t.note = Some("fixed".to_string());
    edit_timer(&mut db, "r1", &t).unwrap();
    let back = Timer::find_by_rid(&db, "r1").unwrap();
    assert_eq!(back.id, id);
    assert_eq!(back.rid, "r1");
    assert_eq!(back.start, 50);
    assert_eq!(back.end, Some(300));
    assert_eq!(back.note, Some("fixed".to_string()));
}

#[test]
fn edit_timer_with_changed_id_is_validation_error() {
    let mut db = Db::new();
    handle_inserts(&mut db, "p", None, &timer_for("r1", 100, Some(200))).unwrap();
    let mut t = Timer::find_by_rid(&db, "r1").unwrap();
    t.id += 7;
    t.start = 1;
    assert!(matches!(edit_timer(&mut db, "r1", &t).unwrap_err().0, ErrorKind::Validation));
    assert_eq!(Timer::find_by_rid(&db, "r1").unwrap().start, 100);
    assert!(matches!(edit_timer(&mut db, "nope", &t).unwrap_err().0, ErrorKind::NotFound));
}

#[test]
fn duplicate_rid_is_conflict_and_writes_nothing() {
    let mut db = Db::new();
    handle_inserts(&mut db, "acme", None, &timer_for("same", 1, None)).unwrap();
    let r = handle_inserts(&mut db, "bolt", Some("x"), &timer_for("same", 2, None));
    assert!(matches!(r.unwrap_err().0, ErrorKind::Conflict));
    assert_eq!(db.projects.len(), 1);
    assert_eq!(db.tags.len(), 0);
    assert_eq!(db.timers.len(), 1);
}

#[test]
fn rename_project_and_conflict() {
    let mut db = Db::new();
    Project::insert(&mut db, "a").unwrap();
    Project::insert(&mut db, "b").unwrap();
    let a = Project::find_by_name(&db, "a").unwrap();
    assert!(matches!(a.update(&mut db, "b").unwrap_err().0, ErrorKind::Conflict));
    a.update(&mut db, "c").unwrap();
    assert_eq!(Project::find_by_name(&db, "c").unwrap().id, a.id);
    assert!(Project::find_by_name(&db, "a").is_err());
    assert!(matches!(a.update(&mut db, "d").unwrap_err().0, ErrorKind::NotFound));
}

#[test]
fn rename_tag_to_same_name_is_fine() {
    let mut db = Db::new();
    Tag::insert(&mut db, "x").unwrap();
    let x = Tag::find_by_name(&db, "x").unwrap();
    x.update(&mut db, "x").unwrap();
    x.update(&mut db, "y").unwrap();
    assert_eq!(Tag::find_by_name(&db, "y").unwrap().id, x.id);
}

#[test]
fn projects_listed_by_name() {
    let mut db = Db::new();
    for n in ["pear", "apple", "Zed", "app"] {
        Project::insert(&mut db, n).unwrap();
    }
    let names: Vec<String> = Projects::all(&db).unwrap().0.into_iter().map(|p| p.name).collect();
    assert_eq!(names, vec!["Zed", "app", "apple", "pear"]);
    let tags = Tags::all(&db).unwrap();
    assert_eq!(tags.len(), 0);
}

#[test]
fn find_project_by_id_and_timer() {
    let mut db = Db::new();
    handle_inserts(&mut db, "acme", None, &timer_for("r1", 1, None)).unwrap();
    assert_eq!(Project::find(&db, 1).unwrap().name, "acme");
    assert!(matches!(Project::find(&db, 9).unwrap_err().0, ErrorKind::NotFound));
    assert!(matches!(Project::for_timer(&db, 9).unwrap_err().0, ErrorKind::NotFound));
}

#[test]
fn timers_for_project_and_tag() {
    let mut db = Db::new();
    handle_inserts(&mut db, "acme", Some("a"), &timer_for("r1", 1, Some(2))).unwrap();
    handle_inserts(&mut db, "bolt", Some("a,b"), &timer_for("r2", 3, Some(4))).unwrap();
    assert_eq!(Timers::for_project(&db, 1).unwrap().len(), 1);
    assert_eq!(Timers::for_tag(&db, 1).unwrap().len(), 2);
    assert_eq!(Timers::for_tag(&db, 2).unwrap().0[0].rid, "r2");
}

#[test]
fn last_timer_and_empty_store() {
    let mut db = Db::new();
    assert!(matches!(Timer::last(&db).unwrap_err().0, ErrorKind::NotFound));
    handle_inserts(&mut db, "p", None, &timer_for("r1", 1, None)).unwrap();
    handle_inserts(&mut db, "p", None, &timer_for("r2", 2, None)).unwrap();
    assert_eq!(Timer::last(&db).unwrap().rid, "r2");
}

#[test]
fn find_by_column() {
    let mut db = Db::new();
    handle_inserts(&mut db, "p", None, &timer_for("r1", 1, None)).unwrap();
    assert_eq!(Timer::find_by(&db, "rid", "r1").unwrap().start, 1);
    assert!(matches!(Timer::find_by(&db, "note", "r1").unwrap_err().0, ErrorKind::Validation));
}

#[test]
fn restart_last_timer_copies_project_and_tags() {
    let mut db = Db::new();
    handle_inserts(&mut db, "work", Some("t2,t1"), &timer_for("r1", 1, Some(5))).unwrap();
    let rid = restart_last_timer(&mut db, Some("again".to_string()), 50).unwrap();
    let t = Timer::find_by_rid(&db, &rid).unwrap();
    assert_eq!(Project::for_timer(&db, t.id).unwrap().name, "work");
    assert_eq!(tag_names_of(&db, t.id), vec!["t1".to_string(), "t2".to_string()]);
    assert_eq!(db.tags.len(), 2);
    assert_eq!(t.note, Some("again".to_string()));
    assert_eq!(t.start, 50);
}

#[test]
fn restart_on_empty_store_is_not_found() {
    let mut db = Db::new();
    assert!(matches!(restart_last_timer(&mut db, None, 50).unwrap_err().0, ErrorKind::NotFound));
}

#[test]
fn stop_timers_outcomes() {
    let mut db = Db::new();
    assert!(matches!(stop_timers(&mut db, false, None, 10).unwrap(), StopOutcome::NoneRunning));
    handle_inserts(&mut db, "p", None, &timer_for("r1", 1, None)).unwrap();
    handle_inserts(&mut db, "p", None, &timer_for("r2", 2, None)).unwrap();
    assert!(matches!(stop_timers(&mut db, false, None, 10).unwrap(), StopOutcome::Ambiguous));
    assert!(matches!(stop_timers(&mut db, false, Some("zz"), 10).unwrap(), StopOutcome::NoMatch));
    match stop_timers(&mut db, false, Some("r2"), 10).unwrap() {
        StopOutcome::Stopped(rids) => assert_eq!(rids, vec!["r2".to_string()]),
        other => panic!("unexpected {:?}", other),
    }
    match stop_timers(&mut db, false, None, 11).unwrap() {
        StopOutcome::Stopped(rids) => assert_eq!(rids, vec!["r1".to_string()]),
        other => panic!("unexpected {:?}", other),
    }
    assert_eq!(Timer::find_by_rid(&db, "r1").unwrap().end, Some(11));
}

#[test]
fn stop_all_stops_every_running_timer() {
    let mut db = Db::new();
    handle_inserts(&mut db, "p", None, &timer_for("r1", 1, None)).unwrap();
    handle_inserts(&mut db, "p", None, &timer_for("r2", 2, Some(3))).unwrap();
    handle_inserts(&mut db, "p", None, &timer_for("r3", 4, None)).unwrap();
    match stop_timers(&mut db, true, None, 9).unwrap() {
        StopOutcome::Stopped(rids) => assert_eq!(rids, vec!["r1".to_string(), "r3".to_string()]),
        other => panic!("unexpected {:?}", other),
    }
    assert_eq!(Timer::find_by_rid(&db, "r2").unwrap().end, Some(3));
    assert_eq!(Timers::currently_running(&db).unwrap().len(), 0);
}

#[test]
fn timer_update_and_stop_write_through() {
    let mut db = Db::new();
    handle_inserts(&mut db, "p", None, &timer_for("r1", 5, None)).unwrap();
    let mut t = Timer::find_by_rid(&db, "r1").unwrap();
    t.stop(&mut db, 50).unwrap();
    assert_eq!(t.end, Some(50));
    assert_eq!(Timer::find_by_rid(&db, "r1").unwrap().end, Some(50));
}

#[test]
fn init_db_accepts_valid_rows() {
    let projects = vec![Project { id: 1, name: "p".to_string() }];
    let tags = vec![Tag { id: 3, name: "t".to_string() }];
    let timers = vec![Timer { id: 2, rid: "r".to_string(), start: 0, end: None, note: None }];
    let db = init_db(projects, tags, timers, vec![(1, 2)], vec![(3, 2)]).unwrap();
    assert_eq!(Timer::find_by_rid(&db, "r").unwrap().id, 2);
}

#[test]
fn init_db_rejects_duplicate_names() {
    let projects = vec![
        Project { id: 1, name: "p".to_string() },
        Project { id: 2, name: "p".to_string() },
    ];
    let r = init_db(projects, vec![], vec![], vec![], vec![]);
    assert!(matches!(r.unwrap_err().0, ErrorKind::Storage));
}

#[test]
fn init_db_rejects_dangling_link() {
    let projects = vec![Project { id: 1, name: "p".to_string() }];
    let r = init_db(projects, vec![], vec![], vec![(1, 9)], vec![]);
    assert!(matches!(r.unwrap_err().0, ErrorKind::Storage));
}

#[test]
fn init_db_rejects_duplicate_rid_and_link() {
    let timers = vec![
        Timer { id: 1, rid: "r".to_string(), start: 0, end: None, note: None },
        Timer { id: 2, rid: "r".to_string(), start: 0, end: None, note: None },
    ];
    assert!(init_db(vec![], vec![], timers, vec![], vec![]).is_err());
    let projects = vec![Project { id: 1, name: "p".to_string() }];
    let timers = vec![Timer { id: 1, rid: "r".to_string(), start: 0, end: None, note: None }];
    assert!(init_db(projects, vec![], timers, vec![(1, 1), (1, 1)], vec![]).is_err());
}

#[test]
fn storage_error_when_ids_run_out() {
    let projects = vec![Project { id: i32::MAX, name: "last".to_string() }];
    let mut db = init_db(projects, vec![], vec![], vec![], vec![]).unwrap();
    assert!(matches!(Project::insert(&mut db, "more").unwrap_err().0, ErrorKind::Storage));
    assert_eq!(Project::insert(&mut db, "last").unwrap(), 0);
    let r = handle_inserts(&mut db, "other", None, &timer_for("r", 1, None));
    assert!(matches!(r.unwrap_err().0, ErrorKind::Storage));
    assert_eq!(db.timers.len(), 0);
}

#[test]
fn failed_tag_batch_rolls_back_project() {
    let tags = vec![Tag { id: i32::MAX - 1, name: "z".to_string() }];
    let mut db = init_db(vec![], tags, vec![], vec![], vec![]).unwrap();
    let r = handle_inserts(&mut db, "p", Some("a,b"), &timer_for("r", 1, None));
    assert!(matches!(r.unwrap_err().0, ErrorKind::Storage));
    assert_eq!(db.projects.len(), 0);
    assert_eq!(db.tags.len(), 1);
}

#[test]
fn batch_delete_removes_timers_and_links() {
    let mut db = Db::new();
    handle_inserts(&mut db, "acme", Some("a"), &timer_for("r1", 1, Some(2))).unwrap();
    handle_inserts(&mut db, "acme", Some("a"), &timer_for("r2", 3, Some(4))).unwrap();
    handle_inserts(&mut db, "bolt", None, &timer_for("r3", 5, Some(6))).unwrap();
    let gone = Timers::for_project(&db, 1).unwrap();
    gone.batch_delete(&mut db).unwrap();
    assert_eq!(db.timers.len(), 1);
    assert_eq!(db.timers[0].rid, "r3");
    assert_eq!(db.projects_timers, vec![(2, 3)]);
    assert_eq!(db.tags_timers.len(), 0);
    assert_eq!(db.projects.len(), 2);
    assert_eq!(db.tags.len(), 1);
}

#[test]
fn stop_all_returns_stopped_rids() {
    let mut db = Db::new();
    handle_inserts(&mut db, "p", None, &timer_for("r1", 1, None)).unwrap();
    handle_inserts(&mut db, "p", None, &timer_for("r2", 2, Some(3))).unwrap();
    assert_eq!(Timers::stop_all(&mut db, 7).unwrap(), vec!["r1".to_string()]);
    assert_eq!(Timer::find_by_rid(&db, "r1").unwrap().end, Some(7));
    assert_eq!(Timers::stop_all(&mut db, 8).unwrap(), Vec::<String>::new());
}

#[test]
fn tags_load_keeps_table_order() {
    let mut db = Db::new();
    Tag::batch_insert(&mut db, vec!["x".to_string(), "y".to_string(), "z".to_string()]).unwrap();
    let loaded = Tags::load(&db, vec!["z".to_string(), "x".to_string(), "w".to_string()]).unwrap();
    assert_eq!(loaded.names(), vec!["x".to_string(), "z".to_string()]);
}

#[test]
fn restart_without_project_link_is_not_found() {
    let timers = vec![Timer { id: 1, rid: "r".to_string(), start: 0, end: None, note: None }];
    let mut db = init_db(vec![], vec![], timers, vec![], vec![]).unwrap();
    assert!(matches!(restart_last_timer(&mut db, None, 5).unwrap_err().0, ErrorKind::NotFound));
    assert_eq!(db.timers.len(), 1);
}

#[test]
fn start_timer_links_project_and_tags() {
    let mut db = Db::new();
    let rid = start_timer(&mut db, "acme", Some("x,y,x"), None, 7).unwrap();
    let t = Timer::find_by_rid(&db, &rid).unwrap();
    assert_eq!(t.start, 7);
    assert_eq!(Project::for_timer(&db, t.id).unwrap().name, "acme");
    assert_eq!(tag_names_of(&db, t.id), vec!["x".to_string(), "y".to_string()]);
    assert_eq!(db.tags_timers.len(), 2);
}
