use cc_switch::commands::workspace_skill::{create_workspace_at, update_workspace_at};
use cc_switch::services::{timestamp_of, LAST_UTC_SECOND};
use cc_switch::commands::skill_group::{
    add_skill_to_group, create_skill_group, delete_skill_group, get_group_member_ids, get_skill_groups,
    remove_skill_from_group, set_group_active, update_skill_group,
};
use cc_switch::commands::workspace_skill::{
    add_group_to_workspace, create_workspace, delete_workspace, get_workspace_active_group_ids,
    get_workspace_group_ids, get_workspaces, is_home_path, remove_group_from_workspace,
    toggle_group_in_workspace, update_workspace,
};
use cc_switch::{AppError, Database, ServiceError, SkillGroupService, SyncStep, Workspace};

fn s(x: &str) -> String {
    x.to_string()
}

fn open_db() -> Database {
    let mut db = Database::new(rusqlite::Connection::open_in_memory().unwrap());
    db.init_schema().unwrap();
    db
}

#[test]
fn groups_are_created_listed_edited_and_deleted() {
    let mut db = open_db();
    let g = create_skill_group(s("Writing"), Some(s("prose")), &mut db).unwrap();
    assert_eq!(g.id.len(), 36);
    assert!(g.member_ids.is_empty());
    let all = get_skill_groups(&mut db).unwrap();
    assert_eq!(all.len(), 1);
    assert_eq!(all[0].name, "Writing");
    let (edited, runs) = update_skill_group(g.id.clone(), s("Prose"), None, vec![s("s1")], &mut db).unwrap();
    assert_eq!(edited.name, "Prose");
    assert!(edited.description.is_none());
    assert_eq!(edited.member_ids, vec![s("s1")]);
    assert!(runs.is_empty());
    assert_eq!(get_group_member_ids(g.id.clone(), &mut db).unwrap(), vec![s("s1")]);
    set_group_active(g.id.clone(), true, &mut db).unwrap();
    assert!(get_skill_groups(&mut db).unwrap()[0].is_active);
    delete_skill_group(g.id.clone(), &mut db).unwrap();
    assert!(get_skill_groups(&mut db).unwrap().is_empty());
}

#[test]
fn editing_a_missing_group_names_it() {
    let mut db = open_db();
    let err = update_skill_group(s("nope"), s("x"), None, vec![], &mut db).unwrap_err();
    assert_eq!(err, "分组不存在: nope");
}

#[test]
fn membership_changes_resynchronise_the_workspaces_of_the_group() {
    let mut db = open_db();
    let g = create_skill_group(s("A"), None, &mut db).unwrap();
    let w = create_workspace(s("Main"), s("/p/main"), &mut db).unwrap();
    toggle_group_in_workspace(w.id.clone(), g.id.clone(), true, &mut db).unwrap();
    let runs = add_skill_to_group(g.id.clone(), s("s1"), &mut db).unwrap();
    assert_eq!(runs.len(), 1);
    assert_eq!(runs[0].0.workspace_path(), "/p/main");
    assert!(matches!(runs[0].1, SyncStep::CreateSkillsDir));
    let runs = remove_skill_from_group(g.id.clone(), s("s1"), &mut db).unwrap();
    assert_eq!(runs.len(), 1);
    assert!(get_group_member_ids(g.id.clone(), &mut db).unwrap().is_empty());
    // A group active nowhere starts no run.
    let other = create_skill_group(s("B"), None, &mut db).unwrap();
    assert!(add_skill_to_group(other.id, s("s2"), &mut db).unwrap().is_empty());
}

#[test]
fn workspaces_are_created_listed_edited_and_deleted() {
    let mut db = open_db();
    let w = create_workspace(s("Main"), s("/p/main"), &mut db).unwrap();
    assert_eq!(w.id.len(), 36);
    assert_eq!(w.created_at, w.updated_at);
    assert!(w.group_ids.is_empty());
    let edited = update_workspace(w.id.clone(), s("Renamed"), s("/p/other"), &mut db).unwrap();
    assert_eq!(edited.id, w.id);
    assert_eq!(edited.name, "Renamed");
    assert_eq!(edited.path, "/p/other");
    assert!(edited.updated_at >= w.updated_at);
    let listed = get_workspaces(&mut db).unwrap();
    assert_eq!(listed.len(), 1);
    assert_eq!(listed[0].path, "/p/other");
    delete_workspace(w.id, &mut db).unwrap();
    assert!(get_workspaces(&mut db).unwrap().is_empty());
}

#[test]
fn editing_a_missing_workspace_names_it() {
    let mut db = open_db();
    let err = update_workspace(s("nope"), s("x"), s("/x"), &mut db).unwrap_err();
    assert_eq!(err, "工作空间不存在: nope");
    let err = toggle_group_in_workspace(s("nope"), s("g"), true, &mut db).unwrap_err();
    assert_eq!(err, "工作空间不存在: nope");
}

#[test]
fn groups_are_bound_and_activated_in_a_workspace() {
    let mut db = open_db();
    let g = create_skill_group(s("A"), None, &mut db).unwrap();
    let w = create_workspace(s("Main"), s("/p/main"), &mut db).unwrap();
    add_group_to_workspace(w.id.clone(), g.id.clone(), &mut db).unwrap();
    assert_eq!(get_workspace_group_ids(w.id.clone(), &mut db).unwrap(), vec![g.id.clone()]);
    assert_eq!(get_workspaces(&mut db).unwrap()[0].group_ids, vec![g.id.clone()]);
    let (_, step) = toggle_group_in_workspace(w.id.clone(), g.id.clone(), true, &mut db).unwrap();
    assert!(matches!(step, SyncStep::CreateSkillsDir));
    assert_eq!(get_workspace_active_group_ids(w.id.clone(), &mut db).unwrap(), vec![g.id.clone()]);
    toggle_group_in_workspace(w.id.clone(), g.id.clone(), false, &mut db).unwrap();
    assert!(get_workspace_active_group_ids(w.id.clone(), &mut db).unwrap().is_empty());
    // Unchecking also unbinds the group.
    assert!(get_workspace_group_ids(w.id.clone(), &mut db).unwrap().is_empty());
    remove_group_from_workspace(w.id.clone(), g.id.clone(), &mut db).unwrap();
    assert!(get_workspace_group_ids(w.id, &mut db).unwrap().is_empty());
}

#[test]
fn checking_a_group_binds_it_to_the_workspace() {
    let mut db = open_db();
    let g = create_skill_group(s("A"), None, &mut db).unwrap();
    let other = create_skill_group(s("B"), None, &mut db).unwrap();
    let w = create_workspace(s("Main"), s("/p/main"), &mut db).unwrap();
    let w2 = create_workspace(s("Side"), s("/p/side"), &mut db).unwrap();
    assert!(get_workspace_group_ids(w.id.clone(), &mut db).unwrap().is_empty());
    toggle_group_in_workspace(w.id.clone(), g.id.clone(), true, &mut db).unwrap();
    toggle_group_in_workspace(w2.id.clone(), other.id.clone(), true, &mut db).unwrap();
    assert_eq!(get_workspace_group_ids(w.id.clone(), &mut db).unwrap(), vec![g.id.clone()]);
    assert_eq!(get_workspace_active_group_ids(w.id.clone(), &mut db).unwrap(), vec![g.id.clone()]);
    // Checking twice keeps one binding.
    toggle_group_in_workspace(w.id.clone(), g.id.clone(), true, &mut db).unwrap();
    assert_eq!(get_workspace_group_ids(w.id.clone(), &mut db).unwrap(), vec![g.id.clone()]);
    toggle_group_in_workspace(w.id.clone(), g.id.clone(), false, &mut db).unwrap();
    assert!(get_workspace_group_ids(w.id.clone(), &mut db).unwrap().is_empty());
    assert!(get_workspace_active_group_ids(w.id.clone(), &mut db).unwrap().is_empty());
    // The other workspace keeps its group.
    assert_eq!(get_workspace_group_ids(w2.id.clone(), &mut db).unwrap(), vec![other.id.clone()]);
    assert_eq!(get_workspace_active_group_ids(w2.id, &mut db).unwrap(), vec![other.id]);
}

#[test]
fn the_home_path_is_reserved() {
    let mut db = open_db();
    for p in ["~", " ~", "~\t\n", "\u{3000}~ "] {
        let err = create_workspace(s("Home"), s(p), &mut db).unwrap_err();
        assert_eq!(err, "路径不能为 ~（保留给用户级别空间）");
    }
    assert!(get_workspaces(&mut db).unwrap().is_empty());
    for p in ["~/proj", "~~", "", " "] {
        create_workspace(s("W"), s(p), &mut db).unwrap();
    }
    assert_eq!(get_workspaces(&mut db).unwrap().len(), 4);
    assert!(is_home_path(" ~ "));
    assert!(!is_home_path("~ a"));
    assert!(!is_home_path("a"));
}

#[test]
fn editing_a_missing_group_changes_nothing() {
    let mut db = open_db();
    let g = create_skill_group(s("A"), None, &mut db).unwrap();
    add_skill_to_group(g.id.clone(), s("s1"), &mut db).unwrap();
    let err = update_skill_group(s("nope"), s("x"), None, vec![s("s9")], &mut db).unwrap_err();
    assert_eq!(err, "分组不存在: nope");
    let groups = get_skill_groups(&mut db).unwrap();
    assert_eq!(groups.len(), 1);
    assert_eq!(groups[0].name, "A");
    assert_eq!(get_group_member_ids(g.id, &mut db).unwrap(), vec![s("s1")]);
    assert!(get_group_member_ids(s("nope"), &mut db).unwrap().is_empty());
}

#[test]
fn a_database_failure_is_reported_as_text() {
    let mut db = Database::new(rusqlite::Connection::open_in_memory().unwrap());
    let err = get_skill_groups(&mut db).unwrap_err();
    assert!(err.contains("skill_groups"), "{err}");
    assert!(get_workspaces(&mut db).is_err());
}

#[test]
fn error_texts() {
    assert_eq!(AppError::Database(s("locked")).message(), "locked");
    assert_eq!(ServiceError::Database(AppError::Database(s("locked"))).message(), "locked");
    assert_eq!(ServiceError::GroupNotFound(s("g")).message(), "分组不存在: g");
    assert_eq!(ServiceError::WorkspaceNotFound(s("w")).message(), "工作空间不存在: w");
    assert_eq!(ServiceError::CreateSkillsDir(s("denied")).message(), "denied");
    assert_eq!(ServiceError::SsotDir(s("none")).message(), "none");
    assert_eq!(
        ServiceError::ManifestRead(s("io")).message(),
        "读取 skills 清单失败，跳过本轮同步以保留旧清单: 读取清单失败: io"
    );
    assert_eq!(
        ServiceError::ManifestParse(s("eof")).message(),
        "读取 skills 清单失败，跳过本轮同步以保留旧清单: 解析清单失败: eof"
    );
    assert_eq!(ServiceError::ManifestWrite(s("full")).message(), "写入 skills 清单失败，本轮同步未持久化: full");
    assert_eq!(ServiceError::UnexpectedEvent.message(), "同步事件与当前步骤不符");
}

#[test]
fn the_user_level_space_is_neither_deleted_nor_moved() {
    let mut db = open_db();
    db.create_workspace(&Workspace {
        id: s("user"),
        name: s("用户级别"),
        path: s("~"),
        is_user_level: true,
        created_at: 1,
        updated_at: 1,
        group_ids: vec![],
    })
    .unwrap();
    let err = delete_workspace(s("user"), &mut db).unwrap_err();
    assert_eq!(err, "用户级别空间不可删除");
    assert_eq!(get_workspaces(&mut db).unwrap().len(), 1);
    let err = update_workspace(s("user"), s("Home"), s("/elsewhere"), &mut db).unwrap_err();
    assert_eq!(err, "用户级别空间路径不可修改");
    assert_eq!(get_workspaces(&mut db).unwrap()[0].path, "~");
    // Renaming it while keeping `~` is allowed.
    let w = update_workspace(s("user"), s("Home"), s(" ~ "), &mut db).unwrap();
    assert!(w.is_user_level);
    assert_eq!(w.name, "Home");
    let listed = get_workspaces(&mut db).unwrap();
    assert_eq!(listed[0].name, "Home");
    assert!(listed[0].is_user_level);
    // An ordinary workspace is deleted, and a missing one too (nothing to refuse).
    let other = create_workspace(s("Main"), s("/p/main"), &mut db).unwrap();
    assert!(!other.is_user_level);
    delete_workspace(other.id, &mut db).unwrap();
    delete_workspace(s("missing"), &mut db).unwrap();
    assert_eq!(get_workspaces(&mut db).unwrap().len(), 1);
}

#[test]
fn a_clock_reading_gives_its_whole_seconds_up_to_chronos_last_second() {
    assert_eq!(timestamp_of(None), None);
    assert_eq!(timestamp_of(Some((0, 0))), Some(0));
    assert_eq!(timestamp_of(Some((1_700_000_000, 999_999_999))), Some(1_700_000_000));
    assert_eq!(timestamp_of(Some((LAST_UTC_SECOND, 999_999_999))), Some(LAST_UTC_SECOND as i64));
    assert_eq!(timestamp_of(Some((LAST_UTC_SECOND + 1, 0))), None);
    assert_eq!(timestamp_of(Some((u64::MAX, 0))), None);
}

#[test]
fn creating_and_editing_take_their_time_from_the_clock_reading() {
    let mut db = open_db();
    let g = SkillGroupService::create_at(&mut db, s("A"), Some(s("d")), Some(42)).unwrap();
    assert_eq!((g.created_at, g.updated_at), (42, 42));
    assert!(matches!(SkillGroupService::create_at(&mut db, s("B"), None, None), Err(ServiceError::Clock)));
    assert_eq!(get_skill_groups(&mut db).unwrap().len(), 1);
    let (e, runs) = SkillGroupService::update_at(&mut db, &g.id, s("A2"), None, vec![s("s1")], Some(50)).unwrap();
    assert_eq!((e.created_at, e.updated_at), (42, 50));
    assert!(runs.is_empty());
    assert!(matches!(
        SkillGroupService::update_at(&mut db, &g.id, s("A3"), None, vec![], None),
        Err(ServiceError::Clock)
    ));
    assert!(matches!(
        SkillGroupService::update_at(&mut db, "nope", s("A3"), None, vec![], None),
        Err(ServiceError::GroupNotFound(_))
    ));
    let groups = get_skill_groups(&mut db).unwrap();
    assert_eq!(groups[0].name, "A2");
    assert_eq!(groups[0].member_ids, vec![s("s1")]);

    let w = create_workspace_at(s("Main"), s("/p/main"), Some(7), &mut db).unwrap();
    assert_eq!((w.created_at, w.updated_at), (7, 7));
    assert_eq!(create_workspace_at(s("X"), s("/p/x"), None, &mut db).unwrap_err(), "系统时间早于 Unix 纪元");
    assert_eq!(create_workspace_at(s("X"), s("~"), None, &mut db).unwrap_err(), "路径不能为 ~（保留给用户级别空间）");
    let u = update_workspace_at(w.id.clone(), s("Main2"), s("/p/m2"), Some(9), &mut db).unwrap();
    assert_eq!((u.created_at, u.updated_at), (7, 9));
    assert_eq!(
        update_workspace_at(w.id.clone(), s("Main3"), s("/p/m3"), None, &mut db).unwrap_err(),
        "系统时间早于 Unix 纪元"
    );
    let listed = get_workspaces(&mut db).unwrap();
    assert_eq!(listed.len(), 1);
    assert_eq!((listed[0].name.as_str(), listed[0].updated_at), ("Main2", 9));
}
