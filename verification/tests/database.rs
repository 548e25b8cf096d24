use cc_switch::database::{
    bool_param, column_bool, column_int, column_opt_int, column_opt_text, column_text, opt_int_param,
    opt_text_param, text_column, text_pairs,
};
use cc_switch::database::dao::ids_for_owner;
use cc_switch::database::dao::skill_groups::{group_row_params, group_update_params};
use cc_switch::database::dao::workspaces::{workspace_row_params, workspace_update_params};
use cc_switch::{AppError, Database, SkillGroup, SkillGroupApps, SqlParam, SqlValue, Workspace};

fn text(s: &str) -> SqlValue {
    SqlValue::Text(s.to_string())
}

fn open_db() -> Database {
    let conn = rusqlite::Connection::open_in_memory().unwrap();
    let mut db = Database::new(conn);
    db.init_schema().unwrap();
    db
}

fn group(id: &str, name: &str, sort_index: Option<i64>) -> SkillGroup {
    SkillGroup {
        id: id.to_string(),
        name: name.to_string(),
        description: Some(format!("{name} description")),
        icon: None,
        is_active: false,
        sort_index,
        created_at: 100,
        updated_at: 200,
        apps: SkillGroupApps { claude: true, codex: false, gemini: true, opencode: false, hermes: true },
        member_ids: vec![],
    }
}

fn workspace(id: &str, name: &str, path: &str) -> Workspace {
    Workspace {
        id: id.to_string(),
        name: name.to_string(),
        path: path.to_string(),
        is_user_level: false,
        created_at: 5,
        updated_at: 6,
        group_ids: vec![],
    }
}

#[test]
fn column_readers_follow_the_column_types() {
    let row = vec![text("a"), SqlValue::Null, SqlValue::Integer(7), SqlValue::Integer(0), SqlValue::Real];
    assert_eq!(column_text(&row, 0).unwrap(), "a");
    assert!(matches!(column_text(&row, 1), Err(AppError::Database(_))));
    assert!(matches!(column_text(&row, 9), Err(AppError::Database(_))));
    assert_eq!(column_opt_text(&row, 1).unwrap(), None);
    assert_eq!(column_opt_text(&row, 0).unwrap(), Some("a".to_string()));
    assert!(column_opt_text(&row, 2).is_err());
    assert_eq!(column_int(&row, 2).unwrap(), 7);
    assert!(column_int(&row, 4).is_err());
    assert_eq!(column_opt_int(&row, 1).unwrap(), None);
    assert_eq!(column_opt_int(&row, 2).unwrap(), Some(7));
    assert!(column_bool(&row, 2).unwrap());
    assert!(!column_bool(&row, 3).unwrap());
    assert!(column_bool(&row, 0).is_err());
}

#[test]
fn parameters_bind_as_sqlite_stores_them() {
    assert!(matches!(bool_param(true), SqlParam::Integer(1)));
    assert!(matches!(bool_param(false), SqlParam::Integer(0)));
    assert!(matches!(opt_int_param(None), SqlParam::Null));
    assert!(matches!(opt_int_param(Some(3)), SqlParam::Integer(3)));
    assert!(matches!(opt_text_param(&None), SqlParam::Null));
    match opt_text_param(&Some("x".to_string())) {
        SqlParam::Text(t) => assert_eq!(t, "x"),
        other => panic!("unexpected {other:?}"),
    }
}

#[test]
fn group_rows_decode_field_by_field() {
    let row = vec![
        text("g1"),
        text("Writing"),
        SqlValue::Null,
        text("pen"),
        SqlValue::Integer(1),
        SqlValue::Integer(4),
        SqlValue::Integer(10),
        SqlValue::Integer(11),
        SqlValue::Integer(1),
        SqlValue::Integer(0),
        SqlValue::Integer(2),
        SqlValue::Integer(0),
        SqlValue::Integer(1),
    ];
    let g = Database::row_to_group(&row).unwrap();
    assert_eq!(g.id, "g1");
    assert_eq!(g.name, "Writing");
    assert_eq!(g.description, None);
    assert_eq!(g.icon, Some("pen".to_string()));
    assert!(g.is_active);
    assert_eq!(g.sort_index, Some(4));
    assert_eq!((g.created_at, g.updated_at), (10, 11));
    assert!(g.apps.claude && !g.apps.codex && g.apps.gemini && !g.apps.opencode && g.apps.hermes);
    assert!(g.member_ids.is_empty());

    let mut short = row.clone_rows();
    short.pop();
    assert!(Database::row_to_group(&short).is_err());
    let mut wrong = row.clone_rows();
    wrong[6] = text("ten");
    assert!(Database::row_to_group(&wrong).is_err());
}

trait CloneRows {
    fn clone_rows(&self) -> Vec<SqlValue>;
}

impl CloneRows for Vec<SqlValue> {
    fn clone_rows(&self) -> Vec<SqlValue> {
        self.iter()
            .map(|v| match v {
                SqlValue::Null => SqlValue::Null,
                SqlValue::Integer(i) => SqlValue::Integer(*i),
                SqlValue::Real => SqlValue::Real,
                SqlValue::Text(s) => SqlValue::Text(s.clone()),
                SqlValue::Blob(b) => SqlValue::Blob(b.clone()),
            })
            .collect()
    }
}

#[test]
fn workspace_rows_decode_field_by_field() {
    let row = vec![text("w1"), text("proj"), text("/tmp/proj"), SqlValue::Integer(1), SqlValue::Integer(2), SqlValue::Integer(0)];
    let w = Database::row_to_workspace(&row).unwrap();
    assert_eq!((w.id.as_str(), w.name.as_str(), w.path.as_str()), ("w1", "proj", "/tmp/proj"));
    assert_eq!((w.created_at, w.updated_at), (1, 2));
    assert!(!w.is_user_level);
    let user = vec![text("user"), text("home"), text("~"), SqlValue::Integer(1), SqlValue::Integer(2), SqlValue::Integer(1)];
    assert!(Database::row_to_workspace(&user).unwrap().is_user_level);
    let bad = vec![text("w1"), text("proj"), SqlValue::Null, SqlValue::Integer(1), SqlValue::Integer(2), SqlValue::Integer(0)];
    assert!(Database::row_to_workspace(&bad).is_err());
    let short = vec![text("w1"), text("proj"), text("/tmp/proj"), SqlValue::Integer(1), SqlValue::Integer(2)];
    assert!(Database::row_to_workspace(&short).is_err());
}

#[test]
fn text_columns_and_pairs() {
    let rows = vec![vec![text("a"), text("x")], vec![text("b"), text("y")]];
    assert_eq!(text_column(&rows).unwrap(), vec!["a".to_string(), "b".to_string()]);
    assert_eq!(
        text_pairs(&rows).unwrap(),
        vec![("a".to_string(), "x".to_string()), ("b".to_string(), "y".to_string())]
    );
    let bad = vec![vec![text("a"), SqlValue::Null]];
    assert!(text_pairs(&bad).is_err());
    assert!(text_column(&vec![vec![SqlValue::Integer(1)]]).is_err());
}

#[test]
fn membership_pairs_join_by_owner_in_order() {
    let pairs = vec![
        ("g1".to_string(), "s1".to_string()),
        ("g2".to_string(), "s2".to_string()),
        ("g1".to_string(), "s3".to_string()),
    ];
    assert_eq!(ids_for_owner(&pairs, &"g1".to_string()), vec!["s1".to_string(), "s3".to_string()]);
    assert_eq!(ids_for_owner(&pairs, &"g2".to_string()), vec!["s2".to_string()]);
    assert!(ids_for_owner(&pairs, &"g3".to_string()).is_empty());
}

#[test]
fn groups_are_stored_and_read_back() {
    let mut db = open_db();
    db.create_skill_group(&group("g1", "Writing", None)).unwrap();
    let g = db.get_skill_group("g1").unwrap().unwrap();
    assert_eq!(g.name, "Writing");
    assert_eq!(g.description.as_deref(), Some("Writing description"));
    assert!(g.apps.claude && !g.apps.codex && g.apps.gemini && !g.apps.opencode && g.apps.hermes);
    assert_eq!((g.created_at, g.updated_at), (100, 200));
    assert!(db.get_skill_group("missing").unwrap().is_none());
    // A second group with the same id is refused by the primary key.
    assert!(matches!(db.create_skill_group(&group("g1", "Again", None)), Err(AppError::Database(_))));
}

#[test]
fn groups_are_listed_by_sort_index_then_name_with_members() {
    let mut db = open_db();
    db.create_skill_group(&group("g1", "Zeta", None)).unwrap();
    db.create_skill_group(&group("g2", "Alpha", None)).unwrap();
    db.create_skill_group(&group("g3", "Mid", Some(1))).unwrap();
    db.add_skill_to_group("g2", "s1").unwrap();
    db.add_skill_to_group("g2", "s2").unwrap();
    db.add_skill_to_group("g2", "s1").unwrap();
    db.add_skill_to_group("g3", "s9").unwrap();
    let all = db.get_all_skill_groups().unwrap();
    let names: Vec<&str> = all.iter().map(|g| g.name.as_str()).collect();
    assert_eq!(names, vec!["Mid", "Alpha", "Zeta"]);
    let mut alpha = all[1].member_ids.clone();
    alpha.sort();
    assert_eq!(alpha, vec!["s1".to_string(), "s2".to_string()]);
    assert_eq!(all[0].member_ids, vec!["s9".to_string()]);
    assert!(all[2].member_ids.is_empty());
}

#[test]
fn members_are_added_removed_and_replaced() {
    let mut db = open_db();
    db.create_skill_group(&group("g1", "A", None)).unwrap();
    db.add_skill_to_group("g1", "s1").unwrap();
    db.add_skill_to_group("g1", "s2").unwrap();
    db.remove_skill_from_group("g1", "s1").unwrap();
    assert_eq!(db.get_group_member_ids("g1").unwrap(), vec!["s2".to_string()]);
    db.set_group_members("g1", &vec!["s3".to_string(), "s4".to_string()]).unwrap();
    let mut m = db.get_group_member_ids("g1").unwrap();
    m.sort();
    assert_eq!(m, vec!["s3".to_string(), "s4".to_string()]);
    db.set_group_members("g1", &vec![]).unwrap();
    assert!(db.get_group_member_ids("g1").unwrap().is_empty());
}

#[test]
fn groups_are_updated_activated_and_deleted() {
    let mut db = open_db();
    db.create_skill_group(&group("g1", "A", None)).unwrap();
    db.create_skill_group(&group("g2", "B", None)).unwrap();
    let mut g = db.get_skill_group("g1").unwrap().unwrap();
    g.name = "Renamed".to_string();
    g.sort_index = Some(3);
    g.updated_at = 999;
    g.apps.codex = true;
    db.update_skill_group(&g).unwrap();
    let back = db.get_skill_group("g1").unwrap().unwrap();
    assert_eq!(back.name, "Renamed");
    assert_eq!(back.sort_index, Some(3));
    assert_eq!(back.updated_at, 999);
    assert!(back.apps.codex);

    db.set_skill_group_active("g1", true).unwrap();
    db.set_skill_group_active("g2", true).unwrap();
    let mut active = db.get_active_skill_group_ids().unwrap();
    active.sort();
    assert_eq!(active, vec!["g1".to_string(), "g2".to_string()]);
    db.set_skill_group_active("g1", false).unwrap();
    assert_eq!(db.get_active_skill_group_ids().unwrap(), vec!["g2".to_string()]);

    db.add_skill_to_group("g2", "s1").unwrap();
    db.delete_skill_group("g2").unwrap();
    assert!(db.get_skill_group("g2").unwrap().is_none());
    assert!(db.get_group_member_ids("g2").unwrap().is_empty());
}

#[test]
fn workspaces_are_stored_listed_and_bound_to_groups() {
    let mut db = open_db();
    db.create_skill_group(&group("g1", "A", None)).unwrap();
    db.create_skill_group(&group("g2", "B", None)).unwrap();
    db.create_workspace(&workspace("w1", "beta", "/p/b")).unwrap();
    db.create_workspace(&workspace("w2", "alpha", "/p/a")).unwrap();
    db.add_group_to_workspace("w1", "g1").unwrap();
    db.add_group_to_workspace("w1", "g2").unwrap();
    db.add_group_to_workspace("w1", "g2").unwrap();
    let all = db.get_all_workspaces().unwrap();
    assert_eq!(all.len(), 2);
    assert_eq!(all[0].name, "alpha");
    assert!(all[0].group_ids.is_empty());
    let mut g = all[1].group_ids.clone();
    g.sort();
    assert_eq!(g, vec!["g1".to_string(), "g2".to_string()]);
    db.remove_group_from_workspace("w1", "g1").unwrap();
    assert_eq!(db.get_workspace_group_ids("w1").unwrap(), vec!["g2".to_string()]);

    let mut w = db.get_workspace("w2").unwrap().unwrap();
    w.name = "gamma".to_string();
    w.path = "/p/g".to_string();
    w.updated_at = 77;
    db.update_workspace(&w).unwrap();
    let back = db.get_workspace("w2").unwrap().unwrap();
    assert_eq!((back.name.as_str(), back.path.as_str(), back.updated_at), ("gamma", "/p/g", 77));
    assert_eq!(back.created_at, 5);

    db.delete_workspace("w1").unwrap();
    assert!(db.get_workspace("w1").unwrap().is_none());
    assert!(db.get_workspace_group_ids("w1").unwrap().is_empty());
}

#[test]
fn active_groups_of_a_workspace_toggle() {
    let mut db = open_db();
    db.create_skill_group(&group("g1", "A", None)).unwrap();
    db.create_workspace(&workspace("w1", "one", "/p/1")).unwrap();
    db.create_workspace(&workspace("w2", "two", "/p/2")).unwrap();
    db.toggle_workspace_group_active("w1", "g1", true).unwrap();
    db.toggle_workspace_group_active("w1", "g1", true).unwrap();
    db.toggle_workspace_group_active("w2", "g1", true).unwrap();
    assert_eq!(db.get_workspace_active_group_ids("w1").unwrap(), vec!["g1".to_string()]);
    let mut ws = db.get_workspaces_with_active_group("g1").unwrap();
    ws.sort();
    assert_eq!(ws, vec!["w1".to_string(), "w2".to_string()]);
    db.toggle_workspace_group_active("w1", "g1", false).unwrap();
    assert!(db.get_workspace_active_group_ids("w1").unwrap().is_empty());
    assert_eq!(db.get_workspaces_with_active_group("g1").unwrap(), vec!["w2".to_string()]);
}

#[test]
fn a_missing_table_is_a_database_error() {
    let mut db = Database::new(rusqlite::Connection::open_in_memory().unwrap());
    assert!(matches!(db.get_all_skill_groups(), Err(AppError::Database(_))));
    assert!(matches!(db.delete_workspace("w"), Err(AppError::Database(_))));
}

fn param_text(p: &SqlParam) -> Option<&str> {
    match p {
        SqlParam::Text(t) => Some(t.as_str()),
        _ => None,
    }
}

fn param_int(p: &SqlParam) -> Option<i64> {
    match p {
        SqlParam::Integer(n) => Some(*n),
        _ => None,
    }
}

#[test]
fn group_statements_bind_every_column_in_order() {
    let mut g = group("g1", "Writing", Some(3));
    g.icon = Some("pen".to_string());
    g.is_active = true;
    let p = group_row_params(&g);
    assert_eq!(p.len(), 13);
    assert_eq!(param_text(&p[0]), Some("g1"));
    assert_eq!(param_text(&p[1]), Some("Writing"));
    assert_eq!(param_text(&p[2]), Some("Writing description"));
    assert_eq!(param_text(&p[3]), Some("pen"));
    assert_eq!(param_int(&p[4]), Some(1));
    assert_eq!(param_int(&p[5]), Some(3));
    assert_eq!(param_int(&p[6]), Some(100));
    assert_eq!(param_int(&p[7]), Some(200));
    let apps: Vec<Option<i64>> = p[8..13].iter().map(param_int).collect();
    assert_eq!(apps, vec![Some(1), Some(0), Some(1), Some(0), Some(1)]);

    let mut h = group("g2", "Editing", None);
    h.description = None;
    let u = group_update_params(&h);
    assert_eq!(u.len(), 11);
    assert_eq!(param_text(&u[0]), Some("Editing"));
    assert!(matches!(u[1], SqlParam::Null));
    assert!(matches!(u[2], SqlParam::Null));
    assert!(matches!(u[3], SqlParam::Null));
    assert_eq!(param_int(&u[4]), Some(200));
    let apps: Vec<Option<i64>> = u[5..10].iter().map(param_int).collect();
    assert_eq!(apps, vec![Some(1), Some(0), Some(1), Some(0), Some(1)]);
    assert_eq!(param_text(&u[10]), Some("g2"));
}

#[test]
fn workspace_statements_bind_every_column_in_order() {
    let w = workspace("w1", "Main", "/p");
    let p = workspace_row_params(&w);
    assert_eq!(p.len(), 6);
    assert_eq!(param_text(&p[0]), Some("w1"));
    assert_eq!(param_text(&p[1]), Some("Main"));
    assert_eq!(param_text(&p[2]), Some("/p"));
    assert_eq!(param_int(&p[3]), Some(5));
    assert_eq!(param_int(&p[4]), Some(6));
    assert_eq!(param_int(&p[5]), Some(0));
    let u = workspace_update_params(&w);
    assert_eq!(u.len(), 4);
    assert_eq!(param_text(&u[0]), Some("Main"));
    assert_eq!(param_text(&u[1]), Some("/p"));
    assert_eq!(param_int(&u[2]), Some(6));
    assert_eq!(param_text(&u[3]), Some("w1"));
}

#[test]
fn installed_skills_are_looked_up_by_id() {
    let conn = rusqlite::Connection::open_in_memory().unwrap();
    conn.execute_batch(
        "CREATE TABLE installed_skills (id TEXT PRIMARY KEY, name TEXT NOT NULL, directory TEXT NOT NULL);
         INSERT INTO installed_skills (id, name, directory) VALUES ('s1', 'Pdf tools', 'pdf-tools');",
    )
    .unwrap();
    let mut db = Database::new(conn);
    let s = db.get_installed_skill("s1").unwrap().unwrap();
    assert_eq!(s.directory, "pdf-tools");
    assert_eq!(s.name, "Pdf tools");
    assert!(db.get_installed_skill("s2").unwrap().is_none());
    let mut bare = Database::new(rusqlite::Connection::open_in_memory().unwrap());
    assert!(matches!(bare.get_installed_skill("s1"), Err(AppError::Database(_))));
}

#[test]
fn workspace_rows_decode_in_order_or_fail_on_the_first_bad_one() {
    let good = || vec![text("w1"), text("Main"), text("/p"), SqlValue::Integer(1), SqlValue::Integer(2), SqlValue::Integer(0)];
    let bad = vec![text("w2"), text("Other"), SqlValue::Null, SqlValue::Integer(1), SqlValue::Integer(2), SqlValue::Integer(0)];
    let ws = Database::rows_to_workspaces(&vec![good(), good()]).unwrap();
    assert_eq!(ws.len(), 2);
    assert_eq!(ws[1].path, "/p");
    assert!(Database::rows_to_workspaces(&vec![good(), bad]).is_err());
    match column_text(&vec![SqlValue::Integer(1)], 0) {
        Err(AppError::Database(m)) => assert_eq!(m, "invalid column index or column type"),
        other => panic!("unexpected {other:?}"),
    }
}

#[test]
fn a_fresh_database_has_the_installed_skills_table() {
    let mut db = open_db();
    assert!(db.get_installed_skill("nothing").unwrap().is_none());
}

#[test]
fn listed_lists_are_the_joined_rows() {
    let mut db = open_db();
    db.create_skill_group(&group("g1", "A", None)).unwrap();
    db.create_skill_group(&group("g2", "B", None)).unwrap();
    db.create_workspace(&workspace("w1", "one", "/p/1")).unwrap();
    db.create_workspace(&workspace("w2", "two", "/p/2")).unwrap();
    db.add_group_to_workspace("w1", "g2").unwrap();
    db.add_group_to_workspace("w1", "g1").unwrap();
    db.add_group_to_workspace("w2", "g1").unwrap();
    db.add_skill_to_group("g1", "s1").unwrap();
    db.add_skill_to_group("g1", "s2").unwrap();
    db.add_skill_to_group("g1", "s1").unwrap();
    for w in db.get_all_workspaces().unwrap() {
        let mut listed = w.group_ids.clone();
        let mut bound = db.get_workspace_group_ids(&w.id).unwrap();
        listed.sort();
        bound.sort();
        assert_eq!(listed, bound);
    }
    for g in db.get_all_skill_groups().unwrap() {
        let mut listed = g.member_ids.clone();
        let mut rows = db.get_group_member_ids(&g.id).unwrap();
        listed.sort();
        rows.sort();
        assert_eq!(listed, rows);
        let mut dedup = listed.clone();
        dedup.dedup();
        assert_eq!(dedup, listed);
    }
}
