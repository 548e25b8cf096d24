use cc_switch::services::names::{name_eq, name_less, sorted_names};
use cc_switch::services::workspace_skill::{group_ids_with_member, union_ids};
use cc_switch::{
    Database, FsEntry, FsNode, PathState, ScannedEntry, ServiceError, SkillGroup, SkillGroupApps,
    SkillGroupService, SyncEvent, SyncStep, Workspace, WorkspaceSkillService,
};

fn s(x: &str) -> String {
    x.to_string()
}

fn open_db() -> Database {
    let mut db = Database::new(rusqlite::Connection::open_in_memory().unwrap());
    db.init_schema().unwrap();
    db
}

fn entry(name: &str, state: PathState) -> ScannedEntry {
    ScannedEntry { name: Some(s(name)), state, ssot_source_is_dir: false, same_content_as_ssot: false }
}

fn file(name: &str, bytes: &[u8]) -> FsEntry {
    FsEntry { name: s(name), node: FsNode::File(Some(bytes.to_vec())) }
}

fn dir(name: &str, entries: Vec<FsEntry>) -> FsEntry {
    FsEntry { name: s(name), node: FsNode::Dir(Some(entries)) }
}

fn tree(entries: Vec<FsEntry>) -> FsNode {
    FsNode::Dir(Some(entries))
}

#[test]
fn manifest_entries_are_plain_names() {
    assert!(WorkspaceSkillService::is_safe_manifest_entry("my-skill"));
    assert!(WorkspaceSkillService::is_safe_manifest_entry("..."));
    assert!(WorkspaceSkillService::is_safe_manifest_entry(".hidden"));
    assert!(!WorkspaceSkillService::is_safe_manifest_entry(""));
    assert!(!WorkspaceSkillService::is_safe_manifest_entry("a/b"));
    assert!(!WorkspaceSkillService::is_safe_manifest_entry("a\\b"));
    assert!(!WorkspaceSkillService::is_safe_manifest_entry("."));
    assert!(!WorkspaceSkillService::is_safe_manifest_entry(".."));
    assert!(!WorkspaceSkillService::is_safe_manifest_entry("../up"));
}

#[test]
fn a_manifest_is_parsed_filtered_and_deduplicated() {
    let v = WorkspaceSkillService::parse_skills_manifest("[\"b\", \"../x\", \"a\", \"b\", \"\"]").unwrap();
    assert_eq!(v, vec![s("b"), s("a")]);
    assert!(WorkspaceSkillService::parse_skills_manifest("[]").unwrap().is_empty());
    assert!(matches!(
        WorkspaceSkillService::parse_skills_manifest("{\"a\": 1}"),
        Err(ServiceError::ManifestParse(_))
    ));
    assert!(matches!(WorkspaceSkillService::parse_skills_manifest("[1, 2]"), Err(ServiceError::ManifestParse(_))));
}

#[test]
fn a_manifest_is_rendered_sorted_and_reads_back() {
    let managed = vec![s("zeta"), s("Alpha"), s("beta")];
    let text = WorkspaceSkillService::render_skills_manifest(&managed);
    assert_eq!(text, "[\n  \"Alpha\",\n  \"beta\",\n  \"zeta\"\n]");
    let back = WorkspaceSkillService::parse_skills_manifest(&text).unwrap();
    assert_eq!(back, vec![s("Alpha"), s("beta"), s("zeta")]);
    assert_eq!(WorkspaceSkillService::render_skills_manifest(&vec![]), "[]");
}

#[test]
fn names_order_like_strings() {
    assert!(name_less("a", "b"));
    assert!(name_less("a", "ab"));
    assert!(!name_less("ab", "a"));
    assert!(!name_less("a", "a"));
    assert!(name_less("Z", "a"));
    assert!(name_less("", "a"));
    assert!(name_eq("é", "é"));
    assert!(!name_eq("e", "é"));
    let names = vec![s("b"), s("ä"), s("a"), s("B")];
    let sorted = sorted_names(&names);
    let mut expected = names.clone();
    expected.sort();
    assert_eq!(sorted, expected);
}

#[test]
fn ownership_is_read_from_the_path_state() {
    assert!(WorkspaceSkillService::is_still_managed(&PathState::Symlink { target_in_ssot: true, target_exists: false }));
    assert!(!WorkspaceSkillService::is_still_managed(&PathState::Symlink { target_in_ssot: false, target_exists: true }));
    assert!(WorkspaceSkillService::is_still_managed(&PathState::Directory { has_marker: true }));
    assert!(!WorkspaceSkillService::is_still_managed(&PathState::Directory { has_marker: false }));
    assert!(!WorkspaceSkillService::is_still_managed(&PathState::OtherFile));
    assert!(!WorkspaceSkillService::is_still_managed(&PathState::Absent));
}

#[test]
fn bootstrap_adopts_links_marked_dirs_and_identical_copies() {
    let mut legacy = entry("legacy", PathState::Directory { has_marker: false });
    legacy.ssot_source_is_dir = true;
    legacy.same_content_as_ssot = true;
    let mut edited = entry("edited", PathState::Directory { has_marker: false });
    edited.ssot_source_is_dir = true;
    edited.same_content_as_ssot = false;
    let entries = vec![
        entry("link", PathState::Symlink { target_in_ssot: true, target_exists: true }),
        entry("foreign", PathState::Symlink { target_in_ssot: false, target_exists: true }),
        entry("marked", PathState::Directory { has_marker: true }),
        legacy,
        edited,
        entry("file", PathState::OtherFile),
        entry("..", PathState::Directory { has_marker: true }),
        ScannedEntry { name: None, state: PathState::Directory { has_marker: true }, ssot_source_is_dir: false, same_content_as_ssot: false },
    ];
    let (adopted, markers) = WorkspaceSkillService::bootstrap_managed_entries(&entries);
    assert_eq!(adopted, vec![s("link"), s("marked"), s("legacy")]);
    assert_eq!(markers, vec![s("legacy")]);
}

#[test]
fn orphans_are_recovered_unless_recorded() {
    let mut legacy = entry("legacy", PathState::Directory { has_marker: false });
    legacy.ssot_source_is_dir = true;
    legacy.same_content_as_ssot = true;
    let entries = vec![
        entry("link", PathState::Symlink { target_in_ssot: true, target_exists: true }),
        entry("known", PathState::Symlink { target_in_ssot: true, target_exists: true }),
        entry("marked", PathState::Directory { has_marker: true }),
        legacy,
    ];
    let v = WorkspaceSkillService::recover_orphaned_managed(&entries, &vec![s("known")]);
    assert_eq!(v, vec![s("link"), s("marked")]);
}

#[test]
fn identical_trees_match_both_ways() {
    let a = tree(vec![file("SKILL.md", b"hello"), dir("sub", vec![file("x", b"1")])]);
    let b = tree(vec![dir("sub", vec![file("x", b"1")]), file("SKILL.md", b"hello")]);
    assert!(WorkspaceSkillService::dir_content_equals(&a, &b));
    assert!(WorkspaceSkillService::dir_content_equals(&b, &a));
    assert!(WorkspaceSkillService::is_subset_of_ssot(&a, &b));
}

#[test]
fn a_one_way_subset_does_not_match() {
    let only_skill = tree(vec![file("SKILL.md", b"hello")]);
    let store = tree(vec![file("SKILL.md", b"hello"), file("extra.md", b"more")]);
    assert!(!WorkspaceSkillService::dir_content_equals(&only_skill, &store));
    assert!(!WorkspaceSkillService::dir_content_equals(&store, &only_skill));
}

#[test]
fn differing_bytes_kinds_or_unreadable_parts_do_not_match() {
    let a = tree(vec![file("f", b"one")]);
    let b = tree(vec![file("f", b"two")]);
    assert!(!WorkspaceSkillService::dir_content_equals(&a, &b));
    let as_dir = tree(vec![dir("f", vec![file("g", b"one")])]);
    assert!(!WorkspaceSkillService::dir_content_equals(&a, &as_dir));
    let unreadable = tree(vec![FsEntry { name: s("f"), node: FsNode::File(None) }]);
    assert!(!WorkspaceSkillService::dir_content_equals(&unreadable, &unreadable));
    let dangling = tree(vec![FsEntry { name: s("f"), node: FsNode::Missing }]);
    assert!(!WorkspaceSkillService::dir_content_equals(&a, &dangling));
    assert!(!WorkspaceSkillService::dir_content_equals(&FsNode::Dir(None), &a));
}

#[test]
fn empty_directories_never_match() {
    let empty = tree(vec![]);
    assert!(!WorkspaceSkillService::dir_content_equals(&empty, &tree(vec![])));
    let with_empty_sub = tree(vec![dir("sub", vec![])]);
    assert!(!WorkspaceSkillService::dir_content_equals(&with_empty_sub, &tree(vec![dir("sub", vec![])])));
}

#[test]
fn member_lists_unite_without_repeats() {
    let lists = vec![vec![s("a"), s("b")], vec![s("b"), s("c"), s("a")], vec![], vec![s("d"), s("d")]];
    assert_eq!(union_ids(&lists), vec![s("a"), s("b"), s("c"), s("d")]);
    assert!(union_ids(&vec![]).is_empty());
}

fn group_with(id: &str, members: &[&str]) -> SkillGroup {
    SkillGroup {
        id: s(id),
        name: s(id),
        description: None,
        icon: None,
        is_active: false,
        sort_index: None,
        created_at: 0,
        updated_at: 0,
        apps: SkillGroupApps { claude: false, codex: false, gemini: false, opencode: false, hermes: false },
        member_ids: members.iter().map(|m| s(m)).collect(),
    }
}

#[test]
fn groups_containing_a_skill_are_found_in_order() {
    let groups = vec![group_with("g1", &["a", "b"]), group_with("g2", &["c"]), group_with("g3", &["b"])];
    assert_eq!(group_ids_with_member(&groups, "b"), vec![s("g1"), s("g3")]);
    assert!(group_ids_with_member(&groups, "z").is_empty());
}

#[test]
fn created_groups_are_fresh_and_stored() {
    let mut db = open_db();
    let g = SkillGroupService::create(&mut db, s("Writing"), Some(s("for prose"))).unwrap();
    assert_eq!(g.id.len(), 36);
    assert_eq!(g.name, "Writing");
    assert_eq!(g.description.as_deref(), Some("for prose"));
    assert!(!g.is_active && g.icon.is_none() && g.sort_index.is_none() && g.member_ids.is_empty());
    assert_eq!(g.created_at, g.updated_at);
    let back = db.get_skill_group(&g.id).unwrap().unwrap();
    assert_eq!(back.name, "Writing");
    let other = SkillGroupService::create(&mut db, s("Other"), None).unwrap();
    assert_ne!(other.id, g.id);
}

#[test]
fn updating_a_group_replaces_members_and_starts_workspace_runs() {
    let mut db = open_db();
    let g = SkillGroupService::create(&mut db, s("A"), None).unwrap();
    db.create_workspace(&Workspace { id: s("w1"), name: s("w"), path: s("/p/w1"), is_user_level: false, created_at: 0, updated_at: 0, group_ids: vec![] }).unwrap();
    db.toggle_workspace_group_active("w1", &g.id, true).unwrap();
    let (updated, runs) = SkillGroupService::update(&mut db, &g.id, s("B"), Some(s("d")), vec![s("s1"), s("s2")]).unwrap();
    assert_eq!(updated.name, "B");
    assert_eq!(updated.description.as_deref(), Some("d"));
    assert_eq!(updated.member_ids, vec![s("s1"), s("s2")]);
    assert_eq!(runs.len(), 1);
    assert_eq!(runs[0].0.workspace_path(), "/p/w1");
    assert!(matches!(runs[0].1, SyncStep::CreateSkillsDir));
    let mut m = db.get_group_member_ids(&g.id).unwrap();
    m.sort();
    assert_eq!(m, vec![s("s1"), s("s2")]);
    assert!(matches!(
        SkillGroupService::update(&mut db, "nope", s("x"), None, vec![]),
        Err(ServiceError::GroupNotFound(id)) if id == "nope"
    ));
}

#[test]
fn toggling_a_group_starts_a_run_over_the_active_members() {
    let mut db = open_db();
    let g1 = SkillGroupService::create(&mut db, s("A"), None).unwrap();
    let g2 = SkillGroupService::create(&mut db, s("B"), None).unwrap();
    db.set_group_members(&g1.id, &vec![s("s1"), s("s2")]).unwrap();
    db.set_group_members(&g2.id, &vec![s("s2"), s("s3")]).unwrap();
    db.create_workspace(&Workspace { id: s("w1"), name: s("w"), path: s("/p/w1"), is_user_level: false, created_at: 0, updated_at: 0, group_ids: vec![] }).unwrap();
    WorkspaceSkillService::toggle_group(&mut db, "w1", &g1.id, true).unwrap();
    let (run, step) = WorkspaceSkillService::toggle_group(&mut db, "w1", &g2.id, true).unwrap();
    assert!(matches!(step, SyncStep::CreateSkillsDir));
    assert_eq!(run.workspace_path(), "/p/w1");
    assert!(matches!(
        WorkspaceSkillService::toggle_group(&mut db, "missing", &g1.id, true),
        Err(ServiceError::WorkspaceNotFound(w)) if w == "missing"
    ));
    assert!(matches!(
        WorkspaceSkillService::sync_active_groups_to_workspace(&mut db, "missing"),
        Err(ServiceError::WorkspaceNotFound(_))
    ));
}

#[test]
fn runs_are_started_for_the_workspaces_of_a_group_or_skill() {
    let mut db = open_db();
    let g1 = SkillGroupService::create(&mut db, s("A"), None).unwrap();
    let g2 = SkillGroupService::create(&mut db, s("B"), None).unwrap();
    db.set_group_members(&g1.id, &vec![s("s1")]).unwrap();
    db.set_group_members(&g2.id, &vec![s("s1"), s("s2")]).unwrap();
    for w in ["w1", "w2", "w3"] {
        db.create_workspace(&Workspace { id: s(w), name: s(w), path: format!("/p/{w}"), is_user_level: false, created_at: 0, updated_at: 0, group_ids: vec![] }).unwrap();
    }
    db.toggle_workspace_group_active("w1", &g1.id, true).unwrap();
    db.toggle_workspace_group_active("w2", &g1.id, true).unwrap();
    db.toggle_workspace_group_active("w3", &g2.id, true).unwrap();
    let runs = WorkspaceSkillService::sync_workspaces_for_group(&mut db, &g1.id).unwrap();
    let mut paths: Vec<String> = runs.iter().map(|r| r.0.workspace_path().clone()).collect();
    paths.sort();
    assert_eq!(paths, vec![s("/p/w1"), s("/p/w2")]);
    let runs = WorkspaceSkillService::sync_workspaces_for_skill(&mut db, "s2").unwrap();
    assert_eq!(runs.len(), 1);
    assert_eq!(runs[0].0.workspace_path(), "/p/w3");
    let runs = WorkspaceSkillService::sync_workspaces_for_skill(&mut db, "s1").unwrap();
    assert_eq!(runs.len(), 3);
    assert!(WorkspaceSkillService::sync_workspaces_for_skill(&mut db, "none").unwrap().is_empty());
}

#[test]
fn a_sync_deploys_the_union_of_the_active_members() {
    let ws = Workspace { id: s("w"), name: s("w"), path: s("/p/w"), is_user_level: false, created_at: 0, updated_at: 0, group_ids: vec![] };
    let lists = vec![vec![s("a"), s("b")], vec![s("b"), s("c")], vec![]];
    let (mut run, step) = WorkspaceSkillService::start_sync(&ws, &lists);
    assert_eq!(run.workspace_path(), "/p/w");
    assert!(matches!(step, SyncStep::CreateSkillsDir));
    run.resume(SyncEvent::Done);
    run.resume(SyncEvent::Done);
    run.resume(SyncEvent::ManifestMissing);
    let mut step = run.resume(SyncEvent::Entries(vec![]));
    let mut looked_up = vec![];
    while let SyncStep::LookupSkill { skill_id } = &step {
        looked_up.push(skill_id.clone());
        step = run.resume(SyncEvent::Skill(None));
    }
    assert_eq!(looked_up, vec![s("a"), s("b"), s("c")]);
    assert!(matches!(&step, SyncStep::WriteManifest { content } if content == "[]"));
}

#[test]
fn stale_entries_are_the_recorded_safe_names_no_longer_deployed() {
    let old = vec![s("a"), s("../x"), s("b"), s("c"), s("")];
    let new = vec![s("b"), s("d")];
    assert_eq!(WorkspaceSkillService::stale_entries(&old, &new), vec![s("a"), s("c")]);
    assert!(WorkspaceSkillService::stale_entries(&vec![], &new).is_empty());
    assert!(WorkspaceSkillService::stale_entries(&new, &new).is_empty());
}

#[test]
fn a_failed_link_falls_back_to_a_copy_only_over_our_own_or_nothing() {
    assert!(WorkspaceSkillService::copies_after_failed_link(true, true));
    assert!(WorkspaceSkillService::copies_after_failed_link(true, false));
    assert!(WorkspaceSkillService::copies_after_failed_link(false, false));
    assert!(!WorkspaceSkillService::copies_after_failed_link(false, true));
}

#[test]
fn two_equal_files_are_no_equal_directories() {
    let a = FsNode::File(Some(b"same".to_vec()));
    let b = FsNode::File(Some(b"same".to_vec()));
    assert!(!WorkspaceSkillService::dir_content_equals(&a, &b));
    assert!(!WorkspaceSkillService::is_subset_of_ssot(&a, &b));
}

fn comps(parts: &[&str]) -> Vec<Vec<u8>> {
    parts.iter().map(|p| p.as_bytes().to_vec()).collect()
}

#[test]
fn a_link_is_ours_when_its_target_lies_in_the_store() {
    let ssot = comps(&["/", "home", "u", ".cc-switch", "skills"]);
    assert!(WorkspaceSkillService::link_target_in_ssot(&comps(&["/", "home", "u", ".cc-switch", "skills", "a"]), &ssot));
    assert!(WorkspaceSkillService::link_target_in_ssot(&ssot, &ssot));
    // A sibling whose name only begins like the store is not inside it.
    assert!(!WorkspaceSkillService::link_target_in_ssot(
        &comps(&["/", "home", "u", ".cc-switch", "skills2", "a"]),
        &ssot
    ));
    assert!(!WorkspaceSkillService::link_target_in_ssot(&comps(&["/", "home", "u"]), &ssot));
    assert!(!WorkspaceSkillService::link_target_in_ssot(&comps(&["home", "u", ".cc-switch", "skills", "a"]), &ssot));
    assert!(WorkspaceSkillService::link_target_in_ssot(&comps(&["a"]), &vec![]));
}

#[test]
fn manifest_names_are_written_with_json_escapes() {
    let managed = vec![s("e\u{1}f"), s("a\"b"), s("c\\d"), s("tab\there"), s("日本")];
    let text = WorkspaceSkillService::render_skills_manifest(&managed);
    assert_eq!(
        text,
        "[\n  \"a\\\"b\",\n  \"c\\\\d\",\n  \"e\\u0001f\",\n  \"tab\\there\",\n  \"日本\"\n]"
    );
    let back = WorkspaceSkillService::parse_skills_manifest(&text).unwrap();
    assert_eq!(back, vec![s("a\"b"), s("e\u{1}f"), s("tab\there"), s("日本")]);
}

#[test]
fn unions_of_the_same_members_hold_the_same_skills() {
    let a = union_ids(&vec![vec![s("x"), s("y")], vec![s("y"), s("z")]]);
    let b = union_ids(&vec![vec![s("z")], vec![s("x"), s("y"), s("z")], vec![s("x")]]);
    assert_eq!(a, vec![s("x"), s("y"), s("z")]);
    assert_eq!(b, vec![s("z"), s("x"), s("y")]);
    let (mut sa, mut sb) = (a.clone(), b.clone());
    sa.sort();
    sb.sort();
    assert_eq!(sa, sb);
}
