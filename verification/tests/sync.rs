use cc_switch::{PathState, ScannedEntry, ServiceError, SkillInfo, SyncEvent, SyncStep, WorkspaceSync};
use std::collections::{BTreeMap, BTreeSet};

/// A pretend file system and skills database that answers the steps of a run.
struct World {
    manifest: Option<String>,
    manifest_unreadable: bool,
    /// Entries of the workspace skills directory.
    entries: BTreeMap<String, PathState>,
    /// Directories of the skills store.
    store: BTreeSet<String>,
    /// skill id -> directory
    skills: BTreeMap<String, String>,
    symlinks_work: bool,
    copies_work: bool,
    removals_fail: BTreeSet<String>,
    markers_written: Vec<String>,
    log: Vec<String>,
}

fn clone_state(s: &PathState) -> PathState {
    match s {
        PathState::Absent => PathState::Absent,
        PathState::Symlink { target_in_ssot, target_exists } => {
            PathState::Symlink { target_in_ssot: *target_in_ssot, target_exists: *target_exists }
        }
        PathState::Directory { has_marker } => PathState::Directory { has_marker: *has_marker },
        PathState::OtherFile => PathState::OtherFile,
    }
}

impl World {
    fn new() -> World {
        World {
            manifest: None,
            manifest_unreadable: false,
            entries: BTreeMap::new(),
            store: BTreeSet::new(),
            skills: BTreeMap::new(),
            symlinks_work: true,
            copies_work: true,
            removals_fail: BTreeSet::new(),
            markers_written: vec![],
            log: vec![],
        }
    }

    fn state(&self, name: &str) -> PathState {
        self.entries.get(name).map(clone_state).unwrap_or(PathState::Absent)
    }

    fn answer(&mut self, step: &SyncStep) -> SyncEvent {
        match step {
            SyncStep::CreateSkillsDir | SyncStep::ResolveSsotDir => SyncEvent::Done,
            SyncStep::ReadManifest => {
                if self.manifest_unreadable {
                    SyncEvent::Failed("unreadable".to_string())
                } else {
                    match &self.manifest {
                        None => SyncEvent::ManifestMissing,
                        Some(t) => SyncEvent::ManifestText(t.clone()),
                    }
                }
            }
            SyncStep::ScanEntries => SyncEvent::Entries(
                self.entries
                    .iter()
                    .map(|(n, s)| ScannedEntry {
                        name: Some(n.clone()),
                        state: clone_state(s),
                        ssot_source_is_dir: self.store.contains(n),
                        same_content_as_ssot: false,
                    })
                    .collect(),
            ),
            SyncStep::WriteMarker { name } => {
                self.markers_written.push(name.clone());
                self.entries.insert(name.clone(), PathState::Directory { has_marker: true });
                SyncEvent::Done
            }
            SyncStep::LookupSkill { skill_id } => SyncEvent::Skill(self.skills.get(skill_id).map(|d| SkillInfo {
                directory: d.clone(),
                name: d.clone(),
            })),
            SyncStep::InspectSkill { directory } => SyncEvent::SkillPaths {
                source_exists: self.store.contains(directory),
                dest: self.state(directory),
            },
            SyncStep::RemoveDeployed { directory } => {
                self.log.push(format!("rm {directory}"));
                self.entries.remove(directory);
                SyncEvent::Done
            }
            SyncStep::Symlink { directory } => {
                if self.symlinks_work && !self.entries.contains_key(directory) {
                    self.log.push(format!("ln {directory}"));
                    self.entries.insert(
                        directory.clone(),
                        PathState::Symlink { target_in_ssot: true, target_exists: true },
                    );
                    SyncEvent::Done
                } else {
                    SyncEvent::Failed("symlink".to_string())
                }
            }
            SyncStep::CopyAndMark { directory } => {
                if self.copies_work {
                    self.log.push(format!("cp {directory}"));
                    self.entries.insert(directory.clone(), PathState::Directory { has_marker: true });
                    SyncEvent::Done
                } else {
                    SyncEvent::Failed("copy".to_string())
                }
            }
            SyncStep::InspectEntry { name } => SyncEvent::EntryState(self.state(name)),
            SyncStep::RemoveEntry { name } => {
                if self.removals_fail.contains(name) {
                    SyncEvent::Failed("busy".to_string())
                } else {
                    self.log.push(format!("rm {name}"));
                    self.entries.remove(name);
                    SyncEvent::Done
                }
            }
            SyncStep::WriteManifest { content } => {
                self.manifest = Some(content.clone());
                SyncEvent::Done
            }
            SyncStep::Finished(_) => panic!("no answer to a finished run"),
        }
    }

    fn run(&mut self, skill_ids: &[&str]) -> Result<(), ServiceError> {
        let (mut run, mut step) =
            WorkspaceSync::new("/ws".to_string(), skill_ids.iter().map(|s| s.to_string()).collect());
        for _ in 0..1000 {
            if let SyncStep::Finished(r) = step {
                return r;
            }
            let ev = self.answer(&step);
            step = run.resume(ev);
        }
        panic!("the run did not finish");
    }

    fn manifest_names(&self) -> Vec<String> {
        serde_json::from_str(self.manifest.as_ref().unwrap()).unwrap()
    }
}

fn linked() -> PathState {
    PathState::Symlink { target_in_ssot: true, target_exists: true }
}

#[test]
fn first_run_links_every_skill_and_writes_a_sorted_manifest() {
    let mut w = World::new();
    for d in ["zeta", "alpha"] {
        w.store.insert(d.to_string());
    }
    w.skills.insert("s1".to_string(), "zeta".to_string());
    w.skills.insert("s2".to_string(), "alpha".to_string());
    w.run(&["s1", "s2"]).unwrap();
    assert_eq!(w.manifest_names(), vec!["alpha".to_string(), "zeta".to_string()]);
    assert!(matches!(w.state("alpha"), PathState::Symlink { .. }));
    assert_eq!(w.manifest.as_deref(), Some("[\n  \"alpha\",\n  \"zeta\"\n]"));
}

#[test]
fn a_skill_without_source_or_record_is_skipped() {
    let mut w = World::new();
    w.store.insert("present".to_string());
    w.skills.insert("s1".to_string(), "present".to_string());
    w.skills.insert("s2".to_string(), "absent-in-store".to_string());
    w.run(&["s1", "s2", "s3"]).unwrap();
    assert_eq!(w.manifest_names(), vec!["present".to_string()]);
}

#[test]
fn links_that_fail_fall_back_to_marked_copies() {
    let mut w = World::new();
    w.store.insert("a".to_string());
    w.skills.insert("s1".to_string(), "a".to_string());
    w.symlinks_work = false;
    w.run(&["s1"]).unwrap();
    assert!(matches!(w.state("a"), PathState::Directory { has_marker: true }));
    assert_eq!(w.manifest_names(), vec!["a".to_string()]);
}

#[test]
fn a_failed_copy_is_not_recorded() {
    let mut w = World::new();
    w.store.insert("a".to_string());
    w.skills.insert("s1".to_string(), "a".to_string());
    w.symlinks_work = false;
    w.copies_work = false;
    w.run(&["s1"]).unwrap();
    assert!(w.manifest_names().is_empty());
}

#[test]
fn a_users_own_directory_is_left_alone() {
    let mut w = World::new();
    w.manifest = Some("[]".to_string());
    w.store.insert("mine".to_string());
    w.skills.insert("s1".to_string(), "mine".to_string());
    w.entries.insert("mine".to_string(), PathState::Directory { has_marker: false });
    w.run(&["s1"]).unwrap();
    // The link fails (the directory is there), and the directory is not ours: no copy.
    assert!(matches!(w.state("mine"), PathState::Directory { has_marker: false }));
    assert!(w.manifest_names().is_empty());
    assert!(w.log.is_empty());
}

#[test]
fn a_recorded_deployment_is_replaced() {
    let mut w = World::new();
    w.manifest = Some("[\"a\"]".to_string());
    w.store.insert("a".to_string());
    w.skills.insert("s1".to_string(), "a".to_string());
    w.entries.insert("a".to_string(), linked());
    w.run(&["s1"]).unwrap();
    assert_eq!(w.log, vec!["rm a".to_string(), "ln a".to_string()]);
    assert_eq!(w.manifest_names(), vec!["a".to_string()]);
}

#[test]
fn a_recorded_entry_the_user_replaced_is_kept() {
    let mut w = World::new();
    w.manifest = Some("[\"a\"]".to_string());
    w.store.insert("a".to_string());
    w.skills.insert("s1".to_string(), "a".to_string());
    w.entries.insert("a".to_string(), PathState::Directory { has_marker: false });
    w.run(&["s1"]).unwrap();
    assert!(w.log.is_empty());
    assert!(matches!(w.state("a"), PathState::Directory { has_marker: false }));
    // Not deployed, not removed: it leaves the manifest.
    assert!(w.manifest_names().is_empty());
}

#[test]
fn stale_entries_are_removed_and_failures_kept_for_retry() {
    let mut w = World::new();
    w.manifest = Some("[\"old1\", \"old2\", \"old3\", \"user\"]".to_string());
    w.entries.insert("old1".to_string(), linked());
    w.entries.insert("old2".to_string(), PathState::Directory { has_marker: true });
    w.entries.insert("user".to_string(), PathState::Directory { has_marker: false });
    w.removals_fail.insert("old2".to_string());
    w.run(&[]).unwrap();
    assert!(matches!(w.state("old1"), PathState::Absent));
    assert!(matches!(w.state("old2"), PathState::Directory { has_marker: true }));
    assert!(matches!(w.state("user"), PathState::Directory { has_marker: false }));
    assert_eq!(w.manifest_names(), vec!["old2".to_string()]);
    assert_eq!(w.log, vec!["rm old1".to_string()]);
}

#[test]
fn unsafe_manifest_entries_are_ignored() {
    let mut w = World::new();
    w.manifest = Some("[\"../etc\", \"a/b\", \"..\", \"\", \"ok\", \"ok\"]".to_string());
    w.entries.insert("ok".to_string(), linked());
    w.run(&[]).unwrap();
    assert_eq!(w.log, vec!["rm ok".to_string()]);
    assert!(w.manifest_names().is_empty());
}

#[test]
fn a_damaged_manifest_stops_the_run_and_is_kept() {
    let mut w = World::new();
    w.manifest = Some("{not json".to_string());
    w.store.insert("a".to_string());
    w.skills.insert("s1".to_string(), "a".to_string());
    let r = w.run(&["s1"]);
    assert!(matches!(r, Err(ServiceError::ManifestParse(_))));
    assert_eq!(w.manifest.as_deref(), Some("{not json"));
    assert!(w.log.is_empty());
}

#[test]
fn an_unreadable_manifest_stops_the_run() {
    let mut w = World::new();
    w.manifest = Some("[]".to_string());
    w.manifest_unreadable = true;
    assert!(matches!(w.run(&[]), Err(ServiceError::ManifestRead(_))));
}

#[test]
fn a_first_run_adopts_existing_deployments() {
    let mut w = World::new();
    w.store.insert("kept".to_string());
    w.entries.insert("linked".to_string(), linked());
    w.entries.insert("marked".to_string(), PathState::Directory { has_marker: true });
    w.entries.insert("foreign-link".to_string(), PathState::Symlink { target_in_ssot: false, target_exists: true });
    w.entries.insert("user".to_string(), PathState::Directory { has_marker: false });
    w.skills.insert("s1".to_string(), "kept".to_string());
    w.run(&["s1"]).unwrap();
    // Adopted entries that are no longer wanted are removed; the others stay.
    assert!(matches!(w.state("linked"), PathState::Absent));
    assert!(matches!(w.state("marked"), PathState::Absent));
    assert!(matches!(w.state("foreign-link"), PathState::Symlink { .. }));
    assert!(matches!(w.state("user"), PathState::Directory { has_marker: false }));
    assert_eq!(w.manifest_names(), vec!["kept".to_string()]);
}

#[test]
fn an_existing_empty_manifest_does_not_adopt_but_recovers_orphans() {
    let mut w = World::new();
    w.manifest = Some("[]".to_string());
    w.entries.insert("orphan".to_string(), linked());
    w.entries.insert("user".to_string(), PathState::Directory { has_marker: false });
    w.run(&[]).unwrap();
    // The orphan is ours (a link into the store): recovered, then removed as stale.
    assert!(matches!(w.state("orphan"), PathState::Absent));
    assert!(matches!(w.state("user"), PathState::Directory { has_marker: false }));
}

#[test]
fn legacy_copies_get_their_marker_on_a_first_run() {
    let mut w = World::new();
    w.store.insert("legacy".to_string());
    w.entries.insert("legacy".to_string(), PathState::Directory { has_marker: false });
    let (mut run, mut step) = WorkspaceSync::new("/ws".to_string(), vec!["s1".to_string()]);
    w.skills.insert("s1".to_string(), "legacy".to_string());
    loop {
        if let SyncStep::Finished(r) = step {
            r.unwrap();
            break;
        }
        let ev = match &step {
            SyncStep::ScanEntries => SyncEvent::Entries(vec![ScannedEntry {
                name: Some("legacy".to_string()),
                state: PathState::Directory { has_marker: false },
                ssot_source_is_dir: true,
                same_content_as_ssot: true,
            }]),
            other => w.answer(other),
        };
        step = run.resume(ev);
    }
    assert_eq!(w.markers_written, vec!["legacy".to_string()]);
    assert_eq!(w.manifest_names(), vec!["legacy".to_string()]);
}

#[test]
fn a_failed_manifest_write_fails_the_run() {
    let (mut run, step) = WorkspaceSync::new("/ws".to_string(), vec![]);
    assert!(matches!(step, SyncStep::CreateSkillsDir));
    assert!(matches!(run.resume(SyncEvent::Done), SyncStep::ResolveSsotDir));
    assert!(matches!(run.resume(SyncEvent::Done), SyncStep::ReadManifest));
    assert!(matches!(run.resume(SyncEvent::ManifestMissing), SyncStep::ScanEntries));
    let step = run.resume(SyncEvent::Entries(vec![]));
    assert!(matches!(&step, SyncStep::WriteManifest { content } if content == "[]"));
    let step = run.resume(SyncEvent::Failed("disk full".to_string()));
    assert!(matches!(step, SyncStep::Finished(Err(ServiceError::ManifestWrite(m))) if m == "disk full"));
}

#[test]
fn early_failures_end_the_run_with_their_cause() {
    let (mut run, _) = WorkspaceSync::new("/ws".to_string(), vec![]);
    let step = run.resume(SyncEvent::Failed("denied".to_string()));
    assert!(matches!(step, SyncStep::Finished(Err(ServiceError::CreateSkillsDir(m))) if m == "denied"));
    let (mut run, _) = WorkspaceSync::new("/ws".to_string(), vec![]);
    run.resume(SyncEvent::Done);
    let step = run.resume(SyncEvent::Failed("no store".to_string()));
    assert!(matches!(step, SyncStep::Finished(Err(ServiceError::SsotDir(_)))));
}

#[test]
fn an_event_that_does_not_answer_the_step_ends_the_run() {
    let (mut run, _) = WorkspaceSync::new("/ws".to_string(), vec![]);
    let step = run.resume(SyncEvent::ManifestMissing);
    assert!(matches!(step, SyncStep::Finished(Err(ServiceError::UnexpectedEvent))));
    let step = run.resume(SyncEvent::Done);
    assert!(matches!(step, SyncStep::Finished(Err(ServiceError::UnexpectedEvent))));
}

#[test]
fn the_run_keeps_the_workspace_path() {
    let (run, _) = WorkspaceSync::new("/some/where".to_string(), vec![]);
    assert_eq!(run.workspace_path(), "/some/where");
}

#[test]
fn a_manifest_written_by_one_run_is_the_record_of_the_next() {
    let mut w = World::new();
    for d in ["a", "b"] {
        w.store.insert(d.to_string());
        w.skills.insert(format!("s-{d}"), d.to_string());
    }
    w.run(&["s-a", "s-b"]).unwrap();
    assert_eq!(w.manifest_names(), vec!["a".to_string(), "b".to_string()]);
    // The next run deploys only `a`: `b`, recorded by the first run, is removed.
    w.log.clear();
    w.run(&["s-a"]).unwrap();
    assert_eq!(w.manifest_names(), vec!["a".to_string()]);
    assert!(matches!(w.state("b"), PathState::Absent));
    assert_eq!(w.log, vec!["rm a".to_string(), "ln a".to_string(), "rm b".to_string()]);
}

#[test]
fn a_finished_run_stays_finished() {
    let (mut run, _) = WorkspaceSync::new("/ws".to_string(), vec![]);
    let step = run.resume(SyncEvent::Failed("denied".to_string()));
    assert!(matches!(step, SyncStep::Finished(Err(ServiceError::CreateSkillsDir(_)))));
    for ev in [SyncEvent::Done, SyncEvent::ManifestMissing, SyncEvent::Entries(vec![])] {
        assert!(matches!(run.resume(ev), SyncStep::Finished(Err(ServiceError::UnexpectedEvent))));
    }
}

#[test]
fn a_run_deploys_the_skills_found_and_removes_the_rest() {
    let mut w = World::new();
    w.manifest = Some("[\"gone\"]".to_string());
    w.entries.insert("gone".to_string(), linked());
    w.store.insert("a".to_string());
    w.skills.insert("s-a".to_string(), "a".to_string());
    w.run(&["s-a", "missing"]).unwrap();
    assert_eq!(w.log, vec!["ln a".to_string(), "rm gone".to_string()]);
    assert_eq!(w.manifest_names(), vec!["a".to_string()]);
}

#[test]
fn a_recorded_user_directory_without_marker_is_kept_and_forgotten() {
    let mut w = World::new();
    w.manifest = Some("[\"mine\"]".to_string());
    w.entries.insert("mine".to_string(), PathState::Directory { has_marker: false });
    w.run(&[]).unwrap();
    assert!(matches!(w.state("mine"), PathState::Directory { has_marker: false }));
    assert!(w.log.is_empty());
    assert_eq!(w.manifest.as_deref(), Some("[]"));
}
