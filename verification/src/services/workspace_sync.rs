//! The synchronisation of a workspace's skills directory, as a
//! state machine: the machine decides, the caller performs each step on the
//! file system and hands back what came of it.
//!
//! A run creates the skills directory, finds the skills store, reads the
//! manifest of the entries this tool manages (adopting existing deployments
//! on a first run, and recovering deployments that a failed run left out of
//! the manifest), deploys each skill of the workspace's active groups (a link
//! into the store, or a marked copy where links fail), removes the managed
//! entries that are no longer wanted, and writes the new manifest.

use crate::services::names::{contains_name, insert_name, names_sorted};
use crate::services::workspace_skill::{
    lemma_stale_names_props, stale_names,
    bootstrap_adopts, is_orphan, json_string_list, lemma_selected_names_props, lemma_set_add_no_dup,
    safe_entry_set, lemma_safe_entry_set_props, entry_name, is_safe_entry_name, json_pretty_string_list, needs_marker,
    path_exists, path_present, selected_names, set_add, still_managed, PathState, ScannedEntry,
    WorkspaceSkillService,
};
use crate::services::ServiceError;
pub use crate::database::dao::installed_skills::SkillInfo;
use vstd::prelude::*;

verus! {

/// The next thing for the caller to do. Names are relative to the
/// workspace's skills directory and to the skills store.
#[derive(Debug)]
pub enum SyncStep {
    /// Create the skills directory (and its parents). Answer `Done` or `Failed`.
    CreateSkillsDir,
    /// Find the skills store. Answer `Done` or `Failed`.
    ResolveSsotDir,
    /// Read the manifest file. Answer `ManifestMissing`, `ManifestText` or `Failed`.
    ReadManifest,
    /// List the entries of the skills directory. Answer `Entries`, or
    /// `Failed` where the directory cannot be listed.
    ScanEntries,
    /// Write the ownership marker into the entry (a legacy copy). Any answer.
    WriteMarker { name: String },
    /// Look up the installed skill. Answer `Skill`, or `Failed` where the
    /// lookup fails.
    LookupSkill { skill_id: String },
    /// Inspect the skill's source in the store and its destination. Answer
    /// `SkillPaths`.
    InspectSkill { directory: String },
    /// Remove the destination (a deployment of this tool). Any answer.
    RemoveDeployed { directory: String },
    /// Link the destination to the source. Answer `Done` or `Failed`.
    Symlink { directory: String },
    /// Copy the source to the destination and write the marker into the copy
    /// (removing the copy where the marker cannot be written). Answer `Done`
    /// or `Failed`.
    CopyAndMark { directory: String },
    /// Inspect the entry. Answer `EntryState`.
    InspectEntry { name: String },
    /// Remove the entry. Answer `Done` or `Failed`.
    RemoveEntry { name: String },
    /// Replace the manifest file's contents with `content`. Answer `Done` or
    /// `Failed`.
    WriteManifest { content: String },
    /// The run is over.
    Finished(Result<(), ServiceError>),
}

/// What came of the last step.
#[derive(Debug)]
pub enum SyncEvent {
    Done,
    Failed(String),
    ManifestMissing,
    ManifestText(String),
    Entries(Vec<ScannedEntry>),
    /// `None`: no installed skill has the id.
    Skill(Option<SkillInfo>),
    SkillPaths { source_exists: bool, dest: PathState },
    EntryState(PathState),
}

#[derive(Clone, Copy, PartialEq, Eq, Debug)]
pub enum SyncPhase {
    CreatingDir,
    ResolvingSsot,
    ReadingManifest,
    Scanning,
    WritingMarkers,
    LookingUp,
    InspectingSkill,
    RemovingDeployed,
    Linking,
    Copying,
    Advancing,
    Reconciling,
    InspectingEntry,
    RemovingEntry,
    WritingManifest,
    Finished,
}

/// The phases that come before the removal of stale entries.
pub open spec fn before_cleanup(p: SyncPhase) -> bool {
    p is CreatingDir || p is ResolvingSsot || p is ReadingManifest || p is Scanning
        || p is WritingMarkers || p is LookingUp || p is InspectingSkill || p is RemovingDeployed
        || p is Linking || p is Copying || p is Advancing
}

/// Whether a machine in phase `p` is waiting for the answer to `step`: the
/// phase in which each step leaves the machine.
pub open spec fn awaits(p: SyncPhase, step: SyncStep) -> bool {
    match step {
        SyncStep::CreateSkillsDir => p is CreatingDir,
        SyncStep::ResolveSsotDir => p is ResolvingSsot,
        SyncStep::ReadManifest => p is ReadingManifest,
        SyncStep::ScanEntries => p is Scanning,
        SyncStep::WriteMarker { .. } => p is WritingMarkers,
        SyncStep::LookupSkill { .. } => p is LookingUp,
        SyncStep::InspectSkill { .. } => p is InspectingSkill,
        SyncStep::RemoveDeployed { .. } => p is RemovingDeployed,
        SyncStep::Symlink { .. } => p is Linking,
        SyncStep::CopyAndMark { .. } => p is Copying,
        SyncStep::InspectEntry { .. } => p is InspectingEntry,
        SyncStep::RemoveEntry { .. } => p is RemovingEntry,
        SyncStep::WriteManifest { .. } => p is WritingManifest,
        SyncStep::Finished(_) => p is Finished,
    }
}

/// Whether `step` is where a run in state `run` goes on: the marker of the
/// next legacy copy, else the lookup of the next skill, else the inspection
/// of the next stale entry, else the manifest of the entries it has deployed.
pub open spec fn moved_on(run: WorkspaceSync, step: SyncStep) -> bool {
    if run.markers_done() < run.legacy_copies().len() {
        step matches SyncStep::WriteMarker { name } && name@ == run.legacy_copies()[run.markers_done() as int]
    } else if run.skills_done() < run.skills().len() {
        step matches SyncStep::LookupSkill { skill_id } && skill_id@ == run.skills()[run.skills_done() as int]
    } else if run.stale_done() < run.stale_list().len() {
        step matches SyncStep::InspectEntry { name } && name@ == run.stale_list()[run.stale_done() as int]
    } else {
        step matches SyncStep::WriteManifest { content } && is_manifest_for(content@, run.deployed())
    }
}

/// Whether the event reports that the skill being deployed now stands in
/// the workspace: a link or a copy succeeded.
pub open spec fn deploy_succeeded(p: SyncPhase, event: SyncEvent) -> bool {
    (p is Linking || p is Copying) && event is Done
}

/// The record of managed entries after the scan: on a first run (no
/// manifest) the adopted entries, where there are any; then the orphans.
pub open spec fn scanned_record(
    recorded: Seq<Seq<char>>,
    manifest_missing: bool,
    entries: Seq<ScannedEntry>,
) -> Seq<Seq<char>> {
    let adopted = selected_names(entries, |e: ScannedEntry| bootstrap_adopts(e));
    let base = if manifest_missing && adopted.len() > 0 {
        adopted
    } else {
        recorded
    };
    base + selected_names(entries, |e: ScannedEntry| is_orphan(e, base))
}

/// Whether `content` is the manifest for the entries `managed`: the pretty
/// JSON array of the names in ascending order, from which the safe names
/// among `managed` are read back.
pub open spec fn is_manifest_for(content: Seq<char>, managed: Seq<Seq<char>>) -> bool {
    &&& exists|list: Seq<Seq<char>>|
        #[trigger] names_sorted(list) && list.len() == managed.len() && (forall|x: Seq<char>|
            list.contains(x) <==> managed.contains(x)) && content == json_pretty_string_list(list)
    &&& json_string_list(content) matches Some(es) && forall|x: Seq<char>|
        #[trigger] safe_entry_set(es).contains(x) <==> (managed.contains(x) && is_safe_entry_name(x))
}

/// The entries an event lists (none for any other event).
pub open spec fn listed_entries(event: SyncEvent) -> Seq<ScannedEntry> {
    match event {
        SyncEvent::Entries(v) => v@,
        _ => Seq::empty(),
    }
}

/// The legacy copies that need a marker after the scan.
pub open spec fn scanned_markers(
    markers: Seq<Seq<char>>,
    manifest_missing: bool,
    entries: Seq<ScannedEntry>,
) -> Seq<Seq<char>> {
    let adopted = selected_names(entries, |e: ScannedEntry| bootstrap_adopts(e));
    if manifest_missing && adopted.len() > 0 {
        selected_names(entries, |e: ScannedEntry| needs_marker(e))
    } else {
        markers
    }
}

fn present_now(s: &PathState) -> (res: bool)
    ensures
        res == path_present(*s),
{
    match s {
        PathState::Absent => false,
        _ => true,
    }
}

fn exists_now(s: &PathState) -> (res: bool)
    ensures
        res == path_exists(*s),
{
    match s {
        PathState::Absent => false,
        PathState::Symlink { target_exists, .. } => *target_exists,
        _ => true,
    }
}

/// Whether the key `a` comes before the key `b` in lexicographic order
/// (keys of nine integers).
pub open spec fn key_lt(a: Seq<int>, b: Seq<int>) -> bool {
    a[0] < b[0] || (a[0] == b[0] && (a[1] < b[1] || (a[1] == b[1] && (a[2] < b[2] || (a[2] == b[2] && (a[3] < b[3] || (a[3] == b[3] && (a[4] < b[4] || (a[4] == b[4] && (a[5] < b[5] || (a[5] == b[5] && (a[6] < b[6] || (a[6] == b[6] && (a[7] < b[7] || (a[7] == b[7] && (a[8] < b[8]))))))))))))))))
}

/// How much of a run is left, as a key that every step lowers: the steps
/// before the scan, the markers, the skills (and the step each is at), the
/// stale entries (and the step each is at), then the manifest.
pub open spec fn progress_key(r: WorkspaceSync) -> Seq<int> {
    let p = r.phase_of();
    seq![
        if p is CreatingDir || p is ResolvingSsot || p is ReadingManifest || p is Scanning { 1int } else { 0int },
        if p is CreatingDir { 4int } else if p is ResolvingSsot { 3int } else if p is ReadingManifest { 2int } else if p is Scanning { 1int } else { 0int },
        r.legacy_copies().len() - r.markers_done(),
        if p is WritingMarkers { 1int } else { 0int },
        r.skills().len() - r.skills_done(),
        if p is LookingUp { 5int } else if p is InspectingSkill { 4int } else if p is RemovingDeployed { 3int } else if p is Linking { 2int } else if p is Copying { 1int } else { 0int },
        r.stale_list().len() - r.stale_done(),
        if p is InspectingEntry { 2int } else if p is RemovingEntry { 1int } else { 0int },
        if p is WritingManifest || p is Advancing || p is Reconciling { 1int } else { 0int },
    ]
}

/// What one step of a run does (`before` answered with `event` becomes
/// `after`, which hands out `step`): the safety rules, the record, and the
/// next step for each phase and answer.
pub open spec fn resume_post(before: WorkspaceSync, event: SyncEvent, after: WorkspaceSync, step: SyncStep) -> bool {
    &&& after.skills() =~= before.skills()
    &&& after.workspace_dir() =~= before.workspace_dir()
    // A deployed skill is removed only where the manifest records it
    // and the inspection found this tool's own deployment there.
    &&& step matches SyncStep::RemoveDeployed { directory } ==> {
        &&& before.phase_of() is InspectingSkill
        &&& directory@ =~= before.current_directory()
        &&& before.recorded().contains(directory@)
        &&& event matches SyncEvent::SkillPaths { source_exists, dest } && source_exists
            && path_present(dest) && still_managed(dest)
    }
    // A stale entry is removed only where the manifest records it, it
    // is a safe name, it is no longer deployed, and the inspection
    // found this tool's own deployment there.
    &&& step matches SyncStep::RemoveEntry { name } ==> {
        &&& before.phase_of() is InspectingEntry
        &&& name@ =~= before.current_entry()
        &&& before.recorded().contains(name@)
        &&& is_safe_entry_name(name@)
        &&& !before.deployed().contains(name@)
        &&& event matches SyncEvent::EntryState(st) && path_present(st) && still_managed(st)
    }
    // The manifest written is the sorted list of the managed entries.
    &&& step matches SyncStep::WriteManifest { content } ==> is_manifest_for(content@, after.deployed())
    // A skill counts as deployed only once its link or copy succeeded;
    // the entries whose removal failed join the manifest at the end.
    &&& !(step is WriteManifest) && !(step is Finished) ==> forall|x: Seq<char>|
        #[trigger] after.deployed().contains(x) <==> (before.deployed().contains(x) || (
        deploy_succeeded(before.phase_of(), event) && x == before.current_directory()))
    &&& step is WriteManifest ==> forall|x: Seq<char>|
        #[trigger] after.deployed().contains(x) <==> (before.deployed().contains(x) || (
        deploy_succeeded(before.phase_of(), event) && x == before.current_directory())
            || after.kept_after_failure().contains(x))
    &&& after.kept_after_failure() =~= (if before.phase_of() is RemovingEntry
        && event is Failed {
        set_add(before.kept_after_failure(), before.current_entry())
    } else {
        before.kept_after_failure()
    })
    // Reading the manifest: its safe entries, each once, are the record;
    // a text that is not a JSON array of strings ends the run.
    &&& before.phase_of() is ReadingManifest ==> match event {
        SyncEvent::ManifestText(t) => match json_string_list(t@) {
            Some(es) => after.recorded() =~= safe_entry_set(es)
                && !after.manifest_was_missing(),
            None => step matches SyncStep::Finished(Err(ServiceError::ManifestParse(_))),
        },
        SyncEvent::ManifestMissing => after.recorded().len() == 0
            && after.manifest_was_missing(),
        _ => step is Finished,
    }
    // The scan adopts existing deployments only when there was no
    // manifest, and recovers orphaned deployments in any case.
    &&& before.phase_of() is Scanning && (event is Entries || event is Failed) ==> {
        &&& after.recorded() =~= scanned_record(
            before.recorded(),
            before.manifest_was_missing(),
            listed_entries(event),
        )
        &&& after.legacy_copies() =~= scanned_markers(
            before.legacy_copies(),
            before.manifest_was_missing(),
            listed_entries(event),
        )
    }
    &&& step matches SyncStep::WriteMarker { name } ==> after.legacy_copies().contains(name@)
    // The machine waits for the answer to the step it hands out, and
    // names the entry or skill directory it is working on.
    &&& awaits(after.phase_of(), step)
    &&& step matches SyncStep::InspectEntry { name } ==> after.current_entry() =~= name@
    &&& step matches SyncStep::RemoveEntry { name } ==> after.current_entry() =~= name@
    &&& step matches SyncStep::InspectSkill { directory } ==> after.current_directory() =~= directory@
    &&& step matches SyncStep::RemoveDeployed { directory } ==> after.current_directory() =~= directory@
    &&& step matches SyncStep::Symlink { directory } ==> after.current_directory() =~= directory@
    &&& step matches SyncStep::CopyAndMark { directory } ==> after.current_directory() =~= directory@
    &&& step matches SyncStep::LookupSkill { skill_id } ==> before.skills().contains(skill_id@)
    // The link and the copy are made for the skill that was looked up and
    // inspected: the directory stays the one the run is working on.
    &&& before.phase_of() is InspectingSkill ==> (step matches SyncStep::Symlink { directory }
        ==> directory@ =~= before.current_directory())
    &&& step matches SyncStep::CopyAndMark { directory } ==> directory@ =~= before.current_directory()
    &&& (after.phase_of() is RemovingDeployed || after.phase_of() is Linking || after.phase_of() is Copying)
        ==> after.current_directory() =~= before.current_directory()
    // From the scan on, the record stays as the scan left it.
    &&& !(before.phase_of() is ReadingManifest) && !(before.phase_of() is Scanning) ==> {
        &&& after.recorded() =~= before.recorded()
        &&& after.legacy_copies() =~= before.legacy_copies()
        &&& after.manifest_was_missing() == before.manifest_was_missing()
    }
    // A skill is linked only where its source exists and nothing of
    // this tool's record stands at its destination (a recorded
    // deployment is removed first; one the user replaced is left).
    &&& before.phase_of() is InspectingSkill && step is Symlink ==> {
        &&& event matches SyncEvent::SkillPaths { source_exists, dest } && source_exists
            && !(before.recorded().contains(before.current_directory()) && path_present(dest))
            && after.destination_existed() == path_exists(dest)
    }
    &&& before.phase_of() is InspectingSkill && !(event matches SyncEvent::SkillPaths {
        source_exists,
        ..
    } && source_exists) ==> !(step is Symlink) && !(step is RemoveDeployed)
    &&& before.phase_of() is InspectingSkill ==> (event matches SyncEvent::SkillPaths {
        source_exists,
        dest,
    } ==> {
        &&& source_exists && before.recorded().contains(before.current_directory())
            && path_present(dest) && still_managed(dest) ==> step is RemoveDeployed
        &&& source_exists && !(before.recorded().contains(before.current_directory())
            && path_present(dest)) ==> step is Symlink
    })
    &&& before.phase_of() is Linking && event is Failed && (before.recorded().contains(
        before.current_directory(),
    ) || !before.destination_existed()) ==> step is CopyAndMark
    // A failed link falls back to a copy only where the destination
    // is this tool's (recorded) or nothing stood there.
    &&& step is CopyAndMark ==> {
        &&& before.phase_of() is Linking
        &&& event is Failed
        &&& before.recorded().contains(before.current_directory())
            || !before.destination_existed()
    }
    // A failure of the file system at the start ends the run with its
    // cause, and so does a failed write of the manifest.
    &&& before.phase_of() is CreatingDir ==> (event matches SyncEvent::Failed(m) ==> step
        == SyncStep::Finished(Err(ServiceError::CreateSkillsDir(m))))
    &&& before.phase_of() is ResolvingSsot ==> (event matches SyncEvent::Failed(m) ==> step
        == SyncStep::Finished(Err(ServiceError::SsotDir(m))))
    &&& before.phase_of() is ReadingManifest ==> (event matches SyncEvent::Failed(m) ==> step
        == SyncStep::Finished(Err(ServiceError::ManifestRead(m))))
    &&& before.phase_of() is WritingManifest ==> match event {
        SyncEvent::Done => step == SyncStep::Finished(Ok(())),
        SyncEvent::Failed(m) => step == SyncStep::Finished(Err(ServiceError::ManifestWrite(m))),
        _ => step == SyncStep::Finished(Err(ServiceError::UnexpectedEvent)),
    }
    // Each answer moves the run on: the next step is fixed by the
    // phase and the answer.
    &&& before.phase_of() is CreatingDir && event is Done ==> step is ResolveSsotDir
    &&& before.phase_of() is ResolvingSsot && event is Done ==> step is ReadManifest
    &&& before.phase_of() is ReadingManifest ==> (event is ManifestMissing ==> step is ScanEntries)
    &&& before.phase_of() is ReadingManifest ==> (event matches SyncEvent::ManifestText(t) ==> (
    json_string_list(t@) is Some ==> step is ScanEntries))
    &&& before.phase_of() is Scanning && (event is Entries || event is Failed) ==> {
        &&& moved_on(after, step)
        &&& after.markers_done() == 0
        &&& after.skills_done() == 0
    }
    &&& before.phase_of() is WritingMarkers && (event is Done || event is Failed) ==> {
        &&& moved_on(after, step)
        &&& after.markers_done() == before.markers_done() + 1
        &&& after.skills_done() == before.skills_done()
    }
    &&& before.phase_of() is LookingUp ==> (event matches SyncEvent::Skill(Some(info)) ==> (step matches SyncStep::InspectSkill {
        directory,
    } && directory@ =~= info.directory@ && after.current_directory() =~= info.directory@))
    &&& before.phase_of() is LookingUp && (event matches SyncEvent::Skill(None) || event is Failed) ==> {
        &&& moved_on(after, step)
        &&& after.skills_done() == before.skills_done() + 1
    }
    &&& before.phase_of() is InspectingSkill ==> (event matches SyncEvent::SkillPaths { source_exists, dest } ==> (
    (!source_exists || (before.recorded().contains(before.current_directory()) && path_present(dest)
        && !still_managed(dest))) ==> moved_on(after, step) && after.skills_done()
        == before.skills_done() + 1))
    &&& before.phase_of() is RemovingDeployed && (event is Done || event is Failed) ==> (step matches SyncStep::Symlink {
        directory,
    } && directory@ =~= before.current_directory())
    &&& (before.phase_of() is Linking && event is Done) || (before.phase_of() is Copying && (event is Done
        || event is Failed)) || (before.phase_of() is Linking && event is Failed && !(before.recorded().contains(
        before.current_directory(),
    ) || !before.destination_existed())) ==> {
        &&& moved_on(after, step)
        &&& after.skills_done() == before.skills_done() + 1
    }
    &&& before.phase_of() is InspectingEntry ==> (event matches SyncEvent::EntryState(st) ==> (if path_present(st)
        && still_managed(st) {
        step matches SyncStep::RemoveEntry { name } && name@ =~= before.current_entry()
    } else {
        moved_on(after, step) && (step is InspectEntry ==> after.stale_done() == before.stale_done() + 1)
    }))
    &&& before.phase_of() is RemovingEntry && (event is Done || event is Failed) ==> {
        &&& moved_on(after, step)
        &&& step is InspectEntry ==> after.stale_done() == before.stale_done() + 1
    }
    // The stale entries are those `stale_names` gives.
    &&& (after.phase_of() is InspectingEntry || after.phase_of() is RemovingEntry) ==> {
        &&& after.stale_list() =~= stale_names(after.recorded(), after.deployed())
        &&& after.stale_done() < after.stale_list().len()
    }
    // A finished run stays finished.
    &&& before.phase_of() is Finished ==> step == SyncStep::Finished(Err(ServiceError::UnexpectedEvent))
    // Every step of a run that has not finished lowers its progress key, so
    // a run always comes to an end.
    &&& !(before.phase_of() is Finished) ==> key_lt(progress_key(after), progress_key(before))
}

/// A running synchronisation of one workspace.
#[derive(Debug)]
pub struct WorkspaceSync {
    workspace_path: String,
    skill_ids: Vec<String>,
    phase: SyncPhase,
    manifest_missing: bool,
    old_managed: Vec<String>,
    markers: Vec<String>,
    next_marker: usize,
    next_skill: usize,
    current_dir: String,
    current_in_old: bool,
    current_dest_exists: bool,
    new_managed: Vec<String>,
    stale: Vec<String>,
    next_stale: usize,
    failed: Vec<String>,
}

impl WorkspaceSync {
    /// The entries that the manifest (with adopted and recovered entries)
    /// records as managed by this tool at the start of the run.
    pub closed spec fn recorded(&self) -> Seq<Seq<char>> {
        self.old_managed.deep_view()
    }

    /// The entries managed after the run so far: the skills deployed.
    pub closed spec fn deployed(&self) -> Seq<Seq<char>> {
        self.new_managed.deep_view()
    }

    /// The stale entries whose removal failed (kept in the manifest).
    pub closed spec fn kept_after_failure(&self) -> Seq<Seq<char>> {
        self.failed.deep_view()
    }

    /// Whether the manifest file was missing when the run read it.
    pub closed spec fn manifest_was_missing(&self) -> bool {
        self.manifest_missing
    }

    /// The skill ids the run deploys.
    pub closed spec fn skills(&self) -> Seq<Seq<char>> {
        self.skill_ids.deep_view()
    }

    /// The phase the run is in.
    pub closed spec fn phase_of(&self) -> SyncPhase {
        self.phase
    }

    /// The legacy copies that were adopted and get their marker written.
    pub closed spec fn legacy_copies(&self) -> Seq<Seq<char>> {
        self.markers.deep_view()
    }

    /// The stale entry being removed.
    pub closed spec fn current_entry(&self) -> Seq<char> {
        self.stale.deep_view()[self.next_stale as int]
    }

    /// The workspace directory whose skills directory the run synchronises.
    pub closed spec fn workspace_dir(&self) -> Seq<char> {
        self.workspace_path@
    }

    /// Whether the destination of the skill being deployed existed when it
    /// was inspected.
    pub closed spec fn destination_existed(&self) -> bool {
        self.current_dest_exists
    }

    /// How many legacy copies have had their marker written (or attempted).
    pub closed spec fn markers_done(&self) -> nat {
        self.next_marker as nat
    }

    /// How many of the skills have been dealt with.
    pub closed spec fn skills_done(&self) -> nat {
        self.next_skill as nat
    }

    /// The stale entries the run removes at its end (once computed).
    pub closed spec fn stale_list(&self) -> Seq<Seq<char>> {
        self.stale.deep_view()
    }

    /// How many stale entries have been dealt with.
    pub closed spec fn stale_done(&self) -> nat {
        self.next_stale as nat
    }

    /// The directory of the skill being deployed.
    pub closed spec fn current_directory(&self) -> Seq<char> {
        self.current_dir@
    }

    /// The machine's internal consistency, which every step keeps.
    pub closed spec fn wf(&self) -> bool {
        &&& self.next_skill <= self.skill_ids.len()
        &&& self.next_marker <= self.markers.len()
        &&& self.next_stale <= self.stale.len()
        &&& self.old_managed.deep_view().no_duplicates()
        &&& forall|i: int|
            0 <= i < self.old_managed.len() ==> is_safe_entry_name(
                #[trigger] self.old_managed.deep_view()[i],
            )
        &&& self.new_managed.deep_view().no_duplicates()
        &&& self.failed.deep_view().no_duplicates()
        &&& forall|i: int|
            0 <= i < self.stale.len() ==> {
                let x = #[trigger] self.stale.deep_view()[i];
                &&& self.old_managed.deep_view().contains(x)
                &&& is_safe_entry_name(x)
                &&& !self.new_managed.deep_view().contains(x)
            }
        &&& (self.phase is InspectingSkill || self.phase is RemovingDeployed || self.phase is Linking
            || self.phase is Copying) ==> {
            &&& self.next_skill < self.skill_ids.len()
            &&& self.current_in_old == self.old_managed.deep_view().contains(self.current_dir@)
        }
        &&& (self.phase is InspectingEntry || self.phase is RemovingEntry) ==> self.next_stale
            < self.stale.len()
        &&& self.phase is WritingMarkers ==> self.next_marker < self.markers.len()
        &&& before_cleanup(self.phase) ==> self.stale.len() == 0 && self.failed.len() == 0
        &&& self.phase is LookingUp ==> self.next_skill < self.skill_ids.len()
        &&& (self.phase is LookingUp || self.phase is InspectingSkill || self.phase is RemovingDeployed
            || self.phase is Linking || self.phase is Copying || self.phase is InspectingEntry
            || self.phase is RemovingEntry) ==> self.next_marker == self.markers.len()
        &&& (self.phase is InspectingEntry || self.phase is RemovingEntry) ==> {
            &&& self.next_skill == self.skill_ids.len()
            &&& self.stale.deep_view() == stale_names(self.old_managed.deep_view(), self.new_managed.deep_view())
        }
        &&& (self.phase is CreatingDir || self.phase is ResolvingSsot || self.phase is ReadingManifest
            || self.phase is Scanning || self.phase is WritingMarkers) ==> self.next_skill == 0
    }

    /// A run for the workspace at `workspace_path` that deploys the skills
    /// `skill_ids`, and its first step.
    pub fn new(workspace_path: String, skill_ids: Vec<String>) -> (res: (WorkspaceSync, SyncStep))
        ensures
            res.0.wf(),
            res.0.skills() == skill_ids.deep_view(),
            res.0.workspace_dir() == workspace_path@,
            res.0.phase_of() is CreatingDir,
            res.1 is CreateSkillsDir,
            awaits(res.0.phase_of(), res.1),
    {
        (
            WorkspaceSync {
                workspace_path,
                skill_ids,
                phase: SyncPhase::CreatingDir,
                manifest_missing: false,
                old_managed: Vec::new(),
                markers: Vec::new(),
                next_marker: 0,
                next_skill: 0,
                current_dir: String::new(),
                current_in_old: false,
                current_dest_exists: false,
                new_managed: Vec::new(),
                stale: Vec::new(),
                next_stale: 0,
                failed: Vec::new(),
            },
            SyncStep::CreateSkillsDir,
        )
    }

    /// The workspace directory (whose skills directory is synchronised).
    pub fn workspace_path(&self) -> (res: &String)
        ensures
            res@ == self.workspace_dir(),
    {
        &self.workspace_path
    }

    fn finish(&mut self, r: Result<(), ServiceError>) -> (step: SyncStep)
        requires
            old(self).wf(),
        ensures
            final(self).markers_done() == old(self).markers_done(),
            final(self).skills_done() == old(self).skills_done(),
            final(self).stale_list() == old(self).stale_list(),
            final(self).stale_done() == old(self).stale_done(),
            final(self).current_directory() == old(self).current_directory(),
            final(self).wf(),
            final(self).phase_of() is Finished,
            step == SyncStep::Finished(r),
            final(self).deployed() == old(self).deployed(),
            final(self).recorded() == old(self).recorded(),
            final(self).kept_after_failure() == old(self).kept_after_failure(),
            final(self).skills() == old(self).skills(),
            final(self).workspace_dir() == old(self).workspace_dir(),
            final(self).legacy_copies() == old(self).legacy_copies(),
            final(self).manifest_was_missing() == old(self).manifest_was_missing(),
    {
        self.phase = SyncPhase::Finished;
        SyncStep::Finished(r)
    }

    fn advance_cleanup(&mut self) -> (step: SyncStep)
        requires
            old(self).wf(),
            old(self).markers_done() == old(self).legacy_copies().len(),
            old(self).skills_done() == old(self).skills().len(),
            old(self).stale_list() == stale_names(old(self).recorded(), old(self).deployed()),
        ensures
            moved_on(*final(self), step),
            final(self).markers_done() == old(self).markers_done(),
            final(self).skills_done() == old(self).skills_done(),
            step is InspectEntry ==> final(self).stale_list() == old(self).stale_list()
                && final(self).stale_done() == old(self).stale_done(),
            final(self).wf(),
            final(self).recorded() == old(self).recorded(),
            final(self).kept_after_failure() == old(self).kept_after_failure(),
            final(self).skills() == old(self).skills(),
            final(self).workspace_dir() == old(self).workspace_dir(),
            final(self).legacy_copies() == old(self).legacy_copies(),
            final(self).manifest_was_missing() == old(self).manifest_was_missing(),
            step matches SyncStep::InspectEntry { name } ==> final(self).phase_of() is InspectingEntry
                && final(self).deployed() == old(self).deployed(),
            !(step is InspectEntry) ==> forall|x: Seq<char>|
                final(self).deployed().contains(x) <==> (old(self).deployed().contains(x)
                    || old(self).kept_after_failure().contains(x)),
            step matches SyncStep::WriteManifest { content } ==> final(self).phase_of() is WritingManifest
                && is_manifest_for(content@, final(self).deployed()),
            step is InspectEntry || step is WriteManifest,
            awaits(final(self).phase_of(), step),
            step matches SyncStep::InspectEntry { name } ==> final(self).current_entry() == name@,
    {
        if self.next_stale < self.stale.len() {
            self.phase = SyncPhase::InspectingEntry;
            let name = self.stale[self.next_stale].clone();
            assert(name@ == self.stale.deep_view()[self.next_stale as int]);
            return SyncStep::InspectEntry { name };
        }
        self.next_stale = 0;
        self.stale = Vec::new();
        let mut i: usize = 0;
        let ghost before = self.new_managed.deep_view();
        while i < self.failed.len()
            invariant
                self.wf(),
                self.stale.len() == 0,
                self.next_stale == 0,
                self.markers_done() == old(self).markers_done(),
                self.skills_done() == old(self).skills_done(),
                i <= self.failed.len(),
                self.recorded() == old(self).recorded(),
                self.kept_after_failure() == old(self).kept_after_failure(),
                self.skills() == old(self).skills(),
                self.workspace_dir() == old(self).workspace_dir(),
                self.legacy_copies() == old(self).legacy_copies(),
                self.manifest_was_missing() == old(self).manifest_was_missing(),
                before == old(self).deployed(),
                forall|x: Seq<char>|
                    #[trigger] self.new_managed.deep_view().contains(x) <==> (before.contains(x)
                        || self.failed.deep_view().take(i as int).contains(x)),
            decreases self.failed.len() - i,
        {
            let f = self.failed[i].clone();
            assert(f@ == self.failed.deep_view()[i as int]);
            let ghost prev = self.new_managed.deep_view();
            let ghost t0 = self.failed.deep_view().take(i as int);
            assert(forall|y: Seq<char>| #[trigger] prev.contains(y) <==> (before.contains(y) || t0.contains(y)));
            proof {
                lemma_set_add_no_dup(prev, f@);
            }
            insert_name(&mut self.new_managed, f);
            proof {
                let t1 = self.failed.deep_view().take(i + 1);
                assert(t1 =~= t0.push(self.failed.deep_view()[i as int]));
                assert(self.new_managed.deep_view() == set_add(prev, f@));
                assert forall|x: Seq<char>| self.new_managed.deep_view().contains(x) <==> (before.contains(x) || t1.contains(x)) by {
                    assert(set_add(prev, f@).contains(x) <==> (prev.contains(x) || x == f@));
                    assert(prev.contains(x) <==> (before.contains(x) || t0.contains(x)));
                    if t0.contains(x) {
                        let k = choose|k: int| 0 <= k < t0.len() && t0[k] == x;
                        assert(t1[k] == x);
                    }
                    if x == f@ {
                        assert(t1[i as int] == x);
                    }
                    if t1.contains(x) {
                        let k = choose|k: int| 0 <= k < t1.len() && t1[k] == x;
                        if k < t0.len() {
                            assert(t0[k] == x);
                        } else {
                            assert(x == f@);
                        }
                    }
                }
            }
            i = i + 1;
        }
        assert(self.failed.deep_view().take(self.failed.len() as int) =~= self.failed.deep_view());
        assert forall|x: Seq<char>| #[trigger] self.new_managed.deep_view().contains(x) <==> (before.contains(x)
            || self.failed.deep_view().contains(x)) by {
            assert(i == self.failed.len());
            assert(self.failed.deep_view().take(i as int) == self.failed.deep_view());
            assert(self.new_managed.deep_view().contains(x) <==> (before.contains(x)
                || self.failed.deep_view().take(i as int).contains(x)));
        }
        let content = WorkspaceSkillService::render_skills_manifest(&self.new_managed);
        self.phase = SyncPhase::WritingManifest;
        SyncStep::WriteManifest { content }
    }

    fn advance_skills(&mut self) -> (step: SyncStep)
        requires
            old(self).wf(),
            before_cleanup(old(self).phase_of()),
            old(self).markers_done() == old(self).legacy_copies().len(),
        ensures
            moved_on(*final(self), step),
            final(self).markers_done() == old(self).markers_done(),
            final(self).skills_done() == old(self).skills_done(),
            step is InspectEntry ==> final(self).stale_list() == stale_names(final(self).recorded(), final(self).deployed())
                && final(self).stale_done() == 0,
            final(self).wf(),
            final(self).recorded() == old(self).recorded(),
            final(self).skills() == old(self).skills(),
            final(self).workspace_dir() == old(self).workspace_dir(),
            final(self).legacy_copies() == old(self).legacy_copies(),
            final(self).manifest_was_missing() == old(self).manifest_was_missing(),
            final(self).kept_after_failure().len() == 0,
            forall|x: Seq<char>| #[trigger]
                final(self).deployed().contains(x) <==> old(self).deployed().contains(x),
            step matches SyncStep::LookupSkill { skill_id } ==> final(self).phase_of() is LookingUp
                && old(self).skills().contains(skill_id@),
            step is InspectEntry ==> final(self).phase_of() is InspectingEntry,
            step matches SyncStep::WriteManifest { content } ==> final(self).phase_of() is WritingManifest
                && is_manifest_for(content@, final(self).deployed()),
            step is LookupSkill || step is InspectEntry || step is WriteManifest,
            awaits(final(self).phase_of(), step),
            step matches SyncStep::InspectEntry { name } ==> final(self).current_entry() == name@,
    {
        if self.next_skill < self.skill_ids.len() {
            self.phase = SyncPhase::LookingUp;
            let id = self.skill_ids[self.next_skill].clone();
            assert(self.skill_ids.deep_view()[self.next_skill as int] == id@);
            return SyncStep::LookupSkill { skill_id: id };
        }
        self.phase = SyncPhase::Reconciling;
        let stale = WorkspaceSkillService::stale_entries(&self.old_managed, &self.new_managed);
        proof {
            lemma_stale_names_props(self.old_managed.deep_view(), self.new_managed.deep_view());
            assert forall|k: int| 0 <= k < stale.len() implies {
                let x = #[trigger] stale.deep_view()[k];
                &&& self.old_managed.deep_view().contains(x)
                &&& is_safe_entry_name(x)
                &&& !self.new_managed.deep_view().contains(x)
            } by {
                assert(stale.deep_view().contains(stale.deep_view()[k]));
            }
        }
        self.next_stale = 0;
        self.stale = stale;
        self.advance_cleanup()
    }

    fn advance_markers(&mut self) -> (step: SyncStep)
        requires
            old(self).wf(),
            before_cleanup(old(self).phase_of()),
            old(self).skills_done() == 0,
        ensures
            moved_on(*final(self), step),
            final(self).markers_done() == old(self).markers_done(),
            final(self).skills_done() == old(self).skills_done(),
            step is InspectEntry ==> final(self).stale_list() == stale_names(final(self).recorded(), final(self).deployed())
                && final(self).stale_done() == 0,
            final(self).wf(),
            final(self).recorded() == old(self).recorded(),
            final(self).skills() == old(self).skills(),
            final(self).workspace_dir() == old(self).workspace_dir(),
            final(self).legacy_copies() == old(self).legacy_copies(),
            final(self).manifest_was_missing() == old(self).manifest_was_missing(),
            final(self).kept_after_failure().len() == 0,
            forall|x: Seq<char>| #[trigger]
                final(self).deployed().contains(x) <==> old(self).deployed().contains(x),
            step matches SyncStep::WriteMarker { name } ==> final(self).phase_of() is WritingMarkers
                && old(self).legacy_copies().contains(name@),
            step matches SyncStep::LookupSkill { skill_id } ==> final(self).phase_of() is LookingUp
                && old(self).skills().contains(skill_id@),
            step is InspectEntry ==> final(self).phase_of() is InspectingEntry,
            step matches SyncStep::WriteManifest { content } ==> final(self).phase_of() is WritingManifest
                && is_manifest_for(content@, final(self).deployed()),
            step is WriteMarker || step is LookupSkill || step is InspectEntry || step is WriteManifest
               ,
            awaits(final(self).phase_of(), step),
            step matches SyncStep::InspectEntry { name } ==> final(self).current_entry() == name@,
    {
        if self.next_marker < self.markers.len() {
            self.phase = SyncPhase::WritingMarkers;
            let m = self.markers[self.next_marker].clone();
            assert(self.markers.deep_view()[self.next_marker as int] == m@);
            return SyncStep::WriteMarker { name: m };
        }
        self.advance_skills()
    }

    fn on_scan(&mut self, entries: &Vec<ScannedEntry>) -> (step: SyncStep)
        requires
            old(self).wf(),
            old(self).phase_of() is Scanning,
        ensures
            moved_on(*final(self), step),
            final(self).markers_done() == 0,
            final(self).skills_done() == old(self).skills_done(),
            step is InspectEntry ==> final(self).stale_list() == stale_names(final(self).recorded(), final(self).deployed())
                && final(self).stale_done() == 0,
            final(self).wf(),
            final(self).skills() == old(self).skills(),
            final(self).workspace_dir() == old(self).workspace_dir(),
            final(self).kept_after_failure().len() == 0,
            forall|x: Seq<char>| #[trigger]
                final(self).deployed().contains(x) <==> old(self).deployed().contains(x),
            final(self).recorded() == scanned_record(
                old(self).recorded(),
                old(self).manifest_was_missing(),
                entries@,
            ),
            final(self).legacy_copies() == scanned_markers(
                old(self).legacy_copies(),
                old(self).manifest_was_missing(),
                entries@,
            ),
            step matches SyncStep::WriteMarker { name } ==> final(self).legacy_copies().contains(name@),
            step matches SyncStep::WriteManifest { content } ==> is_manifest_for(content@, final(self).deployed()),
            step is WriteMarker || step is LookupSkill || step is InspectEntry || step is WriteManifest
               ,
            awaits(final(self).phase_of(), step),
            step matches SyncStep::InspectEntry { name } ==> final(self).current_entry() == name@,
            step matches SyncStep::LookupSkill { skill_id } ==> old(self).skills().contains(skill_id@),
    {
        if self.manifest_missing {
            let (adopted, legacy) = WorkspaceSkillService::bootstrap_managed_entries(entries);
            if adopted.len() > 0 {
                proof {
                    lemma_selected_names_props(entries@, |e: ScannedEntry| bootstrap_adopts(e));
                    assert forall|i: int| 0 <= i < adopted.len() implies is_safe_entry_name(
                        #[trigger] adopted.deep_view()[i],
                    ) by {
                        let y = adopted.deep_view()[i];
                        assert(adopted.deep_view().contains(y));
                        let k = choose|k: int| 0 <= k < entries@.len() && bootstrap_adopts(#[trigger] entries@[k]) && entry_name(entries@[k]) == Some(y);
                    }
                }
                self.next_marker = 0;
                self.old_managed = adopted;
                self.markers = legacy;
            }
        }
        let ghost base = self.old_managed.deep_view();
        let ghost markers_after = self.markers.deep_view();
        let recovered = WorkspaceSkillService::recover_orphaned_managed(entries, &self.old_managed);
        proof {
            lemma_selected_names_props(entries@, |e: ScannedEntry| is_orphan(e, base));
            assert forall|y: Seq<char>| recovered.deep_view().contains(y) implies !base.contains(y)
                && is_safe_entry_name(y) by {
                let k = choose|k: int| 0 <= k < entries@.len() && is_orphan(#[trigger] entries@[k], base) && entry_name(entries@[k]) == Some(y);
            }
            assert(base + recovered.deep_view().take(0) =~= base);
        }
        let mut i: usize = 0;
        while i < recovered.len()
            invariant
                self.wf(),
                self.phase is Scanning,
                i <= recovered.len(),
                recovered.deep_view() == selected_names(entries@, |e: ScannedEntry| is_orphan(e, base)),
                recovered.deep_view().no_duplicates(),
                self.deployed() == old(self).deployed(),
                self.kept_after_failure() == old(self).kept_after_failure(),
                self.legacy_copies() == markers_after,
                forall|y: Seq<char>| recovered.deep_view().contains(y) ==> !base.contains(y) && is_safe_entry_name(y),
                self.old_managed.deep_view() == base + recovered.deep_view().take(i as int),
                self.skills() == old(self).skills(),
                self.workspace_dir() == old(self).workspace_dir(),
            decreases recovered.len() - i,
        {
            let r = recovered[i].clone();
            let ghost rv = r@;
            let ghost prev = self.old_managed.deep_view();
            proof {
                let rd = recovered.deep_view();
                assert(rd[i as int] == rv);
                assert(rd.contains(rv));
                assert(!prev.contains(rv)) by {
                    if prev.contains(rv) {
                        let k = choose|k: int| 0 <= k < prev.len() && prev[k] == rv;
                        if k >= base.len() {
                            assert(rd.take(i as int)[k - base.len()] == rv);
                            assert(rd[k - base.len()] == rd[i as int]);
                        }
                    }
                }
            }
            self.old_managed.push(r);
            proof {
                assert(self.old_managed.deep_view() =~= prev.push(rv));
                assert(recovered.deep_view().take(i + 1) =~= recovered.deep_view().take(i as int).push(rv));
                lemma_set_add_no_dup(prev, rv);
                assert(set_add(prev, rv) == prev.push(rv));
                assert forall|k: int| 0 <= k < self.old_managed.len() implies is_safe_entry_name(
                    #[trigger] self.old_managed.deep_view()[k],
                ) by {
                    if k < prev.len() {
                        assert(self.old_managed.deep_view()[k] == prev[k]);
                    }
                }
            }
            i = i + 1;
        }
        assert(recovered.deep_view().take(recovered.len() as int) =~= recovered.deep_view());
        self.next_marker = 0;
        self.advance_markers()
    }

    /// Advances the run by what came of its last step, and returns the next
    /// step. An event that does not answer the last step ends the run with
    /// `ServiceError::UnexpectedEvent`.
    pub fn resume(&mut self, event: SyncEvent) -> (step: SyncStep)
        requires
            old(self).wf(),
        ensures
            final(self).wf(),
            resume_post(*old(self), event, *final(self), step),
    {
        match self.phase {
            SyncPhase::CreatingDir | SyncPhase::ResolvingSsot | SyncPhase::ReadingManifest => self.resume_start(event),
            SyncPhase::Scanning | SyncPhase::WritingMarkers => self.resume_scan(event),
            SyncPhase::LookingUp | SyncPhase::InspectingSkill | SyncPhase::RemovingDeployed => self.resume_lookup(event),
            SyncPhase::Linking | SyncPhase::Copying => self.resume_deploy(event),
            SyncPhase::InspectingEntry | SyncPhase::RemovingEntry => self.resume_cleanup(event),
            _ => self.resume_end(event),
        }
    }

    fn resume_start(&mut self, event: SyncEvent) -> (step: SyncStep)
        requires
            old(self).wf(),
            old(self).phase_of() is CreatingDir || old(self).phase_of() is ResolvingSsot || old(self).phase_of() is ReadingManifest,
        ensures
            final(self).wf(),
            resume_post(*old(self), event, *final(self), step),
    {
        match self.phase {
            SyncPhase::CreatingDir => match event {
                SyncEvent::Done => {
                    self.phase = SyncPhase::ResolvingSsot;
                    SyncStep::ResolveSsotDir
                },
                SyncEvent::Failed(m) => self.finish(Err(ServiceError::CreateSkillsDir(m))),
                _ => self.finish(Err(ServiceError::UnexpectedEvent)),
            },
            SyncPhase::ResolvingSsot => match event {
                SyncEvent::Done => {
                    self.phase = SyncPhase::ReadingManifest;
                    SyncStep::ReadManifest
                },
                SyncEvent::Failed(m) => self.finish(Err(ServiceError::SsotDir(m))),
                _ => self.finish(Err(ServiceError::UnexpectedEvent)),
            },
            SyncPhase::ReadingManifest => match event {
                SyncEvent::ManifestMissing => {
                    self.manifest_missing = true;
                    self.old_managed = Vec::new();
                    assert(self.old_managed.deep_view() =~= Seq::<Seq<char>>::empty());
                    self.phase = SyncPhase::Scanning;
                    SyncStep::ScanEntries
                },
                SyncEvent::ManifestText(t) => match WorkspaceSkillService::parse_skills_manifest(t.as_str()) {
                    Ok(entries) => {
                        proof {
                            lemma_safe_entry_set_props(json_string_list(t@)->0);
                            assert forall|i: int| 0 <= i < entries.len() implies is_safe_entry_name(
                                #[trigger] entries.deep_view()[i],
                            ) by {
                                assert(entries.deep_view().contains(entries.deep_view()[i]));
                            }
                        }
                        self.manifest_missing = false;
                        self.old_managed = entries;
                        self.phase = SyncPhase::Scanning;
                        SyncStep::ScanEntries
                    },
                    Err(e) => self.finish(Err(e)),
                },
                SyncEvent::Failed(m) => self.finish(Err(ServiceError::ManifestRead(m))),
                _ => self.finish(Err(ServiceError::UnexpectedEvent)),
            },
            _ => self.finish(Err(ServiceError::UnexpectedEvent)),
        }
    }

    fn resume_scan(&mut self, event: SyncEvent) -> (step: SyncStep)
        requires
            old(self).wf(),
            old(self).phase_of() is Scanning || old(self).phase_of() is WritingMarkers,
        ensures
            final(self).wf(),
            resume_post(*old(self), event, *final(self), step),
    {
        match self.phase {
            SyncPhase::Scanning => {
                let entries = match event {
                    SyncEvent::Entries(v) => v,
                    SyncEvent::Failed(_) => Vec::new(),
                    _ => {
                        return self.finish(Err(ServiceError::UnexpectedEvent));
                    },
                };
                assert(entries@ == listed_entries(event));
                self.on_scan(&entries)
            },
            SyncPhase::WritingMarkers => match event {
                SyncEvent::Done | SyncEvent::Failed(_) => {
                    self.phase = SyncPhase::Advancing;
                    self.next_marker = self.next_marker + 1;
                    self.advance_markers()
                },
                _ => self.finish(Err(ServiceError::UnexpectedEvent)),
            },
            _ => self.finish(Err(ServiceError::UnexpectedEvent)),
        }
    }

    fn resume_lookup(&mut self, event: SyncEvent) -> (step: SyncStep)
        requires
            old(self).wf(),
            old(self).phase_of() is LookingUp || old(self).phase_of() is InspectingSkill || old(self).phase_of() is RemovingDeployed,
        ensures
            final(self).wf(),
            resume_post(*old(self), event, *final(self), step),
    {
        match self.phase {
            SyncPhase::LookingUp => match event {
                SyncEvent::Skill(Some(info)) => {
                    self.current_in_old = contains_name(&self.old_managed, info.directory.as_str());
                    self.current_dir = info.directory;
                    self.phase = SyncPhase::InspectingSkill;
                    SyncStep::InspectSkill { directory: self.current_directory_name() }
                },
                SyncEvent::Skill(None) | SyncEvent::Failed(_) => self.next_skill_step(),
                _ => self.finish(Err(ServiceError::UnexpectedEvent)),
            },
            SyncPhase::InspectingSkill => match event {
                SyncEvent::SkillPaths { source_exists, dest } => {
                    if !source_exists {
                        return self.next_skill_step();
                    }
                    self.current_dest_exists = exists_now(&dest);
                    if self.current_in_old && present_now(&dest) {
                        if WorkspaceSkillService::is_still_managed(&dest) {
                            self.phase = SyncPhase::RemovingDeployed;
                            return SyncStep::RemoveDeployed { directory: self.current_directory_name() };
                        } else {
                            return self.next_skill_step();
                        }
                    }
                    self.phase = SyncPhase::Linking;
                    SyncStep::Symlink { directory: self.current_directory_name() }
                },
                _ => self.finish(Err(ServiceError::UnexpectedEvent)),
            },
            SyncPhase::RemovingDeployed => match event {
                SyncEvent::Done | SyncEvent::Failed(_) => {
                    self.phase = SyncPhase::Linking;
                    SyncStep::Symlink { directory: self.current_directory_name() }
                },
                _ => self.finish(Err(ServiceError::UnexpectedEvent)),
            },
            _ => self.finish(Err(ServiceError::UnexpectedEvent)),
        }
    }

    fn resume_deploy(&mut self, event: SyncEvent) -> (step: SyncStep)
        requires
            old(self).wf(),
            old(self).phase_of() is Linking || old(self).phase_of() is Copying,
        ensures
            final(self).wf(),
            resume_post(*old(self), event, *final(self), step),
    {
        match self.phase {
            SyncPhase::Linking => match event {
                SyncEvent::Done => {
                    proof {
                        lemma_set_add_no_dup(self.new_managed.deep_view(), self.current_dir@);
                    }
                    self.record_deployed();
                    self.next_skill_step()
                },
                SyncEvent::Failed(_) => {
                    if WorkspaceSkillService::copies_after_failed_link(self.current_in_old, self.current_dest_exists) {
                        self.phase = SyncPhase::Copying;
                        SyncStep::CopyAndMark { directory: self.current_directory_name() }
                    } else {
                        self.next_skill_step()
                    }
                },
                _ => self.finish(Err(ServiceError::UnexpectedEvent)),
            },
            SyncPhase::Copying => match event {
                SyncEvent::Done => {
                    proof {
                        lemma_set_add_no_dup(self.new_managed.deep_view(), self.current_dir@);
                    }
                    self.record_deployed();
                    self.next_skill_step()
                },
                SyncEvent::Failed(_) => self.next_skill_step(),
                _ => self.finish(Err(ServiceError::UnexpectedEvent)),
            },
            _ => self.finish(Err(ServiceError::UnexpectedEvent)),
        }
    }

    fn resume_cleanup(&mut self, event: SyncEvent) -> (step: SyncStep)
        requires
            old(self).wf(),
            old(self).phase_of() is InspectingEntry || old(self).phase_of() is RemovingEntry,
        ensures
            final(self).wf(),
            resume_post(*old(self), event, *final(self), step),
    {
        match self.phase {
            SyncPhase::InspectingEntry => match event {
                SyncEvent::EntryState(st) => {
                    if present_now(&st) && WorkspaceSkillService::is_still_managed(&st) {
                        self.phase = SyncPhase::RemovingEntry;
                        let name = self.stale[self.next_stale].clone();
                        assert(name@ == self.stale.deep_view()[self.next_stale as int]);
                        SyncStep::RemoveEntry { name }
                    } else {
                        self.phase = SyncPhase::Reconciling;
                        self.next_stale = self.next_stale + 1;
                        self.advance_cleanup()
                    }
                },
                _ => self.finish(Err(ServiceError::UnexpectedEvent)),
            },
            SyncPhase::RemovingEntry => match event {
                SyncEvent::Done => {
                    self.phase = SyncPhase::Reconciling;
                    self.next_stale = self.next_stale + 1;
                    self.advance_cleanup()
                },
                SyncEvent::Failed(_) => {
                    let name = self.stale[self.next_stale].clone();
                    assert(name@ == self.stale.deep_view()[self.next_stale as int]);
                    proof {
                        lemma_set_add_no_dup(self.failed.deep_view(), name@);
                    }
                    self.phase = SyncPhase::Reconciling;
                    insert_name(&mut self.failed, name);
                    self.next_stale = self.next_stale + 1;
                    self.advance_cleanup()
                },
                _ => self.finish(Err(ServiceError::UnexpectedEvent)),
            },
            _ => self.finish(Err(ServiceError::UnexpectedEvent)),
        }
    }

    fn resume_end(&mut self, event: SyncEvent) -> (step: SyncStep)
        requires
            old(self).wf(),
            !(old(self).phase_of() is CreatingDir || old(self).phase_of() is ResolvingSsot || old(self).phase_of() is ReadingManifest || old(self).phase_of() is Scanning || old(self).phase_of() is WritingMarkers || old(self).phase_of() is LookingUp || old(self).phase_of() is InspectingSkill || old(self).phase_of() is RemovingDeployed || old(self).phase_of() is Linking || old(self).phase_of() is Copying || old(self).phase_of() is InspectingEntry || old(self).phase_of() is RemovingEntry),
        ensures
            final(self).wf(),
            resume_post(*old(self), event, *final(self), step),
    {
        match self.phase {
            SyncPhase::WritingManifest => match event {
                SyncEvent::Done => self.finish(Ok(())),
                SyncEvent::Failed(m) => self.finish(Err(ServiceError::ManifestWrite(m))),
                _ => self.finish(Err(ServiceError::UnexpectedEvent)),
            },
            _ => self.finish(Err(ServiceError::UnexpectedEvent)),
        }
    }


    /// A copy of the directory of the skill being deployed.
    fn current_directory_name(&self) -> (d: String)
        ensures
            d@ == self.current_directory(),
    {
        self.current_dir.clone()
    }

    fn record_deployed(&mut self)
        requires
            old(self).wf(),
            old(self).phase_of() is Linking || old(self).phase_of() is Copying,
        ensures
            final(self).wf(),
            final(self).phase_of() == old(self).phase_of(),
            final(self).markers_done() == old(self).markers_done(),
            final(self).skills_done() == old(self).skills_done(),
            final(self).skills() == old(self).skills(),
            final(self).workspace_dir() == old(self).workspace_dir(),
            final(self).recorded() == old(self).recorded(),
            final(self).legacy_copies() == old(self).legacy_copies(),
            final(self).kept_after_failure() == old(self).kept_after_failure(),
            final(self).manifest_was_missing() == old(self).manifest_was_missing(),
            final(self).deployed() == set_add(old(self).deployed(), old(self).current_directory()),
    {
        let d = self.current_dir.clone();
        proof {
            lemma_set_add_no_dup(self.new_managed.deep_view(), d@);
        }
        insert_name(&mut self.new_managed, d);
    }

    fn next_skill_step(&mut self) -> (step: SyncStep)
        requires
            old(self).wf(),
            old(self).phase_of() is LookingUp || old(self).phase_of() is InspectingSkill || old(self).phase_of() is Linking
                || old(self).phase_of() is Copying,
        ensures
            moved_on(*final(self), step),
            final(self).skills_done() == old(self).skills_done() + 1,
            final(self).markers_done() == old(self).markers_done(),
            step is InspectEntry ==> final(self).stale_list() == stale_names(final(self).recorded(), final(self).deployed())
                && final(self).stale_done() == 0,
            final(self).wf(),
            final(self).recorded() == old(self).recorded(),
            final(self).skills() == old(self).skills(),
            final(self).workspace_dir() == old(self).workspace_dir(),
            final(self).legacy_copies() == old(self).legacy_copies(),
            final(self).manifest_was_missing() == old(self).manifest_was_missing(),
            final(self).kept_after_failure().len() == 0,
            forall|x: Seq<char>| #[trigger]
                final(self).deployed().contains(x) <==> old(self).deployed().contains(x),
            step matches SyncStep::WriteManifest { content } ==> is_manifest_for(content@, final(self).deployed()),
            step is LookupSkill || step is InspectEntry || step is WriteManifest,
            awaits(final(self).phase_of(), step),
            step matches SyncStep::InspectEntry { name } ==> final(self).current_entry() == name@,
            step matches SyncStep::LookupSkill { skill_id } ==> old(self).skills().contains(skill_id@),
    {
        self.phase = SyncPhase::Advancing;
        self.next_skill = self.next_skill + 1;
        self.advance_skills()
    }
}

} // verus!

verus! {

/// What a run writes as its manifest, the next run reads back as its record:
/// the text is a JSON array of strings whose safe entries, each once, are
/// exactly the safe names among the entries the run left deployed.
pub proof fn lemma_manifest_carries_over(content: Seq<char>, deployed: Seq<Seq<char>>)
    requires
        is_manifest_for(content, deployed),
    ensures
        json_string_list(content) matches Some(es) && safe_entry_set(es).no_duplicates() && forall|
            x: Seq<char>,
        | #[trigger] safe_entry_set(es).contains(x) <==> (deployed.contains(x) && is_safe_entry_name(x)),
{
    lemma_safe_entry_set_props(json_string_list(content)->0);
}

/// Where the manifest file exists (an empty list included), the scan adopts
/// nothing: the record keeps the manifest's entries and only gains the
/// orphaned deployments, and no legacy copy is marked.
pub proof fn lemma_existing_manifest_adopts_nothing(
    recorded: Seq<Seq<char>>,
    markers: Seq<Seq<char>>,
    entries: Seq<ScannedEntry>,
)
    ensures
        scanned_record(recorded, false, entries) == recorded + selected_names(
            entries,
            |e: ScannedEntry| is_orphan(e, recorded),
        ),
        scanned_markers(markers, false, entries) == markers,
{
}

/// On a first run (no manifest file) whose scan finds deployments of this
/// tool, the record is exactly the deployments found: every orphan is among
/// them already.
pub proof fn lemma_first_run_records_what_it_finds(recorded: Seq<Seq<char>>, entries: Seq<ScannedEntry>)
    requires
        selected_names(entries, |e: ScannedEntry| bootstrap_adopts(e)).len() > 0,
    ensures
        scanned_record(recorded, true, entries) == selected_names(
            entries,
            |e: ScannedEntry| bootstrap_adopts(e),
        ),
{
    let adopt = |e: ScannedEntry| bootstrap_adopts(e);
    let adopted = selected_names(entries, adopt);
    let orphan = |e: ScannedEntry| is_orphan(e, adopted);
    lemma_selected_names_props(entries, adopt);
    lemma_selected_names_props(entries, orphan);
    let found = selected_names(entries, orphan);
    if found.len() > 0 {
        let y = found[0];
        assert(found.contains(y));
        let i = choose|i: int| 0 <= i < entries.len() && orphan(#[trigger] entries[i]) && entry_name(entries[i]) == Some(y);
        assert(adopt(entries[i]));
        assert(adopted.contains(y));
    }
    assert(adopted + found =~= adopted);
}

} // verus!
