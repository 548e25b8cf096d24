//! Operations on skill groups.

use crate::database::dao::skill_groups::{
    all_groups_result, one_execute, one_query, SkillGroup, ADD_MEMBER_SQL,
    DELETE_GROUP_SQL, REMOVE_MEMBER_SQL, SELECT_MEMBER_IDS_SQL, SET_GROUP_ACTIVE_SQL,
};
use crate::database::{
    appended, binds_bool, binds_text, is_execute, lemma_new_events_split, new_events, opt_view, succeeded,
    texts_result, Database, DbEvent,
};
use crate::services::skill_group::{create_group_result, update_result, SkillGroupService};
use crate::services::workspace_skill::{group_starts_result, WorkspaceSkillService};
use crate::services::workspace_sync::{SyncStep, WorkspaceSync};
use crate::services::{service_error_text, ServiceError};
use vstd::prelude::*;

verus! {

/// Whether every run has just started: sound, and waiting for the skills
/// directory to be created.
pub open spec fn runs_started(runs: Seq<(WorkspaceSync, SyncStep)>) -> bool {
    forall|i: int| 0 <= i < runs.len() ==> (#[trigger] runs[i]).0.wf() && runs[i].1 is CreateSkillsDir
}

/// Whether `res` is `r` with its error replaced by the error's text.
pub open spec fn service_mapped<T>(r: Result<T, ServiceError>, res: Result<T, String>) -> bool {
    match r {
        Ok(v) => res == Ok::<T, String>(v),
        Err(e) => res matches Err(m) && m@ == service_error_text(e),
    }
}

/// What a change of a group's members gives, from the exchanges it made:
/// the write, then (where it succeeded) the starts of the synchronisations
/// of the workspaces in which the group is active (none where they cannot
/// be started).
pub open spec fn membership_change_result(
    events: Seq<DbEvent>,
    sql: Seq<char>,
    group_id: Seq<char>,
    skill_id: Seq<char>,
    res: Result<Vec<(WorkspaceSync, SyncStep)>, String>,
) -> bool {
    &&& events.len() >= 1
    &&& is_execute(events[0], sql, seq![group_id, skill_id])
    &&& if succeeded(events[0]) {
        &&& res is Ok
        &&& exists|r: Result<Vec<(WorkspaceSync, SyncStep)>, ServiceError>|
            #[trigger] group_starts_result(events.skip(1), group_id, r) && match r {
                Ok(v) => res->Ok_0@ == v@,
                Err(_) => res->Ok_0@.len() == 0,
            }
    } else {
        events.len() == 1 && res is Err
    }
}

/// All groups, with their members (see `all_groups_result`).
pub fn get_skill_groups(db: &mut Database) -> (res: Result<Vec<SkillGroup>, String>)
    ensures
        final(db).log().take(old(db).log().len() as int) == old(db).log(),
        all_groups_result(new_events(old(db).log(), final(db).log()), res),
{
    match db.get_all_skill_groups() {
        Ok(gs) => Ok(gs),
        Err(e) => Err(e.message()),
    }
}

/// Creates a group (see `SkillGroupService::create` and
/// `create_group_result`); the clock decides the time.
pub fn create_skill_group(name: String, description: Option<String>, db: &mut Database) -> (res: Result<
    SkillGroup,
    String,
>)
    ensures
        exists|r: Result<SkillGroup, ServiceError>, now: Option<i64>|
            #[trigger] create_group_result(old(db).log(), final(db).log(), name@, opt_view(description), now, r)
                && (now matches Some(t) ==> t >= 0) && service_mapped(r, res),
{
    let ghost name_v = name@;
    let ghost desc_v = opt_view(description);
    let r = SkillGroupService::create(db, name, description);
    let ghost rg = r;
    let ghost now = choose|now: Option<i64>|
        #[trigger] create_group_result(old(db).log(), db.log(), name_v, desc_v, now, rg) && (now matches Some(t) ==> t >= 0);
    let res = match r {
        Ok(g) => Ok(g),
        Err(e) => Err(e.message()),
    };
    assert(create_group_result(old(db).log(), db.log(), name_v, desc_v, now, rg) && service_mapped(rg, res));
    res
}

/// Edits a group and replaces its members (see `SkillGroupService::update`
/// and `update_result`); the runs that synchronise the workspaces in which
/// it is active come back with it.
pub fn update_skill_group(
    id: String,
    name: String,
    description: Option<String>,
    member_ids: Vec<String>,
    db: &mut Database,
) -> (res: Result<(SkillGroup, Vec<(WorkspaceSync, SyncStep)>), String>)
    ensures
        res matches Ok((g, runs)) ==> {
            &&& g.name@ == name@
            &&& opt_view(g.description) == opt_view(description)
            &&& g.member_ids.deep_view() == member_ids.deep_view()
            &&& runs_started(runs@)
        },
        final(db).log().take(old(db).log().len() as int) == old(db).log(),
        exists|r: Result<(SkillGroup, Vec<(WorkspaceSync, SyncStep)>), ServiceError>, now: Option<i64>|
            #[trigger] update_result(
                new_events(old(db).log(), final(db).log()),
                id@,
                name@,
                opt_view(description),
                member_ids.deep_view(),
                now,
                r,
            ) && (now matches Some(t) ==> t >= 0) && service_mapped(r, res),
{
    let ghost members = member_ids.deep_view();
    let ghost name_v = name@;
    let ghost desc_v = opt_view(description);
    let r = SkillGroupService::update(db, id.as_str(), name, description, member_ids);
    let ghost rg = r;
    let ghost now = choose|now: Option<i64>|
        #[trigger] update_result(new_events(old(db).log(), db.log()), id@, name_v, desc_v, members, now, rg)
            && (now matches Some(t) ==> t >= 0);
    let res = match r {
        Ok(x) => Ok(x),
        Err(e) => Err(e.message()),
    };
    assert(update_result(new_events(old(db).log(), db.log()), id@, name_v, desc_v, members, now, rg)
        && service_mapped(rg, res));
    res
}

/// Deletes a group.
pub fn delete_skill_group(id: String, db: &mut Database) -> (res: Result<(), String>)
    ensures
        one_execute(old(db).log(), final(db).log(), DELETE_GROUP_SQL@, seq![id@], res is Ok),
{
    match db.delete_skill_group(id.as_str()) {
        Ok(()) => Ok(()),
        Err(e) => Err(e.message()),
    }
}

/// Sets or clears the active flag of a group.
pub fn set_group_active(id: String, active: bool, db: &mut Database) -> (res: Result<(), String>)
    ensures
        appended(old(db).log(), final(db).log(), 1),
        final(db).log().last() matches DbEvent::Execute { sql, params, ok } && sql == SET_GROUP_ACTIVE_SQL@
            && params.len() == 2 && binds_bool(params[0], active) && binds_text(params[1], id@)
            && ok == (res is Ok),
{
    match db.set_skill_group_active(id.as_str(), active) {
        Ok(()) => Ok(()),
        Err(e) => Err(e.message()),
    }
}

/// The runs that synchronise the workspaces in which the group is active
/// again; where they cannot be started there are none (the membership change
/// stands).
fn resync_group(db: &mut Database, group_id: &str) -> (runs: Vec<(WorkspaceSync, SyncStep)>)
    ensures
        runs_started(runs@),
        final(db).log().len() >= old(db).log().len(),
        final(db).log().take(old(db).log().len() as int) == old(db).log(),
        exists|r: Result<Vec<(WorkspaceSync, SyncStep)>, ServiceError>|
            #[trigger] group_starts_result(new_events(old(db).log(), final(db).log()), group_id@, r) && match r {
                Ok(v) => runs@ == v@,
                Err(_) => runs@.len() == 0,
            },
{
    let r = WorkspaceSkillService::sync_workspaces_for_group(db, group_id);
    let ghost rg = r;
    let runs = match r {
        Ok(runs) => runs,
        Err(_) => Vec::new(),
    };
    assert(group_starts_result(new_events(old(db).log(), db.log()), group_id@, rg));
    runs
}

/// Makes a skill a member of a group, and starts the synchronisation of the
/// workspaces in which the group is active.
pub fn add_skill_to_group(group_id: String, skill_id: String, db: &mut Database) -> (res: Result<
    Vec<(WorkspaceSync, SyncStep)>,
    String,
>)
    ensures
        res matches Ok(runs) ==> runs_started(runs@),
        final(db).log().take(old(db).log().len() as int) == old(db).log(),
        membership_change_result(new_events(old(db).log(), final(db).log()), ADD_MEMBER_SQL@, group_id@, skill_id@, res),
{
    let ghost start = db.log();
    let r = db.add_skill_to_group(group_id.as_str(), skill_id.as_str());
    let ghost mid = db.log();
    proof {
        assert(mid.take(start.len() as int) =~= start);
        assert(new_events(start, mid) =~= seq![mid.last()]);
    }
    if let Err(e) = r {
        return Err(e.message());
    }
    let runs = resync_group(db, group_id.as_str());
    proof {
        assert(mid.take(mid.len() as int) =~= mid);
        lemma_new_events_split(start, mid, db.log());
        assert(new_events(start, db.log()).skip(1) =~= new_events(mid, db.log()));
    }
    Ok(runs)
}

/// Removes a skill from a group, and starts the synchronisation of the
/// workspaces in which the group is active.
pub fn remove_skill_from_group(group_id: String, skill_id: String, db: &mut Database) -> (res: Result<
    Vec<(WorkspaceSync, SyncStep)>,
    String,
>)
    ensures
        res matches Ok(runs) ==> runs_started(runs@),
        final(db).log().take(old(db).log().len() as int) == old(db).log(),
        membership_change_result(new_events(old(db).log(), final(db).log()), REMOVE_MEMBER_SQL@, group_id@, skill_id@, res),
{
    let ghost start = db.log();
    let r = db.remove_skill_from_group(group_id.as_str(), skill_id.as_str());
    let ghost mid = db.log();
    proof {
        assert(mid.take(start.len() as int) =~= start);
        assert(new_events(start, mid) =~= seq![mid.last()]);
    }
    if let Err(e) = r {
        return Err(e.message());
    }
    let runs = resync_group(db, group_id.as_str());
    proof {
        assert(mid.take(mid.len() as int) =~= mid);
        lemma_new_events_split(start, mid, db.log());
        assert(new_events(start, db.log()).skip(1) =~= new_events(mid, db.log()));
    }
    Ok(runs)
}

/// The ids of a group's member skills.
pub fn get_group_member_ids(group_id: String, db: &mut Database) -> (res: Result<Vec<String>, String>)
    ensures
        one_query(old(db).log(), final(db).log(), SELECT_MEMBER_IDS_SQL@, seq![group_id@]),
        texts_result(final(db).log().last(), res),
{
    match db.get_group_member_ids(group_id.as_str()) {
        Ok(v) => Ok(v),
        Err(e) => Err(e.message()),
    }
}

} // verus!
