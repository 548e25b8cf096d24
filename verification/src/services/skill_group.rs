//! Creating and editing skill groups.

use crate::database::dao::skill_groups::{
    binds_group_row, binds_group_update, group_row_decodes, set_members_events, SkillGroup,
    SkillGroupApps, INSERT_GROUP_SQL, SELECT_GROUP_SQL, UPDATE_GROUP_SQL,
};
use crate::database::{
    appended, bool_at, int_at, is_query, lemma_appended_one, lemma_new_events_split, new_events, opt_int_at,
    opt_text_at, opt_view, rows_of, succeeded, text_at, Database, DbEvent, SqlValue,
};
use crate::services::workspace_skill::{group_starts_result, WorkspaceSkillService};
use crate::services::workspace_sync::{SyncStep, WorkspaceSync};
use crate::services::{db_err, new_uuid, unix_time_now, ServiceError};
use vstd::prelude::*;

verus! {

/// Whether the fields of `g` that an edit keeps are those of the stored
/// row: id, icon, active flag, sort index, creation time and applications.
pub open spec fn kept_from_row(g: SkillGroup, row: Seq<SqlValue>) -> bool {
    &&& text_at(row, 0) == Some(g.id@)
    &&& opt_text_at(row, 3) == Some(opt_view(g.icon))
    &&& bool_at(row, 4) == Some(g.is_active)
    &&& opt_int_at(row, 5) == Some(g.sort_index)
    &&& int_at(row, 6) == Some(g.created_at)
    &&& bool_at(row, 8) == Some(g.apps.claude)
    &&& bool_at(row, 9) == Some(g.apps.codex)
    &&& bool_at(row, 10) == Some(g.apps.gemini)
    &&& bool_at(row, 11) == Some(g.apps.opencode)
    &&& bool_at(row, 12) == Some(g.apps.hermes)
}

/// Whether `g` is a group as it is first created at time `now`: a fresh id,
/// the given name and description, inactive, enabled for no application,
/// without icon, sort index or members, created and updated at `now`.
pub open spec fn fresh_group(g: SkillGroup, name: Seq<char>, description: Option<Seq<char>>, now: i64) -> bool {
    &&& g.id@.len() == 36
    &&& g.name@ == name
    &&& opt_view(g.description) == description
    &&& g.icon is None
    &&& !g.is_active
    &&& g.sort_index is None
    &&& g.created_at == now
    &&& g.updated_at == now
    &&& !g.apps.claude && !g.apps.codex && !g.apps.gemini && !g.apps.opencode && !g.apps.hermes
    &&& g.member_ids@.len() == 0
}

/// What creating a group at the time `now` gives, from the log `before` and
/// `after` the call: without a time, the clock error and nothing sent;
/// otherwise one `INSERT` of a group fresh at that time, which is the group
/// returned where it succeeded, and the database error where it failed.
pub open spec fn create_group_result(
    before: Seq<DbEvent>,
    after: Seq<DbEvent>,
    name: Seq<char>,
    description: Option<Seq<char>>,
    now: Option<i64>,
    res: Result<SkillGroup, ServiceError>,
) -> bool {
    match now {
        None => after == before && (res matches Err(ServiceError::Clock)),
        Some(t) => {
            &&& appended(before, after, 1)
            &&& after.last() matches DbEvent::Execute { sql, params, ok } && sql == INSERT_GROUP_SQL@ && match res {
                Ok(g) => fresh_group(g, name, description, t) && binds_group_row(params, g) && ok,
                Err(ServiceError::Database(_)) => !ok && exists|g: SkillGroup|
                    #[trigger] binds_group_row(params, g) && fresh_group(g, name, description, t),
                Err(_) => false,
            }
        },
    }
}

/// Whether `g` is the stored row `row` edited: its name and description
/// replaced, the other fields of the row kept.
pub open spec fn edited_from(
    g: SkillGroup,
    row: Seq<SqlValue>,
    name: Seq<char>,
    description: Option<Seq<char>>,
) -> bool {
    &&& kept_from_row(g, row)
    &&& g.name@ == name
    &&& opt_view(g.description) == description
}

/// Whether the event is the statement that writes an edit of the stored
/// row `row`, stamped with the time `now`.
pub open spec fn writes_edit(
    e: DbEvent,
    row: Seq<SqlValue>,
    name: Seq<char>,
    description: Option<Seq<char>>,
    now: i64,
) -> bool {
    e matches DbEvent::Execute { sql, params, .. } && sql == UPDATE_GROUP_SQL@ && exists|g: SkillGroup|
        #[trigger] binds_group_update(params, g) && edited_from(g, row, name, description) && g.updated_at == now
}

/// What editing a group gives, from the exchanges it made after reading the
/// group's row `row`: on success the edited group is written, its members
/// replaced by `member_ids` (see `set_members_events`), and the workspaces
/// in which it is active get their synchronisations started (none where
/// they cannot be listed); the edit is stamped with the time `now`, and
/// without a time the clock error comes and nothing is written; a database
/// error comes of the failed write of the edit or of the members.
pub open spec fn edit_result(
    events: Seq<DbEvent>,
    row: Seq<SqlValue>,
    id: Seq<char>,
    name: Seq<char>,
    description: Option<Seq<char>>,
    member_ids: Seq<Seq<char>>,
    now: Option<i64>,
    res: Result<(SkillGroup, Vec<(WorkspaceSync, SyncStep)>), ServiceError>,
) -> bool {
    match res {
        Ok((g, runs)) => {
            &&& now == Some(g.updated_at)
            &&& edited_from(g, row, name, description)
            &&& events.len() >= 2
            &&& events[1] matches DbEvent::Execute { sql, params, ok } && sql == UPDATE_GROUP_SQL@
                && binds_group_update(params, g) && ok
            &&& exists|m: int, r: Result<Vec<(WorkspaceSync, SyncStep)>, ServiceError>|
                #![trigger set_members_events(events.subrange(2, m), id, member_ids, true), group_starts_result(events.skip(m), id, r)]
                2 <= m <= events.len() && set_members_events(events.subrange(2, m), id, member_ids, true)
                    && group_starts_result(events.skip(m), id, r) && (r matches Ok(v) ==> v@ == runs@)
                    && (r is Err ==> runs@.len() == 0)
        },
        Err(ServiceError::Clock) => events.len() == 1 && now is None,
        Err(ServiceError::Database(_)) => {
            &&& now is Some
            &&& events.len() >= 2
            &&& writes_edit(events[1], row, name, description, now->0)
            &&& if succeeded(events[1]) {
                set_members_events(events.skip(2), id, member_ids, false)
            } else {
                events.len() == 2
            }
        },
        Err(_) => false,
    }
}

/// What editing the group `id` gives, from the exchanges it made: the
/// group's row is read first; where the query fails or the row does not
/// decode, that is the error, and where there is no row the group is not
/// found; in each of these cases nothing else is sent. Otherwise see
/// `edit_result`, for the time `now`.
pub open spec fn update_result(
    events: Seq<DbEvent>,
    id: Seq<char>,
    name: Seq<char>,
    description: Option<Seq<char>>,
    member_ids: Seq<Seq<char>>,
    now: Option<i64>,
    res: Result<(SkillGroup, Vec<(WorkspaceSync, SyncStep)>), ServiceError>,
) -> bool {
    &&& events.len() >= 1
    &&& is_query(events[0], SELECT_GROUP_SQL@, seq![id])
    &&& match rows_of(events[0]) {
        None => events.len() == 1 && (res matches Err(ServiceError::Database(_))),
        Some(rows) => if rows.len() == 0 {
            events.len() == 1 && (res matches Err(ServiceError::GroupNotFound(gid)) && gid@ == id)
        } else if !group_row_decodes(rows[0]) {
            events.len() == 1 && (res matches Err(ServiceError::Database(_)))
        } else {
            edit_result(events, rows[0], id, name, description, member_ids, now, res)
        },
    }
}

pub struct SkillGroupService;

impl SkillGroupService {
    /// Creates a group with a fresh id: inactive, enabled for no application,
    /// without icon, sort index or members, created and updated now (see
    /// `create_at`; the clock decides the time).
    pub fn create(db: &mut Database, name: String, description: Option<String>) -> (res: Result<
        SkillGroup,
        ServiceError,
    >)
        ensures
            match res {
                Ok(g) => g.created_at >= 0,
                Err(e) => e is Database || e is Clock,
            },
            exists|now: Option<i64>|
                #[trigger] create_group_result(old(db).log(), final(db).log(), name@, opt_view(description), now, res)
                    && (now matches Some(t) ==> t >= 0),
    {
        let now = unix_time_now();
        Self::create_at(db, name, description, now)
    }

    /// Creates a group with a fresh id at the time `now`: inactive, enabled
    /// for no application, without icon, sort index or members (see
    /// `create_group_result`); without a time it is the clock error.
    pub fn create_at(db: &mut Database, name: String, description: Option<String>, now: Option<i64>) -> (res:
        Result<SkillGroup, ServiceError>)
        ensures
            create_group_result(old(db).log(), final(db).log(), name@, opt_view(description), now, res),
    {
        let ghost name_v = name@;
        let ghost desc_v = opt_view(description);
        let now = match now {
            Some(t) => t,
            None => {
                return Err(ServiceError::Clock);
            },
        };
        let group = SkillGroup {
            id: new_uuid(),
            name,
            description,
            icon: None,
            is_active: false,
            sort_index: None,
            created_at: now,
            updated_at: now,
            apps: SkillGroupApps {
                claude: false,
                codex: false,
                gemini: false,
                opencode: false,
                hermes: false,
            },
            member_ids: Vec::new(),
        };
        assert(fresh_group(group, name_v, desc_v, now));
        match db.create_skill_group(&group) {
            Ok(()) => Ok(group),
            Err(e) => Err(db_err(e)),
        }
    }


    /// Renames the group `id`, replaces its description and its member list
    /// and stamps its update time with the current time (see `update_at`;
    /// the clock decides the time).
    pub fn update(
        db: &mut Database,
        id: &str,
        name: String,
        description: Option<String>,
        member_ids: Vec<String>,
    ) -> (res: Result<(SkillGroup, Vec<(WorkspaceSync, SyncStep)>), ServiceError>)
        ensures
            match res {
                Ok((g, runs)) => {
                    &&& g.name@ == name@
                    &&& opt_view(g.description) == opt_view(description)
                    &&& g.member_ids.deep_view() == member_ids.deep_view()
                    &&& g.updated_at >= 0
                    &&& forall|i: int| 0 <= i < runs.len() ==> (#[trigger] runs[i]).0.wf() && runs[i].1 is CreateSkillsDir
                },
                Err(e) => e is Database || e is Clock || (e matches ServiceError::GroupNotFound(gid) && gid@ == id@),
            },
            final(db).log().len() >= old(db).log().len(),
            final(db).log().take(old(db).log().len() as int) == old(db).log(),
            exists|now: Option<i64>|
                #[trigger] update_result(
                    new_events(old(db).log(), final(db).log()),
                    id@,
                    name@,
                    opt_view(description),
                    member_ids.deep_view(),
                    now,
                    res,
                ) && (now matches Some(t) ==> t >= 0),
    {
        let now = unix_time_now();
        Self::update_at(db, id, name, description, member_ids, now)
    }

    /// Renames the group `id`, replaces its description and its member list
    /// and stamps its update time with `now` (without a time, once the group
    /// is found, it is the clock error). The workspaces in which the group is
    /// active are to be synchronised again: the runs for them come back with
    /// the group (a workspace whose run cannot be started is left out, and
    /// where the workspaces cannot be listed there are no runs).
    pub fn update_at(
        db: &mut Database,
        id: &str,
        name: String,
        description: Option<String>,
        member_ids: Vec<String>,
        now: Option<i64>,
    ) -> (res: Result<(SkillGroup, Vec<(WorkspaceSync, SyncStep)>), ServiceError>)
        ensures
            match res {
                Ok((g, runs)) => {
                    &&& g.name@ == name@
                    &&& opt_view(g.description) == opt_view(description)
                    &&& g.member_ids.deep_view() == member_ids.deep_view()
                    &&& forall|i: int| 0 <= i < runs.len() ==> (#[trigger] runs[i]).0.wf() && runs[i].1 is CreateSkillsDir
                },
                Err(e) => e is Database || e is Clock || (e matches ServiceError::GroupNotFound(gid) && gid@ == id@),
            },
            final(db).log().len() >= old(db).log().len(),
            final(db).log().take(old(db).log().len() as int) == old(db).log(),
            update_result(
                new_events(old(db).log(), final(db).log()),
                id@,
                name@,
                opt_view(description),
                member_ids.deep_view(),
                now,
                res,
            ),
    {
        let ghost start = db.log();
        let ghost name_v = name@;
        let ghost desc_v = opt_view(description);
        proof {
            assert(start.take(start.len() as int) =~= start);
            assert(new_events(start, start) =~= Seq::<DbEvent>::empty());
        }
        let r0 = db.get_skill_group(id);
        proof {
            lemma_appended_one(start, start, db.log());
        }
        let ghost e0 = db.log().last();
        assert(new_events(start, db.log()) =~= seq![e0]);
        let mut group = match r0 {
            Ok(Some(g)) => g,
            Ok(None) => {
                return Err(ServiceError::GroupNotFound(id.to_string()));
            },
            Err(e) => {
                return Err(db_err(e));
            },
        };
        let ghost row = rows_of(e0)->0[0];
        group.name = name;
        group.description = description;
        group.updated_at = match now {
            Some(t) => t,
            None => {
                return Err(ServiceError::Clock);
            },
        };
        assert(edited_from(group, row, name_v, desc_v));
        let ghost t = group.updated_at;
        let ghost b1 = db.log();
        let r1 = db.update_skill_group(&group);
        proof {
            lemma_appended_one(start, b1, db.log());
        }
        let ghost e1 = db.log().last();
        let ghost m1 = db.log();
        assert(new_events(start, m1) =~= seq![e0, e1]);
        assert(writes_edit(e1, row, name_v, desc_v, t)) by {
            assert(e1 matches DbEvent::Execute { params, .. } && binds_group_update(params, group));
        }
        if let Err(e) = r1 {
            return Err(db_err(e));
        }
        let r2 = db.set_group_members(id, &member_ids);
        let ghost m2 = db.log();
        proof {
            lemma_new_events_split(start, m1, m2);
        }
        if let Err(e) = r2 {
            proof {
                let ev = new_events(start, m2);
                assert(ev.skip(2) =~= new_events(m1, m2));
            }
            return Err(db_err(e));
        }
        let r3 = WorkspaceSkillService::sync_workspaces_for_group(db, id);
        let ghost rg = r3;
        proof {
            lemma_new_events_split(start, m2, db.log());
        }
        let runs = match r3 {
            Ok(runs) => runs,
            Err(_) => Vec::new(),
        };
        proof {
            let ev = new_events(start, db.log());
            let m = (m2.len() - start.len()) as int;
            assert(ev[0] == e0 && ev[1] == e1);
            assert(ev.subrange(2, m) =~= new_events(m1, m2));
            assert(ev.skip(m) =~= new_events(m2, db.log()));
            assert(set_members_events(ev.subrange(2, m), id@, member_ids.deep_view(), true));
            assert(group_starts_result(ev.skip(m), id@, rg));
        }
        group.member_ids = member_ids;
        Ok((group, runs))
    }
}

} // verus!
