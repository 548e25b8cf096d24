//! Operations on workspaces.

use crate::commands::skill_group::service_mapped;
use crate::database::dao::skill_groups::{one_execute, one_query};
use crate::database::dao::workspaces::{
    all_workspaces_result, binds_workspace_row, binds_workspace_update,
    workspace_row_decodes, Workspace, BIND_GROUP_SQL, DELETE_WORKSPACE_SQL, INSERT_WORKSPACE_SQL,
    SELECT_ACTIVE_GROUP_IDS_OF_WORKSPACE_SQL, SELECT_WORKSPACE_GROUP_IDS_SQL, SELECT_WORKSPACE_SQL,
    UNBIND_GROUP_SQL, UPDATE_WORKSPACE_SQL,
};
use crate::database::{
    appended, bool_at, int_at, is_execute, is_query, lemma_appended_one, new_events, rows_of, succeeded, text_at,
    texts_result, Database, DbEvent, SqlValue,
};
use crate::services::workspace_skill::{toggle_result, WorkspaceSkillService};
use crate::services::workspace_sync::{SyncStep, WorkspaceSync};
use crate::services::{new_uuid, service_error_text, unix_time_now, ServiceError};
use vstd::prelude::*;

verus! {

/// Whether the event is the statement that writes the stored row `row` with
/// the name `name`, the path `path` and the update time `now`.
pub open spec fn writes_workspace_edit(
    e: DbEvent,
    row: Seq<SqlValue>,
    name: Seq<char>,
    path: Seq<char>,
    now: i64,
) -> bool {
    e matches DbEvent::Execute { sql, params, .. } && sql == UPDATE_WORKSPACE_SQL@ && exists|w: Workspace|
        #[trigger] binds_workspace_update(params, w) && w.name@ == name && w.path@ == path && text_at(row, 0)
            == Some(w.id@) && w.updated_at == now
}

/// What editing a workspace gives, from the exchanges it made: the
/// workspace's row is read first; where the query fails or the row does
/// not decode, that is the error, where there is no row the error names the
/// id, and the user-level space cannot be moved off `~`; in each of these
/// cases nothing else is sent. Otherwise, without a time `now` it is the
/// clock error and nothing is written; with one the row is written back
/// with the new name and path and the time `now`, the rest as stored, and an
/// error comes only of the failed write.
pub open spec fn update_workspace_result(
    events: Seq<DbEvent>,
    id: Seq<char>,
    name: Seq<char>,
    path: Seq<char>,
    now: Option<i64>,
    res: Result<Workspace, String>,
) -> bool {
    &&& events.len() >= 1
    &&& is_query(events[0], SELECT_WORKSPACE_SQL@, seq![id])
    &&& match rows_of(events[0]) {
        None => events.len() == 1 && res is Err,
        Some(rows) => if rows.len() == 0 {
            events.len() == 1 && (res matches Err(m) && m@ == "工作空间不存在: "@ + id)
        } else if !workspace_row_decodes(rows[0]) {
            events.len() == 1 && res is Err
        } else if bool_at(rows[0], 5) == Some(true) && !trims_to_home(path) {
            events.len() == 1 && (res matches Err(m) && m@ == "用户级别空间路径不可修改"@)
        } else if now is None {
            events.len() == 1 && (res matches Err(m) && m@ == service_error_text(ServiceError::Clock))
        } else {
            match res {
                Ok(w) => {
                    &&& now == Some(w.updated_at)
                    &&& text_at(rows[0], 0) == Some(w.id@)
                    &&& int_at(rows[0], 3) == Some(w.created_at)
                    &&& bool_at(rows[0], 5) == Some(w.is_user_level)
                    &&& w.name@ == name
                    &&& w.path@ == path
                    &&& events.len() == 2
                    &&& events[1] matches DbEvent::Execute { sql, params, ok } && sql == UPDATE_WORKSPACE_SQL@
                        && binds_workspace_update(params, w) && ok
                },
                Err(_) => events.len() == 2 && writes_workspace_edit(events[1], rows[0], name, path, now->0)
                    && !succeeded(events[1]),
            }
        },
    }
}

/// What deleting a workspace gives, from the exchanges it made: the
/// workspace's row is read first, and the user-level space is not deleted
/// (nothing else is sent); otherwise the row is deleted, whatever the read
/// gave.
pub open spec fn delete_workspace_result(events: Seq<DbEvent>, id: Seq<char>, res: Result<(), String>) -> bool {
    &&& events.len() >= 1
    &&& is_query(events[0], SELECT_WORKSPACE_SQL@, seq![id])
    &&& if rows_of(events[0]) matches Some(rows) && rows.len() > 0 && workspace_row_decodes(rows[0]) && bool_at(
        rows[0],
        5,
    ) == Some(true) {
        events.len() == 1 && (res matches Err(m) && m@ == "用户级别空间不可删除"@)
    } else {
        &&& events.len() == 2
        &&& is_execute(events[1], DELETE_WORKSPACE_SQL@, seq![id])
        &&& succeeded(events[1]) == (res is Ok)
    }
}

/// All workspaces, with the groups bound to each (see `all_workspaces_result`).
pub fn get_workspaces(db: &mut Database) -> (res: Result<Vec<Workspace>, String>)
    ensures
        final(db).log().take(old(db).log().len() as int) == old(db).log(),
        all_workspaces_result(new_events(old(db).log(), final(db).log()), res),
{
    match db.get_all_workspaces() {
        Ok(ws) => Ok(ws),
        Err(e) => Err(e.message()),
    }
}

/// Whether `c` is white space as Rust's `char::is_whitespace` reads it
/// (the Unicode `White_Space` characters).
pub open spec fn is_white_space(c: char) -> bool {
    ||| '\u{9}' <= c <= '\u{d}'
    ||| c == ' '
    ||| c == '\u{85}'
    ||| c == '\u{a0}'
    ||| c == '\u{1680}'
    ||| '\u{2000}' <= c <= '\u{200a}'
    ||| c == '\u{2028}'
    ||| c == '\u{2029}'
    ||| c == '\u{202f}'
    ||| c == '\u{205f}'
    ||| c == '\u{3000}'
}

/// Whether `s` with its leading and trailing white space removed is `~`,
/// the path reserved for the user-level space.
pub open spec fn trims_to_home(s: Seq<char>) -> bool {
    exists|i: int|
        0 <= i < s.len() && #[trigger] s[i] == '~' && forall|j: int|
            0 <= j < s.len() && j != i ==> is_white_space(#[trigger] s[j])
}

/// Whether `c` is white space.
fn white_space(c: char) -> (res: bool)
    ensures
        res == is_white_space(c),
{
    ('\u{9}' <= c && c <= '\u{d}') || c == ' ' || c == '\u{85}' || c == '\u{a0}' || c == '\u{1680}'
        || ('\u{2000}' <= c && c <= '\u{200a}') || c == '\u{2028}' || c == '\u{2029}' || c == '\u{202f}'
        || c == '\u{205f}' || c == '\u{3000}'
}

/// Whether `path`, trimmed of white space, is `~`.
pub fn is_home_path(path: &str) -> (res: bool)
    ensures
        res == trims_to_home(path@),
{
    let n = path.unicode_len();
    let mut found: Option<usize> = None;
    let mut i: usize = 0;
    while i < n
        invariant
            n == path@.len(),
            i <= n,
            forall|j: int| 0 <= j < i && !is_white_space(#[trigger] path@[j]) ==> found == Some(j as usize),
            found matches Some(k) ==> k < i && path@[k as int] == '~',
        decreases n - i,
    {
        let c = path.get_char(i);
        if !white_space(c) {
            if c == '~' && found.is_none() {
                found = Some(i);
            } else {
                proof {
                    assert(!is_white_space('~'));
                    assert forall|w: int| 0 <= w < path@.len() && #[trigger] path@[w] == '~' implies !(forall|j: int|
                        0 <= j < path@.len() && j != w ==> is_white_space(#[trigger] path@[j])) by {
                        if w != i {
                            assert(!is_white_space(path@[i as int]));
                        } else {
                            let k = found->0;
                            assert(!is_white_space(path@[k as int]));
                        }
                    }
                }
                return false;
            }
        }
        i = i + 1;
    }
    match found {
        Some(k) => {
            assert(path@[k as int] == '~');
            true
        },
        None => {
            proof {
                assert(!is_white_space('~'));
                assert forall|w: int| 0 <= w < path@.len() implies #[trigger] path@[w] != '~' by {
                    if path@[w] == '~' {
                        assert(!is_white_space(path@[w]));
                    }
                }
            }
            false
        },
    }
}

/// Whether `w` is a workspace as it is first created at time `now`: a fresh
/// id, the given name and path, not the user-level space, created and
/// updated at `now`, bound to no group.
pub open spec fn fresh_workspace(w: Workspace, name: Seq<char>, path: Seq<char>, now: i64) -> bool {
    &&& w.id@.len() == 36
    &&& w.name@ == name
    &&& w.path@ == path
    &&& !w.is_user_level
    &&& w.created_at == now
    &&& w.updated_at == now
    &&& w.group_ids@.len() == 0
}

/// What creating a workspace at the time `now` gives, from the log `before`
/// and `after` the call: the path `~` (after trimming white space) is
/// refused; else without a time the clock error comes; in both cases
/// nothing is sent. Otherwise one `INSERT` of a workspace fresh at that
/// time, which is the workspace returned where it succeeded.
pub open spec fn create_workspace_result(
    before: Seq<DbEvent>,
    after: Seq<DbEvent>,
    name: Seq<char>,
    path: Seq<char>,
    now: Option<i64>,
    res: Result<Workspace, String>,
) -> bool {
    if trims_to_home(path) {
        after == before && (res matches Err(m) && m@ == "路径不能为 ~（保留给用户级别空间）"@)
    } else {
        match now {
            None => after == before && (res matches Err(m) && m@ == service_error_text(ServiceError::Clock)),
            Some(t) => {
                &&& appended(before, after, 1)
                &&& after.last() matches DbEvent::Execute { sql, params, ok } && sql == INSERT_WORKSPACE_SQL@
                    && match res {
                    Ok(w) => fresh_workspace(w, name, path, t) && binds_workspace_row(params, w) && ok,
                    Err(_) => !ok && exists|w: Workspace|
                        #[trigger] binds_workspace_row(params, w) && fresh_workspace(w, name, path, t),
                }
            },
        }
    }
}

/// Creates a workspace with a fresh id, created and updated now, bound to
/// no group, and stores it (see `create_workspace_at`; the clock decides the
/// time). The path `~` (after trimming white space) is reserved for the
/// user-level space and refused.
pub fn create_workspace(name: String, path: String, db: &mut Database) -> (res: Result<Workspace, String>)
    ensures
        exists|now: Option<i64>|
            #[trigger] create_workspace_result(old(db).log(), final(db).log(), name@, path@, now, res)
                && (now matches Some(t) ==> t >= 0),
{
    let now = unix_time_now();
    create_workspace_at(name, path, now, db)
}

/// Creates a workspace with a fresh id at the time `now`, bound to no
/// group, and stores it (see `create_workspace_result`).
pub fn create_workspace_at(name: String, path: String, now: Option<i64>, db: &mut Database) -> (res: Result<
    Workspace,
    String,
>)
    ensures
        create_workspace_result(old(db).log(), final(db).log(), name@, path@, now, res),
{
    if is_home_path(path.as_str()) {
        return Err(String::from_str("路径不能为 ~（保留给用户级别空间）"));
    }
    let now = match now {
        Some(t) => t,
        None => {
            return Err(ServiceError::Clock.message());
        },
    };
    let ghost name_v = name@;
    let ghost path_v = path@;
    let ws = Workspace {
        id: new_uuid(),
        name,
        path,
        is_user_level: false,
        created_at: now,
        updated_at: now,
        group_ids: Vec::new(),
    };
    assert(fresh_workspace(ws, name_v, path_v, now));
    match db.create_workspace(&ws) {
        Ok(()) => Ok(ws),
        Err(e) => Err(e.message()),
    }
}

/// Renames a workspace, moves it to `path` and stamps its update time with
/// the current time (see `update_workspace_at`; the clock decides the time).
pub fn update_workspace(id: String, name: String, path: String, db: &mut Database) -> (res: Result<
    Workspace,
    String,
>)
    ensures
        final(db).log().take(old(db).log().len() as int) == old(db).log(),
        exists|now: Option<i64>|
            #[trigger] update_workspace_result(new_events(old(db).log(), final(db).log()), id@, name@, path@, now, res)
                && (now matches Some(t) ==> t >= 0),
{
    let now = unix_time_now();
    update_workspace_at(id, name, path, now, db)
}

/// Renames a workspace, moves it to `path` and stamps its update time with
/// `now`. A workspace that does not exist is an error, and so is moving the
/// user-level space off `~` (see `update_workspace_result`).
pub fn update_workspace_at(id: String, name: String, path: String, now: Option<i64>, db: &mut Database) -> (res:
    Result<Workspace, String>)
    ensures
        final(db).log().take(old(db).log().len() as int) == old(db).log(),
        update_workspace_result(new_events(old(db).log(), final(db).log()), id@, name@, path@, now, res),
{
    let ghost start = db.log();
    proof {
        assert(start.take(start.len() as int) =~= start);
    }
    let r0 = db.get_workspace(id.as_str());
    proof {
        lemma_appended_one(start, start, db.log());
        assert(new_events(start, start) =~= Seq::<DbEvent>::empty());
    }
    let ghost e0 = db.log().last();
    assert(new_events(start, db.log()) =~= seq![e0]);
    let mut ws = match r0 {
        Ok(Some(w)) => w,
        Ok(None) => {
            return Err(ServiceError::WorkspaceNotFound(id).message());
        },
        Err(e) => {
            return Err(e.message());
        },
    };
    if ws.is_user_level && !is_home_path(path.as_str()) {
        return Err(String::from_str("用户级别空间路径不可修改"));
    }
    let ghost name_v = name@;
    let ghost path_v = path@;
    let ghost row = rows_of(e0)->0[0];
    ws.name = name;
    ws.path = path;
    ws.updated_at = match now {
        Some(t) => t,
        None => {
            return Err(ServiceError::Clock.message());
        },
    };
    let ghost b1 = db.log();
    let r1 = db.update_workspace(&ws);
    proof {
        lemma_appended_one(start, b1, db.log());
        assert(new_events(start, db.log()) =~= seq![e0, db.log().last()]);
        assert(db.log().last() matches DbEvent::Execute { params, .. } && binds_workspace_update(params, ws));
        assert(writes_workspace_edit(db.log().last(), row, name_v, path_v, ws.updated_at));
    }
    match r1 {
        Ok(()) => Ok(ws),
        Err(e) => Err(e.message()),
    }
}

/// Deletes a workspace; the user-level space is refused (see
/// `delete_workspace_result`).
pub fn delete_workspace(id: String, db: &mut Database) -> (res: Result<(), String>)
    ensures
        final(db).log().take(old(db).log().len() as int) == old(db).log(),
        delete_workspace_result(new_events(old(db).log(), final(db).log()), id@, res),
{
    let ghost start = db.log();
    proof {
        assert(start.take(start.len() as int) =~= start);
        assert(new_events(start, start) =~= Seq::<DbEvent>::empty());
    }
    let r0 = db.get_workspace(id.as_str());
    proof {
        lemma_appended_one(start, start, db.log());
    }
    let ghost e0 = db.log().last();
    let ghost b1 = db.log();
    assert(new_events(start, b1) =~= seq![e0]);
    if let Ok(Some(ws)) = r0 {
        if ws.is_user_level {
            return Err(String::from_str("用户级别空间不可删除"));
        }
    }
    let r1 = db.delete_workspace(id.as_str());
    proof {
        lemma_appended_one(start, b1, db.log());
        assert(new_events(start, db.log()) =~= seq![e0, db.log().last()]);
    }
    match r1 {
        Ok(()) => Ok(()),
        Err(e) => Err(e.message()),
    }
}

/// Binds a group to a workspace.
pub fn add_group_to_workspace(workspace_id: String, group_id: String, db: &mut Database) -> (res: Result<
    (),
    String,
>)
    ensures
        one_execute(old(db).log(), final(db).log(), BIND_GROUP_SQL@, seq![workspace_id@, group_id@], res is Ok),
{
    match db.add_group_to_workspace(workspace_id.as_str(), group_id.as_str()) {
        Ok(()) => Ok(()),
        Err(e) => Err(e.message()),
    }
}

/// Unbinds a group from a workspace.
pub fn remove_group_from_workspace(workspace_id: String, group_id: String, db: &mut Database) -> (res:
    Result<(), String>)
    ensures
        one_execute(old(db).log(), final(db).log(), UNBIND_GROUP_SQL@, seq![workspace_id@, group_id@], res is Ok),
{
    match db.remove_group_from_workspace(workspace_id.as_str(), group_id.as_str()) {
        Ok(()) => Ok(()),
        Err(e) => Err(e.message()),
    }
}

/// The ids of the groups bound to a workspace.
pub fn get_workspace_group_ids(workspace_id: String, db: &mut Database) -> (res: Result<Vec<String>, String>)
    ensures
        one_query(old(db).log(), final(db).log(), SELECT_WORKSPACE_GROUP_IDS_SQL@, seq![workspace_id@]),
        texts_result(final(db).log().last(), res),
{
    match db.get_workspace_group_ids(workspace_id.as_str()) {
        Ok(v) => Ok(v),
        Err(e) => Err(e.message()),
    }
}

/// Checks (binds and activates) or unchecks (deactivates and unbinds) a
/// group in a workspace and starts the workspace's synchronisation (see
/// `WorkspaceSkillService::toggle_group` and `toggle_result`).
pub fn toggle_group_in_workspace(workspace_id: String, group_id: String, active: bool, db: &mut Database) -> (res:
    Result<(WorkspaceSync, SyncStep), String>)
    ensures
        final(db).log().take(old(db).log().len() as int) == old(db).log(),
        exists|r: Result<(WorkspaceSync, SyncStep), ServiceError>|
            #[trigger] toggle_result(new_events(old(db).log(), final(db).log()), workspace_id@, group_id@, active, r)
                && service_mapped(r, res),
{
    let r = WorkspaceSkillService::toggle_group(db, workspace_id.as_str(), group_id.as_str(), active);
    let ghost rg = r;
    let res = match r {
        Ok(x) => Ok(x),
        Err(e) => Err(e.message()),
    };
    assert(toggle_result(new_events(old(db).log(), db.log()), workspace_id@, group_id@, active, rg)
        && service_mapped(rg, res));
    res
}

/// The ids of the groups active in a workspace.
pub fn get_workspace_active_group_ids(workspace_id: String, db: &mut Database) -> (res: Result<
    Vec<String>,
    String,
>)
    ensures
        one_query(old(db).log(), final(db).log(), SELECT_ACTIVE_GROUP_IDS_OF_WORKSPACE_SQL@, seq![workspace_id@]),
        texts_result(final(db).log().last(), res),
{
    match db.get_workspace_active_group_ids(workspace_id.as_str()) {
        Ok(v) => Ok(v),
        Err(e) => Err(e.message()),
    }
}

} // verus!
