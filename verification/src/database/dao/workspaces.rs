//! The `workspaces`, `workspace_groups` and `workspace_group_active` tables.

use crate::database::dao::skill_groups::{one_execute, one_query};
use crate::database::dao::{ids_for_owner, lemma_owned_ids_are_the_joined_pairs, owned_ids, pairs_view, text_pairs_of};
use crate::database::{
    binds_bool, binds_int, binds_text, bool_at, bool_param, column_bool, column_int, column_text, int_at, text_at, text_column, text_pairs, text_param, appended, is_query, new_events, rows_of, rows_view, texts_result, DbEvent, AppError,
    Database, SqlParam, SqlValue,
};
use vstd::prelude::*;

verus! {

/// A project directory whose skills directory follows the groups active in it.
#[derive(Debug)]
pub struct Workspace {
    pub id: String,
    pub name: String,
    pub path: String,
    /// Whether this is the user-level space (path `~`), which is neither
    /// deleted nor moved.
    pub is_user_level: bool,
    pub created_at: i64,
    pub updated_at: i64,
    /// The ids of the groups bound to the workspace (filled in by
    /// `get_all_workspaces`).
    pub group_ids: Vec<String>,
}

/// Whether every column of a `workspaces` row holds a value of the field's type.
pub open spec fn workspace_row_decodes(row: Seq<SqlValue>) -> bool {
    &&& text_at(row, 0) is Some
    &&& text_at(row, 1) is Some
    &&& text_at(row, 2) is Some
    &&& int_at(row, 3) is Some
    &&& int_at(row, 4) is Some
    &&& bool_at(row, 5) is Some
}

/// Whether the fields of `w` are the columns of `row`.
pub open spec fn workspace_fields_from_row(w: Workspace, row: Seq<SqlValue>) -> bool {
    &&& text_at(row, 0) == Some(w.id@)
    &&& text_at(row, 1) == Some(w.name@)
    &&& text_at(row, 2) == Some(w.path@)
    &&& int_at(row, 3) == Some(w.created_at)
    &&& int_at(row, 4) == Some(w.updated_at)
    &&& bool_at(row, 5) == Some(w.is_user_level)
}

/// Whether `workspaces` are the decoded `rows` with group lists joined from
/// `pairs` of `(workspace id, group id)`.
pub open spec fn workspaces_from_rows(
    workspaces: Seq<Workspace>,
    rows: Seq<Seq<SqlValue>>,
    pairs: Seq<(Seq<char>, Seq<char>)>,
) -> bool {
    &&& workspaces.len() == rows.len()
    &&& forall|i: int|
        0 <= i < rows.len() ==> workspace_fields_from_row(#[trigger] workspaces[i], rows[i])
            && workspaces[i].group_ids.deep_view() == owned_ids(pairs, workspaces[i].id@)
}

/// Each listed workspace's groups are the groups bound to it: a group id is
/// in the list exactly when the binding `(workspace id, group id)` was read,
/// and where no binding was read twice, no group is listed twice.
pub proof fn lemma_workspace_groups_are_its_bindings(
    workspaces: Seq<Workspace>,
    rows: Seq<Seq<SqlValue>>,
    pairs: Seq<(Seq<char>, Seq<char>)>,
)
    requires
        workspaces_from_rows(workspaces, rows, pairs),
    ensures
        forall|i: int, x: Seq<char>|
            0 <= i < workspaces.len() ==> (#[trigger] workspaces[i].group_ids.deep_view().contains(x) <==> pairs.contains(
                (workspaces[i].id@, x),
            )),
        pairs.no_duplicates() ==> forall|i: int|
            0 <= i < workspaces.len() ==> (#[trigger] workspaces[i].group_ids.deep_view()).no_duplicates(),
{
    assert forall|i: int, x: Seq<char>| 0 <= i < workspaces.len() implies (
    #[trigger] workspaces[i].group_ids.deep_view().contains(x) <==> pairs.contains((workspaces[i].id@, x))) by {
        lemma_owned_ids_are_the_joined_pairs(pairs, workspaces[i].id@);
    }
    assert forall|i: int| pairs.no_duplicates() && 0 <= i < workspaces.len() implies (
    #[trigger] workspaces[i].group_ids.deep_view()).no_duplicates() by {
        lemma_owned_ids_are_the_joined_pairs(pairs, workspaces[i].id@);
    }
}

/// Whether `p` binds the six stored fields of `w` in the column order of
/// the `INSERT`.
pub open spec fn binds_workspace_row(p: Seq<SqlParam>, w: Workspace) -> bool {
    &&& p.len() == 6
    &&& binds_text(p[0], w.id@)
    &&& binds_text(p[1], w.name@)
    &&& binds_text(p[2], w.path@)
    &&& binds_int(p[3], w.created_at)
    &&& binds_int(p[4], w.updated_at)
    &&& binds_bool(p[5], w.is_user_level)
}

/// Whether `p` binds the name, path and update time of `w`, then the id that
/// selects the row, as the `UPDATE` reads them.
pub open spec fn binds_workspace_update(p: Seq<SqlParam>, w: Workspace) -> bool {
    &&& p.len() == 4
    &&& binds_text(p[0], w.name@)
    &&& binds_text(p[1], w.path@)
    &&& binds_int(p[2], w.updated_at)
    &&& binds_text(p[3], w.id@)
}

/// The parameters of the `INSERT` of a workspace.
pub fn workspace_row_params(w: &Workspace) -> (p: Vec<SqlParam>)
    ensures
        binds_workspace_row(p@, *w),
{
    vec![
        text_param(&w.id),
        text_param(&w.name),
        text_param(&w.path),
        SqlParam::Integer(w.created_at),
        SqlParam::Integer(w.updated_at),
        bool_param(w.is_user_level),
    ]
}

/// The parameters of the `UPDATE` of a workspace.
pub fn workspace_update_params(w: &Workspace) -> (p: Vec<SqlParam>)
    ensures
        binds_workspace_update(p@, *w),
{
    vec![text_param(&w.name), text_param(&w.path), SqlParam::Integer(w.updated_at), text_param(&w.id)]
}

/// The statements of these tables, as sent to SQLite.
pub const SELECT_WORKSPACES_SQL: &'static str = "SELECT id, name, path, created_at, updated_at, is_user_level FROM workspaces ORDER BY name ASC";
pub const SELECT_WORKSPACE_GROUP_PAIRS_SQL: &'static str = "SELECT workspace_id, group_id FROM workspace_groups ORDER BY workspace_id";
pub const SELECT_WORKSPACE_SQL: &'static str = "SELECT id, name, path, created_at, updated_at, is_user_level FROM workspaces WHERE id=?1";
pub const INSERT_WORKSPACE_SQL: &'static str = "INSERT INTO workspaces (id, name, path, created_at, updated_at, is_user_level) VALUES (?1, ?2, ?3, ?4, ?5, ?6)";
pub const UPDATE_WORKSPACE_SQL: &'static str = "UPDATE workspaces SET name=?1, path=?2, updated_at=?3 WHERE id=?4";
pub const DELETE_WORKSPACE_SQL: &'static str = "DELETE FROM workspaces WHERE id=?1";
pub const BIND_GROUP_SQL: &'static str = "INSERT OR IGNORE INTO workspace_groups (workspace_id, group_id) VALUES (?1, ?2)";
pub const UNBIND_GROUP_SQL: &'static str = "DELETE FROM workspace_groups WHERE workspace_id=?1 AND group_id=?2";
pub const SELECT_WORKSPACE_GROUP_IDS_SQL: &'static str = "SELECT group_id FROM workspace_groups WHERE workspace_id=?1";
pub const ACTIVATE_GROUP_SQL: &'static str = "INSERT OR IGNORE INTO workspace_group_active (workspace_id, group_id) VALUES (?1, ?2)";
pub const DEACTIVATE_GROUP_SQL: &'static str = "DELETE FROM workspace_group_active WHERE workspace_id=?1 AND group_id=?2";
pub const SELECT_ACTIVE_GROUP_IDS_OF_WORKSPACE_SQL: &'static str = "SELECT group_id FROM workspace_group_active WHERE workspace_id=?1";
pub const SELECT_WORKSPACES_WITH_ACTIVE_GROUP_SQL: &'static str = "SELECT workspace_id FROM workspace_group_active WHERE group_id=?1";

/// Whether every row decodes as a workspace.
pub open spec fn workspace_rows_decode(rows: Seq<Seq<SqlValue>>) -> bool {
    forall|i: int| 0 <= i < rows.len() ==> #[trigger] workspace_row_decodes(rows[i])
}

/// What listing the workspaces gives, from the queries it sent: the
/// workspaces, then (where every row decodes) the bound groups, joined.
pub open spec fn all_workspaces_result<E>(events: Seq<DbEvent>, res: Result<Vec<Workspace>, E>) -> bool {
    &&& events.len() >= 1
    &&& is_query(events[0], SELECT_WORKSPACES_SQL@, seq![])
    &&& match rows_of(events[0]) {
        None => events.len() == 1 && res is Err,
        Some(rows) => if !workspace_rows_decode(rows) {
            events.len() == 1 && res is Err
        } else {
            &&& events.len() == 2
            &&& is_query(events[1], SELECT_WORKSPACE_GROUP_PAIRS_SQL@, seq![])
            &&& match rows_of(events[1]) {
                None => res is Err,
                Some(pair_rows) => match text_pairs_of(pair_rows) {
                    None => res is Err,
                    Some(pairs) => res matches Ok(ws) && workspaces_from_rows(ws@, rows, pairs),
                },
            }
        },
    }
}

/// What looking a workspace up gives, from the rows of its query.
pub open spec fn first_workspace_result<E>(e: DbEvent, res: Result<Option<Workspace>, E>) -> bool {
    match rows_of(e) {
        None => res is Err,
        Some(rows) => if rows.len() == 0 {
            res matches Ok(None)
        } else if workspace_row_decodes(rows[0]) {
            res matches Ok(Some(w)) && workspace_fields_from_row(w, rows[0]) && w.group_ids@.len() == 0
        } else {
            res is Err
        },
    }
}

impl Database {
    /// Decodes one `workspaces` row; the group list is left empty.
    pub fn row_to_workspace(row: &Vec<SqlValue>) -> (res: Result<Workspace, AppError>)
        ensures
            res is Ok <==> workspace_row_decodes(row@),
            res matches Ok(w) ==> workspace_fields_from_row(w, row@) && w.group_ids@.len() == 0,
            res matches Err(e) ==> e is Database,
    {
        Ok(
            Workspace {
                id: column_text(row, 0)?,
                name: column_text(row, 1)?,
                path: column_text(row, 2)?,
                created_at: column_int(row, 3)?,
                updated_at: column_int(row, 4)?,
                is_user_level: column_bool(row, 5)?,
                group_ids: Vec::new(),
            },
        )
    }

    /// Decodes every row, stopping at the first that does not decode.
    pub fn rows_to_workspaces(rows: &Vec<Vec<SqlValue>>) -> (res: Result<Vec<Workspace>, AppError>)
        ensures
            match res {
                Ok(ws) => ws.len() == rows.len() && forall|i: int|
                    0 <= i < rows.len() ==> workspace_fields_from_row(#[trigger] ws[i], rows[i]@),
                Err(e) => e is Database && exists|i: int|
                    0 <= i < rows.len() && !workspace_row_decodes(#[trigger] rows[i]@),
            },
    {
        let mut out: Vec<Workspace> = Vec::new();
        let mut i: usize = 0;
        while i < rows.len()
            invariant
                i <= rows.len(),
                out.len() == i,
                forall|k: int| 0 <= k < i ==> workspace_fields_from_row(#[trigger] out[k], rows[k]@),
            decreases rows.len() - i,
        {
            match Self::row_to_workspace(&rows[i]) {
                Ok(w) => out.push(w),
                Err(e) => {
                    return Err(e);
                },
            }
            i = i + 1;
        }
        Ok(out)
    }

    /// All workspaces ordered by name, each with the ids of its bound groups.
    pub fn get_all_workspaces(&mut self) -> (res: Result<Vec<Workspace>, AppError>)
        ensures
            final(self).log().len() >= old(self).log().len(),
            final(self).log().take(old(self).log().len() as int) == old(self).log(),
            all_workspaces_result(new_events(old(self).log(), final(self).log()), res),
    {
        let ghost start = self.log();
        let rows = match self.query(SELECT_WORKSPACES_SQL, &Vec::new()) {
            Ok(rows) => rows,
            Err(e) => {
                assert(new_events(start, self.log()) =~= seq![self.log().last()]);
                return Err(e);
            },
        };
        let ghost rv = rows_view(rows@);
        let ghost e0 = self.log().last();
        let mut workspaces = match Self::rows_to_workspaces(&rows) {
            Ok(ws) => ws,
            Err(e) => {
                proof {
                    let i = choose|i: int| 0 <= i < rows.len() && !workspace_row_decodes(#[trigger] rows[i]@);
                    assert(rv[i] == rows[i]@);
                    assert(new_events(start, self.log()) =~= seq![e0]);
                }
                return Err(e);
            },
        };
        assert forall|i: int| 0 <= i < rv.len() implies #[trigger] workspace_row_decodes(rv[i]) by {
            assert(rv[i] == rows[i]@);
            assert(workspace_fields_from_row(workspaces[i], rows[i]@));
        }
        let pair_rows = match self.query(SELECT_WORKSPACE_GROUP_PAIRS_SQL, &Vec::new()) {
            Ok(r) => r,
            Err(e) => {
                assert(new_events(start, self.log()) =~= seq![e0, self.log().last()]);
                return Err(e);
            },
        };
        let ghost e1 = self.log().last();
        assert(new_events(start, self.log()) =~= seq![e0, e1]);
        let ghost mv = rows_view(pair_rows@);
        let pairs = match text_pairs(&pair_rows) {
            Ok(p) => p,
            Err(e) => {
                proof {
                    let i = choose|i: int| 0 <= i < pair_rows.len() && (text_at(#[trigger] pair_rows[i]@, 0) is None || text_at(pair_rows[i]@, 1) is None);
                    assert(mv[i] == pair_rows[i]@);
                }
                return Err(e);
            },
        };
        proof {
            assert forall|i: int| 0 <= i < mv.len() implies #[trigger] text_at(mv[i], 0) is Some && text_at(mv[i], 1) is Some by {
                assert(mv[i] == pair_rows[i]@);
            }
            assert(text_pairs_of(mv) == Some(pairs_view(pairs@))) by {
                assert(Seq::new(mv.len(), |i: int| (text_at(mv[i], 0)->0, text_at(mv[i], 1)->0)) =~= pairs_view(pairs@)) by {
                    assert forall|i: int| 0 <= i < mv.len() implies (text_at(mv[i], 0)->0, text_at(mv[i], 1)->0) == pairs_view(pairs@)[i] by {
                        assert(mv[i] == pair_rows[i]@);
                    }
                }
            }
        }
        let mut i: usize = 0;
        while i < workspaces.len()
            invariant
                i <= workspaces.len(),
                workspaces.len() == rows.len(),
                forall|k: int| 0 <= k < rows.len() ==> workspace_fields_from_row(#[trigger] workspaces[k], rows[k]@),
                forall|k: int|
                    0 <= k < i ==> (#[trigger] workspaces[k]).group_ids.deep_view() == owned_ids(
                        pairs_view(pairs@),
                        workspaces[k].id@,
                    ),
            decreases workspaces.len() - i,
        {
            let ids = ids_for_owner(&pairs, &workspaces[i].id);
            workspaces[i].group_ids = ids;
            i = i + 1;
        }
        assert(workspaces_from_rows(workspaces@, rv, pairs_view(pairs@))) by {
            assert forall|k: int| 0 <= k < rv.len() implies workspace_fields_from_row(#[trigger] workspaces@[k], rv[k]) by {
                assert(rv[k] == rows[k]@);
            }
        }
        Ok(workspaces)
    }

    /// The workspace with id `id`, or `None` where no row has that id.
    pub fn get_workspace(&mut self, id: &str) -> (res: Result<Option<Workspace>, AppError>)
        ensures
            one_query(old(self).log(), final(self).log(), SELECT_WORKSPACE_SQL@, seq![id@]),
            first_workspace_result(final(self).log().last(), res),
    {
        let params = Self::text_params1(id);
        let rows = self.query(SELECT_WORKSPACE_SQL, &params)?;
        if rows.len() == 0 {
            return Ok(None);
        }
        assert(rows_view(rows@)[0] == rows[0]@);
        let w = Self::row_to_workspace(&rows[0])?;
        Ok(Some(w))
    }

    /// Inserts `ws` as a new row (its group list is not stored here).
    pub fn create_workspace(&mut self, ws: &Workspace) -> (res: Result<(), AppError>)
        ensures
            res matches Err(e) ==> e is Database,
            appended(old(self).log(), final(self).log(), 1),
            final(self).log().last() matches DbEvent::Execute { sql, params, ok } && sql == INSERT_WORKSPACE_SQL@
                && binds_workspace_row(params, *ws) && ok == (res is Ok),
    {
        let params = workspace_row_params(ws);
        self.execute(INSERT_WORKSPACE_SQL, &params)
    }

    /// Writes the name, path and update time of the row whose id is `ws.id`.
    pub fn update_workspace(&mut self, ws: &Workspace) -> (res: Result<(), AppError>)
        ensures
            res matches Err(e) ==> e is Database,
            appended(old(self).log(), final(self).log(), 1),
            final(self).log().last() matches DbEvent::Execute { sql, params, ok } && sql == UPDATE_WORKSPACE_SQL@
                && binds_workspace_update(params, *ws) && ok == (res is Ok),
    {
        let params = workspace_update_params(ws);
        self.execute(UPDATE_WORKSPACE_SQL, &params)
    }

    /// Deletes the workspace with id `id`.
    pub fn delete_workspace(&mut self, id: &str) -> (res: Result<(), AppError>)
        ensures
            res matches Err(e) ==> e is Database,
            one_execute(old(self).log(), final(self).log(), DELETE_WORKSPACE_SQL@, seq![id@], res is Ok),
    {
        let params = Self::text_params1(id);
        self.execute(DELETE_WORKSPACE_SQL, &params)
    }

    /// Binds `group_id` to `workspace_id`; already bound is no error.
    pub fn add_group_to_workspace(&mut self, workspace_id: &str, group_id: &str) -> (res: Result<(), AppError>)
        ensures
            res matches Err(e) ==> e is Database,
            one_execute(old(self).log(), final(self).log(), BIND_GROUP_SQL@, seq![workspace_id@, group_id@], res is Ok),
    {
        let params = Self::text_params2(workspace_id, group_id);
        self.execute(BIND_GROUP_SQL, &params)
    }

    /// Unbinds `group_id` from `workspace_id`.
    pub fn remove_group_from_workspace(&mut self, workspace_id: &str, group_id: &str) -> (res: Result<
        (),
        AppError,
    >)
        ensures
            res matches Err(e) ==> e is Database,
            one_execute(old(self).log(), final(self).log(), UNBIND_GROUP_SQL@, seq![workspace_id@, group_id@], res is Ok),
    {
        let params = Self::text_params2(workspace_id, group_id);
        self.execute(UNBIND_GROUP_SQL, &params)
    }

    /// The ids of the groups bound to `workspace_id`.
    pub fn get_workspace_group_ids(&mut self, workspace_id: &str) -> (res: Result<Vec<String>, AppError>)
        ensures
            res matches Err(e) ==> e is Database,
            one_query(old(self).log(), final(self).log(), SELECT_WORKSPACE_GROUP_IDS_SQL@, seq![workspace_id@]),
            texts_result(final(self).log().last(), res),
    {
        let params = Self::text_params1(workspace_id);
        let rows = self.query(SELECT_WORKSPACE_GROUP_IDS_SQL, &params)?;
        text_column(&rows)
    }

    /// Marks `group_id` active (`active`) or not active in `workspace_id`.
    pub fn toggle_workspace_group_active(&mut self, workspace_id: &str, group_id: &str, active: bool) -> (res:
        Result<(), AppError>)
        ensures
            res matches Err(e) ==> e is Database,
            one_execute(
                old(self).log(),
                final(self).log(),
                if active { ACTIVATE_GROUP_SQL@ } else { DEACTIVATE_GROUP_SQL@ },
                seq![workspace_id@, group_id@],
                res is Ok,
            ),
    {
        let params = Self::text_params2(workspace_id, group_id);
        if active {
            self.execute(ACTIVATE_GROUP_SQL, &params)
        } else {
            self.execute(DEACTIVATE_GROUP_SQL, &params)
        }
    }

    /// The ids of the groups active in `workspace_id`.
    pub fn get_workspace_active_group_ids(&mut self, workspace_id: &str) -> (res: Result<Vec<String>, AppError>)
        ensures
            res matches Err(e) ==> e is Database,
            one_query(old(self).log(), final(self).log(), SELECT_ACTIVE_GROUP_IDS_OF_WORKSPACE_SQL@, seq![workspace_id@]),
            texts_result(final(self).log().last(), res),
    {
        let params = Self::text_params1(workspace_id);
        let rows = self.query(SELECT_ACTIVE_GROUP_IDS_OF_WORKSPACE_SQL, &params)?;
        text_column(&rows)
    }

    /// The ids of the workspaces in which `group_id` is active.
    pub fn get_workspaces_with_active_group(&mut self, group_id: &str) -> (res: Result<Vec<String>, AppError>)
        ensures
            res matches Err(e) ==> e is Database,
            one_query(old(self).log(), final(self).log(), SELECT_WORKSPACES_WITH_ACTIVE_GROUP_SQL@, seq![group_id@]),
            texts_result(final(self).log().last(), res),
    {
        let params = Self::text_params1(group_id);
        let rows = self.query(SELECT_WORKSPACES_WITH_ACTIVE_GROUP_SQL, &params)?;
        text_column(&rows)
    }
}

} // verus!
