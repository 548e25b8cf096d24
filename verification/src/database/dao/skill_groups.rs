//! The `skill_groups` and `skill_group_members` tables.

use crate::database::dao::{ids_for_owner, lemma_owned_ids_are_the_joined_pairs, owned_ids, pairs_view, text_pairs_of};
use crate::database::{
    binds_bool, binds_int, binds_opt_int, binds_opt_text, binds_text, bool_at, bool_param, column_bool, column_int, column_opt_int, column_opt_text, column_text,
    int_at, opt_int_at, opt_int_param, opt_text_at, opt_text_param, opt_view, text_at, text_pairs,
    text_param, appended, is_execute, is_query, new_events, rows_of, rows_view, succeeded,
    texts_result, text_column, lemma_appended_one, AppError, Database, DbEvent, SqlParam, SqlValue,
};
use vstd::prelude::*;

verus! {

/// The agent applications a group is enabled for.
#[derive(Debug)]
pub struct SkillGroupApps {
    pub claude: bool,
    pub codex: bool,
    pub gemini: bool,
    pub opencode: bool,
    pub hermes: bool,
}

/// A named set of skills.
#[derive(Debug)]
pub struct SkillGroup {
    pub id: String,
    pub name: String,
    pub description: Option<String>,
    pub icon: Option<String>,
    pub is_active: bool,
    pub sort_index: Option<i64>,
    pub created_at: i64,
    pub updated_at: i64,
    pub apps: SkillGroupApps,
    /// The ids of the member skills (filled in by `get_all_skill_groups`).
    pub member_ids: Vec<String>,
}

/// Whether every column of a `skill_groups` row (in the order of the
/// `SELECT` lists below) holds a value of the field's type.
pub open spec fn group_row_decodes(row: Seq<SqlValue>) -> bool {
    &&& text_at(row, 0) is Some
    &&& text_at(row, 1) is Some
    &&& opt_text_at(row, 2) is Some
    &&& opt_text_at(row, 3) is Some
    &&& bool_at(row, 4) is Some
    &&& opt_int_at(row, 5) is Some
    &&& int_at(row, 6) is Some
    &&& int_at(row, 7) is Some
    &&& bool_at(row, 8) is Some
    &&& bool_at(row, 9) is Some
    &&& bool_at(row, 10) is Some
    &&& bool_at(row, 11) is Some
    &&& bool_at(row, 12) is Some
}

/// Whether the fields of `g` are the columns of `row`. The member list is
/// not part of the row.
pub open spec fn group_fields_from_row(g: SkillGroup, row: Seq<SqlValue>) -> bool {
    &&& text_at(row, 0) == Some(g.id@)
    &&& text_at(row, 1) == Some(g.name@)
    &&& opt_text_at(row, 2) == Some(opt_view(g.description))
    &&& opt_text_at(row, 3) == Some(opt_view(g.icon))
    &&& bool_at(row, 4) == Some(g.is_active)
    &&& opt_int_at(row, 5) == Some(g.sort_index)
    &&& int_at(row, 6) == Some(g.created_at)
    &&& int_at(row, 7) == Some(g.updated_at)
    &&& bool_at(row, 8) == Some(g.apps.claude)
    &&& bool_at(row, 9) == Some(g.apps.codex)
    &&& bool_at(row, 10) == Some(g.apps.gemini)
    &&& bool_at(row, 11) == Some(g.apps.opencode)
    &&& bool_at(row, 12) == Some(g.apps.hermes)
}

/// Whether `groups` are the decoded `rows` with member lists joined from
/// `pairs` of `(group id, skill id)`.
pub open spec fn groups_from_rows(
    groups: Seq<SkillGroup>,
    rows: Seq<Seq<SqlValue>>,
    pairs: Seq<(Seq<char>, Seq<char>)>,
) -> bool {
    &&& groups.len() == rows.len()
    &&& forall|i: int|
        0 <= i < rows.len() ==> group_fields_from_row(#[trigger] groups[i], rows[i])
            && groups[i].member_ids.deep_view() == owned_ids(pairs, groups[i].id@)
}

/// Each listed group's members are its membership rows: a skill id is in
/// the list exactly when the pair `(group id, skill id)` was read, and where
/// no pair was read twice, no member is listed twice.
pub proof fn lemma_group_members_are_its_rows(
    groups: Seq<SkillGroup>,
    rows: Seq<Seq<SqlValue>>,
    pairs: Seq<(Seq<char>, Seq<char>)>,
)
    requires
        groups_from_rows(groups, rows, pairs),
    ensures
        forall|i: int, x: Seq<char>|
            0 <= i < groups.len() ==> (#[trigger] groups[i].member_ids.deep_view().contains(x) <==> pairs.contains(
                (groups[i].id@, x),
            )),
        pairs.no_duplicates() ==> forall|i: int|
            0 <= i < groups.len() ==> (#[trigger] groups[i].member_ids.deep_view()).no_duplicates(),
{
    assert forall|i: int, x: Seq<char>| 0 <= i < groups.len() implies (
    #[trigger] groups[i].member_ids.deep_view().contains(x) <==> pairs.contains((groups[i].id@, x))) by {
        lemma_owned_ids_are_the_joined_pairs(pairs, groups[i].id@);
    }
    assert forall|i: int| pairs.no_duplicates() && 0 <= i < groups.len() implies (
    #[trigger] groups[i].member_ids.deep_view()).no_duplicates() by {
        lemma_owned_ids_are_the_joined_pairs(pairs, groups[i].id@);
    }
}

/// Whether `p` binds the thirteen stored fields of `g` in the column order of
/// the `INSERT` (`?1` to `?13`).
pub open spec fn binds_group_row(p: Seq<SqlParam>, g: SkillGroup) -> bool {
    &&& p.len() == 13
    &&& binds_text(p[0], g.id@)
    &&& binds_text(p[1], g.name@)
    &&& binds_opt_text(p[2], opt_view(g.description))
    &&& binds_opt_text(p[3], opt_view(g.icon))
    &&& binds_bool(p[4], g.is_active)
    &&& binds_opt_int(p[5], g.sort_index)
    &&& binds_int(p[6], g.created_at)
    &&& binds_int(p[7], g.updated_at)
    &&& binds_bool(p[8], g.apps.claude)
    &&& binds_bool(p[9], g.apps.codex)
    &&& binds_bool(p[10], g.apps.gemini)
    &&& binds_bool(p[11], g.apps.opencode)
    &&& binds_bool(p[12], g.apps.hermes)
}

/// Whether `p` binds the ten updated fields of `g` (`?1` to `?10`) and then
/// the id that selects the row (`?11`), as the `UPDATE` reads them.
pub open spec fn binds_group_update(p: Seq<SqlParam>, g: SkillGroup) -> bool {
    &&& p.len() == 11
    &&& binds_text(p[0], g.name@)
    &&& binds_opt_text(p[1], opt_view(g.description))
    &&& binds_opt_text(p[2], opt_view(g.icon))
    &&& binds_opt_int(p[3], g.sort_index)
    &&& binds_int(p[4], g.updated_at)
    &&& binds_bool(p[5], g.apps.claude)
    &&& binds_bool(p[6], g.apps.codex)
    &&& binds_bool(p[7], g.apps.gemini)
    &&& binds_bool(p[8], g.apps.opencode)
    &&& binds_bool(p[9], g.apps.hermes)
    &&& binds_text(p[10], g.id@)
}

/// The parameters of the `INSERT` of a group: its thirteen stored fields in
/// column order.
pub fn group_row_params(g: &SkillGroup) -> (p: Vec<SqlParam>)
    ensures
        binds_group_row(p@, *g),
{
    vec![
        text_param(&g.id),
        text_param(&g.name),
        opt_text_param(&g.description),
        opt_text_param(&g.icon),
        bool_param(g.is_active),
        opt_int_param(g.sort_index),
        SqlParam::Integer(g.created_at),
        SqlParam::Integer(g.updated_at),
        bool_param(g.apps.claude),
        bool_param(g.apps.codex),
        bool_param(g.apps.gemini),
        bool_param(g.apps.opencode),
        bool_param(g.apps.hermes),
    ]
}

/// The parameters of the `UPDATE` of a group: the ten updated fields, then
/// the id that selects the row.
pub fn group_update_params(g: &SkillGroup) -> (p: Vec<SqlParam>)
    ensures
        binds_group_update(p@, *g),
{
    vec![
        text_param(&g.name),
        opt_text_param(&g.description),
        opt_text_param(&g.icon),
        opt_int_param(g.sort_index),
        SqlParam::Integer(g.updated_at),
        bool_param(g.apps.claude),
        bool_param(g.apps.codex),
        bool_param(g.apps.gemini),
        bool_param(g.apps.opencode),
        bool_param(g.apps.hermes),
        text_param(&g.id),
    ]
}

/// The statements of this table, as sent to SQLite.
pub const SELECT_GROUPS_SQL: &'static str = "SELECT id, name, description, icon, is_active, sort_index, created_at, updated_at,
                    enabled_claude, enabled_codex, enabled_gemini, enabled_opencode, enabled_hermes
             FROM skill_groups ORDER BY COALESCE(sort_index, 9999), name ASC";
pub const SELECT_MEMBER_PAIRS_SQL: &'static str = "SELECT group_id, skill_id FROM skill_group_members ORDER BY group_id";
pub const SELECT_GROUP_SQL: &'static str = "SELECT id, name, description, icon, is_active, sort_index, created_at, updated_at,
                    enabled_claude, enabled_codex, enabled_gemini, enabled_opencode, enabled_hermes
             FROM skill_groups WHERE id = ?1";
pub const INSERT_GROUP_SQL: &'static str = "INSERT INTO skill_groups (id, name, description, icon, is_active, sort_index, created_at, updated_at,
                                       enabled_claude, enabled_codex, enabled_gemini, enabled_opencode, enabled_hermes)
             VALUES (?1, ?2, ?3, ?4, ?5, ?6, ?7, ?8, ?9, ?10, ?11, ?12, ?13)";
pub const UPDATE_GROUP_SQL: &'static str = "UPDATE skill_groups SET name=?1, description=?2, icon=?3, sort_index=?4, updated_at=?5,
                                     enabled_claude=?6, enabled_codex=?7, enabled_gemini=?8,
                                     enabled_opencode=?9, enabled_hermes=?10
             WHERE id=?11";
pub const DELETE_GROUP_SQL: &'static str = "DELETE FROM skill_groups WHERE id=?1";
pub const SET_GROUP_ACTIVE_SQL: &'static str = "UPDATE skill_groups SET is_active = ?1 WHERE id = ?2";
pub const ADD_MEMBER_SQL: &'static str = "INSERT OR IGNORE INTO skill_group_members (group_id, skill_id) VALUES (?1, ?2)";
pub const REMOVE_MEMBER_SQL: &'static str = "DELETE FROM skill_group_members WHERE group_id=?1 AND skill_id=?2";
pub const CLEAR_MEMBERS_SQL: &'static str = "DELETE FROM skill_group_members WHERE group_id=?1";
pub const SELECT_MEMBER_IDS_SQL: &'static str = "SELECT skill_id FROM skill_group_members WHERE group_id=?1";
pub const SELECT_ACTIVE_GROUP_IDS_SQL: &'static str = "SELECT id FROM skill_groups WHERE is_active = 1";

/// Whether every row decodes as a group.
pub open spec fn group_rows_decode(rows: Seq<Seq<SqlValue>>) -> bool {
    forall|i: int| 0 <= i < rows.len() ==> #[trigger] group_row_decodes(rows[i])
}

/// What listing the groups gives, from the queries it sent (`events`): the
/// groups, then (where every group row decodes) the membership pairs, joined.
pub open spec fn all_groups_result<E>(events: Seq<DbEvent>, res: Result<Vec<SkillGroup>, E>) -> bool {
    &&& events.len() >= 1
    &&& is_query(events[0], SELECT_GROUPS_SQL@, seq![])
    &&& match rows_of(events[0]) {
        None => events.len() == 1 && res is Err,
        Some(rows) => if !group_rows_decode(rows) {
            events.len() == 1 && res is Err
        } else {
            &&& events.len() == 2
            &&& is_query(events[1], SELECT_MEMBER_PAIRS_SQL@, seq![])
            &&& match rows_of(events[1]) {
                None => res is Err,
                Some(member_rows) => match text_pairs_of(member_rows) {
                    None => res is Err,
                    Some(pairs) => res matches Ok(gs) && groups_from_rows(gs@, rows, pairs),
                },
            }
        },
    }
}

/// What looking a group up gives, from the rows of its query: `None` for no
/// row, otherwise the first row decoded (an error where it does not decode).
pub open spec fn first_group_result<E>(e: DbEvent, res: Result<Option<SkillGroup>, E>) -> bool {
    match rows_of(e) {
        None => res is Err,
        Some(rows) => if rows.len() == 0 {
            res matches Ok(None)
        } else if group_row_decodes(rows[0]) {
            res matches Ok(Some(g)) && group_fields_from_row(g, rows[0]) && g.member_ids@.len() == 0
        } else {
            res is Err
        },
    }
}

/// Whether `after` is `before` with one more event, which is the statement
/// `sql` with the texts `ts`, and whose success is `ok`.
pub open spec fn one_execute(before: Seq<DbEvent>, after: Seq<DbEvent>, sql: Seq<char>, ts: Seq<Seq<char>>, ok: bool) -> bool {
    &&& appended(before, after, 1)
    &&& is_execute(after.last(), sql, ts)
    &&& succeeded(after.last()) == ok
}

/// Whether `after` is `before` with one more event, the query `sql` with
/// the texts `ts`.
pub open spec fn one_query(before: Seq<DbEvent>, after: Seq<DbEvent>, sql: Seq<char>, ts: Seq<Seq<char>>) -> bool {
    &&& appended(before, after, 1)
    &&& is_query(after.last(), sql, ts)
}

/// The statements that replace a group's members: the members are cleared,
/// then each id is added in order, stopping at the first failure.
pub open spec fn set_members_events(events: Seq<DbEvent>, group_id: Seq<char>, skill_ids: Seq<Seq<char>>, ok: bool) -> bool {
    &&& 1 <= events.len() <= skill_ids.len() + 1
    &&& is_execute(events[0], CLEAR_MEMBERS_SQL@, seq![group_id])
    &&& forall|k: int| 1 <= k < events.len() ==> is_execute(#[trigger] events[k], ADD_MEMBER_SQL@, seq![group_id, skill_ids[k - 1]])
    &&& forall|k: int| 0 <= k < events.len() - 1 ==> succeeded(#[trigger] events[k])
    &&& ok == (events.len() == skill_ids.len() + 1 && succeeded(events.last()))
}

impl Database {
    /// Decodes one `skill_groups` row; the member list is left empty.
    pub fn row_to_group(row: &Vec<SqlValue>) -> (res: Result<SkillGroup, AppError>)
        ensures
            res is Ok <==> group_row_decodes(row@),
            res matches Ok(g) ==> group_fields_from_row(g, row@) && g.member_ids@.len() == 0,
            res matches Err(e) ==> e is Database,
    {
        Ok(
            SkillGroup {
                id: column_text(row, 0)?,
                name: column_text(row, 1)?,
                description: column_opt_text(row, 2)?,
                icon: column_opt_text(row, 3)?,
                is_active: column_bool(row, 4)?,
                sort_index: column_opt_int(row, 5)?,
                created_at: column_int(row, 6)?,
                updated_at: column_int(row, 7)?,
                apps: SkillGroupApps {
                    claude: column_bool(row, 8)?,
                    codex: column_bool(row, 9)?,
                    gemini: column_bool(row, 10)?,
                    opencode: column_bool(row, 11)?,
                    hermes: column_bool(row, 12)?,
                },
                member_ids: Vec::new(),
            },
        )
    }

    /// Decodes every row, stopping at the first that does not decode.
    pub fn rows_to_groups(rows: &Vec<Vec<SqlValue>>) -> (res: Result<Vec<SkillGroup>, AppError>)
        ensures
            match res {
                Ok(gs) => gs.len() == rows.len() && forall|i: int|
                    0 <= i < rows.len() ==> group_fields_from_row(#[trigger] gs[i], rows[i]@),
                Err(e) => e is Database && exists|i: int|
                    0 <= i < rows.len() && !group_row_decodes(#[trigger] rows[i]@),
            },
    {
        let mut out: Vec<SkillGroup> = Vec::new();
        let mut i: usize = 0;
        while i < rows.len()
            invariant
                i <= rows.len(),
                out.len() == i,
                forall|k: int| 0 <= k < i ==> group_fields_from_row(#[trigger] out[k], rows[k]@),
            decreases rows.len() - i,
        {
            match Self::row_to_group(&rows[i]) {
                Ok(g) => out.push(g),
                Err(e) => {
                    return Err(e);
                },
            }
            i = i + 1;
        }
        Ok(out)
    }

    /// All groups, ordered by `sort_index` (no index counting as 9999) and then
    /// by name, each with the ids of its member skills.
    pub fn get_all_skill_groups(&mut self) -> (res: Result<Vec<SkillGroup>, AppError>)
        ensures
            final(self).log().len() >= old(self).log().len(),
            final(self).log().take(old(self).log().len() as int) == old(self).log(),
            all_groups_result(new_events(old(self).log(), final(self).log()), res),
    {
        let ghost start = self.log();
        let rows = match self.query(SELECT_GROUPS_SQL, &Vec::new()) {
            Ok(rows) => rows,
            Err(e) => {
                assert(new_events(start, self.log()) =~= seq![self.log().last()]);
                return Err(e);
            },
        };
        let ghost rv = rows_view(rows@);
        let ghost e0 = self.log().last();
        let mut groups = match Self::rows_to_groups(&rows) {
            Ok(gs) => gs,
            Err(e) => {
                proof {
                    let i = choose|i: int| 0 <= i < rows.len() && !group_row_decodes(#[trigger] rows[i]@);
                    assert(rv[i] == rows[i]@);
                    assert(new_events(start, self.log()) =~= seq![e0]);
                }
                return Err(e);
            },
        };
        assert forall|i: int| 0 <= i < rv.len() implies #[trigger] group_row_decodes(rv[i]) by {
            assert(rv[i] == rows[i]@);
            assert(group_fields_from_row(groups[i], rows[i]@));
        }
        let member_rows = match self.query(SELECT_MEMBER_PAIRS_SQL, &Vec::new()) {
            Ok(r) => r,
            Err(e) => {
                assert(new_events(start, self.log()) =~= seq![e0, self.log().last()]);
                return Err(e);
            },
        };
        let ghost e1 = self.log().last();
        assert(new_events(start, self.log()) =~= seq![e0, e1]);
        let ghost mv = rows_view(member_rows@);
        let pairs = match text_pairs(&member_rows) {
            Ok(p) => p,
            Err(e) => {
                proof {
                    let i = choose|i: int| 0 <= i < member_rows.len() && (text_at(#[trigger] member_rows[i]@, 0) is None || text_at(member_rows[i]@, 1) is None);
                    assert(mv[i] == member_rows[i]@);
                }
                return Err(e);
            },
        };
        proof {
            assert forall|i: int| 0 <= i < mv.len() implies #[trigger] text_at(mv[i], 0) is Some && text_at(mv[i], 1) is Some by {
                assert(mv[i] == member_rows[i]@);
            }
            assert(text_pairs_of(mv) == Some(pairs_view(pairs@))) by {
                assert(Seq::new(mv.len(), |i: int| (text_at(mv[i], 0)->0, text_at(mv[i], 1)->0)) =~= pairs_view(pairs@)) by {
                    assert forall|i: int| 0 <= i < mv.len() implies (text_at(mv[i], 0)->0, text_at(mv[i], 1)->0) == pairs_view(pairs@)[i] by {
                        assert(mv[i] == member_rows[i]@);
                    }
                }
            }
        }
        let mut i: usize = 0;
        while i < groups.len()
            invariant
                i <= groups.len(),
                groups.len() == rows.len(),
                forall|k: int| 0 <= k < rows.len() ==> group_fields_from_row(#[trigger] groups[k], rows[k]@),
                forall|k: int|
                    0 <= k < i ==> (#[trigger] groups[k]).member_ids.deep_view() == owned_ids(
                        pairs_view(pairs@),
                        groups[k].id@,
                    ),
            decreases groups.len() - i,
        {
            let ids = ids_for_owner(&pairs, &groups[i].id);
            groups[i].member_ids = ids;
            i = i + 1;
        }
        assert(groups_from_rows(groups@, rv, pairs_view(pairs@))) by {
            assert forall|k: int| 0 <= k < rv.len() implies group_fields_from_row(#[trigger] groups@[k], rv[k]) by {
                assert(rv[k] == rows[k]@);
            }
        }
        Ok(groups)
    }

    /// The group with id `id`, or `None` where no row has that id.
    pub fn get_skill_group(&mut self, id: &str) -> (res: Result<Option<SkillGroup>, AppError>)
        ensures
            one_query(old(self).log(), final(self).log(), SELECT_GROUP_SQL@, seq![id@]),
            first_group_result(final(self).log().last(), res),
    {
        let params = Self::text_params1(id);
        let rows = self.query(SELECT_GROUP_SQL, &params)?;
        if rows.len() == 0 {
            return Ok(None);
        }
        assert(rows_view(rows@)[0] == rows[0]@);
        let g = Self::row_to_group(&rows[0])?;
        Ok(Some(g))
    }

    /// Inserts `group` as a new row (its member list is not stored here).
    pub fn create_skill_group(&mut self, group: &SkillGroup) -> (res: Result<(), AppError>)
        ensures
            res matches Err(e) ==> e is Database,
            appended(old(self).log(), final(self).log(), 1),
            final(self).log().last() matches DbEvent::Execute { sql, params, ok } && sql == INSERT_GROUP_SQL@
                && binds_group_row(params, *group) && ok == (res is Ok),
    {
        let params = group_row_params(group);
        self.execute(INSERT_GROUP_SQL, &params)
    }

    /// Writes the name, description, icon, sort index, update time and
    /// application switches of the row whose id is `group.id`.
    pub fn update_skill_group(&mut self, group: &SkillGroup) -> (res: Result<(), AppError>)
        ensures
            res matches Err(e) ==> e is Database,
            appended(old(self).log(), final(self).log(), 1),
            final(self).log().last() matches DbEvent::Execute { sql, params, ok } && sql == UPDATE_GROUP_SQL@
                && binds_group_update(params, *group) && ok == (res is Ok),
    {
        let params = group_update_params(group);
        self.execute(UPDATE_GROUP_SQL, &params)
    }

    /// Deletes the group with id `id`.
    pub fn delete_skill_group(&mut self, id: &str) -> (res: Result<(), AppError>)
        ensures
            res matches Err(e) ==> e is Database,
            one_execute(old(self).log(), final(self).log(), DELETE_GROUP_SQL@, seq![id@], res is Ok),
    {
        let params = Self::text_params1(id);
        self.execute(DELETE_GROUP_SQL, &params)
    }

    /// Sets the active flag of the group with id `id`; other groups keep theirs.
    pub fn set_skill_group_active(&mut self, id: &str, active: bool) -> (res: Result<(), AppError>)
        ensures
            res matches Err(e) ==> e is Database,
            appended(old(self).log(), final(self).log(), 1),
            final(self).log().last() matches DbEvent::Execute { sql, params, ok } && sql == SET_GROUP_ACTIVE_SQL@
                && params.len() == 2 && binds_bool(params[0], active) && binds_text(params[1], id@)
                && ok == (res is Ok),
    {
        let params = vec![bool_param(active), Self::str_param(id)];
        self.execute(SET_GROUP_ACTIVE_SQL, &params)
    }

    /// Makes `skill_id` a member of `group_id`; already a member is no error.
    pub fn add_skill_to_group(&mut self, group_id: &str, skill_id: &str) -> (res: Result<(), AppError>)
        ensures
            res matches Err(e) ==> e is Database,
            one_execute(old(self).log(), final(self).log(), ADD_MEMBER_SQL@, seq![group_id@, skill_id@], res is Ok),
    {
        let params = Self::text_params2(group_id, skill_id);
        self.execute(ADD_MEMBER_SQL, &params)
    }

    /// Removes `skill_id` from the members of `group_id`.
    pub fn remove_skill_from_group(&mut self, group_id: &str, skill_id: &str) -> (res: Result<(), AppError>)
        ensures
            res matches Err(e) ==> e is Database,
            one_execute(old(self).log(), final(self).log(), REMOVE_MEMBER_SQL@, seq![group_id@, skill_id@], res is Ok),
    {
        let params = Self::text_params2(group_id, skill_id);
        self.execute(REMOVE_MEMBER_SQL, &params)
    }

    /// Replaces the member list of `group_id` with `skill_ids`.
    pub fn set_group_members(&mut self, group_id: &str, skill_ids: &Vec<String>) -> (res: Result<(), AppError>)
        ensures
            res matches Err(e) ==> e is Database,
            final(self).log().len() >= old(self).log().len(),
            final(self).log().take(old(self).log().len() as int) == old(self).log(),
            set_members_events(new_events(old(self).log(), final(self).log()), group_id@, skill_ids.deep_view(), res is Ok),
    {
        let ghost start = self.log();
        let params = Self::text_params1(group_id);
        let r = self.execute(CLEAR_MEMBERS_SQL, &params);
        proof {
            assert(start.take(start.len() as int) =~= start);
            assert(new_events(start, start) =~= Seq::<DbEvent>::empty());
            lemma_appended_one(start, start, self.log());
            assert(new_events(start, self.log()) =~= seq![self.log().last()]);
        }
        if let Err(e) = r {
            return Err(e);
        }
        let mut i: usize = 0;
        while i < skill_ids.len()
            invariant
                i <= skill_ids.len(),
                start == old(self).log(),
                self.log().take(start.len() as int) == start,
                self.log().len() == start.len() + i + 1,
                new_events(start, self.log()).len() == i + 1,
                is_execute(new_events(start, self.log())[0], CLEAR_MEMBERS_SQL@, seq![group_id@]),
                forall|k: int| 1 <= k < new_events(start, self.log()).len() ==> is_execute(
                    #[trigger] new_events(start, self.log())[k],
                    ADD_MEMBER_SQL@,
                    seq![group_id@, skill_ids.deep_view()[k - 1]],
                ),
                forall|k: int| 0 <= k < new_events(start, self.log()).len() ==> succeeded(#[trigger] new_events(start, self.log())[k]),
            decreases skill_ids.len() - i,
        {
            let ghost before = self.log();
            assert(skill_ids.deep_view()[i as int] == skill_ids[i as int]@);
            let r = self.add_skill_to_group(group_id, skill_ids[i].as_str());
            proof {
                lemma_appended_one(start, before, self.log());
            }
            if let Err(e) = r {
                return Err(e);
            }
            i = i + 1;
        }
        Ok(())
    }

    /// The ids of the member skills of `group_id`.
    pub fn get_group_member_ids(&mut self, group_id: &str) -> (res: Result<Vec<String>, AppError>)
        ensures
            res matches Err(e) ==> e is Database,
            one_query(old(self).log(), final(self).log(), SELECT_MEMBER_IDS_SQL@, seq![group_id@]),
            texts_result(final(self).log().last(), res),
    {
        let params = Self::text_params1(group_id);
        let rows = self.query(SELECT_MEMBER_IDS_SQL, &params)?;
        text_column(&rows)
    }

    /// The ids of the groups whose active flag is set.
    pub fn get_active_skill_group_ids(&mut self) -> (res: Result<Vec<String>, AppError>)
        ensures
            res matches Err(e) ==> e is Database,
            one_query(old(self).log(), final(self).log(), SELECT_ACTIVE_GROUP_IDS_SQL@, seq![]),
            texts_result(final(self).log().last(), res),
    {
        let rows = self.query(SELECT_ACTIVE_GROUP_IDS_SQL, &Vec::new())?;
        text_column(&rows)
    }
}

} // verus!
