//! The `installed_skills` table, as far as a synchronisation reads it.

use crate::database::dao::skill_groups::one_query;
use crate::database::{column_text, rows_of, rows_view, text_at, AppError, Database, DbEvent, SqlValue};
use vstd::prelude::*;

verus! {

/// What a synchronisation learns of an installed skill.
#[derive(Debug)]
pub struct SkillInfo {
    /// The skill's directory name in the skills store (and in the workspace).
    pub directory: String,
    pub name: String,
}

/// Whether `s` is the `(directory, name)` row `row`.
pub open spec fn skill_from_row(s: SkillInfo, row: Seq<SqlValue>) -> bool {
    &&& text_at(row, 0) == Some(s.directory@)
    &&& text_at(row, 1) == Some(s.name@)
}

/// The statement that looks an installed skill up.
pub const SELECT_INSTALLED_SKILL_SQL: &'static str = "SELECT directory, name FROM installed_skills WHERE id = ?1";

/// What looking a skill up gives, from the rows of its query: `None` for no
/// row, otherwise the first row read as `(directory, name)`.
pub open spec fn first_skill_result<E>(e: DbEvent, res: Result<Option<SkillInfo>, E>) -> bool {
    match rows_of(e) {
        None => res is Err,
        Some(rows) => if rows.len() == 0 {
            res matches Ok(None)
        } else if text_at(rows[0], 0) is Some && text_at(rows[0], 1) is Some {
            res matches Ok(Some(s)) && skill_from_row(s, rows[0])
        } else {
            res is Err
        },
    }
}

impl Database {
    /// The installed skill with id `id`, or `None` where there is none.
    pub fn get_installed_skill(&mut self, id: &str) -> (res: Result<Option<SkillInfo>, AppError>)
        ensures
            one_query(old(self).log(), final(self).log(), SELECT_INSTALLED_SKILL_SQL@, seq![id@]),
            first_skill_result(final(self).log().last(), res),
    {
        let params = Self::text_params1(id);
        let rows = self.query(SELECT_INSTALLED_SKILL_SQL, &params)?;
        if rows.len() == 0 {
            return Ok(None);
        }
        assert(rows_view(rows@)[0] == rows[0]@);
        let directory = column_text(&rows[0], 0)?;
        let name = column_text(&rows[0], 1)?;
        Ok(Some(SkillInfo { directory, name }))
    }
}

} // verus!
