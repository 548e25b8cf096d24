//! The operations the user interface calls: each takes the database the
//! application holds and answers with a value or an error text.

pub mod skill_group;
pub mod workspace_skill;
