//! Skill groups and workspaces: the data access layer over SQLite and the
//! decisions that keep a workspace's skills directory in step
//! with the groups that are active in it.

pub mod commands;
pub mod database;
pub mod services;

pub use database::dao::skill_groups::{SkillGroup, SkillGroupApps};
pub use database::dao::workspaces::Workspace;
pub use database::{AppError, Database, SqlParam, SqlValue};
pub use services::skill_group::SkillGroupService;
pub use services::workspace_skill::{
    FsEntry, FsNode, PathState, ScannedEntry, WorkspaceSkillService,
};
pub use services::workspace_sync::{SkillInfo, SyncEvent, SyncStep, WorkspaceSync};
pub use services::ServiceError;
