//! A small kanban-style task tracker: record stores for tasks and subtasks,
//! a board index of swimlanes, a parent/child link index, free-text notes,
//! and the coordinator that keeps those stores mutually consistent across
//! create / move / delete / relink operations.

pub mod boards;
pub mod coordinator;
pub mod error;
pub mod links;
pub mod notes;
pub mod store;
pub mod subtasks;
pub mod tasks;
pub mod utils;
