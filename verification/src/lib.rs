//! A markdown checklist parser and task model.
//!
//! Plain-text markdown checklists are turned into a structured task model:
//! headings become hierarchical paths, checkbox lines become tasks and
//! subtasks, bracketed inline attributes carry dates, assignees and
//! priorities, and derived operations compute per-task visibility and
//! display ordering.

pub mod cli;
pub mod date;
pub mod laws;
pub mod parser;
pub mod select;
pub mod task;
pub mod text;
