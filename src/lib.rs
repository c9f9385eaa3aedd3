//! A line-oriented task list format: a parser and serializer for task
//! records, and an in-memory store of open and completed records with
//! position-derived identifiers.
use vstd::prelude::*;

pub mod date;
pub mod de;
pub mod error;
pub mod laws;
pub mod round_trip;
pub mod model;
pub mod ser;
pub mod store;
pub mod text;

pub use date::Date;
pub use de::{distinct_vec_hold_order, from_str, parse_tokens, tokenize, Token};
pub use error::Error;
pub use model::{Task, TaskDescription, TaskPriority, TaskState};
pub use ser::{
    to_string, write_task_context, write_task_date, write_task_description, write_task_priority,
    write_task_project, write_task_state,
};
pub use store::{
    filter_tasks, read_tasks, sort_tasks, write_tasks, Filter, Order, OrderOption, TodoManager,
};

verus! {

/// The completion marker.
pub const COMPLETE_MARKER: char = 'x';

/// The separator between the fields of a line.
pub const TOKEN_SEPARATOR: char = ' ';

pub const PRIORITY_MARKER_PRE: char = '(';

pub const PRIORITY_MARKER_POST: char = ')';

/// The sigil of a project tag.
pub const PROJECT_MARKER: char = '+';

/// The sigil of a context tag.
pub const CONTEXT_MARKER: char = '@';

} // verus!
