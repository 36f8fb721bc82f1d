//! A personal task list: tasks with a title, a description, an optional due
//! date and a priority, held in insertion order by a manager that supports
//! adding, listing, completing, updating, deleting and sorting, and a plain
//! text snapshot format that round-trips the whole state.
pub mod cli;
pub mod date;
pub mod manager;
pub mod snapshot;
pub mod sorting;
pub mod task;
pub mod text;

pub use cli::Commands;
pub use cli::Options;
pub use date::DueDate;
pub use manager::TaskError;
pub use manager::TaskManager;
pub use task::Priority;
pub use task::Task;
