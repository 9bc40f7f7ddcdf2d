//! State of the graphical application: what it shows, and what its buttons do.

pub mod app;
pub mod behaviour;
pub mod event;
pub mod job;
pub mod labels;
pub mod rows;
pub mod selecting;
pub mod showing;

pub use app::DlssApp;
pub use event::Ev;
pub use job::Job;
pub use rows::{GroupUi, RowUi};
