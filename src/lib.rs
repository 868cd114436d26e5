//! Quick capture of tasks into a vault's daily note: vault selection,
//! daily-note location, task formatting and insertion.
pub mod text;
pub mod task;
pub mod template;
pub mod date;
pub mod locate;
pub mod note;
pub mod vaults;
