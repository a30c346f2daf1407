//! The state behind the graphical frontend: what its windows, side blocks and
//! dialogs hold, and how the user's actions change it and the session.

pub mod choices;
pub mod columns;
pub mod filters;
pub mod guard;
pub mod moving;
pub mod plots;
pub mod rows;
pub mod state;
pub mod windows;
