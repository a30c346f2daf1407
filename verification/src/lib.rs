//! Domain logic of a viewer for MAVLink `.tlog` and ArduPilot `.bin` logs.

pub mod align;
pub mod browse;
pub mod bytes;
pub mod column;
pub mod dataflash;
pub mod dialect;
pub mod entry;
pub mod filter;
pub mod glob;
pub mod gui;
pub mod ids;
pub mod index;
pub mod inspect;
pub mod load;
pub mod marks;
pub mod numeral;
pub mod order;
pub mod path;
pub mod persist;
pub mod plot;
pub mod schema;
pub mod session;
pub mod setup;
pub mod sound;
pub mod sync;
pub mod text;
pub mod time;
pub mod tlog;
pub mod value;
