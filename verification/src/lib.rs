//! Signal Profiles: several Signal Desktop accounts side by side, each with
//! its own data folder under `~/Signal` and its own app menu entry.

pub mod text;
pub mod names;
pub mod paths;
pub mod components;
pub mod units;
pub mod profiles;
pub mod links;
pub mod procs;
pub mod launcher;
pub mod lock;
pub mod store;
pub mod asked;
pub mod system;
pub mod ui;
