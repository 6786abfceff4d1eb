pub mod firewall;
pub mod logs;
pub mod rules;
pub mod text;
pub mod util;
pub mod command;
pub mod table;
pub mod app;
pub mod cli;
pub mod event;
pub mod guarantees;
pub mod letter_case;
