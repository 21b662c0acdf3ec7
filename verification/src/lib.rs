//! Rolling reboot of a fleet of servers: the decisions behind it, verified.
//!
//! The library holds what the tool decides: how servers are named and read
//! from the command line and a server file (`server`, `fleet`, `text`), which
//! server is rebooted when and how each reboot ends (`rolling`), which
//! commands are run and how their results are read (`command`), and what the
//! terminal shows of it all (`app`, `order`, `view`).
//! Running commands, sleeping, and drawing on the terminal are left to the
//! program around the library.

pub mod server;
pub mod text;
pub mod app;
pub mod rolling;
pub mod fleet;
pub mod command;
pub mod order;
pub mod view;
