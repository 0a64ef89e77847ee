//! The resident terminal renderer: it owns the journal, the screen model and the exit state of
//! every terminal session, and the replay logs of every structured process run.
pub mod args;
pub mod bounds;
pub mod dispatch;
pub mod error;
pub mod frame;
pub mod hub;
pub mod json;
pub mod launch;
pub mod lifecycle;
pub mod marker;
pub mod modes;
pub mod paths;
pub mod preview;
pub mod promises;
pub mod protocol;
pub mod registry;
pub mod replay;
pub mod resources;
pub mod run_log;
pub mod run_promises;
pub mod security;
pub mod server;
pub mod session;
pub mod signal;
pub mod sink;
pub mod snapshot;
pub mod socket_keepalive;
pub mod structured;
pub mod structured_server;
pub mod structured_v2;
pub mod terminal;
pub mod text;
pub mod text_promises;
pub mod time;
pub mod utf8;
pub mod wire_promises;
