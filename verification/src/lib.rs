//! The controller's core: what it keeps, what it decides and what it answers,
//! with no hardware underneath.

pub mod answer_laws;
pub mod body;
pub mod boot_count;
pub mod bytes;
pub mod clients;
pub mod concern;
pub mod connection_laws;
pub mod cuts;
pub mod discovery_laws;
pub mod idents;
pub mod layout_laws;
pub mod log_laws;
pub mod nor;
pub mod number_laws;
pub mod operation_laws;
pub mod rail;
pub mod rail_laws;
pub mod rail_turn;
pub mod reading;
pub mod readout;
pub mod record;
pub mod release;
pub mod req_window;
pub mod request;
pub mod reset;
pub mod revision;
pub mod ring;
pub mod ring_laws;
pub mod ring_model;
pub mod rollcall;
pub mod row_laws;
pub mod run_reason;
pub mod secret;
pub mod selection_laws;
pub mod session;
pub mod session_ask;
pub mod session_laws;
pub mod session_model;
pub mod session_operation_laws;
pub mod session_state;
pub mod session_steps;
pub mod session_wire;
pub mod signals;
pub mod site;
pub mod site_laws;
pub mod site_rows;
pub mod store;
pub mod text;
pub mod tick;
pub mod tick_laws;
pub mod topology;
pub mod topology_laws;
pub mod wall_clock;
pub mod wire;

pub use tick::{Clock, Millis, Tick, UnixMillis};
