//! Serial telemetry backend: COBS framing of packets, the backend state
//! machine that turns queries and serial reads into actions and packets, the
//! format of the packet logs, and the non-graphical state of the monitoring
//! widgets.

pub mod backend;
pub mod cobs;
pub mod cursor;
pub mod logfile;
pub mod panel_ui;
pub mod query;
pub mod select_port;
pub mod sensor_ui;

pub use backend::{AppState, HeliumBackend};
pub use panel_ui::ControlPanelUI;
pub use query::Query;
pub use select_port::SelectPortUI;
