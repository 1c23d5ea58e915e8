//! Bridge logic between Zigbee2MQTT and Prometheus: which devices are monitored, how their
//! capabilities ("exposes") and reports are flattened, and which gauge readings a report
//! yields; also command-line settings and the MQTT topic and reconnect decisions.
//!
//! - `cli`: port and log-level parsing, default settings.
//! - `json`: the JSON model of device reports, and the reading of report bytes into it.
//! - `payload`: flattening of nested reports into underscore-joined keys.
//! - `expose`: device capabilities and their flattening into monitored properties.
//! - `device`: devices, eligibility, and the registry that discovery builds.
//! - `metrics`: the labels and values of the readings of a report.
//! - `mqtt`: topics, routing of messages, connection settings, the reconnect cycle.
//! - `text`, `keyed`: string operations and keyed lists read as maps.

pub mod cli;
pub mod device;
pub mod expose;
pub mod json;
pub mod keyed;
pub mod metrics;
pub mod mqtt;
pub mod payload;
pub mod text;
