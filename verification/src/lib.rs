//! Exports pdata payloads as standalone Arrow IPC objects.
//!
//! Every populated payload of a pdata batch becomes one object. Its name is made of a template and
//! of the identity, the kind and the creation time of the pdata; its content is an Arrow IPC file.
//! The modules, from the bottom up:
//!
//! - [`text`], [`object_path`], [`calendar`], [`pdata_id`]: text, object paths, dates and UUIDs.
//! - [`placeholder`], [`rendering`], [`template`]: object path templates.
//! - [`config`], [`payload`], [`ipc`], [`error`]: the configuration, the payloads, their encoding,
//!   and failures.
//! - [`objects`], [`naming`]: the objects that a pdata batch becomes, and what holds of them.
//! - [`local_path`], [`local`], [`file_system`], [`storage`]: local paths, how local files are
//!   written, the files of objects, and storage.
//! - [`uploads`], [`in_flight`], [`writer`]: uploads, several at a time, and the writer.
//! - [`metrics`], [`exporter`], [`session`]: what is counted, how a pdata batch is answered for, and
//!   a run of the exporter.
//!
//! The modules whose names end in `_laws` say of whole operations what holds of their inputs and
//! results, in terms of characters, fields and the order of events.

pub mod calendar;
pub mod config;
pub mod error;
pub mod export_laws;
pub mod exporter;
pub mod file_system;
pub mod in_flight;
pub mod ipc;
pub mod local;
pub mod local_laws;
pub mod local_path;
pub mod local_path_laws;
pub mod message_laws;
pub mod metric_laws;
pub mod metrics;
pub mod naming;
pub mod object_laws;
pub mod object_path;
pub mod objects;
pub mod path_laws;
pub mod payload;
pub mod pdata_id;
pub mod placeholder;
pub mod rendering;
pub mod session;
pub mod storage;
pub mod template;
pub mod template_laws;
pub mod text;
pub mod text_laws;
pub mod upload_laws;
pub mod uploads;
pub mod writer;
