//! Duckle: running data pipelines on a server, and knowing what they touch.
//!
//! A workspace is a folder of pipelines. This crate holds the rules by which
//! they are scheduled, run, watched and reported on:
//!
//! * [`asset`], [`lineage`] and [`catalog`] name what pipelines read and write,
//!   and say what is reached from a thing that changes; [`catalog_cmd`] asks
//!   them from a terminal;
//! * [`schedules`], [`scheduler`], [`ticker`] and [`panel`] decide when a
//!   pipeline is due, claim it, and show and edit its schedule; [`moment`]
//!   keeps the times and reads cron expressions;
//! * [`runs`], [`error_category`], [`alerts`], [`runlock`], [`batch`] and
//!   [`gate`] are about runs: how they ended, whom to tell, and what keeps two
//!   of them apart;
//! * [`http`], [`routes`], [`editor`] and [`dashboard`] answer the management
//!   console and the web editor, behind [`console_auth`] and [`audit`];
//!   [`args`] and [`console_cmd`] read their command lines;
//! * [`gpu`] hashes records, [`pixeltable_engine`] provisions a Python;
//! * [`text`], [`number`], [`order`], [`bytes`], [`json`] and [`paths`] are what
//!   the rest is written in.
//!
//! Nothing here opens a file or a socket or looks at the clock: what the
//! outside brings comes in as a value, and what is to be done goes out as one.
pub mod text;
pub mod number;
pub mod order;
pub mod bytes;
pub mod json;
pub mod paths;
pub mod moment;
pub mod asset;
pub mod lineage;
pub mod catalog;
pub mod catalog_cmd;
pub mod schedules;
pub mod runs;
pub mod error_category;
pub mod scheduler;
pub mod panel;
pub mod ticker;
pub mod alerts;
pub mod runlock;
pub mod batch;
pub mod gate;
pub mod http;
pub mod console_auth;
pub mod audit;
pub mod routes;
pub mod editor;
pub mod dashboard;
pub mod args;
pub mod console_cmd;
pub mod gpu;
pub mod pixeltable_engine;
