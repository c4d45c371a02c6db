//! An ordered, date-keyed table of daily weather observations.
//!
//! The table is read from a seven-line text format ([`parser`]), queried by
//! date range and written as JSON ([`query`]), changed one observation or one
//! batch at a time ([`table`], [`batch`]), and written back as text
//! ([`textfile`]). [`service`] says what each request of the HTTP service
//! does to the table, and [`lifecycle`] how the service runs and stops.
//! [`laws`] holds what is proved of these operations together.
//!
//! Measurements are kept as decimal literals ([`decimal`]); nothing here
//! computes with floating point, reads a file or opens a socket.

pub mod batch;
pub mod date;
pub mod decimal;
pub mod error;
pub mod laws;
pub mod lifecycle;
pub mod ordered;
pub mod parser;
pub mod pathfinder;
pub mod query;
pub mod record;
pub mod reply;
pub mod request;
pub mod service;
pub mod table;
pub mod text;
pub mod textfile;

pub use crate::date::Date;
pub use crate::decimal::Decimal;
pub use crate::error::{ParseError, ParseResult};
pub use crate::query::DataOps;
pub use crate::record::{DataPoint, WeatherData};
pub use crate::table::WeatherDataMap;
