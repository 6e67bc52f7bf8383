//! Telemetry for AMD graphics cards: temperature, core clock, power draw,
//! load and memory of each card, as one record of six texts.
//!
//! The library decides and computes; it never touches the file system. A
//! caller lists the directories and reads the files, hands over what it
//! found, and is told what to do next and, at the end, what to print:
//!
//! - [`discovery`] tells which entries of the device-class directory are AMD
//!   cards, and which sensor directory of a card holds its temperature;
//! - [`reader`] turns the text of the six files of a card into a record, or
//!   into the first error;
//! - [`pipeline`] leads the work on one card from step to step;
//! - [`report`] turns what the work on each card gave into the lines of a run
//!   and its exit code.
//!
//! Below these, [`parse`] reads numbers from text, [`quantity`] holds them as
//! exact fractions and writes them with a fixed number of decimal places,
//! [`usage`] formats a value in its unit, [`serialize`] writes JSON objects,
//! [`text`] trims and compares text, and [`errors`] names what can go wrong.

pub mod discovery;
pub mod errors;
pub mod parse;
pub mod pipeline;
pub mod quantity;
pub mod reader;
pub mod report;
pub mod serialize;
pub mod text;
pub mod usage;
