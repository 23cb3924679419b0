//! Selection-range text extraction: a range-list parser, byte / character /
//! field selectors with a quote-aware delimited-record engine, and the small
//! per-record cores of the surrounding line-oriented utilities.

pub mod cat;
pub mod comm;
pub mod cut;
pub mod echo;
pub mod fields;
pub mod find;
pub mod grep;
pub mod head;
pub mod ranges;
pub mod select;
pub mod tail;
pub mod textfmt;
pub mod uniq;
pub mod wc;

pub use ranges::Interval;
