//! A catalogue of natural satellites fused from two tab-separated sources:
//! one of orbital elements, one of physical measurements.
//!
//! - `text`: splitting text into lines and fields, and substring search.
//! - `number`: numbers kept as the exact text they were written in.
//! - `measurement`: a value with its uncertainty, and its text form.
//! - `satellites`: the records, the planets, and the names that expressions
//!   over a record may use.
//! - `database`: fusing the two sources, lookup by id, and filtering.

pub mod text;
pub mod number;
pub mod measurement;
pub mod satellites;
pub mod database;
