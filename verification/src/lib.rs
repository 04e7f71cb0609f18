//! The checks, layout and reporting rules of the `vantage` web security scanner.

pub mod text;
pub mod number;
pub mod term;
pub mod wrap;
pub mod style;
pub mod section;
pub mod report;
pub mod fields;
pub mod base64;
pub mod url;
pub mod rate;
pub mod request;
pub mod response;
pub mod order;
pub mod json;
pub mod tool;
pub mod checks;
pub mod cli;
pub mod scan;
pub mod results;
pub mod spin;
