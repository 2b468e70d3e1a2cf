//! Whitespace normalisation for text files: trailing spaces and tabs are
//! stripped from every line, and the end of a file can be brought to exactly
//! one terminating newline.
pub mod clean;
pub mod line;
pub mod report;
pub mod selection;
pub mod text;
