//! Line-oriented stream processing: reading a source line by line, and the
//! engines that number, count, truncate and collapse what was read.
//!
//! A source is a sequence of bytes. The [`reader`] takes it apart into
//! lines and decodes each line as UTF-8; a line that does not decode is
//! reported and skipped, and never ends the work on its source. Four
//! engines work on the lines:
//!
//! - [`counting`] counts lines, words, bytes and characters;
//! - [`truncation`] shows the first lines or the first bytes;
//! - [`adjacency`] collapses adjacent lines with the same content into runs;
//! - [`numbering`] writes the lines out again, numbered if asked for.
//!
//! Each engine checks its configuration (`get_args`), works through one
//! source at a time, and has a `run` for a whole list of sources, of which
//! some may have failed to open. What an engine writes is handed back as a
//! [`driver::Output`]: text for the output sink and lines for the error
//! channel. Nothing here opens a file or writes to a stream.
//!
//! [`text`] holds what the engines share about characters, words and
//! numbers written in base ten, and [`source_text`] states what reading by
//! lines means for a source taken as one text.

pub mod adjacency;
pub mod counting;
pub mod driver;
pub mod error;
pub mod numbering;
pub mod reader;
pub mod source_text;
pub mod text;
pub mod truncation;
