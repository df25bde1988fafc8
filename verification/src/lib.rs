//! Reading and updating `.env` files: newline-separated `KEY=VALUE`
//! assignments among comments and blank lines.
//!
//! The library works on plain values. It is handed the words of a command
//! line and the text of a file, and hands back what to show or the text to
//! write; it opens no file and prints nothing.
//!
//! - [`text`]: white space, trimming and searching in sequences of characters.
//! - [`line`]: one line, read as a comment, a blank line or an assignment.
//! - [`file`]: the text of a file as lines, and lines as text.
//! - [`reader`]: the assignments of a file, all of them or the one for a key.
//! - [`writer`]: the value to store, and the file with a key set in it.
//! - [`laws`]: what holds of setting and showing together.
//! - [`cli`]: the command line.
//! - [`styles`]: terminal styles.
//!
//! A file may assign a key more than once. Showing a key shows the first
//! assignment; setting a key replaces the first assignment and leaves the
//! later ones as they are.

pub mod cli;
pub mod file;
pub mod laws;
pub mod line;
pub mod reader;
pub mod styles;
pub mod text;
pub mod writer;
