//! Parser for the text of `git diff`: files, change kinds, hunks and the
//! pre- and post-image line numbers of every line.
pub mod file;
pub mod parser;
pub mod printer;
pub mod text;
