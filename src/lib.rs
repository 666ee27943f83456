//! An employee directory driven by one-line text commands: a parser that
//! turns a line into a `Command`, and a reactor that applies a command to a
//! `Company` and answers with text.
pub mod text;
pub mod department;
pub mod command;
pub mod company;
pub mod laws;
