//! Verified core of a batch ping tool: reading target lists from
//! spreadsheets and text files, planning result exports, and the
//! decisions behind the application's commands.

pub mod commands;
pub mod export;
pub mod source;
pub mod text;
pub mod workbook;
