//! Surgical edits to Excel packages: the verified core.
//!
//! A package is a set of parts joined by relationships; the workbook part
//! names the sheets and defined names, each sheet's cells sit in a worksheet
//! part, and a write is a set of splices over the text of the parts it
//! touches, every byte outside them left as it was.
#![allow(unused_imports)]

pub mod error;
pub mod text;
pub mod bytes;
pub mod reference;
pub mod xml;
pub mod splice;
pub mod element;
pub mod workbook;
pub mod strings;
pub mod worksheet;
pub mod batch;
pub mod help;
pub mod render;
pub mod envelope;
pub mod out;
pub mod diff;
pub mod cli;
pub mod relationships;
pub mod declared;
pub mod calculation;
pub mod target;
pub mod wanted;
pub mod calc_chain;
pub mod properties;
pub mod settlement;
pub mod cells;
pub mod date;
pub mod rows;
pub mod answer;
pub mod rebuild;
