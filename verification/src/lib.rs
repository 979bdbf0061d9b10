//! Templify: document templates with styled text, images and data
//! placeholders, their CSV data sources, and the PDFs made from them.
use vstd::prelude::*;

pub mod text;
pub mod model;
pub mod number;
pub mod csv_check;
pub mod datasource;
pub mod styles;
pub mod encoding;
pub mod layout;
pub mod merge;
pub mod cursor;
pub mod tags;
pub mod editor;
pub mod preview;
pub mod csv_source;
pub mod server;
pub mod ui;

verus! {
} // verus!
