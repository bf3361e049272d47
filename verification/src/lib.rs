//! Read-only decoding of the SQLite database file format: the file header,
//! B-tree page headers, cells, payload spillage, varints and records.

pub mod btree_page;
pub mod bytes;
pub mod cell;
pub mod db;
pub mod dbinfo;
pub mod error;
pub mod record;
pub mod varint;
