//! A summary of a database: what its header says of its pages, and counts
//! of the objects of its schema.

use vstd::prelude::*;

use crate::bytes::{be_u16_at, be_u32_at, be_value};
use crate::db::{Database, DatabaseView};
use crate::error::DecodeError;

verus! {

/// The summary of a database. The header gives the page size and the page
/// count; the counts of the schema's objects are not read by this library
/// and stay zero.
#[derive(Debug, Clone, Copy, PartialEq, Eq, Structural)]
pub struct DBInfo {
    pub db_page_size: u16,
    pub db_page_count: u32,
    pub num_tables: u32,
    pub num_indexes: u32,
    pub num_triggers: u32,
    pub num_views: u32,
}

impl Default for DBInfo {
    fn default() -> (info: Self)
        ensures
            info == (DBInfo {
                db_page_size: 512,
                db_page_count: 1,
                num_tables: 0,
                num_indexes: 0,
                num_triggers: 0,
                num_views: 0,
            }),
    {
        DBInfo {
            db_page_size: 512,
            db_page_count: 1,
            num_tables: 0,
            num_indexes: 0,
            num_triggers: 0,
            num_views: 0,
        }
    }
}

/// The summary that the header of `db` gives: the page size is the
/// big-endian number at offset 16, the page count that at offset 28.
pub open spec fn info_of(db: DatabaseView) -> DBInfo {
    DBInfo {
        db_page_size: be_value(db.header.subrange(16, 18)) as u16,
        db_page_count: be_value(db.header.subrange(28, 32)) as u32,
        num_tables: 0,
        num_indexes: 0,
        num_triggers: 0,
        num_views: 0,
    }
}

impl DBInfo {
    /// Reads the summary out of the header that `db` holds. This always
    /// succeeds: the header has its full length.
    pub fn read_info(db: &Database) -> (r: Result<Self, DecodeError>)
        ensures
            r == Ok::<DBInfo, DecodeError>(info_of(db@)),
    {
        let header = db.header.as_slice();
        let page_size = be_u16_at(header, 16);
        let page_count = be_u32_at(header, 28);
        let defaults = DBInfo::default();
        Ok(
            Self {
                db_page_size: page_size,
                db_page_count: page_count,
                num_tables: defaults.num_tables,
                num_indexes: defaults.num_indexes,
                num_triggers: defaults.num_triggers,
                num_views: defaults.num_views,
            },
        )
    }
}

} // verus!
