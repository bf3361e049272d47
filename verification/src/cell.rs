//! Cells: the extent of each cell in its page, the content of a cell by
//! page type, and how a payload splits between the cell and its overflow
//! pages.

use vstd::prelude::*;
use vstd::slice::{slice_subrange, slice_to_vec};

use crate::btree_page::{BtreePage, BtreePageView, PageType};
use crate::bytes::{be_u32_at, be_value};
use crate::db::{is_format_page_size, Database, DatabaseView};
use crate::error::DecodeError;
use crate::varint::{decode_be, decoded};

verus! {

/// The extent of one cell: where it begins, counted from the start of its
/// page, and how many bytes it takes.
#[derive(Debug, Clone, Copy, PartialEq, Eq, Structural)]
pub struct Cell {
    pub offset: u64,
    pub size: usize,
}

impl Default for Cell {
    fn default() -> (c: Self)
        ensures
            c == (Cell { offset: 0, size: 0 }),
    {
        Cell { offset: 0, size: 0 }
    }
}

/// The payload of a cell: its size as the cell declares it, the bytes of
/// it that the cell itself holds, and the first overflow page where the
/// cell does not hold it all.
#[derive(Debug)]
pub struct Payload {
    /// The size of the whole payload in bytes, overflow included.
    pub size: u64,
    /// The bytes of the payload that lie in the cell.
    pub payload: Vec<u8>,
    /// The number of the first overflow page.
    pub overflow: Option<u32>,
}

/// What a `Payload` holds, as mathematical values.
pub ghost struct PayloadView {
    pub size: u64,
    pub payload: Seq<u8>,
    pub overflow: Option<u32>,
}

impl View for Payload {
    type V = PayloadView;

    open spec fn view(&self) -> PayloadView {
        PayloadView { size: self.size, payload: self.payload@, overflow: self.overflow }
    }
}

impl Default for Payload {
    fn default() -> (p: Self)
        ensures
            p@ == (PayloadView { size: 0, payload: Seq::empty(), overflow: None }),
    {
        Payload { size: 0, payload: Vec::new(), overflow: None }
    }
}

/// The least number of bytes of a payload that stay in its cell when the
/// payload spills, in a page with `usable` usable bytes.
pub open spec fn min_local(usable: int) -> int {
    (usable - 12) * 32 / 255 - 23
}

/// The greatest size of a payload that stays in its cell as a whole. An
/// interior table page holds no payload, and has no such size.
pub open spec fn max_local(usable: int, page_type: PageType) -> int
    recommends
        page_type != PageType::InteriorTable,
{
    match page_type {
        PageType::LeafTable => usable - 35,
        _ => (usable - 12) * 64 / 255 - 23,
    }
}

/// The number of bytes that a spilling payload of `size` bytes would need
/// to fill its last overflow page exactly.
pub open spec fn local_candidate(size: int, usable: int) -> int {
    min_local(usable) + (size - min_local(usable)) % (usable - 4)
}

/// The inline byte count of a payload of `size` bytes: all of `size` where
/// the payload is no larger than `max_local`, so that nothing spills; else
/// `size` less `local_candidate`, where that candidate is no larger than
/// `max_local`; else `size` less `min_local`.
pub open spec fn spillage(size: int, usable: int, page_type: PageType) -> int
    recommends
        page_type != PageType::InteriorTable,
{
    if size <= max_local(usable, page_type) {
        size
    } else if local_candidate(size, usable) <= max_local(usable, page_type) {
        size - local_candidate(size, usable)
    } else {
        size - min_local(usable)
    }
}

impl Payload {
    /// Computes the inline byte count of this payload in a page of type
    /// `page.page_type` of the database `db`: the whole size where the
    /// payload does not spill.
    pub fn calculate_spillage(&self, db: &Database, page: &BtreePage) -> (r: u64)
        requires
            is_format_page_size(db.page_size),
            page.page_type != PageType::InteriorTable,
        ensures
            r == spillage(self.size as int, db@.usable_size(), page.page_type),
    {
        let p: u64 = self.size;
        let u: u64 = db.page_bytes() as u64 - db.reserved_space as u64;
        let m: u64 = ((u - 12) * 32 / 255) - 23;
        let x: u64 = match page.page_type {
            PageType::LeafTable => u - 35,
            _ => ((u - 12) * 64 / 255) - 23,
        };
        if p <= x {
            return p;
        }
        let k: u64 = m + ((p - m) % (u - 4));
        if k <= x {
            p - k
        } else {
            p - m
        }
    }
}

/// What a cell holds, by the type of its page.
#[derive(Debug)]
pub enum CellContent {
    LeafTable { row_id: u64, payload: Payload },
    LeafIndex { payload: Payload },
    InteriorIndex { left_child_ptr: u32, payload: Payload },
    InteriorTable { left_child_ptr: u32, integer_key: u64 },
}

/// What a `CellContent` holds, as mathematical values.
pub ghost enum CellContentView {
    LeafTable { row_id: u64, payload: PayloadView },
    LeafIndex { payload: PayloadView },
    InteriorIndex { left_child_ptr: u32, payload: PayloadView },
    InteriorTable { left_child_ptr: u32, integer_key: u64 },
}

impl View for CellContent {
    type V = CellContentView;

    open spec fn view(&self) -> CellContentView {
        match *self {
            CellContent::LeafTable { row_id, payload } => CellContentView::LeafTable {
                row_id,
                payload: payload@,
            },
            CellContent::LeafIndex { payload } => CellContentView::LeafIndex { payload: payload@ },
            CellContent::InteriorIndex {
                left_child_ptr,
                payload,
            } => CellContentView::InteriorIndex { left_child_ptr, payload: payload@ },
            CellContent::InteriorTable {
                left_child_ptr,
                integer_key,
            } => CellContentView::InteriorTable { left_child_ptr, integer_key },
        }
    }
}

impl CellContentView {
    /// The bytes of the payload that lie in the cell, where the cell has a
    /// payload.
    pub open spec fn payload(self) -> Option<Seq<u8>> {
        match self {
            CellContentView::LeafTable { payload, .. } => Some(payload.payload),
            CellContentView::LeafIndex { payload } => Some(payload.payload),
            CellContentView::InteriorIndex { payload, .. } => Some(payload.payload),
            CellContentView::InteriorTable { .. } => None,
        }
    }
}

/// The payload of `size` bytes in the cell `buf`, whose bytes begin at
/// `start`. Where the cell has room for `size` bytes from there on, all
/// that follows `start` is payload. Where it has not, the last four bytes
/// of the cell are the number of the first overflow page, and the payload
/// in the cell ends before them.
pub open spec fn payload_in_cell(buf: Seq<u8>, start: nat, size: u64) -> Result<
    PayloadView,
    DecodeError,
> {
    if size <= buf.len() - start {
        Ok(PayloadView { size, payload: buf.subrange(start as int, buf.len() as int), overflow: None })
    } else if buf.len() - start < 4 {
        Err(DecodeError::Truncated)
    } else {
        Ok(
            PayloadView {
                size,
                payload: buf.subrange(start as int, buf.len() - 4),
                overflow: Some(be_value(buf.subrange(buf.len() - 4, buf.len() as int)) as u32),
            },
        )
    }
}

/// The cell `buf` of a table leaf page: a varint, the size of the payload;
/// a varint, the row id; the payload.
pub open spec fn leaf_table_cell(buf: Seq<u8>) -> Result<(u64, PayloadView), DecodeError> {
    match decoded(buf) {
        None => Err(DecodeError::Truncated),
        Some((size, size_len)) => match decoded(buf.subrange(size_len as int, buf.len() as int)) {
            None => Err(DecodeError::Truncated),
            Some((row_id, row_id_len)) => match payload_in_cell(buf, size_len + row_id_len, size) {
                Ok(payload) => Ok((row_id, payload)),
                Err(e) => Err(e),
            },
        },
    }
}

/// The cell `buf` of a table interior page: four bytes, the left child;
/// a varint, the key.
pub open spec fn interior_table_cell(buf: Seq<u8>) -> Result<(u32, u64), DecodeError> {
    if buf.len() < 4 {
        Err(DecodeError::Truncated)
    } else {
        match decoded(buf.subrange(4, buf.len() as int)) {
            None => Err(DecodeError::Truncated),
            Some((key, _)) => Ok((be_value(buf.subrange(0, 4)) as u32, key)),
        }
    }
}

/// The cell `buf` of an index leaf page: a varint, the size of the
/// payload; the payload.
pub open spec fn leaf_index_cell(buf: Seq<u8>) -> Result<PayloadView, DecodeError> {
    match decoded(buf) {
        None => Err(DecodeError::Truncated),
        Some((size, size_len)) => payload_in_cell(buf, size_len, size),
    }
}

/// The cell `buf` of an index interior page: four bytes, the left child;
/// a varint, the size of the payload; the payload.
pub open spec fn interior_index_cell(buf: Seq<u8>) -> Result<(u32, PayloadView), DecodeError> {
    if buf.len() < 4 {
        Err(DecodeError::Truncated)
    } else {
        match decoded(buf.subrange(4, buf.len() as int)) {
            None => Err(DecodeError::Truncated),
            Some((size, size_len)) => match payload_in_cell(buf, 4 + size_len, size) {
                Ok(payload) => Ok((be_value(buf.subrange(0, 4)) as u32, payload)),
                Err(e) => Err(e),
            },
        }
    }
}

/// What the cell `buf` holds in a page of type `page_type`.
pub open spec fn cell_content(page_type: PageType, buf: Seq<u8>) -> Result<
    CellContentView,
    DecodeError,
> {
    match page_type {
        PageType::LeafTable => match leaf_table_cell(buf) {
            Ok((row_id, payload)) => Ok(CellContentView::LeafTable { row_id, payload }),
            Err(e) => Err(e),
        },
        PageType::InteriorTable => match interior_table_cell(buf) {
            Ok((left_child_ptr, integer_key)) => Ok(
                CellContentView::InteriorTable { left_child_ptr, integer_key },
            ),
            Err(e) => Err(e),
        },
        PageType::LeafIndex => match leaf_index_cell(buf) {
            Ok(payload) => Ok(CellContentView::LeafIndex { payload }),
            Err(e) => Err(e),
        },
        PageType::InteriorIndex => match interior_index_cell(buf) {
            Ok((left_child_ptr, payload)) => Ok(
                CellContentView::InteriorIndex { left_child_ptr, payload },
            ),
            Err(e) => Err(e),
        },
    }
}

/// What the cell `cell` of the page `page` holds in the database `db`. The
/// bytes of the cell begin at the cell's offset from the start of the page
/// and must all lie in the file.
pub open spec fn cell_read(page: BtreePageView, db: DatabaseView, cell: Cell) -> Result<
    CellContentView,
    DecodeError,
> {
    let start = page.file_starting_position + cell.offset;
    if start + cell.size > db.file.len() {
        Err(DecodeError::Truncated)
    } else {
        cell_content(page.page_type, db.file.subrange(start, start + cell.size))
    }
}

/// Takes the payload of `size` bytes out of the cell `cell_buf`, in which
/// it begins at `start`.
fn read_payload(cell_buf: &[u8], start: usize, size: u64) -> (r: Result<Payload, DecodeError>)
    requires
        start <= cell_buf@.len(),
    ensures
        match r {
            Ok(payload) => payload_in_cell(cell_buf@, start as nat, size) == Ok::<
                PayloadView,
                DecodeError,
            >(payload@),
            Err(e) => payload_in_cell(cell_buf@, start as nat, size) == Err::<
                PayloadView,
                DecodeError,
            >(e),
        },
{
    let len = cell_buf.len();
    let available = len - start;
    if size <= available as u64 {
        Ok(Payload { size, payload: slice_to_vec(slice_subrange(cell_buf, start, len)), overflow: None })
    } else if available < 4 {
        Err(DecodeError::Truncated)
    } else {
        Ok(
            Payload {
                size,
                payload: slice_to_vec(slice_subrange(cell_buf, start, len - 4)),
                overflow: Some(be_u32_at(cell_buf, len - 4)),
            },
        )
    }
}

/// Reads the cell of a table leaf page: the row id and the payload.
pub fn parse_leaf_table_cell(cell_buf: &[u8]) -> (r: Result<(u64, Payload), DecodeError>)
    ensures
        match r {
            Ok((row_id, payload)) => leaf_table_cell(cell_buf@) == Ok::<
                (u64, PayloadView),
                DecodeError,
            >((row_id, payload@)),
            Err(e) => leaf_table_cell(cell_buf@) == Err::<(u64, PayloadView), DecodeError>(e),
        },
{
    let len = cell_buf.len();
    let (size, size_len) = match decode_be(cell_buf) {
        Ok(found) => found,
        Err(_) => {
            return Err(DecodeError::Truncated);
        },
    };
    let (row_id, row_id_len) = match decode_be(slice_subrange(cell_buf, size_len, len)) {
        Ok(found) => found,
        Err(_) => {
            return Err(DecodeError::Truncated);
        },
    };
    match read_payload(cell_buf, size_len + row_id_len, size) {
        Ok(payload) => Ok((row_id, payload)),
        Err(e) => Err(e),
    }
}

/// Reads the cell of a table interior page: the left child and the key.
pub fn parse_interior_table_cell(cell_buf: &[u8]) -> (r: Result<(u32, u64), DecodeError>)
    ensures
        r == interior_table_cell(cell_buf@),
{
    let len = cell_buf.len();
    if len < 4 {
        return Err(DecodeError::Truncated);
    }
    let left_child_ptr = be_u32_at(cell_buf, 0);
    match decode_be(slice_subrange(cell_buf, 4, len)) {
        Ok((int_key, _)) => Ok((left_child_ptr, int_key)),
        Err(_) => Err(DecodeError::Truncated),
    }
}

/// Reads the cell of an index leaf page: the payload.
pub fn parse_leaf_index_cell(cell_buf: &[u8]) -> (r: Result<Payload, DecodeError>)
    ensures
        match r {
            Ok(payload) => leaf_index_cell(cell_buf@) == Ok::<PayloadView, DecodeError>(payload@),
            Err(e) => leaf_index_cell(cell_buf@) == Err::<PayloadView, DecodeError>(e),
        },
{
    let (size, size_len) = match decode_be(cell_buf) {
        Ok(found) => found,
        Err(_) => {
            return Err(DecodeError::Truncated);
        },
    };
    read_payload(cell_buf, size_len, size)
}

/// Reads the cell of an index interior page: the left child and the
/// payload.
pub fn parse_interior_index_cell(cell_buf: &[u8]) -> (r: Result<(u32, Payload), DecodeError>)
    ensures
        match r {
            Ok((left_child_ptr, payload)) => interior_index_cell(cell_buf@) == Ok::<
                (u32, PayloadView),
                DecodeError,
            >((left_child_ptr, payload@)),
            Err(e) => interior_index_cell(cell_buf@) == Err::<(u32, PayloadView), DecodeError>(e),
        },
{
    let len = cell_buf.len();
    if len < 4 {
        return Err(DecodeError::Truncated);
    }
    let left_child_ptr = be_u32_at(cell_buf, 0);
    let (size, size_len) = match decode_be(slice_subrange(cell_buf, 4, len)) {
        Ok(found) => found,
        Err(_) => {
            return Err(DecodeError::Truncated);
        },
    };
    match read_payload(cell_buf, 4 + size_len, size) {
        Ok(payload) => Ok((left_child_ptr, payload)),
        Err(e) => Err(e),
    }
}

impl CellContent {
    /// Reads the cell `cell` of the page `pg` out of the file of `db`.
    pub fn parse(pg: &BtreePage, db: &Database, cell: Cell) -> (r: Result<Self, DecodeError>)
        ensures
            match r {
                Ok(content) => cell_read(pg@, db@, cell) == Ok::<CellContentView, DecodeError>(
                    content@,
                ),
                Err(e) => cell_read(pg@, db@, cell) == Err::<CellContentView, DecodeError>(e),
            },
    {
        let file = db.file.as_slice();
        let file_len: u64 = file.len() as u64;
        if pg.file_starting_position > file_len || cell.offset > file_len
            - pg.file_starting_position || cell.size as u64 > file_len - pg.file_starting_position
            - cell.offset {
            return Err(DecodeError::Truncated);
        }
        let start: usize = (pg.file_starting_position + cell.offset) as usize;
        let cell_buf = slice_subrange(file, start, start + cell.size);
        match pg.page_type {
            PageType::LeafTable => match parse_leaf_table_cell(cell_buf) {
                Ok((row_id, payload)) => Ok(CellContent::LeafTable { row_id, payload }),
                Err(e) => Err(e),
            },
            PageType::InteriorTable => match parse_interior_table_cell(cell_buf) {
                Ok((left_child_ptr, integer_key)) => Ok(
                    CellContent::InteriorTable { left_child_ptr, integer_key },
                ),
                Err(e) => Err(e),
            },
            PageType::LeafIndex => match parse_leaf_index_cell(cell_buf) {
                Ok(payload) => Ok(CellContent::LeafIndex { payload }),
                Err(e) => Err(e),
            },
            PageType::InteriorIndex => match parse_interior_index_cell(cell_buf) {
                Ok((left_child_ptr, payload)) => Ok(
                    CellContent::InteriorIndex { left_child_ptr, payload },
                ),
                Err(e) => Err(e),
            },
        }
    }

    /// The bytes of the payload that lie in the cell. The cell of a table
    /// interior page has no payload, so nothing in it can be reached.
    pub fn get_payload(&self) -> (r: Result<&Vec<u8>, DecodeError>)
        ensures
            match r {
                Ok(bytes) => self@.payload() == Some(bytes@),
                Err(e) => self@.payload() is None && e == DecodeError::OutOfRange,
            },
    {
        match self {
            CellContent::LeafTable { payload, .. } => Ok(&payload.payload),
            CellContent::LeafIndex { payload } => Ok(&payload.payload),
            CellContent::InteriorIndex { payload, .. } => Ok(&payload.payload),
            CellContent::InteriorTable { .. } => Err(DecodeError::OutOfRange),
        }
    }
}

} // verus!
