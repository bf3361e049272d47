//! B-tree pages: the page header, the cell pointer array, and the extent
//! of each cell.

use vstd::prelude::*;
use vstd::relations::{sorted_by, total_ordering};
use vstd::seq_lib::lemma_sorted_unique;

use crate::bytes::{be_u16_at, be_u32_at, be_value};
use crate::cell::Cell;
use crate::db::{page_bytes, Database, DatabaseView, DB_HEADER_SIZE};
use crate::error::DecodeError;

verus! {

/// The size of the header of a leaf page.
pub const LEAF_BTREE_HEADER_SIZE: u8 = 8;

/// The size of the header of an interior page: that of a leaf page, and
/// the right-most child pointer.
pub const INTERIOR_BTREE_HEADER_SIZE: u8 = 12;

/// What `BtreeTypeError` says.
pub const INVALID_BTREE_TYPE: &'static str = "invalid b-tree type";

/// What `PagesExceededError` says.
pub const PAGES_EXCEEDED: &'static str = "number of pages in database exceeded";

/// The first byte of a page header is no page type flag.
#[derive(Debug)]
pub struct BtreeTypeError {
    details: &'static str,
}

impl BtreeTypeError {
    /// The message that the error carries.
    pub closed spec fn message(self) -> &'static str {
        self.details
    }

    pub fn new() -> (e: Self)
        ensures
            e.message() == INVALID_BTREE_TYPE,
    {
        Self { details: INVALID_BTREE_TYPE }
    }

    /// The message that describes the failure.
    pub fn details(&self) -> (s: &'static str)
        ensures
            s == self.message(),
    {
        self.details
    }
}

/// A page number is not one of the pages of the database.
#[derive(Debug)]
pub struct PagesExceededError {
    details: &'static str,
}

impl PagesExceededError {
    /// The message that the error carries.
    pub closed spec fn message(self) -> &'static str {
        self.details
    }

    pub fn new() -> (e: Self)
        ensures
            e.message() == PAGES_EXCEEDED,
    {
        Self { details: PAGES_EXCEEDED }
    }

    /// The message that describes the failure.
    pub fn details(&self) -> (s: &'static str)
        ensures
            s == self.message(),
    {
        self.details
    }
}

/// The four kinds of B-tree page.
#[derive(Debug, Clone, Copy, PartialEq, Eq, Structural)]
pub enum PageType {
    InteriorIndex,
    InteriorTable,
    LeafIndex,
    LeafTable,
}

/// The page type that a flag byte stands for.
pub open spec fn page_type_of(flag: u8) -> Option<PageType> {
    if flag == 0x02 {
        Some(PageType::InteriorIndex)
    } else if flag == 0x05 {
        Some(PageType::InteriorTable)
    } else if flag == 0x0a {
        Some(PageType::LeafIndex)
    } else if flag == 0x0d {
        Some(PageType::LeafTable)
    } else {
        None
    }
}

impl PageType {
    /// Whether pages of this type hold child pointers.
    pub open spec fn is_interior(self) -> bool {
        self == PageType::InteriorIndex || self == PageType::InteriorTable
    }

    /// The size of the header of a page of this type.
    pub open spec fn header_size(self) -> u8 {
        if self.is_interior() {
            INTERIOR_BTREE_HEADER_SIZE
        } else {
            LEAF_BTREE_HEADER_SIZE
        }
    }

    /// Reads the flag byte at the front of a page header.
    pub fn get_page_type(flag: u8) -> (r: Result<Self, BtreeTypeError>)
        ensures
            match r {
                Ok(page_type) => page_type_of(flag) == Some(page_type),
                Err(e) => page_type_of(flag) is None && e.message() == INVALID_BTREE_TYPE,
            },
    {
        match flag {
            0x02 => Ok(Self::InteriorIndex),
            0x05 => Ok(Self::InteriorTable),
            0x0a => Ok(Self::LeafIndex),
            0x0d => Ok(Self::LeafTable),
            _ => Err(BtreeTypeError::new()),
        }
    }

    /// The size of the header of a page of this type.
    pub fn get_header_size(&self) -> (n: u8)
        ensures
            n == self.header_size(),
    {
        match self {
            PageType::InteriorIndex | PageType::InteriorTable => INTERIOR_BTREE_HEADER_SIZE,
            PageType::LeafIndex | PageType::LeafTable => LEAF_BTREE_HEADER_SIZE,
        }
    }
}

/// Accepts the numbers of the pages that `db` has: one to its page count.
pub fn validate_page_num(db: &Database, page: u32) -> (r: Result<(), PagesExceededError>)
    ensures
        match r {
            Ok(()) => 1 <= page <= db.page_count,
            Err(e) => (page == 0 || page > db.page_count) && e.message() == PAGES_EXCEEDED,
        },
{
    if page == 0 || page > db.page_count {
        Err(PagesExceededError::new())
    } else {
        Ok(())
    }
}

/// A B-tree page, as its header and its cell pointer array describe it.
#[derive(Debug)]
pub struct BtreePage {
    pub page_type: PageType,
    /// The number of the page; the first page is page one.
    pub page_num: u32,
    /// Where the page begins in the file.
    pub file_starting_position: u64,
    pub num_cells: u16,
    /// The offset of the first freeblock in the page, or zero.
    pub first_cell_start: u16,
    /// The offsets of the cells from the start of the page, in the order
    /// in which the page holds them, which need not be ascending.
    pub cell_pointers: Vec<u16>,
    pub header_size: u8,
    /// The first eight bytes of the page header.
    pub header: [u8; 8],
    /// The right-most child, on an interior page.
    pub rightmost_ptr: Option<u32>,
    /// The page size of the database, as its header holds it.
    pub page_size: u16,
}

/// What a `BtreePage` holds, as mathematical values.
pub ghost struct BtreePageView {
    pub page_type: PageType,
    pub page_num: u32,
    pub file_starting_position: u64,
    pub num_cells: u16,
    pub first_cell_start: u16,
    pub cell_pointers: Seq<u16>,
    pub header_size: u8,
    pub header: Seq<u8>,
    pub rightmost_ptr: Option<u32>,
    pub page_size: u16,
}

impl View for BtreePage {
    type V = BtreePageView;

    open spec fn view(&self) -> BtreePageView {
        BtreePageView {
            page_type: self.page_type,
            page_num: self.page_num,
            file_starting_position: self.file_starting_position,
            num_cells: self.num_cells,
            first_cell_start: self.first_cell_start,
            cell_pointers: self.cell_pointers@,
            header_size: self.header_size,
            header: self.header@,
            rightmost_ptr: self.rightmost_ptr,
            page_size: self.page_size,
        }
    }
}

impl BtreePageView {
    /// Whether every cell begins within the page or at its end.
    pub open spec fn cells_within_page(self) -> bool {
        forall|i: int|
            0 <= i < self.cell_pointers.len() ==> #[trigger] self.cell_pointers[i] <= page_bytes(
                self.page_size,
            )
    }
}

/// Where page `page` begins in a file with pages of `page_size`.
pub open spec fn page_start(page: u32, page_size: u16) -> nat {
    ((page - 1) * page_bytes(page_size)) as nat
}

/// Where the B-tree header of page `page` begins in the file: at the start
/// of the page, but on page one after the header of the file.
pub open spec fn page_header_start(page: u32, page_size: u16) -> nat {
    if page == 1 {
        DB_HEADER_SIZE as nat
    } else {
        page_start(page, page_size)
    }
}

/// The cell pointer array of `count` big-endian 16-bit numbers that
/// begins at `at` in `file`.
pub open spec fn cell_pointer_array(file: Seq<u8>, at: int, count: nat) -> Seq<u16> {
    Seq::new(count, |i: int| be_value(file.subrange(at + 2 * i, at + 2 * i + 2)) as u16)
}

/// What reading page `page` of `db` gives. The page must be one of the
/// database's. Its header begins with the type flag; the cell count is the
/// big-endian number at offset 3 of the header, the first freeblock that at
/// offset 5; an interior page has its right-most child in the last four
/// bytes of its header; the cell pointer array follows the header. The
/// file must hold all of these.
pub open spec fn page_read(db: DatabaseView, page: u32) -> Result<BtreePageView, DecodeError> {
    let start = page_header_start(page, db.page_size) as int;
    if page == 0 || page > db.page_count {
        Err(DecodeError::OutOfRange)
    } else if start + LEAF_BTREE_HEADER_SIZE > db.file.len() {
        Err(DecodeError::Truncated)
    } else {
        let header = db.file.subrange(start, start + LEAF_BTREE_HEADER_SIZE);
        match page_type_of(header[0]) {
            None => Err(DecodeError::InvalidFormat),
            Some(page_type) => {
                let header_size = page_type.header_size();
                let num_cells = be_value(header.subrange(3, 5)) as u16;
                if start + header_size + 2 * num_cells > db.file.len() {
                    Err(DecodeError::Truncated)
                } else {
                    Ok(
                        BtreePageView {
                            page_type,
                            page_num: page,
                            file_starting_position: page_start(page, db.page_size) as u64,
                            num_cells,
                            first_cell_start: be_value(header.subrange(5, 7)) as u16,
                            cell_pointers: cell_pointer_array(
                                db.file,
                                start + header_size,
                                num_cells as nat,
                            ),
                            header_size,
                            header,
                            rightmost_ptr: if page_type.is_interior() {
                                Some(be_value(db.file.subrange(start + 8, start + 12)) as u32)
                            } else {
                                None
                            },
                            page_size: db.page_size,
                        },
                    )
                }
            },
        }
    }
}

/// Reading a page whose number is beyond the page count fails as out of
/// range, whatever the file holds.
pub proof fn lemma_page_beyond_count(db: DatabaseView, page: u32)
    requires
        page > db.page_count,
    ensures
        page_read(db, page) == Err::<BtreePageView, DecodeError>(DecodeError::OutOfRange),
{
}

/// `pointers` in ascending order.
pub open spec fn ascending(pointers: Seq<u16>) -> Seq<u16> {
    pointers.sort_by(|a: u16, b: u16| a <= b)
}

/// The extents of the cells that begin at the offsets `sorted`, which are
/// in ascending order, in a page of `page_len` bytes: a cell ends where the
/// next one begins, and the last one at the end of the page.
pub open spec fn cell_extents(sorted: Seq<u16>, page_len: nat) -> Seq<Cell> {
    Seq::new(
        sorted.len(),
        |i: int|
            Cell {
                offset: sorted[i] as u64,
                size: ((if i + 1 < sorted.len() {
                    sorted[i + 1] as int
                } else {
                    page_len as int
                }) - sorted[i]) as usize,
            },
    )
}

/// The sum of the sizes of `cells`.
pub open spec fn total_size(cells: Seq<Cell>) -> nat
    decreases cells.len(),
{
    if cells.len() == 0 {
        0
    } else {
        total_size(cells.drop_last()) + cells.last().size as nat
    }
}

impl BtreePageView {
    /// The cells of the page, in the order of their offsets.
    pub open spec fn cells(self) -> Seq<Cell> {
        cell_extents(ascending(self.cell_pointers), page_bytes(self.page_size))
    }
}

proof fn lemma_u16_order_total()
    ensures
        total_ordering(|a: u16, b: u16| a <= b),
{
}

/// `ascending` keeps each pointer as often as it occurs, keeps nothing
/// else, and puts no pointer before a smaller one.
pub proof fn lemma_ascending(pointers: Seq<u16>)
    ensures
        ascending(pointers).len() == pointers.len(),
        ascending(pointers).to_multiset() == pointers.to_multiset(),
        forall|i: int, j: int|
            0 <= i < j < pointers.len() ==> ascending(pointers)[i] <= ascending(pointers)[j],
        pointers.no_duplicates() ==> forall|i: int, j: int|
            0 <= i < j < pointers.len() ==> ascending(pointers)[i] < ascending(pointers)[j],
{
    broadcast use vstd::seq_lib::group_to_multiset_ensures;

    let leq = |a: u16, b: u16| a <= b;
    let sorted = ascending(pointers);
    lemma_u16_order_total();
    pointers.lemma_sort_by_ensures(leq);
    assert(sorted.len() == sorted.to_multiset().len());
    assert(pointers.len() == pointers.to_multiset().len());
    assert forall|i: int, j: int| 0 <= i < j < pointers.len() implies sorted[i] <= sorted[j] by {
        assert(leq(sorted[i], sorted[j]));
    }
    if pointers.no_duplicates() {
        pointers.lemma_multiset_has_no_duplicates();
        sorted.lemma_multiset_has_no_duplicates_conv();
    }
}

/// The cells of a page whose cells all begin within it: there are as many
/// as the page has cell pointers; their offsets ascend, strictly where no
/// two pointers are equal; each ends where the next begins and the last at
/// the end of the page; so the first offset and all the sizes add up to the
/// page size.
pub proof fn lemma_cells_tile_page(page: BtreePageView)
    requires
        page.cells_within_page(),
    ensures
        page.cells().len() == page.cell_pointers.len(),
        forall|i: int, j: int|
            0 <= i < j < page.cells().len() ==> page.cells()[i].offset <= page.cells()[j].offset,
        page.cell_pointers.no_duplicates() ==> forall|i: int, j: int|
            0 <= i < j < page.cells().len() ==> page.cells()[i].offset < page.cells()[j].offset,
        forall|i: int|
            0 <= i < page.cells().len() - 1 ==> (#[trigger] page.cells()[i]).offset
                + page.cells()[i].size == page.cells()[i + 1].offset,
        page.cells().len() > 0 ==> page.cells().last().offset + page.cells().last().size
            == page_bytes(page.page_size),
        page.cells().len() > 0 ==> page.cells()[0].offset + total_size(page.cells()) == page_bytes(
            page.page_size,
        ),
{
    let sorted = ascending(page.cell_pointers);
    let page_len = page_bytes(page.page_size);
    let cells = page.cells();
    lemma_ascending(page.cell_pointers);
    lemma_ascending_within(page.cell_pointers, page_len);
    if cells.len() > 0 {
        lemma_extents_sum(sorted, page_len, cells.len());
        assert(cells.subrange(0, cells.len() as int) =~= cells);
    }
}

/// A bound on all of `pointers` is one on all of `ascending(pointers)`.
proof fn lemma_ascending_within(pointers: Seq<u16>, bound: nat)
    requires
        forall|i: int| 0 <= i < pointers.len() ==> #[trigger] pointers[i] <= bound,
    ensures
        forall|i: int|
            0 <= i < ascending(pointers).len() ==> #[trigger] ascending(pointers)[i] <= bound,
{
    broadcast use vstd::seq_lib::group_to_multiset_ensures;

    let sorted = ascending(pointers);
    lemma_ascending(pointers);
    assert forall|i: int| 0 <= i < sorted.len() implies #[trigger] sorted[i] <= bound by {
        assert(sorted.contains(sorted[i]));
        assert(sorted.to_multiset().count(sorted[i]) > 0);
        assert(pointers.contains(sorted[i]));
        let k = choose|k: int| 0 <= k < pointers.len() && pointers[k] == sorted[i];
        assert(pointers[k] <= bound);
    }
}

/// The first `n` extents reach from the first offset to the offset that
/// follows them.
proof fn lemma_extents_sum(sorted: Seq<u16>, page_len: nat, n: nat)
    requires
        1 <= n <= sorted.len(),
        forall|i: int, j: int| 0 <= i < j < sorted.len() ==> sorted[i] <= sorted[j],
        forall|i: int| 0 <= i < sorted.len() ==> #[trigger] sorted[i] <= page_len,
        page_len <= 65536,
    ensures
        sorted[0] + total_size(cell_extents(sorted, page_len).subrange(0, n as int)) == (if n
            < sorted.len() {
            sorted[n as int] as int
        } else {
            page_len as int
        }),
    decreases n,
{
    let cells = cell_extents(sorted, page_len);
    let part = cells.subrange(0, n as int);
    assert(part.drop_last() =~= cells.subrange(0, n - 1));
    assert(part.last() == cells[n - 1]);
    if n > 1 {
        lemma_extents_sum(sorted, page_len, (n - 1) as nat);
    } else {
        assert(total_size(part.drop_last()) == 0);
    }
}

impl Default for BtreePage {
    fn default() -> (p: Self)
        ensures
            p@ == (BtreePageView {
                page_type: PageType::LeafTable,
                page_num: 0,
                file_starting_position: 0,
                num_cells: 0,
                first_cell_start: 0,
                cell_pointers: Seq::empty(),
                header_size: 8,
                header: Seq::new(8, |i: int| 0u8),
                rightmost_ptr: None,
                page_size: 0,
            }),
    {
        let p = BtreePage {
            page_type: PageType::LeafTable,
            page_num: 0,
            file_starting_position: 0,
            num_cells: 0,
            first_cell_start: 0,
            cell_pointers: Vec::new(),
            header_size: 8,
            header: [0u8; 8],
            rightmost_ptr: None,
            page_size: 0,
        };
        proof {
            assert(p.header@ =~= Seq::new(8, |i: int| 0u8));
            assert(p.cell_pointers@ =~= Seq::empty());
        }
        p
    }
}

impl BtreePage {
    /// Reads the first page of `db`.
    pub fn new(db: &Database) -> (r: Result<Self, DecodeError>)
        ensures
            match r {
                Ok(p) => page_read(db@, 1) == Ok::<BtreePageView, DecodeError>(p@),
                Err(e) => page_read(db@, 1) == Err::<BtreePageView, DecodeError>(e),
            },
    {
        let mut btree_pg = BtreePage::default();
        match btree_pg.read_page_header(db, 1) {
            Ok(()) => Ok(btree_pg),
            Err(e) => Err(e),
        }
    }

    /// Reads page `page` of `db` into `self`. On an error `self` keeps what
    /// it had.
    pub fn read_page_header(&mut self, db: &Database, page: u32) -> (r: Result<(), DecodeError>)
        ensures
            match r {
                Ok(()) => page_read(db@, page) == Ok::<BtreePageView, DecodeError>(final(self)@),
                Err(e) => page_read(db@, page) == Err::<BtreePageView, DecodeError>(e) && *final(
                    self
                ) == *old(self),
            },
    {
        if validate_page_num(db, page).is_err() {
            return Err(DecodeError::OutOfRange);
        }
        let page_len: u64 = db.page_bytes() as u64;
        assert((page - 1) * page_len <= 0xffff_fffe * 0x1_0000) by (nonlinear_arith)
            requires
                1 <= page <= 0xffff_ffff,
                page_len <= 0x1_0000,
        ;
        let file_starting_position: u64 = ((page - 1) as u64) * page_len;
        let pg_header_start: u64 = if page == 1 {
            DB_HEADER_SIZE as u64
        } else {
            file_starting_position
        };
        let file = db.file.as_slice();
        let file_len: u64 = file.len() as u64;
        if pg_header_start + (LEAF_BTREE_HEADER_SIZE as u64) > file_len {
            return Err(DecodeError::Truncated);
        }
        let start: usize = pg_header_start as usize;
        let mut header = [0u8; 8];
        let mut i: usize = 0;
        while i < 8
            invariant
                i <= 8,
                start + 8 <= file@.len() <= usize::MAX,
                forall|j: int| 0 <= j < i ==> header@[j] == file@[start + j],
            decreases 8 - i,
        {
            header[i] = file[start + i];
            i += 1;
        }
        proof {
            assert(header@ =~= file@.subrange(start as int, start + 8));
        }
        let page_type = match PageType::get_page_type(header[0]) {
            Ok(page_type) => page_type,
            Err(_) => {
                return Err(DecodeError::InvalidFormat);
            },
        };
        let header_size = page_type.get_header_size();
        let num_cells = be_u16_at(header.as_slice(), 3);
        let first_cell_start = be_u16_at(header.as_slice(), 5);
        if pg_header_start + (header_size as u64) + 2 * (num_cells as u64) > file_len {
            return Err(DecodeError::Truncated);
        }
        let rightmost_ptr = match page_type {
            PageType::InteriorTable | PageType::InteriorIndex => Some(
                be_u32_at(file, start + 8),
            ),
            _ => None,
        };
        let array_start: usize = start + header_size as usize;
        let mut cell_pointers: Vec<u16> = Vec::new();
        let mut n: usize = 0;
        while n < num_cells as usize
            invariant
                n <= num_cells,
                array_start + 2 * num_cells <= file@.len() <= usize::MAX,
                cell_pointers@ == cell_pointer_array(file@, array_start as int, n as nat),
            decreases num_cells - n,
        {
            let pointer = be_u16_at(file, array_start + 2 * n);
            proof {
                assert(cell_pointers@.push(pointer) =~= cell_pointer_array(
                    file@,
                    array_start as int,
                    (n + 1) as nat,
                ));
            }
            cell_pointers.push(pointer);
            n += 1;
        }
        self.page_type = page_type;
        self.page_num = page;
        self.file_starting_position = file_starting_position;
        self.num_cells = num_cells;
        self.first_cell_start = first_cell_start;
        self.cell_pointers = cell_pointers;
        self.header_size = header_size;
        self.header = header;
        self.rightmost_ptr = rightmost_ptr;
        self.page_size = db.page_size;
        Ok(())
    }

    /// Whether every cell begins within the page or at its end.
    pub fn cells_within_page(&self) -> (b: bool)
        ensures
            b == self@.cells_within_page(),
    {
        let page_len: u32 = if self.page_size == 1 {
            65536
        } else {
            self.page_size as u32
        };
        let mut i: usize = 0;
        while i < self.cell_pointers.len()
            invariant
                i <= self.cell_pointers@.len(),
                page_len == page_bytes(self.page_size),
                forall|j: int| 0 <= j < i ==> #[trigger] self.cell_pointers@[j] <= page_len,
            decreases self.cell_pointers@.len() - i,
        {
            if self.cell_pointers[i] as u32 > page_len {
                proof {
                    assert(self@.cell_pointers[i as int] > page_bytes(self.page_size));
                }
                return false;
            }
            i += 1;
        }
        true
    }

    /// The cells of the page in the order of their offsets, each with its
    /// size: the distance to the next cell, or to the end of the page.
    pub fn get_page_cells(&self) -> (cells: Vec<Cell>)
        requires
            self@.cells_within_page(),
        ensures
            cells@ == self@.cells(),
            cells@.len() == self.cell_pointers@.len(),
            forall|i: int, j: int| 0 <= i < j < cells@.len() ==> cells@[i].offset <= cells@[j].offset,
            self.cell_pointers@.no_duplicates() ==> forall|i: int, j: int|
                0 <= i < j < cells@.len() ==> cells@[i].offset < cells@[j].offset,
            forall|i: int|
                0 <= i < cells@.len() - 1 ==> (#[trigger] cells@[i]).offset + cells@[i].size
                    == cells@[i + 1].offset,
            cells@.len() > 0 ==> cells@.last().offset + cells@.last().size == page_bytes(
                self.page_size,
            ),
            cells@.len() > 0 ==> cells@[0].offset + total_size(cells@) == page_bytes(
                self.page_size,
            ),
    {
        let pointers = sorted_pointers(&self.cell_pointers);
        let page_len: u32 = if self.page_size == 1 {
            65536
        } else {
            self.page_size as u32
        };
        proof {
            lemma_ascending(self.cell_pointers@);
            lemma_ascending_within(self.cell_pointers@, page_len as nat);
        }
        let count = pointers.len();
        let mut cells: Vec<Cell> = Vec::new();
        let mut i: usize = 0;
        while i < count
            invariant
                i <= count == pointers@.len(),
                pointers@ == ascending(self.cell_pointers@),
                page_len == page_bytes(self.page_size),
                forall|a: int, b: int| 0 <= a < b < count ==> pointers@[a] <= pointers@[b],
                forall|a: int| 0 <= a < count ==> #[trigger] pointers@[a] <= page_len,
                cells@ == self@.cells().subrange(0, i as int),
            decreases count - i,
        {
            let offset = pointers[i];
            let next: u32 = if i + 1 < count {
                pointers[i + 1] as u32
            } else {
                page_len
            };
            let cell = Cell { offset: offset as u64, size: (next - offset as u32) as usize };
            proof {
                assert(cells@.push(cell) =~= self@.cells().subrange(0, i + 1));
            }
            cells.push(cell);
            i += 1;
        }
        proof {
            assert(cells@ =~= self@.cells());
            lemma_cells_tile_page(self@);
        }
        cells
    }
}

/// A copy of `pointers` in ascending order.
fn sorted_pointers(pointers: &Vec<u16>) -> (sorted: Vec<u16>)
    ensures
        sorted@ == ascending(pointers@),
{
    broadcast use vstd::seq_lib::group_to_multiset_ensures;
    broadcast use vstd::multiset::group_multiset_axioms;

    let ghost leq = |a: u16, b: u16| a <= b;
    let mut sorted: Vec<u16> = Vec::new();
    let mut taken: usize = 0;
    while taken < pointers.len()
        invariant
            taken <= pointers@.len(),
            sorted@.len() == taken,
            forall|i: int, j: int| 0 <= i < j < sorted@.len() ==> sorted@[i] <= sorted@[j],
            sorted@.to_multiset() == pointers@.subrange(0, taken as int).to_multiset(),
        decreases pointers@.len() - taken,
    {
        let pointer = pointers[taken];
        let mut at: usize = 0;
        while at < sorted.len() && sorted[at] <= pointer
            invariant
                at <= sorted@.len(),
                forall|j: int| 0 <= j < at ==> sorted@[j] <= pointer,
            decreases sorted@.len() - at,
        {
            at += 1;
        }
        let ghost before = sorted@;
        sorted.insert(at, pointer);
        proof {
            assert(sorted@.remove(at as int) =~= before);
            assert(sorted@[at as int] == pointer);
            vstd::seq_lib::to_multiset_remove(sorted@, at as int);
            sorted@.to_multiset_ensures();
            assert(sorted@.contains(pointer));
            assert(sorted@.to_multiset().count(pointer) > 0);
            assert(sorted@.to_multiset() =~= before.to_multiset().insert(pointer));
            pointers@.subrange(0, taken as int).to_multiset_ensures();
            assert(pointers@.subrange(0, taken + 1) =~= pointers@.subrange(0, taken as int).push(
                pointer,
            ));
            assert forall|i: int, j: int| 0 <= i < j < sorted@.len() implies sorted@[i]
                <= sorted@[j] by {
                if i < at && j > at {
                    assert(sorted@[j] == before[j - 1]);
                } else if i > at {
                    assert(sorted@[i] == before[i - 1]);
                    assert(sorted@[j] == before[j - 1]);
                } else if i == at {
                    assert(sorted@[j] == before[j - 1]);
                    assert(before[at as int] <= before[j - 1]);
                }
            }
        }
        taken += 1;
    }
    proof {
        assert(pointers@.subrange(0, taken as int) =~= pointers@);
        lemma_u16_order_total();
        pointers@.lemma_sort_by_ensures(leq);
        assert(sorted_by(sorted@, leq));
        lemma_sorted_unique(sorted@, ascending(pointers@), leq);
    }
    sorted
}

} // verus!
