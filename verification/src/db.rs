//! The database file: its bytes and the fields of its 100-byte header.

use vstd::prelude::*;

use crate::bytes::{be_u16_at, be_u32_at, be_value};
use crate::error::DecodeError;

verus! {

/// The length of the header at the front of a database file.
pub const DB_HEADER_SIZE: usize = 100;

/// The sixteen bytes that every database file begins with: the text
/// `SQLite format 3` and a zero byte.
pub const HEADER_STRING_ARR: [u8; 16] = [
    0x53, 0x51, 0x4c, 0x69, 0x74, 0x65, 0x20, 0x66, 0x6f, 0x72, 0x6d, 0x61, 0x74, 0x20, 0x33, 0x00,
];

/// The bytes at the front of a file are not those of a database.
#[derive(Debug)]
pub struct InvalidDBFileError {
    details: &'static str,
}

/// What `InvalidDBFileError` says.
pub const INVALID_DB_FILE: &'static str = "file is not a valid database";

impl InvalidDBFileError {
    /// The message that the error carries.
    pub closed spec fn message(self) -> &'static str {
        self.details
    }

    pub fn new() -> (e: Self)
        ensures
            e.message() == INVALID_DB_FILE,
    {
        Self { details: INVALID_DB_FILE }
    }

    /// The message that describes the failure.
    pub fn details(&self) -> (s: &'static str)
        ensures
            s == self.message(),
    {
        self.details
    }
}

/// Accepts the first sixteen bytes of a file if they are the magic string.
pub fn validate_db_file(header_str_arr: [u8; 16]) -> (r: Result<(), InvalidDBFileError>)
    ensures
        match r {
            Ok(()) => header_str_arr@ == HEADER_STRING_ARR@,
            Err(e) => header_str_arr@ != HEADER_STRING_ARR@ && e.message() == INVALID_DB_FILE,
        },
{
    let mut i: usize = 0;
    while i < 16
        invariant
            i <= 16,
            forall|j: int| 0 <= j < i ==> header_str_arr@[j] == HEADER_STRING_ARR@[j],
        decreases 16 - i,
    {
        if header_str_arr[i] != HEADER_STRING_ARR[i] {
            return Err(InvalidDBFileError::new());
        }
        i += 1;
    }
    proof {
        assert(header_str_arr@ =~= HEADER_STRING_ARR@);
    }
    Ok(())
}

/// The number of bytes in a page, for the 16-bit number that the header
/// holds: `1` stands for 65536, which 16 bits cannot hold.
pub open spec fn page_bytes(page_size: u16) -> nat {
    if page_size == 1 {
        65536
    } else {
        page_size as nat
    }
}

/// The page sizes that the format allows: the powers of two from 512 to
/// 32768, and `1` for 65536.
pub open spec fn is_format_page_size(page_size: u16) -> bool {
    page_size == 1 || page_size == 512 || page_size == 1024 || page_size == 2048 || page_size
        == 4096 || page_size == 8192 || page_size == 16384 || page_size == 32768
}

/// A database file: its bytes, and what its header says of it.
#[derive(Debug)]
pub struct Database {
    /// The bytes of the file, from its first.
    pub file: Vec<u8>,
    /// The first 100 bytes of the file.
    pub header: [u8; 100],
    /// The page size as the header holds it; see `page_bytes`.
    pub page_size: u16,
    /// The number of pages in the file.
    pub page_count: u32,
    /// The bytes at the end of each page that hold no B-tree content.
    pub reserved_space: u8,
}

/// What a `Database` holds, as mathematical values.
pub ghost struct DatabaseView {
    pub file: Seq<u8>,
    pub header: Seq<u8>,
    pub page_size: u16,
    pub page_count: u32,
    pub reserved_space: u8,
}

impl View for Database {
    type V = DatabaseView;

    open spec fn view(&self) -> DatabaseView {
        DatabaseView {
            file: self.file@,
            header: self.header@,
            page_size: self.page_size,
            page_count: self.page_count,
            reserved_space: self.reserved_space,
        }
    }
}

impl DatabaseView {
    /// The number of bytes in a page.
    pub open spec fn page_bytes(self) -> nat {
        page_bytes(self.page_size)
    }

    /// The bytes of a page that B-tree content can use.
    pub open spec fn usable_size(self) -> int {
        self.page_bytes() - self.reserved_space
    }
}

/// What opening a file with the bytes `file` gives. The file must hold the
/// whole header and begin with the magic string. The page size is the
/// big-endian number at offset 16, the reserved space the byte at offset
/// 20, the page count the big-endian number at offset 28.
pub open spec fn opened(file: Seq<u8>) -> Result<DatabaseView, DecodeError> {
    if file.len() < DB_HEADER_SIZE {
        Err(DecodeError::Truncated)
    } else if file.subrange(0, 16) != HEADER_STRING_ARR@ {
        Err(DecodeError::InvalidFormat)
    } else {
        Ok(
            DatabaseView {
                file,
                header: file.subrange(0, DB_HEADER_SIZE as int),
                page_size: be_value(file.subrange(16, 18)) as u16,
                page_count: be_value(file.subrange(28, 32)) as u32,
                reserved_space: file[20],
            },
        )
    }
}

/// A file whose magic string differs in any one byte is no database.
pub proof fn lemma_altered_magic_rejected(file: Seq<u8>, i: int, byte: u8)
    requires
        opened(file) is Ok,
        0 <= i < 16,
        byte != file[i],
    ensures
        opened(file.update(i, byte)) == Err::<DatabaseView, DecodeError>(
            DecodeError::InvalidFormat,
        ),
{
    let altered = file.update(i, byte);
    assert(altered.subrange(0, 16)[i] == byte);
    assert(file.subrange(0, 16)[i] == file[i]);
}

impl Database {
    /// Opens a database from the bytes of its file.
    pub fn new(file: Vec<u8>) -> (r: Result<Self, DecodeError>)
        ensures
            match r {
                Ok(db) => opened(file@) == Ok::<DatabaseView, DecodeError>(db@),
                Err(e) => opened(file@) == Err::<DatabaseView, DecodeError>(e),
            },
    {
        if file.len() < DB_HEADER_SIZE {
            return Err(DecodeError::Truncated);
        }
        let mut header = [0u8; 100];
        let mut i: usize = 0;
        while i < DB_HEADER_SIZE
            invariant
                i <= DB_HEADER_SIZE <= file@.len(),
                forall|j: int| 0 <= j < i ==> header@[j] == file@[j],
            decreases DB_HEADER_SIZE - i,
        {
            header[i] = file[i];
            i += 1;
        }
        let mut magic = [0u8; 16];
        let mut k: usize = 0;
        while k < 16
            invariant
                k <= 16,
                file@.len() >= DB_HEADER_SIZE,
                forall|j: int| 0 <= j < k ==> magic@[j] == file@[j],
            decreases 16 - k,
        {
            magic[k] = file[k];
            k += 1;
        }
        proof {
            assert(magic@ =~= file@.subrange(0, 16));
            assert(header@ =~= file@.subrange(0, DB_HEADER_SIZE as int));
        }
        if validate_db_file(magic).is_err() {
            return Err(DecodeError::InvalidFormat);
        }
        let page_size = be_u16_at(file.as_slice(), 16);
        let page_count = be_u32_at(file.as_slice(), 28);
        let reserved_space = file[20];
        Ok(Self { file, header, page_size, page_count, reserved_space })
    }

    /// The number of bytes in a page.
    pub fn page_bytes(&self) -> (n: u32)
        ensures
            n == self@.page_bytes(),
    {
        if self.page_size == 1 {
            65536
        } else {
            self.page_size as u32
        }
    }

    /// Whether the page size is one that the format allows.
    pub fn has_format_page_size(&self) -> (b: bool)
        ensures
            b == is_format_page_size(self.page_size),
    {
        let s = self.page_size;
        s == 1 || s == 512 || s == 1024 || s == 2048 || s == 4096 || s == 8192 || s == 16384 || s
            == 32768
    }
}

} // verus!
