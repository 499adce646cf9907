//! The header section: the file type identifier, two headers and two region tables.
use vstd::prelude::*;

use crate::bytes::{in_bounds, index_of, read_u16, read_u32, read_u64, u16_le, u32_le, u64_le};
use crate::guid::Guid;
use crate::Error;

verus! {

/// "vhdxfile", read as a little-endian `u64`.
pub const FILE_SIGNATURE: u64 = 0x656c_6966_7864_6876;

/// "head", read as a little-endian `u32`.
pub const HEADER_SIGNATURE: u32 = 0x6461_6568;

/// "regi", read as a little-endian `u32`.
pub const REGION_TABLE_SIGNATURE: u32 = 0x6967_6572;

pub const MB: u64 = 0x10_0000;

/// File offsets of the two headers and the two region tables.
pub const HEADER_1_OFFSET: u64 = 0x1_0000;

pub const HEADER_2_OFFSET: u64 = 0x2_0000;

pub const REGION_TABLE_1_OFFSET: u64 = 0x3_0000;

pub const REGION_TABLE_2_OFFSET: u64 = 0x4_0000;

/// The largest number of entries that a region table may hold.
pub const MAX_REGION_ENTRIES: u32 = 2047;

/// Whether `g` identifies the block allocation table region.
pub open spec fn is_bat_region(g: Guid) -> bool {
    g.has_fields(0x2DC27766, 0xF623, 0x4200, seq![0x9Du8, 0x64, 0x11, 0x5E, 0x9B, 0xFD, 0x4A, 0x08])
}

/// Whether `g` identifies the metadata region.
pub open spec fn is_metadata_region(g: Guid) -> bool {
    g.has_fields(0x8B7CA206, 0x4790, 0x4B9A, seq![0xB8u8, 0xFE, 0x57, 0x5F, 0x05, 0x0F, 0x88, 0x6E])
}

pub fn bat_region() -> (r: Guid)
    ensures
        is_bat_region(r),
{
    let r = Guid::new(0x2DC27766, 0xF623, 0x4200, [0x9D, 0x64, 0x11, 0x5E, 0x9B, 0xFD, 0x4A, 0x08]);
    assert(r.data_4@ =~= seq![0x9Du8, 0x64, 0x11, 0x5E, 0x9B, 0xFD, 0x4A, 0x08]);
    r
}

pub fn metadata_region() -> (r: Guid)
    ensures
        is_metadata_region(r),
{
    let r = Guid::new(0x8B7CA206, 0x4790, 0x4B9A, [0xB8, 0xFE, 0x57, 0x5F, 0x05, 0x0F, 0x88, 0x6E]);
    assert(r.data_4@ =~= seq![0xB8u8, 0xFE, 0x57, 0x5F, 0x05, 0x0F, 0x88, 0x6E]);
    r
}

/// The file type identifier at the start of the file.
#[derive(Debug)]
pub struct FileTypeIdentifier {
    /// The UTF-16 code units of the creator string, up to its terminating NUL.
    pub creator: Vec<u16>,
}

impl FileTypeIdentifier {
    /// The creator string at file offset 8: up to 256 UTF-16 code units, ended
    /// by the first NUL.
    pub open spec fn is_creator(units: Seq<u16>, s: Seq<u8>) -> bool {
        &&& units.len() <= 256
        &&& forall|k: int|
            0 <= k < units.len() ==> #[trigger] units[k] == u16_le(s, 8 + 2 * k) && units[k] != 0
        &&& units.len() < 256 ==> u16_le(s, 8 + 2 * (units.len() as int)) == 0
    }

    pub open spec fn is_readable(s: Seq<u8>) -> bool {
        in_bounds(s, 0, 1024) && u64_le(s, 0) == FILE_SIGNATURE
    }

    /// Decodes the 1 KiB identifier at the start of the image.
    pub fn read(image: &[u8]) -> (r: Result<Self, Error>)
        ensures
            !in_bounds(image@, 0, 1024) ==> r == Err::<Self, Error>(Error::Io),
            in_bounds(image@, 0, 1024) ==> {
                &&& r is Ok <==> u64_le(image@, 0) == FILE_SIGNATURE
                &&& r matches Ok(f) ==> Self::is_creator(f.creator@, image@)
                &&& r is Err ==> r == Err::<Self, Error>(Error::InvalidSignature)
            },
    {
        if image.len() < 1024 {
            return Err(Error::Io);
        }
        if read_u64(image, 0) != FILE_SIGNATURE {
            return Err(Error::InvalidSignature);
        }
        let mut creator: Vec<u16> = Vec::new();
        let mut k: usize = 0;
        while k < 256
            invariant
                image@.len() >= 1024,
                k <= 256,
                creator@.len() == k,
                forall|j: int|
                    0 <= j < k ==> #[trigger] creator@[j] == u16_le(image@, 8 + 2 * j) && creator@[j]
                        != 0,
            ensures
                k <= 256,
                creator@.len() == k,
                forall|j: int|
                    0 <= j < k ==> #[trigger] creator@[j] == u16_le(image@, 8 + 2 * j) && creator@[j]
                        != 0,
                k < 256 ==> u16_le(image@, 8 + 2 * (k as int)) == 0,
            decreases 256 - k,
        {
            let unit = read_u16(image, 8 + 2 * k);
            if unit == 0 {
                break;
            }
            creator.push(unit);
            k += 1;
        }
        Ok(Self { creator })
    }

    pub fn creator(&self) -> (r: &Vec<u16>)
        ensures
            r == &self.creator,
    {
        &self.creator
    }
}

/// One header copy: the first 128 bytes of its 4 KiB.
#[derive(Debug, Clone, Copy)]
pub struct Header {
    pub sequence_number: u64,
    pub file_write_guid: Guid,
    pub data_write_guid: Guid,
    pub log_guid: Guid,
    pub log_version: u16,
    pub version: u16,
    pub log_length: u32,
    pub log_offset: u64,
}

impl Header {
    pub open spec fn decodes(self, s: Seq<u8>, pos: int) -> bool {
        &&& self.sequence_number == u64_le(s, pos + 8)
        &&& self.file_write_guid.decodes(s.subrange(pos + 16, pos + 32))
        &&& self.data_write_guid.decodes(s.subrange(pos + 32, pos + 48))
        &&& self.log_guid.decodes(s.subrange(pos + 48, pos + 64))
        &&& self.log_version == u16_le(s, pos + 64)
        &&& self.version == u16_le(s, pos + 66)
        &&& self.log_length == u32_le(s, pos + 68)
        &&& self.log_offset == u64_le(s, pos + 72)
    }

    /// The version fields and the log's placement that the format demands.
    pub open spec fn is_valid(self) -> bool {
        &&& self.log_version == 0
        &&& self.version == 1
        &&& self.log_length % (MB as u32) == 0
        &&& self.log_offset % MB == 0
    }

    pub open spec fn is_readable(s: Seq<u8>, pos: int) -> bool {
        &&& in_bounds(s, pos, 128)
        &&& u32_le(s, pos) == HEADER_SIGNATURE
        &&& exists|h: Header| h.decodes(s, pos) && h.is_valid()
    }

    /// Decodes the header at file offset `pos`.
    pub fn read(image: &[u8], pos: u64) -> (r: Result<Self, Error>)
        ensures
            !in_bounds(image@, pos as int, 128) ==> r == Err::<Self, Error>(Error::Io),
            in_bounds(image@, pos as int, 128) ==> {
                &&& u32_le(image@, pos as int) != HEADER_SIGNATURE ==> r == Err::<Self, Error>(
                    Error::InvalidSignature,
                )
                &&& r matches Ok(h) ==> u32_le(image@, pos as int) == HEADER_SIGNATURE
                    && h.decodes(image@, pos as int) && h.is_valid()
                &&& u32_le(image@, pos as int) == HEADER_SIGNATURE ==> (r is Ok <==> exists|
                    h: Header,
                | h.decodes(image@, pos as int) && h.is_valid())
                &&& u32_le(image@, pos as int) == HEADER_SIGNATURE && r is Err ==> r == Err::<
                    Self,
                    Error,
                >(Error::BadFormat)
            },
    {
        let p = match index_of(image, pos, 128) {
            Some(p) => p,
            None => return Err(Error::Io),
        };
        if read_u32(image, p) != HEADER_SIGNATURE {
            return Err(Error::InvalidSignature);
        }
        let h = Header {
            sequence_number: read_u64(image, p + 8),
            file_write_guid: Guid::read(image, p + 16),
            data_write_guid: Guid::read(image, p + 32),
            log_guid: Guid::read(image, p + 48),
            log_version: read_u16(image, p + 64),
            version: read_u16(image, p + 66),
            log_length: read_u32(image, p + 68),
            log_offset: read_u64(image, p + 72),
        };
        if h.log_version != 0 || h.version != 1 || h.log_length % (MB as u32) != 0 || h.log_offset
            % MB != 0 {
            proof {
                assert forall|g: Header| g.decodes(image@, pos as int) implies !g.is_valid() by {
                    assert(g.log_version == h.log_version);
                }
            }
            return Err(Error::BadFormat);
        }
        Ok(h)
    }
}

/// One 32-byte entry of a region table.
#[derive(Debug, Clone, Copy)]
pub struct RegionTableEntry {
    pub guid: Guid,
    pub file_offset: u64,
    pub length: u32,
    pub required: u32,
}

impl RegionTableEntry {
    pub open spec fn decodes(self, s: Seq<u8>, pos: int) -> bool {
        &&& self.guid.decodes(s.subrange(pos, pos + 16))
        &&& self.file_offset == u64_le(s, pos + 16)
        &&& self.length == u32_le(s, pos + 24)
        &&& self.required == u32_le(s, pos + 28)
    }

    /// A region lies past the first MiB, on MiB boundaries, and a required
    /// region is one that this reader knows.
    pub open spec fn is_valid(self) -> bool {
        &&& self.file_offset % MB == 0
        &&& self.file_offset > MB
        &&& self.length % (MB as u32) == 0
        &&& self.required == 0 || is_bat_region(self.guid) || is_metadata_region(self.guid)
    }

    pub open spec fn is_readable(s: Seq<u8>, pos: int) -> bool {
        &&& in_bounds(s, pos, 32)
        &&& exists|e: RegionTableEntry| e.decodes(s, pos) && e.is_valid()
    }

    /// Decodes the entry at file offset `pos`.
    pub fn read(image: &[u8], pos: u64) -> (r: Result<Self, Error>)
        ensures
            !in_bounds(image@, pos as int, 32) ==> r == Err::<Self, Error>(Error::Io),
            in_bounds(image@, pos as int, 32) ==> {
                &&& r matches Ok(e) ==> e.decodes(image@, pos as int) && e.is_valid()
                &&& r is Ok <==> exists|e: RegionTableEntry|
                    e.decodes(image@, pos as int) && e.is_valid()
                &&& r is Err ==> r == Err::<Self, Error>(Error::BadFormat)
            },
    {
        let p = match index_of(image, pos, 32) {
            Some(p) => p,
            None => return Err(Error::Io),
        };
        let e = RegionTableEntry {
            guid: Guid::read(image, p),
            file_offset: read_u64(image, p + 16),
            length: read_u32(image, p + 24),
            required: read_u32(image, p + 28),
        };
        let known = e.guid == bat_region() || e.guid == metadata_region();
        proof {
            assert(known <==> is_bat_region(e.guid) || is_metadata_region(e.guid)) by {
                if is_bat_region(e.guid) {
                    assert(e.guid.data_4@ =~= seq![0x9Du8, 0x64, 0x11, 0x5E, 0x9B, 0xFD, 0x4A, 0x08]);
                }
                if is_metadata_region(e.guid) {
                    assert(e.guid.data_4@ =~= seq![0xB8u8, 0xFE, 0x57, 0x5F, 0x05, 0x0F, 0x88, 0x6E]);
                }
            }
        }
        if e.file_offset % MB != 0 || e.file_offset <= MB || e.length % (MB as u32) != 0 || (
        e.required != 0 && !known) {
            proof {
                assert forall|g: RegionTableEntry| g.decodes(image@, pos as int) implies !g.is_valid() by {
                    assert(g.guid.data_4@ == e.guid.data_4@);
                }
            }
            return Err(Error::BadFormat);
        }
        assert(e.decodes(image@, pos as int) && e.is_valid());
        Ok(e)
    }
}

/// A region table: a 16-byte header and its entries.
#[derive(Debug)]
pub struct RegionTable {
    pub entries: Vec<RegionTableEntry>,
}

impl RegionTable {
    /// The entries are those of the table at file offset `pos`.
    pub open spec fn decoded_at(self, s: Seq<u8>, pos: int) -> bool {
        &&& self.entries@.len() == u32_le(s, pos + 8)
        &&& forall|i: int|
            0 <= i < self.entries@.len() ==> #[trigger] self.entries@[i].decodes(
                s,
                pos + 16 + 32 * i,
            ) && self.entries@[i].is_valid()
    }

    /// The header is in the image with its signature and at most 2047
    /// entries, and every entry is in the image and valid.
    pub open spec fn is_readable(s: Seq<u8>, pos: int) -> bool {
        &&& in_bounds(s, pos, 16)
        &&& u32_le(s, pos) == REGION_TABLE_SIGNATURE
        &&& u32_le(s, pos + 8) <= MAX_REGION_ENTRIES
        &&& forall|i: int|
            0 <= i < u32_le(s, pos + 8) ==> #[trigger] RegionTableEntry::is_readable(
                s,
                pos + 16 + 32 * i,
            )
    }

    /// Decodes the table at file offset `pos`.
    pub fn read(image: &[u8], pos: u64) -> (r: Result<Self, Error>)
        ensures
            r is Ok <==> Self::is_readable(image@, pos as int),
            !in_bounds(image@, pos as int, 16) ==> r == Err::<Self, Error>(Error::Io),
            in_bounds(image@, pos as int, 16) && u32_le(image@, pos as int)
                != REGION_TABLE_SIGNATURE ==> r == Err::<Self, Error>(Error::InvalidSignature),
            in_bounds(image@, pos as int, 16) && u32_le(image@, pos as int)
                == REGION_TABLE_SIGNATURE && u32_le(image@, pos + 8) > MAX_REGION_ENTRIES ==> r
                == Err::<Self, Error>(Error::BadFormat),
            r matches Ok(t) ==> {
                &&& in_bounds(image@, pos as int, 16)
                &&& u32_le(image@, pos as int) == REGION_TABLE_SIGNATURE
                &&& t.entries@.len() == u32_le(image@, pos + 8)
                &&& forall|i: int|
                    0 <= i < t.entries@.len() ==> #[trigger] t.entries@[i].decodes(
                        image@,
                        pos + 16 + 32 * i,
                    ) && t.entries@[i].is_valid()
            },
            r is Err ==> r == Err::<Self, Error>(Error::Io) || r == Err::<Self, Error>(
                Error::InvalidSignature,
            ) || r == Err::<Self, Error>(Error::BadFormat),
    {
        let p = match index_of(image, pos, 16) {
            Some(p) => p,
            None => return Err(Error::Io),
        };
        if read_u32(image, p) != REGION_TABLE_SIGNATURE {
            return Err(Error::InvalidSignature);
        }
        let count = read_u32(image, p + 8);
        if count > MAX_REGION_ENTRIES {
            return Err(Error::BadFormat);
        }
        let n = image.len();
        let mut entries: Vec<RegionTableEntry> = Vec::new();
        let mut i: u64 = 0;
        while i < count as u64
            invariant
                n == image@.len(),
                forall|j: int|
                    0 <= j < i ==> #[trigger] RegionTableEntry::is_readable(
                        image@,
                        pos + 16 + 32 * j,
                    ),
                i <= count,
                count <= MAX_REGION_ENTRIES,
                in_bounds(image@, pos as int, 16),
                u32_le(image@, pos as int) == REGION_TABLE_SIGNATURE,
                count == u32_le(image@, pos + 8),
                entries@.len() == i,
                forall|j: int|
                    0 <= j < i ==> #[trigger] entries@[j].decodes(image@, pos + 16 + 32 * j)
                        && entries@[j].is_valid(),
            decreases count - i,
        {
            if pos > u64::MAX - 16 - 32 * i - 32 {
                assert(!RegionTableEntry::is_readable(image@, pos + 16 + 32 * i));
                return Err(Error::Io);
            }
            let e = match RegionTableEntry::read(image, pos + 16 + 32 * i) {
                Ok(e) => e,
                Err(err) => {
                    assert(!RegionTableEntry::is_readable(image@, pos + 16 + 32 * i));
                    return Err(err);
                },
            };
            entries.push(e);
            assert(entries@[i as int].decodes(image@, pos + 16 + 32 * i));
            assert(RegionTableEntry::is_readable(image@, pos + 16 + 32 * i)) by {
                assert(e.decodes(image@, pos + 16 + 32 * i) && e.is_valid());
            }
            i += 1;
        }
        Ok(Self { entries })
    }

    /// The first entry whose GUID satisfies the region kind that `is_bat` selects.
    pub open spec fn is_first(self, is_bat: bool, i: int) -> bool {
        &&& 0 <= i < self.entries@.len()
        &&& Self::selects(is_bat, self.entries@[i].guid)
        &&& forall|j: int|
            0 <= j < i ==> !Self::selects(is_bat, (#[trigger] self.entries@[j]).guid)
    }

    pub open spec fn selects(is_bat: bool, g: Guid) -> bool {
        if is_bat {
            is_bat_region(g)
        } else {
            is_metadata_region(g)
        }
    }

    /// The index of the first entry for the BAT region (`is_bat`) or the
    /// metadata region (otherwise).
    pub fn find(&self, is_bat: bool) -> (r: Option<usize>)
        ensures
            r matches Some(i) ==> self.is_first(is_bat, i as int),
            r is None ==> forall|i: int|
                0 <= i < self.entries@.len() ==> !Self::selects(
                    is_bat,
                    (#[trigger] self.entries@[i]).guid,
                ),
    {
        let guid = if is_bat {
            bat_region()
        } else {
            metadata_region()
        };
        let mut i: usize = 0;
        while i < self.entries.len()
            invariant
                i <= self.entries@.len(),
                Self::selects(is_bat, guid),
                forall|j: int|
                    0 <= j < i ==> !Self::selects(is_bat, (#[trigger] self.entries@[j]).guid),
            decreases self.entries@.len() - i,
        {
            let found = self.entries[i].guid == guid;
            proof {
                let g = self.entries@[i as int].guid;
                if Self::selects(is_bat, g) {
                    assert(g.data_4@ =~= guid.data_4@);
                }
            }
            if found {
                return Some(i);
            }
            i += 1;
        }
        None
    }
}

/// Of two headers, the one with the larger sequence number; the second on a tie.
pub open spec fn current_of(h1: Header, h2: Header) -> Header {
    if h1.sequence_number > h2.sequence_number {
        h1
    } else {
        h2
    }
}

/// The decoded header section.
#[derive(Debug)]
pub struct HeaderSection {
    pub file_type_identifier: FileTypeIdentifier,
    pub header_1: Header,
    pub header_2: Header,
    pub region_table_1: RegionTable,
    pub region_table_2: RegionTable,
}

impl HeaderSection {
    /// The identifier, both headers and both region tables can be decoded.
    pub open spec fn is_readable(s: Seq<u8>) -> bool {
        &&& FileTypeIdentifier::is_readable(s)
        &&& Header::is_readable(s, HEADER_1_OFFSET as int)
        &&& Header::is_readable(s, HEADER_2_OFFSET as int)
        &&& RegionTable::is_readable(s, REGION_TABLE_1_OFFSET as int)
        &&& RegionTable::is_readable(s, REGION_TABLE_2_OFFSET as int)
    }

    /// Decodes the header section at the start of the image.
    pub fn read(image: &[u8]) -> (r: Result<Self, Error>)
        ensures
            r is Ok <==> Self::is_readable(image@),
            r is Err ==> r == Err::<Self, Error>(Error::Io) || r == Err::<Self, Error>(
                Error::InvalidSignature,
            ) || r == Err::<Self, Error>(Error::BadFormat),
            r matches Ok(h) ==> {
                &&& FileTypeIdentifier::is_creator(h.file_type_identifier.creator@, image@)
                &&& u64_le(image@, 0) == FILE_SIGNATURE
                &&& h.header_1.decodes(image@, HEADER_1_OFFSET as int) && h.header_1.is_valid()
                &&& h.header_2.decodes(image@, HEADER_2_OFFSET as int) && h.header_2.is_valid()
                &&& forall|i: int|
                    0 <= i < h.region_table_1.entries@.len() ==> (
                    #[trigger] h.region_table_1.entries@[i]).decodes(
                        image@,
                        REGION_TABLE_1_OFFSET + 16 + 32 * i,
                    ) && h.region_table_1.entries@[i].is_valid()
                &&& h.region_table_1.entries@.len() == u32_le(image@, REGION_TABLE_1_OFFSET + 8)
                &&& forall|i: int|
                    0 <= i < h.region_table_2.entries@.len() ==> (
                    #[trigger] h.region_table_2.entries@[i]).decodes(
                        image@,
                        REGION_TABLE_2_OFFSET + 16 + 32 * i,
                    ) && h.region_table_2.entries@[i].is_valid()
                &&& h.region_table_2.entries@.len() == u32_le(image@, REGION_TABLE_2_OFFSET + 8)
            },
    {
        let file_type_identifier = FileTypeIdentifier::read(image)?;
        let header_1 = Header::read(image, HEADER_1_OFFSET)?;
        let header_2 = Header::read(image, HEADER_2_OFFSET)?;
        let region_table_1 = RegionTable::read(image, REGION_TABLE_1_OFFSET)?;
        let region_table_2 = RegionTable::read(image, REGION_TABLE_2_OFFSET)?;
        Ok(Self { file_type_identifier, header_1, header_2, region_table_1, region_table_2 })
    }

    /// The header with the larger sequence number; the second on a tie.
    pub open spec fn current(self) -> Header {
        current_of(self.header_1, self.header_2)
    }

    pub fn current_header(&self) -> (r: &Header)
        ensures
            *r == self.current(),
    {
        if self.header_1.sequence_number > self.header_2.sequence_number {
            &self.header_1
        } else {
            &self.header_2
        }
    }
}

} // verus!
