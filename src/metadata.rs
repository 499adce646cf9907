//! The metadata region: its table of entries and the items that it registers.
use vstd::prelude::*;

use crate::bytes::{in_bounds, index_of, read_u16, read_u32, read_u64, u16_le, u32_le, u64_le};
use crate::guid::Guid;
use crate::Error;

verus! {

/// "metadata", read as a little-endian `u64`.
pub const METADATA_TABLE_SIGNATURE: u64 = 0x6174_6164_6174_656d;

/// The largest number of entries that a metadata table may hold.
pub const MAX_TABLE_ENTRIES: u64 = 2047;

/// The metadata items that this reader decodes.
#[derive(Debug, Clone, Copy, PartialEq, Eq, Structural)]
pub enum MetadataKind {
    FileParameters,
    VirtualDiskSize,
    VirtualDiskId,
    LogicalSectorSize,
    PhysicalSectorSize,
    ParentLocator,
}

impl MetadataKind {
    /// Whether `g` is the item identifier of this kind.
    pub open spec fn identifies(self, g: Guid) -> bool {
        match self {
            MetadataKind::FileParameters => g.has_fields(
                0xCAA16737,
                0xFA36,
                0x4D43,
                seq![0xB3u8, 0xB6, 0x33, 0xF0, 0xAA, 0x44, 0xE7, 0x6B],
            ),
            MetadataKind::VirtualDiskSize => g.has_fields(
                0x2FA54224,
                0xCD1B,
                0x4876,
                seq![0xB2u8, 0x11, 0x5D, 0xBE, 0xD8, 0x3B, 0xF4, 0xB8],
            ),
            MetadataKind::VirtualDiskId => g.has_fields(
                0xBECA12AB,
                0xB2E6,
                0x4523,
                seq![0x93u8, 0xEF, 0xC3, 0x09, 0xE0, 0x00, 0xC7, 0x46],
            ),
            MetadataKind::LogicalSectorSize => g.has_fields(
                0x8141BF1D,
                0xA96F,
                0x4709,
                seq![0xBAu8, 0x47, 0xF2, 0x33, 0xA8, 0xFA, 0xAB, 0x5F],
            ),
            MetadataKind::PhysicalSectorSize => g.has_fields(
                0xCDA348C7,
                0x445D,
                0x4471,
                seq![0x9Cu8, 0xC9, 0xE9, 0x88, 0x52, 0x51, 0xC5, 0x56],
            ),
            MetadataKind::ParentLocator => g.has_fields(
                0xA8D35F2D,
                0xB30B,
                0x454D,
                seq![0xABu8, 0xF7, 0xD3, 0xD8, 0x48, 0x34, 0xAB, 0x0C],
            ),
        }
    }

    /// The item identifier of this kind.
    pub fn guid(self) -> (r: Guid)
        ensures
            self.identifies(r),
    {
        let r = match self {
            MetadataKind::FileParameters => Guid::new(
                0xCAA16737,
                0xFA36,
                0x4D43,
                [0xB3, 0xB6, 0x33, 0xF0, 0xAA, 0x44, 0xE7, 0x6B],
            ),
            MetadataKind::VirtualDiskSize => Guid::new(
                0x2FA54224,
                0xCD1B,
                0x4876,
                [0xB2, 0x11, 0x5D, 0xBE, 0xD8, 0x3B, 0xF4, 0xB8],
            ),
            MetadataKind::VirtualDiskId => Guid::new(
                0xBECA12AB,
                0xB2E6,
                0x4523,
                [0x93, 0xEF, 0xC3, 0x09, 0xE0, 0x00, 0xC7, 0x46],
            ),
            MetadataKind::LogicalSectorSize => Guid::new(
                0x8141BF1D,
                0xA96F,
                0x4709,
                [0xBA, 0x47, 0xF2, 0x33, 0xA8, 0xFA, 0xAB, 0x5F],
            ),
            MetadataKind::PhysicalSectorSize => Guid::new(
                0xCDA348C7,
                0x445D,
                0x4471,
                [0x9C, 0xC9, 0xE9, 0x88, 0x52, 0x51, 0xC5, 0x56],
            ),
            MetadataKind::ParentLocator => Guid::new(
                0xA8D35F2D,
                0xB30B,
                0x454D,
                [0xAB, 0xF7, 0xD3, 0xD8, 0x48, 0x34, 0xAB, 0x0C],
            ),
        };
        r
    }
}

/// Whether `g` is the locator type that a parent locator must carry.
pub open spec fn is_parent_locator_type(g: Guid) -> bool {
    g.has_fields(0xB04AEFB7, 0xD19E, 0x4A81, seq![0xB7u8, 0x89, 0x25, 0xB8, 0xE9, 0x44, 0x59, 0x13])
}

pub fn parent_locator_type() -> (r: Guid)
    ensures
        is_parent_locator_type(r),
{
    let r = Guid::new(0xB04AEFB7, 0xD19E, 0x4A81, [0xB7, 0x89, 0x25, 0xB8, 0xE9, 0x44, 0x59, 0x13]);
    assert(r.data_4@ =~= seq![0xB7u8, 0x89, 0x25, 0xB8, 0xE9, 0x44, 0x59, 0x13]);
    r
}

/// Whether a sector size is one that the format allows.
pub open spec fn is_sector_size(v: u32) -> bool {
    v == 512 || v == 4096
}

#[derive(Debug, Clone, Copy)]
pub struct FileParameters {
    pub block_size: u32,
    pub leave_block_allocated: bool,
    pub has_parent: bool,
}

impl FileParameters {
    pub open spec fn decodes(self, s: Seq<u8>, pos: int) -> bool {
        &&& self.block_size == u32_le(s, pos)
        &&& self.leave_block_allocated == ((s[pos + 4] >> 7u8) & 1u8 == 1u8)
        &&& self.has_parent == ((s[pos + 4] >> 6u8) & 1u8 == 1u8)
    }

    /// Decodes the 8-byte item at file offset `pos`.
    pub fn read(image: &[u8], pos: u64) -> (r: Result<Self, Error>)
        ensures
            r is Ok <==> in_bounds(image@, pos as int, 8),
            r matches Ok(x) ==> x.decodes(image@, pos as int),
            r is Err ==> r == Err::<Self, Error>(Error::Io),
    {
        let p = match index_of(image, pos, 8) {
            Some(p) => p,
            None => return Err(Error::Io),
        };
        let flags = image[p + 4];
        Ok(Self {
            block_size: read_u32(image, p),
            leave_block_allocated: (flags >> 7u8) & 1u8 == 1u8,
            has_parent: (flags >> 6u8) & 1u8 == 1u8,
        })
    }

    pub fn block_size(&self) -> (r: u32)
        ensures
            r == self.block_size,
    {
        self.block_size
    }
}

#[derive(Debug, Clone, Copy)]
pub struct VirtualDiskSize {
    pub virtual_disk_size: u64,
}

impl VirtualDiskSize {
    /// Decodes the 8-byte item at file offset `pos`.
    pub fn read(image: &[u8], pos: u64) -> (r: Result<Self, Error>)
        ensures
            r is Ok <==> in_bounds(image@, pos as int, 8),
            r matches Ok(x) ==> x.virtual_disk_size == u64_le(image@, pos as int),
            r is Err ==> r == Err::<Self, Error>(Error::Io),
    {
        let p = match index_of(image, pos, 8) {
            Some(p) => p,
            None => return Err(Error::Io),
        };
        Ok(Self { virtual_disk_size: read_u64(image, p) })
    }

    pub fn virtual_disk_size(&self) -> (r: u64)
        ensures
            r == self.virtual_disk_size,
    {
        self.virtual_disk_size
    }
}

#[derive(Debug, Clone, Copy)]
pub struct VirtualDiskId {
    pub virtual_disk_id: Guid,
}

impl VirtualDiskId {
    /// Decodes the 16-byte item at file offset `pos`.
    pub fn read(image: &[u8], pos: u64) -> (r: Result<Self, Error>)
        ensures
            r is Ok <==> in_bounds(image@, pos as int, 16),
            r matches Ok(x) ==> x.virtual_disk_id.decodes(
                image@.subrange(pos as int, pos + 16),
            ),
            r is Err ==> r == Err::<Self, Error>(Error::Io),
    {
        let p = match index_of(image, pos, 16) {
            Some(p) => p,
            None => return Err(Error::Io),
        };
        Ok(Self { virtual_disk_id: Guid::read(image, p) })
    }

    pub fn virtual_disk_id(&self) -> (r: Guid)
        ensures
            r == self.virtual_disk_id,
    {
        self.virtual_disk_id
    }
}

#[derive(Debug, Clone, Copy)]
pub struct LogicalSectorSize {
    pub logical_sector_size: u32,
}

impl LogicalSectorSize {
    /// Decodes the 4-byte item at file offset `pos`; the size must be 512 or 4096.
    pub fn read(image: &[u8], pos: u64) -> (r: Result<Self, Error>)
        ensures
            !in_bounds(image@, pos as int, 4) ==> r == Err::<Self, Error>(Error::Io),
            in_bounds(image@, pos as int, 4) ==> {
                &&& r is Ok <==> is_sector_size(u32_le(image@, pos as int))
                &&& r matches Ok(x) ==> x.logical_sector_size == u32_le(image@, pos as int)
                &&& r is Err ==> r == Err::<Self, Error>(Error::BadFormat)
            },
    {
        let p = match index_of(image, pos, 4) {
            Some(p) => p,
            None => return Err(Error::Io),
        };
        let v = read_u32(image, p);
        if v != 512 && v != 4096 {
            return Err(Error::BadFormat);
        }
        Ok(Self { logical_sector_size: v })
    }

    pub fn logical_sector_size(&self) -> (r: u32)
        ensures
            r == self.logical_sector_size,
    {
        self.logical_sector_size
    }
}

#[derive(Debug, Clone, Copy)]
pub struct PhysicalSectorSize {
    pub physical_sector_size: u32,
}

impl PhysicalSectorSize {
    /// Decodes the 4-byte item at file offset `pos`; the size must be 512 or 4096.
    pub fn read(image: &[u8], pos: u64) -> (r: Result<Self, Error>)
        ensures
            !in_bounds(image@, pos as int, 4) ==> r == Err::<Self, Error>(Error::Io),
            in_bounds(image@, pos as int, 4) ==> {
                &&& r is Ok <==> is_sector_size(u32_le(image@, pos as int))
                &&& r matches Ok(x) ==> x.physical_sector_size == u32_le(image@, pos as int)
                &&& r is Err ==> r == Err::<Self, Error>(Error::BadFormat)
            },
    {
        let p = match index_of(image, pos, 4) {
            Some(p) => p,
            None => return Err(Error::Io),
        };
        let v = read_u32(image, p);
        if v != 512 && v != 4096 {
            return Err(Error::BadFormat);
        }
        Ok(Self { physical_sector_size: v })
    }

    pub fn physical_sector_size(&self) -> (r: u32)
        ensures
            r == self.physical_sector_size,
    {
        self.physical_sector_size
    }
}

#[derive(Debug, Clone, Copy)]
pub struct ParentLocator {
    pub locator_type: Guid,
    pub key_value_count: u16,
}

impl ParentLocator {
    /// Decodes the 20-byte head of the item at file offset `pos`: the locator
    /// type, which must be the one of this format, and the key/value count.
    pub fn read(image: &[u8], pos: u64) -> (r: Result<Self, Error>)
        ensures
            !in_bounds(image@, pos as int, 20) ==> r == Err::<Self, Error>(Error::Io),
            in_bounds(image@, pos as int, 20) ==> {
                &&& r is Ok <==> exists|g: Guid|
                    g.decodes(image@.subrange(pos as int, pos + 16)) && is_parent_locator_type(g)
                &&& r matches Ok(x) ==> x.locator_type.decodes(
                    image@.subrange(pos as int, pos + 16),
                ) && x.key_value_count == u16_le(image@, pos + 18)
                &&& r is Err ==> r == Err::<Self, Error>(Error::BadFormat)
            },
    {
        let p = match index_of(image, pos, 20) {
            Some(p) => p,
            None => return Err(Error::Io),
        };
        let locator_type = Guid::read(image, p);
        let expected = parent_locator_type();
        if locator_type != expected {
            proof {
                assert forall|g: Guid|
                    g.decodes(image@.subrange(pos as int, pos + 16)) implies !is_parent_locator_type(
                    g,
                ) by {
                    assert(g.data_4@ == locator_type.data_4@);
                }
            }
            return Err(Error::BadFormat);
        }
        Ok(Self { locator_type, key_value_count: read_u16(image, p + 18) })
    }
}

/// One 32-byte entry of the metadata table.
#[derive(Debug, Clone, Copy)]
pub struct MetadataTableEntry {
    pub item_id: Guid,
    /// Offset of the item from the start of the metadata region.
    pub offset: u32,
    pub length: u32,
    pub is_user: bool,
    pub is_virtual_disk: bool,
    pub is_required: bool,
    pub is_empty: bool,
}

/// Whether an item's offset and length are allowed: at most 1 MiB long, and
/// an empty item at offset 0, any other at 64 KiB or beyond.
pub open spec fn is_well_placed(offset: u32, length: u32) -> bool {
    &&& length <= 0x10_0000
    &&& if length == 0 {
        offset == 0
    } else {
        offset >= 0x1_0000
    }
}

impl MetadataTableEntry {
    pub open spec fn decodes(self, s: Seq<u8>, pos: int) -> bool {
        &&& self.item_id.decodes(s.subrange(pos, pos + 16))
        &&& self.offset == u32_le(s, pos + 16)
        &&& self.length == u32_le(s, pos + 20)
        &&& self.is_user == (s[pos + 24] & 1u8 == 1u8)
        &&& self.is_virtual_disk == ((s[pos + 24] >> 1u8) & 1u8 == 1u8)
        &&& self.is_required == ((s[pos + 24] >> 2u8) & 1u8 == 1u8)
        &&& self.is_empty == (self.length == 0)
    }

    /// Whether this entry registers a non-empty item of `kind`.
    pub open spec fn holds(self, kind: MetadataKind) -> bool {
        kind.identifies(self.item_id) && !self.is_empty
    }

    pub open spec fn is_readable(s: Seq<u8>, pos: int) -> bool {
        in_bounds(s, pos, 32) && is_well_placed(u32_le(s, pos + 16), u32_le(s, pos + 20))
    }

    /// Decodes the entry at file offset `pos`.
    pub fn read(image: &[u8], pos: u64) -> (r: Result<Self, Error>)
        ensures
            !in_bounds(image@, pos as int, 32) ==> r == Err::<Self, Error>(Error::Io),
            in_bounds(image@, pos as int, 32) ==> {
                &&& r is Ok <==> is_well_placed(
                    u32_le(image@, pos + 16),
                    u32_le(image@, pos + 20),
                )
                &&& r matches Ok(e) ==> e.decodes(image@, pos as int)
                &&& r is Err ==> r == Err::<Self, Error>(Error::BadFormat)
            },
    {
        let p = match index_of(image, pos, 32) {
            Some(p) => p,
            None => return Err(Error::Io),
        };
        let item_id = Guid::read(image, p);
        let offset = read_u32(image, p + 16);
        let length = read_u32(image, p + 20);
        let flags = image[p + 24];
        if length > 0x10_0000 {
            return Err(Error::BadFormat);
        }
        if length == 0 && offset != 0 {
            return Err(Error::BadFormat);
        }
        if length != 0 && offset < 0x1_0000 {
            return Err(Error::BadFormat);
        }
        Ok(Self {
            item_id,
            offset,
            length,
            is_user: flags & 1u8 == 1u8,
            is_virtual_disk: (flags >> 1u8) & 1u8 == 1u8,
            is_required: (flags >> 2u8) & 1u8 == 1u8,
            is_empty: length == 0,
        })
    }
}

/// The metadata table: a 32-byte header and its entries.
#[derive(Debug)]
pub struct MetadataTable {
    pub entries: Vec<MetadataTableEntry>,
}

impl MetadataTable {
    /// The entries are those of the table at file offset `pos`.
    pub open spec fn decoded_at(self, s: Seq<u8>, pos: int) -> bool {
        &&& self.entries@.len() == u16_le(s, pos + 10)
        &&& forall|i: int|
            0 <= i < self.entries@.len() ==> #[trigger] self.entries@[i].decodes(
                s,
                pos + 32 + 32 * i,
            )
    }

    /// Whether entry `i` is the first that registers a non-empty item of `kind`.
    pub open spec fn is_first(self, kind: MetadataKind, i: int) -> bool {
        &&& 0 <= i < self.entries@.len()
        &&& self.entries@[i].holds(kind)
        &&& forall|j: int| 0 <= j < i ==> !(#[trigger] self.entries@[j]).holds(kind)
    }

    /// The index of the entry that the item of `kind` is read through, if any.
    pub open spec fn located(self, kind: MetadataKind) -> Option<int> {
        if exists|i: int| self.is_first(kind, i) {
            Some(choose|i: int| self.is_first(kind, i))
        } else {
            None
        }
    }

    /// The file offset of the item of `kind`, for a region at `base`.
    pub open spec fn item_pos(self, kind: MetadataKind, base: int) -> int {
        base + self.entries@[self.located(kind)->0].offset
    }

    /// The header is in the image with its signature and at most 2047
    /// entries, and every entry is in the image and well placed.
    pub open spec fn is_readable(s: Seq<u8>, pos: int) -> bool {
        &&& in_bounds(s, pos, 32)
        &&& u64_le(s, pos) == METADATA_TABLE_SIGNATURE
        &&& u16_le(s, pos + 10) <= MAX_TABLE_ENTRIES
        &&& forall|i: int|
            0 <= i < u16_le(s, pos + 10) ==> #[trigger] MetadataTableEntry::is_readable(
                s,
                pos + 32 + 32 * i,
            )
    }

    /// Decodes the table at file offset `pos`.
    pub fn read(image: &[u8], pos: u64) -> (r: Result<Self, Error>)
        ensures
            r is Ok <==> Self::is_readable(image@, pos as int),
            !in_bounds(image@, pos as int, 32) ==> r == Err::<Self, Error>(Error::Io),
            in_bounds(image@, pos as int, 32) && u64_le(image@, pos as int)
                != METADATA_TABLE_SIGNATURE ==> r == Err::<Self, Error>(Error::InvalidSignature),
            in_bounds(image@, pos as int, 32) && u64_le(image@, pos as int)
                == METADATA_TABLE_SIGNATURE && u16_le(image@, pos + 10) > MAX_TABLE_ENTRIES
                ==> r == Err::<Self, Error>(Error::BadFormat),
            r matches Ok(t) ==> {
                &&& in_bounds(image@, pos as int, 32)
                &&& u64_le(image@, pos as int) == METADATA_TABLE_SIGNATURE
                &&& t.entries@.len() == u16_le(image@, pos + 10)
                &&& t.entries@.len() <= MAX_TABLE_ENTRIES
                &&& forall|i: int|
                    0 <= i < t.entries@.len() ==> #[trigger] t.entries@[i].decodes(
                        image@,
                        pos + 32 + 32 * i,
                    )
            },
            r is Err ==> r == Err::<Self, Error>(Error::Io) || r == Err::<Self, Error>(
                Error::InvalidSignature,
            ) || r == Err::<Self, Error>(Error::BadFormat),
    {
        let p = match index_of(image, pos, 32) {
            Some(p) => p,
            None => return Err(Error::Io),
        };
        if read_u64(image, p) != METADATA_TABLE_SIGNATURE {
            return Err(Error::InvalidSignature);
        }
        let count = read_u16(image, p + 10) as u64;
        if count > MAX_TABLE_ENTRIES {
            return Err(Error::BadFormat);
        }
        let n = image.len();
        let mut entries: Vec<MetadataTableEntry> = Vec::new();
        let mut i: u64 = 0;
        while i < count
            invariant
                i <= count,
                count <= MAX_TABLE_ENTRIES,
                in_bounds(image@, pos as int, 32),
                u64_le(image@, pos as int) == METADATA_TABLE_SIGNATURE,
                count == u16_le(image@, pos + 10),
                n == image@.len(),
                forall|j: int|
                    0 <= j < i ==> #[trigger] MetadataTableEntry::is_readable(
                        image@,
                        pos + 32 + 32 * j,
                    ),
                entries@.len() == i,
                forall|j: int|
                    0 <= j < i ==> #[trigger] entries@[j].decodes(image@, pos + 32 + 32 * j),
            decreases count - i,
        {
            if pos > u64::MAX - 32 - 32 * i - 32 {
                assert(!MetadataTableEntry::is_readable(image@, pos + 32 + 32 * i));
                return Err(Error::Io);
            }
            let e = match MetadataTableEntry::read(image, pos + 32 + 32 * i) {
                Ok(e) => e,
                Err(err) => {
                    assert(!MetadataTableEntry::is_readable(image@, pos + 32 + 32 * i));
                    return Err(err);
                },
            };
            entries.push(e);
            assert(entries@[i as int].decodes(image@, pos + 32 + 32 * i));
            i += 1;
        }
        Ok(Self { entries })
    }

    /// The index of the first entry that registers a non-empty item of `kind`.
    pub fn find(&self, kind: MetadataKind) -> (r: Option<usize>)
        ensures
            r matches Some(i) ==> self.located(kind) == Some(i as int),
            r is None ==> self.located(kind) is None,
    {
        let guid = kind.guid();
        let mut i: usize = 0;
        while i < self.entries.len()
            invariant
                i <= self.entries@.len(),
                kind.identifies(guid),
                forall|j: int| 0 <= j < i ==> !(#[trigger] self.entries@[j]).holds(kind),
            decreases self.entries@.len() - i,
        {
            let e = &self.entries[i];
            if e.item_id == guid && !e.is_empty {
                proof {
                    assert(e.item_id.data_4@ =~= guid.data_4@);
                    assert(self.is_first(kind, i as int));
                    let k = choose|k: int| self.is_first(kind, k);
                    assert(k == i) by {
                        if k < i {
                            assert(!self.entries@[k].holds(kind));
                        } else if k > i {
                            assert(!self.entries@[i as int].holds(kind));
                        }
                    }
                }
                return Some(i);
            }
            proof {
                if e.holds(kind) {
                    assert(e.item_id.data_4@ =~= guid.data_4@);
                }
            }
            i += 1;
        }
        None
    }

    /// The file offset of the item of `kind` for a region at `base`, if the
    /// table registers one; an offset past `u64::MAX` cannot be in the file.
    fn locate(&self, kind: MetadataKind, base: u64) -> (r: Result<Option<u64>, Error>)
        ensures
            self.located(kind) is None ==> r == Ok::<Option<u64>, Error>(None),
            self.located(kind) is Some ==> {
                &&& r matches Ok(Some(p)) ==> p == self.item_pos(kind, base as int)
                &&& r is Ok ==> r->Ok_0 is Some
                &&& r is Err ==> r == Err::<Option<u64>, Error>(Error::Io) && self.item_pos(
                    kind,
                    base as int,
                ) > u64::MAX
            },
    {
        match self.find(kind) {
            None => Ok(None),
            Some(i) => {
                let offset = self.entries[i].offset as u64;
                if base > u64::MAX - offset {
                    Err(Error::Io)
                } else {
                    Ok(Some(base + offset))
                }
            },
        }
    }
}

/// The metadata items of a disk.
#[derive(Debug)]
pub struct Metadata {
    pub file_parameters: FileParameters,
    pub virtual_disk_size: VirtualDiskSize,
    pub virtual_disk_id: VirtualDiskId,
    pub logical_sector_size: LogicalSectorSize,
    pub physical_sector_size: PhysicalSectorSize,
    pub parent_locator: Option<ParentLocator>,
}

/// Whether the table registers the five items that every disk must have.
pub open spec fn has_mandatory_items(t: MetadataTable) -> bool {
    &&& t.located(MetadataKind::FileParameters) is Some
    &&& t.located(MetadataKind::VirtualDiskSize) is Some
    &&& t.located(MetadataKind::VirtualDiskId) is Some
    &&& t.located(MetadataKind::LogicalSectorSize) is Some
    &&& t.located(MetadataKind::PhysicalSectorSize) is Some
}

/// The item of `kind` lies in the image: `size` bytes from its position.
pub open spec fn item_in_image(
    s: Seq<u8>,
    t: MetadataTable,
    kind: MetadataKind,
    base: int,
    size: int,
) -> bool {
    in_bounds(s, t.item_pos(kind, base), size)
}

impl Metadata {
    /// The items are those that table `t` registers for a region at `base`.
    pub open spec fn decoded_from(self, s: Seq<u8>, t: MetadataTable, base: int) -> bool {
        let m = self;
        &&& has_mandatory_items(t)
        &&& m.file_parameters.decodes(
            s,
            t.item_pos(MetadataKind::FileParameters, base),
        )
        &&& m.virtual_disk_size.virtual_disk_size == u64_le(
            s,
            t.item_pos(MetadataKind::VirtualDiskSize, base),
        )
        &&& m.virtual_disk_id.virtual_disk_id.decodes(
            s.subrange(
                t.item_pos(MetadataKind::VirtualDiskId, base),
                t.item_pos(MetadataKind::VirtualDiskId, base) + 16,
            ),
        )
        &&& m.logical_sector_size.logical_sector_size == u32_le(
            s,
            t.item_pos(MetadataKind::LogicalSectorSize, base),
        )
        &&& is_sector_size(m.logical_sector_size.logical_sector_size)
        &&& m.physical_sector_size.physical_sector_size == u32_le(
            s,
            t.item_pos(MetadataKind::PhysicalSectorSize, base),
        )
        &&& is_sector_size(m.physical_sector_size.physical_sector_size)
        &&& (m.parent_locator is Some <==> t.located(MetadataKind::ParentLocator) is Some)
        &&& m.parent_locator matches Some(l) ==> l.key_value_count == u16_le(
            s,
            t.item_pos(MetadataKind::ParentLocator, base) + 18,
        ) && is_parent_locator_type(l.locator_type)
    }

    /// The five mandatory items are registered and lie in the image, both
    /// sector sizes are allowed, and a registered parent locator lies in the
    /// image with the right locator type.
    pub open spec fn is_readable(s: Seq<u8>, t: MetadataTable, base: int) -> bool {
        &&& has_mandatory_items(t)
        &&& item_in_image(s, t, MetadataKind::FileParameters, base, 8)
        &&& item_in_image(s, t, MetadataKind::VirtualDiskSize, base, 8)
        &&& item_in_image(s, t, MetadataKind::VirtualDiskId, base, 16)
        &&& item_in_image(s, t, MetadataKind::LogicalSectorSize, base, 4)
        &&& is_sector_size(u32_le(s, t.item_pos(MetadataKind::LogicalSectorSize, base)))
        &&& item_in_image(s, t, MetadataKind::PhysicalSectorSize, base, 4)
        &&& is_sector_size(u32_le(s, t.item_pos(MetadataKind::PhysicalSectorSize, base)))
        &&& t.located(MetadataKind::ParentLocator) is Some ==> {
            let p = t.item_pos(MetadataKind::ParentLocator, base);
            &&& in_bounds(s, p, 20)
            &&& exists|g: Guid| g.decodes(s.subrange(p, p + 16)) && is_parent_locator_type(g)
        }
    }

    /// Reads the items that `table` registers, for a metadata region at file
    /// offset `base`. The five mandatory items must be present.
    pub fn from_table(image: &[u8], table: &MetadataTable, base: u64) -> (r: Result<Self, Error>)
        ensures
            !has_mandatory_items(*table) ==> r == Err::<Self, Error>(Error::BadFormat),
            r is Ok <==> Self::is_readable(image@, *table, base as int),
            r matches Ok(m) ==> m.decoded_from(image@, *table, base as int),
            r is Err ==> r == Err::<Self, Error>(Error::Io) || r == Err::<Self, Error>(
                Error::BadFormat,
            ),
    {
        if table.find(MetadataKind::FileParameters).is_none() || table.find(
            MetadataKind::VirtualDiskSize,
        ).is_none() || table.find(MetadataKind::VirtualDiskId).is_none() || table.find(
            MetadataKind::LogicalSectorSize,
        ).is_none() || table.find(MetadataKind::PhysicalSectorSize).is_none() {
            return Err(Error::BadFormat);
        }
        let image_len = image.len();
        assert(image@.len() == image_len);
        let file_parameters = match table.locate(MetadataKind::FileParameters, base)? {
            Some(p) => FileParameters::read(image, p)?,
            None => return Err(Error::BadFormat),
        };
        let virtual_disk_size = match table.locate(MetadataKind::VirtualDiskSize, base)? {
            Some(p) => VirtualDiskSize::read(image, p)?,
            None => return Err(Error::BadFormat),
        };
        let virtual_disk_id = match table.locate(MetadataKind::VirtualDiskId, base)? {
            Some(p) => VirtualDiskId::read(image, p)?,
            None => return Err(Error::BadFormat),
        };
        let logical_sector_size = match table.locate(MetadataKind::LogicalSectorSize, base)? {
            Some(p) => LogicalSectorSize::read(image, p)?,
            None => return Err(Error::BadFormat),
        };
        let physical_sector_size = match table.locate(MetadataKind::PhysicalSectorSize, base)? {
            Some(p) => PhysicalSectorSize::read(image, p)?,
            None => return Err(Error::BadFormat),
        };
        let parent_locator = match table.locate(MetadataKind::ParentLocator, base)? {
            Some(p) => Some(ParentLocator::read(image, p)?),
            None => None,
        };
        Ok(Self {
            file_parameters,
            virtual_disk_size,
            virtual_disk_id,
            logical_sector_size,
            physical_sector_size,
            parent_locator,
        })
    }
}

} // verus!
