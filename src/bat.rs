//! The block allocation table: one entry per payload block of the virtual disk.
use vstd::prelude::*;
use vstd::arithmetic::div_mod::{lemma_div_is_ordered, lemma_fundamental_div_mod};

use crate::bytes::{fits, read_u64, u64_le};
use crate::{Error, Feature};

verus! {

/// The state of a payload block, from the low three bits of its entry.
#[derive(Debug, Clone, Copy, PartialEq, Eq, Structural)]
pub enum PayloadBatEntryState {
    NotPresent,
    Undefined,
    Zero,
    Unmapped,
    FullyPresent,
    PartiallyPresent,
}

/// The state that three bits encode, if any.
pub open spec fn state_of_bits(v: int) -> Option<PayloadBatEntryState> {
    if v == 0 {
        Some(PayloadBatEntryState::NotPresent)
    } else if v == 1 {
        Some(PayloadBatEntryState::Undefined)
    } else if v == 2 {
        Some(PayloadBatEntryState::Zero)
    } else if v == 3 {
        Some(PayloadBatEntryState::Unmapped)
    } else if v == 6 {
        Some(PayloadBatEntryState::FullyPresent)
    } else if v == 7 {
        Some(PayloadBatEntryState::PartiallyPresent)
    } else {
        None
    }
}

/// The mask of the file offset within a raw entry: bits 20 to 63.
pub const FILE_OFFSET_MASK: u64 = 0xFFFF_FFFF_FFF0_0000;

impl PayloadBatEntryState {
    /// Whether a block in this state reads as zeros.
    pub open spec fn reads_as_zero(self) -> bool {
        match self {
            PayloadBatEntryState::NotPresent => true,
            PayloadBatEntryState::Undefined => true,
            PayloadBatEntryState::Zero => true,
            PayloadBatEntryState::Unmapped => true,
            _ => false,
        }
    }

    pub fn from_bits(value: u8) -> (r: Result<Self, Error>)
        ensures
            r is Ok <==> state_of_bits(value as int) is Some,
            r matches Ok(s) ==> state_of_bits(value as int) == Some(s),
            r is Err ==> r == Err::<Self, Error>(Error::BadFormat),
    {
        match value {
            0 => Ok(PayloadBatEntryState::NotPresent),
            1 => Ok(PayloadBatEntryState::Undefined),
            2 => Ok(PayloadBatEntryState::Zero),
            3 => Ok(PayloadBatEntryState::Unmapped),
            6 => Ok(PayloadBatEntryState::FullyPresent),
            7 => Ok(PayloadBatEntryState::PartiallyPresent),
            _ => Err(Error::BadFormat),
        }
    }
}

/// One decoded entry of the table.
#[derive(Debug, Clone, Copy)]
pub struct BatEntry {
    pub state: PayloadBatEntryState,
    pub file_offset: u64,
}

impl BatEntry {
    /// Whether this entry is the decoding of the raw 64-bit value `raw`.
    pub open spec fn decodes(self, raw: u64) -> bool {
        &&& state_of_bits((raw & 7u64) as int) == Some(self.state)
        &&& self.file_offset == raw & FILE_OFFSET_MASK
    }

    /// Decodes a raw entry; unknown state bits are a format error.
    pub fn from_raw(raw: u64) -> (r: Result<Self, Error>)
        ensures
            r is Ok <==> state_of_bits((raw & 7u64) as int) is Some,
            r matches Ok(e) ==> e.decodes(raw),
            r is Err ==> r == Err::<Self, Error>(Error::BadFormat),
    {
        let bits = raw & 7u64;
        assert(bits < 8) by (bit_vector)
            requires
                bits == raw & 7u64,
        ;
        let state = PayloadBatEntryState::from_bits(bits as u8)?;
        Ok(Self { state, file_offset: raw & FILE_OFFSET_MASK })
    }

    pub fn file_offset(&self) -> (r: u64)
        ensures
            r == self.file_offset,
    {
        self.file_offset
    }

    pub fn state(&self) -> (r: PayloadBatEntryState)
        ensures
            r == self.state,
    {
        self.state
    }
}

/// Payload blocks per sector bitmap block: `(2^23 * L) / B`.
pub open spec fn chunk_ratio_of(logical_sector_size: int, block_size: int) -> int {
    (8388608 * logical_sector_size) / block_size
}

/// The number of blocks of size `b` that cover `v` bytes.
pub open spec fn ceil_div(v: int, b: int) -> int {
    (v + b - 1) / b
}

/// The number of sector bitmap entries interleaved among `p` payload entries.
pub open spec fn bitmap_blocks(p: int, chunk_ratio: int) -> int {
    if p == 0 {
        0
    } else {
        (p - 1) / chunk_ratio
    }
}

pub fn chunk_ratio(logical_sector_size: u32, block_size: u32) -> (r: u64)
    requires
        block_size > 0,
    ensures
        r == chunk_ratio_of(logical_sector_size as int, block_size as int),
{
    assert(8388608 * (logical_sector_size as int) <= 8388608 * 0xFFFF_FFFF) by (nonlinear_arith)
        requires
            logical_sector_size <= 0xFFFF_FFFFu32,
    ;
    8388608u64 * (logical_sector_size as u64) / (block_size as u64)
}

/// Division rounding up.
pub fn div_ceil(dividend: u64, divisor: u64) -> (r: u64)
    requires
        divisor > 0,
    ensures
        r == ceil_div(dividend as int, divisor as int),
{
    let d = dividend / divisor;
    let r = dividend % divisor;
    proof {
        let (x, b) = (dividend as int, divisor as int);
        lemma_fundamental_div_mod(x, b);
        assert(d <= x);
        if r > 0 {
            assert((x + b - 1) / b == x / b + 1) by (nonlinear_arith)
                requires
                    x == b * (x / b) + x % b,
                    0 < x % b < b,
            {
                assert(x + b - 1 == b * (x / b + 1) + (x % b - 1));
                vstd::arithmetic::div_mod::lemma_div_plus_one(x / b, b);
                vstd::arithmetic::div_mod::lemma_fundamental_div_mod_converse(
                    x + b - 1,
                    b,
                    x / b + 1,
                    x % b - 1,
                );
            }
        } else {
            vstd::arithmetic::div_mod::lemma_fundamental_div_mod_converse(
                x + b - 1,
                b,
                x / b,
                b - 1,
            );
        }
    }
    if r > 0 {
        assert(d < 0xFFFF_FFFF_FFFF_FFFFu64) by (nonlinear_arith)
            requires
                dividend == divisor * d + r,
                0 < r < divisor,
        ;
        d + 1
    } else {
        d
    }
}

/// The decoded block allocation table, with what is needed to map virtual offsets to it.
#[derive(Debug)]
pub struct Bat {
    pub block_size: u64,
    pub chunk_ratio: u64,
    pub virtual_disk_size: u64,
    pub entries: Vec<BatEntry>,
}

impl Bat {
    /// The number of payload blocks.
    pub open spec fn payload_blocks(self) -> int {
        ceil_div(self.virtual_disk_size as int, self.block_size as int)
    }

    pub open spec fn wf(self) -> bool {
        &&& self.block_size > 0
        &&& self.chunk_ratio > 0
        &&& self.entries@.len() == self.payload_blocks() + bitmap_blocks(
            self.payload_blocks(),
            self.chunk_ratio as int,
        )
    }

    /// The table slot of the block holding virtual offset `o`: payload blocks
    /// are followed, every `chunk_ratio` of them, by one sector bitmap slot.
    pub open spec fn bat_index(self, o: int) -> int {
        o / (self.block_size as int) + (o / (self.block_size as int)) / (self.chunk_ratio as int)
    }

    /// The table at `offset` can be decoded for a disk of `vds` bytes,
    /// `bs`-byte blocks and `lss`-byte sectors: the sizes give a chunk ratio,
    /// no sector bitmap is needed, and every entry is in the image with known
    /// state bits.
    pub open spec fn is_readable(s: Seq<u8>, offset: int, bs: u32, lss: u32, vds: u64) -> bool {
        let cr = chunk_ratio_of(lss as int, bs as int);
        let p = ceil_div(vds as int, bs as int);
        &&& bs > 0
        &&& cr > 0
        &&& bitmap_blocks(p, cr) == 0
        &&& crate::bytes::in_bounds(s, offset, 8 * p)
        &&& forall|i: int|
            0 <= i < p ==> #[trigger] state_of_bits((u64_le(s, offset + 8 * i) & 7u64) as int) is Some
    }

    /// Decodes the table at file offset `offset` for a disk of
    /// `virtual_disk_size` bytes, `block_size`-byte blocks and
    /// `logical_sector_size`-byte sectors.
    pub fn read(
        image: &[u8],
        offset: u64,
        block_size: u32,
        logical_sector_size: u32,
        virtual_disk_size: u64,
    ) -> (r: Result<Bat, Error>)
        ensures
            r is Ok <==> Self::is_readable(
                image@,
                offset as int,
                block_size,
                logical_sector_size,
                virtual_disk_size,
            ),
            block_size == 0 ==> r == Err::<Bat, Error>(Error::BadFormat),
            block_size > 0 && chunk_ratio_of(logical_sector_size as int, block_size as int) == 0
                ==> r == Err::<Bat, Error>(Error::BadFormat),
            r matches Ok(bat) ==> {
                &&& bat.wf()
                &&& bat.block_size == block_size
                &&& bat.chunk_ratio == chunk_ratio_of(
                    logical_sector_size as int,
                    block_size as int,
                )
                &&& bat.virtual_disk_size == virtual_disk_size
                &&& bitmap_blocks(bat.payload_blocks(), bat.chunk_ratio as int) == 0
                &&& forall|i: int|
                    0 <= i < bat.entries@.len() ==> #[trigger] bat.entries@[i].decodes(
                        u64_le(image@, offset + 8 * i),
                    )
            },
            block_size > 0 && chunk_ratio_of(logical_sector_size as int, block_size as int) > 0
                ==> {
                let cr = chunk_ratio_of(logical_sector_size as int, block_size as int);
                let p = ceil_div(virtual_disk_size as int, block_size as int);
                &&& bitmap_blocks(p, cr) != 0 ==> r == Err::<Bat, Error>(
                    Error::Unsupported(Feature::SectorBitmap),
                )
                &&& bitmap_blocks(p, cr) == 0 && !crate::bytes::in_bounds(
                    image@,
                    offset as int,
                    8 * p,
                ) ==> r == Err::<Bat, Error>(Error::Io)
                &&& bitmap_blocks(p, cr) == 0 && crate::bytes::in_bounds(
                    image@,
                    offset as int,
                    8 * p,
                ) ==> (r is Ok <==> forall|i: int|
                    0 <= i < p ==> #[trigger] state_of_bits(
                        (u64_le(image@, offset + 8 * i) & 7u64) as int,
                    ) is Some)
                &&& r is Err ==> r == Err::<Bat, Error>(Error::BadFormat) || r == Err::<
                    Bat,
                    Error,
                >(Error::Io) || r == Err::<Bat, Error>(Error::Unsupported(Feature::SectorBitmap))
            },
    {
        if block_size == 0 {
            return Err(Error::BadFormat);
        }
        let chunk_ratio = chunk_ratio(logical_sector_size, block_size);
        if chunk_ratio == 0 {
            return Err(Error::BadFormat);
        }
        let bs = block_size as u64;
        let payload_blocks = div_ceil(virtual_disk_size, bs);
        let bitmap = if payload_blocks == 0 {
            0
        } else {
            (payload_blocks - 1) / chunk_ratio
        };
        if bitmap != 0 {
            return Err(Error::Unsupported(Feature::SectorBitmap));
        }
        if payload_blocks > (image.len() as u64) / 8 {
            assert(8 * payload_blocks > image@.len()) by (nonlinear_arith)
                requires
                    payload_blocks > image@.len() / 8,
            ;
            return Err(Error::Io);
        }
        if !fits(image, offset, 8 * payload_blocks) {
            return Err(Error::Io);
        }
        let n = image.len();
        let mut entries: Vec<BatEntry> = Vec::new();
        let mut i: u64 = 0;
        while i < payload_blocks
            invariant
                n == image@.len(),
                payload_blocks == ceil_div(virtual_disk_size as int, block_size as int),
                bitmap_blocks(payload_blocks as int, chunk_ratio as int) == 0,
                chunk_ratio == chunk_ratio_of(logical_sector_size as int, block_size as int),
                chunk_ratio > 0,
                i <= payload_blocks,
                payload_blocks <= image@.len() / 8,
                offset + 8 * payload_blocks <= image@.len(),
                entries@.len() == i,
                forall|j: int|
                    0 <= j < i ==> #[trigger] entries@[j].decodes(u64_le(image@, offset + 8 * j)),
                forall|j: int|
                    0 <= j < i ==> #[trigger] state_of_bits(
                        (u64_le(image@, offset + 8 * j) & 7u64) as int,
                    ) is Some,
            decreases payload_blocks - i,
        {
            let raw = read_u64(image, (offset + 8 * i) as usize);
            match BatEntry::from_raw(raw) {
                Ok(e) => {
                    entries.push(e);
                    assert(entries@[i as int].decodes(u64_le(image@, offset + 8 * i)));
                },
                Err(e) => {
                    assert(!(state_of_bits((u64_le(image@, offset + 8 * i) & 7u64) as int) is Some));
                    return Err(e);
                },
            }
            i += 1;
        }
        Ok(Bat { block_size: bs, chunk_ratio, virtual_disk_size, entries })
    }

    /// The entry of the block that holds virtual offset `offset`, and the
    /// offset within that block.
    pub fn offset_to_entry(&self, offset: u64) -> (r: (&BatEntry, u64))
        requires
            self.wf(),
            offset < self.virtual_disk_size,
        ensures
            0 <= self.bat_index(offset as int) < self.entries@.len(),
            *r.0 == self.entries@[self.bat_index(offset as int)],
            r.1 == offset % self.block_size,
    {
        proof {
            lemma_offset_in_range(*self, offset as int);
        }
        let payload_block_index = offset / self.block_size;
        let sector_bitmap_blocks = payload_block_index / self.chunk_ratio;
        assert(payload_block_index + sector_bitmap_blocks == self.bat_index(offset as int));
        assert(self.entries@.len() == self.entries.len());
        let bat_index = payload_block_index + sector_bitmap_blocks;
        let entry = &self.entries[bat_index as usize];
        (entry, offset % self.block_size)
    }
}

/// Every virtual offset of the disk falls in a payload slot of the table, at
/// an offset within its block below the block size.
pub proof fn lemma_offset_in_range(bat: Bat, o: int)
    requires
        bat.wf(),
        0 <= o < bat.virtual_disk_size,
    ensures
        0 <= bat.bat_index(o) < bat.entries@.len(),
        0 <= o % (bat.block_size as int) < bat.block_size,
{
    let b = bat.block_size as int;
    let v = bat.virtual_disk_size as int;
    let cr = bat.chunk_ratio as int;
    let pbi = o / b;
    let p = bat.payload_blocks();
    lemma_fundamental_div_mod(o, b);
    lemma_fundamental_div_mod(v + b - 1, b);
    assert(pbi < p) by (nonlinear_arith)
        requires
            0 <= o < v,
            b > 0,
            pbi == o / b,
            p == (v + b - 1) / b,
            o == b * pbi + o % b,
            0 <= o % b < b,
            v + b - 1 == b * p + (v + b - 1) % b,
            0 <= (v + b - 1) % b < b,
    ;
    assert(pbi >= 0) by (nonlinear_arith)
        requires
            o >= 0,
            b > 0,
            pbi == o / b,
    ;
    lemma_div_is_ordered(pbi, p - 1, cr);
    assert(pbi / cr >= 0) by (nonlinear_arith)
        requires
            pbi >= 0,
            cr > 0,
    ;
}

} // verus!
