//! Log entries: a header, descriptors, and the data sectors that the descriptors carry.
use vstd::prelude::*;
use vstd::slice::{slice_subrange, slice_to_vec};

use crate::bytes::{in_bounds, index_of, read_u32, read_u64, u32_le, u64_le};
use crate::guid::Guid;
use crate::header::MB;
use crate::Error;

verus! {

/// "loge", read as a little-endian `u32`.
pub const LOG_ENTRY_SIGNATURE: u32 = 0x6567_6f6c;

/// "zero", read as a little-endian `u32`.
pub const ZERO_DESCRIPTOR_SIGNATURE: u32 = 0x6f72_657a;

/// "desc", read as a little-endian `u32`.
pub const DATA_DESCRIPTOR_SIGNATURE: u32 = 0x6373_6564;

/// "data", read as a little-endian `u32`.
pub const DATA_SECTOR_SIGNATURE: u32 = 0x6174_6164;

/// The size of a log sector.
pub const SECTOR: u64 = 4096;

/// The payload bytes of a data sector.
pub const SECTOR_PAYLOAD: usize = 4084;

/// `value` rounded up to a multiple of `m`.
pub open spec fn align_up(value: int, m: int) -> int {
    if value % m == 0 {
        value
    } else {
        value + (m - value % m)
    }
}

/// The smallest multiple of `rhs` that is not below `value`.
pub fn next_multiple_of(value: u64, rhs: u64) -> (r: u64)
    requires
        rhs > 0,
        align_up(value as int, rhs as int) <= u64::MAX,
    ensures
        r == align_up(value as int, rhs as int),
        r % rhs == 0,
        value <= r < value + rhs,
{
    let rem = value % rhs;
    proof {
        vstd::arithmetic::div_mod::lemma_fundamental_div_mod(value as int, rhs as int);
        if rem != 0 {
            assert((value + (rhs - rem)) % (rhs as int) == 0) by {
                assert(value + (rhs - rem) == (value as int / rhs as int + 1) * rhs + 0)
                    by (nonlinear_arith)
                    requires
                        value == rhs * (value as int / rhs as int) + rem,
                ;
                vstd::arithmetic::div_mod::lemma_fundamental_div_mod_converse(
                    value + (rhs - rem),
                    rhs as int,
                    value as int / rhs as int + 1,
                    0,
                );
            }
        }
    }
    if rem == 0 {
        value
    } else {
        value + (rhs - rem)
    }
}

/// The 64-byte header of a log entry.
#[derive(Debug, Clone, Copy)]
pub struct LogEntryHeader {
    pub entry_length: u32,
    pub tail: u32,
    pub sequence_number: u64,
    pub descriptor_count: u32,
    pub log_guid: Guid,
    pub flushed_file_offset: u64,
    pub last_file_offset: u64,
}

impl LogEntryHeader {
    pub open spec fn decodes(self, s: Seq<u8>, pos: int) -> bool {
        &&& u32_le(s, pos) == LOG_ENTRY_SIGNATURE
        &&& self.entry_length == u32_le(s, pos + 8)
        &&& self.tail == u32_le(s, pos + 12)
        &&& self.sequence_number == u64_le(s, pos + 16)
        &&& self.descriptor_count == u32_le(s, pos + 24)
        &&& self.log_guid.decodes(s.subrange(pos + 32, pos + 48))
        &&& self.flushed_file_offset == u64_le(s, pos + 48)
        &&& self.last_file_offset == u64_le(s, pos + 56)
    }

    /// Sector-aligned length and tail, a positive sequence number, and MiB-aligned offsets.
    pub open spec fn is_valid(self) -> bool {
        &&& self.entry_length % (SECTOR as u32) == 0
        &&& self.tail % (SECTOR as u32) == 0
        &&& self.sequence_number > 0
        &&& self.flushed_file_offset % MB == 0
        &&& self.last_file_offset % MB == 0
    }

    /// Decodes the header at file offset `pos`.
    pub fn read(image: &[u8], pos: u64) -> (r: Result<Self, Error>)
        ensures
            !in_bounds(image@, pos as int, 64) ==> r == Err::<Self, Error>(Error::Io),
            in_bounds(image@, pos as int, 64) ==> {
                &&& u32_le(image@, pos as int) != LOG_ENTRY_SIGNATURE ==> r == Err::<Self, Error>(
                    Error::InvalidSignature,
                )
                &&& r matches Ok(h) ==> h.decodes(image@, pos as int) && h.is_valid()
                &&& u32_le(image@, pos as int) == LOG_ENTRY_SIGNATURE ==> (r is Ok <==> exists|
                    h: LogEntryHeader,
                | h.decodes(image@, pos as int) && h.is_valid())
                &&& u32_le(image@, pos as int) == LOG_ENTRY_SIGNATURE && r is Err ==> r == Err::<
                    Self,
                    Error,
                >(Error::BadFormat)
            },
    {
        let p = match index_of(image, pos, 64) {
            Some(p) => p,
            None => return Err(Error::Io),
        };
        if read_u32(image, p) != LOG_ENTRY_SIGNATURE {
            return Err(Error::InvalidSignature);
        }
        let h = LogEntryHeader {
            entry_length: read_u32(image, p + 8),
            tail: read_u32(image, p + 12),
            sequence_number: read_u64(image, p + 16),
            descriptor_count: read_u32(image, p + 24),
            log_guid: Guid::read(image, p + 32),
            flushed_file_offset: read_u64(image, p + 48),
            last_file_offset: read_u64(image, p + 56),
        };
        if h.entry_length % (SECTOR as u32) != 0 || h.tail % (SECTOR as u32) != 0
            || h.sequence_number == 0 || h.flushed_file_offset % MB != 0 || h.last_file_offset % MB
            != 0 {
            proof {
                assert forall|g: LogEntryHeader| g.decodes(image@, pos as int) implies !g.is_valid() by {
                    assert(g.entry_length == h.entry_length);
                }
            }
            return Err(Error::BadFormat);
        }
        assert(h.decodes(image@, pos as int) && h.is_valid());
        Ok(h)
    }

    pub fn log_guid(&self) -> (r: Guid)
        ensures
            r == self.log_guid,
    {
        self.log_guid
    }
}

/// A descriptor that zeroes a range of the file.
#[derive(Debug, Clone, Copy)]
pub struct ZeroDescriptor {
    pub zero_length: u64,
    pub file_offset: u64,
    pub sequence_number: u64,
}

impl ZeroDescriptor {
    pub open spec fn decodes(self, s: Seq<u8>, pos: int) -> bool {
        &&& u32_le(s, pos) == ZERO_DESCRIPTOR_SIGNATURE
        &&& self.zero_length == u64_le(s, pos + 8)
        &&& self.file_offset == u64_le(s, pos + 16)
        &&& self.sequence_number == u64_le(s, pos + 24)
        &&& self.zero_length % SECTOR == 0
        &&& self.file_offset % SECTOR == 0
    }

    /// Decodes the descriptor at file offset `pos`.
    pub fn read(image: &[u8], pos: u64) -> (r: Result<Self, Error>)
        ensures
            !in_bounds(image@, pos as int, 32) ==> r == Err::<Self, Error>(Error::Io),
            in_bounds(image@, pos as int, 32) ==> {
                &&& u32_le(image@, pos as int) != ZERO_DESCRIPTOR_SIGNATURE ==> r == Err::<
                    Self,
                    Error,
                >(Error::InvalidSignature)
                &&& r matches Ok(d) ==> d.decodes(image@, pos as int)
                &&& u32_le(image@, pos as int) == ZERO_DESCRIPTOR_SIGNATURE ==> (r is Ok <==> (
                u64_le(image@, pos + 8) % SECTOR == 0 && u64_le(image@, pos + 16) % SECTOR == 0))
                &&& u32_le(image@, pos as int) == ZERO_DESCRIPTOR_SIGNATURE && r is Err ==> r
                    == Err::<Self, Error>(Error::BadFormat)
            },
    {
        let p = match index_of(image, pos, 32) {
            Some(p) => p,
            None => return Err(Error::Io),
        };
        if read_u32(image, p) != ZERO_DESCRIPTOR_SIGNATURE {
            return Err(Error::InvalidSignature);
        }
        let zero_length = read_u64(image, p + 8);
        let file_offset = read_u64(image, p + 16);
        let sequence_number = read_u64(image, p + 24);
        if zero_length % SECTOR != 0 || file_offset % SECTOR != 0 {
            return Err(Error::BadFormat);
        }
        Ok(Self { zero_length, file_offset, sequence_number })
    }

    pub fn zero_length(&self) -> (r: u64)
        ensures
            r == self.zero_length,
    {
        self.zero_length
    }

    pub fn file_offset(&self) -> (r: u64)
        ensures
            r == self.file_offset,
    {
        self.file_offset
    }

    pub fn sequence_number(&self) -> (r: u64)
        ensures
            r == self.sequence_number,
    {
        self.sequence_number
    }
}

/// A descriptor that writes one 4 KiB sector, whose first eight and last
/// four bytes it holds itself.
#[derive(Debug, Clone, Copy)]
pub struct DataDescriptor {
    pub trailing_bytes: [u8; 4],
    pub leading_bytes: [u8; 8],
    pub file_offset: u64,
    pub sequence_number: u64,
}

impl DataDescriptor {
    pub open spec fn decodes(self, s: Seq<u8>, pos: int) -> bool {
        &&& u32_le(s, pos) == DATA_DESCRIPTOR_SIGNATURE
        &&& self.trailing_bytes@ == s.subrange(pos + 4, pos + 8)
        &&& self.leading_bytes@ == s.subrange(pos + 8, pos + 16)
        &&& self.file_offset == u64_le(s, pos + 16)
        &&& self.sequence_number == u64_le(s, pos + 24)
        &&& self.file_offset % SECTOR == 0
    }

    /// Decodes the descriptor at file offset `pos`.
    pub fn read(image: &[u8], pos: u64) -> (r: Result<Self, Error>)
        ensures
            !in_bounds(image@, pos as int, 32) ==> r == Err::<Self, Error>(Error::Io),
            in_bounds(image@, pos as int, 32) ==> {
                &&& u32_le(image@, pos as int) != DATA_DESCRIPTOR_SIGNATURE ==> r == Err::<
                    Self,
                    Error,
                >(Error::InvalidSignature)
                &&& r matches Ok(d) ==> d.decodes(image@, pos as int)
                &&& u32_le(image@, pos as int) == DATA_DESCRIPTOR_SIGNATURE ==> (r is Ok <==> u64_le(
                    image@,
                    pos + 16,
                ) % SECTOR == 0)
                &&& u32_le(image@, pos as int) == DATA_DESCRIPTOR_SIGNATURE && r is Err ==> r
                    == Err::<Self, Error>(Error::BadFormat)
            },
    {
        let p = match index_of(image, pos, 32) {
            Some(p) => p,
            None => return Err(Error::Io),
        };
        if read_u32(image, p) != DATA_DESCRIPTOR_SIGNATURE {
            return Err(Error::InvalidSignature);
        }
        let trailing_bytes = [image[p + 4], image[p + 5], image[p + 6], image[p + 7]];
        let leading_bytes = [
            image[p + 8],
            image[p + 9],
            image[p + 10],
            image[p + 11],
            image[p + 12],
            image[p + 13],
            image[p + 14],
            image[p + 15],
        ];
        let file_offset = read_u64(image, p + 16);
        let sequence_number = read_u64(image, p + 24);
        if file_offset % SECTOR != 0 {
            return Err(Error::BadFormat);
        }
        assert(trailing_bytes@ =~= image@.subrange(pos + 4, pos + 8));
        assert(leading_bytes@ =~= image@.subrange(pos + 8, pos + 16));
        Ok(Self { trailing_bytes, leading_bytes, file_offset, sequence_number })
    }

    pub fn sequence_number(&self) -> (r: u64)
        ensures
            r == self.sequence_number,
    {
        self.sequence_number
    }

    pub fn file_offset(&self) -> (r: u64)
        ensures
            r == self.file_offset,
    {
        self.file_offset
    }

    pub fn trailing_bytes(&self) -> (r: [u8; 4])
        ensures
            r == self.trailing_bytes,
    {
        self.trailing_bytes
    }

    pub fn leading_bytes(&self) -> (r: [u8; 8])
        ensures
            r == self.leading_bytes,
    {
        self.leading_bytes
    }
}

#[derive(Debug, Clone, Copy)]
pub enum Descriptor {
    Zero(ZeroDescriptor),
    Data(DataDescriptor),
}

impl Descriptor {
    pub open spec fn decodes(self, s: Seq<u8>, pos: int) -> bool {
        match self {
            Descriptor::Zero(d) => d.decodes(s, pos),
            Descriptor::Data(d) => d.decodes(s, pos),
        }
    }

    pub open spec fn is_data(self) -> bool {
        self is Data
    }
}

/// The number of data descriptors in `d`.
pub open spec fn data_count(d: Seq<Descriptor>) -> nat
    decreases d.len(),
{
    if d.len() == 0 {
        0
    } else {
        data_count(d.drop_last()) + if d.last().is_data() {
            1nat
        } else {
            0
        }
    }
}

/// A prefix of `d` holds no more data descriptors than `d`, and one more
/// descriptor adds at most one.
pub proof fn lemma_data_count_prefix(d: Seq<Descriptor>, i: int)
    requires
        0 <= i <= d.len(),
    ensures
        data_count(d.subrange(0, i)) <= data_count(d),
        i < d.len() ==> data_count(d.subrange(0, i + 1)) == data_count(d.subrange(0, i)) + if d[i].is_data() {
            1nat
        } else {
            0
        },
    decreases d.len() - i,
{
    if i < d.len() {
        assert(d.subrange(0, i + 1).drop_last() =~= d.subrange(0, i));
        lemma_data_count_prefix(d, i + 1);
    } else {
        assert(d.subrange(0, i) =~= d);
    }
}

/// Two descriptor lists that agree on which descriptors carry data hold
/// the same number of data descriptors.
pub proof fn lemma_data_count_same(a: Seq<Descriptor>, b: Seq<Descriptor>)
    requires
        a.len() == b.len(),
        forall|j: int| 0 <= j < a.len() ==> (#[trigger] a[j]).is_data() == b[j].is_data(),
    ensures
        data_count(a) == data_count(b),
    decreases a.len(),
{
    if a.len() > 0 {
        lemma_data_count_same(a.drop_last(), b.drop_last());
    }
}

/// A 4 KiB sector that carries the middle 4084 bytes of a data descriptor's write.
#[derive(Debug)]
pub struct DataSector {
    pub sequence_high: u32,
    pub data: Vec<u8>,
    pub sequence_low: u32,
}

impl DataSector {
    pub open spec fn decodes(self, s: Seq<u8>, pos: int) -> bool {
        &&& u32_le(s, pos) == DATA_SECTOR_SIGNATURE
        &&& self.sequence_high == u32_le(s, pos + 4)
        &&& self.data@ == s.subrange(pos + 8, pos + 4092)
        &&& self.data@.len() == SECTOR_PAYLOAD
        &&& self.sequence_low == u32_le(s, pos + 4092)
    }

    /// Decodes the sector at file offset `pos`.
    pub fn read(image: &[u8], pos: u64) -> (r: Result<Self, Error>)
        ensures
            !in_bounds(image@, pos as int, 4096) ==> r == Err::<Self, Error>(Error::Io),
            in_bounds(image@, pos as int, 4096) ==> {
                &&& r is Ok <==> u32_le(image@, pos as int) == DATA_SECTOR_SIGNATURE
                &&& r matches Ok(d) ==> d.decodes(image@, pos as int)
                &&& r is Err ==> r == Err::<Self, Error>(Error::InvalidSignature)
            },
    {
        let p = match index_of(image, pos, 4096) {
            Some(p) => p,
            None => return Err(Error::Io),
        };
        if read_u32(image, p) != DATA_SECTOR_SIGNATURE {
            return Err(Error::InvalidSignature);
        }
        let data = slice_to_vec(slice_subrange(image, p + 8, p + 4092));
        Ok(Self {
            sequence_high: read_u32(image, p + 4),
            data,
            sequence_low: read_u32(image, p + 4092),
        })
    }

    pub fn data(&self) -> (r: &Vec<u8>)
        ensures
            r == &self.data,
    {
        &self.data
    }

    pub fn sequence_high(&self) -> (r: u32)
        ensures
            r == self.sequence_high,
    {
        self.sequence_high
    }

    pub fn sequence_low(&self) -> (r: u32)
        ensures
            r == self.sequence_low,
    {
        self.sequence_low
    }
}

/// A whole log entry.
#[derive(Debug)]
pub struct Entry {
    pub header: LogEntryHeader,
    pub descriptors: Vec<Descriptor>,
    pub data_sectors: Vec<DataSector>,
}

/// The header of a log entry can be read at file offset `pos`.
pub open spec fn header_at(s: Seq<u8>, pos: int) -> bool {
    &&& in_bounds(s, pos, 64)
    &&& exists|h: LogEntryHeader| h.decodes(s, pos) && h.is_valid()
}

/// The number of descriptors that the header at `pos` declares.
pub open spec fn count_at(s: Seq<u8>, pos: int) -> int {
    u32_le(s, pos + 24) as int
}

/// The descriptors that the header at `pos` declares lie in the image.
pub open spec fn descriptors_fit(s: Seq<u8>, pos: int) -> bool {
    pos + 64 + 32 * count_at(s, pos) <= s.len()
}

/// A descriptor can be read at file offset `p`: a zero descriptor or a data
/// descriptor with its offsets sector-aligned.
pub open spec fn descriptor_at(s: Seq<u8>, p: int) -> bool {
    &&& in_bounds(s, p, 32)
    &&& {
        ||| (u32_le(s, p) == ZERO_DESCRIPTOR_SIGNATURE && u64_le(s, p + 8) % SECTOR == 0 && u64_le(
            s,
            p + 16,
        ) % SECTOR == 0)
        ||| (u32_le(s, p) == DATA_DESCRIPTOR_SIGNATURE && u64_le(s, p + 16) % SECTOR == 0)
    }
}

/// The signature of descriptor `i` of the entry at `pos`.
pub open spec fn descriptor_sig(s: Seq<u8>, pos: int, i: int) -> u32 {
    u32_le(s, pos + 64 + 32 * i)
}

/// The signature of data sector `k` of the entry at `pos`.
pub open spec fn sector_sig(s: Seq<u8>, pos: int, k: int) -> u32 {
    u32_le(s, Entry::sectors_start(pos, count_at(s, pos)) + 4096 * k)
}

/// The first `i` descriptors of the entry at `pos` can be read.
pub open spec fn descriptors_before(s: Seq<u8>, pos: int, i: int) -> bool {
    forall|j: int| 0 <= j < i ==> #[trigger] descriptor_at(s, pos + 64 + 32 * j)
}

/// How many of the first `i` descriptors of the entry at `pos` are data descriptors.
pub open spec fn data_before(s: Seq<u8>, pos: int, i: int) -> int
    decreases i,
{
    if i <= 0 {
        0
    } else {
        data_before(s, pos, i - 1) + if u32_le(s, pos + 64 + 32 * (i - 1))
            == DATA_DESCRIPTOR_SIGNATURE {
            1int
        } else {
            0
        }
    }
}

/// A data sector can be read at file offset `q`.
pub open spec fn sector_at(s: Seq<u8>, q: int) -> bool {
    in_bounds(s, q, 4096) && u32_le(s, q) == DATA_SECTOR_SIGNATURE
}

/// The first `k` data sectors of the entry at `pos` can be read.
pub open spec fn sectors_before(s: Seq<u8>, pos: int, k: int) -> bool {
    forall|j: int|
        0 <= j < k ==> #[trigger] sector_at(
            s,
            Entry::sectors_start(pos, count_at(s, pos)) + 4096 * j,
        )
}

proof fn lemma_descriptors_good(s: Seq<u8>, p: int, m: int)
    requires
        descriptors_before(s, p, m),
    ensures
        forall|i: int|
            0 <= i < m ==> (#[trigger] descriptor_sig(s, p, i) == ZERO_DESCRIPTOR_SIGNATURE
                || descriptor_sig(s, p, i) == DATA_DESCRIPTOR_SIGNATURE),
{
    assert forall|i: int| 0 <= i < m implies (descriptor_sig(s, p, i)
        == ZERO_DESCRIPTOR_SIGNATURE || descriptor_sig(s, p, i) == DATA_DESCRIPTOR_SIGNATURE) by {
        assert(descriptor_at(s, p + 64 + 32 * i));
    }
}

proof fn lemma_descriptors_stop(s: Seq<u8>, p: int, m: int)
    requires
        m >= 0,
        !descriptor_at(s, p + 64 + 32 * m),
    ensures
        forall|i: int| i > m ==> !#[trigger] descriptors_before(s, p, i),
{
    assert forall|i: int| i > m implies !#[trigger] descriptors_before(s, p, i) by {
        if descriptors_before(s, p, i) {
            assert(descriptor_at(s, p + 64 + 32 * m));
        }
    }
}

proof fn lemma_sectors_good(s: Seq<u8>, p: int, m: int)
    requires
        sectors_before(s, p, m),
    ensures
        forall|k: int|
            0 <= k < m ==> #[trigger] sector_sig(s, p, k) == DATA_SECTOR_SIGNATURE,
{
    assert forall|k: int| 0 <= k < m implies sector_sig(s, p, k) == DATA_SECTOR_SIGNATURE by {
        assert(sector_at(s, Entry::sectors_start(p, count_at(s, p)) + 4096 * k));
    }
}

proof fn lemma_sectors_stop(s: Seq<u8>, p: int, m: int)
    requires
        m >= 0,
        !sector_at(s, Entry::sectors_start(p, count_at(s, p)) + 4096 * m),
    ensures
        forall|k: int| k > m ==> !#[trigger] sectors_before(s, p, k),
{
    assert forall|k: int| k > m implies !#[trigger] sectors_before(s, p, k) by {
        if sectors_before(s, p, k) {
            assert(sector_at(s, Entry::sectors_start(p, count_at(s, p)) + 4096 * m));
        }
    }
}

proof fn lemma_data_before(d: Seq<Descriptor>, s: Seq<u8>, pos: int, k: int)
    requires
        0 <= k <= d.len(),
        forall|j: int|
            0 <= j < d.len() ==> (#[trigger] d[j]).is_data() == (u32_le(s, pos + 64 + 32 * j)
                == DATA_DESCRIPTOR_SIGNATURE),
    ensures
        data_count(d.subrange(0, k)) == data_before(s, pos, k),
    decreases k,
{
    if k > 0 {
        assert(d.subrange(0, k).drop_last() =~= d.subrange(0, k - 1));
        lemma_data_before(d, s, pos, k - 1);
    }
}

impl Entry {
    /// The file offset of the first data sector of an entry at `pos` with `n` descriptors.
    pub open spec fn sectors_start(pos: int, n: int) -> int {
        align_up(pos + 64 + 32 * n, SECTOR as int)
    }

    /// Whether this entry is the one stored at file offset `pos`.
    pub open spec fn read_from(self, s: Seq<u8>, pos: int) -> bool {
        let n = self.header.descriptor_count as int;
        let start = Self::sectors_start(pos, n);
        &&& self.header.decodes(s, pos)
        &&& self.header.is_valid()
        &&& self.descriptors@.len() == n
        &&& forall|i: int|
            0 <= i < n ==> (#[trigger] self.descriptors@[i]).decodes(s, pos + 64 + 32 * i)
        &&& self.data_sectors@.len() == data_count(self.descriptors@)
        &&& forall|k: int|
            0 <= k < self.data_sectors@.len() ==> (#[trigger] self.data_sectors@[k]).decodes(
                s,
                start + 4096 * k,
            )
        &&& start + 4096 * self.data_sectors@.len() == pos + self.header.entry_length
        &&& pos + self.header.entry_length <= s.len()
    }

    /// Which error a read at `p` gives where the image goes wrong: a
    /// descriptor whose signature is neither "zero" nor "desc", or a data
    /// sector without "data", after all that comes before it can be read,
    /// gives `InvalidSignature`; an entry whose descriptors and data sectors
    /// can all be read but that does not end where its header says gives
    /// `BadFormat`.
    #[verifier::opaque]
    pub open spec fn errors_pinned(s: Seq<u8>, p: int, r: Result<Entry, Error>) -> bool {
        let count = count_at(s, p);
        let start = Self::sectors_start(p, count);
        let sectors = data_before(s, p, count);
        &&& forall|i: int|
            #![trigger descriptors_before(s, p, i)]
            header_at(s, p) && descriptors_fit(s, p) && 0 <= i < count
                && descriptors_before(s, p, i) && descriptor_sig(s, p, i)
                != ZERO_DESCRIPTOR_SIGNATURE && descriptor_sig(s, p, i)
                != DATA_DESCRIPTOR_SIGNATURE ==> r == Err::<Self, Error>(
                Error::InvalidSignature,
            )
        &&& forall|k: int|
            #![trigger sectors_before(s, p, k)]
            header_at(s, p) && descriptors_fit(s, p) && descriptors_before(s, p, count)
                && start <= u64::MAX && 0 <= k < sectors && sectors_before(s, p, k)
                && in_bounds(s, start + 4096 * k, 4096) && sector_sig(s, p, k)
                != DATA_SECTOR_SIGNATURE ==> r == Err::<Self, Error>(Error::InvalidSignature)
        &&& header_at(s, p) && descriptors_fit(s, p) && descriptors_before(s, p, count)
            && start <= u64::MAX && sectors_before(s, p, sectors) && start + 4096 * sectors
            != p + u32_le(s, p + 8) ==> r == Err::<Self, Error>(Error::BadFormat)
    }

    /// Decodes the entry at file offset `pos`: its header, its descriptors,
    /// then, from the next 4 KiB boundary, one data sector per data
    /// descriptor. The entry must end exactly where its header says.
    pub fn read(image: &[u8], pos: u64) -> (r: Result<Self, Error>)
        ensures
            r matches Ok(e) ==> e.read_from(image@, pos as int),
            (exists|e: Entry| e.read_from(image@, pos as int)) ==> r is Ok,
            !in_bounds(image@, pos as int, 64) ==> r == Err::<Self, Error>(Error::Io),
            in_bounds(image@, pos as int, 64) && u32_le(image@, pos as int) != LOG_ENTRY_SIGNATURE
                ==> r == Err::<Self, Error>(Error::InvalidSignature),
            r is Err ==> r == Err::<Self, Error>(Error::Io) || r == Err::<Self, Error>(
                Error::InvalidSignature,
            ) || r == Err::<Self, Error>(Error::BadFormat),
            Self::errors_pinned(image@, pos as int, r),
    {
        proof {
            reveal(Entry::errors_pinned);
        }
        let ghost has = exists|e: Entry| e.read_from(image@, pos as int);
        let ghost w = choose|e: Entry| e.read_from(image@, pos as int);
        proof {
            if has {
                let v = pos + 64 + 32 * w.header.descriptor_count;
                assert(Self::sectors_start(pos as int, w.header.descriptor_count as int) >= v);
                assert(w.data_sectors@.len() >= 0);
                assert(in_bounds(image@, pos as int, 64));
            }
        }
        let header = LogEntryHeader::read(image, pos)?;
        let count = header.descriptor_count as u64;
        let n = image.len() as u64;
        // All further reads lie inside the image, which bounds every offset below.
        if count > (n - pos - 64) / 32 {
            proof {
                assert(32 * count > n - pos - 64) by (nonlinear_arith)
                    requires
                        count > (n - pos - 64) / 32,
                        n >= pos + 64,
                ;
                assert(!descriptors_fit(image@, pos as int));
                if has {
                    assert(w.header.descriptor_count == count);
                    assert(count <= (n - pos - 64) / 32) by (nonlinear_arith)
                        requires
                            32 * count <= n - pos - 64,
                    ;
                }
            }
            return Err(Error::Io);
        }
        assert(32 * ((n - pos - 64) / 32) <= n - pos - 64) by (nonlinear_arith)
            requires
                n >= pos + 64,
        ;
        let mut descriptors: Vec<Descriptor> = Vec::new();
        let mut i: u64 = 0;
        while i < count
            invariant
                n == image@.len(),
                pos + 64 + 32 * count <= n,
                i <= count,
                count == header.descriptor_count,
                header.decodes(image@, pos as int),
                header.is_valid(),
                descriptors@.len() == i,
                forall|j: int|
                    0 <= j < i ==> (#[trigger] descriptors@[j]).decodes(image@, pos + 64 + 32 * j),
                has == exists|e: Entry| e.read_from(image@, pos as int),
                has ==> w.read_from(image@, pos as int),
                has ==> w.header.descriptor_count == count,
                has ==> forall|j: int|
                    0 <= j < i ==> (#[trigger] descriptors@[j]).is_data()
                        == w.descriptors@[j].is_data(),
                descriptors_before(image@, pos as int, i as int),
                descriptors_fit(image@, pos as int),
                header_at(image@, pos as int),
                count == count_at(image@, pos as int),
                forall|j: int|
                    0 <= j < i ==> (#[trigger] descriptors@[j]).is_data() == (u32_le(
                        image@,
                        pos + 64 + 32 * j,
                    ) == DATA_DESCRIPTOR_SIGNATURE),
            decreases count - i,
        {
            let at = pos + 64 + 32 * i;
            let p = match index_of(image, at, 4) {
                Some(p) => p,
                None => return Err(Error::Io),
            };
            let signature = read_u32(image, p);
            proof {
                if has {
                    assert(w.descriptors@[i as int].decodes(image@, pos + 64 + 32 * i));
                }
            }
            let d = if signature == ZERO_DESCRIPTOR_SIGNATURE {
                match ZeroDescriptor::read(image, at) {
                    Ok(z) => Descriptor::Zero(z),
                    Err(e) => {
                        assert(!descriptor_at(image@, pos + 64 + 32 * i));
                        proof {
                            reveal(Entry::errors_pinned);
                            lemma_descriptors_good(image@, pos as int, i as int);
                            lemma_descriptors_stop(image@, pos as int, i as int);
                        }
                        return Err(e);
                    },
                }
            } else if signature == DATA_DESCRIPTOR_SIGNATURE {
                match DataDescriptor::read(image, at) {
                    Ok(x) => Descriptor::Data(x),
                    Err(e) => {
                        assert(!descriptor_at(image@, pos + 64 + 32 * i));
                        proof {
                            reveal(Entry::errors_pinned);
                            lemma_descriptors_good(image@, pos as int, i as int);
                            lemma_descriptors_stop(image@, pos as int, i as int);
                        }
                        return Err(e);
                    },
                }
            } else {
                assert(!descriptor_at(image@, pos + 64 + 32 * i));
                proof {
                    reveal(Entry::errors_pinned);
                }
                return Err(Error::InvalidSignature);
            };
            descriptors.push(d);
            assert(descriptors@[i as int].decodes(image@, pos + 64 + 32 * i));
            assert(descriptor_at(image@, pos + 64 + 32 * i));
            assert(descriptors_before(image@, pos as int, i + 1));
            i += 1;
        }
        let end_of_descriptors = pos + 64 + 32 * count;
        let rem = end_of_descriptors % SECTOR;
        if rem != 0 && end_of_descriptors > u64::MAX - (SECTOR - rem) {
            assert(Self::sectors_start(pos as int, count as int) > u64::MAX);
            proof {
                lemma_descriptors_good(image@, pos as int, count as int);
            }
            return Err(Error::Io);
        }
        proof {
            assert(descriptors@.len() == count);
            lemma_data_before(descriptors@, image@, pos as int, count as int);
            assert(descriptors@.subrange(0, count as int) =~= descriptors@);
            if has {
                lemma_data_count_same(descriptors@, w.descriptors@);
            }
        }
        let start = next_multiple_of(end_of_descriptors, SECTOR);
        let mut data_sectors: Vec<DataSector> = Vec::new();
        let mut at = start;
        let mut k: usize = 0;
        while k < descriptors.len()
            invariant
                n == image@.len(),
                pos + 64 + 32 * count <= n,
                count == header.descriptor_count,
                header.decodes(image@, pos as int),
                header.is_valid(),
                descriptors@.len() == count,
                forall|j: int|
                    0 <= j < count ==> (#[trigger] descriptors@[j]).decodes(image@, pos + 64 + 32 * j),
                k <= descriptors@.len(),
                start == Self::sectors_start(pos as int, count as int),
                start <= n + SECTOR,
                at == start + 4096 * data_sectors@.len(),
                at <= n + SECTOR,
                data_sectors@.len() == data_count(descriptors@.subrange(0, k as int)),
                forall|j: int|
                    0 <= j < data_sectors@.len() ==> (#[trigger] data_sectors@[j]).decodes(
                        image@,
                        start + 4096 * j,
                    ),
                has == exists|e: Entry| e.read_from(image@, pos as int),
                has ==> w.read_from(image@, pos as int),
                has ==> w.header.descriptor_count == count,
                has ==> data_count(descriptors@) == w.data_sectors@.len(),
                descriptors_before(image@, pos as int, count as int),
                descriptors_fit(image@, pos as int),
                header_at(image@, pos as int),
                count == count_at(image@, pos as int),
                start <= u64::MAX,
                forall|j: int|
                    0 <= j < count ==> (#[trigger] descriptors@[j]).is_data() == (u32_le(
                        image@,
                        pos + 64 + 32 * j,
                    ) == DATA_DESCRIPTOR_SIGNATURE),
                sectors_before(image@, pos as int, data_sectors@.len() as int),
                data_count(descriptors@) == data_before(image@, pos as int, count as int),
            decreases descriptors@.len() - k,
        {
            proof {
                assert(descriptors@.subrange(0, k + 1).drop_last() =~= descriptors@.subrange(
                    0,
                    k as int,
                ));
            }
            proof {
                lemma_data_count_prefix(descriptors@, k as int);
            }
            proof {
                lemma_data_count_prefix(descriptors@, k + 1);
            }
            if let Descriptor::Data(_) = descriptors[k] {
                proof {
                    if has {
                        let j = data_sectors@.len() as int;
                        assert(w.data_sectors@[j].decodes(image@, start + 4096 * j));
                        assert(start + 4096 * (j + 1) <= start + 4096 * w.data_sectors@.len());
                    }
                }
                let ghost j = data_sectors@.len() as int;
                let sector = match DataSector::read(image, at) {
                    Ok(x) => x,
                    Err(e) => {
                        assert(!sector_at(image@, start + 4096 * j));
                        assert(j < data_before(image@, pos as int, count as int));
                        proof {
                            reveal(Entry::errors_pinned);
                            lemma_descriptors_good(image@, pos as int, count as int);
                            lemma_sectors_good(image@, pos as int, j);
                            lemma_sectors_stop(image@, pos as int, j);
                        }
                        return Err(e);
                    },
                };
                assert(sector_at(image@, start + 4096 * j));
                data_sectors.push(sector);
                assert(sectors_before(image@, pos as int, j + 1));
                assert(data_sectors@[data_sectors@.len() - 1].decodes(
                    image@,
                    start + 4096 * (data_sectors@.len() - 1),
                ));
                at = at + SECTOR;
            }
            k += 1;
        }
        assert(descriptors@.subrange(0, descriptors@.len() as int) =~= descriptors@);
        assert(data_sectors@.len() == data_before(image@, pos as int, count as int));
        proof {
            lemma_descriptors_good(image@, pos as int, count as int);
            lemma_sectors_good(image@, pos as int, data_sectors@.len() as int);
        }
        if at - pos != header.entry_length as u64 {
            return Err(Error::BadFormat);
        }
        if at > n {
            return Err(Error::Io);
        }
        Ok(Self { header, descriptors, data_sectors })
    }

    pub fn header(&self) -> (r: &LogEntryHeader)
        ensures
            r == &self.header,
    {
        &self.header
    }

    pub fn descriptors(&self) -> (r: &Vec<Descriptor>)
        ensures
            r == &self.descriptors,
    {
        &self.descriptors
    }

    pub fn data_sectors(&self) -> (r: &Vec<DataSector>)
        ensures
            r == &self.data_sectors,
    {
        &self.data_sectors
    }
}

} // verus!
