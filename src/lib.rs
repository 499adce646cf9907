//! A reader for the VHDX virtual-disk container format.
//!
//! The library works on an in-memory image of a VHDX file: it decodes the
//! header section, replays a pending log into the image, decodes the metadata
//! items and the block allocation table, and offers a cursor over the logical
//! contents of the virtual disk.
use vstd::prelude::*;

use crate::bat::{Bat, PayloadBatEntryState};
use crate::bytes::{u32_le, u64_le};
use crate::guid::Guid;
use crate::header::{
    current_of, Header, HeaderSection, RegionTable, HEADER_1_OFFSET, HEADER_2_OFFSET,
    REGION_TABLE_1_OFFSET,
};
use crate::metadata::{Metadata, MetadataKind, MetadataTable};
use crate::replay::{entry_well_formed, find_log, replay};

pub mod bytes;
pub mod bat;
pub mod guid;
pub mod header;
pub mod log;
pub mod metadata;
pub mod replay;

verus! {

/// A feature of the format that this reader deliberately leaves out.
#[derive(Debug, Clone, Copy, PartialEq, Eq, Structural)]
pub enum Feature {
    /// Sector bitmap blocks interleaved in the block allocation table.
    SectorBitmap,
    /// Partially present blocks, which belong to differential disks.
    Differential,
    /// Writing through the reader.
    Write,
}

/// Errors reported while opening or reading a disk.
#[derive(Debug, Clone, Copy, PartialEq, Eq, Structural)]
pub enum Error {
    /// The file ended before a structure that it must hold.
    Io,
    /// A fixed ASCII signature did not match.
    InvalidSignature,
    /// A structural invariant of the format does not hold.
    BadFormat,
    /// A feature that this reader does not implement.
    Unsupported(Feature),
    /// The log cannot be replayed: no valid sequence, or the file was truncated.
    Corrupt,
    /// A seek would move the cursor below zero or past `u64::MAX`.
    InvalidSeek,
}

/// A VHDX disk: the image of its file, with its header section, metadata
/// and block allocation table decoded.
#[derive(Debug)]
pub struct Vhdx {
    /// The file's bytes, after any log replay.
    pub image: Vec<u8>,
    pub header_section: HeaderSection,
    /// The file offset of the metadata region.
    pub metadata_base: u64,
    /// The file offset of the block allocation table region.
    pub bat_base: u64,
    pub metadata_table: MetadataTable,
    pub metadata: Metadata,
    pub bat: Bat,
    /// Whether opening the disk replayed its log into the image.
    pub replayed: bool,
    /// The log sequence that was replayed, if any.
    pub active_log: Option<crate::replay::LogSequence>,
}

/// Whether the log of the disk whose current header is `h` must be replayed.
pub open spec fn needs_replay(h: Header) -> bool {
    !h.log_guid.is_zero()
}

/// The table at `offset` decodes for the disk that the metadata table `mt`
/// of the region at `base` describes.
pub open spec fn bat_readable(s: Seq<u8>, offset: int, mt: MetadataTable, base: int) -> bool {
    Bat::is_readable(
        s,
        offset,
        u32_le(s, mt.item_pos(MetadataKind::FileParameters, base)),
        u32_le(s, mt.item_pos(MetadataKind::LogicalSectorSize, base)),
        u64_le(s, mt.item_pos(MetadataKind::VirtualDiskSize, base)),
    )
}

/// With the metadata region at `mbase` and the table at `boff`: the
/// metadata table, its items and the block allocation table all decode.
pub open spec fn regions_readable(s: Seq<u8>, mbase: int, boff: int) -> bool {
    &&& MetadataTable::is_readable(s, mbase)
    &&& forall|mt: MetadataTable|
        #[trigger] mt.decoded_at(s, mbase) ==> Metadata::is_readable(s, mt, mbase) && bat_readable(
            s,
            boff,
            mt,
            mbase,
        )
}

/// The region table `t` names a metadata region and a block allocation table
/// region, and what they hold decodes.
pub open spec fn layout_readable(s: Seq<u8>, t: RegionTable) -> bool {
    &&& exists|i: int| t.is_first(false, i)
    &&& exists|j: int| t.is_first(true, j)
    &&& forall|i: int, j: int|
        #[trigger] t.is_first(false, i) && #[trigger] t.is_first(true, j) ==> regions_readable(
            s,
            t.entries@[i].file_offset as int,
            t.entries@[j].file_offset as int,
        )
}

/// What the search for the active sequence of the log that header `h` names
/// finds in `s`.
pub open spec fn active_search(s: Seq<u8>, h: Header) -> (Seq<(int, int)>, bool) {
    crate::replay::search(
        s,
        h.log_guid.wire(),
        h.log_offset as int,
        h.log_length as int,
        h.log_offset as int,
        seq![],
    )
}

/// The log that header `h` names can be searched: its length is a positive
/// multiple of the sector size, it fits the address space, and every run
/// of the search ends cleanly.
pub open spec fn log_searchable(s: Seq<u8>, h: Header) -> bool {
    &&& h.log_length >= 4096
    &&& h.log_length % 4096 == 0
    &&& h.log_offset + h.log_length <= u64::MAX
    &&& active_search(s, h).1
}

/// The search finds an active sequence, and the file holds what its head
/// says was flushed.
pub open spec fn log_found(s: Seq<u8>, h: Header) -> bool {
    let best = active_search(s, h).0;
    &&& log_searchable(s, h)
    &&& best.len() > 0
    &&& u64_le(s, h.log_offset + best.last().0 + 48) <= s.len()
}

/// The active sequence of the log that `h` names, as a chain of entries.
pub open spec fn is_active(s: Seq<u8>, h: Header, q: crate::replay::LogSequence) -> bool {
    &&& q.is_chain(s, h.log_offset as int, h.log_guid)
    &&& crate::replay::summary(q.entries@) == active_search(s, h).0
}

/// The log that `h` names has an active sequence whose every descriptor
/// belongs to its entry and fits the file.
pub open spec fn log_replayable(s: Seq<u8>, h: Header) -> bool {
    &&& log_found(s, h)
    &&& forall|q: crate::replay::LogSequence|
        #[trigger] is_active(s, h, q) ==> crate::replay::entries_ok(q.entries@, s.len() as int)
}

/// With current header `h` and region table `t`: when `h` names a log, the
/// log can be replayed and, after its active sequence is replayed, the
/// regions that `t` names decode; otherwise they decode as they are.
pub open spec fn layout_after(s: Seq<u8>, h: Header, t: RegionTable) -> bool {
    if needs_replay(h) {
        &&& log_replayable(s, h)
        &&& forall|q: crate::replay::LogSequence|
            #[trigger] is_active(s, h, q) ==> layout_readable(
                crate::replay::replay_entries(s, q.entries@, 0),
                t,
            )
    } else {
        layout_readable(s, t)
    }
}

/// A well-formed image: the header section decodes, a log that the current
/// header names can be replayed, and then the metadata and the block
/// allocation table decode.
pub open spec fn is_well_formed(s: Seq<u8>) -> bool {
    &&& HeaderSection::is_readable(s)
    &&& forall|h1: Header, h2: Header, t: RegionTable|
        #[trigger] h1.decodes(s, HEADER_1_OFFSET as int) && #[trigger] h2.decodes(
            s,
            HEADER_2_OFFSET as int,
        ) && #[trigger] t.decoded_at(s, REGION_TABLE_1_OFFSET as int) ==> layout_after(
            s,
            current_of(h1, h2),
            t,
        )
}

/// The header section decodes, and the current header names a log whose
/// search ends cleanly without an active sequence that the file can hold.
pub open spec fn has_lost_log(s: Seq<u8>) -> bool {
    &&& HeaderSection::is_readable(s)
    &&& forall|h1: Header, h2: Header|
        #[trigger] h1.decodes(s, HEADER_1_OFFSET as int) && #[trigger] h2.decodes(
            s,
            HEADER_2_OFFSET as int,
        ) ==> {
            let h = current_of(h1, h2);
            needs_replay(h) && log_searchable(s, h) && !log_found(s, h)
        }
}

/// The errors that opening a disk can report.
pub open spec fn is_load_error(e: Error) -> bool {
    ||| e == Error::Io
    ||| e == Error::InvalidSignature
    ||| e == Error::BadFormat
    ||| e == Error::Unsupported(Feature::SectorBitmap)
    ||| e == Error::Corrupt
}

/// The byte at virtual offset `o` of a disk: zero in a block that is not
/// present, and the byte of the file image in a fully present block (zero
/// past the end of the file).
pub open spec fn virtual_byte(bat: Bat, image: Seq<u8>, o: int) -> u8 {
    let e = bat.entries@[bat.bat_index(o)];
    let p = e.file_offset + o % (bat.block_size as int);
    if e.state == PayloadBatEntryState::FullyPresent && p < image.len() {
        image[p]
    } else {
        0
    }
}

impl Vhdx {
    /// The decoded parts agree: the table is well formed and describes a disk
    /// of the size and block size that the metadata gives.
    pub open spec fn wf(self) -> bool {
        &&& self.bat.wf()
        &&& self.bat.block_size == self.metadata.file_parameters.block_size as u64
        &&& self.bat.virtual_disk_size == self.metadata.virtual_disk_size.virtual_disk_size
    }

    /// The contents of the virtual disk.
    pub open spec fn contents(self) -> Seq<u8> {
        Seq::new(
            self.bat.virtual_disk_size as nat,
            |o: int| virtual_byte(self.bat, self.image@, o),
        )
    }

    /// `after` is `before` with the sequence `q` of the log that header `h`
    /// names replayed into it: `q` is a valid chain of that log, each of its
    /// descriptors fits the file, and nothing else is written.
    pub open spec fn replayed_from(
        before: Seq<u8>,
        after: Seq<u8>,
        h: Header,
        q: crate::replay::LogSequence,
    ) -> bool {
        &&& q.valid()
        &&& q.is_chain(before, h.log_offset as int, h.log_guid)
        &&& forall|i: int|
            0 <= i < q.entries@.len() ==> (#[trigger] q.entries@[i]).0 < h.log_length
                && q.entries@[i].0 % 4096 == 0
        &&& q.entries@.last().1.header.flushed_file_offset <= before.len()
        &&& crate::replay::entries_ok(q.entries@, before.len() as int)
        &&& after == crate::replay::replay_entries(before, q.entries@, 0)
    }

    /// Opens a disk from the image of its file. The header section is read
    /// first; when the current header names a log, the log's active sequence
    /// is replayed into the image; then the metadata and the block allocation
    /// table are decoded from the replayed image.
    pub fn load(image: Vec<u8>) -> (r: Result<Self, Error>)
        ensures
            r matches Ok(v) ==> {
                &&& v.wf()
                &&& v.image@.len() == image@.len()
                &&& !v.replayed ==> v.image@ == image@
                &&& v.replayed <==> needs_replay(v.header_section.current())
                &&& v.replayed <==> v.active_log is Some
                &&& v.active_log matches Some(q) ==> Self::replayed_from(
                    image@,
                    v.image@,
                    v.header_section.current(),
                    q,
                )
                &&& v.header_section.header_1.decodes(image@, crate::header::HEADER_1_OFFSET as int)
                &&& v.header_section.header_2.decodes(image@, crate::header::HEADER_2_OFFSET as int)
                &&& v.metadata.virtual_disk_size.virtual_disk_size == u64_le(
                    v.image@,
                    v.metadata_table.item_pos(MetadataKind::VirtualDiskSize, v.metadata_base as int),
                )
                &&& v.header_section.region_table_1.decoded_at(
                    image@,
                    REGION_TABLE_1_OFFSET as int,
                )
                &&& exists|i: int|
                    v.header_section.region_table_1.is_first(false, i)
                        && v.header_section.region_table_1.entries@[i].file_offset
                        == v.metadata_base
                &&& exists|j: int|
                    v.header_section.region_table_1.is_first(true, j)
                        && v.header_section.region_table_1.entries@[j].file_offset == v.bat_base
                &&& v.metadata_table.decoded_at(v.image@, v.metadata_base as int)
                &&& v.metadata.decoded_from(v.image@, v.metadata_table, v.metadata_base as int)
                &&& forall|i: int|
                    0 <= i < v.bat.entries@.len() ==> #[trigger] v.bat.entries@[i].decodes(
                        u64_le(v.image@, v.bat_base + 8 * i),
                    )
            },
            is_well_formed(image@) ==> r is Ok,
            has_lost_log(image@) ==> r == Err::<Self, Error>(Error::Corrupt),
            r is Err ==> is_load_error(r->Err_0),
    {
        let mut image = image;
        let ghost original = image@;
        let ghost wf = is_well_formed(original);
        let header_section = HeaderSection::read(&image)?;
        let ghost h = header_section.current();
        proof {
            assert(header_section.header_1.decodes(original, HEADER_1_OFFSET as int));
            assert(header_section.header_2.decodes(original, HEADER_2_OFFSET as int));
            assert(header_section.region_table_1.decoded_at(
                original,
                REGION_TABLE_1_OFFSET as int,
            ));
            if wf {
                assert(layout_after(original, h, header_section.region_table_1));
            }
        }
        let active_log = Self::try_replay_log(&mut image, &header_section)?;
        let replayed = active_log.is_some();
        let table = &header_section.region_table_1;
        proof {
            if wf {
                if needs_replay(h) {
                    let q = active_log->Some_0;
                    assert(is_active(original, h, q));
                    assert(image@ == crate::replay::replay_entries(original, q.entries@, 0));
                }
                assert(layout_readable(image@, *table));
            }
        }
        let metadata_index = match table.find(false) {
            Some(i) => i,
            None => {
                proof {
                    if wf {
                        let i = choose|i: int| table.is_first(false, i);
                        assert(table.is_first(false, i));
                    }
                }
                return Err(Error::BadFormat);
            },
        };
        let bat_index = match table.find(true) {
            Some(i) => i,
            None => {
                proof {
                    if wf {
                        let j = choose|j: int| table.is_first(true, j);
                        assert(table.is_first(true, j));
                    }
                }
                return Err(Error::BadFormat);
            },
        };
        let base = table.entries[metadata_index].file_offset;
        let bat_base = table.entries[bat_index].file_offset;
        proof {
            if wf {
                assert(regions_readable(image@, base as int, bat_base as int));
            }
        }
        let metadata_table = MetadataTable::read(&image, base)?;
        proof {
            if wf {
                assert(metadata_table.decoded_at(image@, base as int));
                assert(Metadata::is_readable(image@, metadata_table, base as int));
            }
        }
        let metadata = Metadata::from_table(&image, &metadata_table, base)?;
        let bat = Bat::read(
            &image,
            bat_base,
            metadata.file_parameters.block_size,
            metadata.logical_sector_size.logical_sector_size,
            metadata.virtual_disk_size.virtual_disk_size,
        )?;
        Ok(Vhdx {
            image,
            header_section,
            metadata_base: base,
            bat_base,
            metadata_table,
            metadata,
            bat,
            replayed,
            active_log,
        })
    }

    /// Replays the log into the image when the current header names one, and
    /// returns the sequence that it replayed.
    fn try_replay_log(image: &mut Vec<u8>, header_section: &HeaderSection) -> (r: Result<
        Option<crate::replay::LogSequence>,
        Error,
    >)
        ensures
            final(image)@.len() == old(image)@.len(),
            !needs_replay(header_section.current()) ==> (r matches Ok(None) && final(image)@ == old(
                image,
            )@),
            r matches Ok(None) ==> final(image)@ == old(image)@,
            needs_replay(header_section.current()) && r is Ok ==> r matches Ok(Some(_)),
            r is Err ==> r->Err_0 == Error::Io || r->Err_0 == Error::BadFormat || r->Err_0
                == Error::Corrupt,
            r matches Ok(Some(q)) ==> Self::replayed_from(
                old(image)@,
                final(image)@,
                header_section.current(),
                q,
            ),
            log_searchable(old(image)@, header_section.current()) ==> (r matches Ok(Some(q))
                ==> is_active(old(image)@, header_section.current(), q)),
            needs_replay(header_section.current()) && log_replayable(
                old(image)@,
                header_section.current(),
            ) ==> r matches Ok(Some(_)),
            needs_replay(header_section.current()) && log_searchable(
                old(image)@,
                header_section.current(),
            ) && !log_found(old(image)@, header_section.current()) ==> r == Err::<
                Option<crate::replay::LogSequence>,
                Error,
            >(Error::Corrupt),
    {
        let current = header_section.current_header();
        let zero = Guid::zero();
        if current.log_guid == zero {
            return Ok(None);
        }
        proof {
            if current.log_guid.is_zero() {
                assert(current.log_guid.data_4@ =~= zero.data_4@);
            }
        }
        let sequence = find_log(
            image.as_slice(),
            current.log_guid,
            current.log_offset,
            current.log_length,
        )?;
        proof {
            assert forall|j: int| 0 <= j < sequence.entries@.len() implies entry_well_formed(
                (#[trigger] sequence.entries@[j]).1,
            ) by {
                let e = sequence.entries@[j].1;
                assert(e.read_from(image@, current.log_offset + sequence.entries@[j].0));
                assert forall|k: int| 0 <= k < e.data_sectors@.len() implies (
                #[trigger] e.data_sectors@[k]).data@.len() == 4084 by {
                    assert(e.data_sectors@[k].decodes(
                        image@,
                        crate::log::Entry::sectors_start(
                            current.log_offset + sequence.entries@[j].0,
                            e.header.descriptor_count as int,
                        ) + 4096 * k,
                    ));
                }
            }
        }
        let ghost before = image@;
        proof {
            if log_replayable(before, header_section.current()) {
                assert(is_active(before, header_section.current(), sequence));
            }
        }
        replay(image, &sequence)?;
        assert(Self::replayed_from(before, image@, header_section.current(), sequence));
        Ok(Some(sequence))
    }

    /// A reader positioned at the start of the virtual disk.
    pub fn reader(&self) -> (r: Reader<'_>)
        ensures
            r.disk == self,
            r.offset == 0,
    {
        Reader { disk: self, offset: 0 }
    }

    /// The size of the virtual disk in bytes.
    pub fn virtual_disk_size(&self) -> (r: u64)
        ensures
            r == self.metadata.virtual_disk_size.virtual_disk_size,
    {
        self.metadata.virtual_disk_size.virtual_disk_size()
    }

    /// The header with the larger sequence number.
    pub fn primary_header(&self) -> (r: &Header)
        ensures
            *r == self.header_section.current(),
    {
        self.header_section.current_header()
    }
}

/// Reading in pieces gives what one read gives: the bytes that a read
/// returns at `o` followed by those that the next read returns at `o + n1`
/// are the bytes that one read over both ranges returns.
pub proof fn lemma_consecutive_reads(disk: Vhdx, o: int, n1: int, n2: int)
    requires
        0 <= o,
        0 <= n1,
        0 <= n2,
        o + n1 + n2 <= disk.contents().len(),
    ensures
        disk.contents().subrange(o, o + n1) + disk.contents().subrange(o + n1, o + n1 + n2)
            == disk.contents().subrange(o, o + n1 + n2),
{
    assert(disk.contents().subrange(o, o + n1) + disk.contents().subrange(o + n1, o + n1 + n2)
        =~= disk.contents().subrange(o, o + n1 + n2));
}

/// The total of the lengths in `ns`.
pub open spec fn total(ns: Seq<int>) -> int
    decreases ns.len(),
{
    if ns.len() == 0 {
        0
    } else {
        total(ns.drop_last()) + ns.last()
    }
}

/// What reads of lengths `ns`, one after the other from offset `o`, return
/// in turn, put end to end.
pub open spec fn pieces(c: Seq<u8>, o: int, ns: Seq<int>) -> Seq<u8>
    decreases ns.len(),
{
    if ns.len() == 0 {
        seq![]
    } else {
        pieces(c, o, ns.drop_last()) + c.subrange(
            o + total(ns.drop_last()),
            o + total(ns.drop_last()) + ns.last(),
        )
    }
}

/// Reading the disk in pieces of any sizes, each read starting where the
/// one before ended, gives the same bytes as one read over the whole range.
pub proof fn lemma_reads_in_pieces(disk: Vhdx, o: int, ns: Seq<int>)
    requires
        0 <= o,
        forall|i: int| 0 <= i < ns.len() ==> #[trigger] ns[i] >= 0,
        o + total(ns) <= disk.contents().len(),
    ensures
        total(ns) >= 0,
        pieces(disk.contents(), o, ns) == disk.contents().subrange(o, o + total(ns)),
    decreases ns.len(),
{
    if ns.len() > 0 {
        let rest = ns.drop_last();
        assert forall|i: int| 0 <= i < rest.len() implies #[trigger] rest[i] >= 0 by {
            assert(rest[i] == ns[i]);
        }
        assert(ns.last() == ns[ns.len() - 1]);
        lemma_reads_in_pieces(disk, o, rest);
        lemma_consecutive_reads(disk, o, total(rest), ns.last());
    } else {
        assert(disk.contents().subrange(o, o) =~= seq![]);
    }
}

/// A position to seek to.
#[derive(Debug, Clone, Copy, PartialEq, Eq, Structural)]
pub enum SeekFrom {
    /// An offset from the start of the disk.
    Start(u64),
    /// An offset from the end of the disk, its virtual size.
    End(i64),
    /// An offset from the current position.
    Current(i64),
}

/// `base + delta`, when that is a `u64`.
pub open spec fn shifted(base: u64, delta: i64) -> Option<u64> {
    if 0 <= base + delta <= u64::MAX {
        Some((base + delta) as u64)
    } else {
        None
    }
}

fn add_signed(base: u64, delta: i64) -> (r: Option<u64>)
    ensures
        r == shifted(base, delta),
{
    if delta >= 0 {
        let d = delta as u64;
        if base > u64::MAX - d {
            None
        } else {
            Some(base + d)
        }
    } else {
        let d = (-(delta + 1)) as u64 + 1;
        if d > base {
            None
        } else {
            Some(base - d)
        }
    }
}

/// Offsets `o` and `o + k` lie in the same block when `o % b + k < b`.
proof fn lemma_same_block(o: int, k: int, b: int)
    requires
        0 <= o,
        0 <= k,
        b > 0,
        o % b + k < b,
    ensures
        (o + k) / b == o / b,
        (o + k) % b == o % b + k,
{
    vstd::arithmetic::div_mod::lemma_fundamental_div_mod(o, b);
    vstd::arithmetic::div_mod::lemma_mod_pos_bound(o, b);
    assert(o + k == (o / b) * b + (o % b + k)) by (nonlinear_arith)
        requires
            o == b * (o / b) + o % b,
    ;
    vstd::arithmetic::div_mod::lemma_fundamental_div_mod_converse(o + k, b, o / b, o % b + k);
}

/// A cursor over the contents of a virtual disk.
#[derive(Debug)]
pub struct Reader<'a> {
    pub disk: &'a Vhdx,
    /// The virtual offset of the next read.
    pub offset: u64,
}

impl<'a> Reader<'a> {
    /// The number of bytes that a read of `len` bytes at `o` asks for: up to
    /// the end of the block that holds `o` (and never so far that the
    /// position would pass `u64::MAX`).
    pub open spec fn wanted(disk: &Vhdx, o: int, len: int) -> int {
        let b = disk.bat.block_size as int;
        let to_block_end = b - o % b;
        let to_max = u64::MAX - o;
        let m = if to_block_end < to_max {
            to_block_end
        } else {
            to_max
        };
        if len < m {
            len
        } else {
            m
        }
    }

    /// The bytes of the disk's blocks from virtual offset `o` on, `n` of them.
    pub open spec fn block_bytes(disk: &Vhdx, o: int, n: int) -> Seq<u8> {
        Seq::new(n as nat, |i: int| virtual_byte(disk.bat, disk.image@, o + i))
    }

    /// Reads from the current position into the start of `buf`, never past
    /// the end of the block that holds the position, and returns how many
    /// bytes it read. A block that is not present reads as zeros; a fully
    /// present block reads from the file, which may end early. The position
    /// moves by the number of bytes asked for. A read that starts at or past
    /// the end of the disk returns 0 and leaves the position; one that starts
    /// before it may run on to the end of its block.
    pub fn read(&mut self, buf: &mut Vec<u8>) -> (r: Result<usize, Error>)
        requires
            old(self).disk.wf(),
        ensures
            final(self).disk == old(self).disk,
            final(buf)@.len() == old(buf)@.len(),
            ({
                let d = old(self).disk;
                let o = old(self).offset as int;
                let len = old(buf)@.len() as int;
                if o >= d.bat.virtual_disk_size {
                    r == Ok::<usize, Error>(0) && final(self).offset == o && final(buf)@ == old(buf)@
                } else {
                    let e = d.bat.entries@[d.bat.bat_index(o)];
                    let want = Self::wanted(d, o, len);
                    if e.state == PayloadBatEntryState::PartiallyPresent {
                        r == Err::<usize, Error>(Error::Unsupported(Feature::Differential))
                            && final(self).offset == o && final(buf)@ == old(buf)@
                    } else {
                        r matches Ok(n) && {
                            &&& n <= want
                            &&& want <= d.bat.block_size - o % (d.bat.block_size as int)
                            &&& final(self).offset == o + want
                            &&& final(buf)@.subrange(0, n as int) == Self::block_bytes(
                                d,
                                o,
                                n as int,
                            )
                            &&& final(buf)@.subrange(n as int, len) == old(buf)@.subrange(
                                n as int,
                                len,
                            )
                            &&& e.state.reads_as_zero() ==> n == want && forall|i: int|
                                0 <= i < n ==> #[trigger] final(buf)@[i] == 0
                            &&& e.state == PayloadBatEntryState::FullyPresent ==> {
                                let p = e.file_offset + o % (d.bat.block_size as int);
                                let len_image = d.image@.len() as int;
                                &&& n == if p >= len_image {
                                    0
                                } else if len_image - p < want {
                                    len_image - p
                                } else {
                                    want
                                }
                                &&& n > 0 ==> final(buf)@.subrange(0, n as int) == d.image@.subrange(
                                    p,
                                    p + n,
                                )
                            }
                            &&& e.file_offset + o % (d.bat.block_size as int) + want
                                <= d.image@.len() ==> n == want
                        }
                    }
                }
            }),
    {
        let disk = self.disk;
        let v = disk.bat.virtual_disk_size;
        let o = self.offset;
        if o >= v {
            return Ok(0);
        }
        let (entry, residual) = disk.bat.offset_to_entry(o);
        let b = disk.bat.block_size;
        let mut want = b - residual;
        if u64::MAX - o < want {
            want = u64::MAX - o;
        }
        if (buf.len() as u64) < want {
            want = buf.len() as u64;
        }
        let ghost bi = disk.bat.bat_index(o as int);
        let ghost old_buf = buf@;
        match entry.state {
            PayloadBatEntryState::PartiallyPresent => {
                return Err(Error::Unsupported(Feature::Differential));
            },
            PayloadBatEntryState::FullyPresent => {
                let total = disk.image.len();
                let size = total as u64;
                let n: u64 = if entry.file_offset > u64::MAX - residual || entry.file_offset
                    + residual >= size {
                    0
                } else if size - (entry.file_offset + residual) < want {
                    size - (entry.file_offset + residual)
                } else {
                    want
                };
                let mut i: u64 = 0;
                while i < n
                    invariant
                        disk.wf(),
                        bi == disk.bat.bat_index(o as int),
                        0 <= bi < disk.bat.entries@.len(),
                        *entry == disk.bat.entries@[bi],
                        residual == o % disk.bat.block_size,
                        n <= want,
                        want <= b - residual,
                        b == disk.bat.block_size,
                        o + want <= u64::MAX,
                        v == disk.bat.virtual_disk_size,
                        n > 0 ==> entry.file_offset + residual + n <= disk.image@.len(),
                        size == disk.image@.len(),
                        total == disk.image@.len(),
                        i <= n,
                        buf@.len() == old_buf.len(),
                        want <= buf@.len(),
                        entry.state == PayloadBatEntryState::FullyPresent,
                        forall|k: int|
                            0 <= k < buf@.len() ==> #[trigger] buf@[k] == if k < i {
                                virtual_byte(disk.bat, disk.image@, o + k)
                            } else {
                                old_buf[k]
                            },
                        forall|k: int|
                            0 <= k < i ==> #[trigger] buf@[k] == disk.image@[entry.file_offset
                                + residual + k],
                    decreases n - i,
                {
                    let byte = disk.image[(entry.file_offset + residual + i) as usize];
                    proof {
                        lemma_same_block(o as int, i as int, b as int);
                        assert(disk.bat.bat_index(o + i) == bi);
                        let p = entry.file_offset + (o + i) % (b as int);
                        assert(p == entry.file_offset + residual + i);
                        assert(p < disk.image@.len());
                        assert(disk.image@[p] == byte);
                        assert(virtual_byte(disk.bat, disk.image@, o + i) == byte);
                    }
                    buf.set(i as usize, byte);
                    i += 1;
                }
                self.offset = o + want;
                proof {
                    assert(buf@.subrange(0, n as int) =~= Self::block_bytes(disk, o as int, n as int));
                    if n > 0 {
                        assert(buf@.subrange(0, n as int) =~= disk.image@.subrange(
                            entry.file_offset + residual,
                            entry.file_offset + residual + n,
                        ));
                    }
                    assert(buf@.subrange(n as int, buf@.len() as int) =~= old_buf.subrange(
                        n as int,
                        old_buf.len() as int,
                    ));
                }
                Ok(n as usize)
            },
            _ => {
                let mut i: u64 = 0;
                while i < want
                    invariant
                        disk.wf(),
                        bi == disk.bat.bat_index(o as int),
                        0 <= bi < disk.bat.entries@.len(),
                        *entry == disk.bat.entries@[bi],
                        entry.state.reads_as_zero(),
                        residual == o % disk.bat.block_size,
                        want <= b - residual,
                        b == disk.bat.block_size,
                        o + want <= u64::MAX,
                        v == disk.bat.virtual_disk_size,
                        i <= want,
                        buf@.len() == old_buf.len(),
                        want <= buf@.len(),
                        forall|k: int|
                            0 <= k < buf@.len() ==> #[trigger] buf@[k] == if k < i {
                                0u8
                            } else {
                                old_buf[k]
                            },
                        forall|k: int| 0 <= k < i ==> #[trigger] virtual_byte(disk.bat, disk.image@, o + k) == 0u8,
                    decreases want - i,
                {
                    proof {
                        lemma_same_block(o as int, i as int, b as int);
                        assert(disk.bat.bat_index(o + i) == bi);
                        assert(virtual_byte(disk.bat, disk.image@, o + i) == 0);
                    }
                    buf.set(i as usize, 0u8);
                    i += 1;
                }
                self.offset = o + want;
                proof {
                    assert forall|k: int| 0 <= k < want implies buf@[k] == virtual_byte(disk.bat, disk.image@, o + k) by {
                        assert(buf@[k] == 0u8);
                        assert(virtual_byte(disk.bat, disk.image@, o + k) == 0u8);
                    }
                    assert(buf@.subrange(0, want as int) =~= Self::block_bytes(
                        disk,
                        o as int,
                        want as int,
                    ));
                    assert(buf@.subrange(want as int, buf@.len() as int) =~= old_buf.subrange(
                        want as int,
                        old_buf.len() as int,
                    ));
                }
                Ok(want as usize)
            },
        }
    }

    /// Moves the position. From the end, the anchor is the disk's virtual
    /// size. A position below zero or past `u64::MAX` is refused and leaves
    /// the position as it was; one past the end of the disk is allowed.
    pub fn seek(&mut self, pos: SeekFrom) -> (r: Result<u64, Error>)
        ensures
            final(self).disk == old(self).disk,
            ({
                let target = match pos {
                    SeekFrom::Start(o) => Some(o),
                    SeekFrom::End(d) => shifted(old(self).disk.bat.virtual_disk_size, d),
                    SeekFrom::Current(d) => shifted(old(self).offset, d),
                };
                match target {
                    Some(t) => r == Ok::<u64, Error>(t) && final(self).offset == t,
                    None => r == Err::<u64, Error>(Error::InvalidSeek) && final(self).offset
                        == old(self).offset,
                }
            }),
    {
        let target = match pos {
            SeekFrom::Start(o) => Some(o),
            SeekFrom::End(d) => add_signed(self.disk.bat.virtual_disk_size, d),
            SeekFrom::Current(d) => add_signed(self.offset, d),
        };
        match target {
            Some(t) => {
                self.offset = t;
                Ok(t)
            },
            None => Err(Error::InvalidSeek),
        }
    }

    /// Writing is not supported: the reader is read-only.
    pub fn write(&mut self, buf: &[u8]) -> (r: Result<usize, Error>)
        ensures
            r == Err::<usize, Error>(Error::Unsupported(Feature::Write)),
            *final(self) == *old(self),
    {
        Err(Error::Unsupported(Feature::Write))
    }

    /// Flushing is not supported: the reader is read-only.
    pub fn flush(&mut self) -> (r: Result<(), Error>)
        ensures
            r == Err::<(), Error>(Error::Unsupported(Feature::Write)),
            *final(self) == *old(self),
    {
        Err(Error::Unsupported(Feature::Write))
    }
}

} // verus!
