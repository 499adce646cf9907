use vhdx::guid::Guid;
use vhdx::log::next_multiple_of;
use vhdx::{Error, Feature, SeekFrom, Vhdx};

const KB: usize = 1024;
const MB: usize = 1024 * 1024;
const LOG_OFFSET: usize = MB;
const METADATA_OFFSET: usize = 2 * MB;
const DATA_OFFSET: usize = 3 * MB;
const BAT_OFFSET: usize = 5 * MB;
const IMAGE_SIZE: usize = 6 * MB;

const LOG_GUID: &str = "11111111-2222-3333-4444-555555555555";

struct Layout {
    virtual_disk_size: u64,
    block_size: u32,
    logical_sector_size: u32,
    bat: Vec<u64>,
    parent_locator: bool,
    log_guid: Option<&'static str>,
}

impl Layout {
    fn new(virtual_disk_size: u64, bat: Vec<u64>) -> Self {
        Layout {
            virtual_disk_size,
            block_size: MB as u32,
            logical_sector_size: 512,
            bat,
            parent_locator: false,
            log_guid: None,
        }
    }
}

fn put(image: &mut [u8], at: usize, bytes: &[u8]) {
    image[at..at + bytes.len()].copy_from_slice(bytes);
}

fn guid_bytes(text: &str) -> [u8; 16] {
    Guid::from_str(text).unwrap().to_bytes()
}

fn header(image: &mut [u8], at: usize, sequence_number: u64, log_guid: Option<&str>) {
    put(image, at, b"head");
    put(image, at + 8, &sequence_number.to_le_bytes());
    if let Some(g) = log_guid {
        put(image, at + 48, &guid_bytes(g));
    }
    put(image, at + 64, &0u16.to_le_bytes());
    put(image, at + 66, &1u16.to_le_bytes());
    put(image, at + 68, &(MB as u32).to_le_bytes());
    put(image, at + 72, &(LOG_OFFSET as u64).to_le_bytes());
}

fn region_table(image: &mut [u8], at: usize) {
    put(image, at, b"regi");
    put(image, at + 8, &2u32.to_le_bytes());
    let entries = [
        ("2DC27766-F623-4200-9D64-115E9BFD4A08", BAT_OFFSET),
        ("8B7CA206-4790-4B9A-B8FE-575F050F886E", METADATA_OFFSET),
    ];
    for (i, (g, offset)) in entries.iter().enumerate() {
        let e = at + 16 + 32 * i;
        put(image, e, &guid_bytes(g));
        put(image, e + 16, &(*offset as u64).to_le_bytes());
        put(image, e + 24, &(MB as u32).to_le_bytes());
        put(image, e + 28, &1u32.to_le_bytes());
    }
}

fn metadata(image: &mut [u8], layout: &Layout) {
    let mut items: Vec<(&str, Vec<u8>)> = Vec::new();
    let mut file_parameters = layout.block_size.to_le_bytes().to_vec();
    file_parameters.extend_from_slice(&[0, 0, 0, 0]);
    if layout.parent_locator {
        file_parameters[4] = 0x40;
    }
    items.push(("CAA16737-FA36-4D43-B3B6-33F0AA44E76B", file_parameters));
    items.push((
        "2FA54224-CD1B-4876-B211-5DBED83BF4B8",
        layout.virtual_disk_size.to_le_bytes().to_vec(),
    ));
    items.push((
        "BECA12AB-B2E6-4523-93EF-C309E000C746",
        guid_bytes("01234567-89AB-CDEF-0123-456789ABCDEF").to_vec(),
    ));
    items.push((
        "8141BF1D-A96F-4709-BA47-F233A8FAAB5F",
        layout.logical_sector_size.to_le_bytes().to_vec(),
    ));
    items.push(("CDA348C7-445D-4471-9CC9-E9885251C556", 4096u32.to_le_bytes().to_vec()));
    if layout.parent_locator {
        let mut locator = guid_bytes("B04AEFB7-D19E-4A81-B789-25B8E9445913").to_vec();
        locator.extend_from_slice(&[0, 0, 3, 0]);
        items.push(("A8D35F2D-B30B-454D-ABF7-D3D84834AB0C", locator));
    }
    let base = METADATA_OFFSET;
    put(image, base, b"metadata");
    put(image, base + 10, &(items.len() as u16).to_le_bytes());
    for (i, (g, payload)) in items.iter().enumerate() {
        let e = base + 32 + 32 * i;
        let offset = 64 * KB + 256 * i;
        put(image, e, &guid_bytes(g));
        put(image, e + 16, &(offset as u32).to_le_bytes());
        put(image, e + 20, &(payload.len() as u32).to_le_bytes());
        image[e + 24] = 0b110;
        put(image, base + offset, payload);
    }
}

fn build(layout: &Layout) -> Vec<u8> {
    let mut image = vec![0u8; IMAGE_SIZE];
    put(&mut image, 0, b"vhdxfile");
    for (i, c) in "test".encode_utf16().enumerate() {
        put(&mut image, 8 + 2 * i, &c.to_le_bytes());
    }
    header(&mut image, 64 * KB, 1, None);
    header(&mut image, 128 * KB, 2, layout.log_guid);
    region_table(&mut image, 192 * KB);
    region_table(&mut image, 256 * KB);
    metadata(&mut image, layout);
    for (i, raw) in layout.bat.iter().enumerate() {
        put(&mut image, BAT_OFFSET + 8 * i, &raw.to_le_bytes());
    }
    image
}

/// A log entry at the start of the log with one data descriptor that writes
/// one sector at `target`.
fn log_with_data_entry(image: &mut [u8], target: u64, flushed_file_offset: u64) {
    let at = LOG_OFFSET;
    put(image, at, b"loge");
    put(image, at + 8, &(8 * KB as u32).to_le_bytes());
    put(image, at + 12, &0u32.to_le_bytes());
    put(image, at + 16, &1u64.to_le_bytes());
    put(image, at + 24, &1u32.to_le_bytes());
    put(image, at + 32, &guid_bytes(LOG_GUID));
    put(image, at + 48, &flushed_file_offset.to_le_bytes());
    put(image, at + 56, &0u64.to_le_bytes());
    let d = at + 64;
    put(image, d, b"desc");
    put(image, d + 4, b"WXYZ");
    put(image, d + 8, b"ABCDEFGH");
    put(image, d + 16, &target.to_le_bytes());
    put(image, d + 24, &1u64.to_le_bytes());
    let s = at + 4 * KB;
    put(image, s, b"data");
    for i in 0..4084 {
        image[s + 8 + i] = b'I' + (i % 10) as u8;
    }
}

/// A log entry with one zero descriptor, at `at` within the log.
fn log_zero_entry(image: &mut [u8], at: usize, seq: u64, tail: u32, target: u64, len: u64, desc_seq: u64) {
    let at = LOG_OFFSET + at;
    put(image, at, b"loge");
    put(image, at + 8, &(4 * KB as u32).to_le_bytes());
    put(image, at + 12, &tail.to_le_bytes());
    put(image, at + 16, &seq.to_le_bytes());
    put(image, at + 24, &1u32.to_le_bytes());
    put(image, at + 32, &guid_bytes(LOG_GUID));
    let d = at + 64;
    put(image, d, b"zero");
    put(image, d + 8, &len.to_le_bytes());
    put(image, d + 16, &target.to_le_bytes());
    put(image, d + 24, &desc_seq.to_le_bytes());
}

/// Reads `total` bytes from the start of the disk, asking for at most
/// `chunk` bytes at a time.
fn read_all(disk: &Vhdx, chunk: usize, total: usize) -> Vec<u8> {
    let mut reader = disk.reader();
    let mut out = Vec::new();
    while out.len() < total {
        let mut buf = vec![0u8; chunk.min(total - out.len())];
        let n = reader.read(&mut buf).unwrap();
        if n == 0 {
            break;
        }
        out.extend_from_slice(&buf[..n]);
    }
    out
}

#[test]
fn load_reports_virtual_disk_size() {
    let disk = Vhdx::load(build(&Layout::new(64 << 20, vec![0; 64]))).unwrap();
    assert_eq!(disk.virtual_disk_size(), 64 << 20);
    assert_eq!(disk.metadata.file_parameters.block_size(), 1 << 20);
    assert_eq!(disk.metadata.logical_sector_size.logical_sector_size(), 512);
    assert_eq!(disk.metadata.physical_sector_size.physical_sector_size(), 4096);
    assert_eq!(
        disk.metadata.virtual_disk_id.virtual_disk_id(),
        Guid::from_str("01234567-89AB-CDEF-0123-456789ABCDEF").unwrap()
    );
    assert!(disk.metadata.parent_locator.is_none());
    assert_eq!(disk.primary_header().sequence_number, 2);
    let creator: Vec<u16> = "test".encode_utf16().collect();
    assert_eq!(disk.header_section.file_type_identifier.creator(), &creator);
    assert!(!disk.replayed);
}

#[test]
fn empty_disk_reads_zeros() {
    let mut image = build(&Layout::new(64 << 20, vec![0; 64]));
    image[0x30_0000] = 0xAA;
    let disk = Vhdx::load(image).unwrap();
    let mut reader = disk.reader();
    let mut buf = vec![0xFFu8; 4096];
    assert_eq!(reader.read(&mut buf), Ok(4096));
    assert!(buf.iter().all(|b| *b == 0));
}

#[test]
fn zero_states_read_zeros() {
    let mut image = build(&Layout::new(4 << 20, vec![0x30_0000, 0x30_0001, 0x30_0002, 0x30_0003]));
    for b in &mut image[0x30_0000..0x40_0000] {
        *b = 0x5A;
    }
    let disk = Vhdx::load(image).unwrap();
    let mut reader = disk.reader();
    for block in 0..4u64 {
        reader.seek(SeekFrom::Start(block * (1 << 20) + 100)).unwrap();
        let mut buf = vec![0xFFu8; 300];
        assert_eq!(reader.read(&mut buf), Ok(300));
        assert!(buf.iter().all(|b| *b == 0));
    }
}

#[test]
fn single_fully_present_block() {
    let mut image = build(&Layout::new(64 << 20, {
        let mut bat = vec![0u64; 64];
        bat[0] = DATA_OFFSET as u64 | 6;
        bat
    }));
    for i in 0..MB {
        image[DATA_OFFSET + i] = (i % 251) as u8;
    }
    let expected = image[0x30_1000..0x30_1000 + 512].to_vec();
    let disk = Vhdx::load(image).unwrap();
    let mut reader = disk.reader();
    assert_eq!(reader.seek(SeekFrom::Start(0x1000)), Ok(0x1000));
    let mut buf = vec![0u8; 512];
    assert_eq!(reader.read(&mut buf), Ok(512));
    assert_eq!(buf, expected);
    assert_eq!(reader.offset, 0x1000 + 512);
}

#[test]
fn reads_stop_at_block_end() {
    let disk = Vhdx::load(build(&Layout::new(64 << 20, vec![0; 64]))).unwrap();
    let mut reader = disk.reader();
    reader.seek(SeekFrom::Start((1 << 20) - 10)).unwrap();
    let mut buf = vec![0xFFu8; 100];
    assert_eq!(reader.read(&mut buf), Ok(10));
    assert_eq!(buf[10], 0xFF);
    assert_eq!(reader.read(&mut buf), Ok(100));
    assert_eq!(reader.offset, (1 << 20) + 100);
}

#[test]
fn reading_in_chunks_matches_one_pass() {
    let v = (3 << 20) + 1000;
    let mut image = build(&Layout::new(v, vec![0, DATA_OFFSET as u64 | 6, 2, 0x40_0006]));
    for i in 0..2 * MB {
        image[DATA_OFFSET + i] = (i % 253) as u8;
    }
    let disk = Vhdx::load(image).unwrap();
    let whole = read_all(&disk, 4 << 20, v as usize);
    assert_eq!(whole.len() as u64, v);
    assert_eq!(read_all(&disk, 777, v as usize), whole);
    assert_eq!(read_all(&disk, 4096, v as usize), whole);
    assert!(whole[..1 << 20].iter().all(|b| *b == 0));
    assert_eq!(whole[(1 << 20) + 5], 5);
}

#[test]
fn end_of_disk_reads_nothing() {
    let disk = Vhdx::load(build(&Layout::new(64 << 20, vec![0; 64]))).unwrap();
    let mut reader = disk.reader();
    assert_eq!(reader.seek(SeekFrom::End(0)), Ok(64 << 20));
    let mut buf = vec![0u8; 16];
    assert_eq!(reader.read(&mut buf), Ok(0));
    assert_eq!(reader.seek(SeekFrom::End(10)), Ok((64 << 20) + 10));
    assert_eq!(reader.read(&mut buf), Ok(0));
    assert_eq!(reader.seek(SeekFrom::Current(-20)), Ok((64 << 20) - 10));
    assert_eq!(reader.read(&mut buf), Ok(10));
}

#[test]
fn invalid_seeks() {
    let disk = Vhdx::load(build(&Layout::new(64 << 20, vec![0; 64]))).unwrap();
    let mut reader = disk.reader();
    assert_eq!(reader.seek(SeekFrom::Current(-1)), Err(Error::InvalidSeek));
    assert_eq!(reader.offset, 0);
    assert_eq!(reader.seek(SeekFrom::End(-(65 << 20))), Err(Error::InvalidSeek));
    reader.seek(SeekFrom::Start(u64::MAX)).unwrap();
    assert_eq!(reader.seek(SeekFrom::Current(1)), Err(Error::InvalidSeek));
    assert_eq!(reader.seek(SeekFrom::Current(i64::MIN)), Ok(u64::MAX - (1 << 63)));
}

#[test]
fn writing_is_unsupported() {
    let disk = Vhdx::load(build(&Layout::new(64 << 20, vec![0; 64]))).unwrap();
    let mut reader = disk.reader();
    assert_eq!(reader.write(b"x"), Err(Error::Unsupported(Feature::Write)));
    assert_eq!(reader.flush(), Err(Error::Unsupported(Feature::Write)));
}

#[test]
fn log_replay_writes_data_sector() {
    let mut layout = Layout::new(64 << 20, vec![0; 64]);
    layout.log_guid = Some(LOG_GUID);
    let mut image = build(&layout);
    log_with_data_entry(&mut image, 0x40_0000, 0);
    let disk = Vhdx::load(image).unwrap();
    assert!(disk.replayed);
    assert_eq!(disk.image[0x40_0000], b'A');
    assert_eq!(&disk.image[0x40_0000..0x40_0008], b"ABCDEFGH");
    assert_eq!(disk.image[0x40_0008], b'I');
    assert_eq!(&disk.image[0x40_0FFC..0x40_1000], b"WXYZ");
}

#[test]
fn second_load_changes_nothing() {
    let mut layout = Layout::new(64 << 20, vec![0; 64]);
    layout.log_guid = Some(LOG_GUID);
    let mut image = build(&layout);
    log_with_data_entry(&mut image, 0x40_0000, 0);
    let first = Vhdx::load(image).unwrap();
    let again = Vhdx::load(first.image.clone()).unwrap();
    assert_eq!(again.image, first.image);
}

#[test]
fn truncated_file_is_corrupt() {
    let mut layout = Layout::new(64 << 20, vec![0; 64]);
    layout.log_guid = Some(LOG_GUID);
    let mut image = build(&layout);
    log_with_data_entry(&mut image, 0x40_0000, 16 << 20);
    assert_eq!(Vhdx::load(image).unwrap_err(), Error::Corrupt);
}

#[test]
fn log_without_entries_is_corrupt() {
    let mut layout = Layout::new(64 << 20, vec![0; 64]);
    layout.log_guid = Some(LOG_GUID);
    assert_eq!(Vhdx::load(build(&layout)).unwrap_err(), Error::Corrupt);
}

#[test]
fn log_write_past_end_is_rejected() {
    let mut layout = Layout::new(64 << 20, vec![0; 64]);
    layout.log_guid = Some(LOG_GUID);
    let mut image = build(&layout);
    log_with_data_entry(&mut image, IMAGE_SIZE as u64, 0);
    assert_eq!(Vhdx::load(image).unwrap_err(), Error::BadFormat);
}

#[test]
fn partially_present_block_is_unsupported() {
    let mut layout = Layout::new(64 << 20, {
        let mut bat = vec![0u64; 64];
        bat[0] = DATA_OFFSET as u64 | 7;
        bat
    });
    layout.parent_locator = true;
    let disk = Vhdx::load(build(&layout)).unwrap();
    let locator = disk.metadata.parent_locator.unwrap();
    assert_eq!(locator.key_value_count, 3);
    let mut reader = disk.reader();
    let mut buf = vec![0u8; 512];
    assert_eq!(reader.read(&mut buf), Err(Error::Unsupported(Feature::Differential)));
}

#[test]
fn load_errors() {
    let layout = Layout::new(64 << 20, vec![0; 64]);
    let mut image = build(&layout);
    image[0] = b'X';
    assert_eq!(Vhdx::load(image).unwrap_err(), Error::InvalidSignature);

    let mut image = build(&layout);
    image[128 * KB + 66] = 2;
    assert_eq!(Vhdx::load(image).unwrap_err(), Error::BadFormat);

    let image = build(&layout);
    assert_eq!(Vhdx::load(image[..100 * KB].to_vec()).unwrap_err(), Error::Io);

    let mut sectors = Layout::new(64 << 20, vec![0; 64]);
    sectors.logical_sector_size = 1000;
    assert_eq!(Vhdx::load(build(&sectors)).unwrap_err(), Error::BadFormat);

    let huge = Layout::new(5 << 30, vec![0; 64]);
    assert_eq!(Vhdx::load(build(&huge)).unwrap_err(), Error::Unsupported(Feature::SectorBitmap));

    let mut image = build(&layout);
    image[METADATA_OFFSET] = b'X';
    assert_eq!(Vhdx::load(image).unwrap_err(), Error::InvalidSignature);

    let mut image = build(&layout);
    put(&mut image, BAT_OFFSET, &4u64.to_le_bytes());
    assert_eq!(Vhdx::load(image).unwrap_err(), Error::BadFormat);
}

#[test]
fn missing_mandatory_item_is_bad_format() {
    let layout = Layout::new(64 << 20, vec![0; 64]);
    let mut image = build(&layout);
    // Mark the virtual disk size entry empty.
    let e = METADATA_OFFSET + 32 + 32;
    put(&mut image, e + 16, &0u32.to_le_bytes());
    put(&mut image, e + 20, &0u32.to_le_bytes());
    assert_eq!(Vhdx::load(image).unwrap_err(), Error::BadFormat);
}

#[test]
fn log_replay_zeroes_range() {
    let mut layout = Layout::new(64 << 20, vec![0; 64]);
    layout.log_guid = Some(LOG_GUID);
    let mut image = build(&layout);
    for b in &mut image[0x30_0000..0x30_4000] {
        *b = 0xAA;
    }
    log_zero_entry(&mut image, 0, 7, 0, 0x30_1000, 0x2000, 7);
    let disk = Vhdx::load(image).unwrap();
    assert!(disk.replayed);
    assert!(disk.image[0x30_1000..0x30_3000].iter().all(|b| *b == 0));
    assert_eq!(disk.image[0x30_0FFF], 0xAA);
    assert_eq!(disk.image[0x30_3000], 0xAA);
}

#[test]
fn log_replay_applies_entries_in_order() {
    let mut layout = Layout::new(64 << 20, vec![0; 64]);
    layout.log_guid = Some(LOG_GUID);
    let mut image = build(&layout);
    log_with_data_entry(&mut image, 0x30_0000, 0);
    // A second entry, numbered after the first, zeroes the start of that sector.
    log_zero_entry(&mut image, 8 * KB, 2, 0, 0x30_0000, 0x1000, 2);
    let disk = Vhdx::load(image).unwrap();
    assert!(disk.image[0x30_0000..0x30_1000].iter().all(|b| *b == 0));
}

#[test]
fn log_entry_out_of_sequence_is_passed_over() {
    let mut layout = Layout::new(64 << 20, vec![0; 64]);
    layout.log_guid = Some(LOG_GUID);
    let mut image = build(&layout);
    log_with_data_entry(&mut image, 0x30_0000, 0);
    log_zero_entry(&mut image, 8 * KB, 5, 0, 0x30_0000, 0x1000, 5);
    let disk = Vhdx::load(image).unwrap();
    assert_eq!(&disk.image[0x30_0000..0x30_0008], b"ABCDEFGH");
}

#[test]
fn descriptor_of_another_entry_is_rejected() {
    let mut layout = Layout::new(64 << 20, vec![0; 64]);
    layout.log_guid = Some(LOG_GUID);
    let mut image = build(&layout);
    log_zero_entry(&mut image, 0, 3, 0, 0x30_0000, 0x1000, 4);
    assert_eq!(Vhdx::load(image).unwrap_err(), Error::BadFormat);
}

#[test]
fn next_multiple_of_rounds_up() {
    assert_eq!(next_multiple_of(4097, 4096), 8192);
    assert_eq!(next_multiple_of(8192, 4096), 8192);
    assert_eq!(next_multiple_of(0, 4096), 0);
    assert_eq!(next_multiple_of(65, 32), 96);
}

#[test]
fn present_block_past_end_of_file_reads_nothing() {
    let mut bat = vec![0u64; 64];
    bat[0] = IMAGE_SIZE as u64 | 6;
    let disk = Vhdx::load(build(&Layout::new(64 << 20, bat))).unwrap();
    let mut reader = disk.reader();
    let mut buf = vec![0xEEu8; 64];
    assert_eq!(reader.read(&mut buf), Ok(0));
    assert!(buf.iter().all(|b| *b == 0xEE));
    assert_eq!(reader.offset, 64);
}

#[test]
fn read_near_disk_end_runs_to_block_end() {
    let v = 0x18_0000u64;
    let disk = Vhdx::load(build(&Layout::new(v, vec![0, 2]))).unwrap();
    let mut reader = disk.reader();
    reader.seek(SeekFrom::Start(0x16_0000)).unwrap();
    let mut buf = vec![0xFFu8; 0x8_0000];
    assert_eq!(reader.read(&mut buf), Ok(0x8_0000));
    assert!(buf.iter().all(|b| *b == 0));
    assert_eq!(reader.offset, 0x1E_0000);
    assert_eq!(reader.read(&mut buf), Ok(0));
}
