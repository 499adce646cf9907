use vhdx::bat::{chunk_ratio, div_ceil, Bat, BatEntry, PayloadBatEntryState};
use vhdx::{Error, Feature};

fn raw_table(raws: &[u64]) -> Vec<u8> {
    let mut image = vec![0u8; 16];
    for r in raws {
        image.extend_from_slice(&r.to_le_bytes());
    }
    image
}

#[test]
fn chunk_ratio_for_512_byte_sectors_and_1_mib_blocks() {
    assert_eq!(chunk_ratio(512, 1 << 20), 4096);
    assert_eq!(chunk_ratio(4096, 1 << 20), 32768);
    assert_eq!(chunk_ratio(512, 32 << 20), 128);
}

#[test]
fn div_ceil_rounds_up() {
    assert_eq!(div_ceil(0, 4), 0);
    assert_eq!(div_ceil(8, 4), 2);
    assert_eq!(div_ceil(9, 4), 3);
    assert_eq!(div_ceil(u64::MAX, 2), 1 << 63);
}

#[test]
fn entry_decodes_state_and_offset() {
    let e = BatEntry::from_raw(0x0030_0000 | 6 | 0xF0).unwrap();
    assert_eq!(e.state(), PayloadBatEntryState::FullyPresent);
    assert_eq!(e.file_offset(), 0x0030_0000);
    assert_eq!(BatEntry::from_raw(4).unwrap_err(), Error::BadFormat);
    assert_eq!(BatEntry::from_raw(5).unwrap_err(), Error::BadFormat);
    assert_eq!(BatEntry::from_raw(2).unwrap().state(), PayloadBatEntryState::Zero);
    assert_eq!(PayloadBatEntryState::from_bits(7), Ok(PayloadBatEntryState::PartiallyPresent));
}

#[test]
fn offset_to_entry_stays_in_the_table() {
    let block = 1u32 << 20;
    let v = 3 * (1u64 << 20) + 100;
    let image = raw_table(&[0, 0x0030_0006, 2, 3]);
    let bat = Bat::read(&image, 16, block, 512, v).unwrap();
    assert_eq!(bat.entries.len(), 4);
    for o in [0u64, 1, (1 << 20) - 1, 1 << 20, 0x15_0000, 3 << 20, v - 1] {
        let (entry, residual) = bat.offset_to_entry(o);
        assert!(residual < block as u64);
        assert_eq!(residual, o % (block as u64));
        let index = (o / (block as u64)) as usize;
        assert_eq!(entry.file_offset(), bat.entries[index].file_offset());
    }
    let (entry, residual) = bat.offset_to_entry(0x10_1000);
    assert_eq!(entry.state(), PayloadBatEntryState::FullyPresent);
    assert_eq!(entry.file_offset(), 0x30_0000);
    assert_eq!(residual, 0x1000);
}

#[test]
fn bat_parse_errors() {
    let image = raw_table(&[0, 0]);
    assert_eq!(Bat::read(&image, 16, 0, 512, 10).unwrap_err(), Error::BadFormat);
    assert_eq!(Bat::read(&image, 16, 1 << 20, 512, 3 << 20).unwrap_err(), Error::Io);
    assert_eq!(
        Bat::read(&image, 16, 1 << 20, 512, 5 << 30).unwrap_err(),
        Error::Unsupported(Feature::SectorBitmap)
    );
    let bad = raw_table(&[0, 5]);
    assert_eq!(Bat::read(&bad, 16, 1 << 20, 512, 2 << 20).unwrap_err(), Error::BadFormat);
    assert_eq!(Bat::read(&image, 16, 1 << 20, 512, 0).unwrap().entries.len(), 0);
}
