use sw_core::distribution::{
    build_product, ArchiveFile, ArchiveProbe, Distribution, DistributionSupportFiles, EntryKey, FileContent,
};
use sw_core::error::Error;
use sw_core::idb::EntryId;
use sw_core::image::PayloadResolution;

const IDB: &str = "f 0644 root sys a src/a t.sw.base size(3) cmpsize(0)\n\
                   f 0644 root sys b src/b t.sw.base size(2) cmpsize(0)\n";

fn record(bytes: &mut Vec<u8>, name: &str, data: &[u8]) {
    bytes.extend_from_slice(&(name.len() as u16).to_be_bytes());
    bytes.extend_from_slice(name.as_bytes());
    bytes.extend_from_slice(data);
}

fn archive(shift: usize) -> Vec<u8> {
    let mut bytes = b"im001V530P00\0".to_vec();
    bytes.extend(std::iter::repeat(0u8).take(shift));
    record(&mut bytes, "a", b"xyz");
    record(&mut bytes, "b", b"hi");
    bytes
}

fn distribution(archive_len: u64) -> Distribution {
    let product = build_product(
        "dist",
        "t",
        &FileContent::Absent,
        &FileContent::Bytes(IDB.as_bytes().to_vec()),
        &[ArchiveFile {
            file_name: "t.sw".to_string(),
            probe: ArchiveProbe::Found { file_size: archive_len, header: b"im001V530P00\0".to_vec() },
        }],
    )
    .unwrap();
    Distribution::assemble("dist".to_string(), vec![product], DistributionSupportFiles::default(), Vec::new())
}

fn reader_of(bytes: &[u8]) -> impl Fn(&str, u64, usize) -> Result<Vec<u8>, Error> + '_ {
    move |_archive: &str, offset: u64, length: usize| {
        let start = offset as usize;
        if start + length > bytes.len() {
            Err(Error::Io { path: "<image archive>".to_string(), message: "short read".to_string() })
        } else {
            Ok(bytes[start..start + length].to_vec())
        }
    }
}

fn key(id: usize) -> EntryKey {
    EntryKey { product_index: 0, entry_id: EntryId(id) }
}

#[test]
fn intact_archive_reads_at_the_expected_offset() {
    let bytes = archive(0);
    let dist = distribution(bytes.len() as u64);
    let read = reader_of(&bytes);
    let mut reader = dist.image_reader();
    let payload = reader.read(key(0), &read).unwrap();
    assert_eq!(payload.bytes, b"xyz");
    assert_eq!(payload.location.resolution, PayloadResolution::Exact);
    assert_eq!(payload.location.actual_record_offset, 13);
    assert_eq!(payload.location.data_offset, 16);
    assert!(!payload.stored_compressed);
    assert_eq!(payload.decode().unwrap(), b"xyz");
    let payload = reader.read(key(1), &read).unwrap();
    assert_eq!(payload.bytes, b"hi");
    assert_eq!(payload.location.actual_record_offset, 19);
}

#[test]
fn a_shifted_archive_is_resynchronized_then_read_by_delta() {
    let bytes = archive(5);
    let dist = distribution(bytes.len() as u64);
    let read = reader_of(&bytes);
    let mut reader = dist.image_reader();
    let payload = reader.read(key(0), &read).unwrap();
    assert_eq!(payload.bytes, b"xyz");
    assert_eq!(payload.location.resolution, PayloadResolution::Resynced { delta: Some(5) });
    assert_eq!(payload.location.matched_name, "a");
    let payload = reader.read(key(1), &read).unwrap();
    assert_eq!(payload.bytes, b"hi");
    assert_eq!(payload.location.resolution, PayloadResolution::Delta { delta: 5 });
}

#[test]
fn unknown_keys_are_reported() {
    let bytes = archive(0);
    let dist = distribution(bytes.len() as u64);
    let read = reader_of(&bytes);
    let mut reader = dist.image_reader();
    assert!(matches!(reader.read(key(7), &read), Err(Error::EntryNotFound { .. })));
    let foreign = EntryKey { product_index: 3, entry_id: EntryId(0) };
    assert!(matches!(reader.read(foreign, &read), Err(Error::EntryNotFound { .. })));
}

#[test]
fn a_missing_record_fails_resynchronization() {
    let mut bytes = b"im001V530P00\0".to_vec();
    record(&mut bytes, "zz", b"...");
    let dist = distribution(bytes.len() as u64);
    let read = reader_of(&bytes);
    let mut reader = dist.image_reader();
    assert!(matches!(reader.read(key(0), &read), Err(Error::ResyncFailed { .. })));
}
