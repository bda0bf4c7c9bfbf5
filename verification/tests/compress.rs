use sw_core::compress::{decompress, is_compressed};

/// A `.Z` record of a root `.cshrc`, compressed with 16-bit block mode,
/// and its content.
const CSHRC_Z: [u8; 116] = [
    0x1f, 0x9d, 0x90, 0x23, 0x40, 0xb8, 0x18, 0x33, 0x07, 0x8d, 0x9c, 0x31, 0x20, 0xcc, 0xbc, 0x91, 0x03, 0x42, 0xce, 0x9b, 0x37, 0x74, 0x14, 0xcc, 0x29, 0x43, 0x07, 0x04, 0x9c, 0x30, 0x74, 0xd0, 0x80, 0xe8, 0x01, 0x02, 0xc5, 0x8b, 0x3a, 0x73, 0xe4, 0xbc, 0x98, 0x23, 0x26, 0x8d, 0x1b, 0x10, 0x1f, 0x43, 0xbe, 0x10, 0x33, 0x87, 0x0c, 0x4a, 0x92, 0x26, 0x51, 0x82, 0x14, 0x59, 0xf2, 0xe4, 0xca, 0x98, 0x2f, 0x28, 0x22, 0x4c, 0x29, 0x52, 0x67, 0x0a, 0x89, 0x14, 0x2d, 0x3a, 0x6c, 0x03, 0xa7, 0x22, 0x47, 0x11, 0x60, 0xd0, 0xbc, 0x99, 0x43, 0xc7, 0x4d, 0x98, 0x36, 0x65, 0xc0, 0x04, 0x14, 0x01, 0x94, 0x4e, 0x19, 0x37, 0x76, 0x40, 0x50, 0x29, 0x22, 0xa5, 0x09, 0x88, 0x34, 0x72, 0xd2, 0xcc, 0x51, 0x00
];
const CSHRC: &[u8] = b"# .cshrc for root\nset path = (/usr/sbin /usr/bsd /sbin /usr/bin /bin /etc /usr/etc)\nset prompt = \"`hostname`# \"\nsetenv TERM iris\n";

#[test]
fn detects_magic() {
    assert!(is_compressed(&[0x1F, 0x9D, 0x90]));
    assert!(!is_compressed(&[0x1F, 0x8B, 0x08]));
    assert!(!is_compressed(&[0x1F]));
}

#[test]
fn decodes_real_record() {
    let decoded = decompress(&CSHRC_Z).unwrap();
    assert_eq!(decoded, CSHRC);
}

#[test]
fn rejects_garbage() {
    assert!(decompress(b"hello world").is_err());
    assert!(decompress(&[0x1F, 0x9D, 0x05, 0x00]).is_err());
}

#[test]
fn garbage_is_reported_as_not_a_z_stream() {
    let error = decompress(b"hello world").unwrap_err();
    assert_eq!(error.to_string(), "compress stream error: not a .Z stream");
}

#[test]
fn truncated_record_fails_without_panicking() {
    for cut in 3..CSHRC_Z.len() - 1 {
        let _ = decompress(&CSHRC_Z[..cut]);
    }
}

#[test]
fn a_code_defined_by_its_own_use_repeats_the_previous_string() {
    // Non-block mode, 9-bit codes 65, 256, 257: "A", then "A"+"A", then "AA"+"A".
    let stream = [0x1F, 0x9D, 0x10, 0x41, 0x00, 0x06, 0x04];
    assert_eq!(decompress(&stream).unwrap(), b"AAAAAA");
}

#[test]
fn a_clear_code_restarts_the_table_in_a_new_chunk() {
    // Block mode: 65, 66, 257 ("AB"), CLEAR in the first 9-byte chunk; then
    // 67, 68 in the next chunk.
    let stream = [0x1F, 0x9D, 0x90, 0x41, 0x84, 0x04, 0x04, 0x08, 0x00, 0x00, 0x00, 0x00, 0x43, 0x88, 0x00];
    assert_eq!(decompress(&stream).unwrap(), b"ABABCD");
}

#[test]
fn a_code_beyond_the_table_is_corrupt() {
    // Non-block mode: 65, then 300 while the next free code is 256.
    let stream = [0x1F, 0x9D, 0x10, 0x41, 0x58, 0x02];
    let error = decompress(&stream).unwrap_err();
    assert_eq!(error.to_string(), "compress stream error: corrupt .Z stream");
}

#[test]
fn bare_magic_counts_as_compressed() {
    assert!(is_compressed(&[0x1F, 0x9D]));
    assert!(!is_compressed(&[]));
}
