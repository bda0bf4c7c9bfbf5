use sw_core::descriptor::model::Version;
use sw_core::descriptor::parser::{parse, DESCRIPTOR_HEADER_SIZE};

fn lp16(bytes: &mut Vec<u8>, s: &str) {
    bytes.extend_from_slice(&(s.len() as u16).to_be_bytes());
    bytes.extend_from_slice(s.as_bytes());
}

fn be16(bytes: &mut Vec<u8>, value: u16) {
    bytes.extend_from_slice(&value.to_be_bytes());
}

fn be32(bytes: &mut Vec<u8>, value: u32) {
    bytes.extend_from_slice(&value.to_be_bytes());
}

fn range(bytes: &mut Vec<u8>, target: (&str, &str, &str), low: u32, high: u32) {
    lp16(bytes, target.0);
    lp16(bytes, target.1);
    lp16(bytes, target.2);
    be32(bytes, low);
    be32(bytes, high);
}

fn stream_header(bytes: &mut Vec<u8>, level: u16) {
    be16(bytes, 0x07c4);
    be16(bytes, 0x0001);
    be16(bytes, 0x07c3);
    be16(bytes, level);
}

/// A level 9 descriptor with one image and two subsystems, exercising
/// every present field.
fn level9_descriptor() -> Vec<u8> {
    let mut bytes = b"pd001V630P00\0".to_vec();
    assert_eq!(bytes.len(), DESCRIPTOR_HEADER_SIZE);
    stream_header(&mut bytes, 9);
    lp16(&mut bytes, "test");
    lp16(&mut bytes, "Test Product");
    be16(&mut bytes, 0x0850);
    be32(&mut bytes, 0x0102_0304);
    lp16(&mut bytes, "");
    be32(&mut bytes, 1);
    lp16(&mut bytes, "mCPUBOARD=IP22");
    be16(&mut bytes, 1);

    be16(&mut bytes, 0x0858);
    lp16(&mut bytes, "sw");
    lp16(&mut bytes, "System Software");
    be16(&mut bytes, 2);
    be16(&mut bytes, 9999);
    be32(&mut bytes, 0x0102_0305);
    lp16(&mut bytes, "");
    be32(&mut bytes, 0);
    be16(&mut bytes, 2);

    be16(&mut bytes, 0x0852);
    lp16(&mut bytes, "unix");
    lp16(&mut bytes, "UNIX Kernel");
    lp16(&mut bytes, "EOE");
    be32(&mut bytes, 0);
    be16(&mut bytes, 1);
    range(&mut bytes, ("patch*", "sw", "unix"), 0, 0x0102_0304);
    be16(&mut bytes, 1);
    be16(&mut bytes, 1);
    range(&mut bytes, ("dmedia_eoe", "sw", "audio"), 0, 0x7fff_ffff);
    lp16(&mut bytes, "");
    be16(&mut bytes, 0);
    be32(&mut bytes, 1);
    lp16(&mut bytes, "DMODE=64bit");
    be16(&mut bytes, 0);

    be16(&mut bytes, 0x0850);
    lp16(&mut bytes, "man");
    lp16(&mut bytes, "Manual Pages");
    lp16(&mut bytes, "test.sw.man");
    be32(&mut bytes, 0);
    be16(&mut bytes, 0);
    be16(&mut bytes, 0);
    lp16(&mut bytes, "");
    be16(&mut bytes, 0);
    be32(&mut bytes, 0);
    be16(&mut bytes, 0);
    bytes
}

#[test]
fn parses_level9_descriptor_exactly() {
    let bytes = level9_descriptor();
    let mut diagnostics = Vec::new();
    let descriptor = parse(&bytes, "test", &mut diagnostics).unwrap();
    assert!(diagnostics.is_empty());

    assert_eq!(descriptor.header.generation_id, "pd001V630P00");
    assert_eq!(descriptor.layout_level, 9);
    assert_eq!(descriptor.name, "test");
    assert_eq!(descriptor.text.id, "Test Product");
    assert_eq!(descriptor.text.effective(), "Test Product");
    assert_eq!(descriptor.flags_raw, 0x0850);
    assert_eq!(descriptor.stamp, 0x0102_0304);
    assert_eq!(descriptor.attributes.len(), 1);
    assert!(descriptor.attributes[0].mach().unwrap().is_ok());

    assert_eq!(descriptor.images.len(), 1);
    let image = &descriptor.images[0];
    assert_eq!(image.name, "sw");
    assert_eq!(image.version, Version(0x0102_0305));
    assert_eq!(image.order, 9999);
    assert_eq!(image.legacy_field, 2);
    assert_eq!(image.subsystems.len(), 2);

    let unix = &image.subsystems[0];
    assert_eq!(unix.name, "unix");
    assert_eq!(unix.mapping, "EOE");
    assert_eq!(unix.replaces.len(), 1);
    assert_eq!(unix.replaces[0].target(), "patch*.sw.unix");
    assert_eq!(unix.replaces[0].low_raw, 0);
    assert_eq!(unix.replaces[0].high_raw, 0x0102_0304);
    assert!(unix.replaces[0].ordinary_version_range().is_some());

    assert_eq!(unix.prerequisites.len(), 1);
    let clause_range = &unix.prerequisites[0][0];
    assert_eq!(clause_range.target(), "dmedia_eoe.sw.audio");
    assert!(clause_range.high_is_maxint());

    assert_eq!(unix.attributes.len(), 1);
    assert_eq!(unix.attributes[0].tag, b'D');
    assert_eq!(unix.attributes[0].text, "MODE=64bit");

    let man = &image.subsystems[1];
    assert!(man.replaces.is_empty());
    assert!(man.prerequisites.is_empty());
    assert!(man.incompatibilities.is_empty());
    assert!(man.attributes.is_empty());
    assert!(man.updates.is_empty());
}

#[test]
fn parses_level5_and_level6_framing() {
    for level in [5u16, 6] {
        let mut bytes = b"pd001V530P00\0".to_vec();
        stream_header(&mut bytes, level);
        lp16(&mut bytes, "old");
        lp16(&mut bytes, "Old Product");
        be16(&mut bytes, 0x0050);
        be32(&mut bytes, 7);
        lp16(&mut bytes, "");
        be16(&mut bytes, 1);

        be16(&mut bytes, 0x0058);
        lp16(&mut bytes, "sw");
        lp16(&mut bytes, "System Software");
        be16(&mut bytes, 2);
        be16(&mut bytes, 600);
        be32(&mut bytes, 42);
        if level == 5 {
            be32(&mut bytes, 0);
            be32(&mut bytes, 0);
        }
        lp16(&mut bytes, "");
        be16(&mut bytes, 1);

        be16(&mut bytes, 0x0052);
        lp16(&mut bytes, "base");
        lp16(&mut bytes, "Base");
        lp16(&mut bytes, "old.sw.base");
        be32(&mut bytes, 0);
        be16(&mut bytes, 0);
        be16(&mut bytes, 0);
        lp16(&mut bytes, "");
        if level >= 6 {
            be16(&mut bytes, 0);
        }

        let mut diagnostics = Vec::new();
        let descriptor = parse(&bytes, "old", &mut diagnostics).unwrap();
        assert!(diagnostics.is_empty());
        assert_eq!(descriptor.layout_level, level);
        assert!(descriptor.attributes.is_empty());
        let image = &descriptor.images[0];
        assert_eq!(image.version, Version(42));
        assert_eq!(image.order, 600);
        assert!(image.attributes.is_empty());
        let subsystem = &image.subsystems[0];
        assert_eq!(subsystem.name, "base");
        assert!(subsystem.incompatibilities.is_empty());
        assert!(subsystem.attributes.is_empty());
    }
}

#[test]
fn parses_level7_product_attributes() {
    let mut bytes = b"pd001V620P02\0".to_vec();
    stream_header(&mut bytes, 7);
    lp16(&mut bytes, "mid");
    lp16(&mut bytes, "Mid Product");
    be16(&mut bytes, 0x0050);
    be32(&mut bytes, 9);
    lp16(&mut bytes, "");
    be32(&mut bytes, 1);
    lp16(&mut bytes, "mCPUBOARD=IP22");
    be16(&mut bytes, 1);

    be16(&mut bytes, 0x0058);
    lp16(&mut bytes, "sw");
    lp16(&mut bytes, "System Software");
    be16(&mut bytes, 2);
    be16(&mut bytes, 900);
    be32(&mut bytes, 100);
    lp16(&mut bytes, "");
    be16(&mut bytes, 1);

    be16(&mut bytes, 0x0052);
    lp16(&mut bytes, "base");
    lp16(&mut bytes, "Base");
    lp16(&mut bytes, "mid.sw.base");
    be32(&mut bytes, 0);
    be16(&mut bytes, 0);
    be16(&mut bytes, 0);
    lp16(&mut bytes, "");
    be16(&mut bytes, 0);

    let mut diagnostics = Vec::new();
    let descriptor = parse(&bytes, "mid", &mut diagnostics).unwrap();
    assert!(diagnostics.is_empty());
    assert_eq!(descriptor.layout_level, 7);
    assert_eq!(descriptor.attributes.len(), 1);
    assert!(descriptor.attributes[0].mach().unwrap().is_ok());
    assert!(descriptor.images[0].attributes.is_empty());
    assert!(descriptor.images[0].subsystems[0].attributes.is_empty());
}

#[test]
fn reports_non_zero_reserved_words_as_diagnostics() {
    let mut bytes = b"pd001V530P00\0".to_vec();
    stream_header(&mut bytes, 5);
    lp16(&mut bytes, "old");
    lp16(&mut bytes, "Old Product");
    be16(&mut bytes, 0x0050);
    be32(&mut bytes, 7);
    lp16(&mut bytes, "");
    be16(&mut bytes, 1);

    be16(&mut bytes, 0x0058);
    lp16(&mut bytes, "sw");
    lp16(&mut bytes, "System Software");
    be16(&mut bytes, 2);
    be16(&mut bytes, 600);
    be32(&mut bytes, 42);
    be32(&mut bytes, 0xdead_beef);
    be32(&mut bytes, 0);
    lp16(&mut bytes, "");
    be16(&mut bytes, 1);

    be16(&mut bytes, 0x0052);
    lp16(&mut bytes, "base");
    lp16(&mut bytes, "Base");
    lp16(&mut bytes, "old.sw.base");
    be32(&mut bytes, 7);
    be16(&mut bytes, 0);
    be16(&mut bytes, 0);
    lp16(&mut bytes, "");

    let mut diagnostics = Vec::new();
    let descriptor = parse(&bytes, "old", &mut diagnostics).unwrap();
    let subsystem = &descriptor.images[0].subsystems[0];
    assert_eq!(subsystem.name, "base");
    assert_eq!(subsystem.legacy_ordinal, 7);
    assert_eq!(diagnostics.len(), 1);
    assert!(diagnostics[0].message.contains("reserved"));
}

#[test]
fn rejects_malformed_bodies() {
    let good = level9_descriptor();
    let mut diagnostics = Vec::new();

    let mut bad = good.clone();
    bad[DESCRIPTOR_HEADER_SIZE] = 0xff;
    assert!(parse(&bad, "test", &mut diagnostics).is_err());

    for level in [4u8, 10] {
        let mut bad = good.clone();
        let level_at = DESCRIPTOR_HEADER_SIZE + 7;
        bad[level_at] = level;
        assert!(parse(&bad, "test", &mut diagnostics).is_err());
    }

    let mut bad = good.clone();
    bad.push(0);
    assert!(parse(&bad, "test", &mut diagnostics).is_err());

    for cut in 0..good.len() {
        assert!(
            parse(&good[..cut], "test", &mut diagnostics).is_err(),
            "truncated at {cut} bytes must fail"
        );
    }
}

#[test]
fn rejects_overlong_strings() {
    let mut bytes = b"pd001V630P00\0".to_vec();
    stream_header(&mut bytes, 9);
    bytes.extend_from_slice(&32768u16.to_be_bytes());
    let mut diagnostics = Vec::new();
    let error = parse(&bytes, "test", &mut diagnostics).unwrap_err();
    let text = error.to_string();
    assert!(text.contains("wire maximum"), "{text}");
}

#[test]
fn rejects_bad_input() {
    let mut diagnostics = Vec::new();
    assert!(parse(b"short", "x", &mut diagnostics).is_err());
    assert!(parse(b"im001V530P00\0x", "x", &mut diagnostics).is_err());
    assert!(parse(b"pd001V530P00Xx", "x", &mut diagnostics).is_err());
}
