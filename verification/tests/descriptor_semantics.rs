use sw_core::descriptor::model::{
    Applicability, ConditionalFlag, DescriptorAttribute, DescriptorRange, DescriptorSubsystem, Version,
    VersionLimit,
};
use sw_core::descriptor::semantics::{autominiroot, cutpoints, decode_flags, decode_rules, mach_expressions};
use sw_core::mach::eval::HardwareProfile;

fn attribute(tag: u8, text: &str) -> DescriptorAttribute {
    DescriptorAttribute { tag, text: text.to_string() }
}

fn profile(cpuboard: &str) -> HardwareProfile {
    HardwareProfile::builder().set("CPUBOARD", cpuboard).build()
}

fn subsystem_record(flags_raw: u16, attributes: Vec<DescriptorAttribute>) -> DescriptorSubsystem {
    DescriptorSubsystem {
        flags_raw,
        name: "unix".to_string(),
        text: Default::default(),
        mapping: String::new(),
        legacy_ordinal: 0,
        replaces: Vec::new(),
        prerequisites: Vec::new(),
        incompatibilities: Vec::new(),
        attributes,
        updates: Vec::new(),
    }
}

#[test]
fn mach_restrictions_are_fail_safe() {
    let mut diagnostics = Vec::new();

    let none = mach_expressions(&[], "test", &mut diagnostics);
    assert!(none.is_empty());
    assert_eq!(none.evaluate(&profile("IP22")), Applicability::Match);

    let bad = mach_expressions(&[attribute(b'm', "=IP22")], "test", &mut diagnostics);
    assert_eq!(bad.unresolved, ["=IP22"]);
    assert_eq!(bad.evaluate(&profile("IP22")), Applicability::Unknown);

    let mixed = mach_expressions(
        &[attribute(b'm', "=IP22"), attribute(b'm', "CPUBOARD=IP22")],
        "test",
        &mut diagnostics,
    );
    assert_eq!(mixed.evaluate(&profile("IP22")), Applicability::Match);
    assert_eq!(mixed.evaluate(&profile("IP32")), Applicability::Unknown);
    assert!(!diagnostics.is_empty());
}

#[test]
fn conditional_flags_decode_unresolved_conditions() {
    let mut diagnostics = Vec::new();

    let flags = decode_flags(0x0001 | 0x0800, &[], "test", &mut diagnostics);
    assert_eq!(flags.required, ConditionalFlag::Always);

    let flags = decode_flags(0x0002 | 0x0800, &[attribute(b'D', "CPUBOARD=IP22")], "test", &mut diagnostics);
    let ConditionalFlag::When(expressions) = &flags.default else {
        panic!("expected conditional default");
    };
    assert_eq!(expressions.len(), 1);

    let flags = decode_flags(0x0001 | 0x0800, &[attribute(b'R', "=IP22")], "test", &mut diagnostics);
    let ConditionalFlag::WhenUnresolved { unresolved, .. } = &flags.required else {
        panic!("expected unresolved required");
    };
    assert_eq!(unresolved, &["=IP22"]);
    assert_eq!(flags.required.is_active(&profile("IP22")), Applicability::Unknown);

    let flags = decode_flags(0x0050, &[], "test", &mut diagnostics);
    assert_eq!(flags.miniroot, ConditionalFlag::Always);
    assert!(!flags.inplace);
    let flags = decode_flags(0x0850, &[], "test", &mut diagnostics);
    assert_eq!(flags.miniroot, ConditionalFlag::No);
    assert!(flags.inplace);
}

#[test]
fn rules_split_follows_from_replaces() {
    let mut record = subsystem_record(0x0400, Vec::new());
    record.replaces.push(DescriptorRange {
        product: "base".to_string(),
        image: "sw".to_string(),
        subsystem: "unix".to_string(),
        low_raw: (-1274567300i32) as u32,
        high_raw: 1274567300,
    });
    record.replaces.push(DescriptorRange {
        product: "patch*".to_string(),
        image: "sw".to_string(),
        subsystem: "unix".to_string(),
        low_raw: 0,
        high_raw: 99,
    });

    let mut diagnostics = Vec::new();
    let rules = decode_rules(&record, "test", &mut diagnostics);
    assert!(diagnostics.is_empty());
    assert_eq!(rules.follows.len(), 1);
    assert_eq!(rules.follows[0].target(), "base.sw.unix");
    assert_eq!(rules.follows[0].versions.min, Version(1274567300));
    assert_eq!(rules.replaces.len(), 1);
    assert_eq!(rules.replaces[0].target(), "patch*.sw.unix");
}

#[test]
fn autominiroot_and_cutpoints_decode() {
    let mut diagnostics = Vec::new();

    let ranges = autominiroot(&[attribute(b'A', "eoe*.sw.unix 0 2147483647")], "test", &mut diagnostics);
    assert_eq!(ranges.len(), 1);
    assert_eq!(ranges[0].target(), "eoe*.sw.unix");
    assert!(matches!(ranges[0].versions.max, VersionLimit::Maximum));

    let points = cutpoints(&[attribute(b'C', "/usr/share/catman\x017")], "test", &mut diagnostics);
    assert_eq!(points.len(), 1);
    assert_eq!(points[0].path.as_str(), "usr/share/catman");
    assert_eq!(points[0].sequence, 7);

    assert!(autominiroot(&[attribute(b'A', "bogus")], "test", &mut diagnostics).is_empty());
    assert!(cutpoints(&[attribute(b'C', "/usr")], "test", &mut diagnostics).is_empty());
    assert_eq!(diagnostics.len(), 2);
}
