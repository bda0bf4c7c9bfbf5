use sw_core::diagnostic::Diagnostic;
use sw_core::idb::attribute::{classify, tokenize, ConfigMode, IdbAttribute};

fn parse_attrs(input: &str) -> (Vec<IdbAttribute>, Vec<Diagnostic>) {
    let mut diagnostics = Vec::new();
    let tokens = tokenize(input, "test.idb:1", &mut diagnostics);
    let mut attributes = Vec::new();
    for token in tokens {
        attributes.push(classify(token, "test.idb:1", &mut diagnostics));
    }
    (attributes, diagnostics)
}

#[test]
fn parses_common_attributes() {
    let (attributes, diagnostics) = parse_attrs("sum(61435) size(601) f(940005084) config(suggest) cmpsize(465)");
    assert!(diagnostics.is_empty());
    assert_eq!(
        attributes,
        vec![
            IdbAttribute::Checksum(61435),
            IdbAttribute::Size(601),
            IdbAttribute::Unknown { name: "f".into(), args: vec!["940005084".into()], raw: "f(940005084)".into() },
            IdbAttribute::Config(ConfigMode::Suggest),
            IdbAttribute::CompressedSize(465),
        ]
    );
}

#[test]
fn parses_flags_and_devices() {
    let (attributes, _) = parse_attrs("nohist delhist dev(10 213) shadow nostrip stripdso norqs");
    assert_eq!(
        attributes,
        vec![
            IdbAttribute::NoHistory,
            IdbAttribute::DeleteHistory,
            IdbAttribute::Device { major: 10, minor: 213 },
            IdbAttribute::Shadow,
            IdbAttribute::NoStrip,
            IdbAttribute::StripDso,
            IdbAttribute::NoRqs,
        ]
    );
}

#[test]
fn keeps_quoted_operations_intact() {
    let (attributes, diagnostics) =
        parse_attrs("exitop(\"rm -fr $rbase/etc/xutmp $rbase/bin/rsh\") postop($rbase/.bin.mv.sh)");
    assert!(diagnostics.is_empty());
    assert_eq!(
        attributes,
        vec![
            IdbAttribute::ExitOp("rm -fr $rbase/etc/xutmp $rbase/bin/rsh".into()),
            IdbAttribute::PostOp("$rbase/.bin.mv.sh".into()),
        ]
    );
}

#[test]
fn parses_mach_expressions() {
    let (attributes, diagnostics) = parse_attrs("mach(CPUBOARD=IP19 CPUBOARD=IP21)");
    assert!(diagnostics.is_empty());
    let [IdbAttribute::Mach(expr)] = attributes.as_slice() else {
        panic!("expected single mach attribute, got {attributes:?}");
    };
    assert_eq!(expr.raw, "CPUBOARD=IP19 CPUBOARD=IP21");
}

#[test]
fn parses_symlink_values() {
    let (attributes, _) = parse_attrs("symval(../lib/libc.so.1)");
    assert_eq!(attributes, vec![IdbAttribute::SymlinkValue("../lib/libc.so.1".into())]);
}

#[test]
fn unparsable_mach_is_kept_apart_with_a_diagnostic() {
    let (attributes, diagnostics) = parse_attrs("mach(=IP22)");
    assert_eq!(diagnostics.len(), 1);
    assert!(matches!(attributes.as_slice(), [IdbAttribute::MachUnparsed { .. }]));
}
