use sw_core::diagnostic::Diagnostic;
use sw_core::idb::attribute::{ConfigMode, IdbAttribute};
use sw_core::idb::parser::parse;
use sw_core::idb::{Entry, EntryId, FileType};

fn parse_idb(text: &str) -> (Vec<Entry>, Vec<Diagnostic>) {
    let mut diagnostics = Vec::new();
    let entries = parse(text.as_bytes(), "test.idb", &mut diagnostics).unwrap();
    (entries, diagnostics)
}

#[test]
fn parses_real_line_shapes() {
    let (entries, diagnostics) = parse_idb(
        "d 0755 root sys . work/irix/. eoe1.sw.unix exitop(\"rm -fr $rbase/etc/xutmp\")\n\
         f 0755 root sys .bin.mv.sh work/irix/cmd/adm/bin.mv.sh eoe1.sw.unix sum(48641) size(1426) postop($rbase/.bin.mv.sh) nohist f(4242461123) cmpsize(756)\n\
         f 0644 root sys .cshrc work/irix/cmd/adm/root.cshrc eoe1.sw.unix sum(61435) size(601) f(940005084) config(suggest) cmpsize(465)\n\
         l 0777 root sys usr/lib/libc.so work/irix/lib eoe1.sw.unix symval(../lib32/libc.so)\n",
    );
    assert!(diagnostics.is_empty(), "{diagnostics:?}");
    assert_eq!(entries.len(), 4);

    let dir = &entries[0];
    assert_eq!(dir.file_type, FileType::Directory);
    assert!(dir.path.is_root());
    assert_eq!(dir.subsystem.to_string(), "eoe1.sw.unix");

    let script = &entries[1];
    assert_eq!(script.mode, 0o755);
    assert_eq!(script.path.as_str(), ".bin.mv.sh");
    assert_eq!(script.size(), Some(1426));
    assert_eq!(script.compressed_size(), Some(756));
    assert_eq!(script.encoded_size(), Some(756));

    let cshrc = &entries[2];
    assert_eq!(cshrc.config_mode(), Some(ConfigMode::Suggest));
    assert!(cshrc.attributes.iter().any(|a| matches!(a, IdbAttribute::Unknown { name, .. } if name == "f")));

    let link = &entries[3];
    assert_eq!(link.file_type, FileType::SymbolicLink);
    assert_eq!(link.symlink_target(), Some("../lib32/libc.so"));
}

#[test]
fn entry_ids_follow_idb_order() {
    let (entries, _) = parse_idb(
        "f 0644 root sys a src/a eoe1.sw.unix size(1) cmpsize(0)\n\
         f 0644 root sys b src/b eoe1.sw.unix size(2) cmpsize(0)\n",
    );
    assert_eq!(entries[0].id, EntryId(0));
    assert_eq!(entries[1].id, EntryId(1));
    assert_eq!(entries[0].encoded_size(), Some(1));
}

#[test]
fn malformed_lines_become_diagnostics() {
    let (entries, diagnostics) = parse_idb(
        "f 0644 root sys\n\
         f 0644 root sys ok src/ok eoe1.sw.unix size(1) cmpsize(0)\n",
    );
    assert_eq!(entries.len(), 1);
    assert_eq!(diagnostics.len(), 1);
    assert_eq!(entries[0].origin.line_number, 2);
}

#[test]
fn rejects_traversal_paths() {
    let (entries, diagnostics) = parse_idb("f 0644 root sys ../escape src/x eoe1.sw.unix size(1) cmpsize(0)\n");
    assert!(entries.is_empty());
    assert_eq!(diagnostics.len(), 1);
}

#[test]
fn accepts_trailing_subsystem_order() {
    let (entries, diagnostics) = parse_idb(
        "f 0444 root sys usr/lib/libvfr.a vfr/lib/src/libvfr.a sum(5488) size(334964) f(3663227833) cmpsize(163499) vfr.sw.vfr\n\
         d 0755 adm adm usr/adm/.profile work/irix/cmd/acct delhist eoe2.sw.acct\n",
    );
    assert!(diagnostics.is_empty(), "{diagnostics:?}");
    assert_eq!(entries.len(), 2);
    assert_eq!(entries[0].subsystem.to_string(), "vfr.sw.vfr");
    assert_eq!(entries[0].compressed_size(), Some(163499));
    assert_eq!(entries[1].subsystem.to_string(), "eoe2.sw.acct");
    assert!(entries[1].attributes.iter().any(|a| matches!(a, IdbAttribute::DeleteHistory)));
}

#[test]
fn windows_line_endings_are_accepted() {
    let (entries, diagnostics) = parse_idb("f 0644 root sys a src/a eoe1.sw.unix size(1) cmpsize(0)\r\n");
    assert!(diagnostics.is_empty(), "{diagnostics:?}");
    assert_eq!(entries.len(), 1);
    assert_eq!(entries[0].size(), Some(1));
}
