//! End-to-end tests against a tiny synthetic distribution held in
//! memory: descriptor + IDB + one image archive, assembled the way a
//! frontend assembles a distribution directory.
use std::collections::BTreeSet;
use sw_core::descriptor::model::{ConditionalFlag, SubsystemPresence, Version};
use sw_core::distribution::{
    build_product, ArchiveFile, ArchiveProbe, Distribution, DistributionSupportFiles, EntryKey, FileContent,
};
use sw_core::error::Error;
use sw_core::frontend::{product_stem, skipped_product};
use sw_core::image::PayloadResolution;
use sw_core::mach::eval::HardwareProfile;

/// Builds a distribution from named files, as a frontend does from a
/// directory listing.
fn open_files(files: &[(String, Vec<u8>)]) -> Distribution {
    let mut stems: BTreeSet<String> = BTreeSet::new();
    let mut archives = Vec::new();
    for (name, bytes) in files {
        let header: Vec<u8> = bytes.iter().take(13).copied().collect();
        if let Some(stem) = product_stem(name, true, &header) {
            stems.insert(stem);
        }
        archives.push(ArchiveFile {
            file_name: name.clone(),
            probe: ArchiveProbe::Found { file_size: bytes.len() as u64, header },
        });
    }
    let content = |name: &str| {
        files
            .iter()
            .find(|(n, _)| n == name)
            .map(|(_, bytes)| FileContent::Bytes(bytes.clone()))
            .unwrap_or(FileContent::Absent)
    };
    let mut products = Vec::new();
    let mut diagnostics = Vec::new();
    for stem in stems {
        match build_product("dist", &stem, &content(&stem), &content(&format!("{stem}.idb")), &archives) {
            Ok(product) => products.push(product),
            Err(error) => diagnostics.push(skipped_product(&stem, &error)),
        }
    }
    Distribution::assemble("dist".to_string(), products, DistributionSupportFiles::default(), diagnostics)
}

fn lp16(bytes: &mut Vec<u8>, s: &str) {
    bytes.extend_from_slice(&(s.len() as u16).to_be_bytes());
    bytes.extend_from_slice(s.as_bytes());
}

fn range(bytes: &mut Vec<u8>, target: (&str, &str, &str), low: u32, high: u32) {
    lp16(bytes, target.0);
    lp16(bytes, target.1);
    lp16(bytes, target.2);
    bytes.extend_from_slice(&low.to_be_bytes());
    bytes.extend_from_slice(&high.to_be_bytes());
}

/// A minimal but complete level-9 descriptor for a product with one `sw`
/// image and one `unix` subsystem, plus — with `ghost` — a second
/// subsystem that no IDB entry references.
fn descriptor_bytes(product: &str, ghost: bool, unix_attrs: &[&str]) -> Vec<u8> {
    let mut bytes = b"pd001V999P00\0".to_vec();
    for word in [0x07c4u16, 0x0001, 0x07c3, 9] {
        bytes.extend_from_slice(&word.to_be_bytes());
    }
    lp16(&mut bytes, product);
    lp16(&mut bytes, "Synthetic Test Product");
    bytes.extend_from_slice(&0x0850u16.to_be_bytes());
    bytes.extend_from_slice(&0x0102_0304u32.to_be_bytes());
    bytes.extend_from_slice(&0u32.to_be_bytes());
    bytes.extend_from_slice(&1u16.to_be_bytes());
    lp16(&mut bytes, "P16909060_42");
    bytes.extend_from_slice(&1u16.to_be_bytes());

    bytes.extend_from_slice(&0x0858u16.to_be_bytes());
    lp16(&mut bytes, "sw");
    lp16(&mut bytes, "System Software");
    bytes.extend_from_slice(&0u16.to_be_bytes());
    bytes.extend_from_slice(&9999u16.to_be_bytes());
    bytes.extend_from_slice(&0x0102_0305u32.to_be_bytes());
    bytes.extend_from_slice(&0u32.to_be_bytes());
    bytes.extend_from_slice(&0u16.to_be_bytes());
    bytes.extend_from_slice(&if ghost { 2u16 } else { 1u16 }.to_be_bytes());

    bytes.extend_from_slice(&0x0852u16.to_be_bytes());
    lp16(&mut bytes, "unix");
    lp16(&mut bytes, "UNIX Kernel");
    lp16(&mut bytes, "EOE");
    bytes.extend_from_slice(&0u16.to_be_bytes());
    bytes.extend_from_slice(&0u16.to_be_bytes());
    bytes.extend_from_slice(&1u16.to_be_bytes());
    range(&mut bytes, ("patch*", "sw", "unix"), 0, 0x0102_0304);
    bytes.extend_from_slice(&1u16.to_be_bytes());
    bytes.extend_from_slice(&1u16.to_be_bytes());
    range(&mut bytes, ("other", "sw", "base"), 0, 0x7fff_ffff);
    bytes.extend_from_slice(&0u16.to_be_bytes());
    bytes.extend_from_slice(&0u16.to_be_bytes());
    bytes.extend_from_slice(&0u16.to_be_bytes());
    bytes.extend_from_slice(&(unix_attrs.len() as u16).to_be_bytes());
    for attr in unix_attrs {
        lp16(&mut bytes, attr);
    }
    bytes.extend_from_slice(&0u16.to_be_bytes());

    if ghost {
        bytes.extend_from_slice(&0x4050u16.to_be_bytes());
        lp16(&mut bytes, "ghost");
        lp16(&mut bytes, "Unshipped Support");
        lp16(&mut bytes, "!noship && test.sw.ghost");
        for _ in 0..9 {
            bytes.extend_from_slice(&0u16.to_be_bytes());
        }
    }
    bytes
}

/// The synthetic `test` product (all records stored uncompressed), a
/// `side` product whose subsystem `mach` does not parse, and a `bare`
/// product with a descriptor but no IDB.
fn files() -> Vec<(String, Vec<u8>)> {
    let records: Vec<(Vec<u8>, &[u8])> = vec![
        (b"hello.txt".to_vec(), b"hello"),
        (b"bin/tool".to_vec(), b"IP22"),
        (b"bin/tool".to_vec(), b"IP99"),
        (b"bin/tool".to_vec(), b"FBCK"),
        (b"etc/conf".to_vec(), b"cfa!"),
        (b"etc/conf".to_vec(), b"cfb!"),
        (b"caf\xe9.txt".to_vec(), b"latin1"),
        (b"old/order.txt".to_vec(), b"old!"),
        (b"broken".to_vec(), b"????"),
    ];
    let mut archive = b"im001V999P00\0".to_vec();
    for (name, payload) in &records {
        archive.extend_from_slice(&(name.len() as u16).to_be_bytes());
        archive.extend_from_slice(name);
        archive.extend_from_slice(payload);
    }

    let mut idb = b"d 0755 root sys . src test.sw.unix\n\
d 0755 root sys bin src test.sw.unix\n\
f 0644 root sys hello.txt src/hello.txt test.sw.unix sum(1) size(5) cmpsize(0)\n\
f 0755 root sys bin/tool src/tool1 test.sw.unix sum(2) size(4) cmpsize(0) mach(CPUBOARD=IP22)\n\
f 0755 root sys bin/tool src/tool2 test.sw.unix sum(3) size(4) cmpsize(0) mach(CPUBOARD=IP99)\n\
f 0755 root sys bin/tool src/tool3 test.sw.unix sum(4) size(4) cmpsize(0)\n\
f 0644 root sys etc/conf src/confa test.sw.unix sum(5) size(4) cmpsize(0) mach(CPUBOARD=IP22)\n\
f 0644 root sys etc/conf src/confb test.sw.unix sum(6) size(4) cmpsize(0) mach(CPUARCH=R4400)\n\
f 0644 root sys caf"
        .to_vec();
    idb.push(0xE9);
    idb.extend_from_slice(
        b".txt src/cafe test.sw.unix sum(7) size(6) cmpsize(0)\n\
f 0644 root sys old/order.txt src/old sum(8) size(4) cmpsize(0) test.sw.unix\n\
f 0644 root sys broken src/broken test.sw.unix sum(9) size(4) cmpsize(0) mach(=IP22)\n\
l 0777 root sys hello.link src test.sw.unix symval(hello.txt)\n",
    );

    vec![
        ("test.sw".to_string(), archive),
        ("test".to_string(), descriptor_bytes("test", true, &["DMODE=64bit"])),
        ("side".to_string(), descriptor_bytes("side", false, &["m=IP99"])),
        (
            "side.idb".to_string(),
            b"f 0644 root sys bin/side src/side side.sw.unix sum(1) size(4) cmpsize(0)\n".to_vec(),
        ),
        ("bare".to_string(), descriptor_bytes("bare", false, &["DMODE=64bit"])),
        ("test.idb".to_string(), idb),
    ]
}

fn open() -> Distribution {
    open_files(&files())
}

#[test]
fn parses_old_and_new_field_orders() {
    let dist = open();
    let product = dist.product("test").expect("product test");
    assert_eq!(product.entries.len(), 12);
    assert!(product.descriptor.is_some());

    let old = product.entries.iter().find(|e| e.path.as_str() == "old/order.txt").expect("old-order entry");
    assert_eq!(old.subsystem.to_string(), "test.sw.unix");
    assert_eq!(old.size(), Some(4));
}

#[test]
fn descriptor_is_the_hierarchy_authority() {
    let dist = open();
    let product = dist.product("test").unwrap();
    let descriptor = product.descriptor.as_ref().expect("descriptor");
    assert_eq!(descriptor.layout_level, 9);
    assert_eq!(descriptor.name, "test");
    assert_eq!(descriptor.stamp, 0x0102_0304);
    assert_eq!(product.title.as_deref(), Some("Synthetic Test Product"));
    assert_eq!(descriptor.attributes.len(), 1);
    assert_eq!(descriptor.attributes[0].tag, b'P');
    assert_eq!(descriptor.attributes[0].text, "16909060_42");
    assert!(descriptor.attributes[0].mach().is_none());

    let image = product.images.iter().find(|i| i.name.image() == "sw").expect("image sw");
    assert_eq!(image.title.as_deref(), Some("System Software"));
    assert_eq!(image.version, Some(Version(0x0102_0305)));
    assert_eq!(image.order, Some(9999));

    let unix = image.subsystems.iter().find(|s| s.name.subsystem() == "unix").expect("subsystem unix");
    assert_eq!(unix.presence, SubsystemPresence { descriptor: true, idb: true });
    assert_eq!(unix.title.as_deref(), Some("UNIX Kernel"));
    assert_eq!(unix.mapping.as_deref(), Some("EOE"));
    let rules = unix.rules.as_ref().expect("descriptor-decoded rules");
    assert_eq!(rules.prerequisites.len(), 1);
    assert_eq!(rules.prerequisites[0].all_of[0].target(), "other.sw.base");
    assert_eq!(rules.replaces.len(), 1);
    assert_eq!(rules.replaces[0].target(), "patch*.sw.unix");
    assert!(rules.follows.is_empty());
    assert!(rules.incompatibilities.is_empty());
    assert!(rules.updates.is_empty());

    let flags = unix.flags.as_ref().expect("descriptor-decoded flags");
    assert_eq!(flags.required, ConditionalFlag::No);
    let ConditionalFlag::When(expressions) = &flags.default else {
        panic!("default flag must be hardware-conditional");
    };
    assert_eq!(expressions.len(), 1);
    assert_eq!(flags.miniroot, ConditionalFlag::No);
    assert!(flags.inplace);
    assert!(!flags.patch);
    assert!(unix.mach.as_ref().unwrap().is_empty());
    assert!(!unix.entry_ids.is_empty());

    let ghost = image.subsystems.iter().find(|s| s.name.subsystem() == "ghost").expect("subsystem ghost");
    assert_eq!(ghost.presence, SubsystemPresence { descriptor: true, idb: false });
    assert!(ghost.entry_ids.is_empty());
}

#[test]
fn reads_payloads_exactly() {
    let files = files();
    let dist = open_files(&files);
    let read = |archive: &str, offset: u64, length: usize| -> Result<Vec<u8>, Error> {
        let name = archive.strip_prefix("dist/").unwrap_or(archive);
        let (_, bytes) = files.iter().find(|(n, _)| n == name).expect("archive exists");
        let start = offset as usize;
        if start + length > bytes.len() {
            return Err(Error::Io { path: archive.to_string(), message: "short read".to_string() });
        }
        Ok(bytes[start..start + length].to_vec())
    };
    let product_index = dist.products().iter().position(|p| p.name.as_str() == "test").unwrap();
    let product = dist.product("test").unwrap();
    let mut reader = dist.image_reader();

    let mut checked = 0;
    for entry in &product.entries {
        if entry.payload.is_none() {
            continue;
        }
        let key = EntryKey { product_index, entry_id: entry.id };
        let payload = reader.read(key, &read).expect("read payload");
        assert_eq!(payload.location.resolution, PayloadResolution::Exact);
        assert_eq!(payload.decode().unwrap().len() as u64, entry.size().unwrap());
        checked += 1;
    }
    assert_eq!(checked, 9);

    let cafe = product.entries.iter().find(|e| e.path.as_str() == "caf\u{e9}.txt").unwrap();
    let payload = reader.read(EntryKey { product_index, entry_id: cafe.id }, &read).unwrap();
    assert_eq!(payload.bytes, b"latin1");
}

#[test]
fn selection_prefers_matching_specific() {
    let dist = open();
    let profile = HardwareProfile::builder().set("CPUBOARD", "IP22").set("CPUARCH", "R4400").build();
    let selection = dist.select(&profile);

    let tools: Vec<_> = selection.selected.iter().filter(|e| e.entry.path.as_str() == "bin/tool").collect();
    assert_eq!(tools.len(), 1);
    assert_eq!(tools[0].entry.source_path, "src/tool1");

    let conf = selection.conflicts.iter().find(|c| c.path.as_str() == "etc/conf").expect("etc/conf conflict");
    assert_eq!(conf.candidates.len(), 2);
    let conf_selected = selection.selected.iter().filter(|e| e.entry.path.as_str() == "etc/conf").count();
    assert_eq!(conf_selected, 2);

    assert!(selection.conflicts.iter().any(|c| c.path.as_str() == "broken"));
    assert!(!selection.selected.iter().any(|e| e.entry.path.as_str() == "broken"));
}

#[test]
fn selection_falls_back_without_match() {
    let dist = open();
    let profile = HardwareProfile::builder().set("CPUBOARD", "IP20").build();
    let selection = dist.select(&profile);
    let tools: Vec<_> = selection.selected.iter().filter(|e| e.entry.path.as_str() == "bin/tool").collect();
    assert_eq!(tools.len(), 1);
    assert_eq!(tools[0].entry.source_path, "src/tool3");
}

#[test]
fn discovers_products_with_only_one_authority() {
    let dist = open();
    assert!(dist.product("test").unwrap().idb_file.is_some());
    assert!(dist.product("side").is_some());

    let bare = dist.product("bare").expect("descriptor-only product");
    assert!(bare.descriptor.is_some());
    assert!(bare.idb_file.is_none());
    assert!(bare.entries.is_empty());
    assert!(!bare.images.is_empty());
    assert!(bare.diagnostics.iter().any(|d| d.message.contains("no IDB")));
}

#[test]
fn selection_reports_unresolved_subsystem_mach() {
    let dist = open();
    let profile = HardwareProfile::builder().set("CPUBOARD", "IP22").set("CPUARCH", "R4400").build();
    let selection = dist.select(&profile);

    let side = dist.product("side").unwrap();
    let unix = &side.images[0].subsystems[0];
    assert_eq!(unix.mach.as_ref().unwrap().unresolved, &["=IP99".to_string()]);
    assert!(!selection.selected.iter().any(|e| e.entry.subsystem.to_string() == "side.sw.unix"));
    let conflict = selection.conflicts.iter().find(|c| c.path.as_str() == "bin/side").expect("bin/side conflict");
    assert_eq!(conflict.candidates.len(), 1);
}
