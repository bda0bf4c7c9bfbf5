//! Hardware candidate discovery: every hierarchy level, the expression
//! tree walk, operator variants, unknown attributes, empty values,
//! deduplication, ordering, and unresolved payloads.
use std::collections::BTreeSet;
use sw_core::distribution::{build_product, ArchiveFile, ArchiveProbe, Distribution, DistributionSupportFiles, FileContent};
use sw_core::frontend::{product_stem, skipped_product};
use sw_core::mach::candidates::HardwareCandidateSet;

/// Builds a distribution from named files, as a frontend does from a
/// directory listing.
fn open_files(files: &[(String, Vec<u8>)]) -> Distribution {
    let mut stems: BTreeSet<String> = BTreeSet::new();
    let mut archives = Vec::new();
    for (name, bytes) in files {
        let header: Vec<u8> = bytes.iter().take(13).copied().collect();
        if let Some(stem) = product_stem(name, true, &header) {
            stems.insert(stem);
        }
        archives.push(ArchiveFile {
            file_name: name.clone(),
            probe: ArchiveProbe::Found { file_size: bytes.len() as u64, header },
        });
    }
    let content = |name: &str| {
        files
            .iter()
            .find(|(n, _)| n == name)
            .map(|(_, bytes)| FileContent::Bytes(bytes.clone()))
            .unwrap_or(FileContent::Absent)
    };
    let mut products = Vec::new();
    let mut diagnostics = Vec::new();
    for stem in stems {
        match build_product("dist", &stem, &content(&stem), &content(&format!("{stem}.idb")), &archives) {
            Ok(product) => products.push(product),
            Err(error) => diagnostics.push(skipped_product(&stem, &error)),
        }
    }
    Distribution::assemble("dist".to_string(), products, DistributionSupportFiles::default(), diagnostics)
}

fn lp16(bytes: &mut Vec<u8>, s: &str) {
    bytes.extend_from_slice(&(s.len() as u16).to_be_bytes());
    bytes.extend_from_slice(s.as_bytes());
}

/// A minimal level-9 descriptor for a product with one `sw` image and one
/// `unix` subsystem, with raw attribute blobs per level.
fn descriptor_bytes(product: &str, product_attrs: &[&str], image_attrs: &[&str], unix_attrs: &[&str]) -> Vec<u8> {
    let mut bytes = b"pd001V999P00\0".to_vec();
    for word in [0x07c4u16, 0x0001, 0x07c3, 9] {
        bytes.extend_from_slice(&word.to_be_bytes());
    }
    lp16(&mut bytes, product);
    lp16(&mut bytes, "Synthetic Test Product");
    bytes.extend_from_slice(&0x0850u16.to_be_bytes());
    bytes.extend_from_slice(&0x0102_0304u32.to_be_bytes());
    bytes.extend_from_slice(&0u32.to_be_bytes());
    bytes.extend_from_slice(&(product_attrs.len() as u16).to_be_bytes());
    for attr in product_attrs {
        lp16(&mut bytes, attr);
    }
    bytes.extend_from_slice(&1u16.to_be_bytes());

    bytes.extend_from_slice(&0x0858u16.to_be_bytes());
    lp16(&mut bytes, "sw");
    lp16(&mut bytes, "System Software");
    bytes.extend_from_slice(&0u16.to_be_bytes());
    bytes.extend_from_slice(&9999u16.to_be_bytes());
    bytes.extend_from_slice(&0x0102_0305u32.to_be_bytes());
    bytes.extend_from_slice(&0u32.to_be_bytes());
    bytes.extend_from_slice(&(image_attrs.len() as u16).to_be_bytes());
    for attr in image_attrs {
        lp16(&mut bytes, attr);
    }
    bytes.extend_from_slice(&1u16.to_be_bytes());

    bytes.extend_from_slice(&0x0852u16.to_be_bytes());
    lp16(&mut bytes, "unix");
    lp16(&mut bytes, "UNIX Kernel");
    lp16(&mut bytes, "ALL");
    for _ in 0..7 {
        bytes.extend_from_slice(&0u16.to_be_bytes());
    }
    bytes.extend_from_slice(&(unix_attrs.len() as u16).to_be_bytes());
    for attr in unix_attrs {
        lp16(&mut bytes, attr);
    }
    bytes.extend_from_slice(&0u16.to_be_bytes());
    bytes
}

/// One product `cand` carrying MACH expressions on every level and on its
/// entries, plus a conditional-flag condition (`IP99`) that is not a MACH
/// expression.
fn candidates_dist() -> Distribution {
    open_files(&[
        (
            "cand".to_string(),
            descriptor_bytes(
                "cand",
                &["mCPUBOARD=IP22 && (GFXBOARD=EXPRESS || GFXBOARD=NEWPRESS)"],
                &["mGFXBOARD!=SERVER", "m!(VIDEO=EVO)"],
                &["mMODE>=64bit", "mCPUBOARD<IP30", "DCPUBOARD=IP99"],
            ),
        ),
        (
            "cand.idb".to_string(),
            b"f 0755 root sys usr/bin/board26 src/b26 cand.sw.unix sum(1) size(10) cmpsize(0) mach(IP26)\n\
              f 0755 root sys usr/bin/frob src/frob cand.sw.unix sum(1) size(10) cmpsize(0) mach(FROBNICATE=YES)\n\
              f 0755 root sys usr/bin/legacy src/legacy cand.sw.unix sum(1) size(10) cmpsize(0) mach(CPUBOARD=IP22 GFXBOARD=EXPRESS)\n\
              f 0755 root sys usr/bin/garbage src/garbage cand.sw.unix sum(1) size(10) cmpsize(0) mach(=GARBAGE)\n\
              f 0755 root sys usr/bin/again src/again cand.sw.unix sum(1) size(10) cmpsize(0) mach(CPUBOARD=IP22)\n"
                .to_vec(),
        ),
    ])
}

/// The (attribute, values) pairs of a candidate list.
fn candidate_pairs(candidates: &[HardwareCandidateSet]) -> Vec<(String, Vec<String>)> {
    candidates.iter().map(|set| (set.attribute.clone(), set.values.clone())).collect()
}

#[test]
fn candidates_cover_every_mach_source_in_first_appearance_order() {
    let dist = candidates_dist();
    assert_eq!(
        candidate_pairs(&dist.hardware_candidates()),
        vec![
            ("CPUBOARD".to_string(), vec!["IP22".to_string(), "IP30".to_string(), "IP26".to_string()]),
            ("GFXBOARD".to_string(), vec!["EXPRESS".to_string(), "NEWPRESS".to_string(), "SERVER".to_string()]),
            ("VIDEO".to_string(), vec!["EVO".to_string()]),
            ("MODE".to_string(), vec!["64bit".to_string()]),
            ("FROBNICATE".to_string(), vec!["YES".to_string()]),
        ]
    );
}

#[test]
fn candidates_ignore_unparseable_payloads() {
    let dist = candidates_dist();
    for set in dist.hardware_candidates() {
        assert!(!set.attribute.is_empty());
        for value in &set.values {
            assert!(!value.contains("GARBAGE"));
        }
    }
}

#[test]
fn candidates_ignore_conditional_flag_conditions() {
    let dist = candidates_dist();
    for set in dist.hardware_candidates() {
        assert!(!set.values.iter().any(|value| value == "IP99"));
    }
}

#[test]
fn candidates_keep_empty_values() {
    let dist = open_files(&[
        ("gfx".to_string(), descriptor_bytes("gfx", &[], &[], &[])),
        (
            "gfx.idb".to_string(),
            b"f 0755 root sys usr/bin/any src/any gfx.sw.unix sum(1) size(10) cmpsize(0)\n\
              f 0755 root sys usr/bin/headless src/headless gfx.sw.unix sum(2) size(10) cmpsize(0) mach(GFXBOARD=)\n"
                .to_vec(),
        ),
    ]);
    assert_eq!(candidate_pairs(&dist.hardware_candidates()), vec![("GFXBOARD".to_string(), vec!["".to_string()])]);
}

#[test]
fn selection_keeps_idb_order_within_a_subsystem() {
    let dist = open_files(&[
        ("ord".to_string(), descriptor_bytes("ord", &[], &[], &[])),
        (
            "ord.idb".to_string(),
            b"f 0644 root sys x src/x ord.sw.unix sum(1) size(1) cmpsize(0)\n\
              f 0644 root sys y src/y ord.sw.unix sum(1) size(1) cmpsize(0)\n\
              f 0644 root sys x src/x2 ord.sw.unix sum(1) size(1) cmpsize(0)\n"
                .to_vec(),
        ),
    ]);
    let profile = sw_core::mach::eval::HardwareProfile::builder().build();
    let selection = dist.select(&profile);
    let ids: Vec<usize> = selection.selected.iter().map(|l| l.key.entry_id.0).collect();
    assert_eq!(ids, vec![0, 1, 2]);
    assert_eq!(selection.conflicts.len(), 1);
    assert_eq!(selection.conflicts[0].path.as_str(), "x");
    let candidates: Vec<usize> = selection.conflicts[0].candidates.iter().map(|l| l.key.entry_id.0).collect();
    assert_eq!(candidates, vec![0, 2]);
}

#[test]
fn product_stems_are_sorted_and_unique() {
    let listing = vec![
        ("zeta.idb".to_string(), true, Vec::new()),
        ("alpha".to_string(), true, b"pd001V999P00\0".to_vec()),
        ("alpha.idb".to_string(), true, Vec::new()),
        ("notes.txt".to_string(), true, Vec::new()),
        ("Zed.idb".to_string(), true, Vec::new()),
        ("zeta.idb".to_string(), true, Vec::new()),
    ];
    let stems = sw_core::frontend::product_stems(&listing);
    assert_eq!(stems, vec!["Zed".to_string(), "alpha".to_string(), "zeta".to_string()]);
}

#[test]
fn every_entry_is_attached_exactly_once() {
    let dist = candidates_dist();
    let product = &dist.products()[0];
    assert_eq!(product.entries.len(), 5);
    for entry in &product.entries {
        let mut listed = 0;
        for image in &product.images {
            for subsystem in &image.subsystems {
                listed += subsystem.entry_ids.iter().filter(|id| **id == entry.id).count();
            }
        }
        assert_eq!(listed, 1);
    }
}

#[test]
fn descriptor_name_mismatch_is_a_warning() {
    let dist = open_files(&[
        ("mine".to_string(), descriptor_bytes("other", &[], &[], &[])),
        ("mine.idb".to_string(), b"f 0644 root sys x src/x mine.sw.unix sum(1) size(1) cmpsize(0)\n".to_vec()),
    ]);
    let product = &dist.products()[0];
    assert!(product.diagnostics.iter().any(|d| d.message
        == "descriptor product name \"other\" does not match file name \"mine\""
        && d.origin.as_deref() == Some("dist/mine")));
}
