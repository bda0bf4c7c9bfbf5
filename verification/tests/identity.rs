//! Distribution-wide entry identity: `EntryKey` uniqueness and
//! round-trips, and owning-product identity in search results and
//! selections, including records naming a foreign subsystem.
use std::collections::BTreeSet;
use sw_core::distribution::{
    build_product, ArchiveFile, ArchiveProbe, Distribution, DistributionSupportFiles, EntryKey, FileContent,
    LocatedEntry,
};
use sw_core::frontend::{product_stem, resolve_scope, skipped_product, Scope, ScopeError};
use sw_core::idb::EntryId;
use sw_core::mach::eval::HardwareProfile;
use sw_core::query::Query;

/// Builds a distribution from named files, as a frontend does from a
/// directory listing.
fn open_files(files: &[(String, Vec<u8>)]) -> Distribution {
    let mut stems: BTreeSet<String> = BTreeSet::new();
    let mut archives = Vec::new();
    for (name, bytes) in files {
        let header: Vec<u8> = bytes.iter().take(13).copied().collect();
        if let Some(stem) = product_stem(name, true, &header) {
            stems.insert(stem);
        }
        archives.push(ArchiveFile {
            file_name: name.clone(),
            probe: ArchiveProbe::Found { file_size: bytes.len() as u64, header },
        });
    }
    let content = |name: &str| {
        files
            .iter()
            .find(|(n, _)| n == name)
            .map(|(_, bytes)| FileContent::Bytes(bytes.clone()))
            .unwrap_or(FileContent::Absent)
    };
    let mut products = Vec::new();
    let mut diagnostics = Vec::new();
    for stem in stems {
        match build_product("dist", &stem, &content(&stem), &content(&format!("{stem}.idb")), &archives) {
            Ok(product) => products.push(product),
            Err(error) => diagnostics.push(skipped_product(&stem, &error)),
        }
    }
    Distribution::assemble("dist".to_string(), products, DistributionSupportFiles::default(), diagnostics)
}

fn lp16(bytes: &mut Vec<u8>, s: &str) {
    bytes.extend_from_slice(&(s.len() as u16).to_be_bytes());
    bytes.extend_from_slice(s.as_bytes());
}

/// A minimal level-9 descriptor whose `unix` subsystem carries the given
/// raw attribute blobs.
fn descriptor_bytes(product: &str, unix_attrs: &[&str]) -> Vec<u8> {
    let mut bytes = b"pd001V999P00\0".to_vec();
    for word in [0x07c4u16, 0x0001, 0x07c3, 9] {
        bytes.extend_from_slice(&word.to_be_bytes());
    }
    lp16(&mut bytes, product);
    lp16(&mut bytes, "Synthetic Test Product");
    bytes.extend_from_slice(&0x0850u16.to_be_bytes());
    bytes.extend_from_slice(&0x0102_0304u32.to_be_bytes());
    bytes.extend_from_slice(&0u32.to_be_bytes());
    bytes.extend_from_slice(&0u16.to_be_bytes());
    bytes.extend_from_slice(&1u16.to_be_bytes());

    bytes.extend_from_slice(&0x0858u16.to_be_bytes());
    lp16(&mut bytes, "sw");
    lp16(&mut bytes, "System Software");
    bytes.extend_from_slice(&0u16.to_be_bytes());
    bytes.extend_from_slice(&9999u16.to_be_bytes());
    bytes.extend_from_slice(&0x0102_0305u32.to_be_bytes());
    bytes.extend_from_slice(&0u32.to_be_bytes());
    bytes.extend_from_slice(&0u16.to_be_bytes());
    bytes.extend_from_slice(&1u16.to_be_bytes());

    bytes.extend_from_slice(&0x0852u16.to_be_bytes());
    lp16(&mut bytes, "unix");
    lp16(&mut bytes, "UNIX Kernel");
    lp16(&mut bytes, "ALL");
    for _ in 0..7 {
        bytes.extend_from_slice(&0u16.to_be_bytes());
    }
    bytes.extend_from_slice(&(unix_attrs.len() as u16).to_be_bytes());
    for attr in unix_attrs {
        lp16(&mut bytes, attr);
    }
    bytes.extend_from_slice(&0u16.to_be_bytes());
    bytes
}

/// alpha (IDB only): entry 0 names the foreign subsystem beta.sw.unix;
/// entries 2-3 share the path usr/share/dup. beta (IDB only): entry 0 is
/// an IP22-specific record. side (descriptor + IDB): the subsystem MACH
/// blob does not parse. Product order is alphabetical.
fn open() -> Distribution {
    let files = vec![
        (
            "alpha.idb".to_string(),
            b"f 0755 root sys usr/bin/foreign src/f beta.sw.unix sum(1) size(0) mach(CPUBOARD=IP22)\n\
              f 0644 root sys usr/bin/own src/o alpha.sw.unix sum(2) size(0)\n\
              f 0644 root sys usr/share/dup src/d1 alpha.sw.unix sum(3) size(0)\n\
              f 0644 root sys usr/share/dup src/d2 alpha.sw.unix sum(4) size(0)\n"
                .to_vec(),
        ),
        (
            "beta.idb".to_string(),
            b"f 0755 root sys usr/bin/beta src/b beta.sw.unix sum(1) size(0) mach(CPUBOARD=IP22)\n".to_vec(),
        ),
        ("side".to_string(), descriptor_bytes("side", &["m=IP99"])),
        ("side.idb".to_string(), b"f 0644 root sys bin/side src/s side.sw.unix sum(1) size(0)\n".to_vec()),
    ];
    open_files(&files)
}

/// The product index of `name` in `dist`.
fn product_index(dist: &Distribution, name: &str) -> usize {
    dist.products().iter().position(|p| p.name.as_str() == name).unwrap()
}

#[test]
fn entry_keys_are_unique_across_products() {
    let dist = open();
    let alpha = EntryKey { product_index: product_index(&dist, "alpha"), entry_id: EntryId(0) };
    let beta = EntryKey { product_index: product_index(&dist, "beta"), entry_id: EntryId(0) };
    assert_ne!(alpha, beta);
    let set: std::collections::HashSet<_> = [alpha, beta].into_iter().collect();
    assert_eq!(set.len(), 2);
}

#[test]
fn entry_key_roundtrips_through_distribution_entry() {
    let dist = open();
    let found = dist.find(&Query::path("*"));
    assert_eq!(found.entries.len(), 6);
    for located in &found.entries {
        let resolved = dist.entry(located.key).expect("key resolves");
        assert_eq!(resolved.key, located.key);
        assert!(std::ptr::eq(resolved.entry, located.entry));
    }
    assert!(dist.entry(EntryKey { product_index: dist.products().len(), entry_id: EntryId(0) }).is_none());
    assert!(dist.entry(EntryKey { product_index: 0, entry_id: EntryId(9999) }).is_none());
}

#[test]
fn find_preserves_product_order_idb_order_and_duplicate_paths() {
    let dist = open();
    let found = dist.find(&Query::path("*"));
    let keys: Vec<EntryKey> = found.entries.iter().map(|located| located.key).collect();
    assert_eq!(
        keys,
        vec![
            EntryKey { product_index: 0, entry_id: EntryId(0) },
            EntryKey { product_index: 0, entry_id: EntryId(1) },
            EntryKey { product_index: 0, entry_id: EntryId(2) },
            EntryKey { product_index: 0, entry_id: EntryId(3) },
            EntryKey { product_index: 1, entry_id: EntryId(0) },
            EntryKey { product_index: 2, entry_id: EntryId(0) },
        ]
    );
    let dups: Vec<_> = found.entries.iter().filter(|located| located.entry.path.as_str() == "usr/share/dup").collect();
    assert_eq!(dups.len(), 2);
}

#[test]
fn foreign_subsystem_record_keeps_its_actual_owner() {
    let dist = open();
    let found = dist.find(&Query::path_search("foreign").unwrap());
    assert_eq!(found.entries.len(), 1);
    let located = found.entries[0];
    assert_eq!(located.entry.subsystem.to_string(), "beta.sw.unix");
    assert_eq!(located.key.product_index, product_index(&dist, "alpha"));
    assert_eq!(located.key.entry_id, EntryId(0));
}

#[test]
fn selection_keys_carry_the_owning_product() {
    let dist = open();
    let profile = HardwareProfile::builder().set("CPUBOARD", "IP22").build();
    let selection = dist.select(&profile);
    let foreign = selection
        .selected
        .iter()
        .find(|located| located.entry.path.as_str() == "usr/bin/foreign")
        .expect("foreign record selected");
    assert_eq!(foreign.key.product_index, product_index(&dist, "alpha"));
    let beta = selection
        .selected
        .iter()
        .find(|located| located.entry.path.as_str() == "usr/bin/beta")
        .expect("beta record selected");
    assert_eq!(beta.key.product_index, product_index(&dist, "beta"));
    assert_eq!(foreign.key.entry_id, beta.key.entry_id);
    assert_ne!(foreign.key, beta.key);
}

#[test]
fn conflict_candidates_carry_the_owning_product() {
    let dist = open();
    let profile = HardwareProfile::builder().set("CPUBOARD", "IP22").build();
    let selection = dist.select(&profile);

    let conflict = selection.conflicts.iter().find(|c| c.path.as_str() == "usr/share/dup").expect("dup conflict");
    assert_eq!(conflict.candidates.len(), 2);
    for candidate in &conflict.candidates {
        assert_eq!(candidate.key.product_index, product_index(&dist, "alpha"));
    }

    let unresolved = selection.conflicts.iter().find(|c| c.path.as_str() == "bin/side").expect("side conflict");
    assert_eq!(unresolved.candidates.len(), 1);
    assert_eq!(unresolved.candidates[0].key.product_index, product_index(&dist, "side"));
    assert!(!selection.selected.iter().any(|located| located.entry.path.as_str() == "bin/side"));
}

#[test]
fn every_entry_resolves_by_key() {
    let dist = open();
    for (product_index, product) in dist.products().iter().enumerate() {
        for entry in &product.entries {
            let key = EntryKey { product_index, entry_id: entry.id };
            let located: LocatedEntry = dist.entry(key).expect("every entry resolves");
            assert!(std::ptr::eq(located.entry, entry));
        }
    }
}

#[test]
fn a_search_narrows_a_hardware_selection() {
    let dist = open();
    let profile = HardwareProfile::builder().set("CPUBOARD", "IP22").build();
    let selection = dist.select(&profile);
    let found = dist.find(&Query::path_search("usr/").unwrap());
    let (entries, conflicts) = sw_core::frontend::restrict_selection(&selection, &found.entries);
    let paths: Vec<&str> = entries.iter().map(|l| l.entry.path.as_str()).collect();
    assert_eq!(paths, vec!["usr/bin/foreign", "usr/bin/own", "usr/share/dup", "usr/share/dup", "usr/bin/beta"]);
    let contested: Vec<&str> = conflicts.iter().map(|c| c.path.as_str()).collect();
    assert_eq!(contested, vec!["usr/share/dup"]);
}

#[test]
fn scopes_resolve_to_keys_of_the_owning_product() {
    let dist = open();
    let alpha = product_index(&dist, "alpha");
    let beta = product_index(&dist, "beta");

    let path = resolve_scope(&dist, &Scope::Path("usr/bin".to_string())).unwrap();
    assert_eq!(
        path,
        vec![
            EntryKey { product_index: alpha, entry_id: EntryId(0) },
            EntryKey { product_index: alpha, entry_id: EntryId(1) },
            EntryKey { product_index: beta, entry_id: EntryId(0) },
        ]
    );

    let product = resolve_scope(&dist, &Scope::Product("beta".to_string())).unwrap();
    assert_eq!(product, vec![EntryKey { product_index: beta, entry_id: EntryId(0) }]);

    // The first product carrying an image of the name is alpha, through
    // its record naming the foreign beta.sw.unix.
    let image = resolve_scope(&dist, &Scope::Image("beta.sw".to_string())).unwrap();
    assert_eq!(image, vec![EntryKey { product_index: alpha, entry_id: EntryId(0) }]);
    let subsystem = resolve_scope(&dist, &Scope::Subsystem("alpha.sw.unix".to_string())).unwrap();
    assert_eq!(
        subsystem,
        vec![
            EntryKey { product_index: alpha, entry_id: EntryId(1) },
            EntryKey { product_index: alpha, entry_id: EntryId(2) },
            EntryKey { product_index: alpha, entry_id: EntryId(3) },
        ]
    );

    assert_eq!(
        resolve_scope(&dist, &Scope::Path("nothing-here".to_string())).unwrap_err(),
        ScopeError::NoMatch("nothing-here".to_string())
    );
    assert_eq!(resolve_scope(&dist, &Scope::Path(String::new())).unwrap_err().to_string(), "search query is empty");
    assert_eq!(
        resolve_scope(&dist, &Scope::Product("gamma".to_string())).unwrap_err(),
        ScopeError::ProductNotFound("gamma".to_string())
    );
    assert_eq!(
        resolve_scope(&dist, &Scope::Image("gamma.sw".to_string())).unwrap_err().to_string(),
        "image not found: gamma.sw"
    );
    assert_eq!(
        resolve_scope(&dist, &Scope::Subsystem("gamma.sw.unix".to_string())).unwrap_err().to_string(),
        "subsystem not found: gamma.sw.unix"
    );
}
