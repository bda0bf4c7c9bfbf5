use std::cell::RefCell;
use sw_core::distribution::{
    build_product, ArchiveFile, ArchiveProbe, Distribution, DistributionSupportFiles, FileContent, LocatedEntry,
};
use sw_core::error::Error;
use sw_core::extract::{extract, DecodeMode, ExistingOutputPolicy, ExtractOptions, HostWrite, PathMode};
use sw_core::mach::eval::HardwareProfile;
use sw_core::plan::{extract_checked, plan_extraction, PathKind};
use sw_core::query::Query;

const IDB: &str = "d 0755 root sys usr src/usr t.sw.base\n\
                   f 0644 root sys usr/a src/a t.sw.base size(3) cmpsize(0)\n\
                   l 0777 root sys usr/l src/l t.sw.base symval(a)\n\
                   c 0644 root sys dev/null src/null t.sw.base dev(1 2)\n\
                   f 0644 root sys usr/gone src/g t.sw.base size(4)\n";

fn archive() -> Vec<u8> {
    let mut bytes = b"im001V530P00\0".to_vec();
    bytes.extend_from_slice(&[0, 5]);
    bytes.extend_from_slice(b"usr/a");
    bytes.extend_from_slice(b"xyz");
    bytes
}

fn distribution(len: u64) -> Distribution {
    let product = build_product(
        "dist",
        "t",
        &FileContent::Absent,
        &FileContent::Bytes(IDB.as_bytes().to_vec()),
        &[ArchiveFile {
            file_name: "t.sw".to_string(),
            probe: ArchiveProbe::Found { file_size: len, header: b"im001V530P00\0".to_vec() },
        }],
    )
    .unwrap();
    Distribution::assemble("dist".to_string(), vec![product], DistributionSupportFiles::default(), Vec::new())
}

fn options(continue_on_error: bool) -> ExtractOptions {
    ExtractOptions {
        path_mode: PathMode::Full,
        decode: DecodeMode::Auto,
        keep_stored: false,
        continue_on_error,
        existing_output: ExistingOutputPolicy::Allow,
    }
}

fn describe(op: &HostWrite) -> String {
    match op {
        HostWrite::CreateDir { path, mode } => format!("mkdir {path} {mode:o}"),
        HostWrite::CreateParents { path } => format!("parents {path}"),
        HostWrite::WriteFile { path, bytes, .. } => format!("write {path} {}", String::from_utf8_lossy(bytes)),
        HostWrite::Symlink { target, link, .. } => format!("link {link} -> {target}"),
    }
}

#[test]
fn every_entry_is_counted_once() {
    let bytes = archive();
    let dist = distribution(bytes.len() as u64);
    let entries: Vec<LocatedEntry<'_>> = dist.find(&Query::path("*")).entries;
    let read = |_archive: &str, offset: u64, length: usize| -> Result<Vec<u8>, Error> {
        Ok(bytes[offset as usize..offset as usize + length].to_vec())
    };
    let log: RefCell<Vec<String>> = RefCell::new(Vec::new());
    let write = |op: HostWrite| -> Result<(), Error> {
        log.borrow_mut().push(describe(&op));
        Ok(())
    };
    let mut reader = dist.image_reader();
    let report = extract(&mut reader, &read, &write, &entries, "out", &options(true));
    assert_eq!(report.extracted, 3);
    assert_eq!(report.skipped, 1);
    assert_eq!(report.failures.len(), 1);
    assert_eq!(report.failures[0].path, "usr/gone");
    assert_eq!(report.failures[0].message, "entry has no payload: usr/gone");
    assert!(report.recoveries.is_empty());
    assert_eq!(
        log.into_inner(),
        vec![
            "mkdir out/usr 755".to_string(),
            "parents out/usr/a".to_string(),
            "write out/usr/a xyz".to_string(),
            "parents out/usr/l".to_string(),
            "link out/usr/l -> a".to_string(),
            "parents out/usr/gone".to_string(),
        ]
    );
}

#[test]
fn fail_fast_stops_at_the_first_failure() {
    let bytes = archive();
    let dist = distribution(bytes.len() as u64);
    let entries: Vec<LocatedEntry<'_>> = dist.find(&Query::path("*")).entries;
    let read = |_archive: &str, offset: u64, length: usize| -> Result<Vec<u8>, Error> {
        Ok(bytes[offset as usize..offset as usize + length].to_vec())
    };
    let write = |op: HostWrite| -> Result<(), Error> {
        match op {
            HostWrite::Symlink { link, .. } => Err(Error::Io { path: link, message: "denied".to_string() }),
            _ => Ok(()),
        }
    };
    let mut reader = dist.image_reader();
    let report = extract(&mut reader, &read, &write, &entries, "out", &options(false));
    assert_eq!(report.extracted, 2);
    assert_eq!(report.skipped, 0);
    assert_eq!(report.failures.len(), 1);
    assert_eq!(report.failures[0].message, "I/O error on out/usr/l: denied");
}

const GATED_IDB: &str = "d 0755 root sys usr src/usr t.sw.base\n\
                         f 0644 root sys usr/a src/a t.sw.base size(3) cmpsize(0)\n\
                         f 0644 root sys usr/gone src/g t.sw.base size(4) mach(CPUBOARD=IP19)\n";

fn gated_distribution(len: u64) -> Distribution {
    let product = build_product(
        "dist",
        "t",
        &FileContent::Absent,
        &FileContent::Bytes(GATED_IDB.as_bytes().to_vec()),
        &[ArchiveFile {
            file_name: "t.sw".to_string(),
            probe: ArchiveProbe::Found { file_size: len, header: b"im001V530P00\0".to_vec() },
        }],
    )
    .unwrap();
    Distribution::assemble("dist".to_string(), vec![product], DistributionSupportFiles::default(), Vec::new())
}

fn nothing_exists(_path: String, _follow: bool) -> PathKind {
    PathKind::Missing
}

#[test]
fn an_entry_the_hardware_check_drops_never_blocks_the_plan() {
    let bytes = archive();
    let dist = gated_distribution(bytes.len() as u64);
    let requested: Vec<LocatedEntry<'_>> = dist.find(&Query::path("*")).entries;
    assert_eq!(requested.len(), 3);

    let unblocked = HardwareProfile::builder().set("CPUBOARD", "IP22").build();
    let plan = plan_extraction(&dist, &requested, "out", &options(true), Some(&unblocked), &nothing_exists).unwrap();
    let paths: Vec<&str> = plan.entries.iter().map(|l| l.entry.path.as_str()).collect();
    assert_eq!(paths, vec!["usr", "usr/a"]);
    assert_eq!(plan.summary.hardware_excluded_records, 1);
    assert_eq!(plan.summary.planned_records, 2);

    let kept = HardwareProfile::builder().set("CPUBOARD", "IP19").build();
    let refused = plan_extraction(&dist, &requested, "out", &options(true), Some(&kept), &nothing_exists);
    assert!(matches!(refused, Err(Error::PayloadNotFound { .. })));
    let refused = plan_extraction(&dist, &requested, "out", &options(true), None, &nothing_exists);
    assert!(matches!(refused, Err(Error::PayloadNotFound { .. })));
}

#[test]
fn checked_extraction_writes_only_the_confirmed_plan() {
    let bytes = archive();
    let dist = gated_distribution(bytes.len() as u64);
    let requested: Vec<LocatedEntry<'_>> = dist.find(&Query::path("*")).entries;
    let read = |_archive: &str, offset: u64, length: usize| -> Result<Vec<u8>, Error> {
        Ok(bytes[offset as usize..offset as usize + length].to_vec())
    };
    let log: RefCell<Vec<String>> = RefCell::new(Vec::new());
    let write = |op: HostWrite| -> Result<(), Error> {
        log.borrow_mut().push(describe(&op));
        Ok(())
    };
    let profile = HardwareProfile::builder().set("CPUBOARD", "IP22").build();
    let checked =
        extract_checked(&dist, &requested, "out", &options(true), Some(&profile), &nothing_exists, &read, &write)
            .unwrap();
    assert_eq!(checked.plan.requested_records, 3);
    assert_eq!(checked.plan.planned_records, 2);
    assert_eq!(checked.report.extracted, 2);
    assert!(checked.report.failures.is_empty());
    assert_eq!(
        log.into_inner(),
        vec!["mkdir out/usr 755".to_string(), "parents out/usr/a".to_string(), "write out/usr/a xyz".to_string()]
    );

    let nothing_written: RefCell<usize> = RefCell::new(0);
    let counting = |_op: HostWrite| -> Result<(), Error> {
        *nothing_written.borrow_mut() += 1;
        Ok(())
    };
    let refused = extract_checked(&dist, &requested, "out", &options(true), None, &nothing_exists, &read, &counting);
    assert!(matches!(refused, Err(Error::PayloadNotFound { .. })));
    assert_eq!(nothing_written.into_inner(), 0);
}
