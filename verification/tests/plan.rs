use sw_core::distribution::{build_product, Distribution, DistributionSupportFiles, FileContent, LocatedEntry};
use sw_core::error::Error;
use sw_core::extract::{DecodeMode, ExistingOutputPolicy, ExtractOptions, PathMode};
use sw_core::plan::{check_existing_output, plan_extraction, OutputVerdict, PathKind};
use sw_core::query::Query;

fn distribution(idb: &str) -> Distribution {
    let product =
        build_product("dist", "t", &FileContent::Absent, &FileContent::Bytes(idb.as_bytes().to_vec()), &[]).unwrap();
    Distribution::assemble("dist".to_string(), vec![product], DistributionSupportFiles::default(), Vec::new())
}

fn everything(dist: &Distribution) -> Vec<LocatedEntry<'_>> {
    dist.find(&Query::path("*")).entries
}

fn options() -> ExtractOptions {
    ExtractOptions {
        path_mode: PathMode::Full,
        decode: DecodeMode::Auto,
        keep_stored: false,
        continue_on_error: true,
        existing_output: ExistingOutputPolicy::Allow,
    }
}

fn nothing_exists(_path: String, _follow: bool) -> PathKind {
    PathKind::Missing
}

fn plan_message(result: Result<sw_core::plan::ExtractionPlan<'_>, Error>) -> String {
    match result {
        Err(Error::ExtractionPlan { message }) => message,
        Err(other) => panic!("unexpected error {other:?}"),
        Ok(plan) => panic!("unexpected plan {:?}", plan.summary),
    }
}

const TWO_FILES: &str = "d 0755 root sys usr src/usr t.sw.base\n\
                         f 0644 root sys usr/a src/a t.sw.base size(3) cmpsize(0)\n\
                         f 0644 root sys usr/b src/b t.sw.base size(2) cmpsize(0)\n\
                         c 0644 root sys dev/null src/null t.sw.base dev(1 2)\n";

#[test]
fn a_clean_scope_is_planned_in_requested_order() {
    let dist = distribution(TWO_FILES);
    let requested = everything(&dist);
    assert_eq!(requested.len(), 4);
    let plan = plan_extraction(&dist, &requested, "out", &options(), None, &nothing_exists).unwrap();
    let paths: Vec<&str> = plan.entries.iter().map(|l| l.entry.path.as_str()).collect();
    assert_eq!(paths, vec!["usr", "usr/a", "usr/b"]);
    assert_eq!(plan.summary.requested_records, 4);
    assert_eq!(plan.summary.omitted_records, 1);
    assert_eq!(plan.summary.hardware_excluded_records, 0);
    assert_eq!(plan.summary.planned_records, 3);
    assert_eq!(plan.summary.output_paths, 3);
    assert_eq!(plan.summary.existing_outputs, 0);
}

#[test]
fn a_scope_without_output_is_refused() {
    let dist = distribution(TWO_FILES);
    let requested: Vec<LocatedEntry<'_>> =
        everything(&dist).into_iter().filter(|l| l.entry.path.as_str() == "dev/null").collect();
    let message = plan_message(plan_extraction(&dist, &requested, "out", &options(), None, &nothing_exists));
    assert_eq!(message, "no entries in the requested scope produce output with the given options");
}

#[test]
fn two_variants_of_one_file_are_ambiguous_without_a_profile() {
    let dist = distribution(
        "f 0644 root sys usr/a src/a t.sw.base size(3) cmpsize(0)\n\
         f 0644 root sys usr/a src/a2 t.sw.other size(3) cmpsize(0)\n",
    );
    let requested = everything(&dist);
    let message = plan_message(plan_extraction(&dist, &requested, "out", &options(), None, &nothing_exists));
    assert_eq!(message, "extraction is ambiguous\n\nusr/a has multiple applicable variants.\n\nSpecify a hardware profile.");
}

#[test]
fn shared_directories_are_not_ambiguous() {
    let dist = distribution(
        "d 0755 root sys usr src/usr t.sw.base\n\
         d 0755 root sys usr src/usr t.sw.other\n",
    );
    let requested = everything(&dist);
    let plan = plan_extraction(&dist, &requested, "out", &options(), None, &nothing_exists).unwrap();
    assert_eq!(plan.summary.planned_records, 2);
}

#[test]
fn flat_mode_collisions_are_refused() {
    let dist = distribution(
        "f 0644 root sys x/f src/a t.sw.base size(3) cmpsize(0)\n\
         f 0644 root sys y/f src/b t.sw.base size(2) cmpsize(0)\n",
    );
    let requested = everything(&dist);
    let options = ExtractOptions { path_mode: PathMode::Flat, ..options() };
    let message = plan_message(plan_extraction(&dist, &requested, "out", &options, None, &nothing_exists));
    assert!(message.starts_with("extraction would overwrite output files\n\nf\n"), "{message}");
    assert!(message.contains("<- t.sw.base: x/f"), "{message}");
    assert!(message.contains("<- t.sw.base: y/f"), "{message}");
    assert!(message.ends_with("\n\nNo files were written."), "{message}");
}

#[test]
fn writing_through_a_planned_link_is_refused() {
    let dist = distribution(
        "l 0777 root sys usr src/usr t.sw.base symval(/etc)\n\
         f 0644 root sys usr/passwd src/p t.sw.base size(3) cmpsize(0)\n",
    );
    let requested = everything(&dist);
    let message = plan_message(plan_extraction(&dist, &requested, "out", &options(), None, &nothing_exists));
    assert_eq!(
        message,
        "extraction would write through a non-directory output\n\nusr is not a directory but is an ancestor of usr/passwd\n\nNo files were written."
    );
}

#[test]
fn existing_files_follow_the_policy() {
    let dist = distribution(TWO_FILES);
    let requested = everything(&dist);
    let a_exists = |path: String, _follow: bool| {
        if path == "out/usr/a" {
            PathKind::File
        } else if path == "out/usr" || path == "out" {
            PathKind::Directory
        } else {
            PathKind::Missing
        }
    };
    let plan = plan_extraction(&dist, &requested, "out", &options(), None, &a_exists).unwrap();
    assert_eq!(plan.summary.existing_outputs, 1);
    let refuse = ExtractOptions { existing_output: ExistingOutputPolicy::Refuse, ..options() };
    let message = plan_message(plan_extraction(&dist, &requested, "out", &refuse, None, &a_exists));
    assert_eq!(message, "extraction would overwrite existing files\n\nout/usr/a\n\nNo files were written.");
}

#[test]
fn an_output_root_that_is_a_file_is_refused() {
    let dist = distribution(TWO_FILES);
    let requested = everything(&dist);
    let root_is_file = |path: String, _follow: bool| if path == "out" { PathKind::File } else { PathKind::Missing };
    let message = plan_message(plan_extraction(&dist, &requested, "out", &options(), None, &root_is_file));
    assert_eq!(message, "output directory out exists and is not a directory");
}

#[test]
fn a_linked_ancestor_is_refused_and_inspection_failures_surface() {
    let dist = distribution(TWO_FILES);
    let requested = everything(&dist);
    let linked = |path: String, _follow: bool| if path == "out/usr" { PathKind::Symlink } else { PathKind::Missing };
    let message = plan_message(plan_extraction(&dist, &requested, "out", &options(), None, &linked));
    assert_eq!(
        message,
        "extraction would write through an existing non-directory\n\nout/usr already exists and is not a plain directory\n\nNo files were written."
    );
    let broken = |path: String, _follow: bool| {
        if path == "out/usr/b" {
            PathKind::Unreadable { message: "permission denied".to_string() }
        } else {
            PathKind::Missing
        }
    };
    let error = plan_extraction(&dist, &requested, "out", &options(), None, &broken).unwrap_err();
    assert_eq!(error, Error::Io { path: "out/usr/b".to_string(), message: "permission denied".to_string() });
}

#[test]
fn existing_outputs_are_classified() {
    let dist = distribution(TWO_FILES);
    let requested = everything(&dist);
    let dir = requested[0].entry;
    let file = requested[1].entry;
    assert!(matches!(check_existing_output("o", dir, PathKind::Directory, ExistingOutputPolicy::Refuse), OutputVerdict::Clear));
    assert!(matches!(check_existing_output("o", dir, PathKind::File, ExistingOutputPolicy::Allow), OutputVerdict::Conflict { .. }));
    assert!(matches!(check_existing_output("o", file, PathKind::File, ExistingOutputPolicy::Allow), OutputVerdict::Replaces));
    assert!(matches!(check_existing_output("o", file, PathKind::File, ExistingOutputPolicy::Refuse), OutputVerdict::Refused));
    assert!(matches!(check_existing_output("o", file, PathKind::Missing, ExistingOutputPolicy::Refuse), OutputVerdict::Clear));
    let OutputVerdict::Conflict { message } = check_existing_output("o", file, PathKind::Symlink, ExistingOutputPolicy::Allow) else {
        panic!("a link must never be followed");
    };
    assert_eq!(message, "o is an existing symbolic link; refusing to follow it");
}
