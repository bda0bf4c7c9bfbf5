use sw_core::distribution::{build_product, FileContent};
use sw_core::extract::{ExtractFailure, ExtractRecovery, ExtractReport};
use sw_core::image::PayloadResolution;
use sw_core::output::{entry_mach, extract_report, image_details, product_details, product_tree, products_table, table};

#[test]
fn tables_pad_all_but_the_last_column() {
    let rows = vec![vec!["x".to_string(), "yyy".to_string()], vec!["long".to_string(), "z".to_string()]];
    assert_eq!(table(&["A", "BB"], &rows), "A     BB\nx     yyy\nlong  z\n");
}

#[test]
fn column_widths_count_bytes() {
    let rows = vec![vec!["é".to_string(), "-".to_string()]];
    assert_eq!(table(&["A", "B"], &rows), "A   B\né   -\n");
}

const IDB: &str = "d 0755 root sys usr src/usr t.sw.base\n\
                   f 0644 root sys usr/a src/a t.man.pages size(3) cmpsize(0) mach(CPUBOARD=IP22) mach(=IP30)\n";

#[test]
fn products_are_listed_with_their_counts() {
    let product = build_product("dist", "t", &FileContent::Absent, &FileContent::Bytes(IDB.as_bytes().to_vec()), &[]).unwrap();
    let text = products_table(std::slice::from_ref(&product));
    assert_eq!(
        text,
        "NAME  D  I  IMAGES  SUBSYSTEMS  ENTRIES  TITLE\nt     N  Y  2       2           2        -\n"
    );
    assert_eq!(entry_mach(&product.entries[1]), "CPUBOARD=IP22, unparsable: =IP30");
    assert_eq!(entry_mach(&product.entries[0]), "-");
}

#[test]
fn a_product_tree_draws_images_and_subsystems() {
    let product = build_product("dist", "t", &FileContent::Absent, &FileContent::Bytes(IDB.as_bytes().to_vec()), &[]).unwrap();
    let tree = product_tree(&product);
    assert!(tree.starts_with("t — -\n├── t.sw\n│   version -   order -\n│   └── t.sw.base\n│       1 entries\n"), "{tree}");
    assert!(tree.ends_with("└── t.man\n    version -   order -\n    └── t.man.pages\n        1 entries\n"), "{tree}");
    let details = product_details(&product);
    assert!(details.starts_with("Product: t\nTitle:   -\nDescriptor: no\nIDB:        yes\n\nMACH:\n  unknown (no descriptor record)\n\nImages:\n  t.sw\n  t.man\n"), "{details}");
    let image = image_details(&product.images[0]);
    assert!(image.starts_with("Image:   t.sw\nTitle:   -\nVersion: -\nOrder:   -\n\nMACH:\n"), "{image}");
    assert!(image.ends_with("Subsystems:\n  t.sw.base\n"), "{image}");
}

#[test]
fn extraction_reports_surface_recoveries_and_failures() {
    let report = ExtractReport {
        extracted: 2,
        skipped: 1,
        failures: vec![ExtractFailure { path: "usr/b".to_string(), message: "boom".to_string() }],
        recoveries: vec![ExtractRecovery {
            path: "usr/a".to_string(),
            expected_record_offset: Some(16),
            actual_record_offset: 31,
            resolution: PayloadResolution::Resynced { delta: Some(15) },
        }],
    };
    assert_eq!(
        extract_report(&report, 4),
        "\nExtraction complete\n\nTotal:      4\nExtracted:  2\nSkipped:    1\nErrors:     1\nRecoveries: 1\n\
         \nRecovered payload:\n  usr/a\n  expected: 0x10\n  actual:   0x1f\n  method:   resync\n\
         \nFailures:\n  usr/b: boom\n"
    );
}
