use sw_core::image::layout::{compute_layout, LayoutInput};
use sw_core::names::{ImageName, ProductName};

fn image() -> ImageName {
    ImageName::from_parts(ProductName::new("eoe1").unwrap(), "sw".to_string()).unwrap()
}

#[test]
fn computes_sequential_offsets() {
    let inputs = vec![
        LayoutInput { raw_name: ".bin.mv.sh".into(), encoded_size: Some(756) },
        LayoutInput { raw_name: ".cshrc".into(), encoded_size: Some(465) },
    ];
    let locators = compute_layout(&image(), &inputs);
    assert_eq!(locators[0].expected_record_offset, Some(13));
    assert_eq!(locators[1].expected_record_offset, Some(13 + 2 + 10 + 756));
}

#[test]
fn unknown_size_poisons_following_offsets() {
    let inputs = vec![
        LayoutInput { raw_name: "a".into(), encoded_size: None },
        LayoutInput { raw_name: "b".into(), encoded_size: Some(10) },
    ];
    let locators = compute_layout(&image(), &inputs);
    assert_eq!(locators[0].expected_record_offset, Some(13));
    assert_eq!(locators[1].expected_record_offset, None);
}

#[test]
fn non_ascii_names_count_archive_bytes() {
    let inputs = vec![
        LayoutInput { raw_name: "café.txt".into(), encoded_size: Some(10) },
        LayoutInput { raw_name: "next".into(), encoded_size: Some(5) },
    ];
    let locators = compute_layout(&image(), &inputs);
    assert_eq!(locators[1].expected_record_offset, Some(13 + 2 + 8 + 10));
}
