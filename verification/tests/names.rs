use sw_core::names::{wildcard_match, ImageName, ProductName, SubsystemName};

#[test]
fn parses_subsystem_names() {
    let name = SubsystemName::parse("eoe.sw.unix").unwrap();
    assert_eq!(name.product().as_str(), "eoe");
    assert_eq!(name.image(), "sw");
    assert_eq!(name.subsystem(), "unix");
    assert_eq!(name.image_name().file_name(), "eoe.sw");
    assert_eq!(name.to_string(), "eoe.sw.unix");
}

#[test]
fn rejects_malformed_names() {
    assert!(SubsystemName::parse("eoe").is_err());
    assert!(SubsystemName::parse("eoe.sw").is_err());
    assert!(SubsystemName::parse("eoe.sw.").is_err());
    assert!(SubsystemName::parse("eoe..unix").is_err());
    assert!(SubsystemName::parse("eoe.sw.foo.bar").is_err());
    assert!(SubsystemName::parse("sum(5488)").is_err());
    assert!(ProductName::new("eoe.sw").is_err());
}

#[test]
fn rejects_host_path_semantics_in_segments() {
    assert!(ProductName::new("a/b").is_err());
    assert!(ProductName::new("a\0b").is_err());
    assert!(SubsystemName::parse("eoe.s/w.unix").is_err());
    assert!(SubsystemName::parse("eoe.sw.un\0ix").is_err());
    let product = ProductName::new("eoe").unwrap();
    assert!(ImageName::from_parts(product.clone(), "s/w".to_string()).is_err());
    assert!(ImageName::from_parts(product.clone(), "s.w".to_string()).is_err());
    assert!(ImageName::from_parts(product.clone(), String::new()).is_err());
    assert!(ImageName::from_parts(product, "sw".to_string()).is_ok());
}

#[test]
fn wildcard_matching() {
    assert!(wildcard_match("eoe*.sw*", "eoe1.sw"));
    assert!(wildcard_match("*ge7.bin", "usr/sbin/ge7.bin"));
    assert!(wildcard_match("eoe.sw.uni?", "eoe.sw.unix"));
    assert!(!wildcard_match("eoe*.man*", "eoe1.sw"));
    assert!(wildcard_match("*", "anything"));
}

#[test]
fn image_names_parse_from_dotted_text() {
    let image = ImageName::parse("eoe.sw").unwrap();
    assert_eq!(image.to_string(), "eoe.sw");
    assert!(ImageName::parse("eoe").is_err());
}
