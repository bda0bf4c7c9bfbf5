use sw_core::extract::{host_path_with, link_breadcrumb, stored_target, HostRules};
use sw_core::path::IrixPath;

#[test]
fn unix_host_rules_accept_irix_names() {
    let path = IrixPath::new("usr/lib/libfoo.so").unwrap();
    let host = host_path_with(&path, HostRules::Unix).unwrap();
    assert_eq!(host, "usr/lib/libfoo.so");
    let weird = IrixPath::new("a\\b:c").unwrap();
    assert!(host_path_with(&weird, HostRules::Unix).is_ok());
}

#[test]
fn windows_host_rules_reject_host_syntax() {
    for raw in ["a\\b", "a:b", "a?b", "a*b", "foo.", "foo ", "CON", "com1", "lpt9.txt"] {
        let path = IrixPath::new(raw).unwrap();
        assert!(host_path_with(&path, HostRules::Windows).is_err(), "{raw:?} should be rejected on Windows");
    }
    let ok = IrixPath::new("usr/lib/libfoo.so").unwrap();
    assert!(host_path_with(&ok, HostRules::Windows).is_ok());
}

#[test]
fn stored_target_appends_z_to_the_full_name() {
    assert_eq!(stored_target("usr/lib/libfoo.so"), "usr/lib/libfoo.so.Z");
    assert_eq!(link_breadcrumb("usr/lib/libfoo.so"), "usr/lib/libfoo.so.link.txt");
}
