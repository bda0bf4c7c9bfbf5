use sw_core::path::IrixPath;

#[test]
fn normalizes_spellings() {
    assert_eq!(IrixPath::new("/usr/lib/foo").unwrap().as_str(), "usr/lib/foo");
    assert_eq!(IrixPath::new("usr/lib/foo").unwrap().as_str(), "usr/lib/foo");
    assert_eq!(IrixPath::new("./usr/lib/foo").unwrap().as_str(), "usr/lib/foo");
    assert_eq!(IrixPath::new("usr//lib/./foo/").unwrap().as_str(), "usr/lib/foo");
}

#[test]
fn dot_is_root() {
    let root = IrixPath::new(".").unwrap();
    assert!(root.is_root());
    assert_eq!(root.as_str(), "");
}

#[test]
fn resolves_parent_components_lexically() {
    assert_eq!(IrixPath::new("usr/gfx/ucode/MG/../ge11.bin").unwrap().as_str(), "usr/gfx/ucode/ge11.bin");
    assert_eq!(IrixPath::new("a/b/../../c").unwrap().as_str(), "c");
}

#[test]
fn rejects_escapes_and_nul() {
    assert!(IrixPath::new("../etc/passwd").is_err());
    assert!(IrixPath::new("usr/../../etc").is_err());
    assert!(IrixPath::new("usr/lib\0foo").is_err());
}

#[test]
fn file_name_and_parent() {
    let p = IrixPath::new("usr/lib/foo").unwrap();
    assert_eq!(p.file_name(), Some("foo"));
    assert_eq!(p.parent().unwrap().as_str(), "usr/lib");
    assert!(IrixPath::new("foo").unwrap().parent().is_none());
}

#[test]
fn hidden_files_are_normal_components() {
    let p = IrixPath::new(".cshrc").unwrap();
    assert_eq!(p.as_str(), ".cshrc");
    assert_eq!(p.file_name(), Some(".cshrc"));
}

#[test]
fn strips_component_prefixes() {
    let path = IrixPath::new("usr/lib/foo").unwrap();
    let prefix = IrixPath::new("usr").unwrap();
    assert_eq!(path.strip_prefix(&prefix).unwrap().as_str(), "lib/foo");
    let prefix = IrixPath::new("usr/lib").unwrap();
    assert_eq!(path.strip_prefix(&prefix).unwrap().as_str(), "foo");

    let wrong = IrixPath::new("usr2/x").unwrap();
    assert!(wrong.strip_prefix(&IrixPath::new("usr").unwrap()).is_none());
    assert!(prefix.strip_prefix(&prefix).unwrap().is_root());
    let root = IrixPath::new(".").unwrap();
    assert_eq!(path.strip_prefix(&root).unwrap().as_str(), "usr/lib/foo");
}

#[test]
fn root_stripped_of_itself_is_root() {
    let root = IrixPath::new(".").unwrap();
    assert!(root.strip_prefix(&root).unwrap().is_root());
}
