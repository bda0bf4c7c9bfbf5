use sw_core::query::{Query, QueryError};

#[test]
fn plain_text_is_a_substring_search() {
    let query = Query::path_search("libGL").unwrap();
    assert_eq!(query.pattern(), Some("*libGL*"));
}

#[test]
fn explicit_wildcards_are_used_unchanged() {
    let query = Query::path_search("usr/lib/*.so").unwrap();
    assert_eq!(query.pattern(), Some("usr/lib/*.so"));
    let query = Query::path_search("*Xsgi?").unwrap();
    assert_eq!(query.pattern(), Some("*Xsgi?"));
}

#[test]
fn empty_input_is_rejected() {
    assert_eq!(Query::path_search("").unwrap_err(), QueryError::Empty);
}
