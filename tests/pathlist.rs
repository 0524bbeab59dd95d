use msvc_dev_cmd::pathlist::{filter_path_value, is_path_variable};

#[test]
fn normalize_keeps_first_occurrence_order() {
    let r = filter_path_value(b"C:\\B;C:\\A;C:\\B;C:\\C;C:\\A");
    assert_eq!(r, b"C:\\B;C:\\A;C:\\C".to_vec());
}

#[test]
fn normalize_without_duplicates_is_unchanged() {
    let r = filter_path_value(b"C:\\A;C:\\B;C:\\C");
    assert_eq!(r, b"C:\\A;C:\\B;C:\\C".to_vec());
}

#[test]
fn normalize_empty_value() {
    assert_eq!(filter_path_value(b""), Vec::<u8>::new());
}

#[test]
fn normalize_collapses_all_equal_entries() {
    assert_eq!(filter_path_value(b"x;x;x;x"), b"x".to_vec());
}

#[test]
fn normalize_keeps_one_empty_entry() {
    assert_eq!(filter_path_value(b"a;;b;;a"), b"a;;b".to_vec());
}

#[test]
fn normalize_is_case_sensitive_on_entries() {
    assert_eq!(filter_path_value(b"C:\\A;c:\\a"), b"C:\\A;c:\\a".to_vec());
}

#[test]
fn normalize_twice_is_normalize_once() {
    let once = filter_path_value(b"p;q;p;r;q");
    let twice = filter_path_value(&once);
    assert_eq!(once, twice);
}

#[test]
fn prepending_again_does_not_grow() {
    // first run: the script prepends "C:\A;C:\B" to "C:\X"
    let first = filter_path_value(b"C:\\A;C:\\B;C:\\X");
    // second run: the script prepends the same entries to the exported value
    let mut again = b"C:\\A;C:\\B;".to_vec();
    again.extend_from_slice(&first);
    let second = filter_path_value(&again);
    assert_eq!(second, first);
}

#[test]
fn path_variables_in_any_case() {
    assert!(is_path_variable(b"PATH"));
    assert!(is_path_variable(b"Path"));
    assert!(is_path_variable(b"include"));
    assert!(is_path_variable(b"LIB"));
    assert!(is_path_variable(b"LibPath"));
}

#[test]
fn other_variables_are_not_path_lists() {
    assert!(!is_path_variable(b"PATHEXT"));
    assert!(!is_path_variable(b"LIBS"));
    assert!(!is_path_variable(b"VSINSTALLDIR"));
    assert!(!is_path_variable(b""));
}
