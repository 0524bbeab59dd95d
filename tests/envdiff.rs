use msvc_dev_cmd::envdiff::{
    diff_env, environment_updates, lookup_var, parse_env, parse_line, split_transcript,
    usage_errors, EnvVar,
};
use msvc_dev_cmd::error::SetupError;

fn var(n: &str, v: &str) -> EnvVar {
    (n.as_bytes().to_vec(), v.as_bytes().to_vec())
}

#[test]
fn diff_keeps_changed_and_new_variables() {
    let before = vec![var("A", "1"), var("B", "2")];
    let after = vec![var("A", "1"), var("B", "3"), var("C", "4")];
    assert_eq!(diff_env(&before, &after), vec![var("B", "3"), var("C", "4")]);
}

#[test]
fn diff_compares_values_ignoring_case() {
    let before = vec![var("A", "1"), var("B", "FOO")];
    let after = vec![var("A", "1"), var("B", "foo")];
    assert_eq!(diff_env(&before, &after), Vec::<EnvVar>::new());
}

#[test]
fn diff_names_are_case_sensitive() {
    let before = vec![var("a", "1")];
    let after = vec![var("A", "1")];
    assert_eq!(diff_env(&before, &after), vec![var("A", "1")]);
}

#[test]
fn diff_normalizes_path_lists() {
    let before = vec![var("INCLUDE", "")];
    let after = vec![var("INCLUDE", "C:\\A;C:\\A;C:\\B"), var("OTHER", "x;x")];
    assert_eq!(
        diff_env(&before, &after),
        vec![var("INCLUDE", "C:\\A;C:\\B"), var("OTHER", "x;x")]
    );
}

#[test]
fn parse_line_splits_at_first_equals() {
    assert_eq!(parse_line(b"A=b=c"), Some(var("A", "b=c")));
    assert_eq!(parse_line(b"=C:=C:\\"), Some(var("", "C:=C:\\")));
    assert_eq!(parse_line(b"no equals here"), None);
}

#[test]
fn parse_env_skips_lines_without_equals() {
    let r = parse_env(b"banner\nA=1\n\nB=2=3\n");
    assert_eq!(r, vec![var("A", "1"), var("B", "2=3")]);
}

#[test]
fn lookup_takes_the_last_line_for_a_name() {
    let vars = vec![var("A", "1"), var("B", "2"), var("A", "3")];
    assert_eq!(lookup_var(&vars, b"A"), Some(&b"3".to_vec()));
    assert_eq!(lookup_var(&vars, b"B"), Some(&b"2".to_vec()));
    assert_eq!(lookup_var(&vars, b"C"), None);
}

#[test]
fn transcript_of_three_stages() {
    let t = split_transcript(b"A=1\n\x0cscript says\n\x0cA=2\n").unwrap();
    assert_eq!(t.before, b"A=1\n".to_vec());
    assert_eq!(t.script, b"script says\n".to_vec());
    assert_eq!(t.after, b"A=2\n".to_vec());
    let before = parse_env(&t.before);
    let after = parse_env(&t.after);
    assert_eq!(before, vec![var("A", "1")]);
    assert_eq!(after, vec![var("A", "2")]);
}

#[test]
fn transcript_of_two_stages_is_malformed() {
    assert!(matches!(split_transcript(b"A=1\n\x0cA=2\n"), Err(SetupError::MalformedOutput)));
}

#[test]
fn transcript_of_four_stages_is_malformed() {
    assert!(matches!(
        split_transcript(b"A=1\n\x0cx\n\x0cA=2\n\x0cB=3"),
        Err(SetupError::MalformedOutput)
    ));
}

#[test]
fn transcript_of_one_stage_is_malformed() {
    assert!(matches!(split_transcript(b""), Err(SetupError::MalformedOutput)));
}

#[test]
fn benign_usage_line_is_not_an_error() {
    let script = b"[ERROR:vcvarsall.bat] Error in script usage. the correct usage is:\nok\n";
    assert_eq!(usage_errors(script), Vec::<Vec<u8>>::new());
}

#[test]
fn other_error_lines_are_reported_verbatim() {
    let script = b"**\n[ERROR:vcvarsall.bat] Invalid argument found : foo\nfine\n[ERROR:x] second\n";
    assert_eq!(
        usage_errors(script),
        vec![
            b"[ERROR:vcvarsall.bat] Invalid argument found : foo".to_vec(),
            b"[ERROR:x] second".to_vec()
        ]
    );
}

#[test]
fn updates_fail_on_usage_error() {
    let out = b"A=1\n\x0c[ERROR:vcvarsall.bat] Invalid argument found : arm65\n\x0cA=1\n";
    assert_eq!(
        environment_updates(out),
        Err(SetupError::InvalidParameters(vec![
            b"[ERROR:vcvarsall.bat] Invalid argument found : arm65".to_vec()
        ]))
    );
}

#[test]
fn updates_ignore_benign_usage_line() {
    let out = b"A=1\n\x0c[ERROR:vcvarsall.bat] Error in script usage. the correct usage is:\n\x0cA=1\nB=2\n";
    assert_eq!(environment_updates(out), Ok(vec![var("B", "2")]));
}

#[test]
fn updates_fail_on_malformed_output() {
    assert_eq!(environment_updates(b"A=1\nB=2\n"), Err(SetupError::MalformedOutput));
}

#[test]
fn updates_of_a_full_transcript() {
    let out = b"A=1\r\nB=2\r\n\x0c**********\r\n\x0cA=1\r\nB=3\r\nC=4\r\n";
    assert_eq!(
        environment_updates(out),
        Ok(vec![var("B", "3\r"), var("C", "4\r")])
    );
}
