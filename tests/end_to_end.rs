use msvc_dev_cmd::command::{batch_line, ToolchainRequest};
use msvc_dev_cmd::envdiff::environment_updates;
use msvc_dev_cmd::locator::{vcvarsall_in, vswhere_installation, Constants};

#[test]
fn include_is_deduplicated_end_to_end() {
    let request = ToolchainRequest {
        arch: "x64".to_string(),
        sdk: None,
        spectre: false,
        toolset: None,
        uwp: false,
        vsversion: Some("2022".to_string()),
    };
    let c = Constants::new(
        Some("C:\\Program Files (x86)".to_string()),
        Some("C:\\Program Files".to_string()),
    )
    .unwrap();
    let args = c.vswhere_args(&request.vsversion);
    assert_eq!(args[3], "17.0,17.9");

    let root = vswhere_installation(b"C:\\VS\\2022\\Community\r\n").unwrap();
    let root = String::from_utf8(root).unwrap();
    let located = vcvarsall_in(&root);
    let present = vec![false; 11];
    let script = c.find_vcvarsall(&request.vsversion, Some(located), &present).unwrap();
    assert_eq!(script, "C:\\VS\\2022\\Community\\VC/Auxiliary/Build/vcvarsall.bat");

    let line = batch_line(&request.vcvars_command(&script));
    assert_eq!(
        line,
        "set && cls && \"C:\\VS\\2022\\Community\\VC/Auxiliary/Build/vcvarsall.bat\" x64 && cls && set"
    );

    let out = b"A=1\nINCLUDE=\n\x0c** Visual Studio 2022 Developer Command Prompt\n\x0cA=1\nINCLUDE=C:\\A;C:\\A;C:\\B\n";
    let updates = environment_updates(out).unwrap();
    assert_eq!(updates, vec![(b"INCLUDE".to_vec(), b"C:\\A;C:\\B".to_vec())]);
}

#[test]
fn second_run_exports_no_new_path_value() {
    let first = b"INCLUDE=C:\\X\n\x0c\n\x0cINCLUDE=C:\\A;C:\\B;C:\\X\n";
    let updates = environment_updates(first).unwrap();
    assert_eq!(updates, vec![(b"INCLUDE".to_vec(), b"C:\\A;C:\\B;C:\\X".to_vec())]);
    let second = b"INCLUDE=C:\\A;C:\\B;C:\\X\n\x0c\n\x0cINCLUDE=C:\\A;C:\\B;C:\\A;C:\\B;C:\\X\n";
    let updates = environment_updates(second).unwrap();
    for (name, value) in updates {
        assert_eq!(name, b"INCLUDE".to_vec());
        assert_eq!(value, b"C:\\A;C:\\B;C:\\X".to_vec());
    }
}
