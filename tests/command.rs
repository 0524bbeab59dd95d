use msvc_dev_cmd::command::{batch_line, exit_code, normalize_arch, resolve_arch_alias, ToolchainRequest};

fn request(arch: &str) -> ToolchainRequest {
    ToolchainRequest {
        arch: arch.to_string(),
        sdk: None,
        spectre: false,
        toolset: None,
        uwp: false,
        vsversion: None,
    }
}

#[test]
fn arch_is_lowered() {
    assert_eq!(normalize_arch("X64"), "x64");
    assert_eq!(normalize_arch("ARM64"), "arm64");
}

#[test]
fn arch_aliases_are_resolved() {
    assert_eq!(normalize_arch("Win32"), "x86");
    assert_eq!(normalize_arch("WIN64"), "x64");
    assert_eq!(normalize_arch("x86_64"), "x64");
    assert_eq!(normalize_arch("X86-64"), "x64");
    assert_eq!(resolve_arch_alias("win32".to_string()), "x86");
    assert_eq!(resolve_arch_alias("amd64".to_string()), "amd64");
}

#[test]
fn plain_script_arguments() {
    assert_eq!(request("x64").script_args(), vec!["x64".to_string()]);
}

#[test]
fn all_script_arguments_in_order() {
    let r = ToolchainRequest {
        arch: "Win64".to_string(),
        sdk: Some("10.0.19041.0".to_string()),
        spectre: true,
        toolset: Some("14.29".to_string()),
        uwp: true,
        vsversion: Some("2019".to_string()),
    };
    assert_eq!(
        r.script_args(),
        vec!["x64", "uwp", "10.0.19041.0", "-vcvars_ver=14.29", "-vcvars_spectre_libs=spectre"]
    );
    assert_eq!(
        r.vcvars_command(&"C:\\Program Files\\VS\\vcvarsall.bat".to_string()),
        "\"C:\\Program Files\\VS\\vcvarsall.bat\" x64 uwp 10.0.19041.0 -vcvars_ver=14.29 -vcvars_spectre_libs=spectre"
    );
}

#[test]
fn command_quotes_the_script() {
    assert_eq!(
        request("x86").vcvars_command(&"C:\\a b\\v.bat".to_string()),
        "\"C:\\a b\\v.bat\" x86"
    );
}

#[test]
fn batch_line_has_three_stages() {
    assert_eq!(
        batch_line(&"\"v.bat\" x64".to_string()),
        "set && cls && \"v.bat\" x64 && cls && set"
    );
}

#[test]
fn exit_code_of_a_normal_exit() {
    assert_eq!(exit_code(Some(0), None, true), 0);
    assert_eq!(exit_code(Some(3), Some(2), true), 3);
    assert_eq!(exit_code(Some(-1), None, false), -1);
}

#[test]
fn exit_code_of_a_signal() {
    assert_eq!(exit_code(None, Some(2), true), 130);
    assert_eq!(exit_code(None, Some(15), true), 143);
    assert_eq!(exit_code(None, None, true), 137);
}

#[test]
fn exit_code_without_signals() {
    assert_eq!(exit_code(None, None, false), 127);
    assert_eq!(exit_code(None, Some(2), false), 127);
}
