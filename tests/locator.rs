use msvc_dev_cmd::error::SetupError;
use msvc_dev_cmd::locator::{join, vcvarsall_in, vswhere_installation, Constants};

fn constants() -> Constants {
    Constants::new(
        Some("C:\\Program Files (x86)".to_string()),
        Some("C:\\Program Files".to_string()),
    )
    .unwrap()
}

fn script(base: &str, year: &str, edition: &str) -> String {
    format!(
        "{}\\Microsoft Visual Studio\\{}\\{}\\VC/Auxiliary/Build/vcvarsall.bat",
        base, year, edition
    )
}

#[test]
fn missing_program_files_x86() {
    let r = Constants::new(None, Some("C:\\Program Files".to_string()));
    assert!(matches!(r, Err(SetupError::MissingVariable(n)) if n == "ProgramFiles(x86)"));
}

#[test]
fn missing_program_files() {
    let r = Constants::new(Some("C:\\Program Files (x86)".to_string()), None);
    assert!(matches!(r, Err(SetupError::MissingVariable(n)) if n == "ProgramFiles"));
}

#[test]
fn bases_in_order() {
    let c = constants();
    assert_eq!(c.program_files_x86, "C:\\Program Files (x86)");
    assert_eq!(
        c.program_files,
        vec!["C:\\Program Files (x86)".to_string(), "C:\\Program Files".to_string()]
    );
    assert_eq!(c.vswhere_dir(), "C:\\Program Files (x86)\\Microsoft Visual Studio/Installer");
}

#[test]
fn join_adds_one_separator() {
    assert_eq!(join(&"C:\\a".to_string(), "b"), "C:\\a\\b");
    assert_eq!(join(&"C:\\a\\".to_string(), "b"), "C:\\a\\b");
    assert_eq!(join(&"C:/a/".to_string(), "b"), "C:/a/b");
    assert_eq!(join(&"".to_string(), "b"), "b");
}

#[test]
fn years_map_to_version_numbers() {
    let c = constants();
    assert_eq!(c.vsversion_to_versionnumber(&Some("2022".to_string())), Some("17.0".to_string()));
    assert_eq!(c.vsversion_to_versionnumber(&Some("2019".to_string())), Some("16.0".to_string()));
    assert_eq!(c.vsversion_to_versionnumber(&Some("2017".to_string())), Some("15.0".to_string()));
    assert_eq!(c.vsversion_to_versionnumber(&Some("2015".to_string())), Some("14.0".to_string()));
    assert_eq!(c.vsversion_to_versionnumber(&Some("2013".to_string())), Some("12.0".to_string()));
    assert_eq!(c.vsversion_to_versionnumber(&Some("16.0".to_string())), Some("16.0".to_string()));
    assert_eq!(c.vsversion_to_versionnumber(&None), None);
}

#[test]
fn version_numbers_map_to_years() {
    let c = constants();
    assert_eq!(c.vsversion_to_year("17.0"), "2022");
    assert_eq!(c.vsversion_to_year("16.0"), "2019");
    assert_eq!(c.vsversion_to_year("12.0"), "2013");
    assert_eq!(c.vsversion_to_year("2019"), "2019");
    assert_eq!(c.vsversion_to_year("18.0"), "18.0");
}

#[test]
fn locator_arguments_with_a_version() {
    let c = constants();
    let args = c.vswhere_args(&Some("2022".to_string()));
    assert_eq!(
        args,
        vec![
            "-products", "*", "-version", "17.0,17.9", "-prerelease", "-property",
            "installationPath", "-utf8"
        ]
    );
    let args = c.vswhere_args(&Some("15.9".to_string()));
    assert_eq!(args[3], "15.9,15.9");
    let args = c.vswhere_args(&Some("17".to_string()));
    assert_eq!(args[3], "17,17.9");
}

#[test]
fn locator_arguments_without_a_version() {
    let c = constants();
    assert_eq!(
        c.vswhere_args(&None),
        vec!["-products", "*", "-latest", "-prerelease", "-property", "installationPath", "-utf8"]
    );
}

#[test]
fn locator_output_is_trimmed() {
    let r = vswhere_installation(b"  C:\\Program Files\\Microsoft Visual Studio\\2022\\Community\r\n");
    assert_eq!(r, Some(b"C:\\Program Files\\Microsoft Visual Studio\\2022\\Community".to_vec()));
}

#[test]
fn locator_banner_is_not_a_path() {
    let out = b"Visual Studio Locator version 3.1.7 [query version 3.9]\r\nCopyright (C) Microsoft Corporation. All rights reserved.\r\n";
    assert_eq!(vswhere_installation(out), None);
    assert_eq!(vswhere_installation(b"Copyright (C) someone"), None);
}

#[test]
fn empty_locator_output_is_not_a_path() {
    assert_eq!(vswhere_installation(b""), None);
    assert_eq!(vswhere_installation(b" \r\n"), None);
}

#[test]
fn script_below_a_root() {
    assert_eq!(
        vcvarsall_in(&"C:\\VS".to_string()),
        "C:\\VS\\VC/Auxiliary/Build/vcvarsall.bat"
    );
}

#[test]
fn candidates_without_a_version() {
    let c = constants();
    let cands = c.fallback_candidates(&None);
    assert_eq!(cands.len(), 2 * 4 * 5 + 1);
    assert_eq!(cands[0], script("C:\\Program Files (x86)", "2022", "Enterprise"));
    assert_eq!(cands[1], script("C:\\Program Files (x86)", "2022", "Professional"));
    assert_eq!(cands[5], script("C:\\Program Files (x86)", "2019", "Enterprise"));
    assert_eq!(cands[20], script("C:\\Program Files", "2022", "Enterprise"));
    assert_eq!(cands[39], script("C:\\Program Files", "2015", "BuildTools"));
    assert_eq!(
        cands[40],
        "C:\\Program Files (x86)\\Microsoft Visual C++ Build Tools/vcbuildtools.bat"
    );
}

#[test]
fn candidates_for_one_version() {
    let c = constants();
    let cands = c.fallback_candidates(&Some("16.0".to_string()));
    assert_eq!(cands.len(), 2 * 5 + 1);
    assert_eq!(cands[0], script("C:\\Program Files (x86)", "2019", "Enterprise"));
    assert_eq!(cands[9], script("C:\\Program Files", "2019", "BuildTools"));
}

#[test]
fn newest_year_is_preferred_over_edition() {
    let c = constants();
    let cands = c.fallback_candidates(&None);
    let installed = [
        script("C:\\Program Files (x86)", "2019", "Professional"),
        script("C:\\Program Files (x86)", "2022", "Community"),
    ];
    let present: Vec<bool> = cands.iter().map(|p| installed.contains(p)).collect();
    let r = c.find_vcvarsall(&None, None, &present);
    assert_eq!(r, Ok(script("C:\\Program Files (x86)", "2022", "Community")));
}

#[test]
fn locator_result_comes_first() {
    let c = constants();
    let present = vec![true; 41];
    let r = c.find_vcvarsall(&None, Some("D:\\VS\\vcvarsall.bat".to_string()), &present);
    assert_eq!(r, Ok("D:\\VS\\vcvarsall.bat".to_string()));
}

#[test]
fn legacy_build_tools_last() {
    let c = constants();
    let mut present = vec![false; 41];
    present[40] = true;
    let r = c.find_vcvarsall(&None, None, &present);
    assert_eq!(
        r,
        Ok("C:\\Program Files (x86)\\Microsoft Visual C++ Build Tools/vcbuildtools.bat".to_string())
    );
}

#[test]
fn nothing_installed_is_not_found() {
    let c = constants();
    let present = vec![false; 41];
    assert_eq!(c.find_vcvarsall(&None, None, &present), Err(SetupError::NotFound));
    assert_eq!(c.find_vcvarsall(&Some("2019".to_string()), None, &Vec::new()), Err(SetupError::NotFound));
}
