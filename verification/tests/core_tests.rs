use uvessel::builder::{parse_arg, require_field, sanitize_exe_name};
use uvessel::errors::LibError;
use uvessel::paths::{absolutize_path, app_name_from_exe, runtime_dir, shortcut_path, uv_paths};
use uvessel::state::{parse_entry_point, EntryPoint};
use uvessel::uv::{asset_name_for_arch, uv_env_pairs};
use uvessel::version::{compare_versions, should_update, VersionRelation};

#[test]
fn sanitize_exe_name_replaces_bad_chars() {
    let name = "My:App*Name?.exe";
    let out = sanitize_exe_name(name);
    assert_eq!(out, "My_App_Name_.exe");
}

#[test]
fn sanitize_exe_name_falls_back_on_empty() {
    let out = sanitize_exe_name("   ");
    assert_eq!(out, "UvesselApp");
}

#[test]
fn require_field_rejects_blank() {
    let err = require_field("name", "   ").unwrap_err();
    assert!(err.message().contains("config field name is required"));
}

#[test]
fn parse_arg_finds_value() {
    let args = vec![
        "cmd".to_string(),
        "--out-dir".to_string(),
        "dist".to_string(),
    ];
    assert_eq!(parse_arg(&args, "--out-dir"), Some("dist".to_string()));
}

#[test]
fn absolutize_path_keeps_absolute() {
    let out = absolutize_path(r"C:\Repo", r"C:\Out");
    assert_eq!(out, r"C:\Out");
}

#[test]
fn absolutize_path_makes_relative() {
    let out = absolutize_path(r"C:\Repo", "dist");
    assert_eq!(out, r"C:\Repo\dist");
}

#[test]
fn app_name_from_exe_rejects_empty() {
    let err = app_name_from_exe("").unwrap_err();
    assert!(err.message().contains("executable name is empty"));
}

#[test]
fn installer_app_name_from_exe_rejects_empty() {
    let err = app_name_from_exe("").unwrap_err();
    assert!(err.message().contains("executable name is empty"));
}

#[test]
fn app_name_from_exe_takes_stem() {
    let name = app_name_from_exe(r"C:\Apps\MyApp\MyApp.exe").unwrap();
    assert_eq!(name, "MyApp");
}

#[test]
fn runtime_dir_is_dot_runtime() {
    let root = r"C:\Apps\MyApp";
    assert_eq!(runtime_dir(root), r"C:\Apps\MyApp\.runtime");
}

#[test]
fn uv_paths_are_rooted() {
    let root = r"C:\Apps\MyApp";
    let (uv, uvx, uvw) = uv_paths(root);
    assert_eq!(uv, r"C:\Apps\MyApp\uv.exe");
    assert_eq!(uvx, r"C:\Apps\MyApp\uvx.exe");
    assert_eq!(uvw, r"C:\Apps\MyApp\uvw.exe");
}

#[test]
fn uv_paths_use_root() {
    let root = r"C:\Apps\MyApp";
    let (uv, uvx, uvw) = uv_paths(root);
    assert_eq!(uv, r"C:\Apps\MyApp\uv.exe");
    assert_eq!(uvx, r"C:\Apps\MyApp\uvx.exe");
    assert_eq!(uvw, r"C:\Apps\MyApp\uvw.exe");
}

#[test]
fn parse_entry_point_variants() {
    let py = parse_entry_point("main.py").unwrap();
    assert_eq!(py, EntryPoint::PythonFile("main.py".to_string()));

    let module = parse_entry_point("module:pkg.__main__").unwrap();
    assert_eq!(module, EntryPoint::Module("pkg.__main__".to_string()));

    let cmd = parse_entry_point("command:mycli").unwrap();
    assert_eq!(cmd, EntryPoint::Command("mycli".to_string()));
}

#[test]
fn parse_entry_point_rejects_blank() {
    assert_eq!(parse_entry_point("   ").unwrap_err(), LibError::EmptyEntryPoint);
    assert_eq!(parse_entry_point("module:  ").unwrap_err(), LibError::EmptyEntryModule);
    assert_eq!(parse_entry_point("command: ").unwrap_err(), LibError::EmptyEntryCommand);
}

#[test]
fn shortcut_path_adds_lnk() {
    let base = r"C:\StartMenu";
    let out = shortcut_path(base, "MyApp").unwrap();
    assert_eq!(out, r"C:\StartMenu\MyApp.lnk");
}

#[test]
fn shortcut_path_rejects_empty_name() {
    let base = r"C:\StartMenu";
    let err = shortcut_path(base, "").unwrap_err();
    assert!(err.message().contains("shortcut name is empty"));
}

#[test]
fn asset_name_for_arch_maps_known_arches() {
    assert_eq!(
        asset_name_for_arch("x86_64").unwrap(),
        "uv-x86_64-pc-windows-msvc.zip"
    );
    assert_eq!(
        asset_name_for_arch("aarch64").unwrap(),
        "uv-aarch64-pc-windows-msvc.zip"
    );
}

#[test]
fn asset_name_for_arch_rejects_unknown() {
    let err = asset_name_for_arch("mips").unwrap_err();
    assert!(err.message().contains("unsupported Windows arch"));
}

#[test]
fn uv_env_pairs_include_no_config() {
    let envs = uv_env_pairs(r"C:\Apps\MyApp\.runtime");
    assert!(envs.iter().any(|(k, v)| k == "UV_NO_CONFIG" && v == "1"));
}

#[test]
fn installer_uv_env_pairs_include_no_config() {
    let envs = uv_env_pairs(r"C:\Apps\MyApp\.runtime");
    assert!(envs.iter().any(|(k, v)| k == "UV_NO_CONFIG" && v == "1"));
}

#[test]
fn runner_uv_env_pairs_include_no_config() {
    let envs = uv_env_pairs(r"C:\Apps\MyApp\.runtime");
    assert!(envs.iter().any(|(k, v)| k == "UV_NO_CONFIG" && v == "1"));
}

#[test]
fn uv_env_pairs_are_rooted_under_runtime() {
    let envs = uv_env_pairs(r"C:\R\.runtime");
    assert_eq!(envs[0].0, "UV_CACHE_DIR");
    assert_eq!(envs[0].1, r"C:\R\.runtime\cache");
    assert_eq!(envs[3].0, "UV_PROJECT_ENVIRONMENT");
    assert_eq!(envs[3].1, r"C:\R\.runtime\venv");
}

#[test]
fn compare_versions_orders_semantically() {
    assert!(matches!(compare_versions("1.9.0", "2.0.0"), VersionRelation::Newer));
    assert!(matches!(compare_versions("2.0.0", "1.9.0"), VersionRelation::Older));
    assert!(matches!(compare_versions("1.0.0", "1.0.0"), VersionRelation::Same));
    assert!(matches!(compare_versions(" 1.0 ", "1.0"), VersionRelation::Same));
    assert!(matches!(compare_versions("not-a-version", "1.0.0"), VersionRelation::Unknown));
}

#[test]
fn should_update_only_on_strictly_newer() {
    assert!(should_update("1.0.0", "1.0.1"));
    assert!(!should_update("1.0.0", "1.0.0"));
    assert!(!should_update("1.0.1", "1.0.0"));
    assert!(!should_update("1.0.0", "garbage"));
}

#[test]
fn logs_dir_is_under_runtime() {
    assert_eq!(uvessel::paths::logs_dir(r"C:\Apps\MyApp"), r"C:\Apps\MyApp\.runtime\logs");
}

#[test]
fn install_ui_args_take_later_values() {
    let args = vec![
        "--name".to_string(),
        "MyApp".to_string(),
        "--mode".to_string(),
        "update".to_string(),
        "--name".to_string(),
        "Better".to_string(),
        "--icon".to_string(),
        "  ".to_string(),
    ];
    let info = uvessel::ui::parse_install_ui_args(&args);
    assert_eq!(info.name, "Better");
    assert_eq!(info.mode, "update");
    assert!(info.icon_path.is_none());
    assert!(info.done_file.is_none());
}

#[test]
fn app_display_name_prefers_product() {
    assert_eq!(uvessel::updater::app_display_name(" My App ", "x"), "My App");
    assert_eq!(uvessel::updater::app_display_name("", "x"), "x");
    assert_eq!(uvessel::updater::app_display_name(" ", " "), "UvesselApp");
}
