use std::io::Write;

use uvessel::errors::LibError;
use uvessel::fs::Fs;
use uvessel::fs_ops::FaultPlan;
use uvessel::installer::{run_with_deps, AppConfig};
use uvessel::payload::{install_payload, install_payload_with_options, PayloadOptions};
use uvessel::ports::{ScriptedExecutor, ScriptedFetcher};
use uvessel::paths::state_path;
use uvessel::state::{read_state, write_state, EntryPoint, State};

fn make_zip(entries: &[(&str, &[u8])]) -> Vec<u8> {
    let mut zw = zip::ZipWriter::new(std::io::Cursor::new(Vec::new()));
    let options = zip::write::SimpleFileOptions::default();
    for (name, data) in entries {
        zw.start_file(name.to_string(), options).unwrap();
        zw.write_all(data).unwrap();
    }
    zw.finish().unwrap().into_inner()
}

fn test_config() -> AppConfig {
    AppConfig {
        app_id: "com.example.app".to_string(),
        name: "app".to_string(),
        product_name: "MyApp".to_string(),
        version: "2.0.0".to_string(),
        entry_point: String::new(),
        icon: String::new(),
        install_dir: String::new(),
        update_manifest_url: String::new(),
        instance_link: String::new(),
        auto_update_enabled: true,
    }
}

fn project_zip() -> Vec<u8> {
    make_zip(&[
        ("app/put-project-here.txt", b"placeholder"),
        ("app/proj/pyproject.toml", b"[project]\nname='x'\n"),
        ("app/proj/main.py", b"print('hi')"),
    ])
}

fn ok_executor() -> ScriptedExecutor {
    ScriptedExecutor::new(vec![Some(0); 12], vec![true; 2])
}

fn idle_fetcher() -> ScriptedFetcher {
    ScriptedFetcher::new(vec![None, None])
}

#[test]
fn install_payload_extracts_embedded_zip() {
    let mut fs = Fs::new();
    let blob = project_zip();
    install_payload(&mut fs, r"C:\R", &blob).unwrap();
    assert!(fs.file_exists(r"C:\R\app\put-project-here.txt"));
}

#[test]
fn payload_install_payload_extracts_embedded_zip() {
    let mut fs = Fs::new();
    let blob = project_zip();
    install_payload(&mut fs, r"C:\R", &blob).unwrap();
    assert!(fs.file_exists(r"C:\R\app\put-project-here.txt"));
}

#[test]
fn payload_integration_install_payload_extracts_embedded_zip() {
    let mut fs = Fs::new();
    let blob = project_zip();
    install_payload(&mut fs, r"C:\R", &blob).unwrap();
    assert!(fs.file_exists(r"C:\R\app\put-project-here.txt"));
}

#[test]
fn install_payload_rejects_escaping_entries() {
    let mut fs = Fs::new();
    let blob = make_zip(&[("../evil.txt", b"no")]);
    let err = install_payload(&mut fs, r"C:\R", &blob).unwrap_err();
    assert_eq!(err, LibError::BadPayloadPath);
    let blob2 = make_zip(&[("a/../../evil.txt", b"no")]);
    assert_eq!(install_payload(&mut fs, r"C:\R", &blob2).unwrap_err(), LibError::BadPayloadPath);
}

#[test]
fn install_payload_twice_keeps_user_data() {
    // a second run over a root with a user-data subtree leaves that
    // subtree alone but refreshes everything else
    let mut fs = Fs::new();
    let blob = make_zip(&[("data/settings.ini", b"v1"), ("app/main.py", b"v1")]);
    let opts = PayloadOptions { skip_existing_data: true };
    install_payload_with_options(&mut fs, r"C:\R", &blob, opts).unwrap();
    assert_eq!(fs.read_file(r"C:\R\data\settings.ini").unwrap(), b"v1".to_vec());

    let blob2 = make_zip(&[("data/settings.ini", b"v2"), ("app/main.py", b"v2")]);
    install_payload_with_options(&mut fs, r"C:\R", &blob2, opts).unwrap();
    assert_eq!(fs.read_file(r"C:\R\data\settings.ini").unwrap(), b"v1".to_vec());
    assert_eq!(fs.read_file(r"C:\R\app\main.py").unwrap(), b"v2".to_vec());
}

#[test]
fn install_from_zip_writes_uv_binaries() {
    let mut fs = Fs::new();
    let blob = make_zip(&[
        ("uv-dist/uv.exe", b"uv"),
        ("uv-dist/uvx.exe", b"uvx"),
        ("uv-dist/uvw.exe", b"uvw"),
        ("uv-dist/README.md", b"skip me"),
    ]);
    uvessel::uv::install_from_zip(&mut fs, r"C:\R", &blob).unwrap();
    assert_eq!(fs.read_file(r"C:\R\uv.exe").unwrap(), b"uv".to_vec());
    assert!(fs.file_exists(r"C:\R\uvx.exe"));
    assert!(fs.file_exists(r"C:\R\uvw.exe"));
    assert!(!fs.file_exists(r"C:\R\README.md"));
}

fn seeded_installed_root(fs: &mut Fs, root: &str, version: &str) {
    fs.create_dir(root);
    fs.write_file(&format!("{root}\\app\\proj\\pyproject.toml"), b"[project]".to_vec());
    fs.create_dir(&format!("{root}\\app\\proj"));
    fs.write_file(&format!("{root}\\app\\proj\\main.py"), b"original".to_vec());
    fs.write_file(&format!("{root}\\.runtime\\venv\\pyvenv.cfg"), b"cfg".to_vec());
    fs.create_dir(&format!("{root}\\.runtime\\venv"));
    fs.write_file(&format!("{root}\\uv.exe"), b"uv".to_vec());
    let st = State {
        project_rel: "app\\proj".to_string(),
        entry: EntryPoint::PythonFile("main.py".to_string()),
        lock_mtime_unix: 0,
        installed: true,
        launcher_version: version.to_string(),
    };
    write_state(fs, &state_path(root), &st);
}

#[test]
fn upgrade_runs_when_stored_version_is_older() {
    // running 2.0.0 over a stored 1.9.0: the upgrade path triggers and
    // a backup is taken only for the trees that exist
    let root = r"C:\Apps\MyApp";
    let mut fs = Fs::new();
    seeded_installed_root(&mut fs, root, "1.9.0");
    let mut ex = ok_executor();
    let mut fx = idle_fetcher();
    let mut faults = FaultPlan::none();
    let cfg = test_config();
    let rep = run_with_deps(
        &mut fs,
        &mut ex,
        &mut fx,
        &mut faults,
        &cfg,
        root,
        "MyApp",
        &b"shim image".to_vec(),
        &project_zip(),
        "x86_64",
        r"C:\StartMenu",
        42,
    )
    .unwrap();
    assert!(rep.upgraded);
    assert!(rep.backed_up_app);
    assert!(rep.backed_up_venv);
    let st = read_state(&fs, &state_path(root)).unwrap();
    assert_eq!(st.launcher_version, "2.0.0");
    assert!(!fs.tree_exists(r"C:\Apps\MyApp\app.backup.42"));
    assert!(!fs.tree_exists(r"C:\Apps\MyApp\venv.backup.42"));
    assert_eq!(fs.read_file(r"C:\Apps\MyApp\MyApp.exe").unwrap(), b"shim image".to_vec());
}

#[test]
fn downgrade_is_refused() {
    let root = r"C:\Apps\MyApp";
    let mut fs = Fs::new();
    seeded_installed_root(&mut fs, root, "3.0.0");
    let mut ex = ok_executor();
    let mut fx = idle_fetcher();
    let mut faults = FaultPlan::none();
    let cfg = test_config();
    let err = run_with_deps(
        &mut fs,
        &mut ex,
        &mut fx,
        &mut faults,
        &cfg,
        root,
        "MyApp",
        &b"shim image".to_vec(),
        &project_zip(),
        "x86_64",
        r"C:\StartMenu",
        42,
    )
    .unwrap_err();
    assert_eq!(err, LibError::Downgrade);
    // nothing was mutated: the old payload is still in place
    assert_eq!(fs.read_file(r"C:\Apps\MyApp\app\proj\main.py").unwrap(), b"original".to_vec());
}

#[test]
fn failed_upgrade_restores_backed_up_trees() {
    // the bootstrap step fails after the backup was taken: the
    // pre-upgrade payload and venv reappear and the error surfaces
    let root = r"C:\Apps\MyApp";
    let mut fs = Fs::new();
    seeded_installed_root(&mut fs, root, "1.9.0");
    // every external command fails: the first bootstrap step exhausts
    // its retries
    let mut ex = ScriptedExecutor::new(vec![Some(1); 12], vec![true; 2]);
    let mut fx = idle_fetcher();
    let mut faults = FaultPlan::none();
    let cfg = test_config();
    let err = run_with_deps(
        &mut fs,
        &mut ex,
        &mut fx,
        &mut faults,
        &cfg,
        root,
        "MyApp",
        &b"shim image".to_vec(),
        &project_zip(),
        "x86_64",
        r"C:\StartMenu",
        42,
    )
    .unwrap_err();
    assert_eq!(err, LibError::ToolFailed(1));
    assert_eq!(fs.read_file(r"C:\Apps\MyApp\app\proj\main.py").unwrap(), b"original".to_vec());
    assert_eq!(
        fs.read_file(r"C:\Apps\MyApp\.runtime\venv\pyvenv.cfg").unwrap(),
        b"cfg".to_vec()
    );
    // the new payload's extra file was rolled back with the rest
    assert!(!fs.file_exists(r"C:\Apps\MyApp\app\put-project-here.txt"));
}

#[test]
fn failed_fresh_install_leaves_no_root() {
    let root = r"C:\Apps\MyApp";
    let mut fs = Fs::new();
    let mut ex = ScriptedExecutor::new(vec![Some(1); 12], vec![true; 2]);
    let mut fx = idle_fetcher();
    let mut faults = FaultPlan::none();
    let cfg = test_config();
    // no runtime asset can be fetched either, but the failure comes
    // later: seed the runtime binary through the payload
    let blob = make_zip(&[
        ("app/proj/pyproject.toml", b"[project]".as_slice()),
        ("app/proj/main.py", b"print('hi')".as_slice()),
        ("uv.exe", b"uv".as_slice()),
    ]);
    let err = run_with_deps(
        &mut fs,
        &mut ex,
        &mut fx,
        &mut faults,
        &cfg,
        root,
        "MyApp",
        &b"shim image".to_vec(),
        &blob,
        "x86_64",
        r"C:\StartMenu",
        42,
    )
    .unwrap_err();
    assert_eq!(err, LibError::ToolFailed(1));
    assert!(!fs.tree_exists(root));
}

#[test]
fn fresh_install_succeeds_and_records_state() {
    let root = r"C:\Apps\MyApp";
    let mut fs = Fs::new();
    let mut ex = ok_executor();
    let mut fx = idle_fetcher();
    let mut faults = FaultPlan::none();
    let cfg = test_config();
    let blob = make_zip(&[
        ("app/proj/pyproject.toml", b"[project]".as_slice()),
        ("app/proj/main.py", b"print('hi')".as_slice()),
        ("uv.exe", b"uv".as_slice()),
    ]);
    let rep = run_with_deps(
        &mut fs,
        &mut ex,
        &mut fx,
        &mut faults,
        &cfg,
        root,
        "MyApp",
        &b"shim image".to_vec(),
        &blob,
        "x86_64",
        r"C:\StartMenu",
        42,
    )
    .unwrap();
    assert!(rep.upgraded);
    assert!(!rep.backed_up_app);
    let st = read_state(&fs, &state_path(root)).unwrap();
    assert_eq!(st.launcher_version, "2.0.0");
    assert_eq!(st.entry, EntryPoint::PythonFile("main.py".to_string()));
    // the dependency commands ran under the private environment
    assert!(ex.ran.iter().any(|c| c.args.iter().any(|a| a == "install")));
    assert!(ex.ran.iter().any(|c| c.args.iter().any(|a| a == "sync")));
}

#[test]
fn updater_skips_equal_version_without_download() {
    // string-equal manifest and running version: no update, and no
    // network request beyond the manifest fetch
    let mut fs = Fs::new();
    let manifest = b"{\"version\":\"1.0.0\",\"installer_url\":\"http://x/i.exe\",\"sha256\":\"\"}";
    let mut fx = ScriptedFetcher::new(vec![Some(manifest.to_vec()), Some(b"bin".to_vec())]);
    let mut ex = ScriptedExecutor::new(vec![], vec![true; 2]);
    let ui = uvessel::ui::build_update_ui_cmd("updater-ui.exe", "MyApp", None);
    let out = uvessel::updater::run(
        &mut fs,
        &mut ex,
        &mut fx,
        &ui,
        true,
        "1.0.0",
        "http://x/latest.json",
        "",
        9,
    );
    assert!(matches!(out, uvessel::updater::UpdateOutcome::NoUpdate));
    assert_eq!(fx.requested.len(), 1);
    assert_eq!(ex.spawned.len(), 0);
}

#[test]
fn updater_aborts_on_digest_mismatch() {
    // the manifest names a digest the download does not carry: the
    // pass fails before any installer is started
    let mut fs = Fs::new();
    let manifest = b"{\"version\":\"2.0.0\",\"installer_url\":\"http://x/i.exe\",\"sha256\":\"0000000000000000000000000000000000000000000000000000000000000000\"}";
    let mut fx = ScriptedFetcher::new(vec![Some(manifest.to_vec()), Some(b"installer".to_vec())]);
    let mut ex = ScriptedExecutor::new(vec![], vec![true; 2]);
    let ui = uvessel::ui::build_update_ui_cmd("updater-ui.exe", "MyApp", None);
    let out = uvessel::updater::run(
        &mut fs,
        &mut ex,
        &mut fx,
        &ui,
        true,
        "1.0.0",
        "http://x/latest.json",
        "",
        9,
    );
    assert!(matches!(out, uvessel::updater::UpdateOutcome::NoUpdate));
    // only the best-effort progress indicator was started
    assert_eq!(ex.spawned.len(), 1);
}

#[test]
fn updater_launches_verified_installer() {
    let mut fs = Fs::new();
    // sha256("abc"), prefixed and upper-cased: normalization accepts it
    let manifest = b"{\"version\":\"2.0.0\",\"installer_url\":\"http://x/i.exe\",\"sha256\":\"sha256:BA7816BF8F01CFEA414140DE5DAE2223B00361A396177A9CB410FF61F20015AD\"}";
    let mut fx = ScriptedFetcher::new(vec![Some(manifest.to_vec()), Some(b"abc".to_vec())]);
    let mut ex = ScriptedExecutor::new(vec![], vec![true; 2]);
    let ui = uvessel::ui::build_update_ui_cmd("updater-ui.exe", "MyApp", None);
    let out = uvessel::updater::run(
        &mut fs,
        &mut ex,
        &mut fx,
        &ui,
        true,
        "1.0.0",
        "http://x/latest.json",
        "",
        9,
    );
    assert!(matches!(out, uvessel::updater::UpdateOutcome::InstallerLaunched));
    assert_eq!(ex.spawned.len(), 2);
    assert!(ex.spawned[1].args.iter().any(|a| a == "--from-update"));
}

#[test]
fn updater_disabled_or_unconfigured_is_silent() {
    let mut fs = Fs::new();
    let mut fx = idle_fetcher();
    let mut ex = ScriptedExecutor::new(vec![], vec![true; 2]);
    let ui = uvessel::ui::build_update_ui_cmd("updater-ui.exe", "MyApp", None);
    let out = uvessel::updater::run(&mut fs, &mut ex, &mut fx, &ui, false, "1.0.0", "u", "", 9);
    assert!(matches!(out, uvessel::updater::UpdateOutcome::NoUpdate));
    let out2 = uvessel::updater::run(&mut fs, &mut ex, &mut fx, &ui, true, "1.0.0", " ", " ", 9);
    assert!(matches!(out2, uvessel::updater::UpdateOutcome::NoUpdate));
}

#[test]
fn resolve_manifest_url_derives_from_base_link() {
    let url = uvessel::updater::resolve_manifest_url("", "https://example.com/repo///");
    assert_eq!(url, "https://example.com/repo/latest/download/latest.json");
    let cfg = uvessel::updater::resolve_manifest_url(" https://x/m.json ", "ignored");
    assert_eq!(cfg, "https://x/m.json");
}

#[test]
fn normalize_hex_strips_prefix_and_case() {
    assert_eq!(uvessel::updater::normalize_hex(" sha256:ABCDEF01 "), "abcdef01");
    // the algorithm prefix is stripped however it is cased
    assert_eq!(uvessel::updater::normalize_hex("SHA256:AB"), "ab");
    assert_eq!(uvessel::updater::normalize_hex("Sha256:sha256:CD"), "cd");
    assert_eq!(uvessel::updater::normalize_hex("abc"), "abc");
}

#[test]
fn needs_bootstrap_when_venv_missing() {
    let mut fs = Fs::new();
    fs.create_dir(r"C:\R\.runtime");
    assert!(uvessel::runner::needs_bootstrap(&fs, r"C:\R\.runtime", 0, 0));
}

#[test]
fn needs_bootstrap_when_lock_changed() {
    let mut fs = Fs::new();
    fs.write_file(r"C:\R\.runtime\venv\pyvenv.cfg", b"cfg".to_vec());
    assert!(uvessel::runner::needs_bootstrap(&fs, r"C:\R\.runtime", 10, 5));
    assert!(!uvessel::runner::needs_bootstrap(&fs, r"C:\R\.runtime", 10, 10));
}

#[test]
fn runner_executes_entry_point_after_updater_check() {
    let root = r"C:\Apps\MyApp";
    let mut fs = Fs::new();
    seeded_installed_root(&mut fs, root, "2.0.0");
    // no updater.exe installed; environment present; entry exits 0
    let mut ex = ScriptedExecutor::new(vec![Some(0); 12], vec![]);
    uvessel::runner::run(&mut fs, &mut ex, root).unwrap();
    let last = ex.ran.last().unwrap();
    assert!(last.args.iter().any(|a| a == "run"));
    assert!(last.args.iter().any(|a| a == "main.py"));
}

#[test]
fn runner_exits_quietly_when_updater_claims_the_run() {
    let root = r"C:\Apps\MyApp";
    let mut fs = Fs::new();
    seeded_installed_root(&mut fs, root, "2.0.0");
    fs.write_file(r"C:\Apps\MyApp\updater.exe", b"u".to_vec());
    let mut ex = ScriptedExecutor::new(
        vec![Some(10), Some(0), Some(0), Some(0), Some(0), Some(0), Some(0), Some(0), Some(0), Some(0), Some(0), Some(0)],
        vec![],
    );
    uvessel::runner::run(&mut fs, &mut ex, root).unwrap();
    // only the updater ran; the entry point was never started
    assert_eq!(ex.ran.len(), 1);
}

#[test]
fn finalize_uninstall_removes_the_root() {
    let root = r"C:\Apps\MyApp";
    let mut fs = Fs::new();
    seeded_installed_root(&mut fs, root, "2.0.0");
    let name = "MyApp".to_string();
    uvessel::installer::finalize_uninstall(&mut fs, root, Some(&name), r"C:\StartMenu").unwrap();
    assert!(!fs.tree_exists(root));
}

#[test]
fn exe_name_selects_uninstall_mode() {
    assert!(uvessel::installer::exe_name_is_uninstaller(r"C:\T\MyApp-Uninstaller.exe").unwrap());
    assert!(!uvessel::installer::exe_name_is_uninstaller(r"C:\T\MyApp.exe").unwrap());
}

#[test]
fn detect_update_mode_compares_stored_version() {
    let root = r"C:\Apps\MyApp";
    let mut fs = Fs::new();
    assert_eq!(uvessel::installer::detect_update_mode(&fs, root, "2.0.0").unwrap(), false);
    seeded_installed_root(&mut fs, root, "1.9.0");
    assert_eq!(uvessel::installer::detect_update_mode(&fs, root, "2.0.0").unwrap(), true);
    assert_eq!(uvessel::installer::detect_update_mode(&fs, root, "1.9.0").unwrap(), false);
}

#[test]
fn manifest_parse_accepts_the_documented_shape() {
    let m = uvessel::updater::parse_manifest(
        "{\"version\":\"1.2.3\",\"installer_url\":\"http://x/i.exe\",\"sha256\":\"ab\"}",
    )
    .unwrap();
    assert_eq!(m.version, "1.2.3");
    assert_eq!(m.installer_url, "http://x/i.exe");
    assert_eq!(m.sha256, "ab");
    let no_sha =
        uvessel::updater::parse_manifest("{\"version\":\"1.2.3\",\"installer_url\":\"u\"}")
            .unwrap();
    assert_eq!(no_sha.sha256, "");
    assert!(uvessel::updater::parse_manifest("{}").is_none());
}

#[test]
fn install_payload_keeps_user_data_by_default() {
    // user data survives a second extraction of the plain entry point
    let mut fs = Fs::new();
    let blob = make_zip(&[("data/settings.ini", b"v1"), ("app/main.py", b"v1")]);
    install_payload(&mut fs, r"C:\R", &blob).unwrap();
    let blob2 = make_zip(&[("data/settings.ini", b"v2"), ("app/main.py", b"v2")]);
    install_payload(&mut fs, r"C:\R", &blob2).unwrap();
    assert_eq!(fs.read_file(r"C:\R\data\settings.ini").unwrap(), b"v1".to_vec());
    assert_eq!(fs.read_file(r"C:\R\app\main.py").unwrap(), b"v2".to_vec());
}

#[test]
fn icon_falls_back_to_assets_in_sorted_order() {
    let mut fs = Fs::new();
    fs.write_file(r"C:\R\assets\zeta.ico", b"z".to_vec());
    fs.write_file(r"C:\R\assets\alpha.ICO", b"a".to_vec());
    fs.write_file(r"C:\R\assets\readme.txt", b"t".to_vec());
    let icon = uvessel::installer::resolve_icon_path(&fs, r"C:\R", "");
    assert_eq!(icon.unwrap(), r"C:\R\assets\alpha.ICO");
    let none = uvessel::installer::resolve_icon_path(&Fs::new(), r"C:\R", "");
    assert!(none.is_none());
}

#[test]
fn configured_icon_is_resolved_against_the_root() {
    let mut fs = Fs::new();
    fs.write_file(r"C:\R\icon.ico", b"i".to_vec());
    let icon = uvessel::installer::resolve_icon_path(&fs, r"C:\R", " icon.ico ");
    assert_eq!(icon.unwrap(), r"C:\R\icon.ico");
    assert!(uvessel::installer::resolve_icon_path(&fs, r"C:\R", "missing.ico").is_none());
}

#[test]
fn installer_ui_cmd_spells_out_the_flags() {
    let cmd = uvessel::ui::build_installer_ui_cmd(
        r"C:\T\installer-ui.exe",
        "MyApp",
        "2.0.0",
        None,
        r"C:\T\done.flag",
        r"C:\T\log.txt",
        r"C:\T\launch.flag",
        true,
    );
    assert_eq!(cmd.program, r"C:\T\installer-ui.exe");
    let args: Vec<&str> = cmd.args.iter().map(|s| s.as_str()).collect();
    assert_eq!(
        args,
        vec![
            "--name",
            "MyApp",
            "--version",
            "2.0.0",
            "--done-file",
            r"C:\T\done.flag",
            "--log-file",
            r"C:\T\log.txt",
            "--launch-file",
            r"C:\T\launch.flag",
            "--mode",
            "update"
        ]
    );
}

#[test]
fn done_marker_and_launch_decision() {
    assert_eq!(uvessel::ui::done_marker_text(true), "ok");
    assert_eq!(uvessel::ui::done_marker_text(false), "fail");
    assert!(uvessel::ui::should_launch(true, true));
    assert!(!uvessel::ui::should_launch(true, false));
    assert!(!uvessel::ui::should_launch(false, true));
}

#[test]
fn manifest_parse_takes_ordinary_json() {
    // spacing, field order and unknown members (even nested) are fine
    let pretty = "{\n  \"notes\": \"bugfixes\",\n  \"installer_url\": \"http://x/i.exe\",\n  \"platforms\": {\"windows\": {\"url\": \"u\", \"count\": [1, 2.5, true, null]}},\n  \"version\": \"1.2.3\"\n}";
    let m = uvessel::updater::parse_manifest(pretty).unwrap();
    assert_eq!(m.version, "1.2.3");
    assert_eq!(m.installer_url, "http://x/i.exe");
    assert_eq!(m.sha256, "");
    assert!(uvessel::updater::parse_manifest("{\"version\": 3, \"installer_url\": \"u\"}").is_none());
    assert!(uvessel::updater::parse_manifest("{\"installer_url\": \"u\"}").is_none());
}

#[test]
fn launch_only_hands_off_the_installed_image() {
    // a matching stored version only launches, and the command handed
    // off is the installed launcher executable itself
    let root = r"C:\Apps\MyApp";
    let mut fs = Fs::new();
    seeded_installed_root(&mut fs, root, "2.0.0");
    let mut ex = ok_executor();
    let mut fx = idle_fetcher();
    let mut faults = FaultPlan::none();
    let cfg = test_config();
    let rep = run_with_deps(
        &mut fs,
        &mut ex,
        &mut fx,
        &mut faults,
        &cfg,
        root,
        "MyApp",
        &b"shim image".to_vec(),
        &project_zip(),
        "x86_64",
        r"C:\StartMenu",
        42,
    )
    .unwrap();
    assert!(!rep.upgraded);
    assert_eq!(ex.spawned.len(), 1);
    assert_eq!(ex.spawned[0].program, r"C:\Apps\MyApp\MyApp.exe");
    assert!(ex.spawned[0].args.is_empty());
}

#[test]
fn smooth_fresh_install_succeeds_and_hands_off() {
    // an empty root, clean plans, a well-formed payload with a project
    // and a runtime archive carrying uv.exe: the fresh install is owed
    // success and ends by spawning the installed image
    let root = r"C:\Apps\Fresh";
    let mut fs = Fs::new();
    let mut ex = ok_executor();
    let uv_zip = make_zip(&[("uv-dist/uv.exe", b"uv")]);
    let mut fx = ScriptedFetcher::new(vec![Some(uv_zip)]);
    let mut faults = FaultPlan::none();
    let mut cfg = test_config();
    cfg.entry_point = "module:app".to_string();
    let rep = run_with_deps(
        &mut fs,
        &mut ex,
        &mut fx,
        &mut faults,
        &cfg,
        root,
        "MyApp",
        &b"shim image".to_vec(),
        &project_zip(),
        "x86_64",
        r"C:\StartMenu",
        7,
    )
    .unwrap();
    assert!(rep.upgraded);
    assert_eq!(fs.read_file(r"C:\Apps\Fresh\uv.exe").unwrap(), b"uv".to_vec());
    assert_eq!(ex.spawned.len(), 1);
    assert_eq!(ex.spawned[0].program, r"C:\Apps\Fresh\MyApp.exe");
}
