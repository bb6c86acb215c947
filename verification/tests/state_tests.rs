use uvessel::fs::Fs;
use uvessel::fs_ops::{write_bytes_with_retry, FaultPlan};
use uvessel::errors::LibError;
use uvessel::paths::state_path;
use uvessel::state::{read_state, state_from_json, state_to_json, write_state, EntryPoint, State};

fn sample_state() -> State {
    State {
        project_rel: "app\\proj".to_string(),
        entry: EntryPoint::PythonFile("main.py".to_string()),
        lock_mtime_unix: 123,
        installed: true,
        launcher_version: "1.2.3".to_string(),
    }
}

#[test]
fn serde_roundtrip_state() {
    let state = sample_state();
    let s = state_to_json(&state);
    let out: State = state_from_json(&s).unwrap();
    assert_eq!(state, out);
}

#[test]
fn state_serde_roundtrip_state() {
    let state = sample_state();
    let s = state_to_json(&state);
    let out: State = state_from_json(&s).unwrap();
    assert_eq!(state, out);
}

#[test]
fn state_json_shape_is_stable() {
    let state = sample_state();
    let s = state_to_json(&state);
    assert_eq!(
        s,
        "{\"project_rel\":\"app\\\\proj\",\"entry\":{\"kind\":\"python_file\",\"value\":\"main.py\"},\"lock_mtime_unix\":123,\"installed\":true,\"launcher_version\":\"1.2.3\"}"
    );
}

#[test]
fn state_json_rejects_garbage() {
    assert!(state_from_json("not json").is_none());
    assert!(state_from_json("{\"project_rel\":\"x\"}").is_none());
}

#[test]
fn state_roundtrip_with_escapes_and_other_kinds() {
    let state = State {
        project_rel: "a\"b\\c\nd".to_string(),
        entry: EntryPoint::Module("pkg.__main__".to_string()),
        lock_mtime_unix: u64::MAX,
        installed: false,
        launcher_version: "0.0.1-alpha+build".to_string(),
    };
    let s = state_to_json(&state);
    assert_eq!(state_from_json(&s).unwrap(), state);

    let cmd = State {
        entry: EntryPoint::Command("mycli".to_string()),
        ..state
    };
    let s2 = state_to_json(&cmd);
    assert_eq!(state_from_json(&s2).unwrap(), cmd);
}

#[test]
fn state_store_roundtrips_through_files() {
    let mut fs = Fs::new();
    let sp = state_path(r"C:\Apps\MyApp");
    let state = sample_state();
    write_state(&mut fs, &sp, &state);
    let out = read_state(&fs, &sp).unwrap();
    assert_eq!(out, state);
}

#[test]
fn read_state_tells_absent_from_corrupt() {
    let mut fs = Fs::new();
    let sp = state_path(r"C:\Apps\MyApp");
    assert_eq!(read_state(&fs, &sp).unwrap_err(), LibError::StateNotFound);
    fs.write_file(&sp, b"garbage".to_vec());
    assert_eq!(read_state(&fs, &sp).unwrap_err(), LibError::StateCorrupt);
}

#[test]
fn write_bytes_with_retry_fresh_and_overwrite() {
    let mut fs = Fs::new();
    let mut faults = FaultPlan::none();
    let dest = r"C:\Apps\MyApp\launcher.exe";

    write_bytes_with_retry(&mut fs, &mut faults, 7, dest, &b"first".to_vec(), 3).unwrap();
    assert_eq!(fs.read_file(dest).unwrap(), b"first".to_vec());
    let tmp = uvessel::fs_ops::temp_path_for(dest, 7);
    assert!(!fs.file_exists(&tmp));

    // overwrite an existing destination
    write_bytes_with_retry(&mut fs, &mut faults, 8, dest, &b"second".to_vec(), 3).unwrap();
    assert_eq!(fs.read_file(dest).unwrap(), b"second".to_vec());
    assert!(!fs.file_exists(&uvessel::fs_ops::temp_path_for(dest, 8)));
}

#[test]
fn write_bytes_with_retry_survives_transient_faults() {
    let mut fs = Fs::new();
    let mut faults = FaultPlan::failing(2);
    let dest = r"C:\Apps\MyApp\launcher.exe";
    write_bytes_with_retry(&mut fs, &mut faults, 7, dest, &b"data".to_vec(), 3).unwrap();
    assert_eq!(fs.read_file(dest).unwrap(), b"data".to_vec());
}

#[test]
fn write_bytes_with_retry_exhausts_and_reports_busy() {
    let mut fs = Fs::new();
    let mut faults = FaultPlan::failing(5);
    let dest = r"C:\Apps\MyApp\launcher.exe";
    let err = write_bytes_with_retry(&mut fs, &mut faults, 7, dest, &b"data".to_vec(), 3).unwrap_err();
    assert_eq!(err, LibError::FileBusy);
    assert!(!fs.file_exists(dest));
}

#[test]
fn copy_and_move_work_in_model() {
    let mut fs = Fs::new();
    let mut faults = FaultPlan::none();
    fs.write_file(r"C:\T\src.txt", b"data".to_vec());
    uvessel::fs_ops::copy_file_with_retry(&mut fs, &mut faults, 1, r"C:\T\src.txt", r"C:\T\copy.txt", 3)
        .unwrap();
    assert_eq!(fs.read_file(r"C:\T\copy.txt").unwrap(), b"data".to_vec());
    assert!(fs.file_exists(r"C:\T\src.txt"));
    uvessel::fs_ops::move_file_with_retry(&mut fs, &mut faults, r"C:\T\src.txt", r"C:\T\moved.txt", 3)
        .unwrap();
    assert!(!fs.file_exists(r"C:\T\src.txt"));
    assert_eq!(fs.read_file(r"C:\T\moved.txt").unwrap(), b"data".to_vec());
}

#[test]
fn copy_file_with_retry_reports_missing_source() {
    let mut fs = Fs::new();
    let mut faults = FaultPlan::none();
    let err =
        uvessel::fs_ops::copy_file_with_retry(&mut fs, &mut faults, 1, r"C:\T\nope", r"C:\T\c", 3)
            .unwrap_err();
    assert!(matches!(err, LibError::MissingFile(_)));
}

#[test]
fn rename_tree_moves_whole_subtree() {
    let mut fs = Fs::new();
    fs.write_file(r"C:\R\app\proj\main.py", b"print('hi')".to_vec());
    fs.create_dir(r"C:\R\app\proj");
    fs.rename_tree(r"C:\R\app", r"C:\R\app.backup.1").unwrap();
    assert!(!fs.file_exists(r"C:\R\app\proj\main.py"));
    assert_eq!(
        fs.read_file(r"C:\R\app.backup.1\proj\main.py").unwrap(),
        b"print('hi')".to_vec()
    );
    assert!(fs.dir_exists(r"C:\R\app.backup.1\proj"));
}

#[test]
fn mutex_guard_blocks_second_instance() {
    let mut locks = uvessel::guard::LockTable::new();
    let first = uvessel::guard::acquire_single_instance(&mut locks, "com.example.app", "My App", "app");
    assert!(first);
    let second = uvessel::guard::acquire_single_instance(&mut locks, "com.example.app", "My App", "app");
    assert!(!second);
}

#[test]
fn mutex_name_sanitizes_identity() {
    let name = uvessel::guard::mutex_name(" com.example/app ", "", "");
    assert_eq!(name, "Local\\Uvessel-com.example_app");
}

#[test]
fn legacy_record_without_version_still_parses() {
    // records written before versions were stored read back with an
    // empty version, so the next run heals by upgrading
    let legacy = "{\"project_rel\":\"app\\\\proj\",\"entry\":{\"kind\":\"python_file\",\"value\":\"main.py\"},\"lock_mtime_unix\":5,\"installed\":true}";
    let st = state_from_json(legacy).unwrap();
    assert_eq!(st.launcher_version, "");
    assert_eq!(st.lock_mtime_unix, 5);
}

#[test]
fn write_bytes_refuses_parentless_destination() {
    let mut fs = Fs::new();
    let mut faults = FaultPlan::none();
    let err = write_bytes_with_retry(&mut fs, &mut faults, 7, "loose-name", &b"x".to_vec(), 3)
        .unwrap_err();
    assert_eq!(err, LibError::BadDestPath);
    assert!(!fs.file_exists("loose-name"));
    let err2 = write_bytes_with_retry(&mut fs, &mut faults, 7, r"C:\dir\", &b"x".to_vec(), 3)
        .unwrap_err();
    assert_eq!(err2, LibError::BadDestPath);
}
