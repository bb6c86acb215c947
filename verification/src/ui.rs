//! Argument parsing for the progress front-ends: the installer and
//! updater windows receive their display name, icon and marker-file
//! paths as command-line flags.

use vstd::prelude::*;
use vstd::string::*;
use crate::strutil::{str_eq, trim_spec};

verus! {

/// What the installer window is told on its command line.
#[derive(Debug, Clone, PartialEq, Eq)]
pub struct InstallUiInfo {
    pub name: String,
    pub icon_path: Option<String>,
    pub done_file: Option<String>,
    pub version: Option<String>,
    pub mode: String,
    pub log_file: Option<String>,
    pub launch_file: Option<String>,
}

/// Whether `a` is one of the installer window's flags.
pub open spec fn install_flag(a: Seq<char>) -> bool {
    a == "--name"@ || a == "--icon"@ || a == "--done-file"@ || a == "--version"@ || a == "--mode"@
        || a == "--log-file"@ || a == "--launch-file"@
}

/// One step of flag folding: a known flag takes the following value
/// when it is not blank; everything else is skipped.
pub open spec fn install_fold(args: Seq<String>, st: InstallUiInfo) -> InstallUiInfo
    decreases args.len(),
{
    if args.len() == 0 {
        st
    } else if install_flag(args[0]@) && args.len() >= 2 {
        let v = args[1];
        let st2 = if trim_spec(v@).len() == 0 {
            st
        } else if args[0]@ == "--name"@ {
            InstallUiInfo { name: v, ..st }
        } else if args[0]@ == "--icon"@ {
            InstallUiInfo { icon_path: Some(v), ..st }
        } else if args[0]@ == "--done-file"@ {
            InstallUiInfo { done_file: Some(v), ..st }
        } else if args[0]@ == "--version"@ {
            InstallUiInfo { version: Some(v), ..st }
        } else if args[0]@ == "--mode"@ {
            InstallUiInfo { mode: v, ..st }
        } else if args[0]@ == "--log-file"@ {
            InstallUiInfo { log_file: Some(v), ..st }
        } else {
            InstallUiInfo { launch_file: Some(v), ..st }
        };
        install_fold(args.skip(2), st2)
    } else if install_flag(args[0]@) {
        // a trailing flag with no value ends the scan
        st
    } else {
        install_fold(args.skip(1), st)
    }
}

/// Reads the installer window's flags, later occurrences winning.
pub fn parse_install_ui_args(args: &Vec<String>) -> (r: InstallUiInfo)
    ensures
        exists|init: InstallUiInfo|
            {
                &&& init.name@ == "Installing..."@
                &&& init.icon_path is None
                &&& init.done_file is None
                &&& init.version is None
                &&& init.mode@ == "install"@
                &&& init.log_file is None
                &&& init.launch_file is None
                &&& r == #[trigger] install_fold(args@, init)
            },
{
    let mut st = InstallUiInfo {
        name: "Installing...".to_owned(),
        icon_path: None,
        done_file: None,
        version: None,
        mode: "install".to_owned(),
        log_file: None,
        launch_file: None,
    };
    let n = args.len();
    let mut i: usize = 0;
    let ghost init = st;
    proof {
        assert(args@.skip(0) =~= args@);
    }
    while i < n
        invariant
            i <= n,
            n == args@.len(),
            install_fold(args@, init) == install_fold(args@.skip(i as int), st),
        ensures
            install_fold(args@, init) == install_fold(args@.skip(i as int), st),
            i >= n || (install_flag(args@[i as int]@) && i + 1 >= n),
        decreases n - i,
    {
        let a = args[i].as_str();
        let known = str_eq(a, "--name") || str_eq(a, "--icon") || str_eq(a, "--done-file")
            || str_eq(a, "--version") || str_eq(a, "--mode") || str_eq(a, "--log-file") || str_eq(
            a,
            "--launch-file",
        );
        let ghost tail = args@.skip(i as int);
        proof {
            assert(tail[0] == args@[i as int]);
        }
        if known {
            if i + 1 >= n {
                break ;
            }
            let v = args[i + 1].clone();
            let blank = crate::strutil::trim(v.as_str()).unicode_len() == 0;
            proof {
                assert(tail[1] == args@[i + 1]);
            }
            if !blank {
                if str_eq(a, "--name") {
                    st = InstallUiInfo { name: v, ..st };
                } else if str_eq(a, "--icon") {
                    st = InstallUiInfo { icon_path: Some(v), ..st };
                } else if str_eq(a, "--done-file") {
                    st = InstallUiInfo { done_file: Some(v), ..st };
                } else if str_eq(a, "--version") {
                    st = InstallUiInfo { version: Some(v), ..st };
                } else if str_eq(a, "--mode") {
                    st = InstallUiInfo { mode: v, ..st };
                } else if str_eq(a, "--log-file") {
                    st = InstallUiInfo { log_file: Some(v), ..st };
                } else {
                    st = InstallUiInfo { launch_file: Some(v), ..st };
                }
            }
            proof {
                assert(tail.skip(2) =~= args@.skip(i + 2));
            }
            i += 2;
        } else {
            proof {
                assert(tail.skip(1) =~= args@.skip(i + 1));
            }
            i += 1;
        }
    }
    proof {
        if i >= n {
            assert(args@.skip(i as int) =~= Seq::<String>::empty());
        }
    }
    proof {
        assert(install_fold(args@, init) == install_fold(args@.skip(i as int), st));
    }
    st
}

/// The argument list handed to the installer window.
pub open spec fn installer_ui_args_spec(
    app_name: Seq<char>,
    version: Seq<char>,
    icon: Option<Seq<char>>,
    done: Seq<char>,
    log: Seq<char>,
    launch: Seq<char>,
    update_mode: bool,
) -> Seq<Seq<char>> {
    let base = seq!["--name"@, app_name, "--version"@, version];
    let with_icon = match icon {
        Some(p) => base + seq!["--icon"@, p],
        None => base,
    };
    let with_files = with_icon + seq![
        "--done-file"@,
        done,
        "--log-file"@,
        log,
        "--launch-file"@,
        launch,
    ];
    if update_mode {
        with_files + seq!["--mode"@, "update"@]
    } else {
        with_files
    }
}

/// Builds the installer window's command: the staged window binary
/// with the name, version, icon, marker files and mode spelled out as
/// flags. Starting it, waiting for it and tearing it down are process
/// work outside the library.
pub fn build_installer_ui_cmd(
    ui_exe: &str,
    app_name: &str,
    version: &str,
    icon: Option<&String>,
    done_file: &str,
    log_file: &str,
    launch_file: &str,
    update_mode: bool,
) -> (r: crate::ports::CmdSpec)
    ensures
        r.program@ == ui_exe@,
        r.args@.map_values(|s: String| s@) == installer_ui_args_spec(
            app_name@,
            version@,
            match icon {
                Some(p) => Some(p@),
                None => None,
            },
            done_file@,
            log_file@,
            launch_file@,
            update_mode,
        ),
{
    let mut cmd = crate::ports::CmdSpec::new(ui_exe);
    cmd.arg("--name");
    cmd.arg(app_name);
    cmd.arg("--version");
    cmd.arg(version);
    match icon {
        Some(p) => {
            cmd.arg("--icon");
            cmd.arg(p.as_str());
        },
        None => {},
    }
    cmd.arg("--done-file");
    cmd.arg(done_file);
    cmd.arg("--log-file");
    cmd.arg(log_file);
    cmd.arg("--launch-file");
    cmd.arg(launch_file);
    if update_mode {
        cmd.arg("--mode");
        cmd.arg("update");
    }
    proof {
        assert(cmd.args@.map_values(|s: String| s@) =~= installer_ui_args_spec(
            app_name@,
            version@,
            match icon {
                Some(p) => Some(p@),
                None => None,
            },
            done_file@,
            log_file@,
            launch_file@,
            update_mode,
        ));
    }
    cmd
}

/// The argument list handed to the updater window.
pub open spec fn update_ui_args_spec(app_name: Seq<char>, icon: Option<Seq<char>>) -> Seq<
    Seq<char>,
> {
    let base = seq!["--name"@, app_name];
    match icon {
        Some(p) => base + seq!["--icon"@, p],
        None => base,
    }
}

/// Builds the updater window's command.
pub fn build_update_ui_cmd(ui_exe: &str, app_name: &str, icon: Option<&String>) -> (r:
    crate::ports::CmdSpec)
    ensures
        r.program@ == ui_exe@,
        r.args@.map_values(|s: String| s@) == update_ui_args_spec(
            app_name@,
            match icon {
                Some(p) => Some(p@),
                None => None,
            },
        ),
{
    let mut cmd = crate::ports::CmdSpec::new(ui_exe);
    cmd.arg("--name");
    cmd.arg(app_name);
    match icon {
        Some(p) => {
            cmd.arg("--icon");
            cmd.arg(p.as_str());
        },
        None => {},
    }
    proof {
        assert(cmd.args@.map_values(|s: String| s@) =~= update_ui_args_spec(
            app_name@,
            match icon {
                Some(p) => Some(p@),
                None => None,
            },
        ));
    }
    cmd
}

/// What the installer writes into the done marker for the window to
/// read: `ok` on success, `fail` otherwise.
pub fn done_marker_text(result_ok: bool) -> (r: String)
    ensures
        result_ok ==> r@ == "ok"@,
        !result_ok ==> r@ == "fail"@,
{
    if result_ok {
        "ok".to_owned()
    } else {
        "fail".to_owned()
    }
}

/// Whether the installed application is started after the window
/// closes: only a successful run with the launch marker present.
pub fn should_launch(result_ok: bool, launch_marker_present: bool) -> (r: bool)
    ensures
        r == (result_ok && launch_marker_present),
{
    result_ok && launch_marker_present
}

/// The nonce-tagged marker and log paths exchanged with the window.
pub fn done_marker_path(tmp_dir: &str, nonce: u64) -> (r: String)
    ensures
        r@ == crate::paths::joined(
            tmp_dir@,
            "uvessel-install-done-"@ + crate::dec::dec_spec(nonce as nat) + ".flag"@,
        ),
{
    let digits = crate::dec::u64_to_dec(nonce);
    let name = crate::strutil::concat3("uvessel-install-done-", digits.as_str(), ".flag");
    crate::paths::join(tmp_dir, name.as_str())
}

pub fn install_log_path(tmp_dir: &str, nonce: u64) -> (r: String)
    ensures
        r@ == crate::paths::joined(
            tmp_dir@,
            "uvessel-install-log-"@ + crate::dec::dec_spec(nonce as nat) + ".txt"@,
        ),
{
    let digits = crate::dec::u64_to_dec(nonce);
    let name = crate::strutil::concat3("uvessel-install-log-", digits.as_str(), ".txt");
    crate::paths::join(tmp_dir, name.as_str())
}

pub fn launch_marker_path(tmp_dir: &str, nonce: u64) -> (r: String)
    ensures
        r@ == crate::paths::joined(
            tmp_dir@,
            "uvessel-install-launch-"@ + crate::dec::dec_spec(nonce as nat) + ".flag"@,
        ),
{
    let digits = crate::dec::u64_to_dec(nonce);
    let name = crate::strutil::concat3("uvessel-install-launch-", digits.as_str(), ".flag");
    crate::paths::join(tmp_dir, name.as_str())
}

} // verus!

