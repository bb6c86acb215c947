//! The installed launcher's normal run: opportunistically hand
//! control to the updater, re-bootstrap the environment when the lock
//! file changed or the environment is missing, then start the
//! configured entry point.

use vstd::prelude::*;
use vstd::string::*;
use crate::errors::LibError;
use crate::fs::{in_tree, Fs};
use crate::paths::{joined, state_path_spec};
use crate::ports::{cmd_model, plain_cmd, retry_spec, retry_used, CmdModel, CmdSpec, Executor};
use crate::state::{EntryPoint, EntryPointView, State};
use crate::strutil::utf8_of;
use crate::uv::uv_cmd_model;
use crate::installer::{line_end, pin_of};

verus! {

/// What the updater's exit told the launcher to do.
pub enum UpdateDecision {
    /// Run normally.
    Continue,
    /// An installer was launched; exit without further work.
    ExitForUpdate,
}

/// The distinguished exit code meaning "installer launched, caller
/// must exit"; all other codes mean "continue".
pub fn update_decision_from_code(code: i32) -> (r: UpdateDecision)
    ensures
        code == 10 <==> r is ExitForUpdate,
{
    if code == 10 {
        UpdateDecision::ExitForUpdate
    } else {
        UpdateDecision::Continue
    }
}

/// A full re-bootstrap is needed when the environment marker is
/// absent, or the lock file exists and changed since the recorded
/// stamp.
pub fn needs_bootstrap(fs: &Fs, runtime: &str, lock_mtime: u64, state_lock_mtime: u64) -> (r: bool)
    requires
        fs.inv(),
    ensures
        r == (!fs.has_file(joined(joined(runtime@, "venv"@), "pyvenv.cfg"@)) || (lock_mtime != 0
            && lock_mtime != state_lock_mtime)),
{
    let venv = crate::paths::join(runtime, "venv");
    let cfgf = crate::paths::join(venv.as_str(), "pyvenv.cfg");
    if !fs.file_exists(cfgf.as_str()) {
        return true;
    }
    lock_mtime != 0 && lock_mtime != state_lock_mtime
}

/// The project directory the record points at; it must still hold a
/// project manifest.
pub fn resolve_project(fs: &Fs, root: &str, st: &State) -> (r: Result<String, LibError>)
    requires
        fs.inv(),
    ensures
        fs.has_file(joined(joined(root@, st.project_rel@), "pyproject.toml"@)) <==> r is Ok,
        r matches Ok(p) ==> p@ == joined(root@, st.project_rel@),
        r matches Err(e) ==> e is NoProject,
{
    let proj = crate::paths::join(root, st.project_rel.as_str());
    let py = crate::paths::join(proj.as_str(), "pyproject.toml");
    if !fs.file_exists(py.as_str()) {
        return Err(LibError::NoProject);
    }
    Ok(proj)
}

/// Runs the updater beside the launcher, if one is installed, and
/// reads its verdict from the exit code.
pub fn maybe_run_updater<E: Executor>(fs: &Fs, ex: &mut E, root: &str) -> (r: Result<
    UpdateDecision,
    LibError,
>)
    requires
        fs.inv(),
        old(ex).plan().len() >= 1,
    ensures
        final(ex).spawned() == old(ex).spawned(),
        !fs.has_file(joined(root@, "updater.exe"@)) ==> (r matches Ok(d) && d is Continue)
            && *final(ex) == *old(ex),
        fs.has_file(joined(root@, "updater.exe"@)) ==> {
            &&& final(ex).plan() == old(ex).plan().drop_first()
            &&& final(ex).spawn_plan() == old(ex).spawn_plan()
            &&& final(ex).ran() == old(ex).ran().push(plain_cmd(joined(root@, "updater.exe"@)))
            &&& (match old(ex).plan()[0] {
                Some(c) => r matches Ok(d) && (d is ExitForUpdate <==> c == 10),
                None => r == Result::<UpdateDecision, LibError>::Err(LibError::SpawnFailed),
            })
        },
{
    let updater = crate::paths::join(root, "updater.exe");
    if !fs.file_exists(updater.as_str()) {
        return Ok(UpdateDecision::Continue);
    }
    let cmd = CmdSpec::new(updater.as_str());
    proof {
        assert(cmd.args@.map_values(|s: String| s@) =~= Seq::<Seq<char>>::empty());
        assert(cmd.envs@.map_values(|p: (String, String)| (p.0@, p.1@)) =~= Seq::<(
            Seq<char>,
            Seq<char>,
        )>::empty());
        assert(cmd_model(cmd) == plain_cmd(joined(root@, "updater.exe"@)));
    }
    match ex.exec(&cmd) {
        Ok(code) => Ok(update_decision_from_code(code)),
        Err(e) => Err(e),
    }
}

/// Two filesystems that agree on every file, in presence, contents and
/// stamp.
pub open spec fn files_same(a: Fs, b: Fs) -> bool {
    forall|q: Seq<char>|
        a.has_file(q) == b.has_file(q) && (b.has_file(q) ==> a.file_data(q) == b.file_data(q)
            && a.file_stamp(q) == b.file_stamp(q))
}

/// Whether the run proceeds past the updater hand-off.
pub open spec fn runner_continues(fsv: Fs, root: Seq<char>, plan: Seq<Option<i32>>) -> bool {
    !fsv.has_file(joined(root, "updater.exe"@)) || (plan[0] matches Some(code) && code != 10)
}

/// The exit-status plan left for the run's own commands.
pub open spec fn runner_plan_tail(fsv: Fs, root: Seq<char>, plan: Seq<Option<i32>>) -> Seq<
    Option<i32>,
> {
    if fsv.has_file(joined(root, "updater.exe"@)) {
        plan.drop_first()
    } else {
        plan
    }
}

/// The run trace after the optional updater hand-off.
pub open spec fn runner_ran_base(fsv: Fs, root: Seq<char>, ran: Seq<CmdModel>) -> Seq<CmdModel> {
    if fsv.has_file(joined(root, "updater.exe"@)) {
        ran.push(plain_cmd(joined(root, "updater.exe"@)))
    } else {
        ran
    }
}

/// The outcome of the entry-point run, read off the plan: success
/// exactly on exit status zero.
pub open spec fn launch_outcome(plan: Seq<Option<i32>>) -> Result<(), LibError> {
    match plan[0] {
        None => Err(LibError::SpawnFailed),
        Some(c) => if c == 0 {
            Ok(())
        } else {
            Err(LibError::EntryFailed(c))
        },
    }
}

/// The outcome of a full re-bootstrap followed by the entry-point run:
/// two bounded retries, then the final run.
pub open spec fn bootstrap_then_launch(plan: Seq<Option<i32>>) -> Result<(), LibError> {
    let r1 = retry_spec(plan, 5);
    if r1 is Err {
        r1
    } else {
        let p2 = plan.skip(retry_used(plan, 5));
        let r2 = retry_spec(p2, 5);
        if r2 is Err {
            r2
        } else {
            launch_outcome(p2.skip(retry_used(p2, 5)))
        }
    }
}

/// The arguments of the entry-point run.
pub open spec fn entry_run_args(e: EntryPointView) -> Seq<Seq<char>> {
    match e {
        EntryPointView::PythonFile(f) => seq!["run"@, "python"@, f],
        EntryPointView::Module(m) => seq!["run"@, "python"@, "-m"@, m],
        EntryPointView::Command(c) => seq!["run"@, c],
    }
}

/// The arguments of the interpreter-install step, with the project's
/// optional version pin.
pub open spec fn bootstrap_install_args(pin: Option<Seq<char>>) -> Seq<Seq<char>> {
    match pin {
        None => seq!["python"@, "install"@],
        Some(v) => seq!["python"@, "install"@, v],
    }
}

/// The arguments of the dependency-sync step.
pub open spec fn sync_args(frozen: bool) -> Seq<Seq<char>> {
    if frozen {
        seq!["sync"@, "--frozen"@]
    } else {
        seq!["sync"@]
    }
}

/// Whether `pin` is the version pin the project's pin file yields: no
/// pin without the file or with a blank first line, else its trimmed
/// first line.
pub open spec fn pin_matches(fsv: Fs, proj: Seq<char>, pin: Option<Seq<char>>) -> bool {
    let pvp = joined(proj, ".python-version"@);
    if !fsv.has_file(pvp) {
        pin is None
    } else {
        exists|d: Seq<char>|
            fsv.file_data(pvp) == #[trigger] utf8_of(d) && pin == (if pin_of(d).len() == 0 {
                Option::<Seq<char>>::None
            } else {
                Option::<Seq<char>>::Some(pin_of(d))
            })
    }
}

/// One normal run of the installed launcher.
#[verifier::rlimit(100)]
#[verifier::spinoff_prover]
pub fn run_with_executor<E: Executor>(fs: &mut Fs, ex: &mut E, root: &str) -> (r: Result<
    (),
    LibError,
>)
    requires
        old(fs).inv(),
        old(ex).plan().len() >= 12,
    ensures
        final(fs).inv(),
        final(ex).spawned() == old(ex).spawned(),
        !old(fs).has_file(joined(root@, "updater.exe"@)) && !old(fs).has_file(
            joined(root@, "uv.exe"@),
        ) ==> (r matches Err(e) && e is MissingFile),
        // the reserved exit code of an installed updater claims the run
        old(fs).has_file(joined(root@, "updater.exe"@)) && old(ex).plan()[0] == Some(10i32) ==> r
            is Ok && *final(fs) == *old(fs) && final(ex).plan() == old(ex).plan().drop_first()
            && final(ex).ran() == old(ex).ran().push(plain_cmd(joined(root@, "updater.exe"@))),
        // an updater that cannot start aborts the run, nothing touched
        old(fs).has_file(joined(root@, "updater.exe"@)) && old(ex).plan()[0] is None ==> r
            == Result::<(), LibError>::Err(LibError::SpawnFailed) && *final(fs) == *old(fs),
        // past the updater, a missing runtime tool is fatal before any
        // command or write
        runner_continues(*old(fs), root@, old(ex).plan()) && !old(fs).has_file(
            joined(root@, "uv.exe"@),
        ) ==> (r matches Err(e) && e is MissingFile) && *final(fs) == *old(fs),
        // without a state record, nothing is attempted
        runner_continues(*old(fs), root@, old(ex).plan()) && old(fs).has_file(
            joined(root@, "uv.exe"@),
        ) && !old(fs).has_file(state_path_spec(root@)) ==> r == Result::<(), LibError>::Err(
            LibError::StateNotFound,
        ) && files_same(*final(fs), *old(fs)),
        // the stored record and the plans decide the rest: bootstrap
        // commands run exactly when the environment marker is missing
        // or the lock stamp moved, the record is rewritten and the
        // cache dropped exactly then, and the entry point's planned
        // exit status decides success
        runner_continues(*old(fs), root@, old(ex).plan()) && old(fs).has_file(
            joined(root@, "uv.exe"@),
        ) && old(fs).has_file(state_path_spec(root@)) ==> forall|c: Seq<char>|
            old(fs).file_data(state_path_spec(root@)) == utf8_of(c) ==> ({
                let plan1 = runner_plan_tail(*old(fs), root@, old(ex).plan());
                let base = runner_ran_base(*old(fs), root@, old(ex).ran());
                let uvp = joined(root@, "uv.exe"@);
                match crate::state::spec_parse_state(c) {
                    None => r == Result::<(), LibError>::Err(LibError::StateCorrupt) && files_same(
                        *final(fs),
                        *old(fs),
                    ),
                    Some(sv) => {
                        let proj = joined(root@, sv.project_rel);
                        let rt = joined(root@, ".runtime"@);
                        if !old(fs).has_file(joined(proj, "pyproject.toml"@)) {
                            r == Result::<(), LibError>::Err(LibError::NoProject) && files_same(
                                *final(fs),
                                *old(fs),
                            )
                        } else {
                            let lockp = joined(proj, "uv.lock"@);
                            let lm = if old(fs).has_file(lockp) {
                                old(fs).file_stamp(lockp)
                            } else {
                                0u64
                            };
                            let nb = !old(fs).has_file(joined(joined(rt, "venv"@), "pyvenv.cfg"@))
                                || (lm != 0 && lm != sv.lock_mtime_unix);
                            if !nb {
                                // launch-only: no bootstrap command, no
                                // file is touched
                                &&& r == launch_outcome(plan1)
                                &&& final(ex).plan() == plan1.drop_first()
                                &&& files_same(*final(fs), *old(fs))
                                &&& final(ex).ran() == base.push(
                                    uv_cmd_model(uvp, proj, rt, entry_run_args(sv.entry)),
                                )
                            } else {
                                forall|pin: Option<Seq<char>>|
                                    #[trigger] pin_matches(*old(fs), proj, pin) ==> ({
                                        let c1 = uv_cmd_model(
                                            uvp,
                                            proj,
                                            rt,
                                            bootstrap_install_args(pin),
                                        );
                                        let c2 = uv_cmd_model(
                                            uvp,
                                            proj,
                                            rt,
                                            sync_args(old(fs).has_file(lockp)),
                                        );
                                        let r1 = retry_spec(plan1, 5);
                                        let u1 = retry_used(plan1, 5);
                                        let plan2 = plan1.skip(u1);
                                        let r2 = retry_spec(plan2, 5);
                                        let u2 = retry_used(plan2, 5);
                                        let plan3 = plan2.skip(u2);
                                        &&& r == bootstrap_then_launch(plan1)
                                        &&& (r1 is Err ==> files_same(*final(fs), *old(fs))
                                            && final(ex).ran() == base + Seq::new(
                                            u1 as nat,
                                            |k: int| c1,
                                        ))
                                        &&& (r1 is Ok && r2 is Err ==> files_same(
                                            *final(fs),
                                            *old(fs),
                                        ) && final(ex).ran() == base + Seq::new(
                                            u1 as nat,
                                            |k: int| c1,
                                        ) + Seq::new(u2 as nat, |k: int| c2))
                                        &&& (r1 is Ok && r2 is Ok ==> {
                                            &&& r == launch_outcome(plan3)
                                            &&& final(ex).plan() == plan3.drop_first()
                                            &&& final(ex).ran() == base + Seq::new(
                                                u1 as nat,
                                                |k: int| c1,
                                            ) + Seq::new(u2 as nat, |k: int| c2) + seq![
                                                uv_cmd_model(
                                                    uvp,
                                                    proj,
                                                    rt,
                                                    entry_run_args(sv.entry),
                                                ),
                                            ]
                                            // the record carries the lock
                                            // stamp, the cache is gone,
                                            // nothing else moved
                                            &&& final(fs).has_file(state_path_spec(root@))
                                            &&& final(fs).file_data(state_path_spec(root@))
                                                == utf8_of(
                                                crate::state::state_text(
                                                    (crate::state::StateView {
                                                        project_rel: sv.project_rel,
                                                        entry: sv.entry,
                                                        lock_mtime_unix: lm,
                                                        installed: sv.installed,
                                                        launcher_version: sv.launcher_version,
                                                    }),
                                                ),
                                            )
                                            &&& !final(fs).tree_used(joined(rt, "cache"@))
                                            &&& (forall|q: Seq<char>|
                                                q != state_path_spec(root@) && !in_tree(
                                                    joined(rt, "cache"@),
                                                    q,
                                                ) ==> final(fs).has_file(q) == old(fs).has_file(q)
                                                    && (old(fs).has_file(q)
                                                    ==> final(fs).file_data(q) == old(fs).file_data(q)))
                                        })
                                    })
                            }
                        }
                    },
                }
            }),
{
    let ghost updp = joined(root@, "updater.exe"@);
    match maybe_run_updater(fs, ex, root) {
        Ok(UpdateDecision::ExitForUpdate) => {
            return Ok(());
        },
        Ok(UpdateDecision::Continue) => {},
        Err(e) => {
            return Err(e);
        },
    }
    let ghost plan1 = runner_plan_tail(*old(fs), root@, old(ex).plan());
    let ghost base = runner_ran_base(*old(fs), root@, old(ex).ran());
    proof {
        assert(ex.plan() == plan1);
        assert(ex.ran() == base);
        assert(plan1.len() >= 11);
    }
    let uv = crate::paths::join(root, "uv.exe");
    if !fs.file_exists(uv.as_str()) {
        return Err(LibError::MissingFile(uv));
    }
    let rt = crate::paths::runtime_dir(root);
    crate::installer::ensure_runtime_dirs(fs, rt.as_str());
    proof {
        assert(files_same(*fs, *old(fs)));
    }
    let sp = crate::paths::state_path(root);
    let st = match crate::state::read_state(fs, sp.as_str()) {
        Ok(st) => st,
        Err(e) => {
            return Err(e);
        },
    };
    proof {
        assert forall|c: Seq<char>|
            old(fs).file_data(state_path_spec(root@)) == utf8_of(
                c,
            ) implies crate::state::spec_parse_state(c) == Some(st@) by {
            assert(fs.file_data(state_path_spec(root@)) == old(fs).file_data(
                state_path_spec(root@),
            ));
        }
    }
    let ghost stv = st@;
    let proj = match resolve_project(fs, root, &st) {
        Ok(p) => p,
        Err(e) => {
            return Err(e);
        },
    };
    let ghost projv = joined(root@, stv.project_rel);
    let lock_path = crate::paths::join(proj.as_str(), "uv.lock");
    let lock_mtime: u64 = match fs.file_mtime(lock_path.as_str()) {
        Some(t) => t,
        None => 0,
    };
    let nb = needs_bootstrap(fs, rt.as_str(), lock_mtime, st.lock_mtime_unix);
    let mut st_cur = st;
    let ghost mut c1m = plain_cmd(Seq::empty());
    let ghost mut c2m = plain_cmd(Seq::empty());
    if nb {
        let mut c1 = crate::uv::build_uv_cmd(uv.as_str(), proj.as_str(), rt.as_str());
        c1.arg("python");
        c1.arg("install");
        let pyv = crate::installer::read_python_version(fs, proj.as_str());
        let ghost gp = pyv;
        match pyv {
            Ok(Some(v)) => {
                c1.arg(v.as_str());
            },
            Ok(None) => {},
            Err(e) => {
                proof {
                    assert forall|pin: Option<Seq<char>>|
                        pin_matches(*old(fs), projv, pin) implies false by {
                        let pvp = joined(projv, ".python-version"@);
                        assert(fs.has_file(pvp) == old(fs).has_file(pvp));
                        assert(old(fs).has_file(pvp));
                        let d = choose|d: Seq<char>|
                            old(fs).file_data(pvp) == #[trigger] utf8_of(d) && pin == (if pin_of(
                                d,
                            ).len() == 0 {
                                Option::<Seq<char>>::None
                            } else {
                                Option::<Seq<char>>::Some(pin_of(d))
                            });
                        assert(fs.file_data(pvp) == utf8_of(d));
                        assert(gp is Ok);
                    }
                }
                return Err(e);
            },
        }
        proof {
            c1m = cmd_model(c1);
            assert forall|pin: Option<Seq<char>>|
                #[trigger] pin_matches(*old(fs), projv, pin) implies c1m == uv_cmd_model(
                joined(root@, "uv.exe"@),
                projv,
                joined(root@, ".runtime"@),
                bootstrap_install_args(pin),
            ) by {
                let pvp = joined(projv, ".python-version"@);
                assert(fs.has_file(pvp) == old(fs).has_file(pvp));
                if !old(fs).has_file(pvp) {
                    assert(gp == Result::<Option<String>, LibError>::Ok(None));
                    assert(pin is None);
                    assert(cmd_model(c1).args =~= bootstrap_install_args(pin));
                } else {
                    let d = choose|d: Seq<char>|
                        old(fs).file_data(pvp) == #[trigger] utf8_of(d) && pin == (if pin_of(
                            d,
                        ).len() == 0 {
                            Option::<Seq<char>>::None
                        } else {
                            Option::<Seq<char>>::Some(pin_of(d))
                        });
                    assert(fs.file_data(pvp) == utf8_of(d));
                    if pin_of(d).len() == 0 {
                        assert(gp == Result::<Option<String>, LibError>::Ok(None));
                        assert(pin is None);
                        assert(cmd_model(c1).args =~= bootstrap_install_args(pin));
                    } else {
                        assert(gp matches Ok(Some(s)) && s@ == pin_of(d));
                        assert(pin == Option::<Seq<char>>::Some(pin_of(d)));
                        assert(cmd_model(c1).args =~= bootstrap_install_args(pin));
                    }
                }
            }
        }
        let ghost u1 = retry_used(plan1, 5);
        proof {
            crate::ports::lemma_retry_used_bounds(ex.plan(), 5);
        }
        match crate::ports::run_with_retry(ex, &c1, 5) {
            Ok(()) => {},
            Err(e) => {
                proof {
                    assert(ex.ran() == base + Seq::new(u1 as nat, |k: int| c1m));
                }
                return Err(e);
            },
        }
        proof {
            assert(ex.ran() == base + Seq::new(u1 as nat, |k: int| c1m));
            assert(ex.plan() == plan1.skip(u1));
        }
        let mut c2 = crate::uv::build_uv_cmd(uv.as_str(), proj.as_str(), rt.as_str());
        c2.arg("sync");
        if fs.file_exists(lock_path.as_str()) {
            c2.arg("--frozen");
        }
        proof {
            c2m = cmd_model(c2);
            assert(c2m.args =~= sync_args(old(fs).has_file(joined(projv, "uv.lock"@))));
            assert(c2m == uv_cmd_model(
                joined(root@, "uv.exe"@),
                projv,
                joined(root@, ".runtime"@),
                sync_args(old(fs).has_file(joined(projv, "uv.lock"@))),
            ));
            crate::ports::lemma_retry_used_bounds(ex.plan(), 5);
        }
        let ghost u2 = retry_used(plan1.skip(u1), 5);
        match crate::ports::run_with_retry(ex, &c2, 5) {
            Ok(()) => {},
            Err(e) => {
                proof {
                    assert(ex.ran() == (base + Seq::new(u1 as nat, |k: int| c1m)) + Seq::new(
                        u2 as nat,
                        |k: int| c2m,
                    ));
                    assert(ex.ran() =~= base + Seq::new(u1 as nat, |k: int| c1m) + Seq::new(
                        u2 as nat,
                        |k: int| c2m,
                    ));
                }
                return Err(e);
            },
        }
        proof {
            assert(ex.ran() =~= base + Seq::new(u1 as nat, |k: int| c1m) + Seq::new(
                u2 as nat,
                |k: int| c2m,
            ));
            assert(ex.plan() == plan1.skip(u1).skip(u2));
        }
        st_cur = State {
            project_rel: st_cur.project_rel,
            entry: st_cur.entry,
            lock_mtime_unix: lock_mtime,
            installed: st_cur.installed,
            launcher_version: st_cur.launcher_version,
        };
        let ghost s_before_write = *fs;
        crate::state::write_state(fs, sp.as_str(), &st_cur);
        let cache = crate::paths::join(rt.as_str(), "cache");
        let ghost s_after_write = *fs;
        fs.remove_tree(cache.as_str());
        proof {
            assert(!in_tree("cache"@, "state.json"@)) by {
                reveal_strlit("cache");
                reveal_strlit("state.json");
                assert("cache"@.len() == 5 && "state.json"@.len() == 10);
                if in_tree("cache"@, "state.json"@) {
                    assert("state.json"@.subrange(0, 5)[0] == 's');
                    assert("cache"@[0] == 'c');
                }
            }
            crate::installer::lemma_joined_in_tree(joined(root@, ".runtime"@), "cache"@, "state.json"@);
            assert(!in_tree(cache@, sp@));
            assert(fs.has_file(sp@) && fs.file_data(sp@) == s_after_write.file_data(sp@));
        }
    }
    let mut run_cmd = crate::uv::build_uv_cmd(uv.as_str(), proj.as_str(), rt.as_str());
    run_cmd.arg("run");
    match &st_cur.entry {
        EntryPoint::PythonFile(f) => {
            run_cmd.arg("python");
            run_cmd.arg(f.as_str());
        },
        EntryPoint::Module(m) => {
            run_cmd.arg("python");
            run_cmd.arg("-m");
            run_cmd.arg(m.as_str());
        },
        EntryPoint::Command(c) => {
            run_cmd.arg(c.as_str());
        },
    }
    proof {
        assert(st_cur@.entry == stv.entry);
        assert(cmd_model(run_cmd).args =~= entry_run_args(stv.entry));
        assert(cmd_model(run_cmd) == uv_cmd_model(
            joined(root@, "uv.exe"@),
            projv,
            joined(root@, ".runtime"@),
            entry_run_args(stv.entry),
        ));
    }
    let ghost pre_launch_ran = ex.ran();
    let res = ex.exec(&run_cmd);
    proof {
        assert(ex.ran() == pre_launch_ran.push(cmd_model(run_cmd)));
        if nb {
            let u1 = retry_used(plan1, 5);
            let u2 = retry_used(plan1.skip(u1), 5);
            assert(ex.ran() =~= base + Seq::new(u1 as nat, |k: int| c1m) + Seq::new(
                u2 as nat,
                |k: int| c2m,
            ) + seq![
                uv_cmd_model(
                    joined(root@, "uv.exe"@),
                    projv,
                    joined(root@, ".runtime"@),
                    entry_run_args(stv.entry),
                ),
            ]);
            assert(ex.plan() == plan1.skip(u1).skip(u2).drop_first());
        } else {
            assert(ex.ran() == base.push(
                uv_cmd_model(
                    joined(root@, "uv.exe"@),
                    projv,
                    joined(root@, ".runtime"@),
                    entry_run_args(stv.entry),
                ),
            ));
        }
    }
    match res {
        Ok(code) => {
            if code == 0 {
                Ok(())
            } else {
                Err(LibError::EntryFailed(code))
            }
        },
        Err(e) => Err(e),
    }
}

/// One normal run of the installed launcher.
pub fn run<E: Executor>(fs: &mut Fs, ex: &mut E, root: &str) -> (r: Result<(), LibError>)
    requires
        old(fs).inv(),
        old(ex).plan().len() >= 12,
    ensures
        final(fs).inv(),
        final(ex).spawned() == old(ex).spawned(),
        !old(fs).has_file(joined(root@, "updater.exe"@)) && !old(fs).has_file(
            joined(root@, "uv.exe"@),
        ) ==> (r matches Err(e) && e is MissingFile),
        old(fs).has_file(joined(root@, "updater.exe"@)) && old(ex).plan()[0] == Some(10i32) ==> r
            is Ok && *final(fs) == *old(fs) && final(ex).plan() == old(ex).plan().drop_first()
            && final(ex).ran() == old(ex).ran().push(plain_cmd(joined(root@, "updater.exe"@))),
        old(fs).has_file(joined(root@, "updater.exe"@)) && old(ex).plan()[0] is None ==> r
            == Result::<(), LibError>::Err(LibError::SpawnFailed) && *final(fs) == *old(fs),
        runner_continues(*old(fs), root@, old(ex).plan()) && !old(fs).has_file(
            joined(root@, "uv.exe"@),
        ) ==> (r matches Err(e) && e is MissingFile) && *final(fs) == *old(fs),
        runner_continues(*old(fs), root@, old(ex).plan()) && old(fs).has_file(
            joined(root@, "uv.exe"@),
        ) && !old(fs).has_file(state_path_spec(root@)) ==> r == Result::<(), LibError>::Err(
            LibError::StateNotFound,
        ) && files_same(*final(fs), *old(fs)),
        // the stored record and the plans decide the rest, exactly as
        // one pass of the run does
        runner_continues(*old(fs), root@, old(ex).plan()) && old(fs).has_file(
            joined(root@, "uv.exe"@),
        ) && old(fs).has_file(state_path_spec(root@)) ==> forall|c: Seq<char>|
            old(fs).file_data(state_path_spec(root@)) == utf8_of(c) ==> ({
                let plan1 = runner_plan_tail(*old(fs), root@, old(ex).plan());
                let base = runner_ran_base(*old(fs), root@, old(ex).ran());
                let uvp = joined(root@, "uv.exe"@);
                match crate::state::spec_parse_state(c) {
                    None => r == Result::<(), LibError>::Err(LibError::StateCorrupt) && files_same(
                        *final(fs),
                        *old(fs),
                    ),
                    Some(sv) => {
                        let proj = joined(root@, sv.project_rel);
                        let rt = joined(root@, ".runtime"@);
                        if !old(fs).has_file(joined(proj, "pyproject.toml"@)) {
                            r == Result::<(), LibError>::Err(LibError::NoProject) && files_same(
                                *final(fs),
                                *old(fs),
                            )
                        } else {
                            let lockp = joined(proj, "uv.lock"@);
                            let lm = if old(fs).has_file(lockp) {
                                old(fs).file_stamp(lockp)
                            } else {
                                0u64
                            };
                            let nb = !old(fs).has_file(joined(joined(rt, "venv"@), "pyvenv.cfg"@))
                                || (lm != 0 && lm != sv.lock_mtime_unix);
                            if !nb {
                                &&& r == launch_outcome(plan1)
                                &&& final(ex).plan() == plan1.drop_first()
                                &&& files_same(*final(fs), *old(fs))
                                &&& final(ex).ran() == base.push(
                                    uv_cmd_model(uvp, proj, rt, entry_run_args(sv.entry)),
                                )
                            } else {
                                forall|pin: Option<Seq<char>>|
                                    #[trigger] pin_matches(*old(fs), proj, pin) ==> ({
                                        let c1 = uv_cmd_model(
                                            uvp,
                                            proj,
                                            rt,
                                            bootstrap_install_args(pin),
                                        );
                                        let c2 = uv_cmd_model(
                                            uvp,
                                            proj,
                                            rt,
                                            sync_args(old(fs).has_file(lockp)),
                                        );
                                        let r1 = retry_spec(plan1, 5);
                                        let u1 = retry_used(plan1, 5);
                                        let plan2 = plan1.skip(u1);
                                        let r2 = retry_spec(plan2, 5);
                                        let u2 = retry_used(plan2, 5);
                                        let plan3 = plan2.skip(u2);
                                        &&& r == bootstrap_then_launch(plan1)
                                        &&& (r1 is Err ==> files_same(*final(fs), *old(fs))
                                            && final(ex).ran() == base + Seq::new(
                                            u1 as nat,
                                            |k: int| c1,
                                        ))
                                        &&& (r1 is Ok && r2 is Err ==> files_same(
                                            *final(fs),
                                            *old(fs),
                                        ) && final(ex).ran() == base + Seq::new(
                                            u1 as nat,
                                            |k: int| c1,
                                        ) + Seq::new(u2 as nat, |k: int| c2))
                                        &&& (r1 is Ok && r2 is Ok ==> {
                                            &&& r == launch_outcome(plan3)
                                            &&& final(ex).plan() == plan3.drop_first()
                                            &&& final(ex).ran() == base + Seq::new(
                                                u1 as nat,
                                                |k: int| c1,
                                            ) + Seq::new(u2 as nat, |k: int| c2) + seq![
                                                uv_cmd_model(
                                                    uvp,
                                                    proj,
                                                    rt,
                                                    entry_run_args(sv.entry),
                                                ),
                                            ]
                                            &&& final(fs).has_file(state_path_spec(root@))
                                            &&& final(fs).file_data(state_path_spec(root@))
                                                == utf8_of(
                                                crate::state::state_text(
                                                    (crate::state::StateView {
                                                        project_rel: sv.project_rel,
                                                        entry: sv.entry,
                                                        lock_mtime_unix: lm,
                                                        installed: sv.installed,
                                                        launcher_version: sv.launcher_version,
                                                    }),
                                                ),
                                            )
                                            &&& !final(fs).tree_used(joined(rt, "cache"@))
                                            &&& (forall|q: Seq<char>|
                                                q != state_path_spec(root@) && !in_tree(
                                                    joined(rt, "cache"@),
                                                    q,
                                                ) ==> final(fs).has_file(q) == old(fs).has_file(q)
                                                    && (old(fs).has_file(q)
                                                    ==> final(fs).file_data(q) == old(fs).file_data(q)))
                                        })
                                    })
                            }
                        }
                    },
                }
            }),
{
    run_with_executor(fs, ex, root)
}

} // verus!
