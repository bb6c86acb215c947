//! Ports to the outside world: running external commands, starting
//! detached processes, and fetching over the network.
//!
//! Each port carries a ghost plan of the outcomes its next invocations
//! will yield, so that callers are verified for every possible
//! sequence of outcomes. The scripted implementations replay a fixed
//! plan and record what was asked of them; the production
//! implementations live outside the verified library.

use vstd::prelude::*;
use vstd::string::*;
use crate::errors::LibError;

verus! {

/// A fully described external command.
#[derive(Clone)]
pub struct CmdSpec {
    pub program: String,
    pub args: Vec<String>,
    pub current_dir: Option<String>,
    pub envs: Vec<(String, String)>,
}

impl CmdSpec {
    /// A command with no arguments, directory or environment.
    pub fn new(program: &str) -> (r: CmdSpec)
        ensures
            r.program@ == program@,
            r.args@.len() == 0,
            r.current_dir is None,
            r.envs@.len() == 0,
    {
        CmdSpec { program: program.to_owned(), args: Vec::new(), current_dir: None, envs: Vec::new() }
    }

    /// Appends one argument.
    pub fn arg(&mut self, a: &str)
        ensures
            final(self).program == old(self).program,
            final(self).current_dir == old(self).current_dir,
            final(self).envs == old(self).envs,
            final(self).args@.len() == old(self).args@.len() + 1,
            final(self).args@.last()@ == a@,
            forall|k: int|
                0 <= k < old(self).args@.len() ==> final(self).args@[k] == old(self).args@[k],
    {
        self.args.push(a.to_owned());
    }
}

/// The mathematical image of a command: what program is asked to run,
/// with which arguments, working directory and environment.
pub ghost struct CmdModel {
    pub program: Seq<char>,
    pub args: Seq<Seq<char>>,
    pub cwd: Option<Seq<char>>,
    pub envs: Seq<(Seq<char>, Seq<char>)>,
}

/// The image of a described command.
pub open spec fn cmd_model(c: CmdSpec) -> CmdModel {
    CmdModel {
        program: c.program@,
        args: c.args@.map_values(|s: String| s@),
        cwd: match c.current_dir {
            Some(d) => Some(d@),
            None => None,
        },
        envs: c.envs@.map_values(|p: (String, String)| (p.0@, p.1@)),
    }
}

/// The image of a bare command: a program alone.
pub open spec fn plain_cmd(program: Seq<char>) -> CmdModel {
    CmdModel { program: program, args: Seq::empty(), cwd: None, envs: Seq::empty() }
}

/// Runs external commands.
pub trait Executor {
    /// The exit statuses the next runs will observe; `None` stands for
    /// a failure to start the process at all. The default is a long
    /// plan of unknown outcomes, so a production implementation that
    /// keeps it meets every plan-length precondition while nothing
    /// concrete can be concluded about its runs.
    open spec fn plan(&self) -> Seq<Option<i32>> {
        Seq::new(0xffff_ffff_ffff_ffff, |i: int| vstd::pervasive::arbitrary())
    }

    /// The outcomes of the next detached spawns; the default is a long
    /// plan of unknown outcomes.
    open spec fn spawn_plan(&self) -> Seq<bool> {
        Seq::new(0xffff_ffff_ffff_ffff, |i: int| vstd::pervasive::arbitrary())
    }

    /// The commands handed over to run to completion so far, oldest
    /// first.
    open spec fn ran(&self) -> Seq<CmdModel> {
        Seq::empty()
    }

    /// The commands started detached so far, oldest first.
    open spec fn spawned(&self) -> Seq<CmdModel> {
        Seq::empty()
    }

    /// Runs `cmd` to completion and yields its exit status.
    fn exec(&mut self, cmd: &CmdSpec) -> (r: Result<i32, LibError>)
        ensures
            final(self).ran() == old(self).ran().push(cmd_model(*cmd)),
            final(self).spawned() == old(self).spawned(),
            old(self).plan().len() > 0 ==> {
                &&& final(self).plan() == old(self).plan().drop_first()
                &&& final(self).spawn_plan() == old(self).spawn_plan()
                &&& (match old(self).plan()[0] {
                    Some(c) => r == Result::<i32, LibError>::Ok(c),
                    None => r == Result::<i32, LibError>::Err(LibError::SpawnFailed),
                })
            },
    ;

    /// Starts `cmd` detached, without waiting.
    fn spawn(&mut self, cmd: &CmdSpec) -> (r: Result<(), LibError>)
        ensures
            final(self).spawned() == old(self).spawned().push(cmd_model(*cmd)),
            final(self).ran() == old(self).ran(),
            old(self).spawn_plan().len() > 0 ==> {
                &&& final(self).spawn_plan() == old(self).spawn_plan().drop_first()
                &&& final(self).plan() == old(self).plan()
                &&& (if old(self).spawn_plan()[0] {
                    r is Ok
                } else {
                    r == Result::<(), LibError>::Err(LibError::SpawnFailed)
                })
            },
    ;
}

/// Fetches bytes over the network.
pub trait Fetcher {
    /// The bodies the next fetches will yield; `None` stands for a
    /// transport error or non-success status; the default is a long
    /// plan of unknown outcomes.
    open spec fn fetch_plan(&self) -> Seq<Option<Seq<u8>>> {
        Seq::new(0xffff_ffff_ffff_ffff, |i: int| vstd::pervasive::arbitrary())
    }

    /// Fetches the resource at `url`.
    fn fetch(&mut self, url: &str) -> (r: Result<Vec<u8>, LibError>)
        ensures
            old(self).fetch_plan().len() > 0 ==> {
                &&& final(self).fetch_plan() == old(self).fetch_plan().drop_first()
                &&& (match old(self).fetch_plan()[0] {
                    Some(body) => r matches Ok(b) && b@ == body,
                    None => r == Result::<Vec<u8>, LibError>::Err(LibError::FetchFailed),
                })
            },
    ;
}

/// An executor that replays a fixed plan and records every command.
pub struct ScriptedExecutor {
    pub statuses: Vec<Option<i32>>,
    pub spawns: Vec<bool>,
    pub ran: Vec<CmdSpec>,
    pub spawned: Vec<CmdSpec>,
    pub ran_trace: Ghost<Seq<CmdModel>>,
    pub spawned_trace: Ghost<Seq<CmdModel>>,
}

impl ScriptedExecutor {
    pub fn new(statuses: Vec<Option<i32>>, spawns: Vec<bool>) -> (r: ScriptedExecutor)
        ensures
            r.plan() == statuses@,
            r.spawn_plan() == spawns@,
            r.ran() == Seq::<CmdModel>::empty(),
            r.spawned() == Seq::<CmdModel>::empty(),
    {
        ScriptedExecutor {
            statuses,
            spawns,
            ran: Vec::new(),
            spawned: Vec::new(),
            ran_trace: Ghost(Seq::empty()),
            spawned_trace: Ghost(Seq::empty()),
        }
    }
}

impl Executor for ScriptedExecutor {
    open spec fn plan(&self) -> Seq<Option<i32>> {
        self.statuses@
    }

    open spec fn spawn_plan(&self) -> Seq<bool> {
        self.spawns@
    }

    open spec fn ran(&self) -> Seq<CmdModel> {
        self.ran_trace@
    }

    open spec fn spawned(&self) -> Seq<CmdModel> {
        self.spawned_trace@
    }

    fn exec(&mut self, cmd: &CmdSpec) -> (r: Result<i32, LibError>) {
        self.ran.push(cmd.clone());
        self.ran_trace = Ghost(self.ran_trace@.push(cmd_model(*cmd)));
        if self.statuses.len() == 0 {
            return Err(LibError::SpawnFailed);
        }
        let ghost pre = self.statuses@;
        let head = self.statuses.remove(0);
        proof {
            pre.remove_ensures(0);
            assert(self.statuses@ =~= pre.drop_first());
        }
        match head {
            Some(c) => Ok(c),
            None => Err(LibError::SpawnFailed),
        }
    }

    fn spawn(&mut self, cmd: &CmdSpec) -> (r: Result<(), LibError>) {
        self.spawned.push(cmd.clone());
        self.spawned_trace = Ghost(self.spawned_trace@.push(cmd_model(*cmd)));
        if self.spawns.len() == 0 {
            return Err(LibError::SpawnFailed);
        }
        let ghost pre = self.spawns@;
        let head = self.spawns.remove(0);
        proof {
            pre.remove_ensures(0);
            assert(self.spawns@ =~= pre.drop_first());
        }
        if head {
            Ok(())
        } else {
            Err(LibError::SpawnFailed)
        }
    }
}

/// A fetcher that replays a fixed plan and records every request.
pub struct ScriptedFetcher {
    pub bodies: Vec<Option<Vec<u8>>>,
    pub requested: Vec<String>,
}

impl ScriptedFetcher {
    pub fn new(bodies: Vec<Option<Vec<u8>>>) -> (r: ScriptedFetcher)
        ensures
            r.fetch_plan() == bodies@.map_values(
                |b: Option<Vec<u8>>|
                    match b {
                        Some(v) => Some(v@),
                        None => None,
                    },
            ),
    {
        ScriptedFetcher { bodies, requested: Vec::new() }
    }
}

impl Fetcher for ScriptedFetcher {
    open spec fn fetch_plan(&self) -> Seq<Option<Seq<u8>>> {
        self.bodies@.map_values(
            |b: Option<Vec<u8>>|
                match b {
                    Some(v) => Some(v@),
                    None => None,
                },
        )
    }

    fn fetch(&mut self, url: &str) -> (r: Result<Vec<u8>, LibError>) {
        self.requested.push(url.to_owned());
        if self.bodies.len() == 0 {
            return Err(LibError::FetchFailed);
        }
        let ghost pre = self.bodies@;
        let head = self.bodies.remove(0);
        proof {
            pre.remove_ensures(0);
            assert(self.bodies@ =~= pre.drop_first());
            assert(self.fetch_plan() =~= old(self).fetch_plan().drop_first());
        }
        match head {
            Some(v) => Ok(v),
            None => Err(LibError::FetchFailed),
        }
    }
}

/// What a bounded retry of an external command yields, given the
/// planned exit statuses: the first success within the budget wins, a
/// spawn failure aborts, and exhaustion reports the last exit code.
pub open spec fn retry_spec(plan: Seq<Option<i32>>, attempts: int) -> Result<(), LibError>
    decreases attempts,
{
    if attempts <= 0 {
        Ok(())
    } else {
        match plan[0] {
            None => Err(LibError::SpawnFailed),
            Some(c) => if c == 0 {
                Ok(())
            } else if attempts == 1 {
                Err(LibError::ToolFailed(c))
            } else {
                retry_spec(plan.drop_first(), attempts - 1)
            },
        }
    }
}

/// How many runs the bounded retry consumes.
pub open spec fn retry_used(plan: Seq<Option<i32>>, attempts: int) -> int
    decreases attempts,
{
    if attempts <= 0 {
        0
    } else {
        match plan[0] {
            None => 1,
            Some(c) => if c == 0 || attempts == 1 {
                1
            } else {
                1 + retry_used(plan.drop_first(), attempts - 1)
            },
        }
    }
}

/// A bounded retry only ever fails as a spawn failure or with the
/// last exit code.
pub proof fn lemma_retry_spec_errors(plan: Seq<Option<i32>>, attempts: int)
    ensures
        retry_spec(plan, attempts) matches Err(e) ==> e is SpawnFailed || e is ToolFailed,
    decreases attempts,
{
    if attempts > 0 {
        lemma_retry_spec_errors(plan.drop_first(), attempts - 1);
    }
}

pub proof fn lemma_retry_used_bounds(plan: Seq<Option<i32>>, attempts: int)
    ensures
        0 <= retry_used(plan, attempts) <= attempts || (attempts <= 0 && retry_used(plan, attempts)
            == 0),
    decreases attempts,
{
    if attempts > 0 {
        lemma_retry_used_bounds(plan.drop_first(), attempts - 1);
    }
}

/// Runs `cmd` up to `attempts` times, stopping at the first success;
/// a failure to start is not retried, and exhaustion is fatal with the
/// last exit code.
pub fn run_with_retry<E: Executor>(ex: &mut E, cmd: &CmdSpec, attempts: usize) -> (r: Result<
    (),
    LibError,
>)
    requires
        old(ex).plan().len() >= attempts,
    ensures
        r == retry_spec(old(ex).plan(), attempts as int),
        final(ex).plan() == old(ex).plan().skip(retry_used(old(ex).plan(), attempts as int)),
        final(ex).spawn_plan() == old(ex).spawn_plan(),
        // every run asked for is this very command, once per attempt
        final(ex).ran() == old(ex).ran() + Seq::new(
            retry_used(old(ex).plan(), attempts as int) as nat,
            |k: int| cmd_model(*cmd),
        ),
        final(ex).spawned() == old(ex).spawned(),
    decreases attempts,
{
    if attempts == 0 {
        proof {
            assert(old(ex).plan().skip(0) =~= old(ex).plan());
            assert(old(ex).ran() + Seq::new(0, |k: int| cmd_model(*cmd)) =~= old(ex).ran());
        }
        return Ok(());
    }
    let st = ex.exec(cmd);
    proof {
        assert(old(ex).plan().drop_first() =~= old(ex).plan().skip(1));
        assert(old(ex).ran() + Seq::new(1, |k: int| cmd_model(*cmd)) =~= old(ex).ran().push(
            cmd_model(*cmd),
        ));
    }
    match st {
        Err(_) => Err(LibError::SpawnFailed),
        Ok(c) => {
            if c == 0 {
                Ok(())
            } else if attempts == 1 {
                Err(LibError::ToolFailed(c))
            } else {
                let r = run_with_retry(ex, cmd, attempts - 1);
                proof {
                    lemma_retry_used_bounds(old(ex).plan().drop_first(), attempts - 1);
                    assert(old(ex).plan().skip(1).skip(
                        retry_used(old(ex).plan().drop_first(), attempts - 1),
                    ) =~= old(ex).plan().skip(
                        1 + retry_used(old(ex).plan().drop_first(), attempts - 1),
                    ));
                    assert(old(ex).ran().push(cmd_model(*cmd)) + Seq::new(
                        retry_used(old(ex).plan().drop_first(), attempts - 1) as nat,
                        |k: int| cmd_model(*cmd),
                    ) =~= old(ex).ran() + Seq::new(
                        (1 + retry_used(old(ex).plan().drop_first(), attempts - 1)) as nat,
                        |k: int| cmd_model(*cmd),
                    ));
                }
                r
            }
        },
    }
}

} // verus!
