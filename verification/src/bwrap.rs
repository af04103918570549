//! Argument lists for the bubblewrap sandbox: read-only and read-write
//! binds, tmpfs mounts, and the agent workdir mounted at `/workdir`.

use crate::config::{expand_vec, expansion_outcomes, flatten, strs_view};
use vstd::prelude::*;

verus! {

/// Sandbox configuration: the bwrap binary, its base arguments, and the
/// mount stages applied in order.
#[derive(Debug)]
pub struct BwrapConfig {
    pub bin: String,
    pub args: Vec<String>,
    pub stages: Vec<Stage>,
}

/// One mount stage: paths bound read-only, read-write, and tmpfs mounts.
#[derive(Debug)]
pub struct Stage {
    pub ro: Vec<String>,
    pub rw: Vec<String>,
    pub tmpfs: Vec<String>,
}

/// A bwrap command line under construction.
#[derive(Debug)]
pub struct BwrapRunner {
    pub bwrap_bin: String,
    pub bwrap_args: Vec<String>,
}

/// Where the agent workdir is mounted inside the sandbox.
pub const WORKDIR_MOUNT_NAME: &'static str = "/workdir";

/// For each path: `flag`, the path, the path (a bind onto itself).
pub open spec fn binds(flag: Seq<char>, paths: Seq<Seq<char>>) -> Seq<Seq<char>>
    decreases paths.len(),
{
    if paths.len() == 0 {
        Seq::empty()
    } else {
        binds(flag, paths.drop_last()) + seq![flag, paths.last(), paths.last()]
    }
}

/// For each path: `--tmpfs`, the path.
pub open spec fn tmpfs_args(paths: Seq<Seq<char>>) -> Seq<Seq<char>>
    decreases paths.len(),
{
    if paths.len() == 0 {
        Seq::empty()
    } else {
        tmpfs_args(paths.drop_last()) + seq!["--tmpfs"@, paths.last()]
    }
}

/// Mount `workdir` at `/workdir` and start there.
pub open spec fn workdir_args(workdir: Seq<char>) -> Seq<Seq<char>> {
    seq!["--bind-try"@, workdir, "/workdir"@, "--chdir"@, "/workdir"@]
}

/// The arguments of one stage: its read-write binds, then read-only binds,
/// then tmpfs mounts.
pub open spec fn stage_args(rw: Seq<Seq<char>>, ro: Seq<Seq<char>>, tmpfs: Seq<Seq<char>>) -> Seq<Seq<char>> {
    binds("--bind-try"@, rw) + binds("--ro-bind-try"@, ro) + tmpfs_args(tmpfs)
}

/// The view of a stage's three lists.
pub open spec fn stage_view(s: Stage) -> (Seq<Seq<char>>, Seq<Seq<char>>, Seq<Seq<char>>) {
    (strs_view(s.rw@), strs_view(s.ro@), strs_view(s.tmpfs@))
}

/// The arguments of all stages, in order.
pub open spec fn stages_args(stages: Seq<(Seq<Seq<char>>, Seq<Seq<char>>, Seq<Seq<char>>)>) -> Seq<Seq<char>>
    decreases stages.len(),
{
    if stages.len() == 0 {
        Seq::empty()
    } else {
        stages_args(stages.drop_last()) + stage_args(stages.last().0, stages.last().1, stages.last().2)
    }
}

/// `e` is a possible shell expansion of `values`: the successful
/// expansions of some outcome per value.
pub open spec fn expansion_of(e: Seq<Seq<char>>, values: Seq<String>) -> bool {
    exists|o: Seq<Option<Seq<char>>>| expansion_outcomes(o, strs_view(values)) && e == flatten(o)
}

impl BwrapRunner {
    fn push_str(&mut self, s: &str)
        ensures
            final(self).bwrap_bin == old(self).bwrap_bin,
            strs_view(final(self).bwrap_args@) == strs_view(old(self).bwrap_args@).push(s@),
    {
        let ghost a0 = self.bwrap_args@;
        self.bwrap_args.push(String::from_str(s));
        proof {
            assert(strs_view(self.bwrap_args@) =~= strs_view(a0).push(s@));
        }
    }

    fn push_binds(self, flag: &str, args: Vec<String>) -> (r: Self)
        ensures
            r.bwrap_bin == self.bwrap_bin,
            strs_view(r.bwrap_args@) == strs_view(self.bwrap_args@) + binds(flag@, strs_view(args@)),
    {
        let mut this = self;
        let ghost a0 = strs_view(this.bwrap_args@);
        let ghost bin0 = this.bwrap_bin;
        let mut i: usize = 0;
        while i < args.len()
            invariant
                this.bwrap_bin == bin0,
                i <= args@.len(),
                strs_view(this.bwrap_args@) == a0 + binds(flag@, strs_view(args@).take(i as int)),
            decreases args@.len() - i,
        {
            this.push_str(flag);
            this.push_str(args[i].as_str());
            this.push_str(args[i].as_str());
            proof {
                let t = strs_view(args@).take(i + 1);
                assert(t.drop_last() =~= strs_view(args@).take(i as int));
                assert(t.last() == args@[i as int]@);
                assert(strs_view(this.bwrap_args@) =~= a0 + binds(flag@, t));
            }
            i = i + 1;
        }
        proof {
            assert(strs_view(args@).take(i as int) =~= strs_view(args@));
        }
        this
    }

    /// Binds each path read-only onto itself (`--ro-bind-try p p`).
    pub fn ro(self, args: Vec<String>) -> (r: Self)
        ensures
            r.bwrap_bin == self.bwrap_bin,
            strs_view(r.bwrap_args@) == strs_view(self.bwrap_args@) + binds("--ro-bind-try"@, strs_view(args@)),
    {
        self.push_binds("--ro-bind-try", args)
    }

    /// Binds each path read-write onto itself (`--bind-try p p`).
    pub fn rw(self, args: Vec<String>) -> (r: Self)
        ensures
            r.bwrap_bin == self.bwrap_bin,
            strs_view(r.bwrap_args@) == strs_view(self.bwrap_args@) + binds("--bind-try"@, strs_view(args@)),
    {
        self.push_binds("--bind-try", args)
    }

    /// Mounts the workdir read-write at `/workdir` and starts there.
    pub fn workdir(self, workdir: &str) -> (r: Self)
        ensures
            r.bwrap_bin == self.bwrap_bin,
            strs_view(r.bwrap_args@) == strs_view(self.bwrap_args@) + workdir_args(workdir@),
    {
        let mut this = self;
        let ghost a0 = strs_view(this.bwrap_args@);
        this.push_str("--bind-try");
        this.push_str(workdir);
        this.push_str(WORKDIR_MOUNT_NAME);
        this.push_str("--chdir");
        this.push_str(WORKDIR_MOUNT_NAME);
        proof {
            reveal_strlit("/workdir");
            assert(strs_view(this.bwrap_args@) =~= a0 + workdir_args(workdir@));
        }
        this
    }

    /// Mounts a tmpfs at each path (`--tmpfs p`).
    pub fn tmpfs(self, args: Vec<String>) -> (r: Self)
        ensures
            r.bwrap_bin == self.bwrap_bin,
            strs_view(r.bwrap_args@) == strs_view(self.bwrap_args@) + tmpfs_args(strs_view(args@)),
    {
        let mut this = self;
        let ghost a0 = strs_view(this.bwrap_args@);
        let ghost bin0 = this.bwrap_bin;
        let mut i: usize = 0;
        while i < args.len()
            invariant
                this.bwrap_bin == bin0,
                i <= args@.len(),
                strs_view(this.bwrap_args@) == a0 + tmpfs_args(strs_view(args@).take(i as int)),
            decreases args@.len() - i,
        {
            this.push_str("--tmpfs");
            this.push_str(args[i].as_str());
            proof {
                let t = strs_view(args@).take(i + 1);
                assert(t.drop_last() =~= strs_view(args@).take(i as int));
                assert(t.last() == args@[i as int]@);
                assert(strs_view(this.bwrap_args@) =~= a0 + tmpfs_args(t));
            }
            i = i + 1;
        }
        proof {
            assert(strs_view(args@).take(i as int) =~= strs_view(args@));
        }
        this
    }

    /// The sandbox command line from already-expanded stages: the base
    /// arguments, each stage (read-write, read-only, tmpfs), the workdir at
    /// `/workdir`, and the git dir bound read-write.
    pub fn assemble(bin: String, args: Vec<String>, stages: Vec<Stage>, cwd: &str, gitdir: &str) -> (r: Self)
        ensures
            r.bwrap_bin@ == bin@,
            strs_view(r.bwrap_args@) == strs_view(args@)
                + stages_args(stages@.map_values(|s: Stage| stage_view(s)))
                + workdir_args(cwd@)
                + binds("--bind-try"@, seq![gitdir@]),
    {
        let ghost sv = stages@.map_values(|s: Stage| stage_view(s));
        let ghost a0 = strs_view(args@);
        let mut runner = BwrapRunner { bwrap_bin: bin, bwrap_args: args };
        let mut rest = stages;
        let ghost mut done: Seq<Stage> = Seq::empty();
        while rest.len() > 0
            invariant
                runner.bwrap_bin@ == bin@,
                done + rest@ == stages@,
                strs_view(runner.bwrap_args@) == a0 + stages_args(done.map_values(|s: Stage| stage_view(s))),
            decreases rest@.len(),
        {
            let stage = rest.remove(0);
            let ghost d0 = done;
            let Stage { ro, rw, tmpfs } = stage;
            runner = runner.rw(rw).ro(ro).tmpfs(tmpfs);
            proof {
                done = d0.push(stage);
                assert(done.map_values(|s: Stage| stage_view(s)).drop_last() =~= d0.map_values(|s: Stage| stage_view(s)));
                assert(d0.push(stage) + rest@ =~= stages@);
            }
        }
        proof {
            assert(done =~= stages@);
        }
        let mut gd: Vec<String> = Vec::new();
        gd.push(String::from_str(gitdir));
        let r = runner.workdir(cwd).rw(gd);
        proof {
            assert(strs_view(gd@) =~= seq![gitdir@]);
        }
        r
    }

    /// The sandbox command line for an agent: each configured stage's paths
    /// are shell-expanded (paths whose expansion fails are dropped), then
    /// assembled as in [`BwrapRunner::assemble`].
    pub fn new(config: &BwrapConfig, cwd: &str, gitdir: &str) -> (r: Self)
        ensures
            r.bwrap_bin@ == config.bin@,
            exists|expanded: Seq<(Seq<Seq<char>>, Seq<Seq<char>>, Seq<Seq<char>>)>| {
                &&& expanded.len() == config.stages@.len()
                &&& forall|i: int| 0 <= i < expanded.len() ==> {
                    &&& expansion_of(#[trigger] expanded[i].0, config.stages@[i].rw@)
                    &&& expansion_of(expanded[i].1, config.stages@[i].ro@)
                    &&& expansion_of(expanded[i].2, config.stages@[i].tmpfs@)
                }
                &&& strs_view(r.bwrap_args@) == strs_view(config.args@) + stages_args(expanded)
                    + workdir_args(cwd@) + binds("--bind-try"@, seq![gitdir@])
            },
    {
        let mut stages: Vec<Stage> = Vec::new();
        let mut i: usize = 0;
        while i < config.stages.len()
            invariant
                i <= config.stages@.len(),
                stages@.len() == i,
                forall|j: int| 0 <= j < i ==> {
                    &&& expansion_of(#[trigger] stage_view(stages@[j]).0, config.stages@[j].rw@)
                    &&& expansion_of(stage_view(stages@[j]).1, config.stages@[j].ro@)
                    &&& expansion_of(stage_view(stages@[j]).2, config.stages@[j].tmpfs@)
                },
            decreases config.stages@.len() - i,
        {
            let rw = expand_vec(&config.stages[i].rw);
            let ro = expand_vec(&config.stages[i].ro);
            let tmpfs = expand_vec(&config.stages[i].tmpfs);
            stages.push(Stage { ro, rw, tmpfs });
            i = i + 1;
        }
        let ghost expanded = stages@.map_values(|s: Stage| stage_view(s));
        let args = clone_strs(&config.args);
        BwrapRunner::assemble(config.bin.clone(), args, stages, cwd, gitdir)
    }
}

impl BwrapRunner {
    /// The full argument list of a sandboxed run of `script`: the sandbox
    /// arguments, then the shell command, then the script.
    pub fn command_args(&self, shell_cmd: &Vec<String>, script: &str) -> (r: Vec<String>)
        ensures
            strs_view(r@) == strs_view(self.bwrap_args@) + strs_view(shell_cmd@) + seq![script@],
    {
        let mut r = clone_strs(&self.bwrap_args);
        let mut tail = clone_strs(shell_cmd);
        let ghost r0 = r@;
        let ghost t0 = tail@;
        r.append(&mut tail);
        let ghost r1 = r@;
        r.push(String::from_str(script));
        proof {
            assert(r1 == r0 + t0);
            assert(strs_view(r1) =~= strs_view(r0) + strs_view(t0));
            assert(strs_view(r@) =~= strs_view(r1).push(script@));
        }
        r
    }
}

/// Copies of `v`.
pub fn clone_strs(v: &Vec<String>) -> (r: Vec<String>)
    ensures
        strs_view(r@) == strs_view(v@),
{
    let mut r: Vec<String> = Vec::new();
    let mut i: usize = 0;
    while i < v.len()
        invariant
            i <= v@.len(),
            strs_view(r@) == strs_view(v@).take(i as int),
        decreases v@.len() - i,
    {
        let ghost r0 = r@;
        r.push(v[i].clone());
        proof {
            assert(strs_view(r@) =~= strs_view(r0).push(v@[i as int]@));
            assert(strs_view(v@).take(i + 1) =~= strs_view(v@).take(i as int).push(v@[i as int]@));
        }
        i = i + 1;
    }
    proof {
        assert(strs_view(v@).take(i as int) =~= strs_view(v@));
    }
    r
}

} // verus!
