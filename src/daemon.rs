use vstd::prelude::*;
use vstd::string::{StrSliceExecFns, StringExecFns};

verus! {

/// `name` joined under the directory `dir`, with one `/` between them.
pub open spec fn join_path(dir: Seq<char>, name: Seq<char>) -> Seq<char> {
    if dir.len() == 0 {
        name
    } else if dir.last() == '/' {
        dir + name
    } else {
        dir + seq!['/'] + name
    }
}

/// `chosen` where it is set, else `name` under `runtime_dir`.
pub open spec fn path_or_default(chosen: Option<String>, runtime_dir: Seq<char>, name: Seq<char>) -> Seq<char> {
    match chosen {
        Some(p) => p@,
        None => join_path(runtime_dir, name),
    }
}

/// Where the daemon keeps its pid file and its output streams. A path that
/// is not set falls back to a file in the runtime directory.
pub struct DaemonOptions {
    pub pid_file: Option<String>,
    pub stdout: Option<String>,
    pub stderr: Option<String>,
}

impl Default for DaemonOptions {
    /// No path set: each one falls back to the runtime directory.
    fn default() -> (r: Self)
        ensures
            r.pid_file is None,
            r.stdout is None,
            r.stderr is None,
    {
        DaemonOptions { pid_file: None, stdout: None, stderr: None }
    }
}

/// Joins `name` under the directory `dir`.
pub fn join_path_exec(dir: &str, name: &str) -> (r: String)
    ensures
        r@ == join_path(dir@, name@),
{
    let n = dir.unicode_len();
    if n == 0 {
        String::from_str(name)
    } else if dir.get_char(n - 1) == '/' {
        let mut r = String::from_str(dir);
        r.append(name);
        r
    } else {
        let mut r = String::from_str(dir);
        r.append("/");
        r.append(name);
        proof {
            reveal_strlit("/");
            assert(r@ =~= dir@ + seq!['/'] + name@);
        }
        r
    }
}

fn chosen_or_default(chosen: &Option<String>, runtime_dir: &str, name: &str) -> (r: String)
    ensures
        r@ == path_or_default(*chosen, runtime_dir@, name@),
{
    match chosen {
        Some(p) => p.clone(),
        None => join_path_exec(runtime_dir, name),
    }
}

impl DaemonOptions {
    /// The pid file: the one configured, else `pid` in `runtime_dir`.
    pub fn pid_file(&self, runtime_dir: &str) -> (r: String)
        ensures
            r@ == path_or_default(self.pid_file, runtime_dir@, "pid"@),
    {
        chosen_or_default(&self.pid_file, runtime_dir, "pid")
    }

    /// The stdout log: the one configured, else `log` in `runtime_dir`.
    pub fn stdout(&self, runtime_dir: &str) -> (r: String)
        ensures
            r@ == path_or_default(self.stdout, runtime_dir@, "log"@),
    {
        chosen_or_default(&self.stdout, runtime_dir, "log")
    }

    /// The stderr log: the one configured, else `log` in `runtime_dir`.
    pub fn stderr(&self, runtime_dir: &str) -> (r: String)
        ensures
            r@ == path_or_default(self.stderr, runtime_dir@, "log"@),
    {
        chosen_or_default(&self.stderr, runtime_dir, "log")
    }
}

} // verus!
