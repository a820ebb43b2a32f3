//! Background applications: desktop applications that run without an open
//! window, found among the user's processes.
//!
//! The process table, the compositor's windows and the canonical command
//! paths of the catalog are read by the caller; this module decides which
//! process belongs to which application and which processes a quit request
//! may signal.

use vstd::prelude::*;
use vstd::string::*;
use crate::text::{eq_ignore_ascii_case, first_where, opt_view, strip_once};

verus! {

/// A process, told apart from a later process with a reused id by its
/// start time.
#[derive(Clone, Copy, Debug, PartialEq, Eq, Hash, Structural)]
pub struct ProcessIdentity {
    pub pid: u32,
    pub start_time: u64,
}

/// A process of the user, as far as recognition needs it.
#[derive(Clone, Debug)]
pub struct ProcessInfo {
    pub identity: ProcessIdentity,
    pub parent: u32,
    /// The canonical path of its executable.
    pub executable: String,
    /// The desktop file it was verifiably launched from.
    pub desktop_id: Option<String>,
    /// Its Flatpak application id.
    pub flatpak_id: Option<String>,
}

/// A window of the compositor with its process and application id.
#[derive(Clone, Debug)]
pub struct WindowProcess {
    pub pid: Option<u32>,
    pub app_id: Option<String>,
}

/// What identifies a catalog application's processes and windows.
#[derive(Clone, Debug)]
pub struct AppIdentity {
    pub id: String,
    pub name: String,
    pub icon: String,
    pub startup_wm_class: String,
    /// Whether it runs in a terminal (such applications are never
    /// recognized).
    pub terminal: bool,
    /// The canonical path of the program its command line starts, when
    /// that program identifies it.
    pub command_path: Option<String>,
}

/// A background application and the root processes a quit request
/// signals, by process id.
#[derive(Clone, Debug, PartialEq, Eq)]
pub struct BackgroundApp {
    pub desktop_id: String,
    pub name: String,
    pub icon: String,
    pub targets: Vec<ProcessIdentity>,
}

/// The position of the process with an id.
pub open spec fn process_index(procs: Seq<ProcessInfo>, pid: u32) -> Option<int> {
    first_where(procs, |p: ProcessInfo| p.identity.pid == pid)
}

/// The parent of the process with an id, if the process is known.
pub open spec fn parent_of(procs: Seq<ProcessInfo>, pid: u32) -> Option<u32> {
    match process_index(procs, pid) {
        Some(i) => Some(procs[i].parent),
        None => None,
    }
}

/// The `k`-th ancestor of a process (itself for 0), while the chain
/// stays among known processes.
pub open spec fn chain(procs: Seq<ProcessInfo>, pid: u32, k: nat) -> Option<u32>
    decreases k,
{
    if k == 0 {
        Some(pid)
    } else {
        match chain(procs, pid, (k - 1) as nat) {
            Some(q) => parent_of(procs, q),
            None => None,
        }
    }
}

/// Whether `root` is the process itself or one of its known ancestors.
pub open spec fn descends(procs: Seq<ProcessInfo>, pid: u32, root: u32) -> bool {
    exists|k: nat| #[trigger] chain(procs, pid, k) == Some(root)
}

proof fn lemma_chain_shift(procs: Seq<ProcessInfo>, pid: u32, a: nat, b: nat, m: nat)
    requires
        chain(procs, pid, a) == chain(procs, pid, b),
    ensures
        chain(procs, pid, a + m) == chain(procs, pid, b + m),
    decreases m,
{
    if m > 0 {
        lemma_chain_shift(procs, pid, a, b, (m - 1) as nat);
        assert(chain(procs, pid, a + m) == match chain(procs, pid, (a + m - 1) as nat) {
            Some(q) => parent_of(procs, q),
            None => None,
        });
        assert(chain(procs, pid, b + m) == match chain(procs, pid, (b + m - 1) as nat) {
            Some(q) => parent_of(procs, q),
            None => None,
        });
    }
}

proof fn lemma_chain_stops(procs: Seq<ProcessInfo>, pid: u32, a: nat, k: nat)
    requires
        chain(procs, pid, a) is None,
        a <= k,
    ensures
        chain(procs, pid, k) is None,
    decreases k - a,
{
    if a < k {
        lemma_chain_stops(procs, pid, a, (k - 1) as nat);
    }
}

proof fn lemma_chain_repeats(procs: Seq<ProcessInfo>, pid: u32, j0: nat, steps: nat, k: nat)
    requires
        j0 < steps,
        chain(procs, pid, j0) == chain(procs, pid, steps),
    ensures
        exists|j: nat| j < steps && #[trigger] chain(procs, pid, j) == chain(procs, pid, k),
    decreases k,
{
    if k < steps {
        assert(chain(procs, pid, k) == chain(procs, pid, k));
    } else {
        let m = (k - steps) as nat;
        lemma_chain_shift(procs, pid, j0, steps, m);
        assert(j0 + m < k);
        lemma_chain_repeats(procs, pid, j0, steps, (j0 + m) as nat);
    }
}

proof fn lemma_distinct_bound(seen: Seq<u32>, pids: Seq<u32>)
    requires
        seen.no_duplicates(),
        forall|i: int| 0 <= i < seen.len() ==> pids.contains(#[trigger] seen[i]),
    ensures
        seen.len() <= pids.len(),
{
    broadcast use vstd::seq_lib::seq_to_set_is_finite;

    seen.unique_seq_to_set();
    pids.lemma_cardinality_of_set();
    assert(seen.to_set().subset_of(pids.to_set()));
    vstd::set_lib::lemma_len_subset(seen.to_set(), pids.to_set());
}

/// The process ids of the table.
pub open spec fn pids_of(procs: Seq<ProcessInfo>) -> Seq<u32> {
    procs.map_values(|p: ProcessInfo| p.identity.pid)
}

fn find_process(procs: &Vec<ProcessInfo>, pid: u32) -> (r: Option<usize>)
    ensures
        match r {
            Some(i) => process_index(procs@, pid) == Some(i as int) && i < procs@.len(),
            None => process_index(procs@, pid) is None,
        },
{
    let ghost p = |q: ProcessInfo| q.identity.pid == pid;
    let mut i: usize = 0;
    while i < procs.len()
        invariant
            p == (|q: ProcessInfo| q.identity.pid == pid),
            i <= procs@.len(),
            forall|k: int| 0 <= k < i ==> !p(#[trigger] procs@[k]),
        decreases procs@.len() - i,
    {
        if procs[i].identity.pid == pid {
            proof {
                crate::text::lemma_first_where(procs@, p, i as int);
            }
            return Some(i);
        }
        i += 1;
    }
    proof {
        crate::text::lemma_first_where(procs@, p, i as int);
    }
    None
}

/// Whether `root` is the process `pid` itself or one of its ancestors;
/// the walk up the parents stops at an unknown process or a cycle.
pub fn has_ancestor(pid: u32, root: u32, processes: &Vec<ProcessInfo>) -> (r: bool)
    ensures
        r == descends(processes@, pid, root),
{
    let ghost procs = processes@;
    let mut current = pid;
    let mut seen: Vec<u32> = Vec::new();
    let ghost mut steps: nat = 0;
    loop
        invariant
            procs == processes@,
            steps == seen@.len(),
            chain(procs, pid, steps) == Some(current),
            seen@.no_duplicates(),
            forall|j: int|
                0 <= j < steps ==> chain(procs, pid, j as nat) == Some(#[trigger] seen@[j]),
            forall|j: int| 0 <= j < steps ==> #[trigger] seen@[j] != root,
            forall|j: int| 0 <= j < steps ==> pids_of(procs).contains(#[trigger] seen@[j]),
        decreases procs.len() - seen@.len(),
    {
        let mut repeated = false;
        let mut j: usize = 0;
        while j < seen.len()
            invariant
                j <= seen@.len(),
                !repeated ==> forall|q: int| 0 <= q < j ==> seen@[q] != current,
                repeated ==> exists|q: int| 0 <= q < seen@.len() && seen@[q] == current,
            decreases seen@.len() - j,
        {
            if seen[j] == current {
                repeated = true;
            }
            j += 1;
        }
        if repeated {
            proof {
                let q = choose|q: int| 0 <= q < seen@.len() && seen@[q] == current;
                assert(chain(procs, pid, q as nat) == Some(seen@[q]));
                assert forall|k: nat| #[trigger] chain(procs, pid, k) != Some(root) by {
                    lemma_chain_repeats(procs, pid, q as nat, steps, k);
                    let w = choose|w: nat| w < steps && #[trigger] chain(procs, pid, w) == chain(
                        procs,
                        pid,
                        k,
                    );
                    assert(seen@[w as int] != root);
                }
            }
            return false;
        }
        if current == root {
            return true;
        }
        let ghost before = seen@;
        seen.push(current);
        let found = find_process(processes, current);
        match found {
            None => {
                proof {
                    assert(chain(procs, pid, steps + 1) is None);
                    assert forall|k: nat| #[trigger] chain(procs, pid, k) != Some(root) by {
                        if k > steps {
                            lemma_chain_stops(procs, pid, steps + 1, k);
                        } else if k < steps {
                            assert(seen@[k as int] == before[k as int]);
                        }
                    }
                }
                return false;
            },
            Some(i) => {
                proof {
                    crate::text::lemma_first_where_found(
                        procs,
                        |q: ProcessInfo| q.identity.pid == current,
                    );
                    assert(pids_of(procs)[i as int] == current);
                    assert forall|a: int, b: int| 0 <= a < b < seen@.len() implies seen@[a]
                        != seen@[b] by {
                        if b == before.len() {
                            assert(seen@[a] == before[a]);
                        }
                    }
                    lemma_distinct_bound(seen@, pids_of(procs));
                }
                current = processes[i].parent;
                proof {
                    steps = steps + 1;
                }
            },
        }
    }
}

/// The state and start time in a `/proc/<pid>/stat` line: the fields after
/// the last ") " (which ends the command name); none for a zombie or dead
/// process or a line without them.
pub open spec fn stat_spec(stat: Seq<char>) -> Option<(u32, u64)> {
    match crate::text::last_occurrence(stat, ") "@, stat.len() - 2) {
        None => None,
        Some(i) => {
            let fields = crate::text::words(stat.skip(i + 2));
            if fields.len() > 0 && (fields[0] == "Z"@ || fields[0] == "X"@) {
                None
            } else if fields.len() > 19 {
                match (
                    crate::text::parsed_unsigned(fields[1], u32::MAX as nat),
                    crate::text::parsed_unsigned(fields[19], u64::MAX as nat),
                ) {
                    (Some(parent), Some(start)) => Some((parent as u32, start as u64)),
                    _ => None,
                }
            } else {
                None
            }
        },
    }
}

/// The parent id and start time of a process from its stat line (see
/// [`stat_spec`]).
pub fn parse_stat(stat: &str) -> (r: Option<(u32, u64)>)
    ensures
        r == stat_spec(stat@),
{
    proof {
        reveal_strlit(") ");
    }
    let i = match crate::text::last_index_of(stat, ") ") {
        Some(i) => i,
        None => return None,
    };
    let v = crate::text::chars_of(stat);
    proof {
        crate::text::lemma_last_occurrence(stat@, ") "@, stat@.len() - 2);
    }
    let n = v.len();
    assert(i + 2 <= n);
    let rest = crate::text::string_of(&v.as_slice()[i + 2..n]);
    assert(rest@ =~= stat@.skip(i + 2));
    let fields = crate::text::split_words(rest.as_str());
    let ghost fv = fields@.map_values(|w: String| w@);
    proof {
        reveal_strlit("Z");
        reveal_strlit("X");
    }
    if fields.len() > 0 {
        assert(fv[0] == fields@[0]@);
        if crate::text::text_eq(fields[0].as_str(), "Z") || crate::text::text_eq(
            fields[0].as_str(),
            "X",
        ) {
            return None;
        }
    }
    if fields.len() <= 19 {
        return None;
    }
    assert(fv[1] == fields@[1]@ && fv[19] == fields@[19]@);
    let parent = match crate::text::parse_unsigned(fields[1].as_str(), 4294967295) {
        Some(p) => p,
        None => return None,
    };
    let start = match crate::text::parse_unsigned(fields[19].as_str(), u64::MAX) {
        Some(t) => t,
        None => return None,
    };
    Some((parent as u32, start))
}

/// Whether a window belongs to an application: its application id equals,
/// up to ASCII case, the desktop id without ".desktop" or the
/// application's window class.
pub open spec fn window_matches(app: AppIdentity, window: WindowProcess) -> bool {
    match window.app_id {
        Some(id) => eq_ignore_ascii_case(id@, strip_once(app.id@, ".desktop"@)) || (
        app.startup_wm_class@.len() > 0 && eq_ignore_ascii_case(id@, app.startup_wm_class@)),
        None => false,
    }
}

/// Executable [`window_matches`].
pub fn matches_window(app: &AppIdentity, window: &WindowProcess) -> (r: bool)
    ensures
        r == window_matches(*app, *window),
{
    match &window.app_id {
        Some(id) => {
            let stem = crate::text::strip_suffix_once(app.id.as_str(), ".desktop");
            crate::text::equal_ignoring_ascii_case(id.as_str(), stem.as_str()) || (
            app.startup_wm_class.unicode_len() > 0 && crate::text::equal_ignoring_ascii_case(
                id.as_str(),
                app.startup_wm_class.as_str(),
            ))
        },
        None => false,
    }
}

/// The final component of a path, as `Path::file_name` reads it (none for
/// a path ending in `..`, for `/` and for an empty path).
pub uninterp spec fn path_file_name(path: Seq<char>) -> Option<Seq<char>>;

/// Calls `Path::file_name` on a path given as text; the result is the
/// named [`path_file_name`]. Of path parsing only this is stated: a
/// non-empty name without a separator that is not `.` or `..` is its own
/// final component.
#[verifier::external_body]
fn file_name(path: &str) -> (r: Option<String>)
    ensures
        opt_view(r) == path_file_name(path@),
        path@.len() > 0 && !path@.contains('/') && path@ != "."@ && path@ != ".."@ ==> opt_view(r)
            == Some(path@),
{
    std::path::Path::new(path).file_name().and_then(|name| name.to_str()).map(|name| name.to_owned())
}

/// Whether an argument after `env` is an assignment or an option.
pub open spec fn env_argument(a: Seq<char>) -> bool {
    a.contains('=') || (a.len() > 0 && a[0] == '-')
}

/// The first argument from `i` on that is not an `env` assignment or
/// option.
pub open spec fn after_env(args: Seq<Seq<char>>, i: int) -> int
    decreases args.len() - i,
{
    if i < 0 || i >= args.len() || !env_argument(args[i]) {
        i
    } else {
        after_env(args, i + 1)
    }
}

/// Whether a program name is a shell, interpreter or launcher, which
/// says nothing of the application it runs.
pub open spec fn generic_program(name: Seq<char>) -> bool {
    ||| name == "sh"@
    ||| name == "bash"@
    ||| name == "zsh"@
    ||| name == "env"@
    ||| name == "flatpak"@
    ||| name == "java"@
    ||| name == "electron"@
    ||| name == "niri"@
    ||| name == "chuhshell"@
    ||| (name.len() >= 6 && name.subrange(0, 6) == "python"@)
    ||| (name.len() >= 4 && name.subrange(0, 4) == "node"@)
}

/// The position of the argument that names the program of a command line
/// (after `env` and its assignments and options), when that program
/// identifies an application.
pub open spec fn command_index(args: Seq<Seq<char>>) -> Option<int> {
    if args.len() == 0 {
        None
    } else {
        match path_file_name(args[0]) {
            None => None,
            Some(first) => {
                let index = if first == "env"@ {
                    after_env(args, 1)
                } else {
                    0
                };
                if index >= args.len() {
                    None
                } else {
                    match path_file_name(args[index]) {
                        None => None,
                        Some(name) => if generic_program(name) {
                            None
                        } else {
                            Some(index)
                        },
                    }
                }
            },
        }
    }
}

fn is_env_argument(a: &str) -> (r: bool)
    ensures
        r == env_argument(a@),
{
    let v = crate::text::chars_of(a);
    crate::text::contains_char(a, '=') || (v.len() > 0 && v[0] == '-')
}

fn is_generic_program(name: &str) -> (r: bool)
    ensures
        r == generic_program(name@),
{
    proof {
        reveal_strlit("python");
        reveal_strlit("node");
    }
    crate::text::text_eq(name, "sh") || crate::text::text_eq(name, "bash") || crate::text::text_eq(
        name,
        "zsh",
    ) || crate::text::text_eq(name, "env") || crate::text::text_eq(name, "flatpak")
        || crate::text::text_eq(name, "java") || crate::text::text_eq(name, "electron")
        || crate::text::text_eq(name, "niri") || crate::text::text_eq(name, "chuhshell")
        || crate::text::starts_with_text(name, "python") || crate::text::starts_with_text(
        name,
        "node",
    )
}

/// The position of the program argument of a parsed command line (see
/// [`command_index`]).
pub fn command_name(args: &Vec<String>) -> (r: Option<usize>)
    ensures
        match r {
            Some(i) => command_index(crate::apps::texts(args@)) == Some(i as int),
            None => command_index(crate::apps::texts(args@)) is None,
        },
{
    let ghost av = crate::apps::texts(args@);
    if args.len() == 0 {
        return None;
    }
    assert(av[0] == args@[0]@);
    let first = match file_name(args[0].as_str()) {
        Some(f) => f,
        None => return None,
    };
    let mut index: usize = 0;
    if crate::text::text_eq(first.as_str(), "env") {
        index = 1;
        while index < args.len() && is_env_argument(args[index].as_str())
            invariant
                av == crate::apps::texts(args@),
                1 <= index <= args@.len(),
                after_env(av, 1) == after_env(av, index as int),
            decreases args@.len() - index,
        {
            assert(av[index as int] == args@[index as int]@);
            index += 1;
        }
        proof {
            if index < args@.len() {
                assert(av[index as int] == args@[index as int]@);
            }
        }
    }
    if index >= args.len() {
        return None;
    }
    assert(av[index as int] == args@[index as int]@);
    let name = match file_name(args[index].as_str()) {
        Some(n) => n,
        None => return None,
    };
    if is_generic_program(name.as_str()) {
        None
    } else {
        Some(index)
    }
}

/// The test for a remembered entry of a process.
pub open spec fn remembers(identity: ProcessIdentity) -> spec_fn((ProcessIdentity, String)) -> bool {
    |e: (ProcessIdentity, String)| e.0 == identity
}

/// The test for an application outside a terminal with an id.
pub open spec fn has_id(id: Seq<char>) -> spec_fn(AppIdentity) -> bool {
    |a: AppIdentity| a.id@ == id && !a.terminal
}

/// The test for an application that starts the program at a path.
pub open spec fn starts(path: Seq<char>) -> spec_fn(AppIdentity) -> bool {
    |a: AppIdentity| runs_path(a, path)
}

/// The desktop id remembered for a process from an earlier window.
pub open spec fn known_id(known: Seq<(ProcessIdentity, String)>, identity: ProcessIdentity) -> Option<
    Seq<char>,
> {
    match first_where(known, remembers(identity)) {
        Some(i) => Some(known[i].1@),
        None => None,
    }
}

/// The desktop id a process claims: from its Flatpak id, from its launch
/// metadata, or remembered from an earlier window.
pub open spec fn claimed_id(p: ProcessInfo, known: Seq<(ProcessIdentity, String)>) -> Option<Seq<char>> {
    match p.flatpak_id {
        Some(f) => Some(f@ + ".desktop"@),
        None => match p.desktop_id {
            Some(d) => Some(d@),
            None => known_id(known, p.identity),
        },
    }
}

/// Whether an application outside a terminal starts the program at
/// `path`.
pub open spec fn runs_path(a: AppIdentity, path: Seq<char>) -> bool {
    !a.terminal && (a.command_path matches Some(c) && c@ == path)
}

/// How many applications start the program at `path`.
pub open spec fn path_count(apps: Seq<AppIdentity>, path: Seq<char>) -> nat
    decreases apps.len(),
{
    if apps.len() == 0 {
        0
    } else {
        path_count(apps.drop_last(), path) + if runs_path(apps.last(), path) {
            1nat
        } else {
            0nat
        }
    }
}

/// The application of a process: the first application outside a terminal
/// with the id it claims, else the only application that starts its
/// executable (an executable shared by several identifies none).
pub open spec fn process_app(apps: Seq<AppIdentity>, p: ProcessInfo, known: Seq<(ProcessIdentity, String)>) -> Option<int> {
    let by_path = if path_count(apps, p.executable@) == 1 {
        first_where(apps, starts(p.executable@))
    } else {
        None
    };
    match claimed_id(p, known) {
        Some(id) => match first_where(apps, has_id(id)) {
            Some(i) => Some(i),
            None => by_path,
        },
        None => by_path,
    }
}

fn remembered_id<'a>(known: &'a Vec<(ProcessIdentity, String)>, identity: ProcessIdentity) -> (r:
    Option<&'a str>)
    ensures
        match r {
            Some(t) => known_id(known@, identity) == Some(t@),
            None => known_id(known@, identity) is None,
        },
{
    let ghost p = remembers(identity);
    let mut i: usize = 0;
    while i < known.len()
        invariant
            p == remembers(identity),
            i <= known@.len(),
            forall|k: int| 0 <= k < i ==> !p(#[trigger] known@[k]),
        decreases known@.len() - i,
    {
        if known[i].0 == identity {
            proof {
                crate::text::lemma_first_where(known@, p, i as int);
            }
            return Some(known[i].1.as_str());
        }
        i += 1;
    }
    proof {
        crate::text::lemma_first_where(known@, p, i as int);
    }
    None
}

fn runs(a: &AppIdentity, path: &str) -> (r: bool)
    ensures
        r == runs_path(*a, path@),
{
    !a.terminal && match &a.command_path {
        Some(c) => crate::text::text_eq(c.as_str(), path),
        None => false,
    }
}

#[verifier::rlimit(40)]
fn app_by_path(apps: &Vec<AppIdentity>, path: &str) -> (r: Option<usize>)
    ensures
        match r {
            Some(i) => path_count(apps@, path@) == 1 && first_where(apps@, starts(path@)) == Some(
                i as int,
            ) && i < apps@.len(),
            None => !(path_count(apps@, path@) == 1 && first_where(apps@, starts(path@)) is Some),
        },
{
    let ghost p = starts(path@);
    let mut count: usize = 0;
    let mut first: Option<usize> = None;
    let mut i: usize = 0;
    assert(apps@.take(0) =~= Seq::<AppIdentity>::empty());
    while i < apps.len()
        invariant
            p == starts(path@),
            i <= apps@.len(),
            count == path_count(apps@.take(i as int), path@),
            count <= i,
            match first {
                Some(f) => f < i && p(apps@[f as int]) && forall|k: int| 0 <= k < f ==> !p(
                    #[trigger] apps@[k],
                ),
                None => forall|k: int| 0 <= k < i ==> !p(#[trigger] apps@[k]),
            },
        decreases apps@.len() - i,
    {
        assert(apps@.take(i + 1).drop_last() =~= apps@.take(i as int));
        if runs(&apps[i], path) {
            if first.is_none() {
                first = Some(i);
            }
            count = count + 1;
        }
        i += 1;
    }
    assert(apps@.take(apps@.len() as int) =~= apps@);
    match first {
        Some(f) => {
            proof {
                crate::text::lemma_first_where(apps@, p, f as int);
            }
            if count == 1 {
                Some(f)
            } else {
                None
            }
        },
        None => {
            proof {
                crate::text::lemma_first_where(apps@, p, apps@.len() as int);
            }
            None
        },
    }
}

fn app_by_id(apps: &Vec<AppIdentity>, id: &str) -> (r: Option<usize>)
    ensures
        match r {
            Some(i) => first_where(apps@, has_id(id@)) == Some(i as int),
            None => first_where(apps@, has_id(id@)) is None,
        },
{
    let ghost p = has_id(id@);
    let mut i: usize = 0;
    while i < apps.len()
        invariant
            p == has_id(id@),
            i <= apps@.len(),
            forall|k: int| 0 <= k < i ==> !p(#[trigger] apps@[k]),
        decreases apps@.len() - i,
    {
        if crate::text::text_eq(apps[i].id.as_str(), id) && !apps[i].terminal {
            proof {
                crate::text::lemma_first_where(apps@, p, i as int);
            }
            return Some(i);
        }
        i += 1;
    }
    proof {
        crate::text::lemma_first_where(apps@, p, i as int);
    }
    None
}

fn match_process(apps: &Vec<AppIdentity>, p: &ProcessInfo, known: &Vec<(ProcessIdentity, String)>) -> (r:
    Option<usize>)
    ensures
        match r {
            Some(i) => process_app(apps@, *p, known@) == Some(i as int) && i < apps@.len(),
            None => process_app(apps@, *p, known@) is None,
        },
{
    let claimed: Option<String> = match &p.flatpak_id {
        Some(f) => {
            let mut id = crate::text::owned(f.as_str());
            id.append(".desktop");
            Some(id)
        },
        None => match &p.desktop_id {
            Some(d) => Some(crate::text::owned(d.as_str())),
            None => match remembered_id(known, p.identity) {
                Some(t) => Some(crate::text::owned(t)),
                None => None,
            },
        },
    };
    assert(opt_view(claimed) == claimed_id(*p, known@));
    if let Some(id) = &claimed {
        if let Some(i) = app_by_id(apps, id.as_str()) {
            proof {
                crate::text::lemma_first_where_found(apps@, has_id(id@));
            }
            return Some(i);
        }
    }
    app_by_path(apps, p.executable.as_str())
}

/// Whether process `k` is matched to an application with the id of `app`.
pub open spec fn belongs(
    apps: Seq<AppIdentity>,
    procs: Seq<ProcessInfo>,
    known: Seq<(ProcessIdentity, String)>,
    k: int,
    app: AppIdentity,
) -> bool {
    match process_app(apps, procs[k], known) {
        Some(i) => apps[i].id@ == app.id@,
        None => false,
    }
}

/// Whether an application has a window: one that matches it, or one
/// whose process descends from one of its processes.
pub open spec fn shows_window(
    apps: Seq<AppIdentity>,
    procs: Seq<ProcessInfo>,
    known: Seq<(ProcessIdentity, String)>,
    windows: Seq<WindowProcess>,
    app: AppIdentity,
) -> bool {
    exists|w: int|
        0 <= w < windows.len() && (window_matches(app, #[trigger] windows[w]) || (
        windows[w].pid is Some && exists|k: int|
            0 <= k < procs.len() && belongs(apps, procs, known, k, app) && #[trigger] descends(
                procs,
                windows[w].pid->0,
                procs[k].identity.pid,
            )))
}

/// Whether process `k` is a root process of `app`: one of its processes
/// that descends from none of its other processes.
pub open spec fn is_root(
    apps: Seq<AppIdentity>,
    procs: Seq<ProcessInfo>,
    known: Seq<(ProcessIdentity, String)>,
    app: AppIdentity,
    k: int,
) -> bool {
    &&& belongs(apps, procs, known, k, app)
    &&& !exists|j: int|
        0 <= j < procs.len() && belongs(apps, procs, known, j, app) && procs[j].identity.pid
            != procs[k].identity.pid && #[trigger] descends(
            procs,
            procs[k].identity.pid,
            procs[j].identity.pid,
        )
}

/// The identities of the root processes of an application.
pub open spec fn root_identities(
    apps: Seq<AppIdentity>,
    procs: Seq<ProcessInfo>,
    known: Seq<(ProcessIdentity, String)>,
    app: AppIdentity,
) -> Set<ProcessIdentity> {
    Set::new(
        |t: ProcessIdentity|
            exists|k: int|
                0 <= k < procs.len() && procs[k].identity == t && #[trigger] is_root(
                    apps,
                    procs,
                    known,
                    app,
                    k,
                ),
    )
}

/// Whether an application runs in the background: it has root processes
/// and no window.
pub open spec fn in_background(
    apps: Seq<AppIdentity>,
    procs: Seq<ProcessInfo>,
    known: Seq<(ProcessIdentity, String)>,
    windows: Seq<WindowProcess>,
    app: AppIdentity,
) -> bool {
    (exists|k: int| 0 <= k < procs.len() && #[trigger] is_root(apps, procs, known, app, k))
        && !shows_window(apps, procs, known, windows, app)
}

/// The positions among the first `n` applications of those in the
/// background.
pub open spec fn background_positions(
    apps: Seq<AppIdentity>,
    procs: Seq<ProcessInfo>,
    known: Seq<(ProcessIdentity, String)>,
    windows: Seq<WindowProcess>,
    n: int,
) -> Seq<int>
    decreases n,
{
    if n <= 0 {
        Seq::empty()
    } else {
        let before = background_positions(apps, procs, known, windows, n - 1);
        if in_background(apps, procs, known, windows, apps[n - 1]) {
            before.push(n - 1)
        } else {
            before
        }
    }
}

/// Whether the process ids of identities increase strictly.
pub open spec fn increasing_pids(ts: Seq<ProcessIdentity>) -> bool {
    forall|i: int, j: int| 0 <= i < j < ts.len() ==> #[trigger] ts[i].pid < #[trigger] ts[j].pid
}

/// Background applications are listed by lowercase name.
pub open spec fn listing_keys(apps: Seq<AppIdentity>, positions: Seq<int>) -> Seq<Seq<u32>> {
    positions.map_values(|k: int| crate::order::text_key(crate::text::lowercase(apps[k].name@)))
}

/// Whether `b` shows application `a` with its root processes by process
/// id.
pub open spec fn describes(
    b: BackgroundApp,
    apps: Seq<AppIdentity>,
    procs: Seq<ProcessInfo>,
    known: Seq<(ProcessIdentity, String)>,
    a: AppIdentity,
) -> bool {
    &&& b.desktop_id@ == a.id@
    &&& b.name@ == a.name@
    &&& b.icon@ == a.icon@
    &&& increasing_pids(b.targets@)
    &&& b.targets@.to_set() == root_identities(apps, procs, known, a)
}

/// Whether `r` lists the background applications of `positions` in the
/// stable name order `order`, each with its root processes by process id.
pub open spec fn is_listing(
    r: Seq<BackgroundApp>,
    apps: Seq<AppIdentity>,
    procs: Seq<ProcessInfo>,
    known: Seq<(ProcessIdentity, String)>,
    positions: Seq<int>,
    order: Seq<usize>,
) -> bool {
    &&& crate::order::is_stable_order(listing_keys(apps, positions), order)
    &&& r.len() == positions.len()
    &&& forall|i: int|
        0 <= i < r.len() ==> describes(
            #[trigger] r[i],
            apps,
            procs,
            known,
            apps[positions[order[i] as int]],
        )
}

fn matched_apps(apps: &Vec<AppIdentity>, processes: &Vec<ProcessInfo>, known: &Vec<(ProcessIdentity, String)>) -> (r:
    Vec<Option<usize>>)
    ensures
        r@.len() == processes@.len(),
        forall|k: int|
            0 <= k < r@.len() ==> match #[trigger] r@[k] {
                Some(i) => process_app(apps@, processes@[k], known@) == Some(i as int) && i
                    < apps@.len(),
                None => process_app(apps@, processes@[k], known@) is None,
            },
{
    let mut r: Vec<Option<usize>> = Vec::new();
    let mut k: usize = 0;
    while k < processes.len()
        invariant
            k <= processes@.len(),
            r@.len() == k,
            forall|j: int|
                0 <= j < k ==> match #[trigger] r@[j] {
                    Some(i) => process_app(apps@, processes@[j], known@) == Some(i as int) && i
                        < apps@.len(),
                    None => process_app(apps@, processes@[j], known@) is None,
                },
        decreases processes@.len() - k,
    {
        r.push(match_process(apps, &processes[k], known));
        k += 1;
    }
    r
}

fn belonging(
    apps: &Vec<AppIdentity>,
    processes: &Vec<ProcessInfo>,
    known: &Vec<(ProcessIdentity, String)>,
    matched: &Vec<Option<usize>>,
    app: &AppIdentity,
) -> (r: Vec<bool>)
    requires
        matched@.len() == processes@.len(),
        forall|k: int|
            0 <= k < matched@.len() ==> match #[trigger] matched@[k] {
                Some(i) => process_app(apps@, processes@[k], known@) == Some(i as int) && i
                    < apps@.len(),
                None => process_app(apps@, processes@[k], known@) is None,
            },
    ensures
        r@.len() == processes@.len(),
        forall|k: int|
            0 <= k < r@.len() ==> #[trigger] r@[k] == belongs(apps@, processes@, known@, k, *app),
{
    let mut r: Vec<bool> = Vec::new();
    let mut k: usize = 0;
    while k < matched.len()
        invariant
            matched@.len() == processes@.len(),
            forall|k: int|
                0 <= k < matched@.len() ==> match #[trigger] matched@[k] {
                    Some(i) => process_app(apps@, processes@[k], known@) == Some(i as int) && i
                        < apps@.len(),
                    None => process_app(apps@, processes@[k], known@) is None,
                },
            k <= matched@.len(),
            r@.len() == k,
            forall|j: int|
                0 <= j < k ==> #[trigger] r@[j] == belongs(apps@, processes@, known@, j, *app),
        decreases matched@.len() - k,
    {
        let b = match matched[k] {
            Some(i) => crate::text::text_eq(apps[i].id.as_str(), app.id.as_str()),
            None => false,
        };
        r.push(b);
        k += 1;
    }
    r
}

fn window_shown(
    apps: &Vec<AppIdentity>,
    processes: &Vec<ProcessInfo>,
    known: &Vec<(ProcessIdentity, String)>,
    windows: &Vec<WindowProcess>,
    app: &AppIdentity,
    member: &Vec<bool>,
) -> (r: bool)
    requires
        member@.len() == processes@.len(),
        forall|k: int|
            0 <= k < member@.len() ==> #[trigger] member@[k] == belongs(
                apps@,
                processes@,
                known@,
                k,
                *app,
            ),
    ensures
        r == shows_window(apps@, processes@, known@, windows@, *app),
{
    let mut w: usize = 0;
    while w < windows.len()
        invariant
            member@.len() == processes@.len(),
            forall|k: int|
                0 <= k < member@.len() ==> #[trigger] member@[k] == belongs(
                    apps@,
                    processes@,
                    known@,
                    k,
                    *app,
                ),
            w <= windows@.len(),
            forall|v: int|
                0 <= v < w ==> !(window_matches(*app, #[trigger] windows@[v]) || (
                windows@[v].pid is Some && exists|k: int|
                    0 <= k < processes@.len() && belongs(apps@, processes@, known@, k, *app)
                        && #[trigger] descends(
                        processes@,
                        windows@[v].pid->0,
                        processes@[k].identity.pid,
                    ))),
        decreases windows@.len() - w,
    {
        if matches_window(app, &windows[w]) {
            return true;
        }
        if let Some(pid) = windows[w].pid {
            let mut k: usize = 0;
            while k < processes.len()
                invariant
                    member@.len() == processes@.len(),
                    forall|k: int|
                        0 <= k < member@.len() ==> #[trigger] member@[k] == belongs(
                            apps@,
                            processes@,
                            known@,
                            k,
                            *app,
                        ),
                    k <= processes@.len(),
                    w < windows@.len(),
                    windows@[w as int].pid == Some(pid),
                    forall|j: int|
                        0 <= j < k ==> !(belongs(apps@, processes@, known@, j, *app)
                            && #[trigger] descends(processes@, pid, processes@[j].identity.pid)),
                decreases processes@.len() - k,
            {
                if member[k] && has_ancestor(pid, processes[k].identity.pid, processes) {
                    proof {
                        assert(belongs(apps@, processes@, known@, k as int, *app));
                        assert(windows@[w as int].pid == Some(pid));
                        assert(windows@[w as int].pid->0 == pid);
                        assert(descends(processes@, windows@[w as int].pid->0, processes@[k as int].identity.pid));
                        assert(exists|k: int|
                            0 <= k < processes@.len() && belongs(apps@, processes@, known@, k, *app)
                                && #[trigger] descends(
                                processes@,
                                windows@[w as int].pid->0,
                                processes@[k].identity.pid,
                            ));
                        assert(shows_window(apps@, processes@, known@, windows@, *app));
                    }
                    return true;
                }
                k += 1;
            }
        }
        w += 1;
    }
    false
}

fn root_processes(
    apps: &Vec<AppIdentity>,
    processes: &Vec<ProcessInfo>,
    known: &Vec<(ProcessIdentity, String)>,
    app: &AppIdentity,
    member: &Vec<bool>,
) -> (r: Vec<ProcessIdentity>)
    requires
        pids_of(processes@).no_duplicates(),
        member@.len() == processes@.len(),
        forall|k: int|
            0 <= k < member@.len() ==> #[trigger] member@[k] == belongs(
                apps@,
                processes@,
                known@,
                k,
                *app,
            ),
    ensures
        r@.to_set() == root_identities(apps@, processes@, known@, *app),
        forall|i: int, j: int| 0 <= i < j < r@.len() ==> #[trigger] r@[i].pid != #[trigger] r@[j].pid,
        forall|i: int|
            0 <= i < r@.len() ==> #[trigger] pids_of(processes@).contains(r@[i].pid),
{
    let mut r: Vec<ProcessIdentity> = Vec::new();
    let mut k: usize = 0;
    while k < processes.len()
        invariant
            member@.len() == processes@.len(),
            forall|k: int|
                0 <= k < member@.len() ==> #[trigger] member@[k] == belongs(
                    apps@,
                    processes@,
                    known@,
                    k,
                    *app,
                ),
            k <= processes@.len(),
            forall|t: ProcessIdentity|
                #![trigger r@.contains(t)]
                r@.contains(t) <==> exists|j: int|
                    0 <= j < k && processes@[j].identity == t && #[trigger] is_root(
                        apps@,
                        processes@,
                        known@,
                        *app,
                        j,
                    ),
            forall|i: int|
                0 <= i < r@.len() ==> #[trigger] pids_of(processes@).contains(r@[i].pid),
            pids_of(processes@).no_duplicates(),
            forall|i: int, j: int| 0 <= i < j < r@.len() ==> #[trigger] r@[i].pid != #[trigger] r@[j].pid,
        decreases processes@.len() - k,
    {
        if member[k] {
            let me = processes[k].identity.pid;
            let mut below = false;
            let mut j: usize = 0;
            while j < processes.len()
                invariant
                    member@.len() == processes@.len(),
                    forall|k: int|
                        0 <= k < member@.len() ==> #[trigger] member@[k] == belongs(
                            apps@,
                            processes@,
                            known@,
                            k,
                            *app,
                        ),
                    me == processes@[k as int].identity.pid,
                    j <= processes@.len(),
                    !below ==> forall|q: int|
                        0 <= q < j ==> !(belongs(apps@, processes@, known@, q, *app)
                            && processes@[q].identity.pid != me && #[trigger] descends(
                            processes@,
                            me,
                            processes@[q].identity.pid,
                        )),
                    below ==> exists|q: int|
                        0 <= q < processes@.len() && belongs(apps@, processes@, known@, q, *app)
                            && processes@[q].identity.pid != me && #[trigger] descends(
                            processes@,
                            me,
                            processes@[q].identity.pid,
                        ),
                decreases processes@.len() - j,
            {
                if member[j] && processes[j].identity.pid != me && has_ancestor(
                    me,
                    processes[j].identity.pid,
                    processes,
                ) {
                    below = true;
                }
                j += 1;
            }
            let ghost old = r@;
            if !below {
                proof {
                    assert forall|i: int| 0 <= i < old.len() implies old[i].pid != me by {
                        assert(old.contains(old[i]));
                        let q = choose|q: int|
                            0 <= q < k && processes@[q].identity == old[i] && #[trigger] is_root(
                                apps@,
                                processes@,
                                known@,
                                *app,
                                q,
                            );
                        assert(pids_of(processes@)[q] != pids_of(processes@)[k as int]);
                    }
                }
                r.push(processes[k].identity);
                proof {
                    assert(pids_of(processes@)[k as int] == me);
                    assert forall|i: int, j: int| 0 <= i < j < r@.len() implies #[trigger] r@[i].pid
                        != #[trigger] r@[j].pid by {
                        if j == old.len() {
                            assert(r@[i] == old[i]);
                        } else {
                            assert(r@[i] == old[i] && r@[j] == old[j]);
                        }
                    }
                    assert forall|t: ProcessIdentity| #[trigger] r@.contains(t) <==> (old.contains(t)
                        || t == processes@[k as int].identity) by {
                        if old.contains(t) {
                            let q = choose|q: int| 0 <= q < old.len() && old[q] == t;
                            assert(r@[q] == t);
                        }
                        if t == processes@[k as int].identity {
                            assert(r@[old.len() as int] == t);
                        }
                        if r@.contains(t) {
                            let q = choose|q: int| 0 <= q < r@.len() && r@[q] == t;
                            if q < old.len() {
                                assert(old[q] == t);
                            }
                        }
                    }
                }
            }
            proof {
                assert(is_root(apps@, processes@, known@, *app, k as int) == !below);
                assert forall|t: ProcessIdentity|
                    #![trigger r@.contains(t)]
                    r@.contains(t) <==> exists|j: int|
                        0 <= j < k + 1 && processes@[j].identity == t && #[trigger] is_root(
                            apps@,
                            processes@,
                            known@,
                            *app,
                            j,
                        ) by {
                    if exists|j: int|
                        0 <= j < k + 1 && processes@[j].identity == t && #[trigger] is_root(
                            apps@,
                            processes@,
                            known@,
                            *app,
                            j,
                        ) {
                        let j = choose|j: int|
                            0 <= j < k + 1 && processes@[j].identity == t && #[trigger] is_root(
                                apps@,
                                processes@,
                                known@,
                                *app,
                                j,
                            );
                        if j < k {
                            assert(old.contains(t));
                        }
                    }
                    if old.contains(t) {
                        let j = choose|j: int|
                            0 <= j < k && processes@[j].identity == t && #[trigger] is_root(
                                apps@,
                                processes@,
                                known@,
                                *app,
                                j,
                            );
                        assert(0 <= j < k + 1);
                    }
                }
            }
        } else {
            proof {
                assert(!is_root(apps@, processes@, known@, *app, k as int));
                assert forall|t: ProcessIdentity|
                    #![trigger r@.contains(t)]
                    r@.contains(t) <==> exists|j: int|
                        0 <= j < k + 1 && processes@[j].identity == t && #[trigger] is_root(
                            apps@,
                            processes@,
                            known@,
                            *app,
                            j,
                        ) by {
                    if exists|j: int|
                        0 <= j < k + 1 && processes@[j].identity == t && #[trigger] is_root(
                            apps@,
                            processes@,
                            known@,
                            *app,
                            j,
                        ) {
                        let j = choose|j: int|
                            0 <= j < k + 1 && processes@[j].identity == t && #[trigger] is_root(
                                apps@,
                                processes@,
                                known@,
                                *app,
                                j,
                            );
                        assert(j < k);
                    }
                    if r@.contains(t) {
                        let j = choose|j: int|
                            0 <= j < k && processes@[j].identity == t && #[trigger] is_root(
                                apps@,
                                processes@,
                                known@,
                                *app,
                                j,
                            );
                        assert(0 <= j < k + 1);
                    }
                }
            }
        }
        k += 1;
    }
    assert(r@.to_set() =~= root_identities(apps@, processes@, known@, *app));
    r
}

fn sort_by_pid(ts: Vec<ProcessIdentity>) -> (r: Vec<ProcessIdentity>)
    requires
        forall|i: int, j: int| 0 <= i < j < ts@.len() ==> #[trigger] ts@[i].pid != #[trigger] ts@[j].pid,
    ensures
        increasing_pids(r@),
        r@.to_set() == ts@.to_set(),
{
    let mut keys: Vec<Vec<u32>> = Vec::new();
    let mut i: usize = 0;
    while i < ts.len()
        invariant
            i <= ts@.len(),
            keys@.len() == i,
            forall|k: int| 0 <= k < i ==> (#[trigger] keys@[k])@ == seq![ts@[k].pid],
        decreases ts@.len() - i,
    {
        let mut key: Vec<u32> = Vec::new();
        key.push(ts[i].pid);
        keys.push(key);
        i += 1;
    }
    let ghost kv = keys@.map_values(|k: Vec<u32>| k@);
    let order = crate::order::stable_order(&keys);
    let ghost given = ts@;
    let r = crate::order::apply_order(ts, &order);
    proof {
        assert forall|a: int, b: int| 0 <= a < b < r@.len() implies #[trigger] r@[a].pid
            < #[trigger] r@[b].pid by {
            let x = order@[a] as int;
            let y = order@[b] as int;
            assert(crate::order::before(kv, x, y));
            assert(kv[x] == seq![given[x].pid] && kv[y] == seq![given[y].pid]);
            assert(x != y);
            if x < y {
                assert(given[x].pid != given[y].pid);
            } else {
                assert(given[y].pid != given[x].pid);
            }
            assert(kv[x] != kv[y]) by {
                assert(kv[x][0] != kv[y][0]);
            }
            assert(crate::order::lex_lt(kv[x], kv[y]));
            assert(kv[x].drop_first().len() == 0);
        }
        assert forall|t: ProcessIdentity| r@.to_set().contains(t) <==> given.to_set().contains(t) by {
            if r@.contains(t) {
                let a = choose|a: int| 0 <= a < r@.len() && r@[a] == t;
                assert(given[order@[a] as int] == t);
            }
            if given.contains(t) {
                let j = choose|j: int| 0 <= j < given.len() && given[j] == t;
                crate::order::lemma_permutation_onto(order@, given.len(), j);
                let a = choose|a: int| 0 <= a < order@.len() && order@[a] == j;
                assert(r@[a] == t);
            }
        }
        assert(r@.to_set() =~= given.to_set());
    }
    r
}

/// The background applications by lowercase name: those with root
/// processes and no window, each with its root processes by process id
/// (see [`is_listing`]). The process table lists each process id once.
pub fn classify(
    apps: &Vec<AppIdentity>,
    windows: &Vec<WindowProcess>,
    processes: &Vec<ProcessInfo>,
    known: &Vec<(ProcessIdentity, String)>,
) -> (r: Vec<BackgroundApp>)
    requires
        pids_of(processes@).no_duplicates(),
    ensures
        exists|order: Seq<usize>|
            #[trigger] is_listing(
                r@,
                apps@,
                processes@,
                known@,
                background_positions(apps@, processes@, known@, windows@, apps@.len() as int),
                order,
            ),
{
    let matched = matched_apps(apps, processes, known);
    let mut found: Vec<BackgroundApp> = Vec::new();
    let ghost mut positions: Seq<int> = Seq::empty();
    let mut a: usize = 0;
    while a < apps.len()
        invariant
            pids_of(processes@).no_duplicates(),
            matched@.len() == processes@.len(),
            forall|k: int|
                0 <= k < matched@.len() ==> match #[trigger] matched@[k] {
                    Some(i) => process_app(apps@, processes@[k], known@) == Some(i as int) && i
                        < apps@.len(),
                    None => process_app(apps@, processes@[k], known@) is None,
                },
            a <= apps@.len(),
            positions == background_positions(apps@, processes@, known@, windows@, a as int),
            found@.len() == positions.len(),
            forall|i: int| 0 <= i < positions.len() ==> 0 <= #[trigger] positions[i] < apps@.len(),
            forall|i: int|
                0 <= i < found@.len() ==> describes(
                    #[trigger] found@[i],
                    apps@,
                    processes@,
                    known@,
                    apps@[positions[i]],
                ),
        decreases apps@.len() - a,
    {
        let app = &apps[a];
        let member = belonging(apps, processes, known, &matched, app);
        let roots = root_processes(apps, processes, known, app, &member);
        let has_roots = roots.len() > 0;
        proof {
            if has_roots {
                let t = roots@[0];
                assert(roots@.to_set().contains(t));
            } else {
                assert forall|k: int| 0 <= k < processes@.len() implies !#[trigger] is_root(
                    apps@,
                    processes@,
                    known@,
                    *app,
                    k,
                ) by {
                    if is_root(apps@, processes@, known@, *app, k) {
                        assert(root_identities(apps@, processes@, known@, *app).contains(
                            processes@[k].identity,
                        ));
                    }
                }
            }
        }
        let background = has_roots && !window_shown(apps, processes, known, windows, app, &member);
        assert(background == in_background(apps@, processes@, known@, windows@, apps@[a as int]));
        let ghost before = found@;
        if background {
            let ghost root_set = roots@.to_set();
            let targets = sort_by_pid(roots);
            found.push(
                BackgroundApp {
                    desktop_id: crate::text::owned(app.id.as_str()),
                    name: crate::text::owned(app.name.as_str()),
                    icon: crate::text::owned(app.icon.as_str()),
                    targets,
                },
            );
            proof {
                positions = positions.push(a as int);
                assert forall|i: int| 0 <= i < found@.len() implies describes(
                    #[trigger] found@[i],
                    apps@,
                    processes@,
                    known@,
                    apps@[positions[i]],
                ) by {
                    if i < before.len() {
                        assert(found@[i] == before[i]);
                        assert(positions[i] == positions.drop_last()[i]);
                    } else {
                        assert(positions[i] == a);
                        assert(found@[i].targets@.to_set() == root_set);
                    }
                }
            }
        }
        a += 1;
    }
    let mut keys: Vec<Vec<u32>> = Vec::new();
    let mut i: usize = 0;
    while i < found.len()
        invariant
            i <= found@.len(),
            keys@.len() == i,
            forall|k: int|
                0 <= k < i ==> (#[trigger] keys@[k])@ == crate::order::text_key(
                    crate::text::lowercase(found@[k].name@),
                ),
        decreases found@.len() - i,
    {
        let lower = crate::text::to_lowercase(found[i].name.as_str());
        keys.push(crate::order::key_of_text(lower.as_str()));
        i += 1;
    }
    assert(keys@.map_values(|k: Vec<u32>| k@) =~= listing_keys(apps@, positions)) by {
        assert forall|k: int| 0 <= k < positions.len() implies #[trigger] listing_keys(
            apps@,
            positions,
        )[k] == keys@[k]@ by {
            assert(found@[k].name@ == apps@[positions[k]].name@);
        }
    }
    let order = crate::order::stable_order(&keys);
    let ghost unsorted = found@;
    let r = crate::order::apply_order(found, &order);
    assert(is_listing(r@, apps@, processes@, known@, positions, order@)) by {
        assert forall|i: int| 0 <= i < r@.len() implies #[trigger] r@[i] == unsorted[order@[i] as int] by {}
    }
    r
}

/// The fields of a process environment: its bytes split at each zero.
pub open spec fn byte_fields(s: Seq<u8>) -> Seq<Seq<u8>>
    decreases s.len(),
{
    if s.len() == 0 {
        seq![Seq::empty()]
    } else {
        let before = byte_fields(s.drop_last());
        if s.last() == 0 {
            before.push(Seq::empty())
        } else {
            before.update(before.len() - 1, before.last().push(s.last()))
        }
    }
}

proof fn lemma_byte_fields_len(s: Seq<u8>)
    ensures
        byte_fields(s).len() >= 1,
    decreases s.len(),
{
    if s.len() > 0 {
        lemma_byte_fields_len(s.drop_last());
    }
}

/// The rest of a field after a prefix, if it starts with it.
pub open spec fn after_prefix(field: Seq<u8>, prefix: Seq<u8>) -> Option<Seq<u8>> {
    if field.len() >= prefix.len() && field.subrange(0, prefix.len() as int) == prefix {
        Some(field.subrange(prefix.len() as int, field.len() as int))
    } else {
        None
    }
}

/// The bytes of the variable names, followed by `=`.
pub open spec fn pid_variable() -> Seq<u8> {
    "GIO_LAUNCHED_DESKTOP_FILE_PID="@.map_values(|c: char| c as u8)
}

/// The variable that names the desktop file.
pub open spec fn file_variable() -> Seq<u8> {
    "GIO_LAUNCHED_DESKTOP_FILE="@.map_values(|c: char| c as u8)
}

/// A process id written in an environment value: ASCII digits (after an
/// optional `+`) that fit in `u32`.
pub open spec fn pid_value(value: Seq<u8>) -> Option<u32> {
    if forall|i: int| 0 <= i < value.len() ==> #[trigger] value[i] < 0x80 {
        match crate::text::parsed_unsigned(value.map_values(|b: u8| b as char), u32::MAX as nat) {
            Some(n) => Some(n as u32),
            None => None,
        }
    } else {
        None
    }
}

/// The text that bytes encode in UTF-8; none for bytes that are not valid
/// UTF-8.
pub open spec fn utf8_text(bytes: Seq<u8>) -> Option<Seq<char>> {
    if vstd::utf8::valid_utf8(bytes) {
        Some(vstd::utf8::decode_utf8(bytes))
    } else {
        None
    }
}

/// Calls `std::str::from_utf8`, which accepts exactly the valid UTF-8
/// byte sequences and gives the text they encode (see [`utf8_text`]).
#[verifier::external_body]
fn decode_utf8(bytes: &[u8]) -> (r: Option<String>)
    ensures
        opt_view(r) == utf8_text(bytes@),
{
    std::str::from_utf8(bytes).ok().map(|text| text.to_owned())
}

/// The first field with a prefix whose value is a process id.
pub open spec fn first_pid(fields: Seq<Seq<u8>>) -> Option<u32>
    decreases fields.len(),
{
    if fields.len() == 0 {
        None
    } else {
        match after_prefix(fields[0], pid_variable()) {
            Some(v) if pid_value(v) is Some => pid_value(v),
            _ => first_pid(fields.drop_first()),
        }
    }
}

/// The file name of the first field with the desktop-file prefix whose
/// value is UTF-8 and names a file.
pub open spec fn first_file(fields: Seq<Seq<u8>>) -> Option<Seq<char>>
    decreases fields.len(),
{
    if fields.len() == 0 {
        None
    } else {
        let found = match after_prefix(fields[0], file_variable()) {
            Some(v) => match utf8_text(v) {
                Some(t) => path_file_name(t),
                None => None,
            },
            None => None,
        };
        match found {
            Some(name) => Some(name),
            None => first_file(fields.drop_first()),
        }
    }
}

/// The desktop id a process was launched from, by its environment: the
/// file name of `GIO_LAUNCHED_DESKTOP_FILE`, when
/// `GIO_LAUNCHED_DESKTOP_FILE_PID` names the process itself.
pub open spec fn launched_id(environ: Seq<u8>, pid: u32) -> Option<Seq<char>> {
    let fields = byte_fields(environ);
    if first_pid(fields) == Some(pid) {
        first_file(fields)
    } else {
        None
    }
}

fn split_fields(environ: &[u8]) -> (r: Vec<Vec<u8>>)
    ensures
        r@.map_values(|f: Vec<u8>| f@) == byte_fields(environ@),
{
    let mut done: Vec<Vec<u8>> = Vec::new();
    let mut current: Vec<u8> = Vec::new();
    let mut i: usize = 0;
    assert(environ@.take(0) =~= Seq::<u8>::empty());
    assert(done@.map_values(|f: Vec<u8>| f@).push(current@) =~= byte_fields(environ@.take(0)));
    while i < environ.len()
        invariant
            i <= environ@.len(),
            done@.map_values(|f: Vec<u8>| f@).push(current@) == byte_fields(environ@.take(i as int)),
        decreases environ@.len() - i,
    {
        let ghost before = environ@.take(i as int);
        assert(environ@.take(i + 1).drop_last() =~= before);
        assert(environ@.take(i + 1).last() == environ@[i as int]);
        proof {
            lemma_byte_fields_len(before);
        }
        let b = environ[i];
        if b == 0 {
            done.push(current);
            current = Vec::new();
            assert(done@.map_values(|f: Vec<u8>| f@).push(current@) =~= byte_fields(before).push(
                Seq::empty(),
            ));
        } else {
            current.push(b);
            assert(done@.map_values(|f: Vec<u8>| f@).push(current@) =~= byte_fields(before).update(
                byte_fields(before).len() - 1,
                byte_fields(before).last().push(b),
            ));
        }
        i += 1;
    }
    assert(environ@.take(environ@.len() as int) =~= environ@);
    done.push(current);
    assert(done@.map_values(|f: Vec<u8>| f@) =~= byte_fields(environ@));
    done
}

fn prefix_bytes(text: &str) -> (r: Vec<u8>)
    requires
        forall|i: int| 0 <= i < text@.len() ==> (#[trigger] text@[i] as u32) < 0x80,
    ensures
        r@ == text@.map_values(|c: char| c as u8),
{
    let v = crate::text::chars_of(text);
    let mut r: Vec<u8> = Vec::new();
    let mut i: usize = 0;
    while i < v.len()
        invariant
            v@ == text@,
            forall|i: int| 0 <= i < text@.len() ==> (#[trigger] text@[i] as u32) < 0x80,
            i <= v@.len(),
            r@ == text@.take(i as int).map_values(|c: char| c as u8),
        decreases v@.len() - i,
    {
        assert((v@[i as int] as u32) < 0x80);
        r.push(v[i] as u8);
        i += 1;
        assert(r@ =~= text@.take(i as int).map_values(|c: char| c as u8));
    }
    assert(text@.take(v@.len() as int) =~= text@);
    r
}

fn strip_prefix_bytes(field: &Vec<u8>, prefix: &Vec<u8>) -> (r: Option<Vec<u8>>)
    ensures
        match r {
            Some(v) => after_prefix(field@, prefix@) == Some(v@),
            None => after_prefix(field@, prefix@) is None,
        },
{
    if field.len() < prefix.len() {
        return None;
    }
    let mut k: usize = 0;
    while k < prefix.len()
        invariant
            prefix@.len() <= field@.len(),
            k <= prefix@.len(),
            forall|j: int| 0 <= j < k ==> field@[j] == prefix@[j],
        decreases prefix@.len() - k,
    {
        if field[k] != prefix[k] {
            assert(field@.subrange(0, prefix@.len() as int)[k as int] != prefix@[k as int]);
            return None;
        }
        k += 1;
    }
    assert(field@.subrange(0, prefix@.len() as int) =~= prefix@);
    let mut rest: Vec<u8> = Vec::new();
    let mut j: usize = prefix.len();
    while j < field.len()
        invariant
            prefix@.len() <= j <= field@.len(),
            rest@ == field@.subrange(prefix@.len() as int, j as int),
        decreases field@.len() - j,
    {
        rest.push(field[j]);
        j += 1;
        assert(rest@ =~= field@.subrange(prefix@.len() as int, j as int));
    }
    Some(rest)
}

fn read_pid(value: &Vec<u8>) -> (r: Option<u32>)
    ensures
        r == pid_value(value@),
{
    let mut chars: Vec<char> = Vec::new();
    let mut i: usize = 0;
    while i < value.len()
        invariant
            i <= value@.len(),
            forall|k: int| 0 <= k < i ==> #[trigger] value@[k] < 0x80,
            chars@ == value@.take(i as int).map_values(|b: u8| b as char),
        decreases value@.len() - i,
    {
        if value[i] >= 0x80 {
            return None;
        }
        chars.push(value[i] as char);
        i += 1;
        assert(chars@ =~= value@.take(i as int).map_values(|b: u8| b as char));
    }
    assert(value@.take(value@.len() as int) =~= value@);
    let text = crate::text::string_of(chars.as_slice());
    match crate::text::parse_unsigned(text.as_str(), 4294967295) {
        Some(n) => Some(n as u32),
        None => None,
    }
}

fn find_pid(fields: &Vec<Vec<u8>>, prefix: &Vec<u8>) -> (r: Option<u32>)
    requires
        prefix@ == pid_variable(),
    ensures
        r == first_pid(fields@.map_values(|f: Vec<u8>| f@)),
{
    let ghost fv = fields@.map_values(|f: Vec<u8>| f@);
    let mut i: usize = 0;
    assert(fv.skip(0) =~= fv);
    while i < fields.len()
        invariant
            fv == fields@.map_values(|f: Vec<u8>| f@),
            prefix@ == pid_variable(),
            i <= fields@.len(),
            first_pid(fv) == first_pid(fv.skip(i as int)),
        decreases fields@.len() - i,
    {
        assert(fv.skip(i as int).drop_first() =~= fv.skip(i + 1));
        assert(fv.skip(i as int)[0] == fields@[i as int]@);
        if let Some(v) = strip_prefix_bytes(&fields[i], prefix) {
            if let Some(n) = read_pid(&v) {
                return Some(n);
            }
        }
        i += 1;
    }
    assert(fv.skip(i as int).len() == 0);
    None
}

fn find_file(fields: &Vec<Vec<u8>>, prefix: &Vec<u8>) -> (r: Option<String>)
    requires
        prefix@ == file_variable(),
    ensures
        opt_view(r) == first_file(fields@.map_values(|f: Vec<u8>| f@)),
{
    let ghost fv = fields@.map_values(|f: Vec<u8>| f@);
    let mut k: usize = 0;
    assert(fv.skip(0) =~= fv);
    while k < fields.len()
        invariant
            fv == fields@.map_values(|f: Vec<u8>| f@),
            prefix@ == file_variable(),
            k <= fields@.len(),
            first_file(fv) == first_file(fv.skip(k as int)),
        decreases fields@.len() - k,
    {
        assert(fv.skip(k as int).drop_first() =~= fv.skip(k + 1));
        assert(fv.skip(k as int)[0] == fields@[k as int]@);
        if let Some(v) = strip_prefix_bytes(&fields[k], prefix) {
            if let Some(text) = decode_utf8(v.as_slice()) {
                if let Some(name) = file_name(text.as_str()) {
                    return Some(name);
                }
            }
        }
        k += 1;
    }
    assert(fv.skip(k as int).len() == 0);
    None
}

/// The desktop id a process was launched from (see [`launched_id`]).
pub fn launched_desktop_id(environ: &[u8], pid: u32) -> (r: Option<String>)
    ensures
        opt_view(r) == launched_id(environ@, pid),
{
    let fields = split_fields(environ);
    proof {
        reveal_strlit("GIO_LAUNCHED_DESKTOP_FILE_PID=");
        reveal_strlit("GIO_LAUNCHED_DESKTOP_FILE=");
    }
    let pid_prefix = prefix_bytes("GIO_LAUNCHED_DESKTOP_FILE_PID=");
    let file_prefix = prefix_bytes("GIO_LAUNCHED_DESKTOP_FILE=");
    if find_pid(&fields, &pid_prefix) != Some(pid) {
        return None;
    }
    find_file(&fields, &file_prefix)
}

/// The label of the background-apps button: the icon, followed by the
/// number of background applications when there are any.
pub fn background_button_label(count: usize) -> (r: String)
    ensures
        r@ == if count == 0 {
            "󰀻"@
        } else {
            "󰀻 "@ + crate::text::decimal(count as nat)
        },
{
    if count == 0 {
        crate::text::owned("󰀻")
    } else {
        let mut s = crate::text::owned("󰀻 ");
        let digits = crate::text::decimal_string(count as u128);
        s.append(digits.as_str());
        s
    }
}

/// Whether a quit request may go ahead: every process it targets is
/// still among the application's current root processes.
pub fn targets_still_current(targets: &Vec<ProcessIdentity>, current: &Vec<ProcessIdentity>) -> (r:
    bool)
    ensures
        r == forall|i: int| 0 <= i < targets@.len() ==> current@.contains(#[trigger] targets@[i]),
{
    let mut i: usize = 0;
    while i < targets.len()
        invariant
            i <= targets@.len(),
            forall|k: int| 0 <= k < i ==> current@.contains(#[trigger] targets@[k]),
        decreases targets@.len() - i,
    {
        let t = targets[i];
        let mut j: usize = 0;
        let mut found = false;
        while j < current.len()
            invariant
                j <= current@.len(),
                found ==> current@.contains(t),
                !found ==> forall|q: int| 0 <= q < j ==> current@[q] != t,
            decreases current@.len() - j,
        {
            if current[j] == t {
                found = true;
                assert(current@[j as int] == t);
            }
            j += 1;
        }
        if !found {
            assert(!current@.contains(targets@[i as int]));
            return false;
        }
        i += 1;
    }
    true
}

/// Whether a process with this identity still runs (its id has not been
/// reused).
pub open spec fn identity_alive(procs: Seq<ProcessInfo>, identity: ProcessIdentity) -> bool {
    match process_index(procs, identity.pid) {
        Some(i) => procs[i].identity == identity,
        None => false,
    }
}

/// The test for an application that a window belongs to.
pub open spec fn owns(window: WindowProcess) -> spec_fn(AppIdentity) -> bool {
    |a: AppIdentity| window_matches(a, window)
}

/// How many applications a window matches.
pub open spec fn owner_count(apps: Seq<AppIdentity>, window: WindowProcess) -> nat
    decreases apps.len(),
{
    if apps.len() == 0 {
        0
    } else {
        owner_count(apps.drop_last(), window) + if window_matches(apps.last(), window) {
            1nat
        } else {
            0nat
        }
    }
}

/// The only application a window matches, if exactly one does.
pub open spec fn window_owner(apps: Seq<AppIdentity>, window: WindowProcess) -> Option<int> {
    if owner_count(apps, window) == 1 {
        first_where(apps, owns(window))
    } else {
        None
    }
}

/// The desktop ids remembered by process after a scan: the remembered
/// ids of processes that still run, then, window by window, the id of the
/// only application that the window matches, for the window's process.
pub open spec fn remembered(
    known: Map<ProcessIdentity, Seq<char>>,
    apps: Seq<AppIdentity>,
    windows: Seq<WindowProcess>,
    procs: Seq<ProcessInfo>,
) -> Map<ProcessIdentity, Seq<char>>
    decreases windows.len(),
{
    if windows.len() == 0 {
        Map::new(|k: ProcessIdentity| known.contains_key(k) && identity_alive(procs, k), |k| known[k])
    } else {
        let before = remembered(known, apps, windows.drop_last(), procs);
        let w = windows.last();
        match w.pid {
            Some(pid) => match process_index(procs, pid) {
                Some(pi) => match window_owner(apps, w) {
                    Some(ai) => before.insert(procs[pi].identity, apps[ai].id@),
                    None => before,
                },
                None => before,
            },
            None => before,
        }
    }
}

/// Whether each identity appears once in a list of remembered ids.
pub open spec fn unique_keys(list: Seq<(ProcessIdentity, String)>) -> bool {
    forall|i: int, j: int|
        0 <= i < list.len() && 0 <= j < list.len() && i != j ==> #[trigger] list[i].0
            != #[trigger] list[j].0
}

/// The map that a list of remembered ids with unique identities holds.
pub open spec fn map_of(list: Seq<(ProcessIdentity, String)>) -> Map<ProcessIdentity, Seq<char>> {
    Map::new(
        |k: ProcessIdentity| exists|i: int| 0 <= i < list.len() && #[trigger] list[i].0 == k,
        |k: ProcessIdentity| list[choose|i: int| 0 <= i < list.len() && #[trigger] list[i].0 == k].1@,
    )
}

proof fn lemma_map_of_at(list: Seq<(ProcessIdentity, String)>, i: int)
    requires
        unique_keys(list),
        0 <= i < list.len(),
    ensures
        map_of(list).contains_key(list[i].0),
        map_of(list)[list[i].0] == list[i].1@,
{
    let k = list[i].0;
    assert(exists|j: int| 0 <= j < list.len() && #[trigger] list[j].0 == k);
    let j = choose|j: int| 0 <= j < list.len() && #[trigger] list[j].0 == k;
    assert(i == j);
}

fn window_owner_index(apps: &Vec<AppIdentity>, window: &WindowProcess) -> (r: Option<usize>)
    ensures
        match r {
            Some(i) => window_owner(apps@, *window) == Some(i as int) && i < apps@.len(),
            None => window_owner(apps@, *window) is None,
        },
{
    let ghost p = owns(*window);
    let mut count: usize = 0;
    let mut first: Option<usize> = None;
    let mut i: usize = 0;
    assert(apps@.take(0) =~= Seq::<AppIdentity>::empty());
    while i < apps.len()
        invariant
            p == owns(*window),
            i <= apps@.len(),
            count == owner_count(apps@.take(i as int), *window),
            count <= i,
            match first {
                Some(f) => f < i && p(apps@[f as int]) && forall|k: int|
                    0 <= k < f ==> !p(#[trigger] apps@[k]),
                None => forall|k: int| 0 <= k < i ==> !p(#[trigger] apps@[k]),
            },
        decreases apps@.len() - i,
    {
        assert(apps@.take(i + 1).drop_last() =~= apps@.take(i as int));
        if matches_window(&apps[i], window) {
            if first.is_none() {
                first = Some(i);
            }
            count = count + 1;
        }
        i += 1;
    }
    assert(apps@.take(apps@.len() as int) =~= apps@);
    match first {
        Some(f) => {
            proof {
                crate::text::lemma_first_where(apps@, p, f as int);
            }
            if count == 1 {
                Some(f)
            } else {
                None
            }
        },
        None => {
            proof {
                crate::text::lemma_first_where(apps@, p, apps@.len() as int);
            }
            None
        },
    }
}

/// Where an identity stands in a list of remembered ids, if it does.
fn key_slot(list: &Vec<(ProcessIdentity, String)>, identity: ProcessIdentity) -> (r: Option<
    usize,
>)
    ensures
        match r {
            Some(s) => s < list@.len() && list@[s as int].0 == identity,
            None => forall|q: int| 0 <= q < list@.len() ==> list@[q].0 != identity,
        },
{
    let mut j: usize = 0;
    while j < list.len()
        invariant
            j <= list@.len(),
            forall|q: int| 0 <= q < j ==> list@[q].0 != identity,
        decreases list@.len() - j,
    {
        if list[j].0 == identity {
            return Some(j);
        }
        j += 1;
    }
    None
}

/// Overwriting the entry of an identity updates the map at that identity.
proof fn lemma_map_of_set(
    list: Seq<(ProcessIdentity, String)>,
    s: int,
    entry: (ProcessIdentity, String),
)
    requires
        unique_keys(list),
        0 <= s < list.len(),
        list[s].0 == entry.0,
    ensures
        unique_keys(list.update(s, entry)),
        map_of(list.update(s, entry)) == map_of(list).insert(entry.0, entry.1@),
{
    let after = list.update(s, entry);
    assert forall|a: int, b: int|
        0 <= a < after.len() && 0 <= b < after.len() && a != b implies #[trigger] after[a].0
        != #[trigger] after[b].0 by {
        assert(after[a].0 == list[a].0);
        assert(after[b].0 == list[b].0);
    }
    let target = map_of(list).insert(entry.0, entry.1@);
    lemma_map_of_at(after, s);
    assert forall|k: ProcessIdentity| #[trigger]
        map_of(after).contains_key(k) <==> target.contains_key(k) by {
        if map_of(after).contains_key(k) {
            let q = choose|q: int| 0 <= q < after.len() && #[trigger] after[q].0 == k;
            assert(list[q].0 == k);
            lemma_map_of_at(list, q);
        }
        if map_of(list).contains_key(k) {
            let q = choose|q: int| 0 <= q < list.len() && #[trigger] list[q].0 == k;
            assert(after[q].0 == k);
        }
    }
    assert forall|k: ProcessIdentity| #[trigger]
        map_of(after).contains_key(k) implies map_of(after)[k] == target[k] by {
        let q = choose|q: int| 0 <= q < after.len() && #[trigger] after[q].0 == k;
        lemma_map_of_at(after, q);
        if q != s {
            assert(after[q] == list[q]);
            lemma_map_of_at(list, q);
        }
    }
    assert(map_of(after) =~= target);
}

/// Appending an identity not yet listed adds it to the map.
proof fn lemma_map_of_push(list: Seq<(ProcessIdentity, String)>, entry: (ProcessIdentity, String))
    requires
        unique_keys(list),
        forall|q: int| 0 <= q < list.len() ==> list[q].0 != entry.0,
    ensures
        unique_keys(list.push(entry)),
        map_of(list.push(entry)) == map_of(list).insert(entry.0, entry.1@),
{
    let after = list.push(entry);
    let n = list.len() as int;
    assert forall|a: int, b: int|
        0 <= a < after.len() && 0 <= b < after.len() && a != b implies #[trigger] after[a].0
        != #[trigger] after[b].0 by {
        if a < n {
            assert(after[a] == list[a]);
        }
        if b < n {
            assert(after[b] == list[b]);
        }
    }
    let target = map_of(list).insert(entry.0, entry.1@);
    lemma_map_of_at(after, n);
    assert forall|k: ProcessIdentity| #[trigger]
        map_of(after).contains_key(k) <==> target.contains_key(k) by {
        if map_of(after).contains_key(k) {
            let q = choose|q: int| 0 <= q < after.len() && #[trigger] after[q].0 == k;
            if q < n {
                assert(list[q].0 == k);
                lemma_map_of_at(list, q);
            }
        }
        if map_of(list).contains_key(k) {
            let q = choose|q: int| 0 <= q < list.len() && #[trigger] list[q].0 == k;
            assert(after[q].0 == k);
        }
    }
    assert forall|k: ProcessIdentity| #[trigger]
        map_of(after).contains_key(k) implies map_of(after)[k] == target[k] by {
        let q = choose|q: int| 0 <= q < after.len() && #[trigger] after[q].0 == k;
        lemma_map_of_at(after, q);
        if q < n {
            assert(after[q] == list[q]);
            lemma_map_of_at(list, q);
        }
    }
    assert(map_of(after) =~= target);
}

fn alive(processes: &Vec<ProcessInfo>, identity: ProcessIdentity) -> (r: bool)
    ensures
        r == identity_alive(processes@, identity),
{
    match find_process(processes, identity.pid) {
        Some(i) => processes[i].identity == identity,
        None => false,
    }
}

/// The desktop ids remembered by process after a scan (see
/// [`remembered`]); each identity is listed once.
pub fn remember_windows(
    known: &Vec<(ProcessIdentity, String)>,
    apps: &Vec<AppIdentity>,
    windows: &Vec<WindowProcess>,
    processes: &Vec<ProcessInfo>,
) -> (r: Vec<(ProcessIdentity, String)>)
    requires
        unique_keys(known@),
    ensures
        unique_keys(r@),
        map_of(r@) == remembered(map_of(known@), apps@, windows@, processes@),
{
    let ghost km = map_of(known@);
    let mut list: Vec<(ProcessIdentity, String)> = Vec::new();
    let mut i: usize = 0;
    while i < known.len()
        invariant
            unique_keys(known@),
            km == map_of(known@),
            i <= known@.len(),
            unique_keys(list@),
            forall|k: ProcessIdentity|
                #![trigger map_of(list@).contains_key(k)]
                map_of(list@).contains_key(k) <==> (exists|j: int|
                    0 <= j < i && #[trigger] known@[j].0 == k) && identity_alive(processes@, k),
            forall|k: ProcessIdentity|
                #![trigger map_of(list@).contains_key(k)]
                map_of(list@).contains_key(k) ==> map_of(list@)[k] == km[k],
        decreases known@.len() - i,
    {
        let identity = known[i].0;
        let ghost before = list@;
        if alive(processes, identity) {
            proof {
                assert forall|j: int| 0 <= j < before.len() implies before[j].0 != identity by {
                    assert(map_of(before).contains_key(before[j].0)) by {
                        lemma_map_of_at(before, j);
                    }
                    let q = choose|q: int| 0 <= q < i && #[trigger] known@[q].0 == before[j].0;
                    assert(q != i);
                }
            }
            list.push((identity, crate::text::owned(known[i].1.as_str())));
            proof {
                let after = list@;
                assert(unique_keys(after)) by {
                    assert forall|a: int, b: int|
                        0 <= a < after.len() && 0 <= b < after.len() && a != b implies #[trigger] after[a].0
                        != #[trigger] after[b].0 by {
                        if a < before.len() && b < before.len() {
                            assert(after[a] == before[a] && after[b] == before[b]);
                        } else if a < before.len() {
                            assert(after[a] == before[a]);
                        } else {
                            assert(after[b] == before[b]);
                        }
                    }
                }
                lemma_map_of_at(known@, i as int);
                lemma_map_of_at(after, before.len() as int);
                assert forall|k: ProcessIdentity|
                    #![trigger map_of(after).contains_key(k)]
                    map_of(after).contains_key(k) <==> (exists|j: int|
                        0 <= j < i + 1 && #[trigger] known@[j].0 == k) && identity_alive(
                        processes@,
                        k,
                    ) by {
                    if map_of(after).contains_key(k) {
                        let q = choose|q: int| 0 <= q < after.len() && #[trigger] after[q].0 == k;
                        if q < before.len() {
                            assert(after[q] == before[q]);
                            lemma_map_of_at(before, q);
                            let j = choose|j: int| 0 <= j < i && #[trigger] known@[j].0 == k;
                            assert(0 <= j < i + 1);
                        } else {
                            assert(known@[i as int].0 == k);
                        }
                    }
                    if (exists|j: int| 0 <= j < i + 1 && #[trigger] known@[j].0 == k)
                        && identity_alive(processes@, k) {
                        let j = choose|j: int| 0 <= j < i + 1 && #[trigger] known@[j].0 == k;
                        if j < i {
                            assert(map_of(before).contains_key(k));
                            let q = choose|q: int| 0 <= q < before.len() && #[trigger] before[q].0 == k;
                            assert(after[q].0 == k);
                        } else {
                            assert(after[before.len() as int].0 == k);
                        }
                    }
                }
                assert forall|k: ProcessIdentity|
                    #![trigger map_of(after).contains_key(k)]
                    map_of(after).contains_key(k) implies map_of(after)[k] == km[k] by {
                    let q = choose|q: int| 0 <= q < after.len() && #[trigger] after[q].0 == k;
                    lemma_map_of_at(after, q);
                    if q < before.len() {
                        assert(after[q] == before[q]);
                        lemma_map_of_at(before, q);
                    }
                }
            }
        } else {
            proof {
                assert forall|k: ProcessIdentity|
                    #![trigger map_of(list@).contains_key(k)]
                    map_of(list@).contains_key(k) <==> (exists|j: int|
                        0 <= j < i + 1 && #[trigger] known@[j].0 == k) && identity_alive(
                        processes@,
                        k,
                    ) by {
                    if (exists|j: int| 0 <= j < i + 1 && #[trigger] known@[j].0 == k)
                        && identity_alive(processes@, k) {
                        let j = choose|j: int| 0 <= j < i + 1 && #[trigger] known@[j].0 == k;
                        if j == i {
                            assert(known@[i as int].0 == identity);
                        }
                        assert(exists|j: int| 0 <= j < i && #[trigger] known@[j].0 == k);
                    }
                }
            }
        }
        i += 1;
    }
    proof {
        assert(map_of(list@) =~= remembered(km, apps@, windows@.take(0), processes@)) by {
            assert forall|k: ProcessIdentity| #[trigger] map_of(list@).contains_key(k) <==> (
            km.contains_key(k) && identity_alive(processes@, k)) by {}
        }
    }
    let mut w: usize = 0;
    while w < windows.len()
        invariant
            w <= windows@.len(),
            unique_keys(list@),
            map_of(list@) == remembered(km, apps@, windows@.take(w as int), processes@),
        decreases windows@.len() - w,
    {
        let ghost before = list@;
        assert(windows@.take(w + 1).drop_last() =~= windows@.take(w as int));
        assert(windows@.take(w + 1).last() == windows@[w as int]);
        let window = &windows[w];
        if let Some(pid) = window.pid {
            if let Some(pi) = find_process(processes, pid) {
                if let Some(ai) = window_owner_index(apps, window) {
                    let identity = processes[pi].identity;
                    let id = crate::text::owned(apps[ai].id.as_str());
                    let ghost entry = (identity, id);
                    match key_slot(&list, identity) {
                        Some(s) => {
                            list.set(s, (identity, id));
                            proof {
                                lemma_map_of_set(before, s as int, entry);
                            }
                        },
                        None => {
                            list.push((identity, id));
                            proof {
                                lemma_map_of_push(before, entry);
                            }
                        },
                    }
                }
            }
        }
        w += 1;
    }
    assert(windows@.take(windows@.len() as int) =~= windows@);
    list
}

} // verus!
