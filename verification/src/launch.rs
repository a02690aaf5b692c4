//! Turning command strings into processes to start: quoting, leading
//! environment assignments, and what goes to the compositor.

use vstd::prelude::*;
use crate::text::{chars_of, index_of_char, index_of_char_exec, remove_chars, remove_chars_exec, slice_vec, split_whitespace_exec, string_of, trim, trim_vec, words};

verus! {

#[verifier::external_type_specification]
#[verifier::external_body]
pub struct ExShellParseError(shell_words::ParseError);

/// What `shell_words::split` returns for a command line: its words, or
/// `None` when it reports an error.
pub uninterp spec fn shell_split(s: Seq<char>) -> Option<Seq<Seq<char>>>;

/// Calls `shell_words::split`, which splits a command line into words by
/// POSIX shell quoting rules and reports an unmatched quote as an error.
/// The contract only ties the outcome to the name `shell_split`.
#[verifier::external_body]
fn shell_words_split(s: &str) -> (r: Result<Vec<String>, shell_words::ParseError>)
    ensures
        r matches Ok(v) ==> shell_split(s@) == Some(v.deep_view()),
        r is Err ==> shell_split(s@) is None,
{
    shell_words::split(s)
}

/// The words of a command line: shell quoting rules, or plain whitespace
/// splitting when the quotes are unbalanced.
pub open spec fn command_words(command: Seq<char>) -> Seq<Seq<char>> {
    match shell_split(command) {
        Some(w) => w,
        None => words(command),
    }
}

/// Splits a command string into arguments using POSIX shell quoting rules.
/// Falls back to whitespace splitting if the command has unbalanced quotes.
pub fn split_command(command: &str) -> (r: Vec<String>)
    ensures
        r.deep_view() == command_words(command@),
{
    match shell_words_split(command) {
        Ok(parts) => parts,
        Err(_) => split_whitespace_exec(&chars_of(command)),
    }
}

/// Characters that compositor IPC would treat as command separators or
/// substitutions.
pub open spec fn exec_unsafe_chars() -> Seq<char> {
    seq![';', '`', '$', '|', '&', '\n', '\r']
}

/// Sanitizes a command string before passing it to compositor exec:
/// strips characters that could chain commands (`;`, newlines), start
/// substitutions (backticks, `$`) or pipe/background (`|`, `&`).
pub fn sanitize_exec_command(cmd: &str) -> (r: String)
    ensures
        r@ == remove_chars(cmd@, exec_unsafe_chars()),
{
    let bad = vec![';', '`', '$', '|', '&', '\n', '\r'];
    assert(bad@ =~= exec_unsafe_chars());
    remove_chars_exec(&chars_of(cmd), &bad)
}

/// A valid POSIX environment variable name: a letter or `_` followed by
/// letters, digits or `_`.
pub open spec fn is_env_key(k: Seq<char>) -> bool {
    &&& k.len() > 0
    &&& (('a' <= k[0] <= 'z') || ('A' <= k[0] <= 'Z') || k[0] == '_')
    &&& forall|i: int|
        0 <= i < k.len() ==> (('a' <= #[trigger] k[i] <= 'z') || ('A' <= k[i] <= 'Z') || ('0'
            <= k[i] <= '9') || k[i] == '_')
}

/// The `KEY=VALUE` assignment that `w` is, split at its first `=`.
pub open spec fn env_assignment(w: Seq<char>) -> Option<(Seq<char>, Seq<char>)> {
    match index_of_char(w, '=') {
        Some(k) => if 0 <= k < w.len() && is_env_key(w.take(k)) {
            Some((w.take(k), w.skip(k + 1)))
        } else {
            None
        },
        None => None,
    }
}

/// Number of leading words that are environment assignments.
pub open spec fn env_prefix_len(ws: Seq<Seq<char>>) -> nat
    decreases ws.len(),
{
    if ws.len() == 0 || env_assignment(ws[0]) is None {
        0
    } else {
        1 + env_prefix_len(ws.drop_first())
    }
}

fn is_env_key_exec(k: &Vec<char>) -> (b: bool)
    ensures
        b == is_env_key(k@),
{
    if k.len() == 0 {
        return false;
    }
    let c0 = k[0];
    if !(('a' <= c0 && c0 <= 'z') || ('A' <= c0 && c0 <= 'Z') || c0 == '_') {
        return false;
    }
    let mut i: usize = 0;
    while i < k.len()
        invariant
            i <= k@.len(),
            forall|j: int|
                0 <= j < i ==> (('a' <= #[trigger] k@[j] <= 'z') || ('A' <= k@[j] <= 'Z') || (
                '0' <= k@[j] <= '9') || k@[j] == '_'),
        decreases k@.len() - i,
    {
        let c = k[i];
        if !(('a' <= c && c <= 'z') || ('A' <= c && c <= 'Z') || ('0' <= c && c <= '9') || c
            == '_') {
            return false;
        }
        i += 1;
    }
    true
}

fn env_assignment_exec(w: &Vec<char>) -> (r: Option<(String, String)>)
    ensures
        r matches Some((k, v)) ==> env_assignment(w@) == Some((k@, v@)),
        r is None ==> env_assignment(w@) is None,
{
    proof {
        crate::text::lemma_index_of_char(w@, '=');
    }
    match index_of_char_exec(w, '=') {
        Some(k) => {
            assert(k < w.len());
            let key = slice_vec(w, 0, k);
            assert(key@ =~= w@.take(k as int));
            if is_env_key_exec(&key) {
                let val = slice_vec(w, k + 1, w.len());
                assert(val@ =~= w@.skip(k + 1));
                Some((string_of(&key), string_of(&val)))
            } else {
                None
            }
        },
        None => None,
    }
}

proof fn lemma_env_prefix_len(ws: Seq<Seq<char>>, i: int)
    requires
        0 <= i <= ws.len(),
        forall|j: int| 0 <= j < i ==> env_assignment(#[trigger] ws[j]) is Some,
        i < ws.len() ==> env_assignment(ws[i]) is None,
    ensures
        env_prefix_len(ws) == i,
    decreases i,
{
    if i > 0 {
        assert(env_assignment(ws[0]) is Some);
        assert forall|j: int| 0 <= j < i - 1 implies env_assignment(
            #[trigger] ws.drop_first()[j],
        ) is Some by {
            assert(ws.drop_first()[j] == ws[j + 1]);
        }
        if i < ws.len() {
            assert(ws.drop_first()[i - 1] == ws[i]);
        }
        lemma_env_prefix_len(ws.drop_first(), i - 1);
    }
}

/// The environment assignments that lead a split command, and the words
/// that remain after them, which form the command itself (none when every
/// word is an assignment).
pub open spec fn env_split(ws: Seq<Seq<char>>) -> (Seq<(Seq<char>, Seq<char>)>, Seq<Seq<char>>) {
    let n = env_prefix_len(ws) as int;
    let env = Seq::new(n as nat, |j: int| env_assignment(ws[j])->0);
    (env, ws.skip(n))
}

/// Extracts leading `KEY=VALUE` environment assignments from a split
/// command. Returns (environment assignments, remaining arguments); only
/// keys that are valid POSIX identifiers count as assignments.
pub fn extract_env_prefix(elements: &[String]) -> (r: (Vec<(String, String)>, Vec<String>))
    ensures
        r.0@.map_values(|p: (String, String)| (p.0@, p.1@)) == env_split(
            elements@.map_values(|s: String| s@),
        ).0,
        r.1.deep_view() == env_split(elements@.map_values(|s: String| s@)).1,
{
    let ghost ws = elements@.map_values(|s: String| s@);
    let mut env: Vec<(String, String)> = Vec::new();
    let mut idx: usize = 0;
    let mut done = false;
    while idx < elements.len() && !done
        invariant
            idx <= elements@.len(),
            done ==> idx < elements@.len() && env_assignment(ws[idx as int]) is None,
            ws == elements@.map_values(|s: String| s@),
            forall|j: int| 0 <= j < idx ==> env_assignment(#[trigger] ws[j]) is Some,
            env@.len() == idx,
            forall|j: int|
                0 <= j < idx ==> (#[trigger] env@[j].0@, env@[j].1@) == env_assignment(ws[j])->0,
        decreases elements@.len() - idx + (if done { 0int } else { 1int }),
    {
        let w = chars_of(elements[idx].as_str());
        assert(ws[idx as int] == elements@[idx as int]@);
        match env_assignment_exec(&w) {
            Some(kv) => {
                env.push(kv);
                idx += 1;
            },
            None => {
                done = true;
            },
        }
    }
    proof {
        lemma_env_prefix_len(ws, idx as int);
        assert(env@.map_values(|p: (String, String)| (p.0@, p.1@)) =~= env_split(ws).0);
    }
    let start = idx;
    let mut rest: Vec<String> = Vec::new();
    let mut k = start;
    while k < elements.len()
        invariant
            start <= k <= elements@.len(),
            ws == elements@.map_values(|s: String| s@),
            rest.deep_view() == ws.subrange(start as int, k as int),
        decreases elements@.len() - k,
    {
        let ghost before = rest.deep_view();
        assert(ws[k as int] == elements@[k as int]@);
        rest.push(elements[k].clone());
        assert(rest.deep_view() =~= before.push(ws[k as int]));
        k += 1;
        assert(rest.deep_view() =~= ws.subrange(start as int, k as int));
    }
    proof {
        assert(ws.subrange(start as int, ws.len() as int) =~= ws.skip(idx as int));
    }
    (env, rest)
}

/// A process to start: environment assignments and the program with its
/// arguments (never empty).
pub struct LaunchPlan {
    pub env: Vec<(String, String)>,
    pub args: Vec<String>,
}

/// The process that `launch_command` starts for a command string: the
/// command's words with their leading environment assignments taken out,
/// or none when no word is left after the assignments.
pub open spec fn launch_plan_of(command: Seq<char>) -> Option<(Seq<(Seq<char>, Seq<char>)>, Seq<Seq<char>>)> {
    let ws = command_words(command);
    if env_split(ws).1.len() == 0 {
        None
    } else {
        Some(env_split(ws))
    }
}

/// The process that launching a raw command string starts directly,
/// without the compositor: its words by POSIX quoting, leading `KEY=VALUE`
/// words as environment. `None` when no program is left to start.
pub fn launch_command(command: &str) -> (r: Option<LaunchPlan>)
    ensures
        r matches Some(p) ==> launch_plan_of(command@) == Some((
            p.env@.map_values(|e: (String, String)| (e.0@, e.1@)),
            p.args.deep_view(),
        )),
        r is None ==> launch_plan_of(command@) is None,
        r matches Some(p) ==> p.args@.len() > 0,
{
    let elements = split_command(command);
    if elements.len() == 0 {
        return None;
    }
    let (env, args) = extract_env_prefix(elements.as_slice());
    proof {
        assert(elements@.map_values(|s: String| s@) =~= elements.deep_view());
        assert(args.deep_view().len() == args@.len());
    }
    if args.len() == 0 {
        return None;
    }
    Some(LaunchPlan { env, args })
}

/// How a command is started through the compositor.
pub enum CompositorLaunch {
    /// The command is blank: nothing is started.
    Nothing,
    /// Start `uwsm app -- <args>` with the environment assignments; if
    /// uwsm cannot be started, start `fallback` directly.
    Uwsm { plan: LaunchPlan, fallback: String },
    /// Hand the command, quotes intact, to the compositor's exec.
    Exec(String),
}

/// Decides how `launch_via_compositor` starts a command: nothing for a
/// blank command; through `uwsm app --` when uwsm mode is on (the trimmed
/// command split by shell rules, leading assignments as environment);
/// otherwise the command as given, for the compositor to parse.
fn plan_compositor_launch(command: &str, uwsm_mode: bool) -> (r: CompositorLaunch)
    ensures
        trim(command@).len() == 0 ==> r is Nothing,
        trim(command@).len() > 0 && !uwsm_mode ==> (r matches CompositorLaunch::Exec(c) && c@
            == command@),
        trim(command@).len() > 0 && uwsm_mode ==> match r {
            CompositorLaunch::Uwsm { plan, fallback } => {
                &&& fallback@ == trim(command@)
                &&& plan.args.deep_view().len() >= 3
                &&& plan.args.deep_view()[0] == "app"@
                &&& plan.args.deep_view()[1] == "--"@
                &&& launch_plan_of(trim(command@)) == Some((
                    plan.env@.map_values(|e: (String, String)| (e.0@, e.1@)),
                    plan.args.deep_view().skip(2),
                ))
            },
            CompositorLaunch::Nothing => launch_plan_of(trim(command@)) is None,
            _ => false,
        },
{
    let t = string_of(&trim_vec(&chars_of(command)));
    if t.as_str().is_empty() {
        return CompositorLaunch::Nothing;
    }
    if !uwsm_mode {
        return CompositorLaunch::Exec(command.to_owned());
    }
    match launch_command(t.as_str()) {
        None => CompositorLaunch::Nothing,
        Some(p) => {
            let mut args: Vec<String> = Vec::new();
            args.push("app".to_owned());
            args.push("--".to_owned());
            let mut i: usize = 0;
            while i < p.args.len()
                invariant
                    i <= p.args@.len(),
                    args@.len() == 2 + i,
                    args.deep_view()[0] == "app"@,
                    args.deep_view()[1] == "--"@,
                    args.deep_view().skip(2) == p.args.deep_view().take(i as int),
                decreases p.args@.len() - i,
            {
                let ghost before = args.deep_view();
                args.push(p.args[i].clone());
                assert(args.deep_view() =~= before.push(p.args@[i as int]@));
                assert(args.deep_view().skip(2) =~= p.args.deep_view().take(i + 1));
                i += 1;
            }
            assert(p.args.deep_view().take(p.args@.len() as int) =~= p.args.deep_view());
            CompositorLaunch::Uwsm { plan: LaunchPlan { env: p.env, args }, fallback: t }
        },
    }
}

/// `term -e command`: a command wrapped to run in a terminal.
pub open spec fn terminal_command(command: Seq<char>, term: Seq<char>) -> Seq<char> {
    term + " -e "@ + command
}

/// Wraps a command to run inside the terminal emulator `term`.
pub fn terminal_wrap(command: &str, term: &str) -> (r: String)
    ensures
        r@ == terminal_command(command@, term@),
{
    let mut s = term.to_owned();
    s.append(" -e ");
    s.append(command);
    s
}

/// The Hyprland request that launches a command via `dispatch exec`:
/// double quotes are removed, and a blank command gives none.
pub open spec fn hyprctl_exec_request(command: Seq<char>) -> Option<Seq<char>> {
    let c = remove_chars(command, seq!['"']);
    if trim(c).len() == 0 {
        None
    } else {
        Some("dispatch exec "@ + c)
    }
}

/// The `hyprctl` request that launches a command via `dispatch exec`,
/// with double quotes removed; none for a blank command.
pub fn launch_hyprctl(command: &str) -> (r: Option<String>)
    ensures
        r matches Some(q) ==> hyprctl_exec_request(command@) == Some(q@),
        r is None ==> hyprctl_exec_request(command@) is None,
{
    let q = vec!['"'];
    assert(q@ =~= seq!['"']);
    let c = remove_chars_exec(&chars_of(command), &q);
    let t = trim_vec(&chars_of(c.as_str()));
    if t.len() == 0 {
        return None;
    }
    let mut s = "dispatch exec ".to_owned();
    s.append(c.as_str());
    Some(s)
}


/// The `hyprctl` request that launches a command inside terminal `term`.
pub fn launch_hyprctl_terminal(command: &str, term: &str) -> (r: Option<String>)
    ensures
        r matches Some(q) ==> hyprctl_exec_request(terminal_command(command@, term@)) == Some(q@),
        r is None ==> hyprctl_exec_request(terminal_command(command@, term@)) is None,
{
    let full = terminal_wrap(command, term);
    launch_hyprctl(full.as_str())
}

/// The shell command that `sh -c` runs for a user-configured command
/// string: the command trimmed, or none when it is blank.
pub fn launch_shell_command(command: &str) -> (r: Option<String>)
    ensures
        trim(command@).len() == 0 ==> r is None,
        trim(command@).len() > 0 ==> (r matches Some(c) && c@ == trim(command@)),
{
    let t = string_of(&trim_vec(&chars_of(command)));
    if t.as_str().is_empty() {
        None
    } else {
        Some(t)
    }
}

/// How commands are launched: directly through the compositor, or
/// wrapped by `uwsm app --` (set once at startup from `--wm uwsm`).
pub struct LaunchSettings {
    pub uwsm: bool,
}

impl LaunchSettings {
    /// Launches go through the compositor.
    pub fn new() -> (r: Self)
        ensures
            !r.uwsm,
    {
        LaunchSettings { uwsm: false }
    }

    /// Enables or disables uwsm launch mode.
    pub fn set_uwsm_mode(&mut self, enabled: bool)
        ensures
            final(self).uwsm == enabled,
    {
        self.uwsm = enabled;
    }

    /// Whether uwsm launch mode is on.
    pub fn uwsm_mode(&self) -> (b: bool)
        ensures
            b == self.uwsm,
    {
        self.uwsm
    }

    /// How a command is launched: nothing for a blank command; through
    /// `uwsm app --` in uwsm mode (the trimmed command split by shell
    /// rules, leading assignments as environment, and the trimmed command
    /// to start directly should uwsm be missing); otherwise the command as
    /// given, quotes intact, for the compositor's exec.
    pub fn launch_via_compositor(&self, command: &str) -> (r: CompositorLaunch)
        ensures
            trim(command@).len() == 0 ==> r is Nothing,
            trim(command@).len() > 0 && !self.uwsm ==> (r matches CompositorLaunch::Exec(c) && c@
                == command@),
            trim(command@).len() > 0 && self.uwsm ==> match r {
                CompositorLaunch::Uwsm { plan, fallback } => {
                    &&& fallback@ == trim(command@)
                    &&& plan.args.deep_view().len() >= 3
                    &&& plan.args.deep_view()[0] == "app"@
                    &&& plan.args.deep_view()[1] == "--"@
                    &&& launch_plan_of(trim(command@)) == Some((
                        plan.env@.map_values(|e: (String, String)| (e.0@, e.1@)),
                        plan.args.deep_view().skip(2),
                    ))
                },
                CompositorLaunch::Nothing => launch_plan_of(trim(command@)) is None,
                _ => false,
            },
    {
        plan_compositor_launch(command, self.uwsm)
    }

    /// Launches a command inside terminal `term` through the compositor.
    pub fn launch_terminal_via_compositor(&self, command: &str, term: &str) -> (r: CompositorLaunch)
        ensures
            ({
                let full = terminal_command(command@, term@);
                &&& trim(full).len() == 0 ==> r is Nothing
                &&& trim(full).len() > 0 && !self.uwsm ==> (r matches CompositorLaunch::Exec(c)
                    && c@ == full)
                &&& trim(full).len() > 0 && self.uwsm ==> match r {
                    CompositorLaunch::Uwsm { plan, fallback } => {
                        &&& fallback@ == trim(full)
                        &&& plan.args.deep_view().len() >= 3
                        &&& plan.args.deep_view()[0] == "app"@
                        &&& plan.args.deep_view()[1] == "--"@
                        &&& launch_plan_of(trim(full)) == Some((
                            plan.env@.map_values(|e: (String, String)| (e.0@, e.1@)),
                            plan.args.deep_view().skip(2),
                        ))
                    },
                    CompositorLaunch::Nothing => launch_plan_of(trim(full)) is None,
                    _ => false,
                }
            }),
    {
        let full = terminal_wrap(command, term);
        self.launch_via_compositor(full.as_str())
    }
}


/// The command that launching an application by its class runs: the
/// command its `.desktop` file gives (see `get_exec`), else the class.
pub open spec fn app_command(app_id: Seq<char>, desktop_lines: Option<Seq<Seq<char>>>) -> Seq<char> {
    match desktop_lines {
        Some(ls) => crate::desktop_search::exec_in_lines(app_id, ls),
        None => app_id,
    }
}

/// The process that launching an application by its class starts
/// directly, given the lines of its `.desktop` file (if found).
pub fn launch(app_id: &str, desktop_lines: Option<Vec<String>>) -> (r: Option<LaunchPlan>)
    requires
        desktop_lines matches Some(ls) ==> crate::desktop_search::exec_lines_cuttable(ls.deep_view()),
    ensures
        ({
            let c = app_command(app_id@, match desktop_lines {
                Some(ls) => Some(ls.deep_view()),
                None => None,
            });
            &&& r matches Some(p) ==> launch_plan_of(c) == Some((
                p.env@.map_values(|e: (String, String)| (e.0@, e.1@)),
                p.args.deep_view(),
            ))
            &&& r is None ==> launch_plan_of(c) is None
        }),
{
    let command = match crate::desktop_search::get_exec(app_id, desktop_lines) {
        Some(c) => c,
        None => app_id.to_owned(),
    };
    launch_command(command.as_str())
}

/// `launch` with `.desktop` lines whose command can be read; none (the
/// outer option) when it cannot.
pub fn launch_checked(app_id: &str, desktop_lines: Option<Vec<String>>) -> (r: Option<Option<LaunchPlan>>)
    ensures
        r is None <==> (desktop_lines matches Some(ls) && !crate::desktop_search::exec_lines_cuttable(
            ls.deep_view(),
        )),
        r matches Some(x) ==> ({
            let c = app_command(app_id@, match desktop_lines {
                Some(ls) => Some(ls.deep_view()),
                None => None,
            });
            &&& x matches Some(p) ==> launch_plan_of(c) == Some((
                p.env@.map_values(|e: (String, String)| (e.0@, e.1@)),
                p.args.deep_view(),
            ))
            &&& x is None ==> launch_plan_of(c) is None
        }),
{
    match &desktop_lines {
        Some(ls) => if !crate::desktop_search::exec_lines_cut_ok(ls) {
            return None;
        },
        None => {},
    }
    Some(launch(app_id, desktop_lines))
}


/// Sanitizing a command leaves none of the characters that could chain
/// or substitute commands.
pub proof fn sanitize_law(cmd: Seq<char>)
    ensures
        forall|i: int|
            0 <= i < remove_chars(cmd, exec_unsafe_chars()).len() ==> !exec_unsafe_chars().contains(
                #[trigger] remove_chars(cmd, exec_unsafe_chars())[i],
            ),
{
    crate::text::lemma_remove_chars_excludes(cmd, exec_unsafe_chars());
}

} // verus!
