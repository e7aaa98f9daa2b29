//! Thunderbird's launch command and the recognition of its processes.
//!
//! Starting processes, reading `/proc` and talking to KWin are done by the
//! application; this module decides what to run and what the answers mean.

use crate::path::{file_name_of, path_file_name};
use crate::text::{
    chars_of, contains, eq_ignore_ascii_case, range_contains, range_eq_ignore_ascii_case,
    split_on, split_ranges, string_of_range, texts,
};
use vstd::prelude::*;

verus! {

/// What `shlex::split` yields for a command line: its words, or `None` when the
/// quoting is unbalanced.
pub uninterp spec fn shlex_split(s: Seq<char>) -> Option<Seq<Seq<char>>>;

/// Splits a command line into words as a POSIX shell would, with `shlex::split`.
#[verifier::external_body]
fn split_command(s: &str) -> (r: Option<Vec<String>>)
    ensures
        r is Some <==> shlex_split(s@) is Some,
        r matches Some(v) ==> shlex_split(s@) == Some(texts(v@)),
{
    shlex::split(s)
}

/// The words of the launch command: the split words when there are any, else
/// plain `thunderbird`.
pub open spec fn command_words(split: Option<Seq<Seq<char>>>) -> Seq<Seq<char>> {
    match split {
        Some(words) => if words.len() > 0 {
            words
        } else {
            seq!["thunderbird"@]
        },
        None => seq!["thunderbird"@],
    }
}

/// How Thunderbird is launched: a program and its arguments, run without a shell.
pub struct WindowManager {
    program: String,
    args: Vec<String>,
}

impl WindowManager {
    /// The program that is run.
    pub closed spec fn program_text(&self) -> Seq<char> {
        self.program@
    }

    /// The arguments it is given.
    pub closed spec fn arg_texts(&self) -> Seq<Seq<char>> {
        texts(self.args@)
    }

    /// Builds the launch from a command line split into words (`None` when the
    /// command line could not be split): the first word is the program, the rest
    /// its arguments; without words, `thunderbird` is run.
    pub fn from_words(words: Option<Vec<String>>) -> (r: Self)
        ensures
            ({
                let w = command_words(
                    match words {
                        Some(v) => Some(texts(v@)),
                        None => None,
                    },
                );
                r.program_text() == w[0] && r.arg_texts() == w.drop_first()
            }),
    {
        let mut parts = match words {
            Some(v) => if v.len() > 0 {
                v
            } else {
                let mut d: Vec<String> = Vec::new();
                d.push(String::from_str("thunderbird"));
                d
            },
            None => {
                let mut d: Vec<String> = Vec::new();
                d.push(String::from_str("thunderbird"));
                d
            },
        };
        let ghost w = texts(parts@);
        let program = parts.remove(0);
        assert(texts(parts@) =~= w.drop_first());
        WindowManager { program, args: parts }
    }

    /// Splits the configured command without invoking a shell, so that commands
    /// such as `snap run thunderbird` work.
    pub fn new(thunderbird_command: &str) -> (r: Self)
        ensures
            ({
                let w = command_words(shlex_split(thunderbird_command@));
                r.program_text() == w[0] && r.arg_texts() == w.drop_first()
            }),
    {
        WindowManager::from_words(split_command(thunderbird_command))
    }

    /// The program that is run.
    pub fn program(&self) -> (r: &str)
        ensures
            r@ == self.program_text(),
    {
        self.program.as_str()
    }

    /// The arguments it is given.
    pub fn args(&self) -> (r: &Vec<String>)
        ensures
            texts(r@) == self.arg_texts(),
    {
        &self.args
    }

    /// Whether Thunderbird is running, given the command lines of the running
    /// processes (as read from `/proc/*/cmdline`).
    pub fn is_thunderbird_running(&self, cmdlines: &Vec<String>) -> (r: bool)
        ensures
            r == exists|i: int| 0 <= i < cmdlines@.len() && looks_like_thunderbird(
                #[trigger] cmdlines@[i]@,
            ),
    {
        let mut i: usize = 0;
        while i < cmdlines.len()
            invariant
                i <= cmdlines@.len(),
                forall|k: int| 0 <= k < i ==> !looks_like_thunderbird(#[trigger] cmdlines@[k]@),
            decreases cmdlines@.len() - i,
        {
            if process_looks_like_thunderbird(cmdlines[i].as_str()) {
                return true;
            }
            i = i + 1;
        }
        false
    }
}

/// One argument of a command line names Thunderbird: its file name is
/// `thunderbird` in any ASCII case, or it mentions `org.mozilla.Thunderbird`.
pub open spec fn arg_names_thunderbird(arg: Seq<char>) -> bool {
    ||| (match path_file_name(arg) {
        Some(n) => eq_ignore_ascii_case(n, "thunderbird"@),
        None => false,
    })
    ||| contains(arg, "org.mozilla.Thunderbird"@)
}

/// A process command line (NUL-separated arguments) belongs to Thunderbird.
pub open spec fn looks_like_thunderbird(cmdline: Seq<char>) -> bool {
    exists|i: int| 0 <= i < split_on(cmdline, '\0').len() && arg_names_thunderbird(
        #[trigger] split_on(cmdline, '\0')[i],
    )
}

/// Whether a process command line belongs to Thunderbird, including Snap and
/// Flatpak launchers that name it in an argument.
pub fn process_looks_like_thunderbird(cmdline: &str) -> (r: bool)
    ensures
        r == looks_like_thunderbird(cmdline@),
{
    let v = chars_of(cmdline);
    let ranges = split_ranges(&v, '\0');
    let ghost args = split_on(v@, '\0');
    assert(ranges@.len() == args.len());
    let mut i: usize = 0;
    while i < ranges.len()
        invariant
            i <= ranges@.len(),
            v@ == cmdline@,
            args == split_on(v@, '\0'),
            ranges@.len() == args.len(),
            forall|j: int| 0 <= j < ranges@.len() ==> #[trigger] ranges@[j].0 <= ranges@[j].1 <= v@.len(),
            ranges@.map_values(|p: (usize, usize)| v@.subrange(p.0 as int, p.1 as int)) == args,
            forall|k: int| 0 <= k < i ==> !arg_names_thunderbird(#[trigger] args[k]),
        decreases ranges@.len() - i,
    {
        let (lo, hi) = ranges[i];
        assert(args[i as int] == v@.subrange(lo as int, hi as int));
        let arg = string_of_range(&v, lo, hi);
        let by_name = match file_name_of(arg.as_str()) {
            Some(name) => {
                let nv = chars_of(name.as_str());
                assert(nv@.subrange(0, nv@.len() as int) =~= nv@);
                range_eq_ignore_ascii_case(&nv, 0, nv.len(), "thunderbird")
            },
            None => false,
        };
        if by_name || range_contains(&v, lo, hi, "org.mozilla.Thunderbird") {
            assert(arg_names_thunderbird(args[i as int]));
            return true;
        }
        i = i + 1;
    }
    false
}

/// Whether Thunderbird's window has appeared: the first Thunderbird process whose
/// thread count could be read has more than five threads. Each process is given
/// as its command line and its thread count, when that could be read.
pub open spec fn window_ready(processes: Seq<(Seq<char>, Option<usize>)>) -> bool
    decreases processes.len(),
{
    if processes.len() == 0 {
        false
    } else if looks_like_thunderbird(processes[0].0) && processes[0].1 is Some {
        processes[0].1.unwrap() > 5
    } else {
        window_ready(processes.drop_first())
    }
}

/// Whether Thunderbird's window has appeared, judged from its thread count.
pub fn has_thunderbird_window(processes: &Vec<(String, Option<usize>)>) -> (r: bool)
    ensures
        r == window_ready(processes@.map_values(|p: (String, Option<usize>)| (p.0@, p.1))),
{
    let ghost ps = processes@.map_values(|p: (String, Option<usize>)| (p.0@, p.1));
    let mut i: usize = 0;
    assert(ps.subrange(0, ps.len() as int) =~= ps);
    while i < processes.len()
        invariant
            i <= processes@.len(),
            ps == processes@.map_values(|p: (String, Option<usize>)| (p.0@, p.1)),
            window_ready(ps) == window_ready(ps.subrange(i as int, ps.len() as int)),
        decreases processes@.len() - i,
    {
        let ghost tail = ps.subrange(i as int, ps.len() as int);
        assert(tail[0] == (processes@[i as int].0@, processes@[i as int].1));
        assert(tail.drop_first() =~= ps.subrange(i + 1, ps.len() as int));
        let (cmdline, tasks) = &processes[i];
        if process_looks_like_thunderbird(cmdline.as_str()) {
            match tasks {
                Some(count) => {
                    return *count > 5;
                },
                None => {},
            }
        }
        i = i + 1;
    }
    false
}

/// What toggling the window involves.
#[derive(Debug, Clone, Copy, PartialEq, Eq, Structural)]
pub enum ToggleAction {
    /// Thunderbird is not running: start it, wait for its window, then show it.
    StartAndShow,
    /// Thunderbird is running: toggle its window by its actual KWin state.
    ToggleWindow,
}

/// Decides how to toggle Thunderbird's window. The KWin script checks the actual
/// window state, so the result is right even after external activation.
pub fn toggle_action(thunderbird_running: bool) -> (r: ToggleAction)
    ensures
        r == (if thunderbird_running {
            ToggleAction::ToggleWindow
        } else {
            ToggleAction::StartAndShow
        }),
{
    if thunderbird_running {
        ToggleAction::ToggleWindow
    } else {
        ToggleAction::StartAndShow
    }
}

} // verus!
