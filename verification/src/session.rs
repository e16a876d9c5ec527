//! The interactive loop's decisions, and how a command line starts the
//! program: which mode, which command, and where its words begin. The
//! caller reads lines, prints and touches the file system.

use vstd::prelude::*;
use crate::command::{CommandKind, kind_of};
use crate::numbers::{decimal, parsed_usize, parse_usize, usize_to_string};
use crate::pipeline::{CdSelectionItem, CommandResult};
use crate::select::{all_ascii, ascii_lower, lowercase, to_lowercase};
use crate::text::{chars_of, str_eq, trim, trim_range, string_of};

verus! {

/// The full paths of the entries offered for selection.
pub open spec fn item_paths(items: Seq<CdSelectionItem>) -> Seq<Seq<char>> {
    items.map_values(|i: CdSelectionItem| i.full_path@)
}

/// The entry a typed answer picks among `paths`: the answer (without
/// surrounding whitespace) must be a number from 1 to the number of
/// entries.
pub open spec fn selection_answer(paths: Seq<Seq<char>>, input: Seq<char>) -> Result<Seq<char>, Seq<char>> {
    match parsed_usize(trim(input)) {
        None => Err("Invalid input, please enter a number."@),
        Some(n) => if n < 1 || n > paths.len() {
            Err("Selection out of range, please enter a number between 1 and "@ + decimal(paths.len()) + "."@)
        } else {
            Ok(paths[n - 1])
        },
    }
}

/// The line without surrounding whitespace.
pub fn trim_line(s: &str) -> (r: String)
    ensures
        r@ == trim(s@),
{
    let cs = chars_of(s);
    let t = trim_range(&cs, 0, cs.len());
    assert(cs@.subrange(0, cs@.len() as int) == s@);
    string_of(&t)
}

/// The full path of the entry a typed answer picks (see
/// [`selection_answer`]).
pub fn pick_selection(items: &Vec<CdSelectionItem>, input: &str) -> (r: Result<String, String>)
    ensures
        match selection_answer(item_paths(items@), input@) {
            Ok(p) => r matches Ok(s) && s@ == p,
            Err(m) => r matches Err(e) && e@ == m,
        },
{
    let t = trim_line(input);
    match parse_usize(t.as_str()) {
        None => Err("Invalid input, please enter a number.".to_owned()),
        Some(n) => {
            if n < 1 || n > items.len() {
                let mut m = "Selection out of range, please enter a number between 1 and ".to_owned();
                m.append(usize_to_string(items.len()).as_str());
                m.append(".");
                Err(m)
            } else {
                Ok(items[n - 1].full_path.clone())
            }
        },
    }
}

/// A selection the loop waits for.
#[derive(Debug)]
pub enum Pending {
    /// Nothing: the next line is a command.
    Idle,
    /// The next line picks a directory to go to.
    Cd(Vec<CdSelectionItem>),
    /// The next line picks a file to open.
    Open(Vec<CdSelectionItem>),
}

/// The interactive loop's own state.
pub struct ReplState {
    pub pending: Pending,
}

/// What the line reader gave.
pub enum ReplEvent {
    Line(String),
    /// Ctrl-C.
    Interrupted,
    /// End of input.
    Eof,
    /// The reader failed with this message.
    Failed(String),
}

/// What the loop must do next.
#[derive(Debug, PartialEq, Eq)]
pub enum ReplAction {
    /// Nothing; read the next line.
    Nothing,
    /// Record the line in the history and run it as a command chain.
    Run(String),
    /// Record the line in the history and report this selection error.
    SelectionError(String, String),
    /// Record the line in the history and go to this directory.
    GoTo(String, String),
    /// Record the line in the history and open this path.
    Open(String, String),
    /// Say the selection was cancelled.
    Cancelled,
    /// Say goodbye and leave.
    Exit,
    /// Report this reader failure and leave.
    Fail(String),
}

impl ReplState {
    /// A loop waiting for a command.
    pub fn new() -> (r: Self)
        ensures
            r.pending is Idle,
    {
        ReplState { pending: Pending::Idle }
    }

    /// Whether the prompt asks for a selection number.
    pub fn wants_selection(&self) -> (r: bool)
        ensures
            r == !(self.pending is Idle),
    {
        match self.pending {
            Pending::Idle => false,
            _ => true,
        }
    }

    /// One step of the loop. A blank line does nothing. While a selection
    /// is pending, the next line answers it (and the selection is over,
    /// whatever the answer); otherwise the line is a command. Ctrl-C
    /// cancels a pending selection, else leaves, as does the end of input.
    pub fn step(&mut self, ev: ReplEvent) -> (r: ReplAction)
        ensures
            match ev {
                ReplEvent::Line(l) => if trim(l@).len() == 0 {
                    r == ReplAction::Nothing && final(self).pending == old(self).pending
                } else {
                    final(self).pending is Idle && match old(self).pending {
                        Pending::Idle => r matches ReplAction::Run(c) && c@ == trim(l@),
                        Pending::Cd(items) => match selection_answer(item_paths(items@), l@) {
                            Ok(p) => r matches ReplAction::GoTo(h, x) && h@ == trim(l@) && x@ == p,
                            Err(m) => r matches ReplAction::SelectionError(h, x) && h@ == trim(l@) && x@ == m,
                        },
                        Pending::Open(items) => match selection_answer(item_paths(items@), l@) {
                            Ok(p) => r matches ReplAction::Open(h, x) && h@ == trim(l@) && x@ == p,
                            Err(m) => r matches ReplAction::SelectionError(h, x) && h@ == trim(l@) && x@ == m,
                        },
                    }
                },
                ReplEvent::Interrupted => final(self).pending is Idle && if old(self).pending is Idle {
                    r == ReplAction::Exit
                } else {
                    r == ReplAction::Cancelled
                },
                ReplEvent::Eof => r == ReplAction::Exit && final(self).pending == old(self).pending,
                ReplEvent::Failed(m) => (r matches ReplAction::Fail(x) && x@ == m@)
                    && final(self).pending == old(self).pending,
            },
    {
        match ev {
            ReplEvent::Line(l) => {
                let input = trim_line(l.as_str());
                if input.as_str().is_empty() {
                    return ReplAction::Nothing;
                }
                let mut p = Pending::Idle;
                std::mem::swap(&mut p, &mut self.pending);
                match p {
                    Pending::Idle => ReplAction::Run(input),
                    Pending::Cd(items) => {
                        assert(trim(input@) == trim(l@)) by {
                            lemma_trim_idempotent(l@);
                        }
                        match pick_selection(&items, input.as_str()) {
                            Ok(path) => ReplAction::GoTo(input, path),
                            Err(m) => ReplAction::SelectionError(input, m),
                        }
                    },
                    Pending::Open(items) => {
                        assert(trim(input@) == trim(l@)) by {
                            lemma_trim_idempotent(l@);
                        }
                        match pick_selection(&items, input.as_str()) {
                            Ok(path) => ReplAction::Open(input, path),
                            Err(m) => ReplAction::SelectionError(input, m),
                        }
                    },
                }
            },
            ReplEvent::Interrupted => {
                match self.pending {
                    Pending::Idle => ReplAction::Exit,
                    _ => {
                        self.pending = Pending::Idle;
                        ReplAction::Cancelled
                    },
                }
            },
            ReplEvent::Eof => ReplAction::Exit,
            ReplEvent::Failed(m) => ReplAction::Fail(m),
        }
    }

    /// Takes in what a command chain gave: a request for a selection makes
    /// it pending; tells whether the loop must end.
    pub fn after_command(&mut self, result: CommandResult) -> (r: bool)
        ensures
            match result {
                CommandResult::Normal(exit) => r == exit && final(self).pending == old(self).pending,
                CommandResult::NeedCdSelection(items) => !r && final(self).pending == Pending::Cd(items),
                CommandResult::NeedOpenSelection(items) => !r && final(self).pending == Pending::Open(items),
            },
    {
        match result {
            CommandResult::Normal(exit) => exit,
            CommandResult::NeedCdSelection(items) => {
                self.pending = Pending::Cd(items);
                false
            },
            CommandResult::NeedOpenSelection(items) => {
                self.pending = Pending::Open(items);
                false
            },
        }
    }
}

/// Trimming twice is trimming once.
pub proof fn lemma_trim_idempotent(s: Seq<char>)
    ensures
        trim(trim(s)) == trim(s),
{
    lemma_trim_left_fixed(s);
    lemma_trim_right_fixed(crate::text::trim_left(s));
    lemma_trim_left_of_right(crate::text::trim_left(s));
}

proof fn lemma_trim_left_fixed(s: Seq<char>)
    ensures
        crate::text::trim_left(crate::text::trim_left(s)) == crate::text::trim_left(s),
        crate::text::trim_left(s).len() > 0 ==> !crate::text::is_ws(crate::text::trim_left(s)[0]),
    decreases s.len(),
{
    if s.len() > 0 && crate::text::is_ws(s[0]) {
        lemma_trim_left_fixed(s.drop_first());
    }
}

proof fn lemma_trim_right_fixed(s: Seq<char>)
    ensures
        crate::text::trim_right(crate::text::trim_right(s)) == crate::text::trim_right(s),
        crate::text::trim_right(s).len() > 0 ==> !crate::text::is_ws(crate::text::trim_right(s).last()),
        crate::text::trim_right(s).len() <= s.len(),
        crate::text::trim_right(s) == s.take(crate::text::trim_right(s).len() as int),
    decreases s.len(),
{
    if s.len() > 0 && crate::text::is_ws(s.last()) {
        lemma_trim_right_fixed(s.drop_last());
        assert(s.drop_last().take(crate::text::trim_right(s).len() as int) == s.take(crate::text::trim_right(s).len() as int));
    } else {
        assert(s.take(s.len() as int) == s);
    }
}

/// Trimming the right end of a string that starts with no whitespace keeps
/// it starting with no whitespace.
proof fn lemma_trim_left_of_right(s: Seq<char>)
    requires
        s.len() > 0 ==> !crate::text::is_ws(s[0]),
    ensures
        crate::text::trim_left(crate::text::trim_right(s)) == crate::text::trim_right(s),
{
    lemma_trim_right_fixed(s);
    let t = crate::text::trim_right(s);
    if t.len() > 0 {
        assert(t[0] == s[0]);
    }
}

/// How the program starts.
#[derive(Debug, PartialEq, Eq)]
pub enum StartPlan {
    /// Run the interactive loop; `true` in the cute display mode.
    Repl(bool),
    /// Run one command: display mode, the command, and the position of the
    /// command name in the arguments.
    Direct(bool, CommandKind, usize),
}

/// The command a name stands for when given on the command line (compared
/// in lower case); names only the interactive loop knows, and unknown
/// names, give [`CommandKind::Shell`], which is reported as not found.
pub open spec fn direct_kind_of(name: Seq<char>) -> CommandKind {
    if name == "rfe"@ || name == "quit"@ || name == "q"@ || name == "cls"@ || name == "?"@ {
        CommandKind::Shell
    } else {
        kind_of(name)
    }
}

/// How the arguments (the program name first) start the program: no
/// argument, or only `-moe`/`--moe`, runs the loop; otherwise the first
/// word after an optional `-moe`/`--moe` is the command.
pub open spec fn start_plan(args: Seq<Seq<char>>) -> StartPlan {
    if args.len() <= 1 {
        StartPlan::Repl(false)
    } else if args[1] == "-moe"@ || args[1] == "--moe"@ {
        if args.len() == 2 {
            StartPlan::Repl(true)
        } else {
            StartPlan::Direct(true, direct_kind_of(lowercase(args[2])), 2)
        }
    } else {
        StartPlan::Direct(false, direct_kind_of(lowercase(args[1])), 1)
    }
}

/// How the arguments start the program (see [`start_plan`]).
pub fn plan_start(args: &[String]) -> (r: StartPlan)
    ensures
        r == start_plan(crate::cli::words(args@)),
{
    let ghost a = crate::cli::words(args@);
    if args.len() <= 1 {
        return StartPlan::Repl(false);
    }
    assert(a[1] == args@[1]@);
    if str_eq(args[1].as_str(), "-moe") || str_eq(args[1].as_str(), "--moe") {
        if args.len() == 2 {
            return StartPlan::Repl(true);
        }
        assert(a[2] == args@[2]@);
        StartPlan::Direct(true, classify_direct(args[2].as_str()), 2)
    } else {
        StartPlan::Direct(false, classify_direct(args[1].as_str()), 1)
    }
}

/// The command a name stands for on the command line.
pub fn classify_direct(word: &str) -> (r: CommandKind)
    ensures
        r == direct_kind_of(lowercase(word@)),
        all_ascii(word@) ==> r == direct_kind_of(word@.map_values(|c: char| ascii_lower(c))),
{
    let low = to_lowercase(word);
    let n = low.as_str();
    if str_eq(n, "rfe") || str_eq(n, "quit") || str_eq(n, "q") || str_eq(n, "cls") || str_eq(n, "?") {
        CommandKind::Shell
    } else {
        crate::command::kind_of_name(n)
    }
}

} // verus!
