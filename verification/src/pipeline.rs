//! Command chains: `cmd1 -> cmd2` runs `cmd2` on the plain output of
//! `cmd1`; `->!` goes on to the next command even when one fails.

use vstd::prelude::*;
use crate::text::{chars_of, push_char, trim, trim_range, string_of};

verus! {

/// An entry offered for selection: how it is shown, where it leads, and its
/// tags.
#[derive(Debug, Clone)]
pub struct CdSelectionItem {
    pub display_path: String,
    pub full_path: String,
    pub tags: Vec<String>,
}

/// What running a command asks of the caller.
#[derive(Debug)]
pub enum CommandResult {
    /// Done; `true` asks to leave the interactive loop.
    Normal(bool),
    /// A directory must be picked among these before `cd` can go on.
    NeedCdSelection(Vec<CdSelectionItem>),
    /// A file must be picked among these before `open` can go on.
    NeedOpenSelection(Vec<CdSelectionItem>),
}

/// The input with every line break turned into a space.
pub open spec fn one_line(s: Seq<char>) -> Seq<char> {
    s.map_values(|c: char| if c == '\n' { ' ' } else { c })
}

/// The position of the first `->` in `cs` at or after `from`.
pub open spec fn find_arrow(cs: Seq<char>, from: int) -> Option<int>
    decreases cs.len() - from,
{
    if from < 0 || from + 1 >= cs.len() {
        None
    } else if cs[from] == '-' && cs[from + 1] == '>' {
        Some(from)
    } else {
        find_arrow(cs, from + 1)
    }
}

/// The commands of `cs` from position `last` on, trimmed, each with whether
/// a failure of it lets the chain go on (`->!` after it); empty commands are
/// dropped.
pub open spec fn segments_from(cs: Seq<char>, last: int) -> Seq<(Seq<char>, bool)>
    decreases cs.len() - last,
{
    if last < 0 || last >= cs.len() {
        Seq::empty()
    } else {
        match find_arrow(cs, last) {
            Some(i) => {
                proof {
                    lemma_find_arrow_range(cs, last);
                }
                let go_on = i + 2 < cs.len() && cs[i + 2] == '!';
                let end = if go_on { i + 3 } else { i + 2 };
                let seg = trim(cs.subrange(last, i));
                let rest = segments_from(cs, end);
                if seg.len() > 0 {
                    seq![(seg, go_on)] + rest
                } else {
                    rest
                }
            },
            None => {
                let seg = trim(cs.subrange(last, cs.len() as int));
                if seg.len() > 0 {
                    seq![(seg, false)]
                } else {
                    Seq::empty()
                }
            },
        }
    }
}

/// The commands of a chain, in order.
pub open spec fn chain_segments(input: Seq<char>) -> Seq<(Seq<char>, bool)> {
    segments_from(one_line(input), 0)
}

/// A `->` found at or after `from` lies there and is followed by `>`.
pub proof fn lemma_find_arrow_range(cs: Seq<char>, from: int)
    ensures
        find_arrow(cs, from) matches Some(i) ==> from <= i && i + 1 < cs.len() && cs[i] == '-' && cs[i + 1] == '>',
    decreases cs.len() - from,
{
    if !(from < 0 || from + 1 >= cs.len()) && !(cs[from] == '-' && cs[from + 1] == '>') {
        lemma_find_arrow_range(cs, from + 1);
    }
}

/// The views of the segments.
pub open spec fn segments_view(v: Seq<(String, bool)>) -> Seq<(Seq<char>, bool)> {
    v.map_values(|p: (String, bool)| (p.0@, p.1))
}

/// Splits a chain into its commands (see [`chain_segments`]).
pub fn split_chain(input: &str) -> (r: Vec<(String, bool)>)
    ensures
        segments_view(r@) == chain_segments(input@),
{
    let raw = chars_of(input);
    let mut cs: Vec<char> = Vec::new();
    let mut k: usize = 0;
    while k < raw.len()
        invariant
            k <= raw.len(),
            raw@ == input@,
            cs@ == one_line(input@).take(k as int),
        decreases raw.len() - k,
    {
        let c = raw[k];
        cs.push(if c == '\n' { ' ' } else { c });
        assert(cs@ =~= one_line(input@).take(k + 1));
        k = k + 1;
    }
    assert(cs@ =~= one_line(input@));
    let ghost all = cs@;
    let mut out: Vec<(String, bool)> = Vec::new();
    let mut last: usize = 0;
    assert(segments_view(out@) =~= Seq::<(Seq<char>, bool)>::empty());
    while last < cs.len()
        invariant
            all == cs@,
            segments_from(all, 0) == segments_view(out@) + segments_from(all, last as int),
        decreases cs.len() - last,
    {
        let mut i: usize = last;
        while i + 1 < cs.len() && !(cs[i] == '-' && cs[i + 1] == '>')
            invariant
                last <= i < cs.len(),
                all == cs@,
                find_arrow(all, last as int) == find_arrow(all, i as int),
            decreases cs.len() - i,
        {
            i = i + 1;
        }
        if i + 1 < cs.len() {
            assert(find_arrow(all, last as int) == Some(i as int));
            let go_on = i + 2 < cs.len() && cs[i + 2] == '!';
            let end = if go_on { i + 3 } else { i + 2 };
            let seg = trim_range(&cs, last, i);
            let ghost before = segments_view(out@);
            if seg.len() > 0 {
                out.push((string_of(&seg), go_on));
                assert(segments_view(out@) =~= before.push((seg@, go_on)));
                assert(segments_view(out@) + segments_from(all, end as int) =~= before + (seq![(seg@, go_on)] + segments_from(all, end as int)));
            } else {
                assert(segments_view(out@) == before);
            }
            last = end;
        } else {
            assert(find_arrow(all, last as int) is None);
            let seg = trim_range(&cs, last, cs.len());
            let ghost before = segments_view(out@);
            if seg.len() > 0 {
                out.push((string_of(&seg), false));
                assert(segments_view(out@) =~= before.push((seg@, false)));
            }
            assert(segments_from(all, cs.len() as int) == Seq::<(Seq<char>, bool)>::empty());
            assert(segments_view(out@) =~= segments_view(out@) + segments_from(all, cs.len() as int));
            last = cs.len();
        }
    }
    assert(segments_from(all, last as int) == Seq::<(Seq<char>, bool)>::empty());
    assert(segments_view(out@) + Seq::<(Seq<char>, bool)>::empty() =~= segments_view(out@));
    out
}

/// What one command of a chain gave.
pub enum SegmentOutcome {
    /// It ran; `true` asks to leave the loop; its plain output.
    Done(bool, String),
    /// It asks the user to pick an entry.
    NeedsSelection,
    /// It failed.
    Failed,
}

/// What the chain does next.
#[derive(Debug, PartialEq, Eq)]
pub enum ChainStep {
    /// Run the next command.
    Next,
    /// Stop here and hand the selection request on.
    Stop,
    /// Stop here with the failure.
    Abort,
}

/// Where a chain stands: the plain output handed to the next command, and
/// whether the last command that ran asked to leave.
pub struct ChainState {
    pub previous_raw: String,
    pub exit: bool,
}

impl ChainState {
    /// Before the first command.
    pub fn new() -> (r: Self)
        ensures
            r.previous_raw@ == Seq::<char>::empty(),
            !r.exit,
    {
        ChainState { previous_raw: String::new(), exit: false }
    }

    /// Takes in what a command gave: its output feeds the next command; a
    /// failure feeds it nothing and ends the chain unless the command was
    /// followed by `->!`; a selection request ends the chain.
    pub fn step(&mut self, outcome: SegmentOutcome, go_on_after_failure: bool) -> (r: ChainStep)
        ensures
            match outcome {
                SegmentOutcome::Done(exit, raw) => r == ChainStep::Next && final(self).exit == exit
                    && final(self).previous_raw@ == raw@,
                SegmentOutcome::NeedsSelection => r == ChainStep::Stop && final(self).exit == old(self).exit
                    && final(self).previous_raw@ == old(self).previous_raw@,
                SegmentOutcome::Failed => final(self).previous_raw@ == Seq::<char>::empty()
                    && final(self).exit == old(self).exit
                    && r == if go_on_after_failure { ChainStep::Next } else { ChainStep::Abort },
            },
    {
        match outcome {
            SegmentOutcome::Done(exit, raw) => {
                self.exit = exit;
                self.previous_raw = raw;
                ChainStep::Next
            },
            SegmentOutcome::NeedsSelection => ChainStep::Stop,
            SegmentOutcome::Failed => {
                self.previous_raw = String::new();
                if go_on_after_failure {
                    ChainStep::Next
                } else {
                    ChainStep::Abort
                }
            },
        }
    }
}

/// A command of a chain with every `{}` replaced by the plain output of the
/// command before it, read from left to right.
pub open spec fn fill_placeholders(cmd: Seq<char>, raw: Seq<char>) -> Seq<char>
    decreases cmd.len(),
{
    if cmd.len() < 2 {
        cmd
    } else if cmd[0] == '{' && cmd[1] == '}' {
        raw + fill_placeholders(cmd.skip(2), raw)
    } else {
        seq![cmd[0]] + fill_placeholders(cmd.drop_first(), raw)
    }
}

/// Replaces every `{}` of `cmd` by `raw` (see [`fill_placeholders`]).
pub fn fill_placeholders_in(cmd: &str, raw: &str) -> (r: String)
    ensures
        r@ == fill_placeholders(cmd@, raw@),
{
    let cs = chars_of(cmd);
    let mut out = String::new();
    let mut i: usize = 0;
    assert(cs@.skip(0) =~= cs@);
    while i < cs.len()
        invariant
            i <= cs.len(),
            cs@ == cmd@,
            fill_placeholders(cmd@, raw@) == out@ + fill_placeholders(cs@.skip(i as int), raw@),
        decreases cs.len() - i,
    {
        let ghost rest = cs@.skip(i as int);
        let ghost before = out@;
        if i + 1 < cs.len() && cs[i] == '{' && cs[i + 1] == '}' {
            assert(rest.skip(2) =~= cs@.skip(i + 2));
            out.append(raw);
            assert(fill_placeholders(cmd@, raw@) =~= out@ + fill_placeholders(cs@.skip(i + 2), raw@));
            i = i + 2;
        } else {
            assert(rest.drop_first() =~= cs@.skip(i + 1));
            let c = cs[i];
            push_char(&mut out, c);
            proof {
                if rest.len() < 2 {
                    assert(rest =~= seq![c]);
                    assert(cs@.skip(i + 1) =~= Seq::<char>::empty());
                }
            }
            assert(fill_placeholders(cmd@, raw@) =~= out@ + fill_placeholders(cs@.skip(i + 1), raw@));
            i = i + 1;
        }
    }
    assert(cs@.skip(cs.len() as int) =~= Seq::<char>::empty());
    assert(out@ + Seq::<char>::empty() =~= out@);
    out
}

} // verus!
