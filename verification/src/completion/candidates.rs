//! What the completer offers for the word under the cursor: command names,
//! arguments, subcommands or tags, or nothing of its own (path completion
//! then takes over).

use vstd::prelude::*;
use crate::text::{chars_before, chars_of, chars_start_with, is_boundary, split_chars_at, split_ws, starts_with, str_eq, string_of, views, ws_tokens};
use super::context::{CompletionContext, ContextSpec};
use super::manager::{CompletionManager, contains_string, find_command, list_with_prefix, parse_context};
use super::types::{CommandSpec, arg_completions, pairs_view, sub_completions};

verus! {

/// How offered names are to be shown.
#[derive(Debug, Clone, Copy, PartialEq, Eq)]
pub enum CandidateStyle {
    Command,
    Argument,
    Subcommand,
    SubcommandArgument,
}

/// What the completer offers.
#[derive(Debug)]
pub enum CompletionPlan {
    /// These (name, description) pairs replace the typed prefix.
    Listed(String, Vec<(String, String)>, CandidateStyle),
    /// These tags replace the typed prefix.
    Tags(String, Vec<String>),
    /// Nothing of its own: complete a path.
    Paths,
}

/// The abstract form of a plan.
pub enum PlanView {
    Listed(Seq<char>, Seq<(Seq<char>, Seq<char>)>, CandidateStyle),
    Tags(Seq<char>, Seq<Seq<char>>),
    Paths,
}

/// The abstract form of a plan.
pub open spec fn plan_view(p: CompletionPlan) -> PlanView {
    match p {
        CompletionPlan::Listed(x, v, s) => PlanView::Listed(x@, pairs_view(v@), s),
        CompletionPlan::Tags(x, v) => PlanView::Tags(x@, views(v@)),
        CompletionPlan::Paths => PlanView::Paths,
    }
}

/// The tags starting with `prefix`, in order.
pub open spec fn tags_with_prefix(tags: Seq<Seq<char>>, prefix: Seq<char>) -> Seq<Seq<char>>
    decreases tags.len(),
{
    if tags.len() == 0 {
        Seq::empty()
    } else if starts_with(tags.last(), prefix) {
        tags_with_prefix(tags.drop_last(), prefix).push(tags.last())
    } else {
        tags_with_prefix(tags.drop_last(), prefix)
    }
}

/// The argument completions of the first subcommand called `sub` (by name
/// or alias) that has any for `prefix`.
pub open spec fn sub_arg_completions(
    subs: Seq<CommandSpec>,
    sub: Seq<char>,
    prefix: Seq<char>,
) -> Option<Seq<(Seq<char>, Seq<char>)>>
    decreases subs.len(),
{
    if subs.len() == 0 {
        None
    } else {
        let s = subs[0];
        let c = arg_completions(s.args, prefix);
        if (s.name == sub || s.aliases.contains(sub)) && c.len() > 0 {
            Some(c)
        } else {
            sub_arg_completions(subs.drop_first(), sub, prefix)
        }
    }
}

/// The last whitespace-separated word, or nothing.
pub open spec fn last_word(s: Seq<char>) -> Seq<char> {
    let w = ws_tokens(s);
    if w.len() > 0 {
        w.last()
    } else {
        Seq::empty()
    }
}

/// What is offered for the text `before` the cursor, given the commands,
/// the command name list and the known tags.
pub open spec fn completion_plan(
    cmds: Seq<CommandSpec>,
    list: Seq<(Seq<char>, Seq<char>)>,
    tags: Seq<Seq<char>>,
    before: Seq<char>,
) -> PlanView {
    match parse_context(cmds, before) {
        ContextSpec::CommandName(p) => {
            let c = list_with_prefix(list, p);
            if c.len() > 0 {
                PlanView::Listed(p, c, CandidateStyle::Command)
            } else {
                PlanView::Paths
            }
        },
        ContextSpec::CommandArg(n, p) => match find_command(cmds, n) {
            Some(i) => {
                let c = arg_completions(cmds[i].args, p);
                if c.len() > 0 {
                    PlanView::Listed(p, c, CandidateStyle::Argument)
                } else {
                    PlanView::Paths
                }
            },
            None => PlanView::Paths,
        },
        ContextSpec::Subcommand(n, p) => match find_command(cmds, n) {
            Some(i) => {
                let c = sub_completions(cmds[i].subcommands, p);
                if c.len() > 0 {
                    PlanView::Listed(p, c, CandidateStyle::Subcommand)
                } else {
                    PlanView::Paths
                }
            },
            None => PlanView::Paths,
        },
        ContextSpec::Tag => {
            let p = typed_tag(before);
            let c = tags_with_prefix(tags, p);
            if c.len() > 0 {
                PlanView::Tags(p, c)
            } else {
                PlanView::Paths
            }
        },
        ContextSpec::SubcommandArg(n, s, p) => match find_command(cmds, n) {
            Some(i) => match sub_arg_completions(cmds[i].subcommands, s, p) {
                Some(c) => PlanView::Listed(p, c, CandidateStyle::SubcommandArgument),
                None => PlanView::Paths,
            },
            None => PlanView::Paths,
        },
        _ => PlanView::Paths,
    }
}

/// The tags starting with `prefix`, in order.
pub fn filter_tags(tags: &Vec<String>, prefix: &str) -> (r: Vec<String>)
    ensures
        views(r@) == tags_with_prefix(views(tags@), prefix@),
{
    let p = chars_of(prefix);
    let ghost tv = views(tags@);
    let mut out: Vec<String> = Vec::new();
    let mut i: usize = 0;
    while i < tags.len()
        invariant
            i <= tags@.len(),
            p@ == prefix@,
            tv == views(tags@),
            views(out@) == tags_with_prefix(tv.take(i as int), prefix@),
        decreases tags.len() - i,
    {
        assert(tv.take(i + 1).drop_last() == tv.take(i as int));
        assert(tv.take(i + 1).last() == tags@[i as int]@);
        let n = chars_of(tags[i].as_str());
        if chars_start_with(&n, &p) {
            let ghost before = views(out@);
            out.push(tags[i].clone());
            assert(views(out@) =~= before.push(tags@[i as int]@));
        }
        i = i + 1;
    }
    assert(tv.take(tags.len() as int) == tv);
    out
}

/// The last whitespace-separated word of the text before `pos`, or nothing.
fn last_word_before(line: &str, pos: usize) -> (r: String)
    requires
        is_boundary(line@, pos as int),
    ensures
        r@ == last_word(chars_before(line@, pos as int)),
{
    let (before, _after) = split_chars_at(line, pos);
    let toks = split_ws(&before);
    if toks.len() > 0 {
        string_of(&toks[toks.len() - 1])
    } else {
        String::new()
    }
}

/// The tag being typed: nothing right after a space, else the last word.
pub open spec fn typed_tag(before: Seq<char>) -> Seq<char> {
    if before.len() > 0 && before.last() == ' ' {
        Seq::empty()
    } else {
        last_word(before)
    }
}

/// The tag being typed before `pos` (see [`typed_tag`]).
fn typed_tag_before(line: &str, pos: usize) -> (r: String)
    requires
        is_boundary(line@, pos as int),
    ensures
        r@ == typed_tag(chars_before(line@, pos as int)),
{
    let (before, _after) = split_chars_at(line, pos);
    if before.len() > 0 && before[before.len() - 1] == ' ' {
        return String::new();
    }
    let toks = split_ws(&before);
    if toks.len() > 0 {
        string_of(&toks[toks.len() - 1])
    } else {
        String::new()
    }
}

impl CompletionManager {
    /// What is offered for the text before byte offset `pos` (see
    /// [`completion_plan`]); `all_tags` are the known tags.
    #[verifier::loop_isolation(false)]
    pub fn plan_completion(&self, all_tags: &Vec<String>, line: &str, pos: usize) -> (r: CompletionPlan)
        requires
            is_boundary(line@, pos as int),
        ensures
            plan_view(r) == completion_plan(
                self.commands_view(),
                self.list_view(),
                views(all_tags@),
                chars_before(line@, pos as int),
            ),
    {
        let ctx = self.parse_input_for_completion(line, pos);
        match ctx {
            CompletionContext::CommandName(p) => {
                let c = self.get_command_completions(p.as_str());
                if c.len() > 0 {
                    CompletionPlan::Listed(p, c, CandidateStyle::Command)
                } else {
                    CompletionPlan::Paths
                }
            },
            CompletionContext::CommandArg(n, p) => match self.get_command(n.as_str()) {
                Some(cmd) => {
                    let c = cmd.get_arg_completions(p.as_str());
                    if c.len() > 0 {
                        CompletionPlan::Listed(p, c, CandidateStyle::Argument)
                    } else {
                        CompletionPlan::Paths
                    }
                },
                None => CompletionPlan::Paths,
            },
            CompletionContext::Subcommand(n, p) => match self.get_command(n.as_str()) {
                Some(cmd) => {
                    let c = cmd.get_subcommand_completions(p.as_str());
                    if c.len() > 0 {
                        CompletionPlan::Listed(p, c, CandidateStyle::Subcommand)
                    } else {
                        CompletionPlan::Paths
                    }
                },
                None => CompletionPlan::Paths,
            },
            CompletionContext::Tag => {
                let p = typed_tag_before(line, pos);
                let c = filter_tags(all_tags, p.as_str());
                if c.len() > 0 {
                    CompletionPlan::Tags(p, c)
                } else {
                    CompletionPlan::Paths
                }
            },
            CompletionContext::SubcommandArg(n, s, p) => match self.get_command(n.as_str()) {
                Some(cmd) => {
                    let ghost subs = cmd.spec_view().subcommands;
                    let mut i: usize = 0;
                    assert(subs.skip(0) =~= subs);
                    while i < cmd.subcommands.len()
                        invariant
                            i <= cmd.subcommands@.len(),
                            subs == cmd.spec_view().subcommands,
                            subs.len() == cmd.subcommands@.len(),
                            sub_arg_completions(subs, s@, p@) == sub_arg_completions(subs.skip(i as int), s@, p@),
                        decreases cmd.subcommands.len() - i,
                    {
                        let sc = &cmd.subcommands[i];
                        assert(subs.skip(i as int)[0] == sc.spec_view());
                        assert(subs.skip(i as int).drop_first() == subs.skip(i + 1));
                        if str_eq(sc.name.as_str(), s.as_str()) || contains_string(&sc.aliases, s.as_str()) {
                            let c = sc.get_arg_completions(p.as_str());
                            if c.len() > 0 {
                                return CompletionPlan::Listed(p, c, CandidateStyle::SubcommandArgument);
                            }
                        }
                        i = i + 1;
                    }
                    assert(subs.skip(cmd.subcommands.len() as int) == Seq::<CommandSpec>::empty());
                    CompletionPlan::Paths
                },
                None => CompletionPlan::Paths,
            },
            CompletionContext::Path => CompletionPlan::Paths,
            CompletionContext::Unknown => CompletionPlan::Paths,
        }
    }
}

/// Whether the line asks for tag names: `tag`/`t`, then `add`, `remove` or
/// `rm`, then at least one more word.
pub open spec fn tag_words_wanted(words: Seq<Seq<char>>) -> bool {
    words.len() >= 3 && (words[0] == "tag"@ || words[0] == "t"@) && (words[1] == "add"@ || words[1]
        == "remove"@ || words[1] == "rm"@)
}

/// Tag names for `tag add|remove|rm <file> ...`: the known tags starting
/// with the last word before the cursor, when there are any.
pub open spec fn tag_command_completion(
    line: Seq<char>,
    before: Seq<char>,
    tags: Seq<Seq<char>>,
) -> Option<(Seq<char>, Seq<Seq<char>>)> {
    if tag_words_wanted(ws_tokens(line)) {
        let p = last_word(before);
        let c = tags_with_prefix(tags, p);
        if c.len() > 0 {
            Some((p, c))
        } else {
            None
        }
    } else {
        None
    }
}

/// Tag names for `tag add|remove|rm` (see [`tag_command_completion`]): the
/// typed prefix and the tags.
pub fn complete_tag_command(line: &str, pos: usize, all_tags: &Vec<String>) -> (r: Option<(String, Vec<String>)>)
    requires
        is_boundary(line@, pos as int),
    ensures
        match tag_command_completion(line@, chars_before(line@, pos as int), views(all_tags@)) {
            Some((p, c)) => r matches Some((x, v)) && x@ == p && views(v@) == c,
            None => r is None,
        },
{
    let cs = chars_of(line);
    let words = split_ws(&cs);
    let ghost w = ws_tokens(line@);
    if words.len() < 3 {
        return None;
    }
    assert(words@[0]@ == w[0] && words@[1]@ == w[1]);
    let w0 = string_of(&words[0]);
    let w1 = string_of(&words[1]);
    let first_ok = str_eq(w0.as_str(), "tag") || str_eq(w0.as_str(), "t");
    let second_ok = str_eq(w1.as_str(), "add") || str_eq(w1.as_str(), "remove") || str_eq(w1.as_str(), "rm");
    if !(first_ok && second_ok) {
        return None;
    }
    let p = last_word_before(line, pos);
    let c = filter_tags(all_tags, p.as_str());
    if c.len() > 0 {
        Some((p, c))
    } else {
        None
    }
}

} // verus!
