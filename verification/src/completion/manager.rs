//! The completion manager: command lookup and the analysis of the text
//! before the cursor.

use vstd::prelude::*;
use crate::text::{
    chars_before, chars_contain, str_eq, chars_of, chars_start_with, is_boundary, split_chars_at, split_ws,
    starts_with, contains_seq, string_of, ws_tokens,
};
use super::context::{CompletionContext, ContextSpec};
use super::definitions::{build_command_definitions, command_table, defs_view};
use super::types::{ArgKind, ArgSpec, ArgType, CommandDef, CommandSpec, pairs_view, some_name_starts_with, command_names, with_description, push_all_with_description};
use crate::text::views;

verus! {

/// The (name, description) list offered for command names: for each command
/// in order, its name, then each of its aliases, all with the command's
/// description.
pub open spec fn command_list_of(defs: Seq<CommandSpec>) -> Seq<(Seq<char>, Seq<char>)>
    decreases defs.len(),
{
    if defs.len() == 0 {
        Seq::empty()
    } else {
        let d = defs.last();
        command_list_of(defs.drop_last()) + seq![(d.name, d.description)] + with_description(
            d.aliases,
            d.description,
        )
    }
}

/// The entries of `list` whose name starts with `prefix`, in order.
pub open spec fn list_with_prefix(list: Seq<(Seq<char>, Seq<char>)>, prefix: Seq<char>) -> Seq<
    (Seq<char>, Seq<char>),
>
    decreases list.len(),
{
    if list.len() == 0 {
        Seq::empty()
    } else if starts_with(list.last().0, prefix) {
        list_with_prefix(list.drop_last(), prefix).push(list.last())
    } else {
        list_with_prefix(list.drop_last(), prefix)
    }
}

/// Index of the first command named `name`.
pub open spec fn index_by_name(cmds: Seq<CommandSpec>, name: Seq<char>) -> Option<int>
    decreases cmds.len(),
{
    if cmds.len() == 0 {
        None
    } else {
        match index_by_name(cmds.drop_last(), name) {
            Some(i) => Some(i),
            None => if cmds.last().name == name {
                Some(cmds.len() - 1)
            } else {
                None
            },
        }
    }
}

/// Index of the first command that has `name` among its aliases.
pub open spec fn index_by_alias(cmds: Seq<CommandSpec>, name: Seq<char>) -> Option<int>
    decreases cmds.len(),
{
    if cmds.len() == 0 {
        None
    } else {
        match index_by_alias(cmds.drop_last(), name) {
            Some(i) => Some(i),
            None => if cmds.last().aliases.contains(name) {
                Some(cmds.len() - 1)
            } else {
                None
            },
        }
    }
}

/// The command a name designates: the one with that name, else the first with
/// that alias.
pub open spec fn find_command(cmds: Seq<CommandSpec>, name: Seq<char>) -> Option<int> {
    match index_by_name(cmds, name) {
        Some(i) => Some(i),
        None => index_by_alias(cmds, name),
    }
}

/// Index of the first subcommand one of whose names starts with `input`.
pub open spec fn first_sub_match(subs: Seq<CommandSpec>, input: Seq<char>) -> Option<int>
    decreases subs.len(),
{
    if subs.len() == 0 {
        None
    } else {
        match first_sub_match(subs.drop_last(), input) {
            Some(i) => Some(i),
            None => if some_name_starts_with(command_names(subs.last()), input) {
                Some(subs.len() - 1)
            } else {
                None
            },
        }
    }
}

/// Whether `a` takes a value and is called `word` (by name or alias).
pub open spec fn is_value_arg_named(a: ArgSpec, word: Seq<char>) -> bool {
    (a.kind is Value) && (a.name == word || a.aliases.contains(word))
}

/// Index of the first valued argument called `word`.
pub open spec fn first_value_arg(args: Seq<ArgSpec>, word: Seq<char>) -> Option<int>
    decreases args.len(),
{
    if args.len() == 0 {
        None
    } else {
        match first_value_arg(args.drop_last(), word) {
            Some(i) => Some(i),
            None => if is_value_arg_named(args.last(), word) {
                Some(args.len() - 1)
            } else {
                None
            },
        }
    }
}

/// The context given by the subcommands of `c`, if they settle it: while
/// the second word is being typed it is a subcommand prefix; later, a
/// subcommand matched by its prefix takes `-` arguments and, if it accepts
/// paths, paths.
pub open spec fn subcommand_context(
    c: CommandSpec,
    parts: Seq<Seq<char>>,
    ends_with_space: bool,
) -> Option<ContextSpec> {
    let name = parts[0];
    let sn = parts[1];
    let last = parts.last();
    if c.subcommands.len() == 0 {
        None
    } else if parts.len() == 2 && !ends_with_space {
        Some(ContextSpec::Subcommand(name, sn))
    } else {
        match first_sub_match(c.subcommands, sn) {
            Some(j) => if !ends_with_space && starts_with(last, seq!['-']) {
                Some(ContextSpec::SubcommandArg(name, sn, last))
            } else if c.subcommands[j].accepts_path {
                Some(ContextSpec::Path)
            } else {
                None
            },
            None => None,
        }
    }
}

/// The word whose value is being typed: the last word when the text ends
/// with a space, else the word before it.
pub open spec fn value_word(parts: Seq<Seq<char>>, ends_with_space: bool) -> Seq<char> {
    if ends_with_space {
        parts.last()
    } else if parts.len() >= 2 {
        parts[parts.len() - 2]
    } else {
        Seq::empty()
    }
}

/// The context once the command `c` is known and a second word exists or the
/// first word is finished: a `-` word being typed is an argument; the value
/// of a valued argument is a tag when its hint names a tag, else a path;
/// otherwise a path when the command accepts one.
pub open spec fn argument_context(
    c: CommandSpec,
    parts: Seq<Seq<char>>,
    ends_with_space: bool,
) -> ContextSpec {
    let name = parts[0];
    let last = parts.last();
    if parts.len() == 1 {
        ContextSpec::CommandArg(name, Seq::empty())
    } else {
        match subcommand_context(c, parts, ends_with_space) {
            Some(ctx) => ctx,
            None => if !ends_with_space && starts_with(last, seq!['-']) {
                ContextSpec::CommandArg(name, last)
            } else {
                match first_value_arg(c.args, value_word(parts, ends_with_space)) {
                    Some(j) => match c.args[j].kind {
                        ArgKind::Value(hint) => if contains_seq(hint, "tag"@) {
                            ContextSpec::Tag
                        } else {
                            ContextSpec::Path
                        },
                        _ => ContextSpec::Unknown,
                    },
                    None => if c.accepts_path {
                        ContextSpec::Path
                    } else {
                        ContextSpec::Unknown
                    },
                }
            },
        }
    }
}

/// The completion context of the text `p` before the cursor, given the
/// command definitions `cmds`.
pub open spec fn parse_context(cmds: Seq<CommandSpec>, p: Seq<char>) -> ContextSpec {
    let parts = ws_tokens(p);
    let ends_with_space = p.len() > 0 && p.last() == ' ';
    if parts.len() == 0 {
        ContextSpec::CommandName(Seq::empty())
    } else if parts.len() == 1 && !ends_with_space {
        ContextSpec::CommandName(parts[0])
    } else {
        match find_command(cmds, parts[0]) {
            None => ContextSpec::Unknown,
            Some(k) => argument_context(cmds[k], parts, ends_with_space),
        }
    }
}

/// Command lookup and completion analysis over the table of commands.
pub struct CompletionManager {
    commands: Vec<CommandDef>,
    command_list: Vec<(String, String)>,
}

impl CompletionManager {
    /// The commands this manager knows.
    pub closed spec fn commands_view(&self) -> Seq<CommandSpec> {
        defs_view(self.commands@)
    }

    /// The (name, description) list offered for command names.
    pub closed spec fn list_view(&self) -> Seq<(Seq<char>, Seq<char>)> {
        pairs_view(self.command_list@)
    }

    /// A manager over the full command table.
    pub fn new() -> (r: Self)
        ensures
            r.commands_view() == command_table(),
            r.list_view() == command_list_of(command_table()),
    {
        let defs = build_command_definitions();
        let mut command_list: Vec<(String, String)> = Vec::new();
        let mut i: usize = 0;
        while i < defs.len()
            invariant
                i <= defs.len(),
                pairs_view(command_list@) == command_list_of(defs_view(defs@).take(i as int)),
            decreases defs.len() - i,
        {
            let d = &defs[i];
            let ghost pre = defs_view(defs@).take(i as int);
            let ghost cur = defs_view(defs@).take(i + 1);
            assert(cur.drop_last() == pre);
            assert(cur.last() == d.spec_view());
            let ghost start = pairs_view(command_list@);
            command_list.push((d.name.clone(), d.description.clone()));
            assert(pairs_view(command_list@) =~= start + seq![(d.spec_view().name, d.spec_view().description)]);
            push_all_with_description(&mut command_list, &d.aliases, &d.description);
            assert(pairs_view(command_list@) =~= command_list_of(cur));
            i = i + 1;
        }
        assert(defs_view(defs@).take(defs.len() as int) == defs_view(defs@));
        CompletionManager { commands: defs, command_list }
    }

    /// Name/description pairs whose name starts with `prefix`, in list order.
    pub fn get_command_completions(&self, prefix: &str) -> (r: Vec<(String, String)>)
        ensures
            pairs_view(r@) == list_with_prefix(self.list_view(), prefix@),
    {
        let p = chars_of(prefix);
        let mut out: Vec<(String, String)> = Vec::new();
        let mut i: usize = 0;
        while i < self.command_list.len()
            invariant
                i <= self.command_list.len(),
                p@ == prefix@,
                pairs_view(out@) == list_with_prefix(self.list_view().take(i as int), prefix@),
            decreases self.command_list.len() - i,
        {
            let ghost pre = self.list_view().take(i as int);
            let ghost cur = self.list_view().take(i + 1);
            assert(cur.drop_last() == pre);
            assert(cur.last() == (self.command_list@[i as int].0@, self.command_list@[i as int].1@));
            let n = chars_of(self.command_list[i].0.as_str());
            if chars_start_with(&n, &p) {
                let ghost before = out@;
                out.push((self.command_list[i].0.clone(), self.command_list[i].1.clone()));
                assert(pairs_view(out@) =~= pairs_view(before).push(cur.last()));
            }
            i = i + 1;
        }
        assert(self.list_view().take(self.command_list.len() as int) == self.list_view());
        out
    }

    /// The command designated by `name`: the command with that name, else the
    /// first command with that alias.
    pub fn get_command(&self, name: &str) -> (r: Option<&CommandDef>)
        ensures
            r is Some <==> find_command(self.commands_view(), name@) is Some,
            r matches Some(d) ==> d.spec_view() == self.commands_view()[find_command(
                self.commands_view(),
                name@,
            ).unwrap()],
    {
        let ghost cmds = self.commands_view();
        let mut i: usize = 0;
        while i < self.commands.len()
            invariant
                i <= self.commands.len(),
                cmds == self.commands_view(),
                cmds.len() == self.commands@.len(),
                index_by_name(cmds.take(i as int), name@) is None,
            decreases self.commands.len() - i,
        {
            assert(cmds.take(i + 1).drop_last() == cmds.take(i as int));
            if str_eq(self.commands[i].name.as_str(), name) {
                proof {
                    lemma_index_prefix_name(cmds, name@, i as int);
                }
                return Some(&self.commands[i]);
            }
            i = i + 1;
        }
        assert(cmds.take(self.commands.len() as int) == cmds);
        let mut i: usize = 0;
        while i < self.commands.len()
            invariant
                i <= self.commands.len(),
                cmds == self.commands_view(),
                cmds.len() == self.commands@.len(),
                index_by_name(cmds, name@) is None,
                index_by_alias(cmds.take(i as int), name@) is None,
            decreases self.commands.len() - i,
        {
            assert(cmds.take(i + 1).drop_last() == cmds.take(i as int));
            if contains_string(&self.commands[i].aliases, name) {
                proof {
                    lemma_index_prefix_alias(cmds, name@, i as int);
                }
                return Some(&self.commands[i]);
            }
            i = i + 1;
        }
        assert(cmds.take(self.commands.len() as int) == cmds);
        None
    }

    /// The completion context of the text before byte offset `pos`.
    pub fn parse_input_for_completion(&self, line: &str, pos: usize) -> (r: CompletionContext)
        requires
            is_boundary(line@, pos as int),
        ensures
            r@ == parse_context(self.commands_view(), chars_before(line@, pos as int)),
    {
        let (before, _after) = split_chars_at(line, pos);
        let toks = split_ws(&before);
        let ghost parts = ws_tokens(before@);
        let ends_with_space = before.len() > 0 && before[before.len() - 1] == ' ';
        if toks.len() == 0 {
            return CompletionContext::CommandName(String::new());
        }
        if toks.len() == 1 && !ends_with_space {
            return CompletionContext::CommandName(string_of(&toks[0]));
        }
        let cmd_name = string_of(&toks[0]);
        match self.get_command(cmd_name.as_str()) {
            None => CompletionContext::Unknown,
            Some(cmd) => self.argument_context_of(cmd, &toks, ends_with_space, Ghost(parts)),
        }
    }

    #[verifier::loop_isolation(false)]
    fn argument_context_of(
        &self,
        cmd: &CommandDef,
        toks: &Vec<Vec<char>>,
        ends_with_space: bool,
        Ghost(parts): Ghost<Seq<Seq<char>>>,
    ) -> (r: CompletionContext)
        requires
            toks@.len() >= 1,
            toks@.len() == parts.len(),
            forall|k: int| 0 <= k < toks@.len() ==> #[trigger] toks@[k]@ == parts[k],
        ensures
            r@ == argument_context(cmd.spec_view(), parts, ends_with_space),
    {
        let cmd_name = string_of(&toks[0]);
        let n = toks.len();
        if n == 1 {
            return CompletionContext::CommandArg(cmd_name, String::new());
        }
        let last = &toks[n - 1];
        assert(last@ == parts.last());
        let mut dash: Vec<char> = Vec::new();
        dash.push('-');
        assert(dash@ =~= seq!['-']);
        assert(toks@[1]@ == parts[1]);
        let last_is_flag = chars_start_with(last, &dash);
        let ghost c = cmd.spec_view();
        if cmd.subcommands.len() > 0 {
            let sn = string_of(&toks[1]);
            if n == 2 && !ends_with_space {
                return CompletionContext::Subcommand(cmd_name, sn);
            }
            let found = find_subcommand(cmd, sn.as_str());
            match found {
                Some(k) => {
                    assert(c.subcommands[k as int] == cmd.subcommands@[k as int].spec_view());
                    if !ends_with_space && last_is_flag {
                        return CompletionContext::SubcommandArg(cmd_name, sn, string_of(last));
                    }
                    if cmd.subcommands[k].accepts_path {
                        return CompletionContext::Path;
                    }
                },
                None => {},
            }
        }
        assert(subcommand_context(c, parts, ends_with_space) is None);
        if !ends_with_space && last_is_flag {
            return CompletionContext::CommandArg(cmd_name, string_of(last));
        }
        let word: Vec<char> = if ends_with_space { toks[n - 1].clone() } else { toks[n - 2].clone() };
        let bl = string_of(&word);
        assert(bl@ == value_word(parts, ends_with_space));
        let mut j: usize = 0;
        while j < cmd.args.len()
            invariant
                j <= cmd.args.len(),
                c == cmd.spec_view(),
                c.args.len() == cmd.args@.len(),
                first_value_arg(c.args.take(j as int), bl@) is None,
            decreases cmd.args.len() - j,
        {
            let a = &cmd.args[j];
            assert(c.args.take(j + 1).drop_last() == c.args.take(j as int));
            assert(c.args.take(j + 1).last() == a@);
            assert(c.args[j as int] == a@);
            let is_value = match &a.arg_type {
                ArgType::Value(_) => true,
                _ => false,
            };
            if is_value && (str_eq(a.name.as_str(), bl.as_str()) || contains_string(&a.aliases, bl.as_str())) {
                proof {
                    lemma_first_value_arg_prefix(c.args, bl@, j as int);
                }
                match &a.arg_type {
                    ArgType::Value(hint) => {
                        let h = chars_of(hint.as_str());
                        let mut tag: Vec<char> = Vec::new();
                        tag.push('t');
                        tag.push('a');
                        tag.push('g');
                        proof {
                            reveal_strlit("tag");
                            assert(tag@ =~= "tag"@);
                            assert(a@.kind == ArgKind::Value(hint@));
                        }
                        if chars_contain(&h, &tag) {
                            return CompletionContext::Tag;
                        } else {
                            return CompletionContext::Path;
                        }
                    },
                    _ => {
                        return CompletionContext::Unknown;
                    },
                }
            }
            j = j + 1;
        }
        assert(c.args.take(cmd.args.len() as int) == c.args);
        if cmd.accepts_path {
            CompletionContext::Path
        } else {
            CompletionContext::Unknown
        }
    }
}

/// Index of the first subcommand of `cmd` one of whose names starts with
/// `input`.
fn find_subcommand(cmd: &CommandDef, input: &str) -> (r: Option<usize>)
    ensures
        r matches Some(k) ==> k < cmd.subcommands@.len(),
        r matches Some(k) ==> first_sub_match(cmd.spec_view().subcommands, input@) == Some(k as int),
        r is None ==> first_sub_match(cmd.spec_view().subcommands, input@) is None,
{
    let ghost c = cmd.spec_view();
    let mut j: usize = 0;
    while j < cmd.subcommands.len()
        invariant
            j <= cmd.subcommands.len(),
            c == cmd.spec_view(),
            c.subcommands.len() == cmd.subcommands@.len(),
            first_sub_match(c.subcommands.take(j as int), input@) is None,
        decreases cmd.subcommands.len() - j,
    {
        assert(c.subcommands.take(j + 1).drop_last() == c.subcommands.take(j as int));
        assert(c.subcommands.take(j + 1).last() == cmd.subcommands@[j as int].spec_view());
        if cmd.subcommands[j].matches_name(input) {
            proof {
                lemma_first_sub_match_prefix(c.subcommands, input@, j as int);
            }
            return Some(j);
        }
        j = j + 1;
    }
    assert(c.subcommands.take(c.subcommands.len() as int) == c.subcommands);
    None
}

/// Whether one of `v` equals `s`.
pub fn contains_string(v: &Vec<String>, s: &str) -> (r: bool)
    ensures
        r == views(v@).contains(s@),
{
    let mut i: usize = 0;
    while i < v.len()
        invariant
            i <= v.len(),
            forall|j: int| 0 <= j < i ==> views(v@)[j] != s@,
        decreases v.len() - i,
    {
        if str_eq(v[i].as_str(), s) {
            assert(views(v@)[i as int] == s@);
            return true;
        }
        i = i + 1;
    }
    false
}

proof fn lemma_index_prefix_name(cmds: Seq<CommandSpec>, name: Seq<char>, i: int)
    requires
        0 <= i < cmds.len(),
        index_by_name(cmds.take(i), name) is None,
        cmds[i].name == name,
    ensures
        index_by_name(cmds, name) == Some(i),
        find_command(cmds, name) == Some(i),
    decreases cmds.len(),
{
    if i < cmds.len() - 1 {
        assert(cmds.drop_last().take(i) == cmds.take(i));
        lemma_index_prefix_name(cmds.drop_last(), name, i);
    } else {
        assert(cmds.drop_last() == cmds.take(i));
    }
}

proof fn lemma_index_prefix_alias(cmds: Seq<CommandSpec>, name: Seq<char>, i: int)
    requires
        0 <= i < cmds.len(),
        index_by_name(cmds, name) is None,
        index_by_alias(cmds.take(i), name) is None,
        cmds[i].aliases.contains(name),
    ensures
        find_command(cmds, name) == Some(i),
{
    lemma_alias_prefix(cmds, name, i);
}

proof fn lemma_alias_prefix(cmds: Seq<CommandSpec>, name: Seq<char>, i: int)
    requires
        0 <= i < cmds.len(),
        index_by_alias(cmds.take(i), name) is None,
        cmds[i].aliases.contains(name),
    ensures
        index_by_alias(cmds, name) == Some(i),
    decreases cmds.len(),
{
    if i < cmds.len() - 1 {
        assert(cmds.drop_last().take(i) == cmds.take(i));
        lemma_alias_prefix(cmds.drop_last(), name, i);
    } else {
        assert(cmds.drop_last() == cmds.take(i));
    }
}

proof fn lemma_first_sub_match_prefix(subs: Seq<CommandSpec>, input: Seq<char>, i: int)
    requires
        0 <= i < subs.len(),
        first_sub_match(subs.take(i), input) is None,
        some_name_starts_with(command_names(subs[i]), input),
    ensures
        first_sub_match(subs, input) == Some(i),
    decreases subs.len(),
{
    if i < subs.len() - 1 {
        assert(subs.drop_last().take(i) == subs.take(i));
        lemma_first_sub_match_prefix(subs.drop_last(), input, i);
    } else {
        assert(subs.drop_last() == subs.take(i));
    }
}

proof fn lemma_first_value_arg_prefix(args: Seq<ArgSpec>, word: Seq<char>, i: int)
    requires
        0 <= i < args.len(),
        first_value_arg(args.take(i), word) is None,
        is_value_arg_named(args[i], word),
    ensures
        first_value_arg(args, word) == Some(i),
    decreases args.len(),
{
    if i < args.len() - 1 {
        assert(args.drop_last().take(i) == args.take(i));
        lemma_first_value_arg_prefix(args.drop_last(), word, i);
    } else {
        assert(args.drop_last() == args.take(i));
    }
}

impl Default for CompletionManager {
    fn default() -> (r: Self)
        ensures
            r.commands_view() == command_table(),
            r.list_view() == command_list_of(command_table()),
    {
        Self::new()
    }
}

} // verus!
