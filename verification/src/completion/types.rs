//! Command metadata: argument kinds, argument and command definitions.

use vstd::prelude::*;
use crate::text::{chars_of, chars_start_with, starts_with, views};

verus! {

/// The kind of value a command argument takes.
#[derive(Debug, Clone)]
pub enum ArgType {
    /// A flag without a value (`-a`, `--all`).
    Flag,
    /// An argument followed by a value; the string names the value (`<tag>`).
    Value(String),
    /// A path argument.
    Path,
    /// A tag argument.
    Tag,
    /// An alias argument.
    Alias,
}

/// Abstract form of an [`ArgType`].
#[verifier::ext_equal]
pub enum ArgKind {
    Flag,
    Value(Seq<char>),
    Path,
    Tag,
    Alias,
}

impl View for ArgType {
    type V = ArgKind;

    open spec fn view(&self) -> ArgKind {
        match self {
            ArgType::Flag => ArgKind::Flag,
            ArgType::Value(s) => ArgKind::Value(s@),
            ArgType::Path => ArgKind::Path,
            ArgType::Tag => ArgKind::Tag,
            ArgType::Alias => ArgKind::Alias,
        }
    }
}

/// Abstract form of a [`CommandArg`].
#[verifier::ext_equal]
pub struct ArgSpec {
    pub name: Seq<char>,
    pub aliases: Seq<Seq<char>>,
    pub kind: ArgKind,
    pub description: Seq<char>,
}

/// Abstract form of a [`CommandDef`].
#[verifier::ext_equal]
pub struct CommandSpec {
    pub name: Seq<char>,
    pub aliases: Seq<Seq<char>>,
    pub description: Seq<char>,
    pub args: Seq<ArgSpec>,
    pub accepts_path: bool,
    pub subcommands: Seq<CommandSpec>,
}

/// The views of a sequence of strings.
pub open spec fn strs_view(s: Seq<String>) -> Seq<Seq<char>> {
    views(s)
}

/// The views of a sequence of string pairs.
pub open spec fn pairs_view(s: Seq<(String, String)>) -> Seq<(Seq<char>, Seq<char>)> {
    s.map_values(|p: (String, String)| (p.0@, p.1@))
}

/// The names among `names` that start with `prefix`, in order.
pub open spec fn names_with_prefix(names: Seq<Seq<char>>, prefix: Seq<char>) -> Seq<Seq<char>>
    decreases names.len(),
{
    if names.len() == 0 {
        Seq::empty()
    } else if starts_with(names.last(), prefix) {
        names_with_prefix(names.drop_last(), prefix).push(names.last())
    } else {
        names_with_prefix(names.drop_last(), prefix)
    }
}

/// Pairs each name with the same description.
pub open spec fn with_description(names: Seq<Seq<char>>, desc: Seq<char>) -> Seq<(Seq<char>, Seq<char>)> {
    names.map_values(|n: Seq<char>| (n, desc))
}

/// All names of an argument: its name, then its aliases.
pub open spec fn arg_names(a: ArgSpec) -> Seq<Seq<char>> {
    seq![a.name] + a.aliases
}

/// All names of a command: its name, then its aliases.
pub open spec fn command_names(c: CommandSpec) -> Seq<Seq<char>> {
    seq![c.name] + c.aliases
}

/// Completions offered for the arguments of a command: for each argument in
/// order, each of its names that starts with `prefix`, with the argument's
/// description.
pub open spec fn arg_completions(args: Seq<ArgSpec>, prefix: Seq<char>) -> Seq<(Seq<char>, Seq<char>)>
    decreases args.len(),
{
    if args.len() == 0 {
        Seq::empty()
    } else {
        arg_completions(args.drop_last(), prefix) + with_description(
            names_with_prefix(arg_names(args.last()), prefix),
            args.last().description,
        )
    }
}

/// Completions offered for the subcommands of a command, in the same way.
pub open spec fn sub_completions(subs: Seq<CommandSpec>, prefix: Seq<char>) -> Seq<(Seq<char>, Seq<char>)>
    decreases subs.len(),
{
    if subs.len() == 0 {
        Seq::empty()
    } else {
        sub_completions(subs.drop_last(), prefix) + with_description(
            names_with_prefix(command_names(subs.last()), prefix),
            subs.last().description,
        )
    }
}

/// Whether one of `names` starts with `input`.
pub open spec fn some_name_starts_with(names: Seq<Seq<char>>, input: Seq<char>) -> bool {
    exists|i: int| 0 <= i < names.len() && #[trigger] starts_with(names[i], input)
}

/// Clones of the given strings.
pub fn clone_strings(v: &Vec<String>) -> (r: Vec<String>)
    ensures
        views(r@) == views(v@),
{
    let mut out: Vec<String> = Vec::new();
    let mut i: usize = 0;
    while i < v.len()
        invariant
            i <= v.len(),
            views(out@) == views(v@).take(i as int),
            out@.len() == i,
        decreases v.len() - i,
    {
        let ghost prev = out@;
        let c = v[i].clone();
        out.push(c);
        assert(out@ == prev.push(c));
        assert(c@ == v@[i as int]@);
        assert(views(out@).len() == i + 1);
        assert(views(out@)[i as int] == out@[i as int]@);
        assert forall|k: int| 0 <= k < i + 1 implies #[trigger] views(out@)[k] == views(v@).take(
            i + 1,
        )[k] by {
            if k < i {
                assert(views(prev)[k] == views(v@).take(i as int)[k]);
                assert(views(out@)[k] == out@[k]@);
                assert(out@[k] == prev[k]);
                assert(views(prev)[k] == prev[k]@);
            }
        }
        assert(views(out@) =~= views(v@).take(i + 1));
        i = i + 1;
    }
    assert(views(v@).take(v.len() as int) == views(v@));
    out
}

/// Appends every name of `names` to `out`, each with `desc`.
pub(crate) fn push_all_with_description(
    out: &mut Vec<(String, String)>,
    names: &Vec<String>,
    desc: &String,
)
    ensures
        pairs_view(final(out)@) == pairs_view(old(out)@) + with_description(views(names@), desc@),
{
    let ghost start = pairs_view(out@);
    let mut i: usize = 0;
    while i < names.len()
        invariant
            i <= names.len(),
            pairs_view(out@) == start + with_description(views(names@).take(i as int), desc@),
        decreases names.len() - i,
    {
        let ghost prev = out@;
        let a = names[i].clone();
        let b = desc.clone();
        out.push((a, b));
        assert(out@ == prev.push((a, b)));
        assert(pairs_view(out@) == pairs_view(prev).push((a@, b@)));
        assert(views(names@).take(i + 1) == views(names@).take(i as int).push(names@[i as int]@));
        assert(with_description(views(names@).take(i + 1), desc@) =~= with_description(
            views(names@).take(i as int),
            desc@,
        ).push((names@[i as int]@, desc@)));
        assert(pairs_view(out@) =~= start + with_description(
            views(names@).take(i + 1),
            desc@,
        ));
        i = i + 1;
    }
    assert(views(names@).take(names.len() as int) == views(names@));
}

/// Appends to `out`, with `desc`, every name in `names` that starts with
/// `prefix`.
fn push_matching_names(
    out: &mut Vec<(String, String)>,
    names: &Vec<String>,
    prefix: &str,
    desc: &String,
)
    ensures
        pairs_view(final(out)@) == pairs_view(old(out)@) + with_description(
            names_with_prefix(views(names@), prefix@),
            desc@,
        ),
{
    let p = chars_of(prefix);
    let ghost start = pairs_view(out@);
    let mut i: usize = 0;
    while i < names.len()
        invariant
            i <= names.len(),
            p@ == prefix@,
            pairs_view(out@) == start + with_description(
                names_with_prefix(views(names@).take(i as int), prefix@),
                desc@,
            ),
        decreases names.len() - i,
    {
        let ghost pre = views(names@).take(i as int);
        let ghost cur = views(names@).take(i + 1);
        assert(cur.drop_last() == pre);
        assert(cur.last() == names@[i as int]@);
        let n = chars_of(names[i].as_str());
        if chars_start_with(&n, &p) {
            let ghost prev = out@;
            let a = names[i].clone();
            let b = desc.clone();
            out.push((a, b));
            assert(out@ == prev.push((a, b)));
            assert(pairs_view(out@) == pairs_view(prev).push((a@, b@)));
            assert(names_with_prefix(cur, prefix@) == names_with_prefix(pre, prefix@).push(cur.last()));
            assert(with_description(names_with_prefix(cur, prefix@), desc@) =~= with_description(names_with_prefix(pre, prefix@), desc@).push((cur.last(), desc@)));
            assert(pairs_view(out@) =~= start + with_description(
                names_with_prefix(cur, prefix@),
                desc@,
            ));
        } else {
            assert(names_with_prefix(cur, prefix@) == names_with_prefix(pre, prefix@));
        }
        i = i + 1;
    }
    assert(views(names@).take(names.len() as int) == views(names@));
}

impl CommandArg {
    /// A new argument without aliases.
    pub fn new(name: &str, arg_type: ArgType, description: &str) -> (r: Self)
        ensures
            r@ == (ArgSpec {
                name: name@,
                aliases: Seq::empty(),
                kind: arg_type@,
                description: description@,
            }),
    {
        let r = CommandArg {
            name: name.to_owned(),
            aliases: Vec::new(),
            arg_type,
            description: description.to_owned(),
        };
        assert(r@ =~= (ArgSpec {
            name: name@,
            aliases: Seq::empty(),
            kind: arg_type@,
            description: description@,
        }));
        r
    }

    /// The same argument with one more alias.
    pub fn with_alias(self, alias: &str) -> (r: Self)
        ensures
            r@ == (ArgSpec { aliases: self@.aliases.push(alias@), ..self@ }),
    {
        let mut s = self;
        s.aliases.push(alias.to_owned());
        assert(s@ =~= (ArgSpec { aliases: self@.aliases.push(alias@), ..self@ }));
        s
    }

    /// Whether the name or an alias starts with `input`.
    pub fn matches(&self, input: &str) -> (r: bool)
        ensures
            r == some_name_starts_with(arg_names(self@), input@),
    {
        let all = self.all_names();
        names_start_with(&all, input)
    }

    /// The name, then the aliases.
    pub fn all_names(&self) -> (r: Vec<String>)
        ensures
            views(r@) == arg_names(self@),
    {
        let mut names: Vec<String> = Vec::new();
        names.push(self.name.clone());
        let mut rest = clone_strings(&self.aliases);
        names.append(&mut rest);
        assert(views(names@) =~= arg_names(self@));
        names
    }
}

/// Whether one of `names` starts with `input`.
fn names_start_with(names: &Vec<String>, input: &str) -> (r: bool)
    ensures
        r == some_name_starts_with(views(names@), input@),
{
    let p = chars_of(input);
    let mut i: usize = 0;
    while i < names.len()
        invariant
            i <= names.len(),
            p@ == input@,
            forall|j: int| 0 <= j < i ==> !starts_with(#[trigger] views(names@)[j], input@),
        decreases names.len() - i,
    {
        let n = chars_of(names[i].as_str());
        if chars_start_with(&n, &p) {
            assert(starts_with(views(names@)[i as int], input@));
            return true;
        }
        i = i + 1;
    }
    false
}

/// One argument of a command.
#[derive(Debug, Clone)]
pub struct CommandArg {
    /// Argument name (`-a`, `--all`).
    pub name: String,
    /// Other names of the argument.
    pub aliases: Vec<String>,
    /// The kind of value the argument takes.
    pub arg_type: ArgType,
    /// One-line description.
    pub description: String,
}

impl View for CommandArg {
    type V = ArgSpec;

    open spec fn view(&self) -> ArgSpec {
        ArgSpec {
            name: self.name@,
            aliases: strs_view(self.aliases@),
            kind: self.arg_type@,
            description: self.description@,
        }
    }
}

/// One command, with its arguments and subcommands.
#[derive(Debug)]
pub struct CommandDef {
    /// Command name.
    pub name: String,
    /// Other names of the command.
    pub aliases: Vec<String>,
    /// One-line description.
    pub description: String,
    /// The command's arguments.
    pub args: Vec<CommandArg>,
    /// Whether the command takes a path.
    pub accepts_path: bool,
    /// Subcommands (such as `alias add`).
    pub subcommands: Vec<CommandDef>,
}

impl CommandDef {
    /// A new command without aliases, arguments, path support or subcommands.
    pub fn new(name: &str, description: &str) -> (r: Self)
        ensures
            r.spec_view() == (CommandSpec {
                name: name@,
                aliases: Seq::empty(),
                description: description@,
                args: Seq::empty(),
                accepts_path: false,
                subcommands: Seq::empty(),
            }),
    {
        let r = CommandDef {
            name: name.to_owned(),
            aliases: Vec::new(),
            description: description.to_owned(),
            args: Vec::new(),
            accepts_path: false,
            subcommands: Vec::new(),
        };
        assert(r.spec_view().subcommands =~= Seq::<CommandSpec>::empty());
        assert(r.spec_view().args =~= Seq::<ArgSpec>::empty());
        assert(r.spec_view().aliases =~= Seq::<Seq<char>>::empty());
        assert(r.spec_view() =~= (CommandSpec {
            name: name@,
            aliases: Seq::empty(),
            description: description@,
            args: Seq::empty(),
            accepts_path: false,
            subcommands: Seq::empty(),
        }));
        r
    }

    /// The same command with one more alias.
    pub fn with_alias(self, alias: &str) -> (r: Self)
        ensures
            r.spec_view() == (CommandSpec {
                aliases: self.spec_view().aliases.push(alias@),
                ..self.spec_view()
            }),
    {
        let mut s = self;
        s.aliases.push(alias.to_owned());
        assert(s.spec_view() =~= (CommandSpec {
            aliases: self.spec_view().aliases.push(alias@),
            ..self.spec_view()
        }));
        s
    }

    /// The same command with one more argument.
    pub fn with_arg(self, arg: CommandArg) -> (r: Self)
        ensures
            r.spec_view() == (CommandSpec {
                args: self.spec_view().args.push(arg@),
                ..self.spec_view()
            }),
    {
        let mut s = self;
        s.args.push(arg);
        assert(s.spec_view() =~= (CommandSpec {
            args: self.spec_view().args.push(arg@),
            ..self.spec_view()
        }));
        s
    }

    /// The same command, taking a path.
    pub fn with_path_support(self) -> (r: Self)
        ensures
            r.spec_view() == (CommandSpec { accepts_path: true, ..self.spec_view() }),
    {
        let mut s = self;
        s.accepts_path = true;
        assert(s.spec_view() =~= (CommandSpec { accepts_path: true, ..self.spec_view() }));
        s
    }

    /// The same command with one more subcommand.
    pub fn with_subcommand(self, subcmd: CommandDef) -> (r: Self)
        ensures
            r.spec_view() == (CommandSpec {
                subcommands: self.spec_view().subcommands.push(subcmd.spec_view()),
                ..self.spec_view()
            }),
    {
        let mut s = self;
        let ghost sv = subcmd.spec_view();
        let ghost old_subs = s.subcommands@;
        s.subcommands.push(subcmd);
        assert(s.subcommands@ == old_subs.push(subcmd));
        assert(s.spec_view().subcommands =~= self.spec_view().subcommands.push(sv));
        assert(s.spec_view() =~= (CommandSpec {
            subcommands: self.spec_view().subcommands.push(subcmd.spec_view()),
            ..self.spec_view()
        }));
        s
    }

    /// Whether the name or an alias starts with `input`.
    pub fn matches_name(&self, input: &str) -> (r: bool)
        ensures
            r == some_name_starts_with(command_names(self.spec_view()), input@),
    {
        let all = self.all_names();
        names_start_with(&all, input)
    }

    /// The name, then the aliases.
    pub fn all_names(&self) -> (r: Vec<String>)
        ensures
            views(r@) == command_names(self.spec_view()),
    {
        let mut names: Vec<String> = Vec::new();
        names.push(self.name.clone());
        let mut rest = clone_strings(&self.aliases);
        names.append(&mut rest);
        assert(views(names@) =~= command_names(self.spec_view()));
        names
    }

    /// Each argument name starting with `prefix`, with its description, in
    /// argument order.
    pub fn get_arg_completions(&self, prefix: &str) -> (r: Vec<(String, String)>)
        ensures
            pairs_view(r@) == arg_completions(self.spec_view().args, prefix@),
    {
        let mut out: Vec<(String, String)> = Vec::new();
        let ghost args = self.spec_view().args;
        let mut i: usize = 0;
        while i < self.args.len()
            invariant
                i <= self.args.len(),
                args == self.spec_view().args,
                args.len() == self.args@.len(),
                pairs_view(out@) == arg_completions(args.take(i as int), prefix@),
            decreases self.args.len() - i,
        {
            let names = self.args[i].all_names();
            assert(args.take(i + 1).drop_last() == args.take(i as int));
            assert(args.take(i + 1).last() == self.args@[i as int]@);
            push_matching_names(&mut out, &names, prefix, &self.args[i].description);
            i = i + 1;
        }
        assert(args.take(self.args.len() as int) == args);
        out
    }

    /// Each subcommand name starting with `prefix`, with its description, in
    /// subcommand order.
    pub fn get_subcommand_completions(&self, prefix: &str) -> (r: Vec<(String, String)>)
        ensures
            pairs_view(r@) == sub_completions(self.spec_view().subcommands, prefix@),
    {
        let mut out: Vec<(String, String)> = Vec::new();
        let ghost subs = self.spec_view().subcommands;
        let mut i: usize = 0;
        while i < self.subcommands.len()
            invariant
                i <= self.subcommands.len(),
                subs == self.spec_view().subcommands,
                subs.len() == self.subcommands@.len(),
                pairs_view(out@) == sub_completions(subs.take(i as int), prefix@),
            decreases self.subcommands.len() - i,
        {
            let names = self.subcommands[i].all_names();
            assert(subs.take(i + 1).drop_last() == subs.take(i as int));
            assert(subs.take(i + 1).last() == self.subcommands@[i as int].spec_view());
            push_matching_names(&mut out, &names, prefix, &self.subcommands[i].description);
            i = i + 1;
        }
        assert(subs.take(self.subcommands.len() as int) == subs);
        out
    }

    /// The abstract form of this command, subcommands included.
    pub open spec fn spec_view(&self) -> CommandSpec
        decreases self,
    {
        CommandSpec {
            name: self.name@,
            aliases: strs_view(self.aliases@),
            description: self.description@,
            args: self.args@.map_values(|a: CommandArg| a@),
            accepts_path: self.accepts_path,
            subcommands: Seq::new(
                self.subcommands@.len(),
                |i: int|
                    if 0 <= i < self.subcommands@.len() {
                        self.subcommands@[i].spec_view()
                    } else {
                        arbitrary()
                    },
            ),
        }
    }
}

} // verus!
