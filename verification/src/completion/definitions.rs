//! The table of all commands offered for completion.

use vstd::prelude::*;
use super::types::{ArgKind, ArgSpec, ArgType, CommandArg, CommandDef, CommandSpec};

verus! {

/// A flag argument without aliases.
pub open spec fn flag(name: Seq<char>, desc: Seq<char>) -> ArgSpec {
    ArgSpec { name, aliases: Seq::empty(), kind: ArgKind::Flag, description: desc }
}

/// A valued argument without aliases.
pub open spec fn valued(name: Seq<char>, hint: Seq<char>, desc: Seq<char>) -> ArgSpec {
    ArgSpec { name, aliases: Seq::empty(), kind: ArgKind::Value(hint), description: desc }
}

/// A bare command.
pub open spec fn cmd(name: Seq<char>, desc: Seq<char>) -> CommandSpec {
    CommandSpec {
        name,
        aliases: Seq::empty(),
        description: desc,
        args: Seq::empty(),
        accepts_path: false,
        subcommands: Seq::empty(),
    }
}

/// `c` with one more alias.
pub open spec fn alias(c: CommandSpec, a: Seq<char>) -> CommandSpec {
    CommandSpec { aliases: c.aliases.push(a), ..c }
}

/// `c` with one more argument.
pub open spec fn arg(c: CommandSpec, a: ArgSpec) -> CommandSpec {
    CommandSpec { args: c.args.push(a), ..c }
}

/// `c` taking a path.
pub open spec fn path(c: CommandSpec) -> CommandSpec {
    CommandSpec { accepts_path: true, ..c }
}

/// `c` with one more subcommand.
pub open spec fn subcmd(c: CommandSpec, s: CommandSpec) -> CommandSpec {
    CommandSpec { subcommands: c.subcommands.push(s), ..c }
}

pub open spec fn spec_ls() -> CommandSpec {
    path(
        arg(
            arg(
                arg(
                    arg(
                        arg(
                            arg(
                                arg(
                                    arg(
                                        arg(
                                            arg(
                                                arg(
                                                    arg(
                                                        arg(
                                                            arg(
                                                                alias(
                                                                    cmd(
                                                                        "ls"@,
                                                                        "List directory contents"@,
                                                                    ),
                                                                    "dir"@,
                                                                ),
                                                                flag("-a"@, "Show hidden files"@),
                                                            ),
                                                            flag("--all"@, "Show hidden files"@),
                                                        ),
                                                        flag("-l"@, "Show detailed information"@),
                                                    ),
                                                    flag("--long"@, "Show detailed information"@),
                                                ),
                                                flag("-la"@, "Show all files with details"@),
                                            ),
                                            flag("-al"@, "Show all files with details"@),
                                        ),
                                        flag("--re"@, "Search files by regex"@),
                                    ),
                                    flag("--re-deep"@, "Recursive regex search"@),
                                ),
                                flag("--re-insensitive"@, "Case-insensitive regex"@),
                            ),
                            flag("--xcaps"@, "Case-insensitive regex alias"@),
                        ),
                        flag("-tag"@, "Show file tags"@),
                    ),
                    flag("--tags"@, "Show file tags"@),
                ),
                valued("-t"@, "<tag_regex>"@, "Filter by tag regex"@),
            ),
            valued("--tag"@, "<tag_regex>"@, "Filter by tag regex"@),
        ),
    )
}

pub open spec fn spec_cd() -> CommandSpec {
    path(
        arg(
            arg(
                arg(
                    arg(
                        cmd("cd"@, "Change directory"@),
                        flag("-b"@, "Go back to previous directory"@),
                    ),
                    flag("-back"@, "Go back to previous directory"@),
                ),
                valued("-r"@, "<line_number>"@, "Cd by ls line number"@),
            ),
            valued("-tag"@, "<tag>"@, "Cd to directory with .index file matching tag"@),
        ),
    )
}

pub open spec fn spec_open() -> CommandSpec {
    path(
        arg(
            arg(
                cmd("open"@, "Open file with default application"@),
                valued("-r"@, "<line_number>"@, "Open by ls line number"@),
            ),
            valued("-tag"@, "<tag>"@, "Open directory matching tag"@),
        ),
    )
}

pub open spec fn spec_mv() -> CommandSpec {
    path(
        arg(
            arg(cmd("mv"@, "Move or copy files"@), flag("--cp"@, "Copy instead of move"@)),
            valued("-r"@, "<line_number>"@, "Use ls line number reference"@),
        ),
    )
}

pub open spec fn spec_alias() -> CommandSpec {
    subcmd(
        subcmd(
            subcmd(
                cmd("alias"@, "Manage path aliases"@),
                alias(cmd("add"@, "Add a new alias"@), "set"@),
            ),
            alias(alias(cmd("remove"@, "Remove an alias"@), "rm"@), "delete"@),
        ),
        alias(cmd("list"@, "List all aliases"@), "ls"@),
    )
}

pub open spec fn spec_tag() -> CommandSpec {
    subcmd(
        subcmd(
            subcmd(
                subcmd(
                    subcmd(
                        subcmd(
                            subcmd(
                                subcmd(
                                    alias(cmd("tag"@, "Manage file tags"@), "t"@),
                                    path(cmd("add"@, "Add tags to a file"@)),
                                ),
                                path(alias(cmd("remove"@, "Remove tags from a file"@), "rm"@)),
                            ),
                            path(cmd("clear"@, "Clear all tags from a file"@)),
                        ),
                        path(cmd("get"@, "Get tags of a file"@)),
                    ),
                    alias(cmd("list"@, "List all tagged files"@), "ls"@),
                ),
                alias(cmd("find"@, "Find files by tag regex"@), "search"@),
            ),
            cmd("backup"@, "Backup tag data"@),
        ),
        cmd("restore"@, "Restore tag data from backup"@),
    )
}

pub open spec fn spec_mkdf() -> CommandSpec {
    path(
        arg(
            arg(
                arg(cmd("mkdf"@, "Make directory or file"@), flag("-d"@, "Create directory"@)),
                flag("-f"@, "Create file"@),
            ),
            flag("-p"@, "Create parent directories"@),
        ),
    )
}

pub open spec fn spec_change() -> CommandSpec {
    arg(
        arg(
            arg(
                arg(
                    cmd("change"@, "Change application settings"@),
                    flag("-std"@, "Switch to standard mode"@),
                ),
                flag("--std"@, "Switch to standard mode"@),
            ),
            flag("-moe"@, "Switch to moe mode"@),
        ),
        flag("--moe"@, "Switch to moe mode"@),
    )
}

/// Every command offered for completion, in this order: ls, cd, open, mv,
/// pwd, cppwd, cpf, alias, tag, mkdf, change, clear, help, welcome, exit.
pub open spec fn command_table() -> Seq<CommandSpec> {
    seq![
        spec_ls(),
        spec_cd(),
        spec_open(),
        spec_mv(),
        cmd("pwd"@, "Print current working directory"@),
        cmd("cppwd"@, "Copy current directory path to clipboard"@),
        path(cmd("cpf"@, "Copy file path to clipboard"@)),
        spec_alias(),
        spec_tag(),
        spec_mkdf(),
        spec_change(),
        alias(cmd("clear"@, "Clear terminal screen"@), "cls"@),
        alias(alias(cmd("help"@, "Show help information"@), "?"@), "h"@),
        cmd("welcome"@, "Show welcome message"@),
        alias(alias(cmd("exit"@, "Exit the application"@), "quit"@), "q"@),
    ]
}

/// The abstract forms of a sequence of commands.
pub open spec fn defs_view(defs: Seq<CommandDef>) -> Seq<CommandSpec> {
    Seq::new(defs.len(), |i: int| defs[i].spec_view())
}

fn def_ls() -> (r: CommandDef)
    ensures
        r.spec_view() == spec_ls(),
{
    CommandDef::new("ls", "List directory contents")
        .with_alias("dir")
        .with_arg(CommandArg::new("-a", ArgType::Flag, "Show hidden files"))
        .with_arg(CommandArg::new("--all", ArgType::Flag, "Show hidden files"))
        .with_arg(CommandArg::new("-l", ArgType::Flag, "Show detailed information"))
        .with_arg(CommandArg::new("--long", ArgType::Flag, "Show detailed information"))
        .with_arg(CommandArg::new("-la", ArgType::Flag, "Show all files with details"))
        .with_arg(CommandArg::new("-al", ArgType::Flag, "Show all files with details"))
        .with_arg(CommandArg::new("--re", ArgType::Flag, "Search files by regex"))
        .with_arg(CommandArg::new("--re-deep", ArgType::Flag, "Recursive regex search"))
        .with_arg(CommandArg::new("--re-insensitive", ArgType::Flag, "Case-insensitive regex"))
        .with_arg(CommandArg::new("--xcaps", ArgType::Flag, "Case-insensitive regex alias"))
        .with_arg(CommandArg::new("-tag", ArgType::Flag, "Show file tags"))
        .with_arg(CommandArg::new("--tags", ArgType::Flag, "Show file tags"))
        .with_arg(
            CommandArg::new("-t", ArgType::Value("<tag_regex>".to_owned()), "Filter by tag regex"),
        )
        .with_arg(
            CommandArg::new(
                "--tag",
                ArgType::Value("<tag_regex>".to_owned()),
                "Filter by tag regex",
            ),
        )
        .with_path_support()
}

fn def_cd() -> (r: CommandDef)
    ensures
        r.spec_view() == spec_cd(),
{
    CommandDef::new("cd", "Change directory")
        .with_arg(CommandArg::new("-b", ArgType::Flag, "Go back to previous directory"))
        .with_arg(CommandArg::new("-back", ArgType::Flag, "Go back to previous directory"))
        .with_arg(
            CommandArg::new("-r", ArgType::Value("<line_number>".to_owned()), "Cd by ls line number"),
        )
        .with_arg(
            CommandArg::new(
                "-tag",
                ArgType::Value("<tag>".to_owned()),
                "Cd to directory with .index file matching tag",
            ),
        )
        .with_path_support()
}

fn def_open() -> (r: CommandDef)
    ensures
        r.spec_view() == spec_open(),
{
    CommandDef::new("open", "Open file with default application")
        .with_arg(
            CommandArg::new(
                "-r",
                ArgType::Value("<line_number>".to_owned()),
                "Open by ls line number",
            ),
        )
        .with_arg(
            CommandArg::new("-tag", ArgType::Value("<tag>".to_owned()), "Open directory matching tag"),
        )
        .with_path_support()
}

fn def_mv() -> (r: CommandDef)
    ensures
        r.spec_view() == spec_mv(),
{
    CommandDef::new("mv", "Move or copy files")
        .with_arg(CommandArg::new("--cp", ArgType::Flag, "Copy instead of move"))
        .with_arg(
            CommandArg::new(
                "-r",
                ArgType::Value("<line_number>".to_owned()),
                "Use ls line number reference",
            ),
        )
        .with_path_support()
}

fn def_alias() -> (r: CommandDef)
    ensures
        r.spec_view() == spec_alias(),
{
    CommandDef::new("alias", "Manage path aliases")
        .with_subcommand(CommandDef::new("add", "Add a new alias").with_alias("set"))
        .with_subcommand(
            CommandDef::new("remove", "Remove an alias").with_alias("rm").with_alias("delete"),
        )
        .with_subcommand(CommandDef::new("list", "List all aliases").with_alias("ls"))
}

fn def_tag() -> (r: CommandDef)
    ensures
        r.spec_view() == spec_tag(),
{
    CommandDef::new("tag", "Manage file tags")
        .with_alias("t")
        .with_subcommand(CommandDef::new("add", "Add tags to a file").with_path_support())
        .with_subcommand(
            CommandDef::new("remove", "Remove tags from a file").with_alias("rm").with_path_support(),
        )
        .with_subcommand(CommandDef::new("clear", "Clear all tags from a file").with_path_support())
        .with_subcommand(CommandDef::new("get", "Get tags of a file").with_path_support())
        .with_subcommand(CommandDef::new("list", "List all tagged files").with_alias("ls"))
        .with_subcommand(CommandDef::new("find", "Find files by tag regex").with_alias("search"))
        .with_subcommand(CommandDef::new("backup", "Backup tag data"))
        .with_subcommand(CommandDef::new("restore", "Restore tag data from backup"))
}

fn def_mkdf() -> (r: CommandDef)
    ensures
        r.spec_view() == spec_mkdf(),
{
    CommandDef::new("mkdf", "Make directory or file")
        .with_arg(CommandArg::new("-d", ArgType::Flag, "Create directory"))
        .with_arg(CommandArg::new("-f", ArgType::Flag, "Create file"))
        .with_arg(CommandArg::new("-p", ArgType::Flag, "Create parent directories"))
        .with_path_support()
}

fn def_change() -> (r: CommandDef)
    ensures
        r.spec_view() == spec_change(),
{
    CommandDef::new("change", "Change application settings")
        .with_arg(CommandArg::new("-std", ArgType::Flag, "Switch to standard mode"))
        .with_arg(CommandArg::new("--std", ArgType::Flag, "Switch to standard mode"))
        .with_arg(CommandArg::new("-moe", ArgType::Flag, "Switch to moe mode"))
        .with_arg(CommandArg::new("--moe", ArgType::Flag, "Switch to moe mode"))
}

/// Builds the definitions of all commands (see [`command_table`]).
pub fn build_command_definitions() -> (r: Vec<CommandDef>)
    ensures
        defs_view(r@) == command_table(),
{
    let mut v: Vec<CommandDef> = Vec::new();
    v.push(def_ls());
    v.push(def_cd());
    v.push(def_open());
    v.push(def_mv());
    v.push(CommandDef::new("pwd", "Print current working directory"));
    v.push(CommandDef::new("cppwd", "Copy current directory path to clipboard"));
    v.push(CommandDef::new("cpf", "Copy file path to clipboard").with_path_support());
    v.push(def_alias());
    v.push(def_tag());
    v.push(def_mkdf());
    v.push(def_change());
    v.push(CommandDef::new("clear", "Clear terminal screen").with_alias("cls"));
    v.push(CommandDef::new("help", "Show help information").with_alias("?").with_alias("h"));
    v.push(CommandDef::new("welcome", "Show welcome message"));
    v.push(CommandDef::new("exit", "Exit the application").with_alias("quit").with_alias("q"));
    assert(defs_view(v@) =~= command_table());
    v
}

} // verus!
