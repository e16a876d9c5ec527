//! The inline hint shown after the cursor: the rest of the first completion.

use vstd::prelude::*;
use crate::text::{chars_before, chars_of, chars_start_with, is_boundary, starts_with, string_of_range};
use super::context::{CompletionContext, ContextSpec};
use super::manager::{CompletionManager, find_command, list_with_prefix, parse_context};
use super::types::{CommandSpec, arg_completions, sub_completions};

verus! {

/// What remains of `name` once the typed `prefix` is taken off (all of
/// `name` when it does not start with `prefix`).
pub open spec fn rest_after_prefix(name: Seq<char>, prefix: Seq<char>) -> Seq<char> {
    if starts_with(name, prefix) {
        name.subrange(prefix.len() as int, name.len() as int)
    } else {
        name
    }
}

/// The inline hint for `line` with the cursor at byte offset `pos`: none on an
/// empty line or at the start; otherwise, for a command name, a command
/// argument or a subcommand being typed, the rest of the first completion
/// offered; none in every other context.
pub open spec fn hint_spec(
    cmds: Seq<CommandSpec>,
    list: Seq<(Seq<char>, Seq<char>)>,
    line: Seq<char>,
    pos: int,
) -> Option<Seq<char>> {
    if line.len() == 0 || pos == 0 {
        None
    } else {
        match parse_context(cmds, chars_before(line, pos)) {
            ContextSpec::CommandName(prefix) => if prefix.len() > 0 && list_with_prefix(
                list,
                prefix,
            ).len() > 0 {
                Some(rest_after_prefix(list_with_prefix(list, prefix)[0].0, prefix))
            } else {
                None
            },
            ContextSpec::CommandArg(c, a) => match find_command(cmds, c) {
                Some(k) => if arg_completions(cmds[k].args, a).len() > 0 {
                    Some(rest_after_prefix(arg_completions(cmds[k].args, a)[0].0, a))
                } else {
                    None
                },
                None => None,
            },
            ContextSpec::Subcommand(c, sp) => match find_command(cmds, c) {
                Some(k) => if sub_completions(cmds[k].subcommands, sp).len() > 0 {
                    Some(rest_after_prefix(sub_completions(cmds[k].subcommands, sp)[0].0, sp))
                } else {
                    None
                },
                None => None,
            },
            _ => None,
        }
    }
}

fn rest_of(name: &String, prefix: &String) -> (r: String)
    ensures
        r@ == rest_after_prefix(name@, prefix@),
{
    let n = chars_of(name.as_str());
    let p = chars_of(prefix.as_str());
    if chars_start_with(&n, &p) {
        string_of_range(&n, p.len(), n.len())
    } else {
        name.clone()
    }
}

/// The inline hint for `line` with the cursor at byte offset `pos`.
pub fn hint(line: &str, pos: usize, completion_manager: &CompletionManager) -> (r: Option<String>)
    requires
        line@.len() == 0 || pos == 0 || is_boundary(line@, pos as int),
    ensures
        r is Some <==> hint_spec(
            completion_manager.commands_view(),
            completion_manager.list_view(),
            line@,
            pos as int,
        ) is Some,
        r matches Some(h) ==> Some(h@) == hint_spec(
            completion_manager.commands_view(),
            completion_manager.list_view(),
            line@,
            pos as int,
        ),
{
    if line.is_empty() || pos == 0 {
        return None;
    }
    let context = completion_manager.parse_input_for_completion(line, pos);
    match context {
        CompletionContext::CommandName(prefix) => {
            if prefix.as_str().is_empty() {
                return None;
            }
            let completions = completion_manager.get_command_completions(prefix.as_str());
            if completions.len() > 0 {
                Some(rest_of(&completions[0].0, &prefix))
            } else {
                None
            }
        },
        CompletionContext::CommandArg(cmd_name, arg_prefix) => {
            match completion_manager.get_command(cmd_name.as_str()) {
                Some(cmd) => {
                    let completions = cmd.get_arg_completions(arg_prefix.as_str());
                    if completions.len() > 0 {
                        Some(rest_of(&completions[0].0, &arg_prefix))
                    } else {
                        None
                    }
                },
                None => None,
            }
        },
        CompletionContext::Subcommand(cmd_name, subcmd_prefix) => {
            match completion_manager.get_command(cmd_name.as_str()) {
                Some(cmd) => {
                    let completions = cmd.get_subcommand_completions(subcmd_prefix.as_str());
                    if completions.len() > 0 {
                        Some(rest_of(&completions[0].0, &subcmd_prefix))
                    } else {
                        None
                    }
                },
                None => None,
            }
        },
        _ => None,
    }
}

} // verus!
