//! The user's command: which command line a name stands for.
use crate::config::Config;
use crate::pairs::{contains_key, find_value, has_key, value_of};
use vstd::prelude::*;
use vstd::string::StringExecFns;

verus! {

/// Whether the plan has a command of this name.
pub fn check(config: &Config, command: &String) -> (r: bool)
    ensures
        r == has_key(config.commands.deep_view(), command@),
{
    contains_key(&config.commands, command.as_str())
}

/// The command to run before the command of this name, if the plan has one.
pub fn pre_command(config: &Config, command_name: &str) -> (r: Option<String>)
    ensures
        match r {
            Some(c) => value_of(config.pre_commands.deep_view(), command_name@) == Some(c@),
            None => value_of(config.pre_commands.deep_view(), command_name@) is None,
        },
{
    find_value(&config.pre_commands, command_name)
}

/// The arguments as one text: each argument followed by a blank.
pub open spec fn joined_arguments(arguments: Seq<Seq<char>>) -> Seq<char>
    decreases arguments.len(),
{
    if arguments.len() == 0 {
        Seq::empty()
    } else {
        joined_arguments(arguments.drop_last()) + arguments.last() + " "@
    }
}

/// Joins the arguments that are handed on to the command.
pub fn join_arguments(arguments: &Vec<String>) -> (r: String)
    ensures
        r@ == joined_arguments(arguments.deep_view()),
{
    let mut out = String::new();
    let mut i: usize = 0;
    assert(out@ =~= joined_arguments(arguments.deep_view().take(0)));
    while i < arguments.len()
        invariant
            i <= arguments.len(),
            out@ == joined_arguments(arguments.deep_view().take(i as int)),
        decreases arguments.len() - i,
    {
        let ghost all = arguments.deep_view();
        assert(all.take(i + 1).drop_last() =~= all.take(i as int));
        assert(all.take(i + 1).last() == arguments[i as int]@);
        out.append(arguments[i].as_str());
        out.append(" ");
        i += 1;
    }
    assert(arguments.deep_view().take(arguments.len() as int) =~= arguments.deep_view());
    out
}

/// The command line of the command of this name: the command of the plan, a blank and
/// the arguments. A name that the plan does not have gives nothing.
pub fn command_line(config: &Config, command_name: &str, command_args: &str) -> (r: Option<String>)
    ensures
        match r {
            Some(line) => value_of(config.commands.deep_view(), command_name@) matches Some(c)
                && line@ == c + " "@ + command_args@,
            None => value_of(config.commands.deep_view(), command_name@) is None,
        },
{
    match find_value(&config.commands, command_name) {
        Some(command) => {
            let mut line = command;
            line.append(" ");
            line.append(command_args);
            Some(line)
        },
        None => None,
    }
}

} // verus!
