//! The values that services expose to the environment: literals with ports filled in,
//! and the parsed output of commands.
use crate::config::ExposedValueType;
use crate::machine_state::MachineState;
use crate::pairs::{find_value, value_of};
use crate::ports::{has_name, ports_filled_in, replace_ports_in_text};
use crate::text::{
    chars_of, split_chars, split_on, string_of, texts_of, trim, trim_range, trimmed, uppercase_of,
};
use vstd::prelude::*;

verus! {

/// The position of the first `c` in `s`, or the length of `s` where it holds none.
pub open spec fn first_index(s: Seq<char>, c: char) -> int
    decreases s.len(),
{
    if s.len() == 0 || s.first() == c {
        0
    } else {
        1 + first_index(s.drop_first(), c)
    }
}

proof fn lemma_first_index(s: Seq<char>, c: char, i: int)
    requires
        0 <= i <= s.len(),
        forall|j: int| 0 <= j < i ==> s[j] != c,
        i == s.len() || s[i] == c,
    ensures
        first_index(s, c) == i,
    decreases s.len(),
{
    if s.len() > 0 && i > 0 {
        let rest = s.drop_first();
        assert forall|j: int| 0 <= j < i - 1 implies rest[j] != c by {
            assert(rest[j] == s[j + 1]);
        }
        lemma_first_index(rest, c, i - 1);
    }
}

/// A value without the pair of double quotes around it, if it has one.
pub open spec fn unquoted(value: Seq<char>) -> Seq<char> {
    if value.len() >= 2 && value.first() == '"' && value.last() == '"' {
        value.subrange(1, value.len() - 1)
    } else {
        value
    }
}

/// What one line of output contributes: nothing for an empty line, a comment, a line
/// without `=` or an excluded key; else the key, renamed where the table says so, in
/// upper case, and the value without its quotes, both without surrounding white space.
pub open spec fn parsed_line(
    line: Seq<char>,
    exclude: Seq<Seq<char>>,
    rename: Seq<(Seq<char>, Seq<char>)>,
) -> Option<(Seq<char>, Seq<char>)> {
    let at = first_index(line, '=');
    if line.len() == 0 || line.first() == '#' || at >= line.len() {
        None
    } else {
        let key = line.take(at);
        let value = line.skip(at + 1);
        if exclude.contains(trimmed(key)) {
            None
        } else {
            let name = match value_of(rename, trimmed(key)) {
                Some(renamed) => renamed,
                None => key,
            };
            Some((uppercase_of(trimmed(name)), trimmed(unquoted(value))))
        }
    }
}

/// What the lines contribute, line by line.
pub open spec fn parsed_lines(
    lines: Seq<Seq<char>>,
    exclude: Seq<Seq<char>>,
    rename: Seq<(Seq<char>, Seq<char>)>,
) -> Seq<(Seq<char>, Seq<char>)>
    decreases lines.len(),
{
    if lines.len() == 0 {
        Seq::empty()
    } else {
        let before = parsed_lines(lines.drop_last(), exclude, rename);
        match parsed_line(lines.last(), exclude, rename) {
            Some(pair) => before.push(pair),
            None => before,
        }
    }
}

/// The variables that the output of a command holds.
pub open spec fn parsed_output(
    output: Seq<char>,
    exclude: Seq<Seq<char>>,
    rename: Seq<(Seq<char>, Seq<char>)>,
) -> Seq<(Seq<char>, Seq<char>)> {
    parsed_lines(split_on(output, '\n'), exclude, rename)
}

/// Parses one line of the output of a command.
pub fn parse_line(
    line: &Vec<char>,
    exclude: &Vec<String>,
    rename: &Vec<(String, String)>,
) -> (r: Option<(String, String)>)
    ensures
        r.deep_view() == parsed_line(line@, exclude.deep_view(), rename.deep_view()),
{
    if line.len() == 0 || line[0] == '#' {
        return None;
    }
    let mut at: usize = 0;
    while at < line.len() && line[at] != '='
        invariant
            at <= line.len(),
            forall|j: int| 0 <= j < at ==> line@[j] != '=',
        decreases line.len() - at,
    {
        at += 1;
    }
    proof {
        lemma_first_index(line@, '=', at as int);
    }
    if at == line.len() {
        return None;
    }
    assert(line@.take(at as int) =~= line@.subrange(0, at as int));
    let key = string_of(&trim_range(line, 0, at));
    if has_name(exclude, &key) {
        return None;
    }
    let name: String = match find_value(rename, key.as_str()) {
        Some(renamed) => trim(renamed.as_str()),
        None => key,
    };
    let len: usize = line.len();
    let ghost value = line@.skip(at + 1);
    assert(value =~= line@.subrange(at + 1, len as int));
    let text: String = if len - at >= 3 && line[at + 1] == '"' && line[len - 1] == '"' {
        assert(value.subrange(1, value.len() - 1) =~= line@.subrange(at + 2, len - 1));
        string_of(&trim_range(line, at + 2, len - 1))
    } else {
        string_of(&trim_range(line, at + 1, len))
    };
    Some((name.as_str().to_uppercase(), text))
}

/// Parses the output of a command: one `KEY=VALUE` or `KEY="VALUE"` a line. Empty lines,
/// lines that start with `#`, lines without `=` and keys in `exclude` are passed over;
/// a key in `rename` takes its new name; keys come out in upper case.
pub fn parse_command_output(
    output: &str,
    exclude: &Vec<String>,
    rename: &Vec<(String, String)>,
) -> (r: Vec<(String, String)>)
    ensures
        r.deep_view() == parsed_output(output@, exclude.deep_view(), rename.deep_view()),
{
    let text = chars_of(output);
    let lines = split_chars(&text, '\n');
    let mut out: Vec<(String, String)> = Vec::new();
    let mut i: usize = 0;
    assert(texts_of(lines@).take(0) =~= Seq::empty());
    while i < lines.len()
        invariant
            i <= lines.len(),
            out.deep_view() == parsed_lines(
                texts_of(lines@).take(i as int),
                exclude.deep_view(),
                rename.deep_view(),
            ),
        decreases lines.len() - i,
    {
        let ghost all = texts_of(lines@);
        assert(all.take(i + 1).drop_last() =~= all.take(i as int));
        assert(all.take(i + 1).last() == lines@[i as int]@);
        match parse_line(&lines[i], exclude, rename) {
            Some(pair) => {
                let ghost before = out.deep_view();
                let ghost added = pair.deep_view();
                out.push(pair);
                assert(out.deep_view() =~= before.push(added));
            },
            None => {},
        }
        i += 1;
    }
    assert(texts_of(lines@).take(lines.len() as int) =~= texts_of(lines@));
    out
}

/// The commands whose output is needed for a phase, in the order of the exposed values:
/// the phase is `true` before the service starts and `false` after.
pub open spec fn commands_for(values: Seq<ExposedValueType>, phase: bool) -> Seq<Seq<char>>
    decreases values.len(),
{
    if values.len() == 0 {
        Seq::empty()
    } else {
        let before = commands_for(values.drop_last(), phase);
        match values.last() {
            ExposedValueType::COMMAND(c) => if c.available_before_start == phase {
                before.push(c.command@)
            } else {
                before
            },
            ExposedValueType::LITERAL(_) => before,
        }
    }
}

/// The variables that the exposed values of a phase give, value by value: a literal
/// gives its name in upper case with the ports filled into its value; a command gives
/// what its output holds, where `outputs` lists the outputs of `commands_for`.
pub open spec fn exposed_variables(
    ports: Seq<(Seq<char>, i32)>,
    values: Seq<ExposedValueType>,
    phase: bool,
    outputs: Seq<Seq<char>>,
) -> Seq<(Seq<char>, Seq<char>)>
    decreases values.len(),
{
    if values.len() == 0 {
        Seq::empty()
    } else {
        let before = exposed_variables(ports, values.drop_last(), phase, outputs);
        match values.last() {
            ExposedValueType::LITERAL(l) => if l.available_before_start == phase {
                before.push((uppercase_of(trimmed(l.name@)), ports_filled_in(ports, l.value@)))
            } else {
                before
            },
            ExposedValueType::COMMAND(c) => if c.available_before_start == phase {
                before + parsed_output(
                    outputs[commands_for(values.drop_last(), phase).len() as int],
                    c.exclude.deep_view(),
                    c.rename.deep_view(),
                )
            } else {
                before
            },
        }
    }
}

/// The commands to run for a phase, in order. Their outputs, in the same order, are what
/// `get_exposed_variables` takes.
pub fn exposed_commands(
    exposed_values: &Vec<ExposedValueType>,
    available_before_start: bool,
) -> (r: Vec<String>)
    ensures
        r.deep_view() == commands_for(exposed_values@, available_before_start),
{
    let mut out: Vec<String> = Vec::new();
    let mut i: usize = 0;
    assert(out.deep_view() =~= commands_for(exposed_values@.take(0), available_before_start));
    while i < exposed_values.len()
        invariant
            i <= exposed_values.len(),
            out.deep_view() == commands_for(
                exposed_values@.take(i as int),
                available_before_start,
            ),
        decreases exposed_values.len() - i,
    {
        assert(exposed_values@.take(i + 1).drop_last() =~= exposed_values@.take(i as int));
        match &exposed_values[i] {
            ExposedValueType::COMMAND(c) => {
                if c.available_before_start == available_before_start {
                    let ghost before = out.deep_view();
                    out.push(c.command.clone());
                    assert(out.deep_view() =~= before.push(c.command@));
                }
            },
            ExposedValueType::LITERAL(_) => {},
        }
        i += 1;
    }
    assert(exposed_values@.take(exposed_values.len() as int) =~= exposed_values@);
    out
}

/// The variables that the exposed values of one phase give. `command_outputs` holds the
/// output of each command of `exposed_commands`, in that order; with another number of
/// outputs nothing is computed.
pub fn get_exposed_variables(
    machine_state: &MachineState,
    exposed_values: &Vec<ExposedValueType>,
    available_before_start: bool,
    command_outputs: &Vec<String>,
) -> (r: Option<Vec<(String, String)>>)
    ensures
        r is Some <==> command_outputs.len() == commands_for(
            exposed_values@,
            available_before_start,
        ).len(),
        r matches Some(vars) ==> vars.deep_view() == exposed_variables(
            machine_state.ports.deep_view(),
            exposed_values@,
            available_before_start,
            command_outputs.deep_view(),
        ),
{
    let ghost ports = machine_state.ports.deep_view();
    let ghost outputs = command_outputs.deep_view();
    let mut out: Vec<(String, String)> = Vec::new();
    let mut used: usize = 0;
    let mut i: usize = 0;
    assert(exposed_values@.take(0) =~= Seq::empty());
    while i < exposed_values.len()
        invariant
            i <= exposed_values.len(),
            ports == machine_state.ports.deep_view(),
            outputs == command_outputs.deep_view(),
            used == commands_for(exposed_values@.take(i as int), available_before_start).len(),
            used <= command_outputs.len(),
            out.deep_view() == exposed_variables(
                ports,
                exposed_values@.take(i as int),
                available_before_start,
                outputs,
            ),
        decreases exposed_values.len() - i,
    {
        assert(exposed_values@.take(i + 1).drop_last() =~= exposed_values@.take(i as int));
        match &exposed_values[i] {
            ExposedValueType::LITERAL(l) => {
                if l.available_before_start == available_before_start {
                    let key = trim(l.name.as_str()).as_str().to_uppercase();
                    let value = replace_ports_in_text(machine_state, l.value.as_str());
                    let ghost before = out.deep_view();
                    out.push((key, value));
                    assert(out.deep_view() =~= before.push(
                        (uppercase_of(trimmed(l.name@)), ports_filled_in(ports, l.value@)),
                    ));
                }
            },
            ExposedValueType::COMMAND(c) => {
                if c.available_before_start == available_before_start {
                    if used >= command_outputs.len() {
                        proof {
                            lemma_commands_grow(
                                exposed_values@,
                                available_before_start,
                                i + 1,
                            );
                        }
                        return None;
                    }
                    let mut found = parse_command_output(
                        command_outputs[used].as_str(),
                        &c.exclude,
                        &c.rename,
                    );
                    let ghost before = out.deep_view();
                    let ghost added = found.deep_view();
                    out.append(&mut found);
                    assert(out.deep_view() =~= before + added);
                    used += 1;
                }
            },
        }
        i += 1;
    }
    assert(exposed_values@.take(exposed_values.len() as int) =~= exposed_values@);
    if used == command_outputs.len() {
        Some(out)
    } else {
        None
    }
}

/// A longer list of exposed values has no fewer commands.
proof fn lemma_commands_grow(values: Seq<ExposedValueType>, phase: bool, n: int)
    requires
        0 <= n <= values.len(),
    ensures
        commands_for(values.take(n), phase).len() <= commands_for(values, phase).len(),
    decreases values.len() - n,
{
    if n < values.len() {
        lemma_commands_grow(values, phase, n + 1);
        assert(values.take(n + 1).drop_last() =~= values.take(n));
    } else {
        assert(values.take(n) =~= values);
    }
}

} // verus!
