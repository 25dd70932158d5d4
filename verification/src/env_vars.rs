//! The environment as an explicit table, and how computed variables are merged into it.
//!
//! A computed variable is a triple of key, value and the name of where it comes from.
//! A variable is set only where the environment has no value for its key yet.
use crate::pairs::{
    contains_key, find_value, has_key, lemma_value_of_has_key, lemma_value_of_prefix,
    lemma_value_of_push, value_of,
};
use crate::pattern::{group_texts, regex_groups, regex_pieces, split_text};
use crate::table::{
    column_widths, frame, framed, in_key_order, keys_of, lemma_sorted_order, sort_cells,
    sorted_order, values_of, widest,
};
use crate::text::chars_of;
use vstd::prelude::*;
use vstd::string::StringExecFns;

verus! {

/// The environment after the variables were set one after the other, each only where
/// its key had no value yet.
pub open spec fn merged(
    env: Seq<(Seq<char>, Seq<char>)>,
    env_vars: Seq<(Seq<char>, Seq<char>, Seq<char>)>,
) -> Seq<(Seq<char>, Seq<char>)>
    decreases env_vars.len(),
{
    if env_vars.len() == 0 {
        env
    } else {
        let before = merged(env, env_vars.drop_last());
        let var = env_vars.last();
        if has_key(before, var.0) {
            before
        } else {
            before.push((var.0, var.1))
        }
    }
}

/// Sets each variable whose key has no value in the environment yet, in the order of
/// `env_vars`; a key that has a value keeps it.
pub fn set(env: &mut Vec<(String, String)>, env_vars: &Vec<(String, String, String)>)
    ensures
        final(env).deep_view() == merged(old(env).deep_view(), env_vars.deep_view()),
{
    let mut i: usize = 0;
    assert(env_vars.deep_view().take(0) =~= Seq::empty());
    while i < env_vars.len()
        invariant
            i <= env_vars.len(),
            env.deep_view() == merged(old(env).deep_view(), env_vars.deep_view().take(i as int)),
        decreases env_vars.len() - i,
    {
        let ghost vars = env_vars.deep_view();
        assert(vars.take(i + 1).drop_last() =~= vars.take(i as int));
        assert(vars.take(i + 1).last() == vars[i as int]);
        if !contains_key(env, env_vars[i].0.as_str()) {
            let ghost before = env.deep_view();
            env.push((env_vars[i].0.clone(), env_vars[i].1.clone()));
            assert(env.deep_view() =~= before.push((vars[i as int].0, vars[i as int].1)));
        }
        i += 1;
    }
    assert(env_vars.deep_view().take(env_vars.len() as int) =~= env_vars.deep_view());
}

/// Merging only adds to the environment: what was there stays in front, unchanged.
pub proof fn lemma_merged_extends(
    env: Seq<(Seq<char>, Seq<char>)>,
    env_vars: Seq<(Seq<char>, Seq<char>, Seq<char>)>,
)
    ensures
        env.len() <= merged(env, env_vars).len(),
        merged(env, env_vars).take(env.len() as int) == env,
    decreases env_vars.len(),
{
    if env_vars.len() > 0 {
        lemma_merged_extends(env, env_vars.drop_last());
        let before = merged(env, env_vars.drop_last());
        assert(before.push((env_vars.last().0, env_vars.last().1)).take(env.len() as int)
            =~= before.take(env.len() as int));
    } else {
        assert(env.take(env.len() as int) =~= env);
    }
}

/// A key that had a value before the merge has the same value after it, whatever
/// the computed variables say.
pub proof fn lemma_merge_never_overwrites(
    env: Seq<(Seq<char>, Seq<char>)>,
    env_vars: Seq<(Seq<char>, Seq<char>, Seq<char>)>,
    key: Seq<char>,
)
    requires
        has_key(env, key),
    ensures
        value_of(merged(env, env_vars), key) == value_of(env, key),
{
    lemma_merged_extends(env, env_vars);
    let all = merged(env, env_vars);
    let more = all.skip(env.len() as int);
    assert(all =~= all.take(env.len() as int) + more);
    lemma_value_of_prefix(env, more, key);
}

/// Merging the same variables a second time changes nothing.
pub proof fn lemma_merge_idempotent(
    env: Seq<(Seq<char>, Seq<char>)>,
    env_vars: Seq<(Seq<char>, Seq<char>, Seq<char>)>,
)
    ensures
        merged(merged(env, env_vars), env_vars) == merged(env, env_vars),
{
    lemma_merged_all_set(env, env_vars);
    lemma_merged_nothing_new(merged(env, env_vars), env_vars);
}

/// After a merge every variable's key has a value.
proof fn lemma_merged_all_set(
    env: Seq<(Seq<char>, Seq<char>)>,
    env_vars: Seq<(Seq<char>, Seq<char>, Seq<char>)>,
)
    ensures
        forall|i: int|
            0 <= i < env_vars.len() ==> has_key(
                merged(env, env_vars),
                (#[trigger] env_vars[i]).0,
            ),
    decreases env_vars.len(),
{
    if env_vars.len() > 0 {
        let shorter = env_vars.drop_last();
        let before = merged(env, shorter);
        let all = merged(env, env_vars);
        lemma_merged_all_set(env, shorter);
        assert forall|i: int| 0 <= i < env_vars.len() implies has_key(
            all,
            (#[trigger] env_vars[i]).0,
        ) by {
            if i < shorter.len() {
                assert(shorter[i] == env_vars[i]);
                assert(has_key(before, shorter[i].0));
                let k = choose|k: int|
                    0 <= k < before.len() && #[trigger] before[k].0 == env_vars[i].0;
                assert(all[k].0 == env_vars[i].0);
            } else {
                if has_key(before, env_vars.last().0) {
                } else {
                    assert(all[all.len() - 1].0 == env_vars[i].0);
                }
            }
        }
    }
}

/// Variables whose keys all have a value change nothing.
proof fn lemma_merged_nothing_new(
    env: Seq<(Seq<char>, Seq<char>)>,
    env_vars: Seq<(Seq<char>, Seq<char>, Seq<char>)>,
)
    requires
        forall|i: int| 0 <= i < env_vars.len() ==> has_key(env, (#[trigger] env_vars[i]).0),
    ensures
        merged(env, env_vars) == env,
    decreases env_vars.len(),
{
    if env_vars.len() > 0 {
        let shorter = env_vars.drop_last();
        assert forall|i: int| 0 <= i < shorter.len() implies has_key(
            env,
            (#[trigger] shorter[i]).0,
        ) by {
            assert(shorter[i] == env_vars[i]);
        }
        lemma_merged_nothing_new(env, shorter);
        assert(has_key(env, env_vars[env_vars.len() - 1].0));
    }
}

/// The value of the first of the variables that has the key.
pub open spec fn first_value(
    env_vars: Seq<(Seq<char>, Seq<char>, Seq<char>)>,
    key: Seq<char>,
) -> Option<Seq<char>>
    decreases env_vars.len(),
{
    if env_vars.len() == 0 {
        None
    } else {
        match first_value(env_vars.drop_last(), key) {
            Some(v) => Some(v),
            None => if env_vars.last().0 == key {
                Some(env_vars.last().1)
            } else {
                None
            },
        }
    }
}

/// After a merge a key has the value that it had before, or else the value of the first
/// variable with that key.
pub proof fn lemma_merged_value(
    env: Seq<(Seq<char>, Seq<char>)>,
    env_vars: Seq<(Seq<char>, Seq<char>, Seq<char>)>,
    key: Seq<char>,
)
    ensures
        value_of(merged(env, env_vars), key) == match value_of(env, key) {
            Some(v) => Some(v),
            None => first_value(env_vars, key),
        },
    decreases env_vars.len(),
{
    if env_vars.len() > 0 {
        let shorter = env_vars.drop_last();
        let before = merged(env, shorter);
        let var = env_vars.last();
        lemma_merged_value(env, shorter, key);
        if has_key(before, var.0) {
            lemma_value_of_has_key(before, var.0);
        } else {
            lemma_value_of_push(before, (var.0, var.1), key);
            lemma_value_of_has_key(before, key);
        }
    }
}

/// A key with a first value is the key of one of the variables.
pub proof fn lemma_first_value_is_of_a_variable(
    env_vars: Seq<(Seq<char>, Seq<char>, Seq<char>)>,
    key: Seq<char>,
)
    requires
        first_value(env_vars, key) is Some,
    ensures
        exists|i: int| 0 <= i < env_vars.len() && (#[trigger] env_vars[i]).0 == key,
    decreases env_vars.len(),
{
    if first_value(env_vars.drop_last(), key) is Some {
        lemma_first_value_is_of_a_variable(env_vars.drop_last(), key);
        let i = choose|i: int|
            0 <= i < env_vars.drop_last().len() && (#[trigger] env_vars.drop_last()[i]).0 == key;
        assert(env_vars[i].0 == key);
    } else {
        assert(env_vars[env_vars.len() - 1].0 == key);
    }
}

/// Two lists of variables that share no key can be merged in either order: every key
/// ends up with the same value.
pub proof fn lemma_merge_order_free(
    env: Seq<(Seq<char>, Seq<char>)>,
    first: Seq<(Seq<char>, Seq<char>, Seq<char>)>,
    second: Seq<(Seq<char>, Seq<char>, Seq<char>)>,
    key: Seq<char>,
)
    requires
        forall|i: int, j: int|
            0 <= i < first.len() && 0 <= j < second.len() ==> (#[trigger] first[i]).0 != (
            #[trigger] second[j]).0,
    ensures
        value_of(merged(merged(env, first), second), key) == value_of(
            merged(merged(env, second), first),
            key,
        ),
{
    lemma_merged_value(env, first, key);
    lemma_merged_value(env, second, key);
    lemma_merged_value(merged(env, first), second, key);
    lemma_merged_value(merged(env, second), first, key);
    if first_value(first, key) is Some && first_value(second, key) is Some {
        lemma_first_value_is_of_a_variable(first, key);
        lemma_first_value_is_of_a_variable(second, key);
        let i = choose|i: int| 0 <= i < first.len() && (#[trigger] first[i]).0 == key;
        let j = choose|j: int| 0 <= j < second.len() && (#[trigger] second[j]).0 == key;
        assert(first[i].0 != second[j].0);
    }
}

/// The value of the variable `name`, if the environment has one.
pub fn get(env: &Vec<(String, String)>, name: &str) -> (r: Option<String>)
    ensures
        match r {
            Some(v) => value_of(env.deep_view(), name@) == Some(v@),
            None => value_of(env.deep_view(), name@) is None,
        },
{
    find_value(env, name)
}

/// The value of `name` in the environment or else among the secrets.
pub open spec fn value_from_all(
    env: Seq<(Seq<char>, Seq<char>)>,
    secrets: Seq<(Seq<char>, Seq<char>)>,
    name: Seq<char>,
) -> Option<Seq<char>> {
    match value_of(env, name) {
        Some(v) => Some(v),
        None => value_of(secrets, name),
    }
}

/// The value of `name` before the secrets have been merged into the environment: the
/// environment is asked first, then the secrets.
pub fn get_from_all(
    env: &Vec<(String, String)>,
    secrets: &Vec<(String, String)>,
    name: &str,
) -> (r: Option<String>)
    ensures
        match r {
            Some(v) => value_from_all(env.deep_view(), secrets.deep_view(), name@) == Some(v@),
            None => value_from_all(env.deep_view(), secrets.deep_view(), name@) is None,
        },
{
    match find_value(env, name) {
        Some(v) => Some(v),
        None => find_value(secrets, name),
    }
}

/// Whether `name` has a value in the environment or among the secrets.
pub fn make_sure_exists(
    env: &Vec<(String, String)>,
    secrets: &Vec<(String, String)>,
    name: &str,
) -> (r: bool)
    ensures
        r == (has_key(env.deep_view(), name@) || has_key(secrets.deep_view(), name@)),
{
    contains_key(env, name) || contains_key(secrets, name)
}

/// The source that is shown for a variable: `local` where the environment had a value
/// for the key before anything was computed, else the variable's own source.
pub open spec fn shown_source(
    original_env: Seq<(Seq<char>, Seq<char>)>,
    var: (Seq<char>, Seq<char>, Seq<char>),
) -> Seq<char> {
    if has_key(original_env, var.0) {
        "local"@
    } else {
        var.2
    }
}

/// Each variable's key with the source that is shown for it.
pub open spec fn variable_cells(
    original_env: Seq<(Seq<char>, Seq<char>)>,
    env_vars: Seq<(Seq<char>, Seq<char>, Seq<char>)>,
) -> Seq<(Seq<char>, Seq<char>)> {
    Seq::new(env_vars.len(), |i: int| (env_vars[i].0, shown_source(original_env, env_vars[i])))
}

/// Each variable's key with its own source.
pub open spec fn source_cells(env_vars: Seq<(Seq<char>, Seq<char>, Seq<char>)>) -> Seq<
    (Seq<char>, Seq<char>),
> {
    Seq::new(env_vars.len(), |i: int| (env_vars[i].0, env_vars[i].2))
}

/// The table that is shown: one row for each variable, key and shown source, in the
/// order of the keys.
pub open spec fn displayed(
    original_env: Seq<(Seq<char>, Seq<char>)>,
    env_vars: Seq<(Seq<char>, Seq<char>, Seq<char>)>,
) -> Seq<(Seq<char>, Seq<char>)> {
    in_key_order(variable_cells(original_env, env_vars))
}

/// The rows of the table of variables: for each variable its key and the source that is
/// shown for it, sorted by key.
pub fn displayed_rows(
    original_env: &Vec<(String, String)>,
    env_vars: &Vec<(String, String, String)>,
) -> (r: Vec<(String, String)>)
    ensures
        r.deep_view() == displayed(original_env.deep_view(), env_vars.deep_view()),
{
    let ghost all = variable_cells(original_env.deep_view(), env_vars.deep_view());
    let mut cells: Vec<(String, String)> = Vec::new();
    let mut i: usize = 0;
    while i < env_vars.len()
        invariant
            i <= env_vars.len(),
            all == variable_cells(original_env.deep_view(), env_vars.deep_view()),
            cells.deep_view() == all.take(i as int),
        decreases env_vars.len() - i,
    {
        let ghost before = cells.deep_view();
        let source: String = if contains_key(original_env, env_vars[i].0.as_str()) {
            "local".to_owned()
        } else {
            env_vars[i].2.clone()
        };
        cells.push((env_vars[i].0.clone(), source));
        assert(cells.deep_view() =~= before.push(all[i as int]));
        assert(all.take(i + 1) =~= all.take(i as int).push(all[i as int]));
        i += 1;
    }
    assert(all.take(env_vars.len() as int) =~= all);
    sort_cells(&cells)
}

/// A variable whose key had a value before anything was computed is shown with the
/// source `local`, whatever its own source is.
pub proof fn lemma_local_is_shown(
    original_env: Seq<(Seq<char>, Seq<char>)>,
    env_vars: Seq<(Seq<char>, Seq<char>, Seq<char>)>,
    i: int,
)
    requires
        env_vars.len() <= usize::MAX,
        0 <= i < displayed(original_env, env_vars).len(),
        has_key(original_env, displayed(original_env, env_vars)[i].0),
    ensures
        displayed(original_env, env_vars)[i].1 == "local"@,
{
    let cells = variable_cells(original_env, env_vars);
    let order = sorted_order(keys_of(cells), cells.len() as int);
    lemma_sorted_order(keys_of(cells), cells.len() as int);
    assert(order.contains(order[i]));
}

/// The lines of the table of variables: nothing where there is no variable; else a
/// framed table of keys and shown sources, in the order of the keys, each column as wide
/// as the longest key and the longest own source are in bytes.
pub open spec fn variables_lines(
    original_env: Seq<(Seq<char>, Seq<char>)>,
    env_vars: Seq<(Seq<char>, Seq<char>, Seq<char>)>,
) -> Seq<Seq<char>> {
    if env_vars.len() == 0 {
        Seq::empty()
    } else {
        framed(
            ("Key"@, "Source"@),
            displayed(original_env, env_vars),
            widest(keys_of(source_cells(env_vars))) as int,
            widest(values_of(source_cells(env_vars))) as int,
        )
    }
}

/// Draws the table of the variables and where each comes from.
pub fn variables_box(
    original_env: &Vec<(String, String)>,
    env_vars: &Vec<(String, String, String)>,
) -> (r: Vec<String>)
    ensures
        r.deep_view() == variables_lines(original_env.deep_view(), env_vars.deep_view()),
{
    if env_vars.len() == 0 {
        let none: Vec<String> = Vec::new();
        assert(none.deep_view() =~= Seq::empty());
        return none;
    }
    let ghost all = source_cells(env_vars.deep_view());
    let mut cells: Vec<(String, String)> = Vec::new();
    let mut i: usize = 0;
    while i < env_vars.len()
        invariant
            i <= env_vars.len(),
            all == source_cells(env_vars.deep_view()),
            cells.deep_view() == all.take(i as int),
        decreases env_vars.len() - i,
    {
        let ghost before = cells.deep_view();
        cells.push((env_vars[i].0.clone(), env_vars[i].2.clone()));
        assert(cells.deep_view() =~= before.push(all[i as int]));
        assert(all.take(i + 1) =~= all.take(i as int).push(all[i as int]));
        i += 1;
    }
    assert(all.take(env_vars.len() as int) =~= all);
    let (first, second) = column_widths(&cells);
    let rows = displayed_rows(original_env, env_vars);
    frame(("Key", "Source"), &rows, first, second)
}

/// Merges the computed variables into the environment and gives the rows of the table
/// that is shown for them. A key that had a value keeps it and is shown as `local`;
/// every other variable is set, the first of its key winning, and shown with its source.
pub fn merge_and_emit(
    env: &mut Vec<(String, String)>,
    env_vars: &Vec<(String, String, String)>,
) -> (r: Vec<(String, String)>)
    ensures
        final(env).deep_view() == merged(old(env).deep_view(), env_vars.deep_view()),
        r.deep_view() == displayed(old(env).deep_view(), env_vars.deep_view()),
{
    let rows = displayed_rows(env, env_vars);
    set(env, env_vars);
    rows
}

/// A character of a variable name: an ASCII letter, an ASCII digit or an underscore.
pub open spec fn is_name_char(c: char) -> bool {
    ('a' <= c && c <= 'z') || ('A' <= c && c <= 'Z') || ('0' <= c && c <= '9') || c == '_'
}

/// A variable name: one or more name characters and nothing else.
pub open spec fn is_variable_name(name: Seq<char>) -> bool {
    name.len() > 0 && forall|i: int| 0 <= i < name.len() ==> is_name_char(#[trigger] name[i])
}

/// Tests whether `name` can be the name of a variable.
pub fn verify_name(name: &str) -> (r: bool)
    ensures
        r == is_variable_name(name@),
{
    let chars = chars_of(name);
    if chars.len() == 0 {
        return false;
    }
    let mut i: usize = 0;
    while i < chars.len()
        invariant
            i <= chars.len(),
            chars@ == name@,
            forall|j: int| 0 <= j < i ==> is_name_char(#[trigger] chars@[j]),
        decreases chars.len() - i,
    {
        let c: char = chars[i];
        if !(('a' <= c && c <= 'z') || ('A' <= c && c <= 'Z') || ('0' <= c && c <= '9') || c
            == '_') {
            assert(!is_name_char(name@[i as int]));
            return false;
        }
        i += 1;
    }
    true
}

/// Why the variables of a text could not be replaced.
#[derive(Debug, PartialEq, Clone)]
pub enum ReplaceError {
    /// The search for variables gave nothing that fits together.
    Search,
    /// The variable of this name has no value.
    Missing(String),
}

/// A replace error over plain texts.
pub enum ReplaceFault {
    Search,
    Missing(Seq<char>),
}

impl View for ReplaceError {
    type V = ReplaceFault;

    open spec fn view(&self) -> ReplaceFault {
        match self {
            ReplaceError::Search => ReplaceFault::Search,
            ReplaceError::Missing(name) => ReplaceFault::Missing(name@),
        }
    }
}

/// The regular expression that finds `$NAME` and `${NAME}`; its first group is the name.
pub open spec fn variable_pattern() -> Seq<char> {
    r"\$\{?(\w+)\}?"@
}

/// The text made of the first piece and then, for each of the first `n` names, the
/// value of the name and the next piece; or the first name, in order, that is unknown
/// or has no value.
pub open spec fn filled_in(
    env: Seq<(Seq<char>, Seq<char>)>,
    pieces: Seq<Seq<char>>,
    names: Seq<Option<Seq<char>>>,
    n: int,
) -> Result<Seq<char>, ReplaceFault>
    decreases n,
{
    if n <= 0 {
        Ok(pieces[0])
    } else {
        match filled_in(env, pieces, names, n - 1) {
            Err(fault) => Err(fault),
            Ok(before) => match names[n - 1] {
                None => Err(ReplaceFault::Search),
                Some(name) => match value_of(env, name) {
                    None => Err(ReplaceFault::Missing(name)),
                    Some(value) => Ok(before + value + pieces[n]),
                },
            },
        }
    }
}

/// The text with its variables replaced, from the pieces between the variables and
/// the names of the variables as a search found them: there must be one piece more than
/// there are names.
pub open spec fn variables_replaced(
    env: Seq<(Seq<char>, Seq<char>)>,
    pieces: Option<Seq<Seq<char>>>,
    names: Option<Seq<Option<Seq<char>>>>,
) -> Result<Seq<char>, ReplaceFault> {
    match (pieces, names) {
        (Some(pieces), Some(names)) => if pieces.len() == names.len() + 1 {
            filled_in(env, pieces, names, names.len() as int)
        } else {
            Err(ReplaceFault::Search)
        },
        _ => Err(ReplaceFault::Search),
    }
}

/// Puts a text together again from the pieces between its variables and the values of
/// the variables.
pub fn replace_found_vars(
    env: &Vec<(String, String)>,
    found_pieces: Option<Vec<String>>,
    found_names: Option<Vec<Option<String>>>,
) -> (r: Result<String, ReplaceError>)
    ensures
        match r {
            Ok(text) => variables_replaced(
                env.deep_view(),
                found_pieces.deep_view(),
                found_names.deep_view(),
            ) == Ok::<Seq<char>, ReplaceFault>(text@),
            Err(e) => variables_replaced(
                env.deep_view(),
                found_pieces.deep_view(),
                found_names.deep_view(),
            ) == Err::<Seq<char>, ReplaceFault>(e@),
        },
{
    let (pieces, names) = match (&found_pieces, &found_names) {
        (Some(p), Some(n)) => (p, n),
        _ => { return Err(ReplaceError::Search); },
    };
    if names.len() == usize::MAX || pieces.len() != names.len() + 1 {
        return Err(ReplaceError::Search);
    }
    let mut out: String = pieces[0].clone();
    let mut i: usize = 0;
    while i < names.len()
        invariant
            i <= names.len(),
            pieces.len() == names.len() + 1,
            found_pieces == Some(*pieces),
            found_names == Some(*names),
            filled_in(env.deep_view(), pieces.deep_view(), names.deep_view(), i as int) == Ok::<
                Seq<char>,
                ReplaceFault,
            >(out@),
        decreases names.len() - i,
    {
        let value: String = match &names[i] {
            None => {
                proof {
                    lemma_fault_stays(
                        env.deep_view(),
                        pieces.deep_view(),
                        names.deep_view(),
                        i + 1,
                        names.len() as int,
                    );
                }
                return Err(ReplaceError::Search);
            },
            Some(name) => match find_value(env, name.as_str()) {
                None => {
                    proof {
                        lemma_fault_stays(
                            env.deep_view(),
                            pieces.deep_view(),
                            names.deep_view(),
                            i + 1,
                            names.len() as int,
                        );
                    }
                    return Err(ReplaceError::Missing(name.clone()));
                },
                Some(value) => value,
            },
        };
        out.append(value.as_str());
        out.append(pieces[i + 1].as_str());
        i += 1;
    }
    Ok(out)
}

proof fn lemma_fault_stays(
    env: Seq<(Seq<char>, Seq<char>)>,
    pieces: Seq<Seq<char>>,
    names: Seq<Option<Seq<char>>>,
    n: int,
    m: int,
)
    requires
        0 <= n <= m,
        filled_in(env, pieces, names, n) is Err,
    ensures
        filled_in(env, pieces, names, m) == filled_in(env, pieces, names, n),
    decreases m - n,
{
    if n < m {
        lemma_fault_stays(env, pieces, names, n, m - 1);
    }
}

/// Replaces every `$NAME` and `${NAME}` in the text by the value that the environment
/// has for `NAME`. The first name without a value is reported instead.
pub fn replace_env_vars(
    env: &Vec<(String, String)>,
    text: &str,
) -> (r: Result<String, ReplaceError>)
    ensures
        match r {
            Ok(replaced) => variables_replaced(
                env.deep_view(),
                regex_pieces(variable_pattern(), text@),
                regex_groups(variable_pattern(), 1, text@),
            ) == Ok::<Seq<char>, ReplaceFault>(replaced@),
            Err(e) => variables_replaced(
                env.deep_view(),
                regex_pieces(variable_pattern(), text@),
                regex_groups(variable_pattern(), 1, text@),
            ) == Err::<Seq<char>, ReplaceFault>(e@),
        },
{
    let pieces = split_text(r"\$\{?(\w+)\}?", text);
    let names = group_texts(r"\$\{?(\w+)\}?", 1, text);
    replace_found_vars(env, pieces, names)
}

} // verus!
