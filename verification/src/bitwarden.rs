//! The reading of what the secret manager prints: one `KEY="VALUE"` a line.
use crate::text::{chars_of, lines, lines_of, string_of_range};
use vstd::prelude::*;

verus! {

/// A character of the key of a secret: an ASCII capital, an ASCII digit or an underscore.
pub open spec fn is_key_char(c: char) -> bool {
    ('A' <= c && c <= 'Z') || ('0' <= c && c <= '9') || c == '_'
}

/// The number of key characters at the start of `line[i..]`, counted from the start of
/// the line: where the key that begins at `i` ends.
pub open spec fn key_end(line: Seq<char>, i: int) -> int
    decreases line.len() - i,
{
    if 0 <= i < line.len() && is_key_char(line[i]) {
        key_end(line, i + 1)
    } else {
        i
    }
}

/// The position of the last double quote before position `n`, or -1.
pub open spec fn last_quote(line: Seq<char>, n: int) -> int
    decreases n,
{
    if n <= 0 {
        -1
    } else if line[n - 1] == '"' {
        n - 1
    } else {
        last_quote(line, n - 1)
    }
}

/// The secret that a line without line feed holds: the line starts with a key of one or
/// more key characters, then `=` and a double quote follow, and the value is what stands
/// between that quote and the last double quote of the line, which is not empty.
pub open spec fn parsed_secret(line: Seq<char>) -> Option<(Seq<char>, Seq<char>)> {
    let k = key_end(line, 0);
    let q = last_quote(line, line.len() as int);
    if k >= 1 && k + 1 < line.len() && line[k] == '=' && line[k + 1] == '"' && q >= k + 3 {
        Some((line.take(k), line.subrange(k + 2, q)))
    } else {
        None
    }
}

/// The secrets that the lines hold, line by line.
pub open spec fn parsed_secrets(lines: Seq<Seq<char>>) -> Seq<(Seq<char>, Seq<char>)>
    decreases lines.len(),
{
    if lines.len() == 0 {
        Seq::empty()
    } else {
        let before = parsed_secrets(lines.drop_last());
        match parsed_secret(lines.last()) {
            Some(pair) => before.push(pair),
            None => before,
        }
    }
}

fn parse_secret_line(line: &Vec<char>) -> (r: Option<(String, String)>)
    ensures
        r.deep_view() == parsed_secret(line@),
{
    let len: usize = line.len();
    let mut k: usize = 0;
    while k < len && (('A' <= line[k] && line[k] <= 'Z') || ('0' <= line[k] && line[k] <= '9')
        || line[k] == '_')
        invariant
            k <= len,
            len == line.len(),
            key_end(line@, 0) == key_end(line@, k as int),
        decreases len - k,
    {
        k += 1;
    }
    let mut q: usize = len;
    while q > 0 && line[q - 1] != '"'
        invariant
            q <= len,
            len == line.len(),
            last_quote(line@, len as int) == last_quote(line@, q as int),
        decreases q,
    {
        q -= 1;
    }
    if k >= 1 && len - k >= 2 && line[k] == '=' && line[k + 1] == '"' && q > k && q - k >= 4 {
        assert(line@.take(k as int) =~= line@.subrange(0, k as int));
        Some((string_of_range(line, 0, k), string_of_range(line, k + 2, q - 1)))
    } else {
        None
    }
}

/// Reads the secrets out of what the secret manager printed: each line of the form
/// `KEY="VALUE"` gives one secret, and every other line is passed over.
pub fn get_env_variables(output: &str) -> (r: Vec<(String, String)>)
    ensures
        r.deep_view() == parsed_secrets(lines_of(output@)),
{
    let all = lines(output);
    let mut out: Vec<(String, String)> = Vec::new();
    let mut i: usize = 0;
    assert(all.deep_view().take(0) =~= Seq::empty());
    while i < all.len()
        invariant
            i <= all.len(),
            out.deep_view() == parsed_secrets(all.deep_view().take(i as int)),
        decreases all.len() - i,
    {
        let ghost texts = all.deep_view();
        assert(texts.take(i + 1).drop_last() =~= texts.take(i as int));
        assert(texts.take(i + 1).last() == all[i as int]@);
        let line = chars_of(all[i].as_str());
        match parse_secret_line(&line) {
            Some(pair) => {
                let ghost before = out.deep_view();
                let ghost added = pair.deep_view();
                out.push(pair);
                assert(out.deep_view() =~= before.push(added));
            },
            None => {},
        }
        i += 1;
    }
    assert(all.deep_view().take(all.len() as int) =~= all.deep_view());
    out
}

/// The arguments after the secret manager's program name that list all secrets in the
/// form that `get_env_variables` reads.
pub fn list_arguments(access_token: &str) -> (r: Vec<String>)
    ensures
        r.deep_view() == seq![
            "secret"@,
            "list"@,
            "--output"@,
            "env"@,
            "--access-token"@,
            access_token@,
        ],
{
    let mut out: Vec<String> = Vec::new();
    out.push("secret".to_owned());
    out.push("list".to_owned());
    out.push("--output".to_owned());
    out.push("env".to_owned());
    out.push("--access-token".to_owned());
    out.push(access_token.to_owned());
    assert(out.deep_view() =~= seq![
        "secret"@,
        "list"@,
        "--output"@,
        "env"@,
        "--access-token"@,
        access_token@,
    ]);
    out
}

} // verus!
