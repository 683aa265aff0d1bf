//! Decisions behind the command line: reading `KEY=value` arguments and
//! choosing completions for a template's arguments.

use vstd::prelude::*;
use vstd::string::*;
use crate::prompt::strings_view;
use crate::text::{chars_of, find, find_from, substring};

verus! {

/// `=`
pub open spec fn equals_sign() -> Seq<char> {
    seq!['=']
}

/// The index of the first `=` in `s`, if there is one.
pub open spec fn first_equals(s: Seq<char>) -> Option<int> {
    find_from(s, equals_sign(), 0)
}

/// The text before the first `=` of `s`.
pub open spec fn key_of(s: Seq<char>) -> Seq<char> {
    s.subrange(0, first_equals(s)->0)
}

/// The text after the first `=` of `s`.
pub open spec fn value_of(s: Seq<char>) -> Seq<char> {
    s.subrange(first_equals(s)->0 + 1, s.len() as int)
}

fn equals_chars() -> (r: Vec<char>)
    ensures
        r@ == equals_sign(),
{
    let r = vec!['='];
    assert(r@ =~= equals_sign());
    r
}

/// The index of the first `=` of `s`.
fn equals_index(s: &str) -> (r: Option<usize>)
    ensures
        match r {
            Some(j) => first_equals(s@) == Some(j as int) && j < s@.len(),
            None => first_equals(s@) is None,
        },
{
    let cs = chars_of(s);
    find(&cs, &equals_chars(), 0)
}

/// Splits `KEY=value` at its first `=`.
pub fn parse_key_val(s: &str) -> (r: Result<(String, String), String>)
    ensures
        match r {
            Ok((k, v)) => first_equals(s@) is Some && k@ == key_of(s@) && v@ == value_of(s@),
            Err(m) => first_equals(s@) is None && m@ == "invalid KEY=value: no `=` found in `"@
                + s@ + "`"@,
        },
{
    match equals_index(s) {
        Some(j) => {
            let len = s.unicode_len();
            Ok((substring(s, 0, j), substring(s, j + 1, len)))
        },
        None => {
            let mut m = String::from_str("invalid KEY=value: no `=` found in `");
            m.append(s);
            m.append("`");
            Err(m)
        },
    }
}

/// Whether `a` is an option that names a prompt.
pub open spec fn is_name_option(a: Seq<char>) -> bool {
    a == "-n"@ || a == "--name"@
}

/// The value given to the first `-n` or `--name` option at or after index
/// `i` of a command line that has a value after it.
pub open spec fn named_prompt_from(args: Seq<Seq<char>>, i: int) -> Option<Seq<char>>
    decreases args.len() - i,
{
    if i < 0 || i + 1 >= args.len() {
        None
    } else if is_name_option(args[i]) {
        Some(args[i + 1])
    } else {
        named_prompt_from(args, i + 1)
    }
}

/// The prompt that a command line names with `-n NAME` or `--name NAME`:
/// the value after the first such option that has one.
pub fn named_prompt(args: &Vec<String>) -> (r: Option<String>)
    ensures
        match r {
            Some(n) => named_prompt_from(strings_view(args@), 0) == Some(n@),
            None => named_prompt_from(strings_view(args@), 0) is None,
        },
{
    let short = String::from_str("-n");
    let long = String::from_str("--name");
    let mut i: usize = 0;
    while i < args.len() && i + 1 < args.len()
        invariant
            i <= args.len(),
            short@ == "-n"@,
            long@ == "--name"@,
            named_prompt_from(strings_view(args@), 0) == named_prompt_from(
                strings_view(args@),
                i as int,
            ),
        decreases args.len() - i,
    {
        if args[i] == short || args[i] == long {
            return Some(args[i + 1].clone());
        }
        i += 1;
    }
    None
}

/// Whether some `KEY=value` of the command line gives `key`.
pub open spec fn key_given(command_line: Seq<Seq<char>>, key: Seq<char>) -> bool {
    exists|i: int|
        0 <= i < command_line.len() && first_equals(command_line[i]) is Some && #[trigger] key_of(
            command_line[i],
        ) == key
}

/// `name=` for each of the first `n` names that the command line does not
/// give yet, in order.
pub open spec fn open_keys(
    names: Seq<Seq<char>>,
    n: int,
    command_line: Seq<Seq<char>>,
) -> Seq<Seq<char>>
    decreases n,
{
    if n <= 0 {
        Seq::empty()
    } else {
        let rest = open_keys(names, n - 1, command_line);
        if key_given(command_line, names[n - 1]) {
            rest
        } else {
            rest.push(names[n - 1] + equals_sign())
        }
    }
}

/// The completions offered for the word `current` of a command line, where
/// `names` are the arguments of the template being rendered: while no `=`
/// has been typed, `name=` for each argument not given yet; after it, the
/// word itself if its key is an argument, else an empty completion.
pub open spec fn completions(
    names: Seq<Seq<char>>,
    command_line: Seq<Seq<char>>,
    current: Seq<char>,
) -> Seq<Seq<char>> {
    if first_equals(current) is None {
        open_keys(names, names.len() as int, command_line)
    } else if names.contains(key_of(current)) {
        seq![current]
    } else {
        seq![Seq::empty()]
    }
}

/// The key of `arg` if it has the form `KEY=value`.
fn key_part(arg: &String) -> (r: Option<String>)
    ensures
        match r {
            Some(k) => first_equals(arg@) is Some && k@ == key_of(arg@),
            None => first_equals(arg@) is None,
        },
{
    match equals_index(arg.as_str()) {
        Some(j) => Some(substring(arg.as_str(), 0, j)),
        None => None,
    }
}

/// Whether the command line gives `key` in some `KEY=value`.
fn given(command_line: &Vec<String>, key: &String) -> (r: bool)
    ensures
        r == key_given(strings_view(command_line@), key@),
{
    let ghost line = strings_view(command_line@);
    let mut i: usize = 0;
    while i < command_line.len()
        invariant
            i <= command_line.len(),
            line == strings_view(command_line@),
            forall|k: int|
                0 <= k < i ==> !(first_equals(line[k]) is Some && #[trigger] key_of(line[k])
                    == key@),
        decreases command_line.len() - i,
    {
        match key_part(&command_line[i]) {
            Some(k) => {
                if k == *key {
                    assert(first_equals(line[i as int]) is Some && key_of(line[i as int]) == key@);
                    return true;
                }
            },
            None => {},
        }
        i += 1;
    }
    false
}

/// Chooses the completions for the word `current`, given the template's
/// argument names and the words of the command line.
pub fn argument_completions(names: &Vec<String>, command_line: &Vec<String>, current: &str) -> (r:
    Vec<String>)
    ensures
        strings_view(r@) == completions(
            strings_view(names@),
            strings_view(command_line@),
            current@,
        ),
{
    let ghost all = strings_view(names@);
    let ghost line = strings_view(command_line@);
    match equals_index(current) {
        None => {
            let mut r: Vec<String> = Vec::new();
            let mut i: usize = 0;
            assert(strings_view(r@) =~= open_keys(all, 0, line));
            while i < names.len()
                invariant
                    i <= names.len(),
                    all == strings_view(names@),
                    line == strings_view(command_line@),
                    first_equals(current@) is None,
                    strings_view(r@) == open_keys(all, i as int, line),
                decreases names.len() - i,
            {
                if !given(command_line, &names[i]) {
                    let ghost before = r@;
                    let mut offered = names[i].clone();
                    offered.append("=");
                    r.push(offered);
                    assert("="@ == equals_sign()) by {
                        reveal_strlit("=");
                    }
                    assert(strings_view(r@) =~= strings_view(before).push(all[i as int] + equals_sign()));
                }
                i += 1;
            }
            r
        },
        Some(j) => {
            let key = substring(current, 0, j);
            let mut k: usize = 0;
            while k < names.len()
                invariant
                    k <= names.len(),
                    all == strings_view(names@),
                    key@ == key_of(current@),
                    first_equals(current@) is Some,
                    forall|m: int| 0 <= m < k ==> all[m] != key@,
                decreases names.len() - k,
            {
                if names[k] == key {
                    let r = vec![String::from_str(current)];
                    assert(all[k as int] == key@);
                    assert(all.contains(key_of(current@)));
                    assert(strings_view(r@) =~= seq![current@]);
                    return r;
                }
                k += 1;
            }
            let r = vec![String::new()];
            assert(strings_view(r@) =~= seq![Seq::<char>::empty()]);
            r
        },
    }
}

} // verus!
