use vstd::prelude::*;

use crate::header::push_char;

verus! {

/// `s` split at its first `=`: the name before it and the value after it.
pub open spec fn env_var_split(s: Seq<char>) -> Option<(Seq<char>, Seq<char>)> {
    if exists|i: int| 0 <= i < s.len() && s[i] == '=' {
        let i = choose|i: int| 0 <= i < s.len() && s[i] == '=' && forall|j: int| 0 <= j < i ==> s[j] != '=';
        Some((s.take(i), s.skip(i + 1)))
    } else {
        None
    }
}

/// Parses a `NAME=VALUE` pair; `None` when there is no `=`.
pub fn parse_env_var(s: &str) -> (r: Option<(String, String)>)
    ensures
        match env_var_split(s@) {
            None => r is None,
            Some((k, v)) => match r {
                Some((name, value)) => name@ == k && value@ == v,
                None => false,
            },
        },
{
    let mut name = String::new();
    let mut value = String::new();
    let mut seen = false;
    let mut at: usize = 0;
    let mut i: usize = 0;
    let mut chars: Vec<char> = Vec::new();
    for c in it: s.chars()
        invariant
            chars@ == it.seq().take(it.index() as int),
    {
        chars.push(c);
    }
    assert(chars@ =~= s@);
    while i < chars.len()
        invariant
            chars@ == s@,
            i <= chars.len(),
            at <= i,
            !seen ==> forall|j: int| 0 <= j < i ==> s@[j] != '=',
            !seen ==> name@ == s@.take(i as int),
            !seen ==> value@ == Seq::<char>::empty(),
            seen ==> at < i && s@[at as int] == '=' && (forall|j: int| 0 <= j < at ==> s@[j] != '='),
            seen ==> name@ == s@.take(at as int) && value@ == s@.subrange(at + 1, i as int),
        decreases chars.len() - i,
    {
        let c = chars[i];
        if !seen && c == '=' {
            seen = true;
            at = i;
            assert(value@ =~= s@.subrange(at + 1, i + 1));
        } else if !seen {
            push_char(&mut name, c);
            assert(name@ =~= s@.take(i + 1));
        } else {
            push_char(&mut value, c);
            assert(value@ =~= s@.subrange(at + 1, i + 1));
        }
        i = i + 1;
    }
    if !seen {
        return None;
    }
    proof {
        let k = choose|k: int| 0 <= k < s@.len() && s@[k] == '=' && forall|j: int| 0 <= j < k ==> s@[j] != '=';
        assert(k == at) by {
            if k < at {
                assert(s@[k] != '=');
            } else if k > at {
                assert(s@[at as int] != '=');
            }
        }
        assert(value@ =~= s@.skip(at + 1));
    }
    Some((name, value))
}

/// The last component of the path `s`, as the program name that a module
/// sees in its arguments.
pub uninterp spec fn path_base_name(s: Seq<char>) -> Seq<char>;

/// Relies on std::path::Path::components: the last component of the path,
/// or an empty string when there is none.
#[verifier::external_body]
fn module_base_name(module: &str) -> (r: String)
    ensures
        r@ == path_base_name(module@),
{
    std::path::Path::new(module).components().next_back().and_then(|c| c.as_os_str().to_str()).unwrap_or(
        "",
    ).to_owned()
}

/// The argument list of a module: the last component of its path, so that
/// no directory leaks into the guest, then the given arguments.
pub fn compute_argv(module: &str, args: &Vec<String>) -> (r: Vec<String>)
    ensures
        r@.len() == args@.len() + 1,
        r@[0]@ == path_base_name(module@),
        forall|i: int| 0 <= i < args@.len() ==> #[trigger] r@[i + 1] == args@[i],
{
    let mut result: Vec<String> = Vec::new();
    result.push(module_base_name(module));
    let mut i: usize = 0;
    while i < args.len()
        invariant
            i <= args@.len(),
            result@.len() == i + 1,
            result@[0]@ == path_base_name(module@),
            forall|j: int| 0 <= j < i ==> #[trigger] result@[j + 1] == args@[j],
        decreases args.len() - i,
    {
        result.push(args[i].clone());
        i = i + 1;
    }
    result
}

} // verus!
