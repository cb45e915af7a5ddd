//! Expansion of a template: `$$` gives one `$`, `$name` gives the value of the
//! variable `name`.

use vstd::prelude::*;
use vstd::string::*;
use crate::text::chars_of;

verus! {

/// The characters that a variable's name is made of.
pub open spec fn is_name_char(c: char) -> bool {
    ('A' <= c && c <= 'Z') || ('a' <= c && c <= 'z') || ('0' <= c && c <= '9') || c == '_' || c
        == '-'
}

/// Where the run of name characters that starts at `i` ends.
pub open spec fn name_end(t: Seq<char>, i: int) -> int
    decreases t.len() - i,
{
    if 0 <= i < t.len() && is_name_char(t[i]) {
        name_end(t, i + 1)
    } else {
        i
    }
}

/// The views of the variables: pairs of a name and a value.
pub open spec fn var_views(vars: Seq<(String, String)>) -> Seq<(Seq<char>, Seq<char>)> {
    Seq::new(vars.len(), |i: int| (vars[i].0@, vars[i].1@))
}

/// The value of the first variable at or after `from` that is called `name`.
pub open spec fn value_from(vars: Seq<(Seq<char>, Seq<char>)>, name: Seq<char>, from: int) -> Option<
    Seq<char>,
>
    decreases vars.len() - from,
{
    if from < 0 || from >= vars.len() {
        None
    } else if vars[from].0 == name {
        Some(vars[from].1)
    } else {
        value_from(vars, name, from + 1)
    }
}

/// What stands in place of the token `$name`.
pub open spec fn replacement(vars: Seq<(Seq<char>, Seq<char>)>, name: Seq<char>) -> Seq<char> {
    match value_from(vars, name, 0) {
        Some(v) => v,
        None => "undefined"@,
    }
}

/// The expansion of the template from index `i` on. Tokens are taken from left
/// to right: `$$`, else `$` with the longest name that follows it; a `$` that
/// starts neither stays as it is. What was put in is not read again.
pub open spec fn expand_from(t: Seq<char>, vars: Seq<(Seq<char>, Seq<char>)>, i: int) -> Seq<char>
    decreases t.len() - i,
{
    if i < 0 || i >= t.len() {
        Seq::empty()
    } else if t[i] == '$' && i + 1 < t.len() && t[i + 1] == '$' {
        seq!['$'] + expand_from(t, vars, i + 2)
    } else if t[i] == '$' && i + 1 < name_end(t, i + 1) <= t.len() {
        let e = name_end(t, i + 1);
        replacement(vars, t.subrange(i + 1, e)) + expand_from(t, vars, e)
    } else {
        seq![t[i]] + expand_from(t, vars, i + 1)
    }
}

/// The template with every token replaced.
pub open spec fn interpolated(t: Seq<char>, vars: Seq<(Seq<char>, Seq<char>)>) -> Seq<char> {
    expand_from(t, vars, 0)
}

/// A run of name characters ends inside the template, so the bound that
/// `expand_from` asks of it holds of every name.
pub proof fn lemma_name_end_bounds(t: Seq<char>, i: int)
    requires
        0 <= i <= t.len(),
    ensures
        i <= name_end(t, i) <= t.len(),
    decreases t.len() - i,
{
    if i < t.len() && is_name_char(t[i]) {
        lemma_name_end_bounds(t, i + 1);
    }
}

/// A template without `$` is its own expansion.
pub proof fn lemma_plain_template_unchanged(t: Seq<char>, vars: Seq<(Seq<char>, Seq<char>)>, i: int)
    requires
        0 <= i <= t.len(),
        forall|k: int| 0 <= k < t.len() ==> t[k] != '$',
    ensures
        expand_from(t, vars, i) == t.skip(i),
    decreases t.len() - i,
{
    if i < t.len() {
        lemma_plain_template_unchanged(t, vars, i + 1);
        assert(seq![t[i]] + t.skip(i + 1) =~= t.skip(i));
    } else {
        assert(t.skip(i) =~= Seq::<char>::empty());
    }
}

fn name_char(c: char) -> (r: bool)
    ensures
        r == is_name_char(c),
{
    ('A' <= c && c <= 'Z') || ('a' <= c && c <= 'z') || ('0' <= c && c <= '9') || c == '_' || c
        == '-'
}

/// The value of the variable called `name`, if there is one.
pub fn find_variable<'a>(vars: &'a Vec<(String, String)>, name: &String) -> (r: Option<&'a String>)
    ensures
        match r {
            Some(v) => value_from(var_views(vars@), name@, 0) == Some(v@),
            None => value_from(var_views(vars@), name@, 0) is None,
        },
{
    let mut i: usize = 0;
    while i < vars.len()
        invariant
            i <= vars.len(),
            value_from(var_views(vars@), name@, 0) == value_from(var_views(vars@), name@, i as int),
        decreases vars.len() - i,
    {
        if vars[i].0 == *name {
            return Some(&vars[i].1);
        }
        i = i + 1;
    }
    None
}

/// Expands `message` with `vars`.
pub fn apply_message(message: &str, vars: &Vec<(String, String)>) -> (r: String)
    ensures
        r@ == interpolated(message@, var_views(vars@)),
{
    let t = chars_of(message);
    let ghost vs = var_views(vars@);
    let mut out = String::new();
    let mut i: usize = 0;
    assert(out@ + expand_from(t@, vs, 0) =~= expand_from(t@, vs, 0));
    while i < t.len()
        invariant
            i <= t.len(),
            vs == var_views(vars@),
            out@ + expand_from(t@, vs, i as int) == expand_from(t@, vs, 0),
        decreases t.len() - i,
    {
        let c = t[i];
        let ghost before = out@;
        let ghost rest = expand_from(t@, vs, i as int);
        if c == '$' && i + 1 < t.len() && t[i + 1] == '$' {
            out.push('$');
            i = i + 2;
            assert(out@ + expand_from(t@, vs, i as int) =~= before + rest);
        } else if c == '$' {
            let mut name = String::new();
            let mut e: usize = i + 1;
            assert(t@.subrange(i + 1, e as int) =~= Seq::<char>::empty());
            while e < t.len() && name_char(t[e])
                invariant
                    i + 1 <= e <= t.len(),
                    name_end(t@, i + 1) == name_end(t@, e as int),
                    name@ == t@.subrange(i + 1, e as int),
                decreases t.len() - e,
            {
                name.push(t[e]);
                e = e + 1;
                assert(name@ =~= t@.subrange(i + 1, e as int));
            }
            if e > i + 1 {
                match find_variable(vars, &name) {
                    Some(v) => {
                        out.append(v.as_str());
                    },
                    None => {
                        out.append("undefined");
                    },
                }
                i = e;
                assert(out@ + expand_from(t@, vs, i as int) =~= before + rest);
            } else {
                out.push(c);
                i = i + 1;
                assert(out@ + expand_from(t@, vs, i as int) =~= before + rest);
            }
        } else {
            out.push(c);
            i = i + 1;
            assert(out@ + expand_from(t@, vs, i as int) =~= before + rest);
        }
    }
    assert(out@ + expand_from(t@, vs, i as int) =~= out@);
    out
}

} // verus!
