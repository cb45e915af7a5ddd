//! Helpers on strings, stated over their views as sequences of characters.

use vstd::prelude::*;

verus! {

/// `String::push` appends the one character to the string.
pub assume_specification[ String::push ](s: &mut String, c: char)
    ensures
        final(s)@ == old(s)@.push(c),
;

/// The views of a sequence of strings.
pub open spec fn texts(v: Seq<String>) -> Seq<Seq<char>> {
    v.map_values(|s: String| s@)
}

/// The pieces of `s` between the occurrences of `sep`. There is always at
/// least one piece; an empty piece stands wherever two separators meet or one
/// stands at either end.
pub open spec fn split_on(s: Seq<char>, sep: char) -> Seq<Seq<char>>
    decreases s.len(),
{
    if s.len() == 0 {
        seq![Seq::<char>::empty()]
    } else {
        let before = split_on(s.drop_last(), sep);
        if s.last() == sep {
            before.push(Seq::<char>::empty())
        } else {
            before.drop_last().push(before.last().push(s.last()))
        }
    }
}

/// The pieces with `sep` between each two of them.
pub open spec fn joined(parts: Seq<Seq<char>>, sep: char) -> Seq<char>
    decreases parts.len(),
{
    if parts.len() == 0 {
        Seq::empty()
    } else if parts.len() == 1 {
        parts[0]
    } else {
        joined(parts.drop_last(), sep).push(sep) + parts.last()
    }
}

/// To cut a string at a separator and join the pieces with it again gives
/// the string back; and cutting gives at least one piece.
pub proof fn lemma_join_split(s: Seq<char>, sep: char)
    ensures
        split_on(s, sep).len() >= 1,
        joined(split_on(s, sep), sep) == s,
    decreases s.len(),
{
    if s.len() == 0 {
        assert(joined(split_on(s, sep), sep) =~= s);
    } else {
        let before = split_on(s.drop_last(), sep);
        lemma_join_split(s.drop_last(), sep);
        let c = s.last();
        let now = split_on(s, sep);
        assert(s =~= s.drop_last().push(c));
        if c == sep {
            assert(now.drop_last() =~= before);
            assert(joined(now, sep) =~= joined(before, sep).push(sep));
        } else if before.len() == 1 {
            assert(now =~= seq![before[0].push(c)]);
            assert(joined(now, sep) =~= joined(before, sep).push(c));
        } else {
            assert(now.drop_last() =~= before.drop_last());
            assert(now.last() == before.last().push(c));
            assert(joined(now, sep) =~= joined(before, sep).push(c));
        }
    }
}

/// The characters of a string, in order.
pub fn chars_of(s: &str) -> (r: Vec<char>)
    ensures
        r@ == s@,
{
    let n: usize = s.unicode_len();
    let mut r: Vec<char> = Vec::new();
    let mut i: usize = 0;
    while i < n
        invariant
            n == s@.len(),
            i <= n,
            r@ == s@.take(i as int),
        decreases n - i,
    {
        r.push(s.get_char(i));
        i = i + 1;
        assert(r@ =~= s@.take(i as int));
    }
    assert(s@.take(n as int) =~= s@);
    r
}

/// A copy of a list of strings.
pub fn copy_texts(list: &Vec<String>) -> (r: Vec<String>)
    ensures
        texts(r@) == texts(list@),
{
    let mut r: Vec<String> = Vec::new();
    let mut i: usize = 0;
    while i < list.len()
        invariant
            i <= list.len(),
            texts(r@) == texts(list@).take(i as int),
        decreases list.len() - i,
    {
        let ghost before = texts(r@);
        let item = list[i].clone();
        assert(item@ == texts(list@)[i as int]);
        r.push(item);
        assert(texts(r@) =~= before.push(item@));
        i = i + 1;
        assert(texts(r@) =~= texts(list@).take(i as int));
    }
    assert(texts(list@).take(list.len() as int) =~= texts(list@));
    r
}

/// Splits `s` at every occurrence of `sep`.
pub fn split(s: &str, sep: char) -> (r: Vec<String>)
    ensures
        texts(r@) == split_on(s@, sep),
        r@.len() >= 1,
{
    let cs = chars_of(s);
    let mut done: Vec<String> = Vec::new();
    let mut cur: String = String::new();
    let mut i: usize = 0;
    while i < cs.len()
        invariant
            cs@ == s@,
            i <= cs.len(),
            texts(done@).push(cur@) == split_on(s@.take(i as int), sep),
        decreases cs.len() - i,
    {
        let c = cs[i];
        proof {
            let t = s@.take(i + 1);
            assert(t.drop_last() =~= s@.take(i as int));
            assert(t.last() == c);
        }
        let ghost before = texts(done@).push(cur@);
        if c == sep {
            done.push(cur);
            cur = String::new();
            assert(texts(done@) =~= before);
        } else {
            cur.push(c);
            assert(texts(done@).push(cur@) =~= before.drop_last().push(before.last().push(c)));
        }
        i = i + 1;
    }
    assert(s@.take(cs.len() as int) =~= s@);
    let ghost before = texts(done@).push(cur@);
    done.push(cur);
    assert(texts(done@) =~= before);
    done
}

} // verus!
