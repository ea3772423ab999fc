//! Small helpers on character strings.

use vstd::prelude::*;
use vstd::string::*;


verus! {

/// Appends one character at the end of `s` (std's `String::push`).
#[verifier::external_body]
pub(crate) fn push_char(s: &mut String, c: char)
    ensures
        final(s)@ == old(s)@.push(c),
{
    s.push(c);
}

/// Number of characters of `s`.
pub(crate) fn char_count(s: &str) -> (n: usize)
    ensures
        n == s@.len(),
{
    s.unicode_len()
}

/// Character at position `i` of `s`.
pub(crate) fn char_at(s: &str, i: usize) -> (c: char)
    requires
        i < s@.len(),
    ensures
        c == s@[i as int],
{
    s.get_char(i)
}


pub open spec fn strings_of(v: Seq<String>) -> Seq<Seq<char>> {
    v.map_values(|x: String| x@)
}

/// The pieces of `s` between occurrences of `sep`, as std's `str::split`
/// cuts them: `n` occurrences give `n + 1` pieces, empty ones included.
pub open spec fn split_on(s: Seq<char>, sep: char) -> Seq<Seq<char>>
    decreases s.len(),
{
    if s.len() == 0 {
        seq![Seq::<char>::empty()]
    } else {
        let p = split_on(s.drop_last(), sep);
        if s.last() == sep {
            p.push(Seq::<char>::empty())
        } else {
            p.update(p.len() - 1, p.last().push(s.last()))
        }
    }
}

/// Cuts `s` at every `sep`.
pub fn split(s: &String, sep: char) -> (r: Vec<String>)
    ensures
        strings_of(r@) == split_on(s@, sep),
{
    let t = s.as_str();
    let n = char_count(t);
    let mut parts: Vec<String> = Vec::new();
    let mut cur = String::new();
    let mut i: usize = 0;
    assert(s@.subrange(0, 0) =~= Seq::<char>::empty());
    assert(strings_of(parts@).push(cur@) =~= split_on(s@.subrange(0, 0), sep));
    while i < n
        invariant
            n == s@.len(),
            t@ == s@,
            i <= n,
            strings_of(parts@).push(cur@) =~= split_on(s@.subrange(0, i as int), sep),
        decreases n - i,
    {
        let c = char_at(t, i);
        let ghost before = strings_of(parts@).push(cur@);
        assert(s@.subrange(0, i + 1).drop_last() =~= s@.subrange(0, i as int));
        assert(s@.subrange(0, i + 1).last() == c);
        if c == sep {
            let done = cur;
            parts.push(done);
            cur = String::new();
            assert(strings_of(parts@).push(cur@) =~= before.push(Seq::<char>::empty()));
        } else {
            push_char(&mut cur, c);
            assert(strings_of(parts@).push(cur@) =~= before.update(before.len() - 1, before.last().push(c)));
        }
        i = i + 1;
    }
    parts.push(cur);
    assert(s@.subrange(0, n as int) =~= s@);
    assert(strings_of(parts@) =~= split_on(s@, sep));
    parts
}

/// Whether `v` holds a string equal to `s`.
pub fn contains_string(v: &Vec<String>, s: &String) -> (r: bool)
    ensures
        r == strings_of(v@).contains(s@),
{
    let n = v.len();
    let mut i: usize = 0;
    while i < n
        invariant
            n == v@.len(),
            i <= n,
            forall|j: int| 0 <= j < i ==> strings_of(v@)[j] != s@,
        decreases n - i,
    {
        if v[i] == *s {
            assert(strings_of(v@)[i as int] == s@);
            return true;
        }
        i = i + 1;
    }
    proof {
        if strings_of(v@).contains(s@) {
            let j = choose|j: int| 0 <= j < strings_of(v@).len() && strings_of(v@)[j] == s@;
            assert(strings_of(v@)[j] == s@);
        }
    }
    false
}

} // verus!
