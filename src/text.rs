//! Character-level helpers shared by the matcher and the walker.
use vstd::prelude::*;
use vstd::string::StrSliceExecFns;

verus! {

/// The path with every backslash separator rewritten to a forward slash.
pub open spec fn normalize(s: Seq<char>) -> Seq<char> {
    s.map_values(|c: char| if c == '\\' { '/' } else { c })
}

/// Every non-overlapping `"./"` removed, scanning from the left.
pub open spec fn strip_relative(s: Seq<char>) -> Seq<char>
    decreases s.len(),
{
    if s.len() < 2 {
        s
    } else if s[0] == '.' && s[1] == '/' {
        strip_relative(s.subrange(2, s.len() as int))
    } else {
        seq![s[0]] + strip_relative(s.subrange(1, s.len() as int))
    }
}

/// Number of non-overlapping `"../"` markers, scanning from the left.
pub open spec fn count_hops(s: Seq<char>) -> nat
    decreases s.len(),
{
    if s.len() < 3 {
        0
    } else if s[0] == '.' && s[1] == '.' && s[2] == '/' {
        1 + count_hops(s.subrange(3, s.len() as int))
    } else {
        count_hops(s.subrange(1, s.len() as int))
    }
}

pub open spec fn ends_with(s: Seq<char>, suffix: Seq<char>) -> bool {
    suffix.len() <= s.len() && s.subrange(s.len() - suffix.len(), s.len() as int) == suffix
}

pub open spec fn ends_with_char(s: Seq<char>, c: char) -> bool {
    s.len() > 0 && s.last() == c
}

/// The text after the last occurrence of `sep`, or all of `s` when it has none.
pub open spec fn after_last(s: Seq<char>, sep: char) -> Seq<char>
    decreases s.len(),
{
    if s.len() == 0 {
        s
    } else if s.last() == sep {
        Seq::empty()
    } else {
        after_last(s.drop_last(), sep).push(s.last())
    }
}

/// `needle` occurs somewhere in `hay` as a contiguous run.
pub open spec fn contains(hay: Seq<char>, needle: Seq<char>) -> bool {
    exists|i: int| 0 <= i <= hay.len() - needle.len() && #[trigger] hay.subrange(i, i + needle.len()) == needle
}

/// The characters of the string, in order.
pub fn chars_of(s: &str) -> (r: Vec<char>)
    ensures
        r@ == s@,
{
    let n = s.unicode_len();
    let mut out: Vec<char> = Vec::new();
    let mut i: usize = 0;
    while i < n
        invariant
            n == s@.len(),
            i <= n,
            out@ == s@.subrange(0, i as int),
        decreases n - i,
    {
        out.push(s.get_char(i));
        i += 1;
        assert(out@ =~= s@.subrange(0, i as int));
    }
    assert(out@ =~= s@);
    out
}

/// Relies on `String: FromIterator<char>`: the string made of these characters, in order.
#[verifier::external_body]
pub(crate) fn string_of(v: &Vec<char>) -> (r: String)
    ensures
        r@ == v@,
{
    v.iter().collect()
}

pub fn normalize_chars(s: &Vec<char>) -> (r: Vec<char>)
    ensures
        r@ == normalize(s@),
{
    let mut out: Vec<char> = Vec::new();
    let mut i: usize = 0;
    while i < s.len()
        invariant
            i <= s.len(),
            out@ == normalize(s@).subrange(0, i as int),
        decreases s.len() - i,
    {
        let c = s[i];
        if c == '\\' {
            out.push('/');
        } else {
            out.push(c);
        }
        i += 1;
        assert(out@ == normalize(s@).subrange(0, i as int));
    }
    assert(out@ == normalize(s@));
    out
}

proof fn lemma_suffix_step(s: Seq<char>, i: int, k: int)
    requires
        0 <= i,
        0 <= k,
        i + k <= s.len(),
    ensures
        s.subrange(i, s.len() as int).subrange(k, s.len() - i) == s.subrange(i + k, s.len() as int),
{
    assert(s.subrange(i, s.len() as int).subrange(k, s.len() - i) =~= s.subrange(i + k, s.len() as int));
}

pub fn strip_relative_chars(s: &Vec<char>) -> (r: Vec<char>)
    ensures
        r@ == strip_relative(s@),
{
    let mut out: Vec<char> = Vec::new();
    let mut i: usize = 0;
    let n = s.len();
    proof {
        assert(s@.subrange(0, n as int) =~= s@);
    }
    while i < n
        invariant
            n == s.len(),
            i <= n,
            strip_relative(s@) == out@ + strip_relative(s@.subrange(i as int, n as int)),
        decreases n - i,
    {
        let ghost rest = s@.subrange(i as int, n as int);
        if i + 1 < n && s[i] == '.' && s[i + 1] == '/' {
            proof {
                lemma_suffix_step(s@, i as int, 2);
            }
            i += 2;
        } else {
            proof {
                lemma_suffix_step(s@, i as int, 1);
                assert(out@.push(s@[i as int]) + strip_relative(s@.subrange(i + 1, n as int))
                    =~= out@ + (seq![s@[i as int]] + strip_relative(s@.subrange(i + 1, n as int))));
            }
            out.push(s[i]);
            i += 1;
        }
    }
    proof {
        assert(out@ + Seq::<char>::empty() =~= out@);
    }
    out
}

pub fn count_hops_chars(s: &Vec<char>) -> (r: usize)
    ensures
        r == count_hops(s@),
{
    let mut count: usize = 0;
    let mut i: usize = 0;
    let n = s.len();
    proof {
        assert(s@.subrange(0, n as int) =~= s@);
    }
    while i < n
        invariant
            n == s.len(),
            i <= n,
            count <= i,
            count_hops(s@) == count + count_hops(s@.subrange(i as int, n as int)),
        decreases n - i,
    {
        if n - i > 2 && s[i] == '.' && s[i + 1] == '.' && s[i + 2] == '/' {
            proof {
                lemma_suffix_step(s@, i as int, 3);
            }
            count += 1;
            i += 3;
        } else {
            proof {
                lemma_suffix_step(s@, i as int, 1);
            }
            i += 1;
        }
    }
    count
}

pub fn ends_with_chars(s: &Vec<char>, suffix: &Vec<char>) -> (r: bool)
    ensures
        r == ends_with(s@, suffix@),
{
    if suffix.len() > s.len() {
        return false;
    }
    let off = s.len() - suffix.len();
    let mut i: usize = 0;
    while i < suffix.len()
        invariant
            off == s.len() - suffix.len(),
            i <= suffix.len(),
            forall|j: int| 0 <= j < i ==> s@[off + j] == suffix@[j],
        decreases suffix.len() - i,
    {
        if s[off + i] != suffix[i] {
            assert(s@.subrange(off as int, s.len() as int)[i as int] != suffix@[i as int]);
            return false;
        }
        i += 1;
    }
    assert(s@.subrange(off as int, s.len() as int) =~= suffix@);
    true
}

pub fn ends_with_char_exec(s: &Vec<char>, c: char) -> (r: bool)
    ensures
        r == ends_with_char(s@, c),
{
    s.len() > 0 && s[s.len() - 1] == c
}

pub fn after_last_chars(s: &Vec<char>, sep: char) -> (r: Vec<char>)
    ensures
        r@ == after_last(s@, sep),
{
    let mut start: usize = s.len();
    proof {
        assert(s@.subrange(0, s.len() as int) =~= s@);
        assert(after_last(s@, sep) + s@.subrange(s.len() as int, s.len() as int) =~= after_last(s@, sep));
    }
    while start > 0 && s[start - 1] != sep
        invariant
            start <= s.len(),
            after_last(s@, sep) == after_last(s@.subrange(0, start as int), sep) + s@.subrange(start as int, s.len() as int),
        decreases start,
    {
        proof {
            let pre = s@.subrange(0, start as int);
            assert(pre.drop_last() =~= s@.subrange(0, start - 1));
            assert(s@.subrange(start - 1, s.len() as int) =~= seq![pre.last()] + s@.subrange(start as int, s.len() as int));
            assert(after_last(pre, sep) == after_last(pre.drop_last(), sep).push(pre.last()));
            assert(after_last(pre.drop_last(), sep).push(pre.last()) + s@.subrange(start as int, s.len() as int)
                =~= after_last(pre.drop_last(), sep) + s@.subrange(start - 1, s.len() as int));
        }
        start -= 1;
    }
    proof {
        let pre = s@.subrange(0, start as int);
        if start > 0 {
            assert(pre.last() == sep);
        }
        assert(after_last(pre, sep) =~= Seq::<char>::empty());
        assert(Seq::<char>::empty() + s@.subrange(start as int, s.len() as int) =~= s@.subrange(start as int, s.len() as int));
    }
    let mut out: Vec<char> = Vec::new();
    let mut i: usize = start;
    while i < s.len()
        invariant
            start <= i <= s.len(),
            out@ == s@.subrange(start as int, i as int),
        decreases s.len() - i,
    {
        out.push(s[i]);
        i += 1;
        assert(out@ =~= s@.subrange(start as int, i as int));
    }
    out
}

} // verus!
