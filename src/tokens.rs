use vstd::prelude::*;
use crate::text::{chars_of, views};

verus! {

/// Whether a character has Unicode's Alphabetic property.
pub uninterp spec fn alphabetic(c: char) -> bool;

/// Relies on `char::is_alphabetic` of std: the answer depends on the character alone.
#[verifier::external_body]
pub(crate) fn is_alpha(c: char) -> (r: bool)
    ensures
        r == alphabetic(c),
{
    c.is_alphabetic()
}

/// The maximal runs of alphabetic characters of `s`, in order.
pub open spec fn split_words(s: Seq<char>) -> Seq<Seq<char>>
    decreases s.len(),
{
    if s.len() == 0 {
        seq![]
    } else {
        let before = split_words(s.drop_last());
        let c = s.last();
        if !alphabetic(c) {
            before
        } else if s.len() >= 2 && alphabetic(s[s.len() - 2]) {
            before.update(before.len() - 1, before.last().push(c))
        } else {
            before.push(seq![c])
        }
    }
}

/// Every character of `w` is alphabetic.
pub open spec fn all_alphabetic(w: Seq<char>) -> bool {
    forall|i: int| 0 <= i < w.len() ==> alphabetic(#[trigger] w[i])
}

/// Whether every character of `w` is alphabetic.
pub fn is_all_alpha(w: &str) -> (r: bool)
    ensures
        r == all_alphabetic(w@),
{
    let cs = chars_of(w);
    let mut i: usize = 0;
    while i < cs.len()
        invariant
            cs@ == w@,
            i <= cs.len(),
            forall|j: int| 0 <= j < i ==> alphabetic(#[trigger] cs@[j]),
        decreases cs.len() - i,
    {
        if !is_alpha(cs[i]) {
            return false;
        }
        i = i + 1;
    }
    true
}

/// Splits `text` into its maximal runs of alphabetic characters.
pub fn split_into_words(text: &str) -> (r: Vec<String>)
    ensures
        views(r@) == split_words(text@),
{
    let cs = chars_of(text);
    let n = cs.len();
    let mut out: Vec<String> = Vec::new();
    let mut start: usize = 0;
    let mut in_run = false;
    let mut i: usize = 0;
    while i < n
        invariant
            cs@ == text@,
            n == cs@.len(),
            i <= n,
            start <= i,
            in_run == (i > 0 && alphabetic(cs@[i - 1])),
            in_run ==> split_words(cs@.subrange(0, i as int)) == views(out@).push(
                cs@.subrange(start as int, i as int),
            ),
            !in_run ==> split_words(cs@.subrange(0, i as int)) == views(out@),
        decreases n - i,
    {
        let c = cs[i];
        let a = is_alpha(c);
        let ghost s = cs@.subrange(0, i + 1);
        assert(s.drop_last() =~= cs@.subrange(0, i as int));
        assert(s.last() == c);
        if !a {
            if in_run {
                let ghost before = views(out@);
                out.push(text.substring_char(start, i).to_string());
                assert(views(out@) =~= before.push(cs@.subrange(start as int, i as int)));
            }
            in_run = false;
        } else if in_run {
            assert(s[s.len() - 2] == cs@[i - 1]);
            assert(cs@.subrange(start as int, i + 1) =~= cs@.subrange(start as int, i as int).push(
                c,
            ));
            assert(split_words(s) =~= views(out@).push(cs@.subrange(start as int, i + 1)));
        } else {
            if i > 0 {
                assert(s[s.len() - 2] == cs@[i - 1]);
            }
            start = i;
            in_run = true;
            assert(cs@.subrange(start as int, i + 1) =~= seq![c]);
        }
        i = i + 1;
    }
    assert(cs@.subrange(0, n as int) =~= cs@);
    if in_run {
        let ghost before = views(out@);
        out.push(text.substring_char(start, n).to_string());
        assert(views(out@) =~= before.push(cs@.subrange(start as int, n as int)));
    }
    out
}

} // verus!
