use vstd::prelude::*;

verus! {

/// The views of a list of strings.
pub open spec fn views(v: Seq<String>) -> Seq<Seq<char>> {
    v.map_values(|s: String| s@)
}

/// `part` occurs in `w` starting at position `i`.
pub open spec fn occurs_at(w: Seq<char>, part: Seq<char>, i: int) -> bool {
    0 <= i && i + part.len() <= w.len() && w.subrange(i, i + part.len()) == part
}

pub open spec fn starts_with(w: Seq<char>, prefix: Seq<char>) -> bool {
    occurs_at(w, prefix, 0)
}

pub open spec fn ends_with(w: Seq<char>, suffix: Seq<char>) -> bool {
    occurs_at(w, suffix, w.len() - suffix.len())
}

pub open spec fn contains_part(w: Seq<char>, part: Seq<char>) -> bool {
    exists|i: int| occurs_at(w, part, i)
}

/// How many times `c` occurs in `w`.
pub open spec fn count_char(w: Seq<char>, c: char) -> nat
    decreases w.len(),
{
    if w.len() == 0 {
        0
    } else {
        count_char(w.drop_last(), c) + if w.last() == c {
            1nat
        } else {
            0nat
        }
    }
}

/// Every character of `w` is in `alphabet`.
pub open spec fn within(w: Seq<char>, alphabet: Seq<char>) -> bool {
    forall|i: int| 0 <= i < w.len() ==> alphabet.contains(#[trigger] w[i])
}

/// Some character of `w` is in `set`.
pub open spec fn meets(w: Seq<char>, set: Seq<char>) -> bool {
    exists|i: int| 0 <= i < w.len() && set.contains(#[trigger] w[i])
}

pub proof fn lemma_push_contains<A>(a: Seq<A>, x: A)
    ensures
        forall|y: A| #[trigger] a.push(x).contains(y) == (a.contains(y) || y == x),
{
    let b = a.push(x);
    assert forall|y: A| #[trigger] b.contains(y) == (a.contains(y) || y == x) by {
        if b.contains(y) {
            let k = choose|k: int| 0 <= k < b.len() && b[k] == y;
            if k < a.len() {
                assert(a[k] == y);
            }
        }
        if a.contains(y) {
            let k = choose|k: int| 0 <= k < a.len() && a[k] == y;
            assert(b[k] == y);
        }
        if y == x {
            assert(b[a.len() as int] == x);
        }
    }
}

/// The characters of a string, one per element.
pub fn chars_of(s: &str) -> (r: Vec<char>)
    ensures
        r@ == s@,
{
    let n = s.unicode_len();
    let mut r: Vec<char> = Vec::new();
    let mut i: usize = 0;
    while i < n
        invariant
            n == s@.len(),
            i <= n,
            r@ == s@.subrange(0, i as int),
        decreases n - i,
    {
        r.push(s.get_char(i));
        i = i + 1;
        assert(r@ =~= s@.subrange(0, i as int));
    }
    assert(r@ =~= s@);
    r
}

pub fn char_in(c: char, set: &Vec<char>) -> (r: bool)
    ensures
        r == set@.contains(c),
{
    let mut i: usize = 0;
    while i < set.len()
        invariant
            i <= set.len(),
            forall|j: int| 0 <= j < i ==> set@[j] != c,
        decreases set.len() - i,
    {
        if set[i] == c {
            return true;
        }
        i = i + 1;
    }
    false
}

pub fn is_within(w: &Vec<char>, alphabet: &Vec<char>) -> (r: bool)
    ensures
        r == within(w@, alphabet@),
{
    let mut i: usize = 0;
    while i < w.len()
        invariant
            i <= w.len(),
            forall|j: int| 0 <= j < i ==> alphabet@.contains(#[trigger] w@[j]),
        decreases w.len() - i,
    {
        if !char_in(w[i], alphabet) {
            return false;
        }
        i = i + 1;
    }
    true
}

pub fn does_meet(w: &Vec<char>, set: &Vec<char>) -> (r: bool)
    ensures
        r == meets(w@, set@),
{
    let mut i: usize = 0;
    while i < w.len()
        invariant
            i <= w.len(),
            forall|j: int| 0 <= j < i ==> !set@.contains(#[trigger] w@[j]),
        decreases w.len() - i,
    {
        if char_in(w[i], set) {
            return true;
        }
        i = i + 1;
    }
    false
}

pub fn occurs_at_exec(w: &Vec<char>, part: &Vec<char>, i: usize) -> (r: bool)
    ensures
        r == occurs_at(w@, part@, i as int),
{
    if part.len() > w.len() || i > w.len() - part.len() {
        return false;
    }
    let mut k: usize = 0;
    while k < part.len()
        invariant
            i + part.len() <= w.len(),
            k <= part.len(),
            forall|j: int| 0 <= j < k ==> w@[i + j] == part@[j],
        decreases part.len() - k,
    {
        if w[i + k] != part[k] {
            assert(w@.subrange(i as int, i + part.len())[k as int] != part@[k as int]);
            return false;
        }
        k = k + 1;
    }
    assert(w@.subrange(i as int, i + part.len()) =~= part@);
    true
}

pub fn has_prefix(w: &Vec<char>, prefix: &Vec<char>) -> (r: bool)
    ensures
        r == starts_with(w@, prefix@),
{
    occurs_at_exec(w, prefix, 0)
}

pub fn has_suffix(w: &Vec<char>, suffix: &Vec<char>) -> (r: bool)
    ensures
        r == ends_with(w@, suffix@),
{
    if suffix.len() > w.len() {
        false
    } else {
        occurs_at_exec(w, suffix, w.len() - suffix.len())
    }
}

pub fn has_part(w: &Vec<char>, part: &Vec<char>) -> (r: bool)
    ensures
        r == contains_part(w@, part@),
{
    if part.len() > w.len() {
        return false;
    }
    let last = w.len() - part.len();
    let mut i: usize = 0;
    while i < last
        invariant
            last == w.len() - part.len(),
            i <= last,
            forall|j: int| 0 <= j < i ==> !occurs_at(w@, part@, j),
        decreases last - i,
    {
        if occurs_at_exec(w, part, i) {
            return true;
        }
        i = i + 1;
    }
    occurs_at_exec(w, part, last)
}

pub fn count_of(w: &Vec<char>, c: char) -> (r: usize)
    ensures
        r == count_char(w@, c),
{
    let mut n: usize = 0;
    let mut i: usize = 0;
    while i < w.len()
        invariant
            i <= w.len(),
            n <= i,
            n == count_char(w@.subrange(0, i as int), c),
        decreases w.len() - i,
    {
        assert(w@.subrange(0, i + 1).drop_last() =~= w@.subrange(0, i as int));
        if w[i] == c {
            n = n + 1;
        }
        i = i + 1;
    }
    assert(w@.subrange(0, w.len() as int) =~= w@);
    n
}

/// Number of bytes of `c` in UTF-8.
pub open spec fn utf8_char_len(c: char) -> nat {
    if (c as int) < 0x80 {
        1
    } else if (c as int) < 0x800 {
        2
    } else if (c as int) < 0x10000 {
        3
    } else {
        4
    }
}

/// Number of bytes of `w` in UTF-8.
pub open spec fn utf8_len(w: Seq<char>) -> nat
    decreases w.len(),
{
    if w.len() == 0 {
        0
    } else {
        utf8_len(w.drop_last()) + utf8_char_len(w.last())
    }
}

fn char_utf8_len(c: char) -> (r: u128)
    ensures
        r == utf8_char_len(c),
{
    let v = c as u32;
    if v < 0x80 {
        1
    } else if v < 0x800 {
        2
    } else if v < 0x10000 {
        3
    } else {
        4
    }
}

/// Number of bytes of `w` in UTF-8.
pub fn utf8_len_of(w: &Vec<char>) -> (r: u128)
    ensures
        r == utf8_len(w@),
{
    let mut n: u128 = 0;
    let mut i: usize = 0;
    while i < w.len()
        invariant
            i <= w.len(),
            n == utf8_len(w@.subrange(0, i as int)),
            n <= 4 * i,
        decreases w.len() - i,
    {
        assert(w@.subrange(0, i + 1).drop_last() =~= w@.subrange(0, i as int));
        assert(w@.subrange(0, i + 1).last() == w@[i as int]);
        let k = char_utf8_len(w[i]);
        n = n + k;
        i = i + 1;
    }
    assert(w@.subrange(0, w.len() as int) =~= w@);
    n
}

/// Whether `c` has Unicode's White_Space property, the set that `char::is_whitespace` uses.
pub open spec fn is_space(c: char) -> bool {
    let v = c as int;
    ||| 0x09 <= v <= 0x0d
    ||| v == 0x20
    ||| v == 0x85
    ||| v == 0xa0
    ||| v == 0x1680
    ||| 0x2000 <= v <= 0x200a
    ||| v == 0x2028
    ||| v == 0x2029
    ||| v == 0x202f
    ||| v == 0x205f
    ||| v == 0x3000
}

pub fn is_space_exec(c: char) -> (r: bool)
    ensures
        r == is_space(c),
{
    let v = c as u32;
    (0x09 <= v && v <= 0x0d) || v == 0x20 || v == 0x85 || v == 0xa0 || v == 0x1680 || (0x2000
        <= v && v <= 0x200a) || v == 0x2028 || v == 0x2029 || v == 0x202f || v == 0x205f || v
        == 0x3000
}

/// `w` without its leading white space.
pub open spec fn trim_start(w: Seq<char>) -> Seq<char>
    decreases w.len(),
{
    if w.len() > 0 && is_space(w[0]) {
        trim_start(w.drop_first())
    } else {
        w
    }
}

/// `w` without its trailing white space.
pub open spec fn trim_end(w: Seq<char>) -> Seq<char>
    decreases w.len(),
{
    if w.len() > 0 && is_space(w.last()) {
        trim_end(w.drop_last())
    } else {
        w
    }
}

/// `w` without its leading and trailing white space.
pub open spec fn trimmed(w: Seq<char>) -> Seq<char> {
    trim_end(trim_start(w))
}

/// The trimmed form of each word of a list.
pub open spec fn trimmed_all(ws: Seq<Seq<char>>) -> Seq<Seq<char>> {
    ws.map_values(|w: Seq<char>| trimmed(w))
}

/// `s` without its leading and trailing white space.
pub fn trim(s: &str) -> (r: String)
    ensures
        r@ == trimmed(s@),
{
    let cs = chars_of(s);
    let n = cs.len();
    let mut lo: usize = 0;
    assert(s@.subrange(0, n as int) =~= s@);
    while lo < n && is_space_exec(cs[lo])
        invariant
            cs@ == s@,
            n == cs@.len(),
            lo <= n,
            trim_start(s@) == trim_start(s@.subrange(lo as int, n as int)),
        decreases n - lo,
    {
        assert(s@.subrange(lo as int, n as int).drop_first() =~= s@.subrange(lo + 1, n as int));
        lo = lo + 1;
    }
    assert(trim_start(s@.subrange(lo as int, n as int)) == s@.subrange(lo as int, n as int));
    let mut hi: usize = n;
    while hi > lo && is_space_exec(cs[hi - 1])
        invariant
            cs@ == s@,
            n == cs@.len(),
            lo <= hi <= n,
            trimmed(s@) == trim_end(s@.subrange(lo as int, hi as int)),
        decreases hi,
    {
        assert(s@.subrange(lo as int, hi as int).drop_last() =~= s@.subrange(
            lo as int,
            hi - 1,
        ));
        hi = hi - 1;
    }
    s.substring_char(lo, hi).to_string()
}

} // verus!
