use vstd::prelude::*;
use crate::order::{
    less_than, lemma_lex_irreflexive, lemma_lex_total, lemma_lex_transitive, lex_lt,
};

verus! {

/// No two entries of a listing share a word.
pub open spec fn distinct_words(s: Seq<(Seq<char>, u64)>) -> bool {
    forall|i: int, j: int|
        0 <= i < s.len() && 0 <= j < s.len() && i != j ==> #[trigger] s[i].0 != #[trigger] s[j].0
}

/// The words of a listing are in strictly ascending codepoint-lexicographic order.
pub open spec fn sorted_words(s: Seq<(Seq<char>, u64)>) -> bool {
    forall|i: int, j: int| 0 <= i < j < s.len() ==> lex_lt(#[trigger] s[i].0, #[trigger] s[j].0)
}

pub proof fn lemma_sorted_distinct(s: Seq<(Seq<char>, u64)>)
    requires
        sorted_words(s),
    ensures
        distinct_words(s),
{
    assert forall|i: int, j: int|
        0 <= i < s.len() && 0 <= j < s.len() && i != j implies #[trigger] s[i].0
        != #[trigger] s[j].0 by {
        if i < j {
            lemma_lex_irreflexive(s[i].0);
        } else {
            lemma_lex_irreflexive(s[j].0);
        }
    }
}

/// Inserting `w` where it belongs keeps a listing sorted and adds `w` to its map.
proof fn lemma_insert_entry(s: Seq<(Seq<char>, u64)>, i: int, w: Seq<char>, v: u64)
    requires
        sorted_words(s),
        0 <= i <= s.len(),
        forall|j: int| 0 <= j < i ==> lex_lt(#[trigger] s[j].0, w),
        forall|j: int| i <= j < s.len() ==> lex_lt(w, #[trigger] s[j].0),
    ensures
        sorted_words(s.insert(i, (w, v))),
        map_of(s.insert(i, (w, v))) == map_of(s).insert(w, v),
{
    let t = s.insert(i, (w, v));
    let m = map_of(s).insert(w, v);
    lemma_sorted_distinct(s);
    assert(forall|j: int| 0 <= j < i ==> t[j] == s[j]);
    assert(forall|j: int| i < j < t.len() ==> t[j] == s[j - 1]);
    assert forall|a: int, b: int| 0 <= a < b < t.len() implies lex_lt(
        #[trigger] t[a].0,
        #[trigger] t[b].0,
    ) by {
        if b < i {
        } else if a < i && b == i {
        } else if a < i {
            lemma_lex_transitive(s[a].0, w, s[b - 1].0);
        } else if a == i {
        } else {
        }
    }
    lemma_sorted_distinct(t);
    assert forall|k: Seq<char>| has_word(t, k) <==> #[trigger] m.contains_key(k) by {
        if has_word(t, k) {
            let j = choose|j: int| 0 <= j < t.len() && #[trigger] t[j].0 == k;
            if j < i {
                assert(s[j].0 == k);
            } else if j > i {
                assert(s[j - 1].0 == k);
            }
        }
        if map_of(s).contains_key(k) {
            let j = choose|j: int| 0 <= j < s.len() && #[trigger] s[j].0 == k;
            if j < i {
                assert(t[j].0 == k);
            } else {
                assert(t[j + 1].0 == k);
            }
        }
        if k == w {
            assert(t[i].0 == k);
        }
    }
    assert forall|j: int| 0 <= j < t.len() implies m[#[trigger] t[j].0] == t[j].1 by {
        if j < i {
            lemma_map_of_entry(s, j);
            lemma_lex_irreflexive(w);
        } else if j > i {
            lemma_map_of_entry(s, j - 1);
            lemma_lex_irreflexive(w);
        }
    }
    lemma_map_of_ext(t, m);
}

/// Some entry of the listing holds the word `w`.
pub open spec fn has_word(s: Seq<(Seq<char>, u64)>, w: Seq<char>) -> bool {
    exists|i: int| 0 <= i < s.len() && #[trigger] s[i].0 == w
}

/// The word-to-count map that a listing of entries describes.
pub open spec fn map_of(s: Seq<(Seq<char>, u64)>) -> Map<Seq<char>, u64> {
    Map::new(
        |w: Seq<char>| has_word(s, w),
        |w: Seq<char>| s[choose|i: int| 0 <= i < s.len() && #[trigger] s[i].0 == w].1,
    )
}

/// The views of a list of word and count pairs.
pub open spec fn pairs(v: Seq<(String, u64)>) -> Seq<(Seq<char>, u64)> {
    v.map_values(|e: (String, u64)| (e.0@, e.1))
}

/// Count increment that stops at the largest representable count.
pub open spec fn sat_add(a: u64, b: u64) -> u64 {
    if a + b > u64::MAX {
        u64::MAX
    } else {
        (a + b) as u64
    }
}

/// The count stored for `w`, or zero when `w` is absent.
pub open spec fn count_in(m: Map<Seq<char>, u64>, w: Seq<char>) -> u64 {
    if m.contains_key(w) {
        m[w]
    } else {
        0
    }
}

pub proof fn lemma_map_of_entry(s: Seq<(Seq<char>, u64)>, i: int)
    requires
        distinct_words(s),
        0 <= i < s.len(),
    ensures
        map_of(s).contains_key(s[i].0),
        map_of(s)[s[i].0] == s[i].1,
{
    let w = s[i].0;
    assert(has_word(s, w));
    let j = choose|j: int| 0 <= j < s.len() && #[trigger] s[j].0 == w;
    assert(j == i);
}

/// A listing with distinct words has as many entries as its map has keys.
pub proof fn lemma_map_of_len(s: Seq<(Seq<char>, u64)>)
    requires
        distinct_words(s),
    ensures
        map_of(s).dom().finite(),
        map_of(s).dom().len() == s.len(),
    decreases s.len(),
{
    if s.len() == 0 {
        assert(map_of(s) =~= Map::<Seq<char>, u64>::empty());
    } else {
        let t = s.drop_last();
        let (w, v) = s.last();
        assert(forall|j: int| 0 <= j < t.len() ==> t[j] == s[j]);
        assert(distinct_words(t));
        lemma_map_of_len(t);
        assert(!has_word(t, w)) by {
            if has_word(t, w) {
                let j = choose|j: int| 0 <= j < t.len() && #[trigger] t[j].0 == w;
                assert(s[j].0 == s[s.len() - 1].0);
            }
        }
        lemma_push_entry(t, w, v);
        assert(t.push((w, v)) =~= s);
        assert(map_of(s).dom() =~= map_of(t).dom().insert(w));
    }
}

/// A distinct listing whose words and counts agree with `m` describes `m`.
proof fn lemma_map_of_ext(t: Seq<(Seq<char>, u64)>, m: Map<Seq<char>, u64>)
    requires
        distinct_words(t),
        forall|k: Seq<char>| has_word(t, k) <==> #[trigger] m.contains_key(k),
        forall|j: int| 0 <= j < t.len() ==> m[#[trigger] t[j].0] == t[j].1,
    ensures
        map_of(t) == m,
{
    assert forall|k: Seq<char>| #[trigger] map_of(t).contains_key(k) implies map_of(t)[k] == m[k] by {
        let j = choose|j: int| 0 <= j < t.len() && #[trigger] t[j].0 == k;
        lemma_map_of_entry(t, j);
    }
    assert(map_of(t) =~= m);
}

pub proof fn lemma_push_entry(s: Seq<(Seq<char>, u64)>, w: Seq<char>, v: u64)
    requires
        distinct_words(s),
        !has_word(s, w),
    ensures
        distinct_words(s.push((w, v))),
        map_of(s.push((w, v))) == map_of(s).insert(w, v),
{
    let t = s.push((w, v));
    let m = map_of(s).insert(w, v);
    assert(forall|j: int| 0 <= j < s.len() ==> t[j] == s[j]);
    assert forall|a: int, b: int|
        0 <= a < t.len() && 0 <= b < t.len() && a != b implies #[trigger] t[a].0
        != #[trigger] t[b].0 by {
        if a < s.len() && b < s.len() {
        } else if a < s.len() {
            assert(s[a].0 == t[a].0);
        } else {
            assert(s[b].0 == t[b].0);
        }
    }
    assert forall|k: Seq<char>| has_word(t, k) <==> #[trigger] m.contains_key(k) by {
        if has_word(t, k) {
            let j = choose|j: int| 0 <= j < t.len() && #[trigger] t[j].0 == k;
            if j < s.len() {
                assert(s[j].0 == k);
            }
        }
        if map_of(s).contains_key(k) {
            let j = choose|j: int| 0 <= j < s.len() && #[trigger] s[j].0 == k;
            assert(t[j].0 == k);
        }
        if k == w {
            assert(t[s.len() as int].0 == k);
        }
    }
    assert forall|j: int| 0 <= j < t.len() implies m[#[trigger] t[j].0] == t[j].1 by {
        if j < s.len() {
            lemma_map_of_entry(s, j);
            assert(s[j].0 != w);
        }
    }
    lemma_map_of_ext(t, m);
}

proof fn lemma_update_entry(s: Seq<(Seq<char>, u64)>, i: int, v: u64)
    requires
        distinct_words(s),
        0 <= i < s.len(),
    ensures
        sorted_words(s) ==> sorted_words(s.update(i, (s[i].0, v))),
        distinct_words(s.update(i, (s[i].0, v))),
        map_of(s.update(i, (s[i].0, v))) == map_of(s).insert(s[i].0, v),
{
    let w = s[i].0;
    let t = s.update(i, (w, v));
    let m = map_of(s).insert(w, v);
    assert(forall|j: int| 0 <= j < s.len() ==> t[j].0 == s[j].0);
    if sorted_words(s) {
        assert forall|a: int, b: int| 0 <= a < b < t.len() implies lex_lt(
            #[trigger] t[a].0,
            #[trigger] t[b].0,
        ) by {
            assert(t[a].0 == s[a].0 && t[b].0 == s[b].0);
        }
    }
    assert forall|k: Seq<char>| has_word(t, k) <==> #[trigger] m.contains_key(k) by {
        if has_word(t, k) {
            let j = choose|j: int| 0 <= j < t.len() && #[trigger] t[j].0 == k;
            assert(s[j].0 == k);
        }
        if map_of(s).contains_key(k) {
            let j = choose|j: int| 0 <= j < s.len() && #[trigger] s[j].0 == k;
            assert(t[j].0 == k);
        }
        if k == w {
            assert(t[i].0 == k);
        }
    }
    assert forall|j: int| 0 <= j < t.len() implies m[#[trigger] t[j].0] == t[j].1 by {
        if j != i {
            lemma_map_of_entry(s, j);
        }
    }
    lemma_map_of_ext(t, m);
}

proof fn lemma_remove_entry(s: Seq<(Seq<char>, u64)>, i: int)
    requires
        distinct_words(s),
        0 <= i < s.len(),
    ensures
        sorted_words(s) ==> sorted_words(s.remove(i)),
        distinct_words(s.remove(i)),
        map_of(s.remove(i)) == map_of(s).remove(s[i].0),
{
    let w = s[i].0;
    let t = s.remove(i);
    let m = map_of(s).remove(w);
    assert(forall|j: int| 0 <= j < i ==> t[j] == s[j]);
    assert(forall|j: int| i <= j < t.len() ==> t[j] == s[j + 1]);
    if sorted_words(s) {
        assert forall|a: int, b: int| 0 <= a < b < t.len() implies lex_lt(
            #[trigger] t[a].0,
            #[trigger] t[b].0,
        ) by {
            let a2 = if a < i { a } else { a + 1 };
            let b2 = if b < i { b } else { b + 1 };
            assert(t[a] == s[a2] && t[b] == s[b2]);
        }
    }
    assert forall|a: int, b: int|
        0 <= a < t.len() && 0 <= b < t.len() && a != b implies #[trigger] t[a].0
        != #[trigger] t[b].0 by {
        let a2 = if a < i { a } else { a + 1 };
        let b2 = if b < i { b } else { b + 1 };
        assert(t[a] == s[a2] && t[b] == s[b2]);
    }
    assert forall|k: Seq<char>| has_word(t, k) <==> #[trigger] m.contains_key(k) by {
        if has_word(t, k) {
            let j = choose|j: int| 0 <= j < t.len() && #[trigger] t[j].0 == k;
            let j2 = if j < i { j } else { j + 1 };
            assert(s[j2].0 == k);
            assert(j2 != i);
        }
        if m.contains_key(k) {
            let j = choose|j: int| 0 <= j < s.len() && #[trigger] s[j].0 == k;
            assert(j != i);
            let j2 = if j < i { j } else { j - 1 };
            assert(t[j2].0 == k);
        }
    }
    assert forall|j: int| 0 <= j < t.len() implies m[#[trigger] t[j].0] == t[j].1 by {
        let j2 = if j < i { j } else { j + 1 };
        lemma_map_of_entry(s, j2);
        assert(j2 != i);
    }
    lemma_map_of_ext(t, m);
}

/// A word-to-count dictionary: each word is listed once, with its count, in ascending
/// codepoint-lexicographic order of the words, so that a lookup is a binary search.
pub struct FrequencyMap {
    entries: Vec<(String, u64)>,
}

impl View for FrequencyMap {
    type V = Map<Seq<char>, u64>;

    open spec fn view(&self) -> Map<Seq<char>, u64> {
        map_of(self.listing())
    }
}

impl FrequencyMap {
    /// The entries in storage order, each as a word and its count.
    pub closed spec fn listing(&self) -> Seq<(Seq<char>, u64)> {
        pairs(self.entries@)
    }

    /// Well-formed: the words are stored once each, in ascending order.
    pub open spec fn wf(&self) -> bool {
        sorted_words(self.listing()) && distinct_words(self.listing())
    }

    pub fn new() -> (r: FrequencyMap)
        ensures
            r.wf(),
            r@ == Map::<Seq<char>, u64>::empty(),
            r.listing() == Seq::<(Seq<char>, u64)>::empty(),
    {
        let r = FrequencyMap { entries: Vec::new() };
        assert(r.listing() =~= Seq::<(Seq<char>, u64)>::empty());
        assert(r@ =~= Map::<Seq<char>, u64>::empty());
        r
    }

    /// A dictionary that lists `entries` as they are; no word may occur twice.
    pub fn from_entries(entries: Vec<(String, u64)>) -> (r: FrequencyMap)
        requires
            sorted_words(pairs(entries@)),
        ensures
            r.wf(),
            r.listing() == pairs(entries@),
    {
        proof {
            lemma_sorted_distinct(pairs(entries@));
        }
        FrequencyMap { entries }
    }

    /// Number of distinct words.
    pub fn len(&self) -> (r: usize)
        ensures
            r == self.listing().len(),
            self.wf() ==> r == self@.len(),
    {
        proof {
            if self.wf() {
                lemma_map_of_len(self.listing());
            }
        }
        self.entries.len()
    }

    /// The word and count at position `i` of the listing.
    pub fn entry_at(&self, i: usize) -> (r: (&String, u64))
        requires
            i < self.listing().len(),
        ensures
            r.0@ == self.listing()[i as int].0,
            r.1 == self.listing()[i as int].1,
    {
        let e = &self.entries[i];
        (&e.0, e.1)
    }

    /// Where `w` stands in the listing: `Ok` with its position, or `Err` with the position
    /// where it would be inserted.
    fn search(&self, w: &String) -> (r: Result<usize, usize>)
        requires
            self.wf(),
        ensures
            match r {
                Ok(i) => i < self.listing().len() && self.listing()[i as int].0 == w@,
                Err(i) => i <= self.listing().len() && (forall|j: int|
                    0 <= j < i ==> lex_lt(#[trigger] self.listing()[j].0, w@)) && (forall|j: int|
                    i <= j < self.listing().len() ==> lex_lt(w@, #[trigger] self.listing()[j].0)),
            },
    {
        let ghost s = self.listing();
        let mut lo: usize = 0;
        let mut hi: usize = self.entries.len();
        while lo < hi
            invariant
                s == self.listing(),
                self.wf(),
                s.len() == self.entries.len(),
                lo <= hi <= s.len(),
                forall|j: int| 0 <= j < lo ==> lex_lt(#[trigger] s[j].0, w@),
                forall|j: int| hi <= j < s.len() ==> lex_lt(w@, #[trigger] s[j].0),
            decreases hi - lo,
        {
            let mid = lo + (hi - lo) / 2;
            let key = &self.entries[mid].0;
            assert(key@ == s[mid as int].0);
            if less_than(key, w) {
                assert forall|j: int| 0 <= j <= mid implies lex_lt(#[trigger] s[j].0, w@) by {
                    if j < mid {
                        lemma_lex_transitive(s[j].0, s[mid as int].0, w@);
                    }
                }
                lo = mid + 1;
            } else if *key == *w {
                return Ok(mid);
            } else {
                proof {
                    lemma_lex_total(key@, w@);
                }
                assert forall|j: int| mid <= j < s.len() implies lex_lt(w@, #[trigger] s[j].0) by {
                    if j > mid {
                        lemma_lex_transitive(w@, s[mid as int].0, s[j].0);
                    }
                }
                hi = mid;
            }
        }
        Err(lo)
    }

    /// Position of `w` in the listing, if it is present.
    pub fn position(&self, w: &String) -> (r: Option<usize>)
        requires
            self.wf(),
        ensures
            match r {
                Some(i) => i < self.listing().len() && self.listing()[i as int].0 == w@,
                None => !self@.contains_key(w@),
            },
    {
        match self.search(w) {
            Ok(i) => Some(i),
            Err(i) => {
                proof {
                    if self@.contains_key(w@) {
                        let j = choose|j: int|
                            0 <= j < self.listing().len() && #[trigger] self.listing()[j].0 == w@;
                        lemma_lex_irreflexive(w@);
                    }
                }
                None
            },
        }
    }

    pub fn contains_key(&self, w: &String) -> (r: bool)
        requires
            self.wf(),
        ensures
            r == self@.contains_key(w@),
    {
        match self.position(w) {
            Some(i) => {
                proof {
                    lemma_map_of_entry(self.listing(), i as int);
                }
                true
            },
            None => false,
        }
    }

    pub fn get(&self, w: &String) -> (r: Option<u64>)
        requires
            self.wf(),
        ensures
            r == (if self@.contains_key(w@) {
                Some(self@[w@])
            } else {
                None::<u64>
            }),
    {
        match self.position(w) {
            Some(i) => {
                proof {
                    lemma_map_of_entry(self.listing(), i as int);
                }
                Some(self.entries[i].1)
            },
            None => None,
        }
    }

    /// Sets the count of `w` to `v`, replacing any earlier count.
    pub fn insert(&mut self, w: String, v: u64)
        requires
            old(self).wf(),
        ensures
            final(self).wf(),
            final(self)@ == old(self)@.insert(w@, v),
    {
        match self.search(&w) {
            Ok(i) => {
                proof {
                    lemma_update_entry(self.listing(), i as int, v);
                }
                self.entries.set(i, (w, v));
                assert(self.listing() =~= old(self).listing().update(
                    i as int,
                    (old(self).listing()[i as int].0, v),
                ));
            },
            Err(i) => {
                proof {
                    lemma_insert_entry(self.listing(), i as int, w@, v);
                    lemma_sorted_distinct(self.listing().insert(i as int, (w@, v)));
                }
                self.entries.insert(i, (w, v));
                assert(self.listing() =~= old(self).listing().insert(i as int, (w@, v)));
            },
        }
    }

    /// Adds `v` to the count of `w` (absent counts as zero), stopping at the largest count.
    pub fn add_count(&mut self, w: String, v: u64)
        requires
            old(self).wf(),
        ensures
            final(self).wf(),
            final(self)@ == old(self)@.insert(w@, sat_add(count_in(old(self)@, w@), v)),
    {
        let cur = match self.get(&w) {
            Some(c) => c,
            None => 0,
        };
        self.insert(w, cur.saturating_add(v));
    }

    /// Deletes `w`; nothing happens when it is absent.
    pub fn remove(&mut self, w: &String) -> (r: Option<u64>)
        requires
            old(self).wf(),
        ensures
            final(self).wf(),
            final(self)@ == old(self)@.remove(w@),
            r == (if old(self)@.contains_key(w@) {
                Some(old(self)@[w@])
            } else {
                None::<u64>
            }),
    {
        match self.position(w) {
            Some(i) => {
                proof {
                    lemma_map_of_entry(self.listing(), i as int);
                    lemma_remove_entry(self.listing(), i as int);
                }
                let e = self.entries.remove(i);
                assert(self.listing() =~= old(self).listing().remove(i as int));
                Some(e.1)
            },
            None => {
                assert(self@ =~= old(self)@.remove(w@));
                None
            },
        }
    }

    /// A copy of every word, in listing order.
    pub fn words(&self) -> (r: Vec<String>)
        ensures
            r@.len() == self.listing().len(),
            forall|i: int| 0 <= i < r@.len() ==> #[trigger] r@[i]@ == self.listing()[i].0,
    {
        let mut r: Vec<String> = Vec::new();
        let mut i: usize = 0;
        while i < self.entries.len()
            invariant
                i <= self.entries.len(),
                self.listing().len() == self.entries.len(),
                r@.len() == i,
                forall|j: int| 0 <= j < i ==> #[trigger] r@[j]@ == self.listing()[j].0,
            decreases self.entries.len() - i,
        {
            r.push(self.entries[i].0.clone());
            i = i + 1;
        }
        r
    }

    /// A copy of every entry, in listing order.
    pub fn items(&self) -> (r: Vec<(String, u64)>)
        ensures
            r@.len() == self.listing().len(),
            forall|i: int|
                0 <= i < r@.len() ==> (#[trigger] r@[i]).0@ == self.listing()[i].0 && r@[i].1
                    == self.listing()[i].1,
            pairs(r@) == self.listing(),
    {
        let mut r: Vec<(String, u64)> = Vec::new();
        let mut i: usize = 0;
        while i < self.entries.len()
            invariant
                i <= self.entries.len(),
                self.listing().len() == self.entries.len(),
                r@.len() == i,
                forall|j: int|
                    0 <= j < i ==> (#[trigger] r@[j]).0@ == self.listing()[j].0 && r@[j].1
                        == self.listing()[j].1,
            decreases self.entries.len() - i,
        {
            r.push((self.entries[i].0.clone(), self.entries[i].1));
            i = i + 1;
        }
        assert(pairs(r@) =~= self.listing());
        r
    }
}

} // verus!
