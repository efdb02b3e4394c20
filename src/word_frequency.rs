use vstd::prelude::*;
use crate::cleaner::with_added;
use crate::freq_map::{count_in, lemma_map_of_entry, map_of, sat_add, FrequencyMap};
use crate::snapshot::{from_snapshot, parsed_snapshot, SnapshotError};
use crate::text::{char_in, chars_of, lemma_push_contains, views};
use crate::tokens::{split_into_words, split_words};

verus! {

/// The lower-case form of a string, as Unicode defines it.
pub uninterp spec fn lower_of(s: Seq<char>) -> Seq<char>;

/// Relies on `str::to_lowercase` of std: the result depends on the characters alone.
#[verifier::external_body]
fn lowercase(s: &str) -> (r: String)
    ensures
        r@ == lower_of(s@),
{
    s.to_lowercase()
}

/// Sum of the counts of a listing.
pub open spec fn sum_counts(s: Seq<(Seq<char>, u64)>) -> int
    decreases s.len(),
{
    if s.len() == 0 {
        0
    } else {
        sum_counts(s.drop_last()) + s.last().1
    }
}

/// Length in characters of the longest word of a listing, zero when it is empty.
pub open spec fn longest(s: Seq<(Seq<char>, u64)>) -> nat
    decreases s.len(),
{
    if s.len() == 0 {
        0
    } else if longest(s.drop_last()) >= s.last().0.len() {
        longest(s.drop_last())
    } else {
        s.last().0.len()
    }
}

/// Every character that occurs in some word of a listing.
pub open spec fn letters_of(s: Seq<(Seq<char>, u64)>) -> Set<char>
    decreases s.len(),
{
    if s.len() == 0 {
        Set::empty()
    } else {
        letters_of(s.drop_last()).union(s.last().0.to_set())
    }
}

/// Adds one to the count of each word of `ws` in turn.
pub open spec fn counted(m: Map<Seq<char>, u64>, ws: Seq<Seq<char>>) -> Map<Seq<char>, u64>
    decreases ws.len(),
{
    if ws.len() == 0 {
        m
    } else {
        let before = counted(m, ws.drop_last());
        before.insert(ws.last(), sat_add(count_in(before, ws.last()), 1))
    }
}

proof fn lemma_sum_bound(s: Seq<(Seq<char>, u64)>)
    ensures
        0 <= sum_counts(s) <= s.len() * (u64::MAX as int),
    decreases s.len(),
{
    if s.len() > 0 {
        lemma_sum_bound(s.drop_last());
    }
}

/// A word-frequency dictionary that keeps its totals in step with its contents.
pub struct WordFrequency {
    dictionary: FrequencyMap,
    total_words: u128,
    unique_words: usize,
    letters: Vec<char>,
    case_sensitive: bool,
    longest_word_length: usize,
}

impl View for WordFrequency {
    type V = Map<Seq<char>, u64>;

    open spec fn view(&self) -> Map<Seq<char>, u64> {
        map_of(self.entries())
    }
}

impl WordFrequency {
    /// The dictionary's entries, each word once.
    pub closed spec fn entries(&self) -> Seq<(Seq<char>, u64)> {
        self.dictionary.listing()
    }

    pub closed spec fn folds_case(&self) -> bool {
        !self.case_sensitive
    }

    /// The form under which a word is stored and looked up.
    pub open spec fn norm(&self, w: Seq<char>) -> Seq<char> {
        if self.folds_case() {
            lower_of(w)
        } else {
            w
        }
    }

    pub open spec fn norm_all(&self, ws: Seq<Seq<char>>) -> Seq<Seq<char>> {
        ws.map_values(|w: Seq<char>| self.norm(w))
    }

    /// The dictionary is well formed and every total agrees with it.
    pub closed spec fn inv(&self) -> bool {
        &&& self.dictionary.wf()
        &&& self.total_words == sum_counts(self.entries())
        &&& self.unique_words == self.entries().len()
        &&& self.longest_word_length == longest(self.entries())
        &&& self.letters@.to_set() == letters_of(self.entries())
        &&& self.letters@.no_duplicates()
    }

    pub fn new(case_sensitive: bool) -> (r: WordFrequency)
        ensures
            r.inv(),
            r@ == Map::<Seq<char>, u64>::empty(),
            r.entries().len() == 0,
            r.folds_case() == !case_sensitive,
    {
        let r = WordFrequency {
            dictionary: FrequencyMap::new(),
            total_words: 0,
            unique_words: 0,
            letters: Vec::new(),
            case_sensitive,
            longest_word_length: 0,
        };
        assert(r.letters@.to_set() =~= Set::<char>::empty());
        r
    }

    fn normalize(&self, word: &str) -> (r: String)
        ensures
            r@ == self.norm(word@),
    {
        if self.case_sensitive {
            word.to_string()
        } else {
            lowercase(word)
        }
    }

    /// Recomputes every total from the dictionary, which it leaves as it is. Afterwards the
    /// invariant holds, so `total_words`, `unique_words`, `longest_word_length` and `letters`
    /// give the sum of the counts, the number of words, the largest word length in
    /// characters and the characters used.
    pub fn update_dictionary(&mut self)
        requires
            crate::freq_map::sorted_words(old(self).entries()),
            crate::freq_map::distinct_words(old(self).entries()),
        ensures
            final(self).inv(),
            final(self).entries() == old(self).entries(),
            final(self)@ == old(self)@,
            final(self).folds_case() == old(self).folds_case(),
    {
        let n = self.dictionary.len();
        let ghost s = self.dictionary.listing();
        let mut total: u128 = 0;
        let mut long: usize = 0;
        let mut letters: Vec<char> = Vec::new();
        let mut i: usize = 0;
        while i < n
            invariant
                s == self.dictionary.listing(),
                n == s.len(),
                i <= n,
                total == sum_counts(s.subrange(0, i as int)),
                long == longest(s.subrange(0, i as int)),
                letters@.to_set() == letters_of(s.subrange(0, i as int)),
                letters@.no_duplicates(),
            decreases n - i,
        {
            let (w, v) = self.dictionary.entry_at(i);
            let ghost pre = s.subrange(0, i as int);
            let ghost next = s.subrange(0, i + 1);
            assert(next.drop_last() =~= pre);
            assert(next.last() == s[i as int]);
            proof {
                lemma_sum_bound(pre);
                assert(pre.len() * (u64::MAX as int) + (u64::MAX as int) <= u128::MAX) by (
                nonlinear_arith)
                    requires
                        pre.len() <= usize::MAX,
                ;
            }
            total = total + v as u128;
            let len = w.as_str().unicode_len();
            if len > long {
                long = len;
            }
            let cs = chars_of(w.as_str());
            let mut j: usize = 0;
            while j < cs.len()
                invariant
                    j <= cs.len(),
                    cs@ == s[i as int].0,
                    letters@.to_set() == letters_of(pre).union(cs@.subrange(0, j as int).to_set()),
                    letters@.no_duplicates(),
                decreases cs.len() - j,
            {
                let c = cs[j];
                let ghost sub = cs@.subrange(0, j as int);
                assert(cs@.subrange(0, j + 1) =~= sub.push(c));
                proof {
                    lemma_push_contains(sub, c);
                    assert(cs@.subrange(0, j + 1).to_set() =~= sub.to_set().insert(c));
                }
                if !char_in(c, &letters) {
                    let ghost old_letters = letters@;
                    proof {
                        lemma_push_contains(old_letters, c);
                    }
                    letters.push(c);
                    assert(letters@.to_set() =~= old_letters.to_set().insert(c));
                    assert(letters@.to_set() =~= letters_of(pre).union(
                        cs@.subrange(0, j + 1).to_set(),
                    ));
                } else {
                    assert(letters@.to_set().contains(c));
                    assert(letters@.to_set() =~= letters_of(pre).union(
                        cs@.subrange(0, j + 1).to_set(),
                    ));
                }
                j = j + 1;
            }
            assert(cs@.subrange(0, cs.len() as int) =~= cs@);
            i = i + 1;
        }
        assert(s.subrange(0, n as int) =~= s);
        self.total_words = total;
        self.unique_words = n;
        self.longest_word_length = long;
        self.letters = letters;
    }

    pub fn contains(&self, key: &str) -> (r: bool)
        requires
            self.inv(),
        ensures
            r == self@.contains_key(self.norm(key@)),
    {
        let k = self.normalize(key);
        self.dictionary.contains_key(&k)
    }

    pub fn get(&self, key: &str) -> (r: Option<u64>)
        requires
            self.inv(),
        ensures
            r == (if self@.contains_key(self.norm(key@)) {
                Some(self@[self.norm(key@)])
            } else {
                None::<u64>
            }),
    {
        let k = self.normalize(key);
        self.dictionary.get(&k)
    }

    /// Removes `key` and returns its count; when it is absent, returns `default`, which the
    /// caller must then supply.
    pub fn pop(&mut self, key: &str, default: Option<u64>) -> (r: u64)
        requires
            old(self).inv(),
            default.is_some() || old(self)@.contains_key(old(self).norm(key@)),
        ensures
            final(self).inv(),
            final(self).folds_case() == old(self).folds_case(),
            final(self)@ == old(self)@.remove(old(self).norm(key@)),
            r == (if old(self)@.contains_key(old(self).norm(key@)) {
                old(self)@[old(self).norm(key@)]
            } else {
                default->0
            }),
    {
        let k = self.normalize(key);
        let found = self.dictionary.remove(&k);
        self.update_dictionary();
        match found {
            Some(v) => v,
            None => match default {
                Some(d) => d,
                None => 0,
            },
        }
    }

    /// Removes `word` if it is present.
    pub fn remove(&mut self, word: &str)
        requires
            old(self).inv(),
        ensures
            final(self).inv(),
            final(self).folds_case() == old(self).folds_case(),
            final(self)@ == old(self)@.remove(old(self).norm(word@)),
    {
        self.pop(word, Some(0));
    }

    /// Removes each of `words` that is present.
    pub fn remove_words(&mut self, words: &Vec<String>)
        requires
            old(self).inv(),
        ensures
            final(self).inv(),
            final(self).folds_case() == old(self).folds_case(),
            final(self)@ == crate::cleaner::without(old(self)@, old(self).norm_all(views(words@))),
    {
        let ghost start = self@;
        let mut i: usize = 0;
        while i < words.len()
            invariant
                i <= words.len(),
                self.dictionary.wf(),
                self.case_sensitive == old(self).case_sensitive,
                self@ == crate::cleaner::without(
                    start,
                    old(self).norm_all(views(words@.subrange(0, i as int))),
                ),
            decreases words.len() - i,
        {
            let k = self.normalize(words[i].as_str());
            self.dictionary.remove(&k);
            proof {
                let a = old(self).norm_all(views(words@.subrange(0, i as int)));
                let b = old(self).norm_all(views(words@.subrange(0, i + 1)));
                assert(b =~= a.push(k@));
                lemma_push_contains(a, k@);
                assert(self@ =~= crate::cleaner::without(start, b));
            }
            i = i + 1;
        }
        assert(words@.subrange(0, words.len() as int) =~= words@);
        self.update_dictionary();
    }

    /// Removes every entry whose count is at most `threshold`.
    pub fn remove_by_threshold(&mut self, threshold: u64)
        requires
            old(self).inv(),
        ensures
            final(self).inv(),
            final(self).folds_case() == old(self).folds_case(),
            final(self)@ == old(self)@.restrict(
                Set::new(|w: Seq<char>| old(self)@.contains_key(w) && old(self)@[w] > threshold),
            ),
    {
        let ghost start = self@;
        let ghost s = self.dictionary.listing();
        let n = self.dictionary.len();
        let mut doomed: Vec<String> = Vec::new();
        let mut i: usize = 0;
        while i < n
            invariant
                s == self.dictionary.listing(),
                self.dictionary.wf(),
                start == self@,
                n == s.len(),
                i <= n,
                forall|w: Seq<char>| #[trigger]
                    views(doomed@).contains(w) ==> start.contains_key(w) && start[w]
                        <= threshold,
                forall|j: int|
                    0 <= j < i && #[trigger] s[j].1 <= threshold ==> views(doomed@).contains(
                        s[j].0,
                    ),
            decreases n - i,
        {
            let (w, v) = self.dictionary.entry_at(i);
            proof {
                lemma_map_of_entry(s, i as int);
            }
            if v <= threshold {
                let ghost before = views(doomed@);
                doomed.push(w.clone());
                proof {
                    assert(views(doomed@) =~= before.push(w@));
                    lemma_push_contains(before, w@);
                }
            }
            i = i + 1;
        }
        let ghost gone = views(doomed@);
        let mut k: usize = 0;
        while k < doomed.len()
            invariant
                k <= doomed.len(),
                gone == views(doomed@),
                self.dictionary.wf(),
                self.case_sensitive == old(self).case_sensitive,
                self@ == crate::cleaner::without(start, views(doomed@.subrange(0, k as int))),
            decreases doomed.len() - k,
        {
            self.dictionary.remove(&doomed[k]);
            proof {
                let a = views(doomed@.subrange(0, k as int));
                let b = views(doomed@.subrange(0, k + 1));
                assert(b =~= a.push(doomed@[k as int]@));
                lemma_push_contains(a, doomed@[k as int]@);
                assert(self@ =~= crate::cleaner::without(start, b));
            }
            k = k + 1;
        }
        assert(doomed@.subrange(0, doomed.len() as int) =~= doomed@);
        assert forall|w: Seq<char>| #[trigger] start.contains_key(w) && start[w] <= threshold implies gone.contains(w) by {
            let j = choose|j: int| 0 <= j < s.len() && #[trigger] s[j].0 == w;
            lemma_map_of_entry(s, j);
        }
        assert(self@ =~= start.restrict(
            Set::new(|w: Seq<char>| start.contains_key(w) && start[w] > threshold),
        ));
        self.update_dictionary();
    }

    /// Adds `val` to the count of `word` (an absent word counts as zero); a count stops at
    /// the largest `u64`.
    pub fn add(&mut self, word: &str, val: u64)
        requires
            old(self).inv(),
        ensures
            final(self).inv(),
            final(self).folds_case() == old(self).folds_case(),
            final(self)@ == old(self)@.insert(
                old(self).norm(word@),
                sat_add(count_in(old(self)@, old(self).norm(word@)), val),
            ),
    {
        let k = self.normalize(word);
        self.dictionary.add_count(k, val);
        self.update_dictionary();
    }

    /// Merges `data` into the dictionary; on a shared word the count of `data` wins.
    pub fn load_json(&mut self, data: &FrequencyMap)
        requires
            old(self).inv(),
            data.wf(),
        ensures
            final(self).inv(),
            final(self).folds_case() == old(self).folds_case(),
            final(self)@ == old(self)@.union_prefer_right(data@),
    {
        let ghost start = self@;
        let ghost d = data.listing();
        let n = data.len();
        let mut i: usize = 0;
        while i < n
            invariant
                d == data.listing(),
                data.wf(),
                n == d.len(),
                i <= n,
                self.dictionary.wf(),
                self.case_sensitive == old(self).case_sensitive,
                self@ == start.union_prefer_right(map_of(d.subrange(0, i as int))),
                crate::freq_map::distinct_words(d.subrange(0, i as int)),
            decreases n - i,
        {
            let (w, v) = data.entry_at(i);
            let ghost pre = d.subrange(0, i as int);
            proof {
                assert(d.subrange(0, i + 1) =~= pre.push((w@, v)));
                assert(!crate::freq_map::has_word(pre, w@)) by {
                    if crate::freq_map::has_word(pre, w@) {
                        let j = choose|j: int| 0 <= j < pre.len() && #[trigger] pre[j].0 == w@;
                        assert(d[j].0 == d[i as int].0);
                    }
                }
                crate::freq_map::lemma_push_entry(pre, w@, v);
            }
            self.dictionary.insert(w.clone(), v);
            assert(self@ =~= start.union_prefer_right(map_of(d.subrange(0, i + 1))));
            i = i + 1;
        }
        assert(d.subrange(0, n as int) =~= d);
        self.update_dictionary();
    }

    /// Adds each of `words` that is absent, with count zero; present words keep their count.
    pub fn load_words(&mut self, words: &Vec<String>)
        requires
            old(self).inv(),
        ensures
            final(self).inv(),
            final(self).folds_case() == old(self).folds_case(),
            final(self)@ == with_added(old(self)@, old(self).norm_all(views(words@)), 0),
    {
        let ghost start = self@;
        let mut i: usize = 0;
        while i < words.len()
            invariant
                i <= words.len(),
                self.dictionary.wf(),
                self.case_sensitive == old(self).case_sensitive,
                self@ == with_added(start, old(self).norm_all(views(words@.subrange(0, i as int))), 0),
            decreases words.len() - i,
        {
            let k = self.normalize(words[i].as_str());
            if !self.dictionary.contains_key(&k) {
                self.dictionary.insert(k.clone(), 0);
            }
            proof {
                let a = old(self).norm_all(views(words@.subrange(0, i as int)));
                let b = old(self).norm_all(views(words@.subrange(0, i + 1)));
                assert(b =~= a.push(k@));
                lemma_push_contains(a, k@);
                assert(self@ =~= with_added(start, b, 0));
            }
            i = i + 1;
        }
        assert(words@.subrange(0, words.len() as int) =~= words@);
        self.update_dictionary();
    }

    /// Counts each of `tokens`, in its stored form, once.
    pub fn load_tokens(&mut self, tokens: &Vec<String>)
        requires
            old(self).inv(),
        ensures
            final(self).inv(),
            final(self).folds_case() == old(self).folds_case(),
            final(self)@ == counted(old(self)@, old(self).norm_all(views(tokens@))),
    {
        let ghost start = self@;
        let mut i: usize = 0;
        while i < tokens.len()
            invariant
                i <= tokens.len(),
                self.dictionary.wf(),
                self.case_sensitive == old(self).case_sensitive,
                self@ == counted(start, old(self).norm_all(views(tokens@.subrange(0, i as int)))),
            decreases tokens.len() - i,
        {
            let k = self.normalize(tokens[i].as_str());
            proof {
                let a = old(self).norm_all(views(tokens@.subrange(0, i as int)));
                let b = old(self).norm_all(views(tokens@.subrange(0, i + 1)));
                assert(b.drop_last() =~= a);
                assert(b.last() == k@);
            }
            self.dictionary.add_count(k, 1);
            i = i + 1;
        }
        assert(tokens@.subrange(0, tokens.len() as int) =~= tokens@);
        self.update_dictionary();
    }

    /// Splits `text` with the default tokenizer and puts each word in its stored form.
    pub fn tokenize(&self, text: &str) -> (r: Vec<String>)
        ensures
            views(r@) == self.norm_all(split_words(text@)),
    {
        let words = split_into_words(text);
        let mut r: Vec<String> = Vec::new();
        let mut i: usize = 0;
        while i < words.len()
            invariant
                i <= words.len(),
                views(words@) == split_words(text@),
                views(r@) == self.norm_all(views(words@.subrange(0, i as int))),
            decreases words.len() - i,
        {
            let k = self.normalize(words[i].as_str());
            let ghost before = views(r@);
            r.push(k);
            proof {
                let a = views(words@.subrange(0, i as int));
                let b = views(words@.subrange(0, i + 1));
                assert(b =~= a.push(words@[i as int]@));
                assert(self.norm_all(b) =~= self.norm_all(a).push(k@));
                assert(views(r@) =~= before.push(k@));
            }
            i = i + 1;
        }
        assert(words@.subrange(0, words.len() as int) =~= words@);
        r
    }

    /// Counts every word of `text` that the default tokenizer finds, in its stored form.
    pub fn load_text(&mut self, text: &str)
        requires
            old(self).inv(),
        ensures
            final(self).inv(),
            final(self).folds_case() == old(self).folds_case(),
            final(self)@ == counted(old(self)@, old(self).norm_all(split_words(text@))),
    {
        let words = split_into_words(text);
        self.load_tokens(&words);
    }

    /// Merges a snapshot text into the dictionary, lower-casing the whole text first unless
    /// the dictionary is case sensitive; on a shared word the snapshot's count wins. A text
    /// that is no snapshot leaves the dictionary as it was.
    pub fn load_dictionary_text(&mut self, text: &str) -> (r: Result<(), SnapshotError>)
        requires
            old(self).inv(),
        ensures
            final(self).inv(),
            final(self).folds_case() == old(self).folds_case(),
            r is Ok <==> parsed_snapshot(old(self).norm(text@)) is Some,
            r is Ok ==> final(self)@ == old(self)@.union_prefer_right(
                parsed_snapshot(old(self).norm(text@))->0,
            ),
            r is Err ==> final(self)@ == old(self)@ && r == Err::<(), SnapshotError>(
                SnapshotError::Malformed,
            ),
    {
        let t = self.normalize(text);
        match from_snapshot(t.as_str()) {
            Ok(m) => {
                self.load_json(&m);
                Ok(())
            },
            Err(e) => Err(e),
        }
    }

    pub fn dictionary(&self) -> (r: &FrequencyMap)
        ensures
            r@ == self@,
            self.inv() ==> r.wf(),
            r.listing() == self.entries(),
    {
        &self.dictionary
    }

    /// Sum of all counts.
    pub fn total_words(&self) -> (r: u128)
        requires
            self.inv(),
        ensures
            r == sum_counts(self.entries()),
    {
        self.total_words
    }

    /// Number of distinct words.
    pub fn unique_words(&self) -> (r: usize)
        requires
            self.inv(),
        ensures
            r == self.entries().len(),
            r == self@.len(),
    {
        proof {
            crate::freq_map::lemma_map_of_len(self.entries());
        }
        self.unique_words
    }

    /// Length in characters of the longest word.
    pub fn longest_word_length(&self) -> (r: usize)
        requires
            self.inv(),
        ensures
            r == longest(self.entries()),
    {
        self.longest_word_length
    }

    /// Every character used by some word, each once.
    pub fn letters(&self) -> (r: Vec<char>)
        requires
            self.inv(),
        ensures
            r@.to_set() == letters_of(self.entries()),
            r@.no_duplicates(),
    {
        let mut r: Vec<char> = Vec::new();
        let mut i: usize = 0;
        while i < self.letters.len()
            invariant
                i <= self.letters.len(),
                r@ == self.letters@.subrange(0, i as int),
            decreases self.letters.len() - i,
        {
            r.push(self.letters[i]);
            i = i + 1;
            assert(r@ =~= self.letters@.subrange(0, i as int));
        }
        assert(r@ =~= self.letters@);
        r
    }

    /// Every word, once each.
    pub fn keys(&self) -> (r: Vec<String>)
        ensures
            views(r@) == self.entries().map_values(|e: (Seq<char>, u64)| e.0),
    {
        let r = self.dictionary.words();
        assert(views(r@) =~= self.entries().map_values(|e: (Seq<char>, u64)| e.0));
        r
    }

    /// Every word, once each; the same as `keys`.
    pub fn words(&self) -> (r: Vec<String>)
        ensures
            views(r@) == self.entries().map_values(|e: (Seq<char>, u64)| e.0),
    {
        self.keys()
    }

    /// Every word, once each; the same as `keys`.
    pub fn iter(&self) -> (r: Vec<String>)
        ensures
            views(r@) == self.entries().map_values(|e: (Seq<char>, u64)| e.0),
    {
        self.keys()
    }

    /// Every word with its count.
    pub fn items(&self) -> (r: Vec<(String, u64)>)
        ensures
            r@.len() == self.entries().len(),
            forall|i: int|
                0 <= i < r@.len() ==> (#[trigger] r@[i]).0@ == self.entries()[i].0 && r@[i].1
                    == self.entries()[i].1,
    {
        self.dictionary.items()
    }
}

} // verus!
