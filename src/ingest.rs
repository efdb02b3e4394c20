use vstd::prelude::*;
use crate::freq_map::{count_in, sat_add, FrequencyMap};
use crate::text::views;
use crate::tokens::{all_alphabetic, is_all_alpha, split_into_words, split_words};

verus! {

/// The English Snowball stem of a word.
pub uninterp spec fn english_stem(w: Seq<char>) -> Seq<char>;

/// Relies on rust_stemmers' English Snowball stemmer (`Stemmer::create` with
/// `Algorithm::English`, then `Stemmer::stem`): the stem depends on the word alone.
#[verifier::external_body]
fn stem_english(w: &str) -> (r: String)
    ensures
        r@ == english_stem(w@),
{
    rust_stemmers::Stemmer::create(rust_stemmers::Algorithm::English).stem(w).into_owned()
}

/// The English Snowball stem of `w`.
pub fn stem(w: &str) -> (r: String)
    ensures
        r@ == english_stem(w@),
{
    stem_english(w)
}

/// A token is counted when all its characters are alphabetic and its stem is not empty.
pub open spec fn keeps_token(t: Seq<char>) -> bool {
    all_alphabetic(t) && english_stem(t).len() > 0
}

/// `m` after counting, in turn, each token of `ts` that is kept.
pub open spec fn ingested(m: Map<Seq<char>, u64>, ts: Seq<Seq<char>>) -> Map<Seq<char>, u64>
    decreases ts.len(),
{
    if ts.len() == 0 {
        m
    } else {
        let before = ingested(m, ts.drop_last());
        if keeps_token(ts.last()) {
            before.insert(ts.last(), sat_add(count_in(before, ts.last()), 1))
        } else {
            before
        }
    }
}

/// Counts each kept token of one line into `raw`, as the tokenizer wrote it.
pub fn count_tokens(raw: &mut FrequencyMap, tokens: &Vec<String>)
    requires
        old(raw).wf(),
    ensures
        final(raw).wf(),
        final(raw)@ == ingested(old(raw)@, views(tokens@)),
{
    let ghost start = raw@;
    let mut i: usize = 0;
    while i < tokens.len()
        invariant
            i <= tokens.len(),
            raw.wf(),
            raw@ == ingested(start, views(tokens@.subrange(0, i as int))),
        decreases tokens.len() - i,
    {
        let t = &tokens[i];
        proof {
            let a = views(tokens@.subrange(0, i as int));
            let b = views(tokens@.subrange(0, i + 1));
            assert(b.drop_last() =~= a);
            assert(b.last() == t@);
        }
        if is_all_alpha(t.as_str()) {
            let st = stem(t.as_str());
            if st.unicode_len() > 0 {
                raw.add_count(t.clone(), 1);
            }
        }
        i = i + 1;
    }
    assert(tokens@.subrange(0, tokens.len() as int) =~= tokens@);
}

/// Splits one corpus line with the default tokenizer and counts its kept tokens into `raw`.
pub fn count_line(raw: &mut FrequencyMap, line: &str)
    requires
        old(raw).wf(),
    ensures
        final(raw).wf(),
        final(raw)@ == ingested(old(raw)@, split_words(line@)),
{
    let tokens = split_into_words(line);
    count_tokens(raw, &tokens);
}

} // verus!
