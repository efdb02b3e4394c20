use vstd::prelude::*;
use crate::freq_map::{lemma_map_of_entry, FrequencyMap};
use crate::profile::{
    is_latvian, latvian_profile, pattern_hits, prefix_rule_hits, rejected, rejected_at,
    LanguageProfile, Pattern, PrefixKind, PrefixRule,
};
use crate::text::{
    chars_of, count_of, does_meet, has_part, has_prefix, has_suffix, is_within,
    lemma_push_contains, trim, trimmed_all, utf8_len_of, views,
};

verus! {

/// The entries of `raw` that the profile keeps, with `floor` as frequency floor.
pub open spec fn filtered_at(raw: Map<Seq<char>, u64>, p: LanguageProfile, floor: u64) -> Map<
    Seq<char>,
    u64,
> {
    Map::new(|w: Seq<char>| raw.contains_key(w) && !rejected_at(p, floor, w, raw[w]), |w| raw[w])
}

/// The entries of `raw` that the profile keeps.
pub open spec fn filtered(raw: Map<Seq<char>, u64>, p: LanguageProfile) -> Map<Seq<char>, u64> {
    filtered_at(raw, p, p.min_frequency)
}

/// `m` without the words of `exclude`.
pub open spec fn without(m: Map<Seq<char>, u64>, exclude: Seq<Seq<char>>) -> Map<Seq<char>, u64> {
    Map::new(|w: Seq<char>| m.contains_key(w) && !exclude.contains(w), |w| m[w])
}

/// `m` with each word of `additions` that it lacks added at count `floor`.
pub open spec fn with_added(m: Map<Seq<char>, u64>, additions: Seq<Seq<char>>, floor: u64) -> Map<
    Seq<char>,
    u64,
> {
    Map::new(
        |w: Seq<char>| m.contains_key(w) || additions.contains(w),
        |w| if m.contains_key(w) {
            m[w]
        } else {
            floor
        },
    )
}

/// The cleaned dictionary: filter by the profile, drop excluded words, add the missing additions.
pub open spec fn cleaned(
    raw: Map<Seq<char>, u64>,
    p: LanguageProfile,
    exclude: Seq<Seq<char>>,
    additions: Seq<Seq<char>>,
) -> Map<Seq<char>, u64> {
    with_added(without(filtered(raw, p), exclude), additions, p.min_frequency)
}

/// The words of `raw` that the profile drops when its floor is `floor`.
pub open spec fn dropped_at(raw: Map<Seq<char>, u64>, p: LanguageProfile, floor: u64) -> Set<
    Seq<char>,
> {
    Set::new(|w: Seq<char>| raw.contains_key(w) && rejected_at(p, floor, w, raw[w]))
}

fn is_allowed(w: &String, allowed: &Vec<String>) -> (r: bool)
    ensures
        r == exists|i: int| 0 <= i < allowed@.len() && (#[trigger] allowed@[i])@ == w@,
{
    let mut i: usize = 0;
    while i < allowed.len()
        invariant
            i <= allowed.len(),
            forall|j: int| 0 <= j < i ==> (#[trigger] allowed@[j])@ != w@,
        decreases allowed.len() - i,
    {
        if allowed[i] == *w {
            return true;
        }
        i = i + 1;
    }
    false
}

/// Whether the word `w`, whose characters are `cs`, has the shape of `p`.
pub fn pattern_matches(p: &Pattern, w: &String, cs: &Vec<char>) -> (r: bool)
    requires
        cs@ == w@,
    ensures
        r == pattern_hits(*p, w@),
{
    match p {
        Pattern::TooMany { c, limit } => count_of(cs, *c) > *limit,
        Pattern::Holds { part } => has_part(cs, &chars_of(part.as_str())),
        Pattern::Leading { prefix, allowed } => {
            has_prefix(cs, &chars_of(prefix.as_str())) && !is_allowed(w, allowed)
        },
        Pattern::Trailing { suffix } => has_suffix(cs, &chars_of(suffix.as_str())),
        Pattern::Short { limit } => utf8_len_of(cs) <= *limit as u128,
    }
}

/// Whether the prefix rule rejects `w`, whose characters are `cs`, seen with count `v`.
pub fn prefix_rule_matches(rule: &PrefixRule, w: &String, cs: &Vec<char>, v: u64) -> (r: bool)
    requires
        cs@ == w@,
    ensures
        r == prefix_rule_hits(*rule, w@, v),
{
    if !has_prefix(cs, &chars_of(rule.prefix.as_str())) {
        return false;
    }
    match rule.kind {
        PrefixKind::ExactOnly => !(rule.prefix == *w),
        PrefixKind::MinCount(t) => v < t,
    }
}

/// Whether the profile drops the word `w` seen with count `v`.
pub fn is_rejected(p: &LanguageProfile, w: &String, v: u64) -> (r: bool)
    ensures
        r == rejected(*p, w@, v),
{
    let cs = chars_of(w.as_str());
    if !is_within(&cs, &p.alphabet) {
        return true;
    }
    match &p.vowels {
        Some(vs) => {
            if !does_meet(&cs, vs) {
                return true;
            }
        },
        None => {},
    }
    let mut i: usize = 0;
    while i < p.patterns.len()
        invariant
            i <= p.patterns.len(),
            cs@ == w@,
            forall|j: int| 0 <= j < i ==> !pattern_hits(#[trigger] p.patterns@[j], w@),
        decreases p.patterns.len() - i,
    {
        if pattern_matches(&p.patterns[i], w, &cs) {
            return true;
        }
        i = i + 1;
    }
    let mut k: usize = 0;
    while k < p.prefix_rules.len()
        invariant
            k <= p.prefix_rules.len(),
            cs@ == w@,
            forall|j: int| 0 <= j < k ==> !prefix_rule_hits(#[trigger] p.prefix_rules@[j], w@, v),
        decreases p.prefix_rules.len() - k,
    {
        if prefix_rule_matches(&p.prefix_rules[k], w, &cs, v) {
            return true;
        }
        k = k + 1;
    }
    v <= p.min_frequency
}

/// The entries of `raw` that the profile keeps, as a new dictionary.
pub fn filter_words(raw: &FrequencyMap, p: &LanguageProfile) -> (r: FrequencyMap)
    requires
        raw.wf(),
    ensures
        r.wf(),
        r@ == filtered(raw@, *p),
{
    let mut r = FrequencyMap::new();
    let n = raw.len();
    let mut i: usize = 0;
    while i < n
        invariant
            raw.wf(),
            n == raw.listing().len(),
            i <= n,
            r.wf(),
            forall|w: Seq<char>| #[trigger]
                r@.contains_key(w) ==> filtered(raw@, *p).contains_key(w) && r@[w] == raw@[w]
                    && exists|j: int| 0 <= j < i && #[trigger] raw.listing()[j].0 == w,
            forall|j: int|
                0 <= j < i && !rejected(*p, #[trigger] raw.listing()[j].0, raw.listing()[j].1)
                    ==> r@.contains_key(raw.listing()[j].0),
        decreases n - i,
    {
        let (w, v) = raw.entry_at(i);
        proof {
            lemma_map_of_entry(raw.listing(), i as int);
        }
        if !is_rejected(p, w, v) {
            r.insert(w.clone(), v);
        }
        i = i + 1;
    }
    assert forall|w: Seq<char>| #[trigger]
        filtered(raw@, *p).contains_key(w) implies r@.contains_key(w) by {
        let j = choose|j: int| 0 <= j < raw.listing().len() && #[trigger] raw.listing()[j].0 == w;
        lemma_map_of_entry(raw.listing(), j);
    }
    assert(r@ =~= filtered(raw@, *p));
    r
}

/// Removes every word of `exclude` from `m`.
pub fn remove_excluded(m: &mut FrequencyMap, exclude: &Vec<String>)
    requires
        old(m).wf(),
    ensures
        final(m).wf(),
        final(m)@ == without(old(m)@, views(exclude@)),
{
    let ghost start = m@;
    let mut i: usize = 0;
    while i < exclude.len()
        invariant
            i <= exclude.len(),
            m.wf(),
            m@ == without(start, views(exclude@.subrange(0, i as int))),
        decreases exclude.len() - i,
    {
        m.remove(&exclude[i]);
        proof {
            let a = views(exclude@.subrange(0, i as int));
            let b = views(exclude@.subrange(0, i + 1));
            assert(b =~= a.push(exclude@[i as int]@));
            lemma_push_contains(a, exclude@[i as int]@);
            assert(m@ =~= without(start, b));
        }
        i = i + 1;
    }
    assert(exclude@.subrange(0, exclude.len() as int) =~= exclude@);
}

/// The words of `additions` that are already present, in `m` or through an earlier
/// addition, when their turn comes.
pub open spec fn skipped(m: Map<Seq<char>, u64>, additions: Seq<Seq<char>>, floor: u64) -> Seq<
    Seq<char>,
>
    decreases additions.len(),
{
    if additions.len() == 0 {
        seq![]
    } else {
        let before = skipped(m, additions.drop_last(), floor);
        if with_added(m, additions.drop_last(), floor).contains_key(additions.last()) {
            before.push(additions.last())
        } else {
            before
        }
    }
}

/// Adds each word of `additions` that `m` lacks, at count `floor`; words present keep their
/// count, and are returned, in order, for a notice.
pub fn add_missing(m: &mut FrequencyMap, additions: &Vec<String>, floor: u64) -> (r: Vec<String>)
    requires
        old(m).wf(),
    ensures
        final(m).wf(),
        final(m)@ == with_added(old(m)@, views(additions@), floor),
        views(r@) == skipped(old(m)@, views(additions@), floor),
{
    let ghost start = m@;
    let mut present: Vec<String> = Vec::new();
    let mut i: usize = 0;
    while i < additions.len()
        invariant
            i <= additions.len(),
            m.wf(),
            m@ == with_added(start, views(additions@.subrange(0, i as int)), floor),
            views(present@) == skipped(start, views(additions@.subrange(0, i as int)), floor),
        decreases additions.len() - i,
    {
        let ghost a = views(additions@.subrange(0, i as int));
        let ghost b = views(additions@.subrange(0, i + 1));
        assert(b =~= a.push(additions@[i as int]@));
        assert(b.drop_last() =~= a);
        if !m.contains_key(&additions[i]) {
            m.insert(additions[i].clone(), floor);
        } else {
            let ghost before = views(present@);
            present.push(additions[i].clone());
            assert(views(present@) =~= before.push(additions@[i as int]@));
        }
        proof {
            lemma_push_contains(a, additions@[i as int]@);
            assert(m@ =~= with_added(start, b, floor));
        }
        i = i + 1;
    }
    assert(additions@.subrange(0, additions.len() as int) =~= additions@);
    present
}

/// Each word of `words` without its surrounding white space.
pub fn trim_each(words: &Vec<String>) -> (r: Vec<String>)
    ensures
        views(r@) == trimmed_all(views(words@)),
{
    let mut r: Vec<String> = Vec::new();
    let mut i: usize = 0;
    while i < words.len()
        invariant
            i <= words.len(),
            views(r@) == trimmed_all(views(words@.subrange(0, i as int))),
        decreases words.len() - i,
    {
        let t = trim(words[i].as_str());
        let ghost before = views(r@);
        r.push(t);
        proof {
            let a = views(words@.subrange(0, i as int));
            let b = views(words@.subrange(0, i + 1));
            assert(b =~= a.push(words@[i as int]@));
            assert(trimmed_all(b) =~= trimmed_all(a).push(t@));
            assert(views(r@) =~= before.push(t@));
        }
        i = i + 1;
    }
    assert(words@.subrange(0, words.len() as int) =~= words@);
    r
}

/// Cleans a raw dictionary with one language profile: drops the words that the profile
/// rejects, then every word of `exclude`, then adds each word of `additions` that is missing
/// at the profile's floor count. The words of both lists are matched after trimming their
/// surrounding white space. Also returns the (trimmed) additions that were already present,
/// for a notice.
pub fn clean_with_notices(
    raw: &FrequencyMap,
    p: &LanguageProfile,
    exclude: &Vec<String>,
    additions: &Vec<String>,
) -> (r: (FrequencyMap, Vec<String>))
    requires
        raw.wf(),
    ensures
        r.0.wf(),
        r.0@ == cleaned(raw@, *p, trimmed_all(views(exclude@)), trimmed_all(views(additions@))),
        views(r.1@) == skipped(
            without(filtered(raw@, *p), trimmed_all(views(exclude@))),
            trimmed_all(views(additions@)),
            p.min_frequency,
        ),
{
    let ex = trim_each(exclude);
    let add = trim_each(additions);
    let mut r = filter_words(raw, p);
    remove_excluded(&mut r, &ex);
    let present = add_missing(&mut r, &add, p.min_frequency);
    (r, present)
}

/// Cleans a raw dictionary with one language profile, as `clean_with_notices` does.
pub fn clean(
    raw: &FrequencyMap,
    p: &LanguageProfile,
    exclude: &Vec<String>,
    additions: &Vec<String>,
) -> (r: FrequencyMap)
    requires
        raw.wf(),
    ensures
        r.wf(),
        r@ == cleaned(raw@, *p, trimmed_all(views(exclude@)), trimmed_all(views(additions@))),
{
    clean_with_notices(raw, p, exclude, additions).0
}

/// Cleans a raw dictionary with the Latvian profile.
pub fn clean_latvian(raw: &FrequencyMap, exclude: &Vec<String>, additions: &Vec<String>) -> (r:
    FrequencyMap)
    requires
        raw.wf(),
    ensures
        r.wf(),
        exists|p: LanguageProfile|
            #[trigger] is_latvian(p) && r@ == cleaned(
                raw@,
                p,
                trimmed_all(views(exclude@)),
                trimmed_all(views(additions@)),
            ),
{
    let p = latvian_profile();
    clean(raw, &p, exclude, additions)
}

/// Cleaning an already cleaned dictionary again, with the same profile and lists, changes
/// nothing.
pub proof fn lemma_clean_idempotent(
    raw: Map<Seq<char>, u64>,
    p: LanguageProfile,
    exclude: Seq<Seq<char>>,
    additions: Seq<Seq<char>>,
)
    ensures
        cleaned(cleaned(raw, p, exclude, additions), p, exclude, additions) == cleaned(
            raw,
            p,
            exclude,
            additions,
        ),
{
    let once = cleaned(raw, p, exclude, additions);
    let twice = cleaned(once, p, exclude, additions);
    assert forall|w: Seq<char>| #[trigger] twice.contains_key(w) == once.contains_key(w) by {
        if once.contains_key(w) && !additions.contains(w) {
            assert(filtered(raw, p).contains_key(w));
            assert(once[w] == raw[w]);
        }
    }
    assert forall|w: Seq<char>| #[trigger] twice.contains_key(w) implies twice[w] == once[w] by {
        if filtered(raw, p).contains_key(w) && !exclude.contains(w) {
            assert(once[w] == raw[w]);
            assert(filtered(once, p).contains_key(w));
        }
    }
    assert(twice =~= once);
}

/// Raising the frequency floor only drops more words: what a floor drops, every higher floor
/// drops too.
pub proof fn lemma_floor_monotonic(raw: Map<Seq<char>, u64>, p: LanguageProfile, f: u64, g: u64)
    requires
        f < g,
    ensures
        dropped_at(raw, p, f).subset_of(dropped_at(raw, p, g)),
{
}

/// A word that survives filtering but is excluded, and not among the additions, is not in the result;
/// a word that filtering drops but is among the additions ends up with the profile's floor count.
pub proof fn lemma_exclusion_and_addition(
    raw: Map<Seq<char>, u64>,
    p: LanguageProfile,
    exclude: Seq<Seq<char>>,
    additions: Seq<Seq<char>>,
    w: Seq<char>,
)
    ensures
        filtered(raw, p).contains_key(w) && exclude.contains(w) && !additions.contains(w)
            ==> !cleaned(raw, p, exclude, additions).contains_key(w),
        !filtered(raw, p).contains_key(w) && additions.contains(w) ==> cleaned(
            raw,
            p,
            exclude,
            additions,
        ).contains_key(w) && cleaned(raw, p, exclude, additions)[w] == p.min_frequency,
{
}

} // verus!
