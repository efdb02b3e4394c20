use vstd::prelude::*;
use crate::text::{chars_of, contains_part, count_char, ends_with, starts_with, utf8_len};

verus! {

/// A shape of word that a language rejects.
pub enum Pattern {
    /// More than `limit` occurrences of `c`.
    TooMany { c: char, limit: usize },
    /// `part` occurs anywhere in the word.
    Holds { part: String },
    /// The word starts with `prefix` and is none of `allowed`.
    Leading { prefix: String, allowed: Vec<String> },
    /// The word ends with `suffix`.
    Trailing { suffix: String },
    /// The word's UTF-8 encoding has at most `limit` bytes.
    Short { limit: usize },
}

/// What a curated prefix rule asks of a word that starts with its prefix.
pub enum PrefixKind {
    /// Only the prefix itself is a word.
    ExactOnly,
    /// The word needs at least this count.
    MinCount(u64),
}

pub struct PrefixRule {
    pub prefix: String,
    pub kind: PrefixKind,
}

/// The rule set that decides which words of one language are kept.
pub struct LanguageProfile {
    /// Every character of a kept word is one of these.
    pub alphabet: Vec<char>,
    /// When present, a kept word holds at least one of these.
    pub vowels: Option<Vec<char>>,
    pub patterns: Vec<Pattern>,
    pub prefix_rules: Vec<PrefixRule>,
    /// A word whose count is at most this is dropped; added words get this count.
    pub min_frequency: u64,
}

/// The word `w` has the shape that `p` describes.
pub open spec fn pattern_hits(p: Pattern, w: Seq<char>) -> bool {
    match p {
        Pattern::TooMany { c, limit } => count_char(w, c) > limit,
        Pattern::Holds { part } => contains_part(w, part@),
        Pattern::Leading { prefix, allowed } => starts_with(w, prefix@) && !(exists|i: int|
            0 <= i < allowed@.len() && (#[trigger] allowed@[i])@ == w),
        Pattern::Trailing { suffix } => ends_with(w, suffix@),
        Pattern::Short { limit } => utf8_len(w) <= limit,
    }
}

/// The prefix rule rejects `w` seen with count `v`.
pub open spec fn prefix_rule_hits(r: PrefixRule, w: Seq<char>, v: u64) -> bool {
    starts_with(w, r.prefix@) && match r.kind {
        PrefixKind::ExactOnly => w != r.prefix@,
        PrefixKind::MinCount(t) => v < t,
    }
}

/// The profile drops `w` seen with count `v` when the frequency floor is `floor`.
pub open spec fn rejected_at(p: LanguageProfile, floor: u64, w: Seq<char>, v: u64) -> bool {
    ||| !crate::text::within(w, p.alphabet@)
    ||| (p.vowels matches Some(vs) && !crate::text::meets(w, vs@))
    ||| (exists|i: int| 0 <= i < p.patterns@.len() && pattern_hits(#[trigger] p.patterns@[i], w))
    ||| (exists|i: int|
        0 <= i < p.prefix_rules@.len() && prefix_rule_hits(#[trigger] p.prefix_rules@[i], w, v))
    ||| v <= floor
}

/// The profile drops `w` seen with count `v`.
pub open spec fn rejected(p: LanguageProfile, w: Seq<char>, v: u64) -> bool {
    rejected_at(p, p.min_frequency, w, v)
}

/// The floor that every built-in profile uses.
pub const MINIMUM_FREQUENCY: u64 = 50;

fn leading(prefix: &str) -> (r: Pattern)
    ensures
        r matches Pattern::Leading { prefix: p, allowed } && p@ == prefix@ && allowed@.len() == 0,
{
    Pattern::Leading { prefix: prefix.to_string(), allowed: Vec::new() }
}

fn holds(part: &str) -> (r: Pattern)
    ensures
        r matches Pattern::Holds { part: p } && p@ == part@,
{
    Pattern::Holds { part: part.to_string() }
}

fn exact_only(prefix: &str) -> (r: PrefixRule)
    ensures
        r.prefix@ == prefix@,
        r.kind matches PrefixKind::ExactOnly,
{
    PrefixRule { prefix: prefix.to_string(), kind: PrefixKind::ExactOnly }
}

fn min_count(prefix: &str, t: u64) -> (r: PrefixRule)
    ensures
        r.prefix@ == prefix@,
        r.kind == PrefixKind::MinCount(t),
{
    PrefixRule { prefix: prefix.to_string(), kind: PrefixKind::MinCount(t) }
}

/// A profile of an alphabet, an optional vowel set and some patterns, with no prefix
/// rules and the shared floor.
fn basic(alphabet: &str, vowels: Option<&str>, patterns: Vec<Pattern>) -> (r: LanguageProfile)
    ensures
        r.alphabet@ == alphabet@,
        r.vowels.is_some() == vowels.is_some(),
        vowels matches Some(v) ==> r.vowels->0@ == v@,
        r.patterns@ == patterns@,
        r.prefix_rules@.len() == 0,
        r.min_frequency == MINIMUM_FREQUENCY,
{
    let vs = match vowels {
        Some(v) => Some(chars_of(v)),
        None => None,
    };
    LanguageProfile {
        alphabet: chars_of(alphabet),
        vowels: vs,
        patterns,
        prefix_rules: Vec::new(),
        min_frequency: MINIMUM_FREQUENCY,
    }
}

/// The prefix rule `r` asks that a word starting with `prefix` be exactly `prefix`.
pub open spec fn is_exact_only(r: PrefixRule, prefix: &str) -> bool {
    r.prefix@ == prefix@ && r.kind matches PrefixKind::ExactOnly
}

/// The English rules, as listed in `english_profile`.
pub open spec fn is_english(r: LanguageProfile) -> bool {
    &&& r.alphabet@ == "abcdefghijklmnopqrstuvwxyz'"@
    &&& r.vowels matches Some(v) && v@ == "aeiouy"@
    &&& r.patterns@.len() == 9
    &&& r.patterns@[0] == (Pattern::TooMany { c: '\'', limit: 1 })
    &&& r.patterns@[1] == (Pattern::TooMany { c: '-', limit: 1 })
    &&& r.patterns@[2] == (Pattern::TooMany { c: '.', limit: 2 })
    &&& r.patterns@[3] matches Pattern::Holds { part } && part@ == ".."@
    &&& r.patterns@[4] matches Pattern::Leading { prefix, allowed } && prefix@ == "aa"@
        && allowed@.len() == 2 && allowed@[0]@ == "aardvark"@ && allowed@[1]@ == "aardvarks"@
    &&& r.patterns@[5] matches Pattern::Leading { prefix, allowed } && prefix@ == "a'"@
        && allowed@.len() == 0
    &&& r.patterns@[6] matches Pattern::Leading { prefix, allowed } && prefix@ == "zz"@
        && allowed@.len() == 0
    &&& r.patterns@[7] matches Pattern::Trailing { suffix } && suffix@ == "yy"@
    &&& r.patterns@[8] matches Pattern::Trailing { suffix } && suffix@ == "hh"@
    &&& r.prefix_rules@.len() == 9
    &&& is_exact_only(r.prefix_rules@[0], "about")
    &&& is_exact_only(r.prefix_rules@[1], "above")
    &&& is_exact_only(r.prefix_rules@[2], "after")
    &&& is_exact_only(r.prefix_rules@[3], "against")
    &&& r.prefix_rules@[4].prefix@ == "all"@ && r.prefix_rules@[4].kind == PrefixKind::MinCount(15)
    &&& is_exact_only(r.prefix_rules@[5], "almost")
    &&& r.prefix_rules@[6].prefix@ == "to"@ && r.prefix_rules@[6].kind == PrefixKind::MinCount(25)
    &&& is_exact_only(r.prefix_rules@[7], "can't")
    &&& is_exact_only(r.prefix_rules@[8], "i'm")
    &&& r.min_frequency == MINIMUM_FREQUENCY
}

pub fn english_profile() -> (r: LanguageProfile)
    ensures
        is_english(r),
{
    let mut r = basic("abcdefghijklmnopqrstuvwxyz'", Some("aeiouy"), Vec::new());
    r.patterns.push(Pattern::TooMany { c: '\'', limit: 1 });
    r.patterns.push(Pattern::TooMany { c: '-', limit: 1 });
    r.patterns.push(Pattern::TooMany { c: '.', limit: 2 });
    r.patterns.push(holds(".."));
    let mut allowed: Vec<String> = Vec::new();
    allowed.push("aardvark".to_string());
    allowed.push("aardvarks".to_string());
    r.patterns.push(Pattern::Leading { prefix: "aa".to_string(), allowed });
    r.patterns.push(leading("a'"));
    r.patterns.push(leading("zz"));
    r.patterns.push(Pattern::Trailing { suffix: "yy".to_string() });
    r.patterns.push(Pattern::Trailing { suffix: "hh".to_string() });
    r.prefix_rules.push(exact_only("about"));
    r.prefix_rules.push(exact_only("above"));
    r.prefix_rules.push(exact_only("after"));
    r.prefix_rules.push(exact_only("against"));
    r.prefix_rules.push(min_count("all", 15));
    r.prefix_rules.push(exact_only("almost"));
    r.prefix_rules.push(min_count("to", 25));
    r.prefix_rules.push(exact_only("can't"));
    r.prefix_rules.push(exact_only("i'm"));
    r
}

/// The German rules, as listed in `german_profile`.
pub open spec fn is_german(r: LanguageProfile) -> bool {
    &&& r.alphabet@ == "abcdefghijklmnopqrstuvwxyzäöüß"@
    &&& r.vowels is None
    &&& r.patterns@.len() == 1
    &&& r.patterns@[0] matches Pattern::Leading { prefix, allowed } && prefix@ == "aa"@
        && allowed@.len() == 0
    &&& r.prefix_rules@.len() == 0
    &&& r.min_frequency == MINIMUM_FREQUENCY
}

pub fn german_profile() -> (r: LanguageProfile)
    ensures
        is_german(r),
{
    basic("abcdefghijklmnopqrstuvwxyzäöüß", None, vec![leading("aa")])
}

/// The French rules, as listed in `french_profile`.
pub open spec fn is_french(r: LanguageProfile) -> bool {
    &&& r.alphabet@ == "abcdefghijklmnopqrstuvwxyzéàèùâêîôûëïüÿçœæ"@
    &&& r.vowels is None
    &&& r.patterns@.len() == 1
    &&& r.patterns@[0] matches Pattern::Leading { prefix, allowed } && prefix@ == "aa"@
        && allowed@.len() == 0
    &&& r.prefix_rules@.len() == 0
    &&& r.min_frequency == MINIMUM_FREQUENCY
}

pub fn french_profile() -> (r: LanguageProfile)
    ensures
        is_french(r),
{
    basic("abcdefghijklmnopqrstuvwxyzéàèùâêîôûëïüÿçœæ", None, vec![leading("aa")])
}

/// The Portuguese rules, as listed in `portuguese_profile`.
pub open spec fn is_portuguese(r: LanguageProfile) -> bool {
    &&& r.alphabet@ == "abcdefghijklmnopqrstuvwxyzáâãàçéêíóôõú"@
    &&& r.vowels is None
    &&& r.patterns@.len() == 1
    &&& r.patterns@[0] matches Pattern::Leading { prefix, allowed } && prefix@ == "aa"@
        && allowed@.len() == 0
    &&& r.prefix_rules@.len() == 0
    &&& r.min_frequency == MINIMUM_FREQUENCY
}

pub fn portuguese_profile() -> (r: LanguageProfile)
    ensures
        is_portuguese(r),
{
    basic("abcdefghijklmnopqrstuvwxyzáâãàçéêíóôõú", None, vec![leading("aa")])
}

/// The Basque rules, as listed in `basque_profile`.
pub open spec fn is_basque(r: LanguageProfile) -> bool {
    &&& r.alphabet@ == "abcdefghijklmnopqrstuvwxyzñ"@
    &&& r.vowels is None
    &&& r.patterns@.len() == 1
    &&& r.patterns@[0] matches Pattern::Leading { prefix, allowed } && prefix@ == "aa"@
        && allowed@.len() == 0
    &&& r.prefix_rules@.len() == 0
    &&& r.min_frequency == MINIMUM_FREQUENCY
}

pub fn basque_profile() -> (r: LanguageProfile)
    ensures
        is_basque(r),
{
    basic("abcdefghijklmnopqrstuvwxyzñ", None, vec![leading("aa")])
}

/// The Russian rules, as listed in `russian_profile`.
pub open spec fn is_russian(r: LanguageProfile) -> bool {
    &&& r.alphabet@ == "абвгдеёжзийклмнопрстуфхцчшщъыьэюя"@
    &&& r.vowels matches Some(v) && v@ == "аеёиоуыэюя"@
    &&& r.patterns@.len() == 1
    &&& r.patterns@[0] matches Pattern::Holds { part } && part@ == ".."@
    &&& r.prefix_rules@.len() == 0
    &&& r.min_frequency == MINIMUM_FREQUENCY
}

pub fn russian_profile() -> (r: LanguageProfile)
    ensures
        is_russian(r),
{
    basic("абвгдеёжзийклмнопрстуфхцчшщъыьэюя", Some("аеёиоуыэюя"), vec![holds("..")])
}

/// The Arabic rules, as listed in `arabic_profile`.
pub open spec fn is_arabic(r: LanguageProfile) -> bool {
    &&& r.alphabet@ == "دجحإﻹﻷأآﻵخهعغفقثصضذطكمنتالبيسشظزوةىﻻرؤءئ"@
    &&& r.vowels is None
    &&& r.patterns@.len() == 1
    &&& r.patterns@[0] matches Pattern::Holds { part } && part@ == ".."@
    &&& r.prefix_rules@.len() == 0
    &&& r.min_frequency == MINIMUM_FREQUENCY
}

pub fn arabic_profile() -> (r: LanguageProfile)
    ensures
        is_arabic(r),
{
    basic("دجحإﻹﻷأآﻵخهعغفقثصضذطكمنتالبيسشظزوةىﻻرؤءئ", None, vec![holds("..")])
}

/// The Latvian rules: Latvian letters, a vowel, no "..", no leading "aa" or "ii", more than
/// one byte in UTF-8.
pub open spec fn is_latvian(r: LanguageProfile) -> bool {
    &&& r.alphabet@ == "aābcčdeēfgģhiījkķlļmnņoprsštuūvzž"@
    &&& r.vowels matches Some(v) && v@ == "aāiīeēouū"@
    &&& r.patterns@.len() == 4
    &&& r.patterns@[0] matches Pattern::Holds { part } && part@ == ".."@
    &&& r.patterns@[1] matches Pattern::Leading { prefix, allowed } && prefix@ == "aa"@
        && allowed@.len() == 0
    &&& r.patterns@[2] matches Pattern::Leading { prefix, allowed } && prefix@ == "ii"@
        && allowed@.len() == 0
    &&& r.patterns@[3] == (Pattern::Short { limit: 1 })
    &&& r.prefix_rules@.len() == 0
    &&& r.min_frequency == MINIMUM_FREQUENCY
}

pub fn latvian_profile() -> (r: LanguageProfile)
    ensures
        is_latvian(r),
{
    basic(
        "aābcčdeēfgģhiījkķlļmnņoprsštuūvzž",
        Some("aāiīeēouū"),
        vec![holds(".."), leading("aa"), leading("ii"), Pattern::Short { limit: 1 }],
    )
}

/// The rules for a language code; Spanish ("es") and unknown codes have none.
pub fn profile_for(code: &str) -> (r: Option<LanguageProfile>)
    ensures
        code@ == "en"@ ==> (r matches Some(p) && is_english(p)),
        code@ == "lv"@ ==> (r matches Some(p) && is_latvian(p)),
        code@ == "de"@ ==> (r matches Some(p) && is_german(p)),
        code@ == "fr"@ ==> (r matches Some(p) && is_french(p)),
        code@ == "pt"@ ==> (r matches Some(p) && is_portuguese(p)),
        code@ == "eu"@ ==> (r matches Some(p) && is_basque(p)),
        code@ == "ru"@ ==> (r matches Some(p) && is_russian(p)),
        code@ == "ar"@ ==> (r matches Some(p) && is_arabic(p)),
        r is None <==> !(code@ == "en"@ || code@ == "lv"@ || code@ == "de"@ || code@ == "fr"@
            || code@ == "pt"@ || code@ == "eu"@ || code@ == "ru"@ || code@ == "ar"@),
{
    proof {
        reveal_strlit("en");
        reveal_strlit("lv");
        reveal_strlit("de");
        reveal_strlit("fr");
        reveal_strlit("pt");
        reveal_strlit("eu");
        reveal_strlit("ru");
        reveal_strlit("ar");
        assert("en"@[0] == 'e' && "en"@[1] == 'n');
        assert("eu"@[0] == 'e' && "eu"@[1] == 'u');
        assert("lv"@[0] == 'l');
        assert("de"@[0] == 'd');
        assert("fr"@[0] == 'f');
        assert("pt"@[0] == 'p');
        assert("ru"@[0] == 'r');
        assert("ar"@[0] == 'a');
    }
    let c = code.to_string();
    if c == "en".to_string() {
        Some(english_profile())
    } else if c == "lv".to_string() {
        Some(latvian_profile())
    } else if c == "de".to_string() {
        Some(german_profile())
    } else if c == "fr".to_string() {
        Some(french_profile())
    } else if c == "pt".to_string() {
        Some(portuguese_profile())
    } else if c == "eu".to_string() {
        Some(basque_profile())
    } else if c == "ru".to_string() {
        Some(russian_profile())
    } else if c == "ar".to_string() {
        Some(arabic_profile())
    } else {
        None
    }
}

} // verus!
