use lexicon_builder::cleaner::{clean, clean_with_notices, filter_words};
use lexicon_builder::freq_map::FrequencyMap;
use lexicon_builder::ingest::{count_line, count_tokens, stem};
use lexicon_builder::misfit::misfits;
use lexicon_builder::order::less_than;
use lexicon_builder::profile::{
    arabic_profile, basque_profile, english_profile, french_profile, german_profile,
    latvian_profile, portuguese_profile, profile_for, russian_profile, LanguageProfile,
    MINIMUM_FREQUENCY,
};
use lexicon_builder::snapshot::{from_snapshot, to_snapshot, SnapshotError};
use lexicon_builder::tokens::{is_all_alpha, split_into_words};
use lexicon_builder::word_frequency::WordFrequency;

fn map_of(pairs: &[(&str, u64)]) -> FrequencyMap {
    let mut m = FrequencyMap::new();
    for (w, c) in pairs {
        m.insert(w.to_string(), *c);
    }
    m
}

fn sorted_items(m: &FrequencyMap) -> Vec<(String, u64)> {
    let mut v = m.items();
    v.sort();
    v
}

fn strings(ws: &[&str]) -> Vec<String> {
    ws.iter().map(|w| w.to_string()).collect()
}

fn count(m: &FrequencyMap, w: &str) -> Option<u64> {
    m.get(&w.to_string())
}

fn keeps_word(p: &LanguageProfile, w: &str, c: u64) -> bool {
    let raw = map_of(&[(w, c)]);
    filter_words(&raw, p).contains_key(&w.to_string())
}

#[test]
fn english_cleaning_keeps_the_exception() {
    let raw = map_of(&[("the", 1000), ("aardvark", 60), ("aa", 80), ("a'b", 40)]);
    let r = clean(&raw, &english_profile(), &vec![], &vec![]);
    assert_eq!(
        sorted_items(&r),
        vec![("aardvark".to_string(), 60), ("the".to_string(), 1000)]
    );
}

#[test]
fn english_rules() {
    let p = english_profile();
    assert!(keeps_word(&p, "hello", 51));
    assert!(!keeps_word(&p, "hello", 50));
    assert!(!keeps_word(&p, "Hello", 100));
    assert!(!keeps_word(&p, "rhythm", 40));
    assert!(!keeps_word(&p, "brr", 100));
    assert!(!keeps_word(&p, "it's'", 100));
    assert!(!keeps_word(&p, "aah", 100));
    assert!(keeps_word(&p, "aardvarks", 100));
    assert!(!keeps_word(&p, "a'lot", 100));
    assert!(!keeps_word(&p, "zzap", 100));
    assert!(!keeps_word(&p, "heyy", 100));
    assert!(!keeps_word(&p, "ahh", 100));
    assert!(keeps_word(&p, "about", 100));
    assert!(!keeps_word(&p, "aboutthe", 100));
    assert!(!keeps_word(&p, "i'mgoing", 100));
    assert!(keeps_word(&p, "i'm", 100));
    assert!(keeps_word(&p, "today", 100));
    assert!(keeps_word(&p, "allow", 100));
}

#[test]
fn other_profiles() {
    assert!(keeps_word(&german_profile(), "straße", 60));
    assert!(!keeps_word(&german_profile(), "aal", 60));
    assert!(keeps_word(&french_profile(), "garçon", 60));
    assert!(!keeps_word(&french_profile(), "ñu", 60));
    assert!(keeps_word(&portuguese_profile(), "não", 60));
    assert!(keeps_word(&basque_profile(), "ñabar", 60));
    assert!(keeps_word(&russian_profile(), "дом", 60));
    assert!(!keeps_word(&russian_profile(), "вдх", 60));
    assert!(!keeps_word(&russian_profile(), "dom", 60));
    assert!(keeps_word(&arabic_profile(), "كتاب", 60));
    assert!(!keeps_word(&arabic_profile(), "book", 60));
    assert!(keeps_word(&latvian_profile(), "māja", 60));
    assert!(!keeps_word(&latvian_profile(), "a", 60));
    assert!(keeps_word(&latvian_profile(), "ā", 60));
    assert!(keeps_word(&latvian_profile(), "ī", 60));
    assert!(!keeps_word(&latvian_profile(), "iir", 60));
    assert!(!keeps_word(&latvian_profile(), "krr", 60));
    assert_eq!(latvian_profile().min_frequency, MINIMUM_FREQUENCY);
}

#[test]
fn empty_raw_map_cleans_to_empty() {
    let r = clean(&FrequencyMap::new(), &english_profile(), &strings(&["x"]), &vec![]);
    assert_eq!(r.len(), 0);
}

#[test]
fn misfit_report_lists_vanished_words() {
    let previous = map_of(&[("foo", 1), ("bar", 2)]);
    let current = map_of(&[("bar", 2), ("baz", 3)]);
    assert_eq!(misfits(&previous, &current), strings(&["foo"]));
}

#[test]
fn misfit_report_is_sorted_and_ignores_count_changes() {
    let previous = map_of(&[("pear", 1), ("apple", 2), ("Zed", 3), ("kiwi", 4), ("émile", 5)]);
    let current = map_of(&[("kiwi", 40)]);
    assert_eq!(
        misfits(&previous, &current),
        strings(&["Zed", "apple", "pear", "émile"])
    );
}

#[test]
fn addition_already_present_keeps_count() {
    let raw = map_of(&[("hello", 200)]);
    let (r, notices) =
        clean_with_notices(&raw, &english_profile(), &vec![], &strings(&["hello"]));
    assert_eq!(count(&r, "hello"), Some(200));
    assert_eq!(notices, strings(&["hello"]));
}

#[test]
fn exclusion_and_addition() {
    let raw = map_of(&[("hello", 200), ("world", 300)]);
    let r = clean(
        &raw,
        &english_profile(),
        &strings(&["hello", "world"]),
        &strings(&["world", "xyzzy"]),
    );
    assert_eq!(count(&r, "hello"), None);
    assert_eq!(count(&r, "world"), Some(MINIMUM_FREQUENCY));
    assert_eq!(count(&r, "xyzzy"), Some(MINIMUM_FREQUENCY));
    assert_eq!(r.len(), 2);
}

#[test]
fn cleaning_twice_changes_nothing() {
    let raw = map_of(&[("hello", 200), ("aa", 300), ("world", 30), ("excluded", 90)]);
    let p = english_profile();
    let ex = strings(&["excluded"]);
    let add = strings(&["world", "excluded", "new"]);
    let once = clean(&raw, &p, &ex, &add);
    let twice = clean(&once, &p, &ex, &add);
    assert_eq!(sorted_items(&once), sorted_items(&twice));
}

#[test]
fn higher_floor_drops_more() {
    let raw = map_of(&[("hello", 60), ("world", 120), ("aa", 500)]);
    let mut p = german_profile();
    p.min_frequency = 50;
    let low = filter_words(&raw, &p);
    p.min_frequency = 100;
    let high = filter_words(&raw, &p);
    assert_eq!(low.len(), 2);
    assert_eq!(high.len(), 1);
    assert_eq!(count(&high, "world"), Some(120));
}

#[test]
fn case_insensitive_lookup() {
    let mut wf = WordFrequency::new(false);
    wf.add("Run", 1);
    assert!(wf.contains("RUN"));
    assert_eq!(wf.get("run"), Some(1));
}

#[test]
fn case_sensitive_lookup() {
    let mut wf = WordFrequency::new(true);
    wf.add("Run", 1);
    assert!(!wf.contains("run"));
    assert_eq!(wf.get("Run"), Some(1));
}

#[test]
fn add_is_additive() {
    let mut wf = WordFrequency::new(false);
    wf.add("word", 3);
    wf.add("WORD", 4);
    assert_eq!(wf.get("word"), Some(7));
    wf.add("word", u64::MAX);
    assert_eq!(wf.get("word"), Some(u64::MAX));
}

#[test]
fn aggregates_follow_every_mutation() {
    let mut wf = WordFrequency::new(false);
    assert_eq!((wf.total_words(), wf.unique_words(), wf.longest_word_length()), (0, 0, 0));
    wf.add("abc", 5);
    wf.add("zz", 2);
    assert_eq!((wf.total_words(), wf.unique_words(), wf.longest_word_length()), (7, 2, 3));
    let mut letters = wf.letters();
    letters.sort();
    assert_eq!(letters, vec!['a', 'b', 'c', 'z']);
    wf.load_text("Hello hello wörld");
    assert_eq!((wf.total_words(), wf.unique_words(), wf.longest_word_length()), (10, 4, 5));
    assert_eq!(wf.get("hello"), Some(2));
    assert_eq!(wf.pop("abc", None), 5);
    assert_eq!((wf.total_words(), wf.unique_words(), wf.longest_word_length()), (5, 3, 5));
    wf.remove("missing");
    wf.remove_words(&strings(&["HELLO", "nothing"]));
    assert_eq!((wf.total_words(), wf.unique_words(), wf.longest_word_length()), (3, 2, 5));
    wf.remove_by_threshold(1);
    assert_eq!((wf.total_words(), wf.unique_words(), wf.longest_word_length()), (2, 1, 2));
    let mut letters = wf.letters();
    letters.sort();
    assert_eq!(letters, vec!['z']);
    wf.add("a", u64::MAX);
    assert_eq!(wf.total_words(), u64::MAX as u128 + 2);
}

#[test]
fn pop_with_default() {
    let mut wf = WordFrequency::new(false);
    assert_eq!(wf.pop("absent", Some(9)), 9);
    wf.add("present", 4);
    assert_eq!(wf.pop("PRESENT", Some(9)), 4);
    assert!(!wf.contains("present"));
}

#[test]
fn load_words_seeds_without_touching_counts() {
    let mut wf = WordFrequency::new(false);
    wf.add("old", 8);
    wf.load_words(&strings(&["Old", "New", "new"]));
    assert_eq!(wf.get("old"), Some(8));
    assert_eq!(wf.get("new"), Some(0));
    assert_eq!(wf.unique_words(), 2);
    assert_eq!(wf.total_words(), 8);
}

#[test]
fn load_json_overwrites() {
    let mut wf = WordFrequency::new(true);
    wf.add("a", 1);
    wf.add("b", 2);
    wf.load_json(&map_of(&[("b", 20), ("c", 30)]));
    assert_eq!(sorted_items(wf.dictionary()), vec![
        ("a".to_string(), 1),
        ("b".to_string(), 20),
        ("c".to_string(), 30),
    ]);
    assert_eq!(wf.total_words(), 51);
}

#[test]
fn keys_words_iter_items() {
    let mut wf = WordFrequency::new(true);
    wf.add("x", 1);
    wf.add("yy", 2);
    let mut k = wf.keys();
    k.sort();
    assert_eq!(k, strings(&["x", "yy"]));
    let mut w = wf.words();
    w.sort();
    assert_eq!(w, k);
    let mut i = wf.iter();
    i.sort();
    assert_eq!(i, k);
    let mut items = wf.items();
    items.sort();
    assert_eq!(items, vec![("x".to_string(), 1), ("yy".to_string(), 2)]);
}

#[test]
fn tokenizer_splits_on_non_letters() {
    assert_eq!(
        split_into_words("Héllo, wörld! 42 it's"),
        strings(&["Héllo", "wörld", "it", "s"])
    );
    assert_eq!(split_into_words(""), Vec::<String>::new());
    let wf = WordFrequency::new(false);
    assert_eq!(wf.tokenize("ÀB cd"), strings(&["àb", "cd"]));
    let wf = WordFrequency::new(true);
    assert_eq!(wf.tokenize("ÀB cd"), strings(&["ÀB", "cd"]));
}

#[test]
fn load_dictionary_text_folds_case() {
    let mut wf = WordFrequency::new(false);
    wf.add("keep", 1);
    assert_eq!(wf.load_dictionary_text("{\"Hello\": 3, \"keep\": 7}"), Ok(()));
    assert_eq!(wf.get("hello"), Some(3));
    assert_eq!(wf.get("keep"), Some(7));
    assert_eq!(wf.load_dictionary_text("[1, 2]"), Err(SnapshotError::Malformed));
    assert_eq!(wf.total_words(), 10);
}

#[test]
fn snapshot_round_trip() {
    let m = map_of(&[("hello", 3), ("wörld", 0), ("quote\"d", u64::MAX)]);
    let text = to_snapshot(&m);
    let back = from_snapshot(&text).unwrap();
    assert_eq!(sorted_items(&back), sorted_items(&m));
    assert!(text.contains("\n"));
}

#[test]
fn snapshot_reads_exact_values() {
    let m = from_snapshot("{\"b\": 2, \"a\": 1}").unwrap();
    assert_eq!(sorted_items(&m), vec![("a".to_string(), 1), ("b".to_string(), 2)]);
    assert_eq!(to_snapshot(&m), "{\n  \"a\": 1,\n  \"b\": 2\n}");
    assert!(matches!(from_snapshot("{\"a\": -1}"), Err(SnapshotError::Malformed)));
    assert!(matches!(from_snapshot("not json"), Err(SnapshotError::Malformed)));
}

#[test]
fn ingest_counts_alphabetic_tokens() {
    let mut raw = FrequencyMap::new();
    count_tokens(&mut raw, &strings(&["Hello", "123", "world", "Hello", "##ing", ""]));
    count_tokens(&mut raw, &strings(&["world"]));
    assert_eq!(
        sorted_items(&raw),
        vec![("Hello".to_string(), 2), ("world".to_string(), 2)]
    );
}

#[test]
fn stemmer_and_token_rule() {
    assert_eq!(stem("running"), "run");
    assert!(is_all_alpha("ñandú"));
    assert!(!is_all_alpha("a-b"));
}

#[test]
fn frequency_map_basics() {
    let mut m = FrequencyMap::new();
    m.insert("a".to_string(), 1);
    m.insert("a".to_string(), 5);
    m.add_count("a".to_string(), 2);
    m.add_count("b".to_string(), 1);
    assert_eq!(m.len(), 2);
    assert_eq!(count(&m, "a"), Some(7));
    assert_eq!(m.remove(&"a".to_string()), Some(7));
    assert_eq!(m.remove(&"a".to_string()), None);
    assert_eq!(m.words(), strings(&["b"]));
}

#[test]
fn profiles_by_language_code() {
    for code in ["en", "de", "fr", "pt", "ru", "ar", "lv", "eu"] {
        assert!(profile_for(code).is_some(), "{}", code);
    }
    assert!(profile_for("es").is_none());
    assert!(profile_for("xx").is_none());
    assert_eq!(profile_for("en").unwrap().prefix_rules.len(), 9);
    assert_eq!(profile_for("ru").unwrap().alphabet, russian_profile().alphabet);
}

#[test]
fn corpus_lines_are_counted() {
    let mut raw = FrequencyMap::new();
    count_line(&mut raw, "The cat, the Cat; 42 cats");
    count_line(&mut raw, "");
    count_line(&mut raw, "cat");
    assert_eq!(
        sorted_items(&raw),
        vec![
            ("Cat".to_string(), 1),
            ("The".to_string(), 1),
            ("cat".to_string(), 2),
            ("cats".to_string(), 1),
            ("the".to_string(), 1),
        ]
    );
}

#[test]
fn recomputing_keeps_statistics() {
    let mut wf = WordFrequency::new(false);
    wf.add("abc", 5);
    wf.add("de", 2);
    wf.update_dictionary();
    assert_eq!((wf.total_words(), wf.unique_words(), wf.longest_word_length()), (7, 2, 3));
    assert_eq!(wf.get("abc"), Some(5));
    assert!(wf.dictionary().contains_key(&"de".to_string()));
}

#[test]
fn codepoint_order() {
    let s = |x: &str| x.to_string();
    assert!(less_than(&s("ab"), &s("abc")));
    assert!(!less_than(&s("abc"), &s("ab")));
    assert!(less_than(&s("Zed"), &s("apple")));
    assert!(less_than(&s("pear"), &s("émile")));
    assert!(!less_than(&s("same"), &s("same")));
    assert!(less_than(&s(""), &s("a")));
}

#[test]
fn list_words_are_trimmed() {
    let raw = map_of(&[("hello", 200), ("world", 300)]);
    let (r, notices) = clean_with_notices(
        &raw,
        &english_profile(),
        &strings(&["  hello\t"]),
        &strings(&[" world ", "\u{3000}xyzzy\r"]),
    );
    assert_eq!(count(&r, "hello"), None);
    assert_eq!(count(&r, "world"), Some(300));
    assert_eq!(count(&r, "xyzzy"), Some(MINIMUM_FREQUENCY));
    assert_eq!(notices, strings(&["world"]));
}

#[test]
fn trimming_and_byte_length() {
    assert_eq!(lexicon_builder::text::trim(" \u{a0}a b\n"), "a b");
    assert_eq!(lexicon_builder::text::trim("   "), "");
    assert_eq!(lexicon_builder::text::utf8_len_of(&"aā€😀".chars().collect()), 10);
}
