use vstd::prelude::*;
use crate::freq_map::{distinct_words, map_of, pairs, sorted_words, FrequencyMap};

verus! {

#[verifier::external_type_specification]
#[verifier::external_body]
pub struct ExJsonError(serde_json::Error);

/// Why a snapshot could not be read or written.
#[derive(Debug, PartialEq, Eq, Structural)]
pub enum SnapshotError {
    /// The text is not a JSON object of words to non-negative integer counts.
    Malformed,
}

/// The pretty-printed JSON object that serde_json writes for a word-to-count map.
pub uninterp spec fn snapshot_text(m: Map<Seq<char>, u64>) -> Seq<char>;

/// The word-to-count map that serde_json reads from a JSON text, if it is such an object.
pub uninterp spec fn parsed_snapshot(text: Seq<char>) -> Option<Map<Seq<char>, u64>>;

/// Relies on `serde_json::to_string_pretty` on a `BTreeMap<String, u64>`: the map is
/// written as a JSON object in key order, so the text depends on the map alone. It fails
/// only for a map with non-string keys or a failing `Serialize` impl, neither of which a
/// `BTreeMap<String, u64>` has; and `serde_json::from_str` reads that text back into the
/// same map.
#[verifier::external_body]
fn encode_pretty(entries: Vec<(String, u64)>) -> (r: Result<String, serde_json::Error>)
    ensures
        r is Ok,
        distinct_words(pairs(entries@)) ==> (r matches Ok(s) ==> s@ == snapshot_text(
            map_of(pairs(entries@)),
        ) && parsed_snapshot(s@) == Some(map_of(pairs(entries@)))),
{
    let m: std::collections::BTreeMap<String, u64> = entries.into_iter().collect();
    serde_json::to_string_pretty(&m)
}

/// Relies on `serde_json::from_str` into a `BTreeMap<String, u64>`: it succeeds exactly on
/// a JSON object whose values are non-negative integers that fit in `u64`; the map's
/// entries come out once per key, in ascending key order (`String`'s order, which is the
/// codepoint-lexicographic order).
#[verifier::external_body]
fn decode(text: &str) -> (r: Result<Vec<(String, u64)>, serde_json::Error>)
    ensures
        r is Ok <==> parsed_snapshot(text@) is Some,
        r matches Ok(v) ==> sorted_words(pairs(v@)) && map_of(pairs(v@)) == parsed_snapshot(
            text@,
        )->0,
{
    serde_json::from_str::<std::collections::BTreeMap<String, u64>>(text).map(
        |m| m.into_iter().collect(),
    )
}

/// The snapshot text of a dictionary: a pretty-printed JSON object of words to counts.
/// Reading it back gives the same dictionary.
pub fn to_snapshot(m: &FrequencyMap) -> (r: String)
    requires
        m.wf(),
    ensures
        r@ == snapshot_text(m@),
        parsed_snapshot(r@) == Some(m@),
{
    match encode_pretty(m.items()) {
        Ok(s) => s,
        Err(_) => {
            proof {
                assert(false);
            }
            String::new()
        },
    }
}

/// Reads a dictionary back from its snapshot text.
pub fn from_snapshot(text: &str) -> (r: Result<FrequencyMap, SnapshotError>)
    ensures
        r is Ok <==> parsed_snapshot(text@) is Some,
        r matches Ok(m) ==> m.wf() && m@ == parsed_snapshot(text@)->0,
        r is Err ==> r == Err::<FrequencyMap, SnapshotError>(SnapshotError::Malformed),
{
    match decode(text) {
        Ok(v) => Ok(FrequencyMap::from_entries(v)),
        Err(_) => Err(SnapshotError::Malformed),
    }
}

} // verus!
