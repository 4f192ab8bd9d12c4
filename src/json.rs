use vstd::prelude::*;

verus! {

/// For a text that parses as a JSON object: its top-level entries, each as the
/// key and the `Debug` form of the value, in the order in which the parsed object
/// yields them. `None` for any other text (malformed JSON, or JSON that is not an
/// object).
pub uninterp spec fn json_object_entries(s: Seq<char>) -> Option<Seq<(Seq<char>, Seq<char>)>>;

/// The view of a list of entries.
pub open spec fn entries_view(v: Seq<(String, String)>) -> Seq<(Seq<char>, Seq<char>)> {
    v.map_values(|e: (String, String)| (e.0@, e.1@))
}

/// Relies on `serde_json::from_str::<serde_json::Value>` and, for each entry of a
/// parsed object, on the `Debug` form of `serde_json::Value`: the result is a
/// function of the text alone.
#[verifier::external_body]
pub(crate) fn object_entries(line: &str) -> (r: Option<Vec<(String, String)>>)
    ensures
        match r {
            None => json_object_entries(line@) is None,
            Some(v) => json_object_entries(line@) == Some(entries_view(v@)),
        },
{
    match serde_json::from_str::<serde_json::Value>(line) {
        Ok(serde_json::Value::Object(m)) => Some(
            m.iter().map(|(k, v)| (k.clone(), format!("{:?}", v))).collect(),
        ),
        _ => None,
    }
}

} // verus!
