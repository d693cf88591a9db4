//! The insertion-ordered hash maps of `linked_hash_map` that hold the lookup
//! caches, seen through the maps of labels and codes they contain.
use linked_hash_map::LinkedHashMap;
use vstd::prelude::*;

verus! {

#[verifier::external_type_specification]
#[verifier::external_body]
#[verifier::reject_recursive_types(K)]
#[verifier::reject_recursive_types(V)]
#[verifier::reject_recursive_types(S)]
pub struct ExLinkedHashMap<K, V, S>(LinkedHashMap<K, V, S>);

/// What a map from labels to codes holds.
pub uninterp spec fn label_codes(m: LinkedHashMap<String, usize>) -> Map<Seq<char>, usize>;

/// What a map from codes to labels holds.
pub uninterp spec fn code_labels(m: LinkedHashMap<usize, String>) -> Map<usize, Seq<char>>;

/// Relies on LinkedHashMap::new: the new map is empty.
#[verifier::external_body]
pub(crate) fn new_label_codes() -> (r: LinkedHashMap<String, usize>)
    ensures
        label_codes(r).dom() == Set::<Seq<char>>::empty(),
{
    LinkedHashMap::new()
}

/// Relies on LinkedHashMap::insert: the key is bound to the value, and the
/// value it had before, if any, is handed back.
#[verifier::external_body]
pub(crate) fn insert_label_code(m: &mut LinkedHashMap<String, usize>, label: String, code: usize) -> (r: Option<usize>)
    ensures
        label_codes(*final(m)) == label_codes(*old(m)).insert(label@, code),
        r == (if label_codes(*old(m)).contains_key(label@) {
            Some(label_codes(*old(m))[label@])
        } else {
            None
        }),
{
    m.insert(label, code)
}

/// Relies on LinkedHashMap::get: the value bound to the key, if any.
#[verifier::external_body]
pub(crate) fn get_label_code(m: &LinkedHashMap<String, usize>, label: &str) -> (r: Option<usize>)
    ensures
        r == (if label_codes(*m).contains_key(label@) {
            Some(label_codes(*m)[label@])
        } else {
            None
        }),
{
    m.get(label).copied()
}

/// Relies on LinkedHashMap::new: the new map is empty.
#[verifier::external_body]
pub(crate) fn new_code_labels() -> (r: LinkedHashMap<usize, String>)
    ensures
        code_labels(r).dom() == Set::<usize>::empty(),
{
    LinkedHashMap::new()
}

/// Relies on LinkedHashMap::insert: the key is bound to the value.
#[verifier::external_body]
pub(crate) fn insert_code_label(m: &mut LinkedHashMap<usize, String>, code: usize, label: String)
    ensures
        code_labels(*final(m)) == code_labels(*old(m)).insert(code, label@),
{
    m.insert(code, label);
}

/// Relies on LinkedHashMap::get: a copy of the value bound to the key, if any.
#[verifier::external_body]
pub(crate) fn get_code_label(m: &LinkedHashMap<usize, String>, code: usize) -> (r: Option<String>)
    ensures
        match r {
            Some(s) => code_labels(*m).contains_key(code) && s@ == code_labels(*m)[code],
            None => !code_labels(*m).contains_key(code),
        },
{
    m.get(&code).cloned()
}

} // verus!
