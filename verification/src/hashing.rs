//! The hash sets and hash maps of the `ahash` crate, as the rest of the
//! library sees them: each collection is described by a name for its
//! contents, and each operation used here by a wrapper whose contract says
//! what the operation does to those contents. These wrappers are trusted:
//! `AHashSet` and `AHashMap` are thin newtypes over `std`'s `HashSet` and
//! `HashMap` (they dereference to them), so the contracts restate the
//! documented behaviour of those std operations for keys (`i128`, `String`,
//! `Option<String>`) whose `Eq` and `Hash` agree with value equality.

use vstd::prelude::*;
use ahash::{AHashMap, AHashSet, RandomState};

verus! {

#[verifier::external_type_specification]
#[verifier::external_body]
pub struct ExRandomState(RandomState);

#[verifier::external_type_specification]
#[verifier::external_body]
#[verifier::reject_recursive_types(T)]
#[verifier::reject_recursive_types(S)]
pub struct ExAHashSet<T, S>(AHashSet<T, S>);

#[verifier::external_type_specification]
#[verifier::external_body]
#[verifier::reject_recursive_types(K)]
#[verifier::reject_recursive_types(V)]
#[verifier::reject_recursive_types(S)]
pub struct ExAHashMap<K, V, S>(AHashMap<K, V, S>);

/// The integers held by a set of `i128`.
pub uninterp spec fn int_set_contents(s: AHashSet<i128>) -> Set<int>;

/// The strings (as character sequences) held by a set of `String`.
pub uninterp spec fn text_set_contents(s: AHashSet<String>) -> Set<Seq<char>>;

/// The name-to-position entries of a column schema.
pub uninterp spec fn schema_contents(m: AHashMap<String, usize>) -> Map<Seq<char>, usize>;

/// The key-to-group-position entries of a grouping table.
pub uninterp spec fn group_table_contents(m: AHashMap<Option<String>, usize>) -> Map<Option<Seq<char>>, usize>;

/// View of an optional string as an optional character sequence.
pub open spec fn opt_text(o: Option<String>) -> Option<Seq<char>> {
    match o {
        Some(s) => Some(s@),
        None => None,
    }
}

/// `AHashSet::new`: an empty set.
#[verifier::external_body]
pub(crate) fn int_set_new() -> (s: AHashSet<i128>)
    ensures
        int_set_contents(s) == Set::<int>::empty(),
{
    AHashSet::new()
}

/// `HashSet::insert` (through `AHashSet`'s `DerefMut`): adds `v`, and returns
/// whether it was absent before.
#[verifier::external_body]
pub(crate) fn int_set_insert(s: &mut AHashSet<i128>, v: i128) -> (r: bool)
    ensures
        int_set_contents(*final(s)) == int_set_contents(*old(s)).insert(v as int),
        r == !int_set_contents(*old(s)).contains(v as int),
{
    s.insert(v)
}

/// `HashSet::len` (through `AHashSet`'s `Deref`): the number of elements.
#[verifier::external_body]
pub(crate) fn int_set_len(s: &AHashSet<i128>) -> (r: usize)
    ensures
        r == int_set_contents(*s).len(),
{
    s.len()
}

/// `AHashSet::new`: an empty set.
#[verifier::external_body]
pub(crate) fn text_set_new() -> (s: AHashSet<String>)
    ensures
        text_set_contents(s) == Set::<Seq<char>>::empty(),
{
    AHashSet::new()
}

/// `HashSet::insert` (through `AHashSet`'s `DerefMut`): adds `v`, and returns
/// whether an equal string was absent before.
#[verifier::external_body]
pub(crate) fn text_set_insert(s: &mut AHashSet<String>, v: String) -> (r: bool)
    ensures
        text_set_contents(*final(s)) == text_set_contents(*old(s)).insert(v@),
        r == !text_set_contents(*old(s)).contains(v@),
{
    s.insert(v)
}

/// `HashSet::len` (through `AHashSet`'s `Deref`): the number of elements.
#[verifier::external_body]
pub(crate) fn text_set_len(s: &AHashSet<String>) -> (r: usize)
    ensures
        r == text_set_contents(*s).len(),
{
    s.len()
}

/// `AHashMap::new`: an empty schema.
#[verifier::external_body]
pub(crate) fn schema_new() -> (m: AHashMap<String, usize>)
    ensures
        schema_contents(m) =~= Map::empty(),
{
    AHashMap::new()
}

/// `AHashMap::get`: the position stored under `name`, if any.
#[verifier::external_body]
pub(crate) fn schema_get(m: &AHashMap<String, usize>, name: &str) -> (r: Option<usize>)
    ensures
        r == (if schema_contents(*m).dom().contains(name@) {
            Some(schema_contents(*m)[name@])
        } else {
            None
        }),
{
    m.get(name).copied()
}

/// `AHashMap::insert`: stores `pos` under `name`, replacing any earlier entry.
#[verifier::external_body]
pub(crate) fn schema_insert(m: &mut AHashMap<String, usize>, name: String, pos: usize)
    ensures
        schema_contents(*final(m)) == schema_contents(*old(m)).insert(name@, pos),
{
    m.insert(name, pos);
}

/// `HashMap::keys` (through `AHashMap`'s `Deref`), cloned into a vector:
/// every name exactly once, in the map's iteration order, which this
/// contract leaves open.
#[verifier::external_body]
pub(crate) fn schema_names(m: &AHashMap<String, usize>) -> (r: Vec<String>)
    ensures
        r@.len() == schema_contents(*m).dom().len(),
        forall|i: int, j: int| 0 <= i < j < r@.len() ==> r@[i]@ != r@[j]@,
        forall|i: int| 0 <= i < r@.len() ==> schema_contents(*m).dom().contains(#[trigger] r@[i]@),
        forall|k: Seq<char>| schema_contents(*m).dom().contains(k) ==> exists|i: int| 0 <= i < r@.len() && #[trigger] r@[i]@ == k,
{
    m.keys().cloned().collect()
}

/// `AHashMap::clone`: a map with the same entries.
#[verifier::external_body]
pub(crate) fn schema_copy(m: &AHashMap<String, usize>) -> (r: AHashMap<String, usize>)
    ensures
        schema_contents(r) == schema_contents(*m),
{
    m.clone()
}

/// `AHashMap::new`: an empty grouping table.
#[verifier::external_body]
pub(crate) fn group_table_new() -> (m: AHashMap<Option<String>, usize>)
    ensures
        group_table_contents(m) =~= Map::empty(),
{
    AHashMap::new()
}

/// `AHashMap::get`: the position stored under `key`, if any.
#[verifier::external_body]
pub(crate) fn group_table_get(m: &AHashMap<Option<String>, usize>, key: &Option<String>) -> (r: Option<usize>)
    ensures
        r == (if group_table_contents(*m).dom().contains(opt_text(*key)) {
            Some(group_table_contents(*m)[opt_text(*key)])
        } else {
            None
        }),
{
    m.get(key).copied()
}

/// `AHashMap::insert`: stores `pos` under `key`, replacing any earlier entry.
#[verifier::external_body]
pub(crate) fn group_table_insert(m: &mut AHashMap<Option<String>, usize>, key: Option<String>, pos: usize)
    ensures
        group_table_contents(*final(m)) == group_table_contents(*old(m)).insert(opt_text(key), pos),
{
    m.insert(key, pos);
}

} // verus!
