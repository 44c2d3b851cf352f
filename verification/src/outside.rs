use vstd::prelude::*;
use vstd::multiset::Multiset;
use crate::yarp_meta::UnitIdentifier;
use crate::yarp_meta::YarpUnit;
use crate::yarp_meta::key_idx_v;
use crate::yarp_meta::lifted_models;
use crate::yarp_meta::lifted_units;

verus! {

// ---------------------------------------------------------------------------
// heck
// ---------------------------------------------------------------------------
/// The upper-snake ("shouty snake") conversion of a string, as heck computes
/// it.  It depends on the characters of the input alone.
pub uninterp spec fn shouty_snake_of(s: Seq<char>) -> Seq<char>;

/// Relies on heck's `ToShoutySnakeCase for str`: converts a string to
/// SHOUTY_SNAKE_CASE; the result depends on the input characters alone.
#[verifier::external_body]
pub(crate) fn to_shouty_snake_case(s: &str) -> (r: String)
    ensures
        r@ == shouty_snake_of(s@),
{
    heck::ToShoutySnakeCase::to_shouty_snake_case(s)
}

// ---------------------------------------------------------------------------
// std: str::trim
// ---------------------------------------------------------------------------
/// A string with its leading and trailing whitespace removed, as `str::trim`
/// computes it.  It depends on the characters of the input alone.
pub uninterp spec fn trim_of(s: Seq<char>) -> Seq<char>;

/// Relies on `str::trim`: removes leading and trailing whitespace.  Trimming
/// a trimmed string changes nothing, and the empty string stays empty.
#[verifier::external_body]
pub(crate) fn trim_str(s: &str) -> (r: String)
    ensures
        r@ == trim_of(s@),
        trim_of(r@) == r@,
        s@.len() == 0 ==> r@.len() == 0,
{
    s.trim().to_string()
}

// ---------------------------------------------------------------------------
// idcontain
// ---------------------------------------------------------------------------
#[verifier::external_type_specification]
#[verifier::external_body]
#[verifier::reject_recursive_types(T)]
pub struct ExIdSlab<T>(idcontain::IdSlab<T>);

/// What an identifier slab holds, as a multiset of its stored values.
pub uninterp spec fn slab_contents(s: idcontain::IdSlab<UnitIdentifier>) -> Multiset<
    UnitIdentifier,
>;

/// Relies on `IdSlab::new`: creates an empty slab.
#[verifier::external_body]
pub(crate) fn slab_new() -> (r: idcontain::IdSlab<UnitIdentifier>)
    ensures
        slab_contents(r) == Multiset::<UnitIdentifier>::empty(),
{
    idcontain::IdSlab::new()
}

/// Relies on `IdSlab::insert` and the slab's `Index` impl: `insert` stores
/// the value and returns its fresh id, and indexing by that id yields the
/// value just stored.  `insert` asserts that the slab is below its maximum
/// capacity of `u32::MAX - 1` elements, so callers must stay below it.
#[verifier::external_body]
pub(crate) fn slab_store(
    slab: &mut idcontain::IdSlab<UnitIdentifier>,
    id: UnitIdentifier,
) -> (r: UnitIdentifier)
    requires
        slab_contents(*old(slab)).len() < 0xFFFF_FFFE,
    ensures
        r == id,
        slab_contents(*final(slab)) == slab_contents(*old(slab)).insert(id),
{
    let key = slab.insert(id);
    slab[key].clone()
}

// ---------------------------------------------------------------------------
// indexmap
// ---------------------------------------------------------------------------
#[verifier::external_type_specification]
#[verifier::external_body]
#[verifier::reject_recursive_types(K)]
#[verifier::reject_recursive_types(V)]
#[verifier::reject_recursive_types(S)]
pub struct ExIndexMap<K, V, S>(indexmap::IndexMap<K, V, S>);

/// What the entity map holds: its key-value pairs in insertion order.
pub uninterp spec fn unit_entries(m: indexmap::IndexMap<UnitIdentifier, YarpUnit>) -> Seq<
    (UnitIdentifier, YarpUnit),
>;

/// What the model map holds: its key-value pairs in insertion order.
pub uninterp spec fn model_entries(m: indexmap::IndexMap<UnitIdentifier, String>) -> Seq<
    (UnitIdentifier, String),
>;

/// Relies on `IndexMap::new`: creates an empty map.
#[verifier::external_body]
pub(crate) fn umap_new() -> (r: indexmap::IndexMap<UnitIdentifier, YarpUnit>)
    ensures
        unit_entries(r) == Seq::<(UnitIdentifier, YarpUnit)>::empty(),
{
    indexmap::IndexMap::new()
}

/// Relies on `IndexMap::insert`: if an equivalent key exists, that key keeps
/// its place in the order and its value is replaced; otherwise the pair is
/// appended last.  `UnitIdentifier`'s derived equality compares the wrapped
/// strings character for character, which is equality of the views.
#[verifier::external_body]
pub(crate) fn umap_insert(
    m: &mut indexmap::IndexMap<UnitIdentifier, YarpUnit>,
    k: UnitIdentifier,
    v: YarpUnit,
)
    ensures
        ({
            let s = unit_entries(*old(m));
            let i = key_idx_v(lifted_units(s), k@);
            unit_entries(*final(m)) == if i >= 0 {
                s.update(i, (s[i].0, v))
            } else {
                s.push((k, v))
            }
        }),
{
    m.insert(k, v);
}

/// Relies on `IndexMap::get`: returns the stored value for an equivalent
/// key, if one is present.  Key equivalence is equality of the views, as for
/// `insert`.
#[verifier::external_body]
pub(crate) fn umap_get<'a>(
    m: &'a indexmap::IndexMap<UnitIdentifier, YarpUnit>,
    k: &UnitIdentifier,
) -> (r: Option<&'a YarpUnit>)
    ensures
        ({
            let s = unit_entries(*m);
            let i = key_idx_v(lifted_units(s), k@);
            match r {
                Option::Some(v) => i >= 0 && *v == s[i].1,
                Option::None => i < 0,
            }
        }),
{
    m.get(k)
}

/// Relies on `IndexMap::iter`: visits the pairs in insertion order.  The
/// derived clones of key and value copy their strings and vectors element
/// for element.
#[verifier::external_body]
pub(crate) fn umap_entries_vec(m: &indexmap::IndexMap<UnitIdentifier, YarpUnit>) -> (r: Vec<
    (UnitIdentifier, YarpUnit),
>)
    ensures
        r@ == unit_entries(*m),
{
    m.iter().map(|(k, v)| (k.clone(), v.clone())).collect()
}

/// Relies on `IndexMap::new`: creates an empty map.
#[verifier::external_body]
pub(crate) fn mmap_new() -> (r: indexmap::IndexMap<UnitIdentifier, String>)
    ensures
        model_entries(r) == Seq::<(UnitIdentifier, String)>::empty(),
{
    indexmap::IndexMap::new()
}

/// Relies on `IndexMap::insert`: if an equivalent key exists, that key keeps
/// its place in the order and its value is replaced; otherwise the pair is
/// appended last.  Key equivalence is equality of the views.
#[verifier::external_body]
pub(crate) fn mmap_insert(
    m: &mut indexmap::IndexMap<UnitIdentifier, String>,
    k: UnitIdentifier,
    v: String,
)
    ensures
        ({
            let s = model_entries(*old(m));
            let i = key_idx_v(lifted_models(s), k@);
            model_entries(*final(m)) == if i >= 0 {
                s.update(i, (s[i].0, v))
            } else {
                s.push((k, v))
            }
        }),
{
    m.insert(k, v);
}

/// Relies on `IndexMap::iter`: visits the pairs in insertion order.  The
/// derived clones of key and value copy their strings element for element.
#[verifier::external_body]
pub(crate) fn mmap_entries_vec(m: &indexmap::IndexMap<UnitIdentifier, String>) -> (r: Vec<
    (UnitIdentifier, String),
>)
    ensures
        r@ == model_entries(*m),
{
    m.iter().map(|(k, v)| (k.clone(), v.clone())).collect()
}

} // verus!
