use vstd::prelude::*;

verus! {

#[verifier::external_type_specification]
#[verifier::external_body]
#[verifier::reject_recursive_types(K)]
#[verifier::reject_recursive_types(V)]
pub struct ExRangeMap<K, V>(rangemap::RangeMap<K, V>);

/// What an address-keyed range map holds: the association from every
/// address covered by some stored range to that range's value.  Coalescing
/// of adjacent ranges never shows up in this view.
pub uninterp spec fn rm_contents(m: rangemap::RangeMap<u64, u64>) -> Map<u64, u64>;

/// Relies on rangemap::RangeMap::new: a fresh map stores no ranges.
#[verifier::external_body]
pub fn rm_new() -> (m: rangemap::RangeMap<u64, u64>)
    ensures
        forall|a: u64| !(#[trigger] rm_contents(m).dom().contains(a)),
{
    rangemap::RangeMap::new()
}

/// Relies on rangemap::RangeMap::insert: the inserted range maps to the
/// inserted value, replacing whatever part of any stored range it overlaps;
/// everything outside it is untouched.  An empty range panics there, so it
/// is excluded here.
#[verifier::external_body]
pub fn rm_insert(m: &mut rangemap::RangeMap<u64, u64>, start: u64, end: u64, v: u64)
    requires
        start < end,
    ensures
        forall|a: u64|
            start <= a < end ==> #[trigger] rm_contents(*final(m)).dom().contains(a)
                && rm_contents(*final(m))[a] == v,
        forall|a: u64|
            !(start <= a < end) ==> (#[trigger] rm_contents(*final(m)).dom().contains(a)
                <==> rm_contents(*old(m)).dom().contains(a)),
        forall|a: u64|
            !(start <= a < end) && rm_contents(*old(m)).dom().contains(a)
                ==> #[trigger] rm_contents(*final(m))[a] == rm_contents(*old(m))[a],
{
    m.insert(start..end, v);
}

/// Relies on rangemap::RangeMap::get: the value of the stored range that
/// covers the key, if one does.
#[verifier::external_body]
pub fn rm_get(m: &rangemap::RangeMap<u64, u64>, a: u64) -> (r: Option<u64>)
    ensures
        match r {
            Some(v) => rm_contents(*m).dom().contains(a) && rm_contents(*m)[a] == v,
            None => !rm_contents(*m).dom().contains(a),
        },
{
    m.get(&a).copied()
}

/// Relies on rangemap::RangeMap::overlapping: it yields the stored ranges
/// that overlap the query in ascending order, so the first one holds the
/// smallest covered address of the query window.
#[verifier::external_body]
pub fn rm_first_covered(m: &rangemap::RangeMap<u64, u64>, lo: u64, hi: u64) -> (r: Option<u64>)
    requires
        lo < hi,
    ensures
        match r {
            Some(s) => {
                &&& lo <= s < hi
                &&& rm_contents(*m).dom().contains(s)
                &&& forall|a: u64| lo <= a < s ==> !(#[trigger] rm_contents(*m).dom().contains(a))
            },
            None => forall|a: u64| lo <= a < hi ==> !(#[trigger] rm_contents(*m).dom().contains(a)),
        },
{
    match m.overlapping(lo..hi).next() {
        None => None,
        Some((r0, _)) => Some(if r0.start < lo { lo } else { r0.start }),
    }
}

/// Relies on rangemap::RangeMap::iter: all stored ranges with their values,
/// ascending, pairwise disjoint, non-empty, and together covering exactly
/// the map's contents.
#[verifier::external_body]
pub fn rm_entries(m: &rangemap::RangeMap<u64, u64>) -> (r: Vec<(u64, u64, u64)>)
    ensures
        forall|i: int| 0 <= i < r@.len() ==> (#[trigger] r@[i]).0 < r@[i].1,
        forall|i: int, a: u64|
            0 <= i < r@.len() && (#[trigger] r@[i]).0 <= a < r@[i].1
                ==> #[trigger] rm_contents(*m).dom().contains(a) && rm_contents(*m)[a] == r@[i].2,
        forall|i: int| 0 <= i < r@.len() - 1 ==> (#[trigger] r@[i]).1 <= r@[i + 1].0,
        forall|a: u64|
            #[trigger] rm_contents(*m).dom().contains(a)
                ==> exists|i: int| 0 <= i < r@.len() && (#[trigger] r@[i]).0 <= a && a < r@[i].1,
{
    m.iter().map(|p| (p.0.start, p.0.end, *p.1)).collect()
}

} // verus!
