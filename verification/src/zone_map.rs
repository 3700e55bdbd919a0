//! The zone map: entry `k` names the device zone whose readings are shown
//! and sent as output zone `k`.

use vstd::prelude::*;
use crate::NUM_ZONES;
use vstd::relations::injective_on;
use vstd::set_lib::{lemma_int_range, lemma_len_subset, lemma_map_size, lemma_map_size_bound, lemma_subset_equality, set_int_range};

verus! {

/// Outcome of checking a zone map, as the configuration screen reports it.
#[derive(Debug, Clone, Copy, PartialEq, Eq, Structural)]
pub enum ZoneMapCheck {
    /// Some device zone is named by two entries.
    Duplicate,
    /// Exactly one entry for each device zone: a permutation.
    Complete,
    /// Neither: too short or too long, or a zone left out, with no duplicate.
    Partial,
}

/// Two entries name the same device zone (entries naming no zone of the
/// device are not counted).
pub open spec fn has_duplicate_zone(m: Seq<usize>) -> bool {
    exists|i: int, j: int| 0 <= i < j < m.len() && m[i] == m[j] && m[i] < NUM_ZONES
}

/// Every device zone is named by some entry.
pub open spec fn covers_all_zones(m: Seq<usize>) -> bool {
    forall|z: usize| z < NUM_ZONES ==> #[trigger] m.contains(z)
}

/// What checking `m` reports.
pub open spec fn zone_map_check(m: Seq<usize>) -> ZoneMapCheck {
    if has_duplicate_zone(m) {
        ZoneMapCheck::Duplicate
    } else if m.len() == NUM_ZONES && covers_all_zones(m) {
        ZoneMapCheck::Complete
    } else {
        ZoneMapCheck::Partial
    }
}

/// The identity map: output zone `k` shows device zone `k`.
pub open spec fn identity_zone_map() -> Seq<usize> {
    Seq::new(NUM_ZONES as nat, |i: int| i as usize)
}

/// `i` is the first position of `z` in `m`.
pub open spec fn is_first_position(m: Seq<usize>, z: usize, i: int) -> bool {
    &&& 0 <= i < m.len()
    &&& m[i] == z
    &&& forall|j: int| 0 <= j < i ==> m[j] != z
}

/// The output zone for `device_zone`: the first entry of `m` that names it,
/// or the device zone itself where no entry does.
pub open spec fn output_zone_spec(m: Seq<usize>, device_zone: usize, r: usize) -> bool {
    &&& m.contains(device_zone) ==> is_first_position(m, device_zone, r as int)
    &&& !m.contains(device_zone) ==> r == device_zone
}

/// The map that the "Reset to Default" button sets.
pub fn default_zone_map() -> (m: Vec<usize>)
    ensures
        m@ == identity_zone_map(),
{
    let mut m: Vec<usize> = Vec::new();
    let mut k: usize = 0;
    while k < NUM_ZONES
        invariant
            k <= NUM_ZONES,
            m@ == Seq::new(k as nat, |i: int| i as usize),
        decreases NUM_ZONES - k,
    {
        m.push(k);
        k = k + 1;
    }
    m
}

/// The map that the "Reverse Order" button sets: the entries in reverse order.
pub fn reversed_zone_map(m: &[usize]) -> (r: Vec<usize>)
    ensures
        r@ == m@.reverse(),
{
    let mut r: Vec<usize> = Vec::new();
    let mut k: usize = m.len();
    while k > 0
        invariant
            k <= m@.len(),
            r@.len() == m@.len() - k,
            forall|i: int| 0 <= i < r@.len() ==> r@[i] == m@[m@.len() - 1 - i],
        decreases k,
    {
        k = k - 1;
        r.push(m[k]);
    }
    assert(r@ =~= m@.reverse());
    r
}

/// Checks a zone map for duplicate entries and for completeness.
pub fn check_zone_map(m: &[usize]) -> (res: ZoneMapCheck)
    ensures
        res == zone_map_check(m@),
{
    let mut used: Vec<bool> = Vec::new();
    let mut z: usize = 0;
    while z < NUM_ZONES
        invariant
            z <= NUM_ZONES,
            used@.len() == z,
            forall|i: int| 0 <= i < z ==> !used@[i],
        decreases NUM_ZONES - z,
    {
        used.push(false);
        z = z + 1;
    }
    let mut k: usize = 0;
    while k < m.len()
        invariant
            k <= m@.len(),
            used@.len() == NUM_ZONES,
            forall|a: int, b: int| 0 <= a < b < k ==> !(m@[a] == m@[b] && m@[a] < NUM_ZONES),
            forall|y: int| 0 <= y < NUM_ZONES ==>
                (used@[y] <==> exists|a: int| 0 <= a < k && m@[a] == y),
        decreases m@.len() - k,
    {
        let zone = m[k];
        if zone < NUM_ZONES {
            if used[zone] {
                let ghost a = choose|a: int| 0 <= a < k && m@[a] == zone;
                assert(0 <= a < k && m@[a] == m@[k as int] && m@[a] < NUM_ZONES);
                return ZoneMapCheck::Duplicate;
            }
            used.set(zone, true);
        }
        proof {
            assert forall|y: int| 0 <= y < NUM_ZONES implies
                (used@[y] <==> exists|a: int| 0 <= a < k + 1 && m@[a] == y) by {
                if used@[y] && y != m@[k as int] {
                    let a = choose|a: int| 0 <= a < k && m@[a] == y;
                    assert(0 <= a < k + 1 && m@[a] == y);
                }
                if y == m@[k as int] {
                    assert(0 <= k < k + 1 && m@[k as int] == y);
                }
            }
        }
        k = k + 1;
    }
    assert(!has_duplicate_zone(m@));
    if m.len() != NUM_ZONES {
        return ZoneMapCheck::Partial;
    }
    let mut y: usize = 0;
    while y < NUM_ZONES
        invariant
            y <= NUM_ZONES,
            used@.len() == NUM_ZONES,
            m@.len() == NUM_ZONES,
            !has_duplicate_zone(m@),
            forall|w: int| 0 <= w < NUM_ZONES ==>
                (used@[w] <==> exists|a: int| 0 <= a < m@.len() && m@[a] == w),
            forall|w: usize| w < y ==> #[trigger] m@.contains(w),
        decreases NUM_ZONES - y,
    {
        if !used[y] {
            assert(!m@.contains(y));
            assert(!covers_all_zones(m@));
            return ZoneMapCheck::Partial;
        }
        y = y + 1;
    }
    ZoneMapCheck::Complete
}

/// The output zone under which readings of `device_zone` appear: the
/// position of the first entry that names it, or `device_zone` itself when
/// no entry names it.
pub fn map_zone(m: &[usize], device_zone: usize) -> (r: usize)
    ensures
        output_zone_spec(m@, device_zone, r),
{
    let mut k: usize = 0;
    while k < m.len()
        invariant
            k <= m@.len(),
            forall|j: int| 0 <= j < k ==> m@[j] != device_zone,
        decreases m@.len() - k,
    {
        if m[k] == device_zone {
            return k;
        }
        k = k + 1;
    }
    device_zone
}

/// The default map is a complete map.
pub proof fn lemma_default_map_complete()
    ensures
        zone_map_check(identity_zone_map()) == ZoneMapCheck::Complete,
{
    let m = identity_zone_map();
    assert forall|z: usize| z < NUM_ZONES implies #[trigger] m.contains(z) by {
        assert(m[z as int] == z);
    }
}

/// Under the default map every device zone is shown as the output zone of
/// the same number, and a zone number outside the device is passed through.
pub proof fn lemma_default_map_is_identity(device_zone: usize, r: usize)
    ensures
        output_zone_spec(identity_zone_map(), device_zone, r) <==> r == device_zone,
{
    let m = identity_zone_map();
    if device_zone < NUM_ZONES {
        assert(m[device_zone as int] == device_zone);
    }
}

/// Reversing a map twice gives the map back.
pub proof fn lemma_reverse_twice(m: Seq<usize>)
    ensures
        m.reverse().reverse() == m,
{
    assert(m.reverse().reverse() =~= m);
}

/// Reversing a map changes neither whether it has a duplicate nor whether
/// it is complete.
pub proof fn lemma_reverse_keeps_check(m: Seq<usize>)
    ensures
        zone_map_check(m.reverse()) == zone_map_check(m),
{
    let r = m.reverse();
    let n = m.len() as int;
    assert(r.len() == n);
    if has_duplicate_zone(m) {
        let (i, j) = choose|i: int, j: int| 0 <= i < j < m.len() && m[i] == m[j] && m[i] < NUM_ZONES;
        assert(r[n - 1 - j] == m[j] && r[n - 1 - i] == m[i]);
        assert(has_duplicate_zone(r));
    }
    if has_duplicate_zone(r) {
        let (i, j) = choose|i: int, j: int| 0 <= i < j < r.len() && r[i] == r[j] && r[i] < NUM_ZONES;
        assert(m[n - 1 - j] == r[j] && m[n - 1 - i] == r[i]);
        assert(has_duplicate_zone(m));
    }
    assert forall|z: usize| #![trigger m.contains(z)] #![trigger r.contains(z)]
        m.contains(z) <==> r.contains(z) by {
        if m.contains(z) {
            let i = choose|i: int| 0 <= i < n && m[i] == z;
            assert(r[n - 1 - i] == z);
        }
        if r.contains(z) {
            let i = choose|i: int| 0 <= i < n && r[i] == z;
            assert(m[n - 1 - i] == z);
        }
    }
    assert(covers_all_zones(m) <==> covers_all_zones(r));
}

/// In a complete map, the output zone found for a device zone is the one
/// entry that names it, and every device zone is found.
pub proof fn lemma_complete_map_finds_zone(m: Seq<usize>, device_zone: usize, r: usize)
    requires
        zone_map_check(m) == ZoneMapCheck::Complete,
        device_zone < NUM_ZONES,
        output_zone_spec(m, device_zone, r),
    ensures
        r < NUM_ZONES,
        m[r as int] == device_zone,
{
    assert(m.contains(device_zone));
}

/// In a complete map, the device zone named by entry `k` is shown as output
/// zone `k` and as no other.
pub proof fn lemma_complete_map_inverts(m: Seq<usize>, k: int, r: usize)
    requires
        zone_map_check(m) == ZoneMapCheck::Complete,
        0 <= k < NUM_ZONES,
    ensures
        output_zone_spec(m, m[k], r) <==> r == k,
{
    let z = m[k];
    assert(m.contains(z));
    if z < NUM_ZONES {
        assert forall|j: int| 0 <= j < m.len() && j != k implies m[j] != z by {
            if j < k {
                assert(!(m[j] == m[k] && m[j] < NUM_ZONES));
            } else {
                assert(!(m[k] == m[j] && m[k] < NUM_ZONES));
            }
        }
    } else {
        lemma_complete_map_values(m);
    }
}

/// Every entry of a complete map names a zone of the device.
pub proof fn lemma_complete_map_values(m: Seq<usize>)
    requires
        zone_map_check(m) == ZoneMapCheck::Complete,
    ensures
        forall|k: int| 0 <= k < m.len() ==> m[k] < NUM_ZONES,
{
    let n = NUM_ZONES as int;
    let positions = set_int_range(0, n);
    let f = |k: int| m[k] as int;
    let values = positions.map(f);
    let zones = set_int_range(0, n);
    lemma_int_range(0, n);
    lemma_map_size_bound(positions, values, f);
    assert forall|z: int| #[trigger] zones.contains(z) implies values.contains(z) by {
        assert(m.contains(z as usize));
        let k = choose|k: int| 0 <= k < m.len() && m[k] == z as usize;
        assert(positions.contains(k) && f(k) == z);
    }
    lemma_len_subset(zones, values);
    lemma_subset_equality(zones, values);
    assert forall|k: int| 0 <= k < m.len() implies m[k] < NUM_ZONES by {
        assert(positions.contains(k));
        assert(values.contains(f(k)));
        assert(zones.contains(f(k)));
    }
}

/// Under the reversed map a device zone of a complete map appears at the
/// mirrored output zone.
pub proof fn lemma_reversed_map_mirrors(m: Seq<usize>, device_zone: usize, r: usize)
    requires
        zone_map_check(m) == ZoneMapCheck::Complete,
        device_zone < NUM_ZONES,
        output_zone_spec(m, device_zone, r),
    ensures
        output_zone_spec(m.reverse(), device_zone, (NUM_ZONES - 1 - r) as usize),
{
    lemma_complete_map_finds_zone(m, device_zone, r);
    lemma_reverse_keeps_check(m);
    let rev = m.reverse();
    let k = (NUM_ZONES - 1 - r) as int;
    assert(rev[k] == device_zone);
    lemma_complete_map_inverts(rev, k, (NUM_ZONES - 1 - r) as usize);
}

/// Two entries that name the same device zone make the check report a
/// duplicate, whatever else the map holds.
pub proof fn lemma_duplicate_reported(m: Seq<usize>, i: int, j: int)
    requires
        0 <= i < j < m.len(),
        m[i] == m[j],
        m[i] < NUM_ZONES,
    ensures
        zone_map_check(m) == ZoneMapCheck::Duplicate,
{
}

/// A duplicate is reported only where two entries name the same device zone.
pub proof fn lemma_duplicate_only_if_repeated(m: Seq<usize>)
    ensures
        zone_map_check(m) == ZoneMapCheck::Duplicate ==> exists|i: int, j: int|
            0 <= i < j < m.len() && m[i] == m[j] && m[i] < NUM_ZONES,
{
}

/// A map is reported complete exactly when it is a permutation of the
/// device zones: eight entries, each naming a device zone, no two the same.
pub proof fn lemma_complete_iff_permutation(m: Seq<usize>)
    ensures
        zone_map_check(m) == ZoneMapCheck::Complete <==> {
            &&& m.len() == NUM_ZONES
            &&& forall|i: int| 0 <= i < m.len() ==> m[i] < NUM_ZONES
            &&& forall|i: int, j: int| 0 <= i < j < m.len() ==> m[i] != m[j]
        },
{
    if zone_map_check(m) == ZoneMapCheck::Complete {
        lemma_complete_map_values(m);
        assert forall|i: int, j: int| 0 <= i < j < m.len() implies m[i] != m[j] by {
            if m[i] == m[j] {
                assert(has_duplicate_zone(m));
            }
        }
    }
    if m.len() == NUM_ZONES && (forall|i: int| 0 <= i < m.len() ==> m[i] < NUM_ZONES) && (
    forall|i: int, j: int| 0 <= i < j < m.len() ==> m[i] != m[j]) {
        let n = NUM_ZONES as int;
        let positions = set_int_range(0, n);
        let f = |k: int| m[k] as int;
        let values = positions.map(f);
        let zones = set_int_range(0, n);
        lemma_int_range(0, n);
        assert(injective_on(f, positions)) by {
            assert forall|a: int, b: int|
                positions.contains(a) && positions.contains(b) && #[trigger] f(a) == #[trigger] f(b) implies a == b by {
                if a < b {
                    assert(m[a] != m[b]);
                } else if b < a {
                    assert(m[b] != m[a]);
                }
            }
        }
        lemma_map_size(positions, values, f);
        assert forall|v: int| #[trigger] values.contains(v) implies zones.contains(v) by {
            let k = choose|k: int| positions.contains(k) && f(k) == v;
            assert(m[k] < NUM_ZONES);
        }
        lemma_subset_equality(values, zones);
        assert forall|z: usize| z < NUM_ZONES implies #[trigger] m.contains(z) by {
            assert(zones.contains(z as int));
            assert(values.contains(z as int));
            let k = choose|k: int| positions.contains(k) && f(k) == z as int;
            assert(m[k] == z);
        }
        assert(!has_duplicate_zone(m));
    }
}

} // verus!
