//! Ordering and lookup of loaded levels.
//!
//! Default levels are named with plain numbers and are addressed by index in
//! numeric order of their names; a default level whose name is not a number
//! is a fatal loading error, since numeric ordering is required. Custom
//! levels are addressed by the `name` field embedded in the file, not by the
//! file's own name.

use vstd::prelude::*;

use crate::codec::{dec_digits, digits_val, is_digit_seq, lemma_dec_digits};
use crate::level::LevelData;

verus! {

/// Whether `s` is a canonical decimal numeral (the only accepted shape for
/// a default level's name).
pub open spec fn is_numeric_name(s: Seq<u8>) -> bool {
    &&& s.len() >= 1
    &&& is_digit_seq(s)
    &&& (s[0] == 48 ==> s.len() == 1)
    &&& digits_val(s) <= u64::MAX
}

/// Reads a level name as a number. Returns the value exactly when the name
/// is a canonical decimal numeral that fits; anything else is rejected, and
/// the caller treats that as a fatal loading error for a default level.
pub fn parse_numeric_name(name: &Vec<u8>) -> (r: Option<u64>)
    ensures
        r matches Some(v) ==> is_numeric_name(name@) && v == digits_val(name@),
        r is None ==> !is_numeric_name(name@),
{
    let end = match crate::codec::parse_u64(name, 0) {
        Some((v, end)) => {
            if end == name.len() {
                proof {
                    lemma_dec_digits(v as nat);
                    assert(name@.subrange(0, name@.len() as int) =~= name@);
                }
                return Some(v);
            }
            end
        },
        None => {
            proof {
                if is_numeric_name(name@) {
                    let v = digits_val(name@) as u64;
                    crate::codec::lemma_digits_val_canonical(name@);
                    assert(name@.subrange(0, name@.len() as int) =~= name@);
                    assert(name@.subrange(0, name@.len() as int) == dec_digits(v as nat));
                }
            }
            return None;
        },
    };
    // A numeral stopped before the end: the rest is not numeric.
    proof {
        if is_numeric_name(name@) {
            let v = digits_val(name@) as u64;
            crate::codec::lemma_digits_val_canonical(name@);
            assert(name@.subrange(0, name@.len() as int) =~= name@);
            assert(name@.subrange(0, name@.len() as int) == dec_digits(v as nat));
        }
    }
    None
}

/// The order in which the default levels are played: indices into `levels`
/// sorted by the numeric value of each level's name.
///
/// Fails exactly when some level's name is not a number: a malformed
/// default-level set aborts loading rather than silently defaulting. On
/// success the returned indices are a permutation of positions (each in
/// range, pairwise distinct, one per level) in ascending key order.
pub fn default_level_order(levels: &Vec<LevelData>) -> (r: Option<Vec<usize>>)
    ensures
        r is None <==> (exists|i: int|
            0 <= i < levels@.len() && !is_numeric_name((#[trigger] levels@[i]).name@)),
        r matches Some(order) ==> {
            &&& order@.len() == levels@.len()
            &&& forall|i: int| 0 <= i < order@.len() ==> (#[trigger] order@[i]) < levels@.len()
            &&& forall|i: int, j: int|
                0 <= i < j < order@.len() ==> #[trigger] order@[i] != #[trigger] order@[j]
            &&& forall|i: int, j: int|
                0 <= i < j < order@.len() ==> digits_val(
                    levels@[order@[i] as int].name@,
                ) <= digits_val(levels@[order@[j] as int].name@)
        },
{
    let n = levels.len();
    let mut keyed: Vec<(u64, usize)> = Vec::new();
    let mut i: usize = 0;
    while i < n
        invariant
            i <= n,
            n == levels@.len(),
            keyed@.len() == i,
            forall|j: int|
                0 <= j < i ==> is_numeric_name((#[trigger] levels@[j]).name@) && keyed@[j].1 == j
                    && keyed@[j].0 == digits_val(levels@[j].name@),
        decreases n - i,
    {
        match parse_numeric_name(&levels[i].name) {
            Some(v) => {
                keyed.push((v, i));
            },
            None => {
                return None;
            },
        }
        i += 1;
    }
    // Insertion sort on the keys, keeping every (key, index) pair.
    let mut sorted: Vec<(u64, usize)> = Vec::new();
    let mut i: usize = 0;
    while i < n
        invariant
            i <= n,
            n == levels@.len(),
            keyed@.len() == n,
            sorted@.len() == i,
            forall|j: int|
                0 <= j < n ==> is_numeric_name((#[trigger] levels@[j]).name@) && keyed@[j].1 == j
                    && keyed@[j].0 == digits_val(levels@[j].name@),
            forall|a: int, b: int| 0 <= a < b < i ==> sorted@[a].0 <= sorted@[b].0,
            forall|a: int|
                0 <= a < i ==> (#[trigger] sorted@[a]).1 < i && sorted@[a].0 == digits_val(
                    levels@[sorted@[a].1 as int].name@,
                ),
            forall|a: int, b: int| 0 <= a < b < i ==> sorted@[a].1 != sorted@[b].1,
        decreases n - i,
    {
        let pair = keyed[i];
        let mut k: usize = sorted.len();
        while k > 0 && sorted[k - 1].0 > pair.0
            invariant
                k <= sorted@.len(),
                forall|b: int| k <= b < sorted@.len() ==> pair.0 <= (#[trigger] sorted@[b]).0,
            decreases k,
        {
            k -= 1;
        }
        let ghost before = sorted@;
        let ghost kk = k as int;
        sorted.insert(k, pair);
        proof {
            assert(is_numeric_name(levels@[i as int].name@));
            assert(pair == keyed@[i as int]);
            assert(pair.1 == i && pair.0 == digits_val(levels@[i as int].name@));
            assert(forall|j: int| 0 <= j < kk ==> sorted@[j] == before[j]);
            assert(sorted@[kk] == pair);
            assert(forall|j: int| kk < j < sorted@.len() ==> sorted@[j] == before[j - 1]);
            assert forall|a: int, b: int| 0 <= a < b < i + 1 implies sorted@[a].0
                <= sorted@[b].0 by {
                if a < kk && b == kk && kk > 0 {
                    assert(before[a].0 <= before[kk - 1].0);
                }
                if a == kk && b > kk {
                    assert(pair.0 <= before[b - 1].0);
                }
            }
            assert forall|a: int|
                0 <= a < i + 1 implies (#[trigger] sorted@[a]).1 < i + 1 && sorted@[a].0
                == digits_val(levels@[sorted@[a].1 as int].name@) by {
                if a < kk {
                    assert(sorted@[a] == before[a]);
                } else if a == kk {
                    assert(sorted@[a] == pair);
                } else {
                    assert(sorted@[a] == before[a - 1]);
                }
            }
            assert forall|a: int, b: int| 0 <= a < b < i + 1 implies sorted@[a].1 != sorted@[b].1
                by {
                if a == kk {
                    assert(sorted@[b] == before[b - 1]);
                } else if b == kk {
                    assert(sorted@[a] == before[a]);
                }
            }
        }
        i += 1;
    }
    let mut order: Vec<usize> = Vec::new();
    let mut i: usize = 0;
    while i < n
        invariant
            i <= n,
            sorted@.len() == n,
            n == levels@.len(),
            order@.len() == i,
            forall|a: int, b: int| 0 <= a < b < n ==> sorted@[a].0 <= sorted@[b].0,
            forall|a: int|
                0 <= a < n ==> (#[trigger] sorted@[a]).1 < n && sorted@[a].0 == digits_val(
                    levels@[sorted@[a].1 as int].name@,
                ),
            forall|a: int, b: int| 0 <= a < b < n ==> sorted@[a].1 != sorted@[b].1,
            forall|a: int| 0 <= a < i ==> order@[a] == (#[trigger] sorted@[a]).1,
        decreases n - i,
    {
        order.push(sorted[i].1);
        i += 1;
    }
    proof {
        assert forall|a: int| 0 <= a < order@.len() implies (#[trigger] order@[a])
            < levels@.len() by {
            assert(order@[a] == sorted@[a].1);
        }
        assert forall|a: int, b: int|
            0 <= a < b < order@.len() implies #[trigger] order@[a] != #[trigger] order@[b] by {
            assert(order@[a] == sorted@[a].1);
            assert(order@[b] == sorted@[b].1);
        }
        assert forall|a: int, b: int|
            0 <= a < b < order@.len() implies digits_val(levels@[order@[a] as int].name@)
            <= digits_val(levels@[order@[b] as int].name@) by {
            assert(order@[a] == sorted@[a].1);
            assert(order@[b] == sorted@[b].1);
        }
    }
    Some(order)
}

/// Finds a custom level by the name embedded in its file: the first level
/// whose name matches, or nothing.
pub fn find_custom_level(levels: &Vec<LevelData>, name: &Vec<u8>) -> (r: Option<usize>)
    ensures
        r matches Some(i) ==> i < levels@.len() && levels@[i as int].name@ == name@ && (forall|
            j: int,
        |
            0 <= j < i ==> (#[trigger] levels@[j]).name@ != name@),
        r is None ==> forall|j: int| 0 <= j < levels@.len() ==> (#[trigger] levels@[j]).name@ != name@,
{
    let n = levels.len();
    let mut i: usize = 0;
    while i < n
        invariant
            i <= n,
            n == levels@.len(),
            forall|j: int| 0 <= j < i ==> (#[trigger] levels@[j]).name@ != name@,
        decreases n - i,
    {
        if bytes_eq(&levels[i].name, name) {
            return Some(i);
        }
        i += 1;
    }
    None
}

/// Byte-for-byte equality of two byte strings.
pub fn bytes_eq(a: &Vec<u8>, b: &Vec<u8>) -> (r: bool)
    ensures
        r == (a@ == b@),
{
    if a.len() != b.len() {
        return false;
    }
    let n = a.len();
    let mut i: usize = 0;
    while i < n
        invariant
            i <= n,
            n == a@.len() == b@.len(),
            forall|j: int| 0 <= j < i ==> a@[j] == b@[j],
        decreases n - i,
    {
        if a[i] != b[i] {
            return false;
        }
        i += 1;
    }
    proof {
        assert(a@ =~= b@);
    }
    true
}

} // verus!
