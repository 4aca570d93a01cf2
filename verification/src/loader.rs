//! Validation of externally grouped content.
//!
//! One content shape groups lot lists under string keys that name category
//! ids.  The loader turns such groupings into an integer-keyed dictionary
//! and enforces the structural rules: every key must parse as a
//! non-negative integer, and no two keys may collide after parsing.
use std::collections::HashMap;
use vstd::prelude::*;

use crate::category::Category;
use crate::engine::LoadError;
use crate::lot::Lot;

verus! {

/// `c` is a decimal digit.
pub open spec fn is_decimal_digit(c: char) -> bool {
    '0' <= c && c <= '9'
}

/// The numeric value of a digit sequence read in base ten.
pub open spec fn decimal_value(digits: Seq<char>) -> int
    decreases digits.len(),
{
    if digits.len() == 0 {
        0
    } else {
        decimal_value(digits.drop_last()) * 10 + (digits.last() as int - '0' as int)
    }
}

/// The digit part of a numeral: the standard integer parser allows one
/// leading plus sign before the digits.
pub open spec fn spec_digits_of(s: Seq<char>) -> Seq<char> {
    if s.len() > 0 && s[0] == '+' {
        s.skip(1)
    } else {
        s
    }
}

/// `s` parses as a non-negative integer that fits 32 bits.
pub open spec fn spec_is_u32_numeral(s: Seq<char>) -> bool {
    &&& spec_digits_of(s).len() > 0
    &&& forall|i: int|
        0 <= i < spec_digits_of(s).len() ==> is_decimal_digit(#[trigger] spec_digits_of(s)[i])
    &&& decimal_value(spec_digits_of(s)) <= u32::MAX
}

/// A digit sequence never reads as a negative value.
proof fn lemma_decimal_value_nonneg(digits: Seq<char>)
    requires
        forall|i: int| 0 <= i < digits.len() ==> is_decimal_digit(#[trigger] digits[i]),
    ensures
        decimal_value(digits) >= 0,
    decreases digits.len(),
{
    if digits.len() > 0 {
        assert(forall|i: int|
            0 <= i < digits.len() - 1 ==> digits[i] == #[trigger] digits.drop_last()[i]);
        lemma_decimal_value_nonneg(digits.drop_last());
        assert(is_decimal_digit(digits.last()));
    }
}

/// Reading more digits can only grow the value.
proof fn lemma_decimal_prefix_le(digits: Seq<char>, i: int)
    requires
        forall|k: int| 0 <= k < digits.len() ==> is_decimal_digit(#[trigger] digits[k]),
        0 <= i <= digits.len(),
    ensures
        decimal_value(digits.take(i)) <= decimal_value(digits),
    decreases digits.len() - i,
{
    if i < digits.len() {
        assert(forall|k: int| 0 <= k < i + 1 ==> digits.take(i + 1)[k] == digits[k]);
        assert(digits.take(i + 1).drop_last() =~= digits.take(i));
        assert(digits.take(i + 1).last() == digits[i]);
        assert(forall|k: int|
            0 <= k < digits.take(i).len() ==> is_decimal_digit(#[trigger] digits.take(i)[k]));
        lemma_decimal_value_nonneg(digits.take(i));
        assert(decimal_value(digits.take(i + 1)) == decimal_value(digits.take(i)) * 10 + (digits[i]
            as int - '0' as int));
        assert(decimal_value(digits.take(i)) <= decimal_value(digits.take(i + 1)));
        lemma_decimal_prefix_le(digits, i + 1);
        assert(digits.take(digits.len() as int) =~= digits);
    } else {
        assert(digits.take(i) =~= digits);
    }
}

/// Parses a category key as the standard integer parser would: an optional
/// leading plus sign, then decimal digits, rejecting the empty digit
/// string, any other character, and values beyond 32 bits.
#[verifier::loop_isolation(false)]
pub fn parse_u32_key(s: &str) -> (r: Option<u32>)
    ensures
        (r is Some) <==> spec_is_u32_numeral(s@),
        r is Some ==> r.unwrap() == decimal_value(spec_digits_of(s@)),
{
    let n = s.unicode_len();
    let mut start: usize = 0;
    if n > 0 && s.get_char(0) == '+' {
        start = 1;
    }
    let ghost digits = spec_digits_of(s@);
    proof {
        assert(digits =~= s@.skip(start as int));
    }
    if start == n {
        return None;
    }
    let mut acc: u64 = 0;
    let mut i: usize = start;
    while i < n
        invariant
            start <= i <= n,
            acc == decimal_value(digits.take(i - start)),
            acc <= u32::MAX,
            forall|k: int| 0 <= k < i - start ==> is_decimal_digit(#[trigger] digits[k]),
        decreases n - i,
    {
        let c = s.get_char(i);
        proof {
            assert(digits[i - start] == s@[i as int]);
        }
        if !(c >= '0' && c <= '9') {
            proof {
                assert(!is_decimal_digit(digits[i - start]));
            }
            return None;
        }
        let d = (c as u32) - ('0' as u32);
        proof {
            assert(digits.take(i - start + 1).drop_last() =~= digits.take(i - start));
            assert(digits.take(i - start + 1).last() == digits[i - start]);
        }
        acc = acc * 10 + (d as u64);
        if acc > (u32::MAX as u64) {
            proof {
                assert(decimal_value(digits.take(i - start + 1)) > u32::MAX);
                if forall|k: int| 0 <= k < digits.len() ==> is_decimal_digit(#[trigger] digits[k]) {
                    lemma_decimal_prefix_le(digits, i - start + 1);
                }
            }
            return None;
        }
        i = i + 1;
    }
    proof {
        assert(digits.take(n - start) =~= digits);
    }
    Some(acc as u32)
}

/// The dictionary a keyed grouping stands for: each lot list keyed by its
/// parsed key.
pub open spec fn lots_map_of(entries: Seq<(String, Vec<Lot>)>) -> Map<u32, Vec<Lot>>
    decreases entries.len(),
{
    if entries.len() == 0 {
        Map::empty()
    } else {
        lots_map_of(entries.drop_last()).insert(
            decimal_value(spec_digits_of(entries.last().0@)) as u32,
            entries.last().1,
        )
    }
}

/// Every key of the grouping parses as a non-negative 32-bit integer.
pub open spec fn lots_keys_numeric(entries: Seq<(String, Vec<Lot>)>) -> bool {
    forall|i: int|
        0 <= i < entries.len() ==> spec_is_u32_numeral((#[trigger] entries[i]).0@)
}

/// No two keys of the grouping collide after parsing.
pub open spec fn lots_keys_unique(entries: Seq<(String, Vec<Lot>)>) -> bool {
    forall|i: int, j: int|
        0 <= i < j < entries.len() ==> decimal_value(spec_digits_of((#[trigger] entries[i]).0@))
            != decimal_value(spec_digits_of((#[trigger] entries[j]).0@))
}

/// The dictionary's keys are exactly the parsed keys occurring in the
/// grouping.
pub proof fn lemma_lots_map_of_contains(entries: Seq<(String, Vec<Lot>)>, k: u32)
    requires
        lots_keys_numeric(entries),
    ensures
        lots_map_of(entries).contains_key(k) <==> exists|i: int|
            0 <= i < entries.len() && decimal_value(spec_digits_of((#[trigger] entries[i]).0@))
                == k,
    decreases entries.len(),
{
    if entries.len() > 0 {
        assert(forall|i: int|
            0 <= i < entries.len() - 1 ==> entries[i] == #[trigger] entries.drop_last()[i]);
        lemma_lots_map_of_contains(entries.drop_last(), k);
        let lastv = decimal_value(spec_digits_of(entries.last().0@));
        assert(spec_is_u32_numeral(entries[entries.len() - 1].0@));
        lemma_decimal_value_nonneg(spec_digits_of(entries.last().0@));
        assert(0 <= lastv <= u32::MAX);
        if lots_map_of(entries).contains_key(k) {
            if lastv as u32 == k {
                assert(decimal_value(spec_digits_of(entries[entries.len() - 1].0@)) == k);
            } else {
                let i = choose|i: int|
                    0 <= i < entries.drop_last().len() && decimal_value(
                        spec_digits_of((#[trigger] entries.drop_last()[i]).0@),
                    ) == k;
                assert(decimal_value(spec_digits_of(entries[i].0@)) == k);
            }
        }
        if exists|i: int|
            0 <= i < entries.len() && decimal_value(spec_digits_of((#[trigger] entries[i]).0@))
                == k {
            let i = choose|i: int|
                0 <= i < entries.len() && decimal_value(spec_digits_of((#[trigger] entries[i]).0@))
                    == k;
            if i < entries.len() - 1 {
                assert(decimal_value(spec_digits_of(entries.drop_last()[i].0@)) == k);
            } else {
                assert(lastv as u32 == k);
            }
        }
    }
}

/// Groups lot lists under their parsed integer keys.
///
/// The load fails — and no dictionary is built — exactly when some key does
/// not parse as a non-negative 32-bit integer or two keys parse to the same
/// integer; the error carries the offending key.
#[verifier::loop_isolation(false)]
pub fn lots_map_from_entries(entries: Vec<(String, Vec<Lot>)>) -> (r: Result<
    HashMap<u32, Vec<Lot>>,
    LoadError,
>)
    ensures
        (r is Ok) <==> (lots_keys_numeric(entries@) && lots_keys_unique(entries@)),
        r is Ok ==> r.unwrap()@ == lots_map_of(entries@),
        r is Err ==> match r {
            Result::Err(LoadError::NonNumericLotsKey(key)) => exists|i: int|
                0 <= i < entries@.len() && (#[trigger] entries@[i]).0 == key
                    && !spec_is_u32_numeral(key@),
            Result::Err(LoadError::DuplicateLotsKey(k)) => exists|i: int, j: int|
                0 <= i < j < entries@.len() && decimal_value(
                    spec_digits_of((#[trigger] entries@[i]).0@),
                ) == k && decimal_value(spec_digits_of((#[trigger] entries@[j]).0@)) == k,
            _ => false,
        },
{
    let ghost orig = entries@;
    let mut list = entries;
    let n0 = list.len();
    proof {
        assert(orig.len() == n0);
    }
    let mut map: HashMap<u32, Vec<Lot>> = HashMap::new();
    let mut i: usize = 0;
    while list.len() > 0
        invariant
            i <= orig.len(),
            list@ == orig.skip(i as int),
            map@ == lots_map_of(orig.take(i as int)),
            lots_keys_numeric(orig.take(i as int)),
            lots_keys_unique(orig.take(i as int)),
        decreases list@.len(),
    {
        proof {
            assert(orig.skip(i as int).len() == orig.len() - i);
        }
        let (key, lots) = list.remove(0);
        proof {
            assert(orig.skip(i as int)[0] == orig[i as int]);
            assert(orig.skip(i as int).remove(0) =~= orig.skip(i + 1));
        }
        let k = match parse_u32_key(key.as_str()) {
            Some(k) => k,
            None => {
                return Err(LoadError::NonNumericLotsKey(key));
            },
        };
        proof {
            assert(orig.take(i + 1).drop_last() =~= orig.take(i as int));
            assert(orig.take(i + 1).last() == orig[i as int]);
            assert(forall|x: int| 0 <= x < i ==> orig.take(i + 1)[x] == orig.take(i as int)[x]);
            lemma_decimal_value_nonneg(spec_digits_of(key@));
        }
        if map.contains_key(&k) {
            proof {
                lemma_lots_map_of_contains(orig.take(i as int), k);
                let j = choose|j: int|
                    0 <= j < orig.take(i as int).len() && decimal_value(
                        spec_digits_of((#[trigger] orig.take(i as int)[j]).0@),
                    ) == k;
                assert(orig.take(i as int)[j] == orig[j]);
                assert(0 <= j < i && (i as int) < orig.len() && decimal_value(
                    spec_digits_of(orig[j].0@),
                ) == k && decimal_value(spec_digits_of(orig[i as int].0@)) == k);
            }
            return Err(LoadError::DuplicateLotsKey(k));
        }
        proof {
            lemma_lots_map_of_contains(orig.take(i as int), k);
            assert forall|x: int, y: int| 0 <= x < y < i + 1 implies decimal_value(
                spec_digits_of((#[trigger] orig.take(i + 1)[x]).0@),
            ) != decimal_value(spec_digits_of((#[trigger] orig.take(i + 1)[y]).0@)) by {
                assert(orig.take(i + 1)[x] == orig.take(i as int)[x]);
                if y < i {
                    assert(orig.take(i + 1)[y] == orig.take(i as int)[y]);
                } else {
                    assert(orig.take(i + 1)[y] == orig[i as int]);
                    assert(decimal_value(spec_digits_of(orig.take(i as int)[x].0@)) != k);
                }
            }
        }
        map.insert(k, lots);
        i = i + 1;
    }
    proof {
        assert(orig.skip(i as int).len() == 0);
        assert(i == orig.len());
        assert(orig.take(i as int) =~= orig);
    }
    Ok(map)
}

/// Decides whether every category is covered by the grouped dictionary: a
/// category whose id has no lot list is a reference mismatch, and a loader
/// that sees one must fail the whole load rather than let a later query
/// miss.
pub fn lots_map_covers(map: &HashMap<u32, Vec<Lot>>, categories: &Vec<Category>) -> (r: bool)
    ensures
        r == (forall|i: int|
            0 <= i < categories@.len() ==> map@.contains_key((#[trigger] categories@[i]).id)),
{
    let n = categories.len();
    let mut i: usize = 0;
    while i < n
        invariant
            i <= n,
            n == categories@.len(),
            forall|j: int| 0 <= j < i ==> map@.contains_key((#[trigger] categories@[j]).id),
        decreases n - i,
    {
        if !map.contains_key(&categories[i].id) {
            return false;
        }
        i = i + 1;
    }
    true
}

} // verus!
