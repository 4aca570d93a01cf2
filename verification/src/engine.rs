//! The aggregate root: selection pipeline and one-time bookkeeping.
use std::collections::{HashMap, HashSet};
use vstd::prelude::*;

use crate::attribute::Attribute;
use crate::category::Category;
use crate::emotion::ER;
use crate::lot::{lot_eligible, spec_apply_rel, Lot};
use crate::random::sample_weighted_index;
use crate::stat::Stats;
use crate::timing::{max_passing_weight, weight_of, Timing, TimingImpl};

verus! {

/// A read-only snapshot of the player's current state, constructed fresh by
/// the caller for every engine call and never stored by the engine.
pub struct QueryInfo {
    pub age: i64,
    pub attrs: HashSet<u32>,
    pub er: ER,
    pub stats: Stats,
}

/// The delta of changed fields returned from applying a lot's effects.
///
/// Each field is `Some` only if at least one effect of that kind fired;
/// `None` means "no change of this kind", which callers must distinguish
/// from "changed to an equal value".
pub struct RespInfo {
    pub attrs: Option<HashSet<u32>>,
    pub er: Option<ER>,
    pub stats: Option<Stats>,
}

/// Adapts one scored item — a position in its list and the timings that gate
/// it — to the uniform shape the scorer works over.
pub struct TimingWrapper<'a> {
    pub id: usize,
    pub timings: &'a Vec<Timing>,
}

impl<'a> TimingImpl for TimingWrapper<'a> {
    open spec fn spec_id(&self) -> usize {
        self.id
    }

    open spec fn spec_timings(&self) -> Seq<Timing> {
        self.timings@
    }

    fn id(&self) -> (r: usize) {
        self.id
    }

    fn timings(&self) -> (r: &Vec<Timing>) {
        self.timings
    }
}

/// The candidate list of an ordered sequence of scored items: the `(id,
/// weight)` pairs, in order, of exactly the items whose effective weight
/// (see [`weight_of`]) is positive.  An item with no passing timing, or
/// none with a positive weight, is excluded entirely.
pub open spec fn spec_candidates<I: TimingImpl>(items: Seq<I>, query: QueryInfo) -> Seq<
    (usize, u32),
>
    decreases items.len(),
{
    if items.len() == 0 {
        Seq::empty()
    } else {
        let rest = spec_candidates(items.drop_last(), query);
        let last = items.last();
        let w = weight_of(last.spec_timings(), query);
        if w > 0 {
            rest.push((last.spec_id(), w))
        } else {
            rest
        }
    }
}

/// Scores an ordered list of timed items: collects `(id, weight)` for every
/// item whose effective weight is positive.
fn query_candidates_id_and_weight<I: TimingImpl>(with_timings: &Vec<I>, query: &QueryInfo) -> (r:
    Vec<(usize, u32)>)
    ensures
        r@ == spec_candidates(with_timings@, *query),
{
    let n = with_timings.len();
    let mut r: Vec<(usize, u32)> = Vec::new();
    let mut i: usize = 0;
    while i < n
        invariant
            i <= n,
            n == with_timings@.len(),
            r@ == spec_candidates(with_timings@.take(i as int), *query),
        decreases n - i,
    {
        let obj = &with_timings[i];
        let max_p = max_passing_weight(obj.timings(), query);
        if max_p > 0 {
            r.push((obj.id(), max_p));
        }
        proof {
            assert(with_timings@.take(i + 1).drop_last() =~= with_timings@.take(i as int));
            assert(with_timings@.take(i + 1).last() == with_timings@[i as int]);
        }
        i = i + 1;
    }
    proof {
        assert(with_timings@.take(n as int) =~= with_timings@);
    }
    r
}

/// Each candidate the scorer collects is genuine and the collection is
/// complete: every entry names an item of the list with that id and a
/// positive effective weight, and the candidate list is empty exactly when
/// no item's effective weight is positive.
pub proof fn lemma_candidates_char<I: TimingImpl>(items: Seq<I>, query: QueryInfo)
    ensures
        forall|k: int|
            0 <= k < spec_candidates(items, query).len() ==> exists|j: int|
                0 <= j < items.len() && (#[trigger] spec_candidates(items, query)[k]).0
                    == items[j].spec_id() && spec_candidates(items, query)[k].1 == weight_of(
                    items[j].spec_timings(),
                    query,
                ) && spec_candidates(items, query)[k].1 > 0,
        (spec_candidates(items, query).len() == 0) <==> (forall|j: int|
            0 <= j < items.len() ==> weight_of((#[trigger] items[j]).spec_timings(), query) == 0),
    decreases items.len(),
{
    if items.len() > 0 {
        lemma_candidates_char(items.drop_last(), query);
        let rest = spec_candidates(items.drop_last(), query);
        let cands = spec_candidates(items, query);
        let last = items.last();
        let w = weight_of(last.spec_timings(), query);
        assert(forall|j: int|
            0 <= j < items.len() - 1 ==> items[j] == #[trigger] items.drop_last()[j]);
        assert forall|k: int| 0 <= k < cands.len() implies exists|j: int|
            0 <= j < items.len() && (#[trigger] cands[k]).0 == items[j].spec_id() && cands[k].1
                == weight_of(items[j].spec_timings(), query) && cands[k].1 > 0 by {
            if k < rest.len() {
                let j = choose|j: int|
                    0 <= j < items.drop_last().len() && (#[trigger] rest[k]).0
                        == items.drop_last()[j].spec_id() && rest[k].1 == weight_of(
                        items.drop_last()[j].spec_timings(),
                        query,
                    ) && rest[k].1 > 0;
                assert(cands[k] == rest[k]);
                assert(0 <= j < items.len() && cands[k].0 == items[j].spec_id() && cands[k].1
                    == weight_of(items[j].spec_timings(), query) && cands[k].1 > 0);
            } else {
                assert(w > 0 && cands[k] == (last.spec_id(), w));
                assert(items[items.len() - 1] == last);
            }
        }
        if cands.len() == 0 {
            assert(rest.len() == 0);
            assert(w == 0);
            assert forall|j: int| 0 <= j < items.len() implies weight_of(
                (#[trigger] items[j]).spec_timings(),
                query,
            ) == 0 by {
                if j < items.len() - 1 {
                    assert(items.drop_last()[j] == items[j]);
                    assert(weight_of(items.drop_last()[j].spec_timings(), query) == 0);
                } else {
                    assert(items[j] == last);
                }
            }
        }
        if forall|j: int|
            0 <= j < items.len() ==> weight_of((#[trigger] items[j]).spec_timings(), query) == 0 {
            assert forall|j: int| 0 <= j < items.drop_last().len() implies weight_of(
                (#[trigger] items.drop_last()[j]).spec_timings(),
                query,
            ) == 0 by {
                assert(items.drop_last()[j] == items[j]);
            }
            assert(rest.len() == 0);
            assert(items[items.len() - 1] == last);
            assert(w == 0);
            assert(cands.len() == 0);
        }
    }
}

/// The candidate list of the lots of one category under the executed-lot
/// record: the `(position, weight)` pairs, in order, of exactly the lots
/// that are still eligible (see [`lot_eligible`]) and whose effective
/// weight is positive.
pub open spec fn spec_lot_candidates(lots: Seq<Lot>, executed: Set<u32>, query: QueryInfo) -> Seq<
    (usize, u32),
>
    decreases lots.len(),
{
    if lots.len() == 0 {
        Seq::empty()
    } else {
        let rest = spec_lot_candidates(lots.drop_last(), executed, query);
        let last = lots.last();
        let w = weight_of(last.timings@, query);
        if lot_eligible(last, executed) && w > 0 {
            rest.push(((lots.len() - 1) as usize, w))
        } else {
            rest
        }
    }
}

/// As [`lemma_candidates_char`], for the lot candidates of one category:
/// every entry names an eligible lot with a positive weight at its own
/// position, and the list is empty exactly when no lot is both eligible and
/// positively weighted.
pub proof fn lemma_lot_candidates_char(lots: Seq<Lot>, executed: Set<u32>, query: QueryInfo)
    requires
        lots.len() <= usize::MAX,
    ensures
        forall|k: int|
            0 <= k < spec_lot_candidates(lots, executed, query).len() ==> ((#[trigger] spec_lot_candidates(
                lots,
                executed,
                query,
            )[k]).0 as int) < lots.len() && lot_eligible(
                lots[spec_lot_candidates(lots, executed, query)[k].0 as int],
                executed,
            ) && spec_lot_candidates(lots, executed, query)[k].1 == weight_of(
                lots[spec_lot_candidates(lots, executed, query)[k].0 as int].timings@,
                query,
            ) && spec_lot_candidates(lots, executed, query)[k].1 > 0,
        (spec_lot_candidates(lots, executed, query).len() == 0) <==> (forall|j: int|
            0 <= j < lots.len() ==> !(lot_eligible(#[trigger] lots[j], executed) && weight_of(
                lots[j].timings@,
                query,
            ) > 0)),
    decreases lots.len(),
{
    if lots.len() > 0 {
        lemma_lot_candidates_char(lots.drop_last(), executed, query);
        let rest = spec_lot_candidates(lots.drop_last(), executed, query);
        let cands = spec_lot_candidates(lots, executed, query);
        let last = lots.last();
        let w = weight_of(last.timings@, query);
        assert(forall|j: int| 0 <= j < lots.len() - 1 ==> lots[j] == #[trigger] lots.drop_last()[j]);
        assert forall|k: int| 0 <= k < cands.len() implies ((#[trigger] cands[k]).0 as int)
            < lots.len() && lot_eligible(lots[cands[k].0 as int], executed) && cands[k].1
            == weight_of(lots[cands[k].0 as int].timings@, query) && cands[k].1 > 0 by {
            if k < rest.len() {
                assert(cands[k] == rest[k]);
                assert((rest[k].0 as int) < lots.drop_last().len());
                assert(lots.drop_last()[rest[k].0 as int] == lots[rest[k].0 as int]);
                assert(lot_eligible(lots.drop_last()[rest[k].0 as int], executed));
                assert(rest[k].1 == weight_of(lots.drop_last()[rest[k].0 as int].timings@, query));
            } else {
                assert(lot_eligible(last, executed) && w > 0);
                assert(cands[k] == ((lots.len() - 1) as usize, w));
                assert(lots[lots.len() - 1] == last);
            }
        }
        if cands.len() == 0 {
            assert(rest.len() == 0);
            assert(!(lot_eligible(last, executed) && w > 0));
            assert forall|j: int| 0 <= j < lots.len() implies !(lot_eligible(
                #[trigger] lots[j],
                executed,
            ) && weight_of(lots[j].timings@, query) > 0) by {
                if j < lots.len() - 1 {
                    assert(lots.drop_last()[j] == lots[j]);
                    assert(!(lot_eligible(lots.drop_last()[j], executed) && weight_of(
                        lots.drop_last()[j].timings@,
                        query,
                    ) > 0));
                } else {
                    assert(lots[j] == last);
                }
            }
        }
        if forall|j: int|
            0 <= j < lots.len() ==> !(lot_eligible(#[trigger] lots[j], executed) && weight_of(
                lots[j].timings@,
                query,
            ) > 0) {
            assert forall|j: int| 0 <= j < lots.drop_last().len() implies !(lot_eligible(
                #[trigger] lots.drop_last()[j],
                executed,
            ) && weight_of(lots.drop_last()[j].timings@, query) > 0) by {
                assert(lots.drop_last()[j] == lots[j]);
            }
            assert(rest.len() == 0);
            assert(lots[lots.len() - 1] == last);
            assert(!(lot_eligible(last, executed) && w > 0));
            assert(cands.len() == 0);
        }
    }
}

/// Draws one entry from a weighted candidate list.
///
/// Returns `None` exactly when the list is empty; otherwise the returned
/// value is the id of one of the candidates whose weight is positive, drawn
/// with probability proportional to its weight.
pub fn get_weighted_random<T: Copy>(items: Vec<(T, u32)>) -> (r: Option<T>)
    requires
        items@.len() > 0 ==> exists|i: int| 0 <= i < items@.len() && items@[i].1 > 0,
    ensures
        (r is None) <==> items@.len() == 0,
        r is Some ==> exists|i: int|
            0 <= i < items@.len() && items@[i].0 == r.unwrap() && items@[i].1 > 0,
{
    if items.len() == 0 {
        return None;
    }
    let n = items.len();
    let mut weights: Vec<u32> = Vec::new();
    let mut i: usize = 0;
    while i < n
        invariant
            i <= n,
            n == items@.len(),
            weights@.len() == i,
            forall|j: int| 0 <= j < i ==> weights@[j] == items@[j].1,
        decreases n - i,
    {
        weights.push(items[i].1);
        i = i + 1;
    }
    proof {
        let j = choose|j: int| 0 <= j < items@.len() && items@[j].1 > 0;
        assert(weights@[j] > 0);
    }
    let index = sample_weighted_index(&weights);
    Some(items[index].0)
}

/// Selects one category position by weighted draw, or `None` exactly when
/// no category's effective weight is positive.
fn category_index(cats: &Vec<Category>, query: &QueryInfo) -> (r: Option<usize>)
    ensures
        (r is None) <==> (forall|i: int|
            0 <= i < cats@.len() ==> weight_of((#[trigger] cats@[i]).timings@, *query) == 0),
        r is Some ==> (r.unwrap() as int) < cats@.len() && weight_of(
            cats@[r.unwrap() as int].timings@,
            *query,
        ) > 0,
{
    let n = cats.len();
    let mut ws: Vec<TimingWrapper> = Vec::new();
    let mut i: usize = 0;
    while i < n
        invariant
            i <= n,
            n == cats@.len(),
            ws@.len() == i,
            forall|j: int|
                0 <= j < i ==> ((#[trigger] ws@[j]).spec_id() as int) == j && ws@[j].spec_timings()
                    == cats@[j].timings@,
        decreases n - i,
    {
        ws.push(TimingWrapper { id: i, timings: &cats[i].timings });
        i = i + 1;
    }
    let cands = query_candidates_id_and_weight(&ws, query);
    proof {
        lemma_candidates_char(ws@, *query);
        if cands@.len() > 0 {
            let j = choose|j: int|
                0 <= j < ws@.len() && (#[trigger] cands@[0]).0 == ws@[j].spec_id() && cands@[0].1
                    == weight_of(ws@[j].spec_timings(), *query) && cands@[0].1 > 0;
            assert(cands@[0].1 > 0);
        }
    }
    let ghost cs = cands@;
    let r = get_weighted_random(cands);
    proof {
        if r is Some {
            let k = choose|k: int| 0 <= k < cs.len() && cs[k].0 == r.unwrap() && cs[k].1 > 0;
            let j = choose|j: int|
                0 <= j < ws@.len() && (#[trigger] cs[k]).0 == ws@[j].spec_id() && cs[k].1
                    == weight_of(ws@[j].spec_timings(), *query) && cs[k].1 > 0;
            assert((ws@[j].spec_id() as int) == j);
            assert(ws@[j].spec_timings() == cats@[j].timings@);
            assert(weight_of(cats@[r.unwrap() as int].timings@, *query) > 0);
        } else {
            assert(cs.len() == 0);
            assert forall|j: int| 0 <= j < cats@.len() implies weight_of(
                (#[trigger] cats@[j]).timings@,
                *query,
            ) == 0 by {
                assert((ws@[j].spec_id() as int) == j);
                assert(weight_of(ws@[j].spec_timings(), *query) == 0);
            }
        }
        if forall|j: int|
            0 <= j < cats@.len() ==> weight_of((#[trigger] cats@[j]).timings@, *query) == 0 {
            assert forall|j: int| 0 <= j < ws@.len() implies weight_of(
                (#[trigger] ws@[j]).spec_timings(),
                *query,
            ) == 0 by {
                assert((ws@[j].spec_id() as int) == j);
                assert(ws@[j].spec_timings() == cats@[j].timings@);
            }
            assert(cs.len() == 0);
        }
    }
    r
}

/// Selects one lot position of a category by weighted draw among the lots
/// that are still eligible under the executed-lot record, or `None` exactly
/// when no lot is both eligible and positively weighted.
fn lot_index(lots: &Vec<Lot>, executed: &HashSet<u32>, query: &QueryInfo) -> (r: Option<usize>)
    ensures
        (r is None) <==> (forall|i: int|
            0 <= i < lots@.len() ==> !(lot_eligible(#[trigger] lots@[i], executed@) && weight_of(
                lots@[i].timings@,
                *query,
            ) > 0)),
        r is Some ==> (r.unwrap() as int) < lots@.len() && lot_eligible(
            lots@[r.unwrap() as int],
            executed@,
        ) && weight_of(lots@[r.unwrap() as int].timings@, *query) > 0,
{
    let n = lots.len();
    let mut cands: Vec<(usize, u32)> = Vec::new();
    let mut i: usize = 0;
    while i < n
        invariant
            i <= n,
            n == lots@.len(),
            cands@ == spec_lot_candidates(lots@.take(i as int), executed@, *query),
        decreases n - i,
    {
        let l = &lots[i];
        let eligible = !l.one_time || !executed.contains(&l.id);
        if eligible {
            let w = max_passing_weight(&l.timings, query);
            if w > 0 {
                cands.push((i, w));
            }
        }
        proof {
            assert(lots@.take(i + 1).drop_last() =~= lots@.take(i as int));
            assert(lots@.take(i + 1).last() == lots@[i as int]);
        }
        i = i + 1;
    }
    proof {
        assert(lots@.take(n as int) =~= lots@);
        lemma_lot_candidates_char(lots@, executed@, *query);
        if cands@.len() > 0 {
            assert(cands@[0].1 > 0);
        }
    }
    let ghost cs = cands@;
    let r = get_weighted_random(cands);
    proof {
        if r is Some {
            let k = choose|k: int| 0 <= k < cs.len() && cs[k].0 == r.unwrap() && cs[k].1 > 0;
            assert(((cs[k]).0 as int) < lots@.len() && lot_eligible(
                lots@[cs[k].0 as int],
                executed@,
            ) && cs[k].1 == weight_of(lots@[cs[k].0 as int].timings@, *query) && cs[k].1 > 0);
        }
    }
    r
}

/// Why constructing an engine from content was refused.  Malformed content
/// fails the entire load; the engine never starts in a partially valid
/// state.
#[derive(Debug, PartialEq)]
pub enum LoadError {
    /// The attribute list holds two attributes with this id.
    DuplicateAttributeId(u32),
    /// A key grouping lots by category did not parse as a non-negative
    /// integer; the offending key is carried along.
    NonNumericLotsKey(String),
    /// Two keys grouping lots by category parsed to this same integer.
    DuplicateLotsKey(u32),
}

/// The attribute ids of `attrs` are pairwise distinct.
pub open spec fn attr_ids_unique(attrs: Seq<Attribute>) -> bool {
    forall|i: int, j: int|
        0 <= i < j < attrs.len() ==> (#[trigger] attrs[i]).id != (#[trigger] attrs[j]).id
}

/// The dictionary an attribute list stands for: each attribute keyed by its
/// own id.
pub open spec fn attrs_map_of(attrs: Seq<Attribute>) -> Map<u32, Attribute>
    decreases attrs.len(),
{
    if attrs.len() == 0 {
        Map::empty()
    } else {
        attrs_map_of(attrs.drop_last()).insert(attrs.last().id, attrs.last())
    }
}

/// The dictionary's keys are exactly the ids occurring in the list.
pub proof fn lemma_attrs_map_of_contains(attrs: Seq<Attribute>, k: u32)
    ensures
        attrs_map_of(attrs).contains_key(k) <==> exists|i: int|
            0 <= i < attrs.len() && (#[trigger] attrs[i]).id == k,
    decreases attrs.len(),
{
    if attrs.len() > 0 {
        lemma_attrs_map_of_contains(attrs.drop_last(), k);
        assert(forall|i: int|
            0 <= i < attrs.len() - 1 ==> attrs[i] == #[trigger] attrs.drop_last()[i]);
        if attrs_map_of(attrs).contains_key(k) {
            if attrs.last().id == k {
                assert(attrs[attrs.len() - 1].id == k);
            } else {
                let i = choose|i: int|
                    0 <= i < attrs.drop_last().len() && (#[trigger] attrs.drop_last()[i]).id == k;
                assert(attrs[i].id == k);
            }
        }
        if exists|i: int| 0 <= i < attrs.len() && (#[trigger] attrs[i]).id == k {
            let i = choose|i: int| 0 <= i < attrs.len() && (#[trigger] attrs[i]).id == k;
            if i < attrs.len() - 1 {
                assert(attrs.drop_last()[i].id == k);
            }
        }
    }
}

/// The aggregate root: the attribute dictionary, all categories, and the
/// record of lots already selected.
///
/// Everything but `executed_set` is immutable after construction.  The
/// record of executed lots is the engine's only mutable state: the methods
/// that may change it take `&mut self`, so one engine is driven from one
/// call site at a time; a caller that shares the engine across threads
/// wraps it in a lock of its own choosing.
pub struct Engine {
    pub attributes: HashMap<u32, Attribute>,
    pub categories: Vec<Category>,
    pub executed_set: HashSet<u32>,
}

impl Engine {
    /// Builds an engine from deserialized content.
    ///
    /// The load fails — and no engine is constructed — exactly when the
    /// attribute list carries a duplicate id.  On success the dictionary
    /// keys each attribute by its id, the categories are taken as given,
    /// and no lot is recorded as executed.
    #[verifier::loop_isolation(false)]
    pub fn new(attributes: Vec<Attribute>, categories: Vec<Category>) -> (r: Result<
        Engine,
        LoadError,
    >)
        ensures
            (r is Ok) <==> attr_ids_unique(attributes@),
            r is Ok ==> {
                let e = r.unwrap();
                &&& e.attributes@ == attrs_map_of(attributes@)
                &&& e.categories@ == categories@
                &&& e.executed_set@ == Set::<u32>::empty()
            },
            r is Err ==> match r {
                Result::Err(LoadError::DuplicateAttributeId(id)) => exists|i: int, j: int|
                    0 <= i < j < attributes@.len() && (#[trigger] attributes@[i]).id == id
                        && (#[trigger] attributes@[j]).id == id,
                _ => false,
            },
    {
        let ghost orig = attributes@;
        let mut list = attributes;
        let n0 = list.len();
        proof {
            assert(orig.len() == n0);
        }
        let mut map: HashMap<u32, Attribute> = HashMap::new();
        let mut i: usize = 0;
        while list.len() > 0
            invariant
                i <= orig.len(),
                orig.len() <= usize::MAX,
                list@ == orig.skip(i as int),
                map@ == attrs_map_of(orig.take(i as int)),
                attr_ids_unique(orig.take(i as int)),
            decreases list@.len(),
        {
            proof {
                assert(orig.skip(i as int).len() == orig.len() - i);
            }
            let a = list.remove(0);
            proof {
                assert(orig.skip(i as int)[0] == orig[i as int]);
                assert(orig.skip(i as int).remove(0) =~= orig.skip(i + 1));
            }
            let id = a.id;
            if map.contains_key(&id) {
                proof {
                    lemma_attrs_map_of_contains(orig.take(i as int), id);
                    let j = choose|j: int|
                        0 <= j < orig.take(i as int).len() && (#[trigger] orig.take(
                            i as int,
                        )[j]).id == id;
                    assert(orig.take(i as int)[j] == orig[j]);
                    assert(0 <= j && j < i && (i as int) < orig.len() && orig[j].id == id && orig[
                        i as int
                    ].id == id);
                    assert(exists|x: int, y: int|
                        0 <= x < y < orig.len() && (#[trigger] orig[x]).id == id && (
                        #[trigger] orig[y]).id == id);
                    assert(!attr_ids_unique(orig));
                }
                return Err(LoadError::DuplicateAttributeId(id));
            }
            proof {
                lemma_attrs_map_of_contains(orig.take(i as int), id);
                assert(orig.take(i + 1).drop_last() =~= orig.take(i as int));
                assert(orig.take(i + 1).last() == orig[i as int]);
                assert forall|x: int, y: int| 0 <= x < y < i + 1 implies (#[trigger] orig.take(
                    i + 1,
                )[x]).id != (#[trigger] orig.take(i + 1)[y]).id by {
                    assert(orig.take(i + 1)[x] == orig.take(i as int)[x]);
                    if y < i {
                        assert(orig.take(i + 1)[y] == orig.take(i as int)[y]);
                    } else {
                        assert(orig.take(i + 1)[y] == orig[i as int]);
                        assert(orig.take(i as int)[x].id != id);
                    }
                }
            }
            map.insert(id, a);
            i = i + 1;
        }
        proof {
            assert(orig.skip(i as int).len() == 0);
            assert(i == orig.len());
            assert(orig.take(i as int) =~= orig);
        }
        Ok(Engine { attributes: map, categories, executed_set: HashSet::new() })
    }

    /// Looks an attribute up by id; `None` for unknown ids.  A miss is not
    /// an error: callers skip such an attribute rather than fail.
    pub fn get_attr(&self, id: u32) -> (r: Option<&Attribute>)
        ensures
            match r {
                Some(a) => self.attributes@.contains_key(id) && *a == self.attributes@[id],
                None => !self.attributes@.contains_key(id),
            },
    {
        self.attributes.get(&id)
    }

    /// Applies a lot's normal-outcome effects against the snapshot (see
    /// [`Lot::apply`]); the engine's own state is untouched.
    pub fn apply_lot(&self, lot: &Lot, query: &QueryInfo) -> (r: RespInfo)
        ensures
            spec_apply_rel(lot.effects@, *query, r),
    {
        lot.apply(query)
    }

    /// Forgets every recorded one-time selection, restoring full
    /// eligibility for the next playthrough.  Idempotent; the declarative
    /// content is untouched.
    pub fn reset(&mut self)
        ensures
            final(self).attributes == old(self).attributes,
            final(self).categories == old(self).categories,
            final(self).executed_set@ == Set::<u32>::empty(),
    {
        self.executed_set.clear();
    }

    /// Selects a category by weighted draw over the categories whose
    /// effective weight under `query` is positive.  Returns `None` exactly
    /// when no category qualifies: a normal outcome, not an error.
    pub fn query_category(&self, query: &QueryInfo) -> (r: Option<&Category>)
        ensures
            (r is None) <==> (forall|i: int|
                0 <= i < self.categories@.len() ==> weight_of(
                    (#[trigger] self.categories@[i]).timings@,
                    *query,
                ) == 0),
            r is Some ==> exists|i: int|
                0 <= i < self.categories@.len() && *r.unwrap() == #[trigger] self.categories@[i]
                    && weight_of(self.categories@[i].timings@, *query) > 0,
    {
        match category_index(&self.categories, query) {
            Some(i) => Some(&self.categories[i]),
            None => None,
        }
    }

    /// Selects a lot of `category` by weighted draw over the lots that are
    /// both eligible — not one-time lots already recorded — and positively
    /// weighted under `query`.  A selected lot's id is recorded at once:
    /// selection and exclusion bookkeeping are coupled, so even a lot whose
    /// resolution the caller later ignores stays recorded until
    /// [`Engine::reset`].
    pub fn query_lot_of_category<'a>(&mut self, category: &'a Category, query: &QueryInfo) -> (r:
        Option<&'a Lot>)
        ensures
            final(self).attributes == old(self).attributes,
            final(self).categories == old(self).categories,
            old(self).executed_set@.subset_of(final(self).executed_set@),
            (r is None) <==> (forall|i: int|
                0 <= i < category.lots@.len() ==> !(lot_eligible(
                    #[trigger] category.lots@[i],
                    old(self).executed_set@,
                ) && weight_of(category.lots@[i].timings@, *query) > 0)),
            r is None ==> final(self).executed_set == old(self).executed_set,
            r is Some ==> exists|i: int|
                0 <= i < category.lots@.len() && *r.unwrap() == #[trigger] category.lots@[i]
                    && lot_eligible(category.lots@[i], old(self).executed_set@) && weight_of(
                    category.lots@[i].timings@,
                    *query,
                ) > 0,
            r is Some ==> final(self).executed_set@ == old(self).executed_set@.insert(
                r.unwrap().id,
            ),
    {
        match lot_index(&category.lots, &self.executed_set, query) {
            Some(j) => {
                let id = category.lots[j].id;
                self.executed_set.insert(id);
                Some(&category.lots[j])
            },
            None => None,
        }
    }

    /// The primary per-tick entry point: selects a category, then a lot of
    /// it, and records the lot.  `None` — a normal outcome — is returned
    /// exactly when either stage finds no candidate; nothing is recorded
    /// then.
    pub fn query_category_and_lot(&mut self, query: &QueryInfo) -> (r: Option<(&Category, &Lot)>)
        ensures
            final(self).attributes == old(self).attributes,
            final(self).categories == old(self).categories,
            old(self).executed_set@.subset_of(final(self).executed_set@),
            (forall|i: int|
                0 <= i < old(self).categories@.len() ==> weight_of(
                    (#[trigger] old(self).categories@[i]).timings@,
                    *query,
                ) == 0) ==> r is None,
            r is None ==> final(self).executed_set == old(self).executed_set,
            r is None ==> ((forall|i: int|
                0 <= i < old(self).categories@.len() ==> weight_of(
                    (#[trigger] old(self).categories@[i]).timings@,
                    *query,
                ) == 0) || exists|ci: int|
                0 <= ci < old(self).categories@.len() && weight_of(
                    (#[trigger] old(self).categories@[ci]).timings@,
                    *query,
                ) > 0 && (forall|j: int|
                    0 <= j < old(self).categories@[ci].lots@.len() ==> !(lot_eligible(
                        #[trigger] old(self).categories@[ci].lots@[j],
                        old(self).executed_set@,
                    ) && weight_of(old(self).categories@[ci].lots@[j].timings@, *query) > 0))),
            r is Some ==> exists|ci: int, li: int|
                0 <= ci < old(self).categories@.len() && 0 <= li < (
                #[trigger] old(self).categories@[ci]).lots@.len() && *r.unwrap().0 == old(
                    self,
                ).categories@[ci] && weight_of(old(self).categories@[ci].timings@, *query) > 0 && *r.unwrap().1
                    == #[trigger] old(self).categories@[ci].lots@[li] && lot_eligible(
                    old(self).categories@[ci].lots@[li],
                    old(self).executed_set@,
                ) && weight_of(old(self).categories@[ci].lots@[li].timings@, *query) > 0,
            r is Some ==> final(self).executed_set@ == old(self).executed_set@.insert(
                r.unwrap().1.id,
            ),
    {
        let ci = match category_index(&self.categories, query) {
            Some(i) => i,
            None => {
                return None;
            },
        };
        let li = match lot_index(&self.categories[ci].lots, &self.executed_set, query) {
            Some(j) => j,
            None => {
                return None;
            },
        };
        let id = self.categories[ci].lots[li].id;
        self.executed_set.insert(id);
        Some((&self.categories[ci], &self.categories[ci].lots[li]))
    }

    /// As [`Engine::query_category_and_lot`], discarding the category half.
    pub fn query_lot(&mut self, query: &QueryInfo) -> (r: Option<&Lot>)
        ensures
            final(self).attributes == old(self).attributes,
            final(self).categories == old(self).categories,
            old(self).executed_set@.subset_of(final(self).executed_set@),
            (forall|i: int|
                0 <= i < old(self).categories@.len() ==> weight_of(
                    (#[trigger] old(self).categories@[i]).timings@,
                    *query,
                ) == 0) ==> r is None,
            r is None ==> final(self).executed_set == old(self).executed_set,
            r is None ==> ((forall|i: int|
                0 <= i < old(self).categories@.len() ==> weight_of(
                    (#[trigger] old(self).categories@[i]).timings@,
                    *query,
                ) == 0) || exists|ci: int|
                0 <= ci < old(self).categories@.len() && weight_of(
                    (#[trigger] old(self).categories@[ci]).timings@,
                    *query,
                ) > 0 && (forall|j: int|
                    0 <= j < old(self).categories@[ci].lots@.len() ==> !(lot_eligible(
                        #[trigger] old(self).categories@[ci].lots@[j],
                        old(self).executed_set@,
                    ) && weight_of(old(self).categories@[ci].lots@[j].timings@, *query) > 0))),
            r is Some ==> exists|ci: int, li: int|
                0 <= ci < old(self).categories@.len() && 0 <= li < (
                #[trigger] old(self).categories@[ci]).lots@.len() && *r.unwrap()
                    == #[trigger] old(self).categories@[ci].lots@[li] && weight_of(
                    old(self).categories@[ci].timings@,
                    *query,
                ) > 0 && lot_eligible(old(self).categories@[ci].lots@[li], old(self).executed_set@)
                    && weight_of(old(self).categories@[ci].lots@[li].timings@, *query) > 0,
            r is Some ==> final(self).executed_set@ == old(self).executed_set@.insert(
                r.unwrap().id,
            ),
    {
        match self.query_category_and_lot(query) {
            Some((_, lot)) => Some(lot),
            None => None,
        }
    }
}

/// The one-time invariant, across calls: once a call has recorded the
/// selection of a one-time lot — its ensures state that the id then stands
/// in `executed_set` — the lot is ineligible under every later record that
/// still holds the id.  Since every selection call only grows the record
/// until [`Engine::reset`], and only returns eligible lots, no later call
/// can return the lot again.
pub proof fn lemma_one_time_never_reselected(l: Lot, after_selection: Set<u32>, later: Set<u32>)
    requires
        l.one_time,
        after_selection.contains(l.id),
        after_selection.subset_of(later),
    ensures
        !lot_eligible(l, later),
{
}

/// A reset restores full eligibility: under the empty record every lot —
/// in particular a one-time lot excluded by an earlier selection — is
/// eligible again, all else being equal.
pub proof fn lemma_reset_restores_eligibility(l: Lot)
    ensures
        lot_eligible(l, Set::<u32>::empty()),
{
}

} // verus!
