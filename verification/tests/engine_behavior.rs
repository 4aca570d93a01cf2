use std::collections::HashSet;

use talot_core::{
    get_weighted_random, max_passing_weight, Attribute, Category, Condition, Effect, Engine,
    InclusionOp, LoadError, Lot, OpImpl, QueryInfo, RelationalOp, Stat, Stats, Timing,
    TimingImpl, TimingWrapper, EF, ER, P_HALF, P_UNIT,
};

fn query(age: i64, attrs: &[u32]) -> QueryInfo {
    let mut set = HashSet::new();
    for a in attrs {
        set.insert(*a);
    }
    QueryInfo {
        age,
        attrs: set,
        er: ER { lol: 0, tot: 0 },
        stats: Stats { intuition: 0, knowledge: 0, physical: 0, social: 0 },
    }
}

fn lot(id: u32, one_time: bool, effects: Vec<Effect>, timings: Vec<Timing>) -> Lot {
    Lot {
        id,
        desc: String::from("lot"),
        missed_desc: None,
        p: P_UNIT,
        one_time,
        hidden: false,
        effects,
        missed_effects: Vec::new(),
        timings,
    }
}

fn always(p: u32) -> Vec<Timing> {
    vec![Timing { p, conditions: Vec::new() }]
}

#[test]
fn relational_ops_compare_with_native_ordering() {
    assert!(RelationalOp::Eq(5i64).is_matched(&5));
    assert!(!RelationalOp::Eq(5i64).is_matched(&4));
    assert!(RelationalOp::NotEq(5i64).is_matched(&4));
    assert!(RelationalOp::Gt(5i64).is_matched(&6));
    assert!(!RelationalOp::Gt(5i64).is_matched(&5));
    assert!(RelationalOp::GtEq(5i64).is_matched(&5));
    assert!(RelationalOp::Lt(5i64).is_matched(&4));
    assert!(RelationalOp::LtEq(5i64).is_matched(&5));
    assert!(!RelationalOp::LtEq(5i64).is_matched(&6));
}

#[test]
fn inclusion_ops_test_membership() {
    let mut set = HashSet::new();
    set.insert(3u32);
    assert!(InclusionOp::With(3u32).is_matched(&set));
    assert!(!InclusionOp::With(4u32).is_matched(&set));
    assert!(InclusionOp::Without(4u32).is_matched(&set));
    assert!(!InclusionOp::Without(3u32).is_matched(&set));
}

#[test]
fn conditions_read_the_snapshot() {
    let q = QueryInfo {
        age: 30,
        attrs: {
            let mut s = HashSet::new();
            s.insert(7u32);
            s
        },
        er: ER { lol: 0, tot: 0 },
        stats: Stats { intuition: 1, knowledge: 2, physical: 3, social: 4 },
    };
    assert!(Condition::Age(RelationalOp::GtEq(30)).is_satisfied(&q));
    assert!(!Condition::Age(RelationalOp::Lt(30)).is_satisfied(&q));
    assert!(Condition::Attr(InclusionOp::With(7)).is_satisfied(&q));
    assert!(!Condition::Attr(InclusionOp::With(8)).is_satisfied(&q));
    assert!(Condition::Stat((RelationalOp::Eq(3), Stat::Phy)).is_satisfied(&q));
    assert!(Condition::Stat((RelationalOp::Gt(3), Stat::Soc)).is_satisfied(&q));
    assert!(!Condition::Stat((RelationalOp::Gt(1), Stat::Int)).is_satisfied(&q));
}

#[test]
fn weight_is_max_of_passing_timings_not_sum() {
    let q = query(10, &[]);
    let timings = vec![
        Timing { p: 300_000, conditions: Vec::new() },
        Timing { p: 600_000, conditions: Vec::new() },
        Timing { p: 200_000, conditions: Vec::new() },
    ];
    assert_eq!(max_passing_weight(&timings, &q), 600_000);
}

#[test]
fn timing_with_failing_condition_does_not_contribute() {
    let q = query(10, &[]);
    let timings = vec![
        Timing { p: 900_000, conditions: vec![Condition::Age(RelationalOp::Gt(50))] },
        Timing { p: 400_000, conditions: Vec::new() },
    ];
    assert_eq!(max_passing_weight(&timings, &q), 400_000);
}

#[test]
fn empty_conditions_are_unconditionally_eligible() {
    let q = query(0, &[]);
    let timings = vec![Timing { p: P_HALF, conditions: Vec::new() }];
    assert_eq!(max_passing_weight(&timings, &q), P_HALF);
}

#[test]
fn default_timing_is_half_with_no_conditions() {
    let ts = Timing::default_timings();
    assert_eq!(ts.len(), 1);
    assert_eq!(ts[0].p, P_HALF);
    assert!(ts[0].conditions.is_empty());
}

#[test]
fn weighted_random_of_empty_is_none() {
    let items: Vec<(usize, u32)> = Vec::new();
    assert!(get_weighted_random(items).is_none());
}

#[test]
fn weighted_random_of_singleton_is_that_item() {
    let items = vec![(42usize, 5u32)];
    assert_eq!(get_weighted_random(items), Some(42));
}

#[test]
fn weighted_random_never_picks_zero_weight() {
    for _ in 0..50 {
        let items = vec![(7usize, 0u32), (9usize, 5u32), (11usize, 0u32)];
        assert_eq!(get_weighted_random(items), Some(9));
    }
}

#[test]
fn guaranteed_effects_on_different_fields_both_fire() {
    let l = lot(
        1,
        false,
        vec![
            Effect::Stat { p: P_UNIT, stat: Stat::Phy, v: 5 },
            Effect::ER { p: P_UNIT, ef: EF::Lol, v: 2 },
        ],
        always(P_UNIT),
    );
    let resp = l.apply(&query(0, &[]));
    assert!(resp.stats.is_some());
    assert!(resp.er.is_some());
    assert!(resp.attrs.is_none());
}

#[test]
fn impossible_effects_never_fire() {
    let l = lot(
        1,
        false,
        vec![
            Effect::Stat { p: 0, stat: Stat::Phy, v: 5 },
            Effect::ER { p: 0, ef: EF::Lol, v: 2 },
            Effect::AttrAdd { p: 0, attr_id: 3 },
        ],
        always(P_UNIT),
    );
    let resp = l.apply(&query(0, &[]));
    assert!(resp.stats.is_none());
    assert!(resp.er.is_none());
    assert!(resp.attrs.is_none());
}

#[test]
fn er_delta_adds_to_the_named_axis() {
    let l = lot(1, false, vec![Effect::ER { p: P_UNIT, ef: EF::Lol, v: 2 }], always(P_UNIT));
    let mut q = query(0, &[]);
    q.er = ER { lol: 1, tot: 0 };
    let resp = l.apply(&q);
    assert_eq!(resp.er, Some(ER { lol: 3, tot: 0 }));
    assert!(resp.attrs.is_none());
    assert!(resp.stats.is_none());
}

#[test]
fn attr_effects_copy_the_baseline_before_mutating() {
    let l = lot(
        1,
        false,
        vec![Effect::AttrAdd { p: P_UNIT, attr_id: 9 }, Effect::AttrRemove {
            p: P_UNIT,
            attr_id: 2,
        }],
        always(P_UNIT),
    );
    let q = query(0, &[1, 2]);
    let resp = l.apply(&q);
    let got = resp.attrs.expect("both attribute effects were guaranteed");
    assert!(got.contains(&1));
    assert!(got.contains(&9));
    assert!(!got.contains(&2));
    // The snapshot itself is untouched: the caller owns merging the delta.
    assert!(q.attrs.contains(&2));
    assert!(!q.attrs.contains(&9));
}

#[test]
fn apply_miss_runs_the_missed_effects() {
    let mut l = lot(1, false, Vec::new(), always(P_UNIT));
    l.missed_effects = vec![Effect::ER { p: P_UNIT, ef: EF::Tot, v: 4 }];
    let resp = l.apply_miss(&query(0, &[]));
    assert_eq!(resp.er, Some(ER { lol: 0, tot: 4 }));
    let resp2 = l.apply(&query(0, &[]));
    assert!(resp2.er.is_none());
}

#[test]
fn out_of_range_probability_degrades_to_one_half() {
    // A probability above the unit range must not fire unconditionally:
    // over many draws a half-probability effect misses at least once and
    // fires at least once.
    let l = lot(1, false, vec![Effect::ER { p: P_UNIT + 7, ef: EF::Lol, v: 1 }], always(P_UNIT));
    let q = query(0, &[]);
    let mut fired = 0;
    let mut missed = 0;
    for _ in 0..200 {
        match l.apply(&q).er {
            Some(_) => fired += 1,
            None => missed += 1,
        }
    }
    assert!(fired > 0);
    assert!(missed > 0);
}

#[test]
fn duplicate_attribute_ids_fail_the_load() {
    let attrs = vec![
        Attribute { id: 1, name: String::from("a"), hidden: false },
        Attribute { id: 2, name: String::from("b"), hidden: false },
        Attribute { id: 1, name: String::from("c"), hidden: true },
    ];
    let r = Engine::new(attrs, Vec::new());
    match r {
        Err(LoadError::DuplicateAttributeId(id)) => assert_eq!(id, 1),
        _ => panic!("load must fail on a duplicate attribute id"),
    }
}

#[test]
fn engine_load_keeps_attributes_and_categories() {
    let attrs = vec![
        Attribute { id: 1, name: String::from("kind"), hidden: false },
        Attribute { id: 2, name: String::from("sly"), hidden: true },
    ];
    let engine = Engine::new(attrs, Vec::new()).expect("unique ids load");
    assert_eq!(engine.get_attr(1).map(|a| a.name.as_str()), Some("kind"));
    assert_eq!(engine.get_attr(2).map(|a| a.hidden), Some(true));
    assert!(engine.get_attr(3).is_none());
    assert!(engine.categories.is_empty());
}

#[test]
fn empty_engine_selects_nothing() {
    let mut engine = Engine::new(Vec::new(), Vec::new()).unwrap();
    let q = query(0, &[]);
    assert!(engine.query_category_and_lot(&q).is_none());
    assert!(engine.query_lot(&q).is_none());
}

#[test]
fn end_to_end_one_time_lot_selected_once_until_reset() {
    let category = Category {
        id: 1,
        name: String::from("life"),
        timings: Timing::default_timings(),
        lots: vec![lot(
            10,
            true,
            vec![Effect::Stat { p: P_UNIT, stat: Stat::Phy, v: 5 }],
            always(P_UNIT),
        )],
    };
    let mut engine = Engine::new(Vec::new(), vec![category]).unwrap();
    let q = query(20, &[]);

    let (cat_id, lot_id) = {
        let (cat, l) = engine.query_category_and_lot(&q).expect("the only pair is certain");
        (cat.id, l.id)
    };
    assert_eq!(cat_id, 1);
    assert_eq!(lot_id, 10);

    let resp = {
        let l = &engine.categories[0].lots[0];
        l.apply(&q)
    };
    assert_eq!(
        resp.stats,
        Some(Stats { intuition: 0, knowledge: 0, physical: 5, social: 0 })
    );

    // The one-time lot is now recorded: nothing else is selectable.
    assert!(engine.query_category_and_lot(&q).is_none());
    assert!(engine.query_lot(&q).is_none());

    // reset() restores full eligibility.
    engine.reset();
    let again = engine.query_category_and_lot(&q).map(|(c, l)| (c.id, l.id));
    assert_eq!(again, Some((1, 10)));
}

#[test]
fn non_one_time_lot_stays_selectable() {
    let category = Category {
        id: 3,
        name: String::from("walks"),
        timings: always(P_UNIT),
        lots: vec![lot(21, false, Vec::new(), always(P_UNIT))],
    };
    let mut engine = Engine::new(Vec::new(), vec![category]).unwrap();
    let q = query(5, &[]);
    for _ in 0..10 {
        let got = engine.query_lot(&q).map(|l| l.id);
        assert_eq!(got, Some(21));
    }
}

#[test]
fn ineligible_category_is_never_selected() {
    let gated = Category {
        id: 1,
        name: String::from("gated"),
        timings: vec![Timing {
            p: P_UNIT,
            conditions: vec![Condition::Age(RelationalOp::Gt(90))],
        }],
        lots: vec![lot(11, false, Vec::new(), always(P_UNIT))],
    };
    let open = Category {
        id: 2,
        name: String::from("open"),
        timings: always(P_UNIT),
        lots: vec![lot(22, false, Vec::new(), always(P_UNIT))],
    };
    let mut engine = Engine::new(Vec::new(), vec![gated, open]).unwrap();
    let q = query(30, &[]);
    for _ in 0..20 {
        let got = engine.query_category_and_lot(&q).map(|(c, l)| (c.id, l.id));
        assert_eq!(got, Some((2, 22)));
    }
}

#[test]
fn one_time_exclusion_applies_within_a_category() {
    let category = Category {
        id: 1,
        name: String::from("pair"),
        timings: always(P_UNIT),
        lots: vec![lot(1, true, Vec::new(), always(P_UNIT)), lot(
            2,
            true,
            Vec::new(),
            always(P_UNIT),
        )],
    };
    let mut engine = Engine::new(Vec::new(), vec![category]).unwrap();
    let q = query(0, &[]);
    let first = engine.query_lot(&q).map(|l| l.id).expect("two candidates");
    let second = engine.query_lot(&q).map(|l| l.id).expect("one candidate left");
    assert_ne!(first, second);
    assert!(engine.query_lot(&q).is_none());
}

#[test]
fn query_lot_of_category_records_the_selection() {
    let category = Category {
        id: 8,
        name: String::from("solo"),
        timings: always(P_UNIT),
        lots: vec![lot(77, true, Vec::new(), always(P_UNIT))],
    };
    let mut engine = Engine::new(Vec::new(), Vec::new()).unwrap();
    let q = query(0, &[]);
    let got = engine.query_lot_of_category(&category, &q).map(|l| l.id);
    assert_eq!(got, Some(77));
    assert!(engine.executed_set.contains(&77));
    assert!(engine.query_lot_of_category(&category, &q).is_none());
}

#[test]
fn timing_wrapper_adapts_an_item_for_scoring() {
    let timings = always(P_HALF);
    let wrapper = TimingWrapper { id: 4, timings: &timings };
    assert_eq!(wrapper.id(), 4);
    assert_eq!(wrapper.timings().len(), 1);
    assert_eq!(wrapper.timings()[0].p, P_HALF);
}

#[test]
fn apply_lot_delegates_to_the_lot() {
    let engine = Engine::new(Vec::new(), Vec::new()).unwrap();
    let l = lot(1, false, vec![Effect::Stat { p: P_UNIT, stat: Stat::Kno, v: 7 }], always(P_UNIT));
    let resp = engine.apply_lot(&l, &query(0, &[]));
    assert_eq!(
        resp.stats,
        Some(Stats { intuition: 0, knowledge: 7, physical: 0, social: 0 })
    );
}

#[test]
fn saturating_axis_addition_never_wraps() {
    let l = lot(1, false, vec![Effect::ER { p: P_UNIT, ef: EF::Lol, v: i64::MAX }], always(P_UNIT));
    let mut q = query(0, &[]);
    q.er = ER { lol: 5, tot: 0 };
    let resp = l.apply(&q);
    assert_eq!(resp.er, Some(ER { lol: i64::MAX, tot: 0 }));
}
