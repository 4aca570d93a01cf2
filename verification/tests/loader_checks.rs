use talot_core::{
    lots_map_covers, lots_map_from_entries, parse_u32_key, Category, LoadError, Lot, Timing,
    P_UNIT,
};

fn lots(id: u32) -> Vec<Lot> {
    vec![Lot {
        id,
        desc: String::from("lot"),
        missed_desc: None,
        p: P_UNIT,
        one_time: false,
        hidden: false,
        effects: Vec::new(),
        missed_effects: Vec::new(),
        timings: Timing::default_timings(),
    }]
}

#[test]
fn plain_numerals_parse() {
    assert_eq!(parse_u32_key("0"), Some(0));
    assert_eq!(parse_u32_key("12"), Some(12));
    assert_eq!(parse_u32_key("007"), Some(7));
    assert_eq!(parse_u32_key("4294967295"), Some(u32::MAX));
}

#[test]
fn a_leading_plus_sign_is_allowed() {
    assert_eq!(parse_u32_key("+7"), Some(7));
    assert_eq!(parse_u32_key("+"), None);
}

#[test]
fn non_numerals_are_rejected() {
    assert_eq!(parse_u32_key(""), None);
    assert_eq!(parse_u32_key("abc"), None);
    assert_eq!(parse_u32_key("12a"), None);
    assert_eq!(parse_u32_key("-3"), None);
    assert_eq!(parse_u32_key("1.5"), None);
    assert_eq!(parse_u32_key(" 4"), None);
}

#[test]
fn values_beyond_32_bits_are_rejected() {
    assert_eq!(parse_u32_key("4294967296"), None);
    assert_eq!(parse_u32_key("99999999999999999999"), None);
}

#[test]
fn grouping_keys_lots_by_parsed_id() {
    let entries = vec![
        (String::from("1"), lots(10)),
        (String::from("+2"), lots(20)),
        (String::from("30"), lots(30)),
    ];
    let map = lots_map_from_entries(entries).expect("all keys parse and are distinct");
    assert_eq!(map.len(), 3);
    assert_eq!(map.get(&1).map(|l| l[0].id), Some(10));
    assert_eq!(map.get(&2).map(|l| l[0].id), Some(20));
    assert_eq!(map.get(&30).map(|l| l[0].id), Some(30));
    assert!(map.get(&3).is_none());
}

#[test]
fn a_non_numeric_key_fails_the_load() {
    let entries = vec![(String::from("1"), lots(10)), (String::from("two"), lots(20))];
    match lots_map_from_entries(entries) {
        Err(LoadError::NonNumericLotsKey(key)) => assert_eq!(key, "two"),
        _ => panic!("a non-numeric key must fail the load"),
    }
}

#[test]
fn keys_that_collide_after_parsing_fail_the_load() {
    let entries = vec![(String::from("01"), lots(10)), (String::from("1"), lots(20))];
    match lots_map_from_entries(entries) {
        Err(LoadError::DuplicateLotsKey(k)) => assert_eq!(k, 1),
        _ => panic!("keys equal after parsing must fail the load, never dedup"),
    }
}

#[test]
fn an_empty_grouping_loads_empty() {
    let map = lots_map_from_entries(Vec::new()).unwrap();
    assert!(map.is_empty());
}

#[test]
fn a_category_without_lots_is_a_reference_mismatch() {
    let entries = vec![(String::from("1"), lots(10))];
    let map = lots_map_from_entries(entries).unwrap();
    let covered = Category {
        id: 1,
        name: String::from("covered"),
        timings: Timing::default_timings(),
        lots: Vec::new(),
    };
    let uncovered = Category {
        id: 2,
        name: String::from("uncovered"),
        timings: Timing::default_timings(),
        lots: Vec::new(),
    };
    assert!(lots_map_covers(&map, &vec![covered]));
    let both = vec![
        Category {
            id: 1,
            name: String::from("covered"),
            timings: Timing::default_timings(),
            lots: Vec::new(),
        },
        uncovered,
    ];
    assert!(!lots_map_covers(&map, &both));
}
