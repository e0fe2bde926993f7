use nft_generator::layer::{LayerTrait, SelectError};
use nft_generator::select::{draw_weights, is_admitted, is_listed, select, take_drawn};
use nft_generator::rules::{
    append_rules, clone_rule, clone_strings, find_values, trait_rules, Constraints, Rule,
    TraitRules,
};

fn candidate(value: &str, percent: u64, nested: Option<u64>) -> LayerTrait {
    LayerTrait::new(
        format!("layers/eyes/{}", value),
        "Eyes".to_string(),
        value.to_string(),
        percent,
        nested,
        vec![],
        vec![],
    )
}

fn strings(values: &[&str]) -> Vec<String> {
    values.iter().map(|v| v.to_string()).collect()
}

fn rule(source: &str, values: &[&str]) -> Rule {
    Rule { source: source.to_string(), values: strings(values) }
}

fn pool() -> Vec<LayerTrait> {
    vec![
        candidate("Red", 50_000_000, None),
        candidate("Blue", 30_000_000, None),
        candidate("Green", 20_000_000, None),
    ]
}

#[test]
fn a_draw_gives_one_of_the_candidates() {
    for _ in 0..200 {
        let drawn = select(pool(), None, None).unwrap();
        assert!(pool().contains(&drawn));
        assert!(drawn.weight() > 0);
    }
}

#[test]
fn every_candidate_is_drawn_sooner_or_later() {
    let mut seen = vec![false, false, false];
    for _ in 0..2000 {
        let drawn = select(pool(), None, None).unwrap();
        let at = pool().iter().position(|c| *c == drawn).unwrap();
        seen[at] = true;
    }
    assert_eq!(seen, vec![true, true, true]);
}

#[test]
fn draws_follow_the_weights() {
    let trials = 30_000;
    let mut counts = vec![0u32, 0, 0];
    for _ in 0..trials {
        let drawn = select(pool(), None, None).unwrap();
        let at = pool().iter().position(|c| *c == drawn).unwrap();
        counts[at] += 1;
    }
    let shares = [0.5f64, 0.3, 0.2];
    let mut chi_square = 0.0f64;
    for k in 0..3 {
        let expected = shares[k] * trials as f64;
        let off = counts[k] as f64 - expected;
        chi_square += off * off / expected;
    }
    assert!(chi_square < 35.0, "chi-square {} for counts {:?}", chi_square, counts);
}

#[test]
fn the_weight_of_the_directory_counts_in_a_draw() {
    let candidates = vec![
        candidate("Cap", 1_000_000, Some(90_000_000)),
        candidate("Fez", 99_000_000, Some(10_000_000)),
    ];
    let mut caps = 0u32;
    for _ in 0..10_000 {
        if select(candidates.clone(), None, None).unwrap().value == "Cap" {
            caps += 1;
        }
    }
    assert!(caps > 8_500 && caps < 9_400, "{} of 10000 draws gave the cap", caps);
}

#[test]
fn required_values_are_the_only_ones_drawn() {
    let require = strings(&["Blue", "Green", "Pink"]);
    for _ in 0..300 {
        let drawn = select(pool(), None, Some(&require)).unwrap();
        assert!(drawn.value == "Blue" || drawn.value == "Green");
    }
}

#[test]
fn excluded_values_are_never_drawn() {
    let exclude = strings(&["Red"]);
    for _ in 0..300 {
        let drawn = select(pool(), Some(&exclude), None).unwrap();
        assert_ne!(drawn.value, "Red");
    }
}

#[test]
fn both_lists_hold_together() {
    let require = strings(&["Red", "Blue"]);
    let exclude = strings(&["Blue", "Green"]);
    for _ in 0..300 {
        let drawn = select(pool(), Some(&exclude), Some(&require)).unwrap();
        assert_eq!(drawn.value, "Red");
    }
}

#[test]
fn the_pool_is_exhausted_where_nothing_passes() {
    assert_eq!(select(vec![], None, None), Err(SelectError::PoolExhausted));
    let require = strings(&["Pink"]);
    assert_eq!(select(pool(), None, Some(&require)), Err(SelectError::PoolExhausted));
    let nothing = strings(&[]);
    assert_eq!(select(pool(), None, Some(&nothing)), Err(SelectError::PoolExhausted));
    let all = strings(&["Red", "Blue", "Green"]);
    assert_eq!(select(pool(), Some(&all), None), Err(SelectError::PoolExhausted));
    let require = strings(&["Red", "Blue"]);
    let exclude = strings(&["Blue", "Red", "Pink"]);
    assert_eq!(select(pool(), Some(&exclude), Some(&require)), Err(SelectError::PoolExhausted));
}

#[test]
fn an_empty_list_of_excluded_values_shuts_nothing_out() {
    let nothing = strings(&[]);
    assert!(select(pool(), Some(&nothing), None).is_ok());
}

#[test]
fn a_candidate_of_weight_zero_is_never_drawn() {
    let candidates = vec![candidate("Red", 0, None), candidate("Blue", 1, None)];
    for _ in 0..300 {
        assert_eq!(select(candidates.clone(), None, None).unwrap().value, "Blue");
    }
    let candidates = vec![candidate("Red", 0, None), candidate("Blue", 7, Some(0))];
    assert_eq!(select(candidates, None, None), Err(SelectError::PoolExhausted));
}

#[test]
fn the_largest_weights_can_be_drawn_from() {
    let candidates = vec![
        candidate("Red", u64::MAX, None),
        candidate("Blue", u64::MAX, None),
        candidate("Green", 1, Some(u64::MAX)),
    ];
    for _ in 0..50 {
        assert!(select(candidates.clone(), None, None).is_ok());
    }
}

#[test]
fn the_candidate_drawn_is_handed_back_as_it_is() {
    let mut marked = candidate("Red", 5, Some(6));
    marked.conflicts = vec![rule("hats", &["Cap"])];
    marked.forces = vec![rule("mouth", &["Grin", "Frown"])];
    let drawn = select(vec![marked.clone()], None, None).unwrap();
    assert_eq!(drawn, marked);
}

#[test]
fn the_drawn_index_picks_the_candidate() {
    assert_eq!(take_drawn(pool(), Some(0)).unwrap().value, "Red");
    assert_eq!(take_drawn(pool(), Some(1)).unwrap().value, "Blue");
    assert_eq!(take_drawn(pool(), Some(2)).unwrap().value, "Green");
    assert_eq!(take_drawn(pool(), Some(3)), Err(SelectError::PoolExhausted));
    assert_eq!(take_drawn(pool(), None), Err(SelectError::PoolExhausted));
    assert_eq!(take_drawn(vec![], Some(0)), Err(SelectError::PoolExhausted));
}

#[test]
fn weights_are_listed_for_what_passes() {
    let exclude = strings(&["Blue"]);
    assert_eq!(
        draw_weights(&pool(), Some(&exclude), None),
        vec![(0, 50_000_000u128), (2, 20_000_000u128)]
    );
    let require = strings(&["Blue"]);
    assert_eq!(draw_weights(&pool(), None, Some(&require)), vec![(1, 30_000_000u128)]);
    let nested = vec![candidate("Cap", 1, Some(9))];
    assert_eq!(draw_weights(&nested, None, None), vec![(0, 9u128)]);
}

#[test]
fn values_are_looked_up_in_lists() {
    let list = strings(&["Red", "Blue"]);
    assert!(is_listed(&list, &"Red".to_string()));
    assert!(is_listed(&list, &"Blue".to_string()));
    assert!(!is_listed(&list, &"red".to_string()));
    assert!(!is_listed(&strings(&[]), &"Red".to_string()));
    assert!(is_admitted(None, None, &"Red".to_string()));
    assert!(is_admitted(None, Some(&list), &"Red".to_string()));
    assert!(!is_admitted(None, Some(&list), &"Green".to_string()));
    assert!(!is_admitted(Some(&list), None, &"Red".to_string()));
    assert!(is_admitted(Some(&list), None, &"Green".to_string()));
    assert!(!is_admitted(Some(&list), Some(&list), &"Red".to_string()));
}

#[test]
fn rules_are_gathered_by_source() {
    let rules = vec![
        rule("hats", &["Cap"]),
        rule("mouth", &["Grin"]),
        rule("hats", &["Fez", "Wig"]),
        rule("ears", &[]),
    ];
    assert_eq!(find_values(&rules, &"hats".to_string()), Some(strings(&["Cap", "Fez", "Wig"])));
    assert_eq!(find_values(&rules, &"mouth".to_string()), Some(strings(&["Grin"])));
    assert_eq!(find_values(&rules, &"ears".to_string()), Some(strings(&[])));
    assert_eq!(find_values(&rules, &"nose".to_string()), None);
    assert_eq!(find_values(&vec![], &"hats".to_string()), None);
}

#[test]
fn rules_are_looked_up_by_trait_value() {
    let table = Some(vec![
        TraitRules { value: "Laser".to_string(), rules: vec![rule("background", &["Red"])] },
        TraitRules { value: "Laser".to_string(), rules: vec![rule("hats", &["Cap"])] },
        TraitRules { value: "Shut".to_string(), rules: vec![] },
    ]);
    assert_eq!(
        trait_rules(&table, &"Laser".to_string()),
        vec![rule("background", &["Red"]), rule("hats", &["Cap"])]
    );
    assert_eq!(trait_rules(&table, &"Shut".to_string()), vec![]);
    assert_eq!(trait_rules(&table, &"Normal".to_string()), vec![]);
    assert_eq!(trait_rules(&None, &"Laser".to_string()), vec![]);
}

#[test]
fn rules_and_strings_are_copied() {
    let list = strings(&["a", "b"]);
    assert_eq!(clone_strings(&list), list);
    let one = rule("hats", &["Cap", "Fez"]);
    assert_eq!(clone_rule(&one), one);
    let mut rules = vec![rule("a", &["1"])];
    append_rules(&mut rules, &vec![rule("b", &["2"]), rule("a", &["3"])]);
    assert_eq!(rules, vec![rule("a", &["1"]), rule("b", &["2"]), rule("a", &["3"])]);
}

#[test]
fn constraints_take_in_what_a_trait_carries() {
    let mut constraints = Constraints::new();
    assert_eq!(constraints.excluded_for(&"hats".to_string()), None);
    assert_eq!(constraints.required_for(&"hats".to_string()), None);
    constraints.merge(&vec![rule("hats", &["Cap"])], &vec![rule("mouth", &["Grin"])]);
    constraints.merge(&vec![rule("hats", &["Fez"])], &vec![]);
    assert_eq!(constraints.excluded_for(&"hats".to_string()), Some(strings(&["Cap", "Fez"])));
    assert_eq!(constraints.required_for(&"hats".to_string()), None);
    assert_eq!(constraints.required_for(&"mouth".to_string()), Some(strings(&["Grin"])));
    assert_eq!(constraints.excluded_for(&"mouth".to_string()), None);
}
