use nft_generator::layer::{default_percent_symbol, Layer, LayerTrait, PoolEntry, SelectError};
use nft_generator::rules::{Rule, TraitRules};

fn layer(source: &str, trait_name: &str) -> Layer {
    Layer {
        source_directory: source.to_string(),
        trait_name: trait_name.to_string(),
        percent_symbol: default_percent_symbol(),
        background_color: None,
        animation_url: None,
        youtube_url: None,
        conflicts: None,
        forces: None,
    }
}

fn file(directory: &str, name: &str) -> PoolEntry {
    PoolEntry::File { name: name.to_string(), path: format!("{}/{}", directory, name) }
}

fn directory(above: &str, name: &str, entries: Vec<PoolEntry>) -> PoolEntry {
    PoolEntry::Directory {
        name: name.to_string(),
        path: format!("{}/{}", above, name),
        entries,
    }
}

fn rule(source: &str, values: &[&str]) -> Rule {
    Rule { source: source.to_string(), values: values.iter().map(|v| v.to_string()).collect() }
}

fn values(pool: &[LayerTrait]) -> Vec<String> {
    pool.iter().map(|t| t.value.clone()).collect()
}

#[test]
fn the_default_symbol_is_a_hash_sign() {
    assert_eq!(default_percent_symbol(), "#");
}

#[test]
fn a_file_gives_a_candidate() {
    let eyes = layer("eyes", "Eyes");
    let pool = eyes.scan(&vec![file("layers/eyes", "Red#10.png")], None).unwrap();
    assert_eq!(pool.len(), 1);
    assert_eq!(pool[0].path, "layers/eyes/Red#10.png");
    assert_eq!(pool[0].name, "Eyes");
    assert_eq!(pool[0].value, "Red");
    assert_eq!(pool[0].percent, 10_000_000);
    assert_eq!(pool[0].nested_percent, None);
    assert_eq!(pool[0].weight(), 10_000_000);
    assert!(pool[0].conflicts.is_empty());
    assert!(pool[0].forces.is_empty());
}

#[test]
fn the_weight_ends_at_the_last_point() {
    let eyes = layer("eyes", "Eyes");
    let pool = eyes.scan(&vec![file("l", "Red#10.5.png"), file("l", "Blue#2.tar.gz")], None);
    assert_eq!(pool, Err(SelectError::InvalidWeightSuffix));
    let pool = eyes.scan(&vec![file("l", "Red#10.5.png")], None).unwrap();
    assert_eq!(pool[0].percent, 10_500_000);
    assert_eq!(pool[0].value, "Red");
}

#[test]
fn the_value_ends_at_the_first_symbol() {
    let eyes = layer("eyes", "Eyes");
    let found = eyes.read_file(&"A#B#3.png".to_string(), &"p".to_string(), None);
    assert_eq!(found, Err(SelectError::InvalidWeightSuffix));
    let found = eyes.read_file(&"A#3.png".to_string(), &"p".to_string(), Some(5)).unwrap().unwrap();
    assert_eq!(found.value, "A");
    assert_eq!(found.percent, 3_000_000);
    assert_eq!(found.nested_percent, Some(5));
    assert_eq!(found.weight(), 5);
}

#[test]
fn entries_that_say_nothing_are_passed_over() {
    let eyes = layer("eyes", "Eyes");
    let entries = vec![
        file("l", "readme.txt"),
        PoolEntry::Unreadable,
        file("l", "Red#10"),
        file("l", "Green#0.png"),
        file("l", "Grey#-4.png"),
        directory("l", "plain", vec![file("l/plain", "Pink#5.png")]),
        file("l", "Blue#20.png"),
    ];
    let pool = eyes.scan(&entries, None).unwrap();
    assert_eq!(values(&pool), vec!["Blue".to_string()]);
}

#[test]
fn an_unreadable_weight_ends_the_scan() {
    let eyes = layer("eyes", "Eyes");
    let entries = vec![file("l", "Blue#20.png"), file("l", "Red#ten.png")];
    assert_eq!(eyes.scan(&entries, None), Err(SelectError::InvalidWeightSuffix));
    let entries = vec![directory("l", "Hats#many", vec![]), file("l", "Blue#20.png")];
    assert_eq!(eyes.scan(&entries, None), Err(SelectError::InvalidWeightSuffix));
    let entries =
        vec![file("l", "Blue#20.png"), directory("l", "Hats#3", vec![file("l/Hats#3", "Cap#.png")])];
    assert_eq!(eyes.scan(&entries, None), Err(SelectError::InvalidWeightSuffix));
}

#[test]
fn a_directory_hands_its_weight_down() {
    let hats = layer("hats", "Hat");
    let entries = vec![
        file("l", "None#40.png"),
        directory(
            "l",
            "Hats#35",
            vec![file("l/Hats#35", "Cap#1.png"), file("l/Hats#35", "Crown#99.png")],
        ),
    ];
    let pool = hats.scan(&entries, None).unwrap();
    assert_eq!(values(&pool), vec!["None".to_string(), "Cap".to_string(), "Crown".to_string()]);
    assert_eq!(pool[0].nested_percent, None);
    assert_eq!(pool[1].percent, 1_000_000);
    assert_eq!(pool[1].nested_percent, Some(35_000_000));
    assert_eq!(pool[1].weight(), 35_000_000);
    assert_eq!(pool[2].percent, 99_000_000);
    assert_eq!(pool[2].weight(), 35_000_000);
    assert_eq!(pool[1].path, "l/Hats#35/Cap#1.png");
}

#[test]
fn the_nearest_directory_counts() {
    let hats = layer("hats", "Hat");
    let inner = directory("l/A#30", "B#20", vec![file("l/A#30/B#20", "Cap#5.png")]);
    let entries = vec![directory("l", "A#30", vec![inner, file("l/A#30", "Fez#1.png")])];
    let pool = hats.scan(&entries, None).unwrap();
    assert_eq!(values(&pool), vec!["Cap".to_string(), "Fez".to_string()]);
    assert_eq!(pool[0].nested_percent, Some(20_000_000));
    assert_eq!(pool[1].nested_percent, Some(30_000_000));
}

#[test]
fn a_directory_of_weight_zero_is_shut() {
    let hats = layer("hats", "Hat");
    let shut = directory(
        "l",
        "Hats#0",
        vec![
            file("l/Hats#0", "Cap#10.png"),
            file("l/Hats#0", "Broken#oops.png"),
            directory("l/Hats#0", "More#50", vec![file("l/Hats#0/More#50", "Fez#10.png")]),
        ],
    );
    let below = directory("l", "Old#-2.5", vec![file("l/Old#-2.5", "Wig#10.png")]);
    let entries = vec![shut, file("l", "None#40.png"), below];
    let pool = hats.scan(&entries, None).unwrap();
    assert_eq!(values(&pool), vec!["None".to_string()]);
    for _ in 0..200 {
        let drawn = hats.choose_trait(&entries, None, None, None).unwrap();
        assert_eq!(drawn.value, "None");
    }
}

#[test]
fn the_weight_of_a_directory_follows_the_last_symbol() {
    let hats = layer("hats", "Hat");
    assert_eq!(hats.directory_weight(&"Hats#35".to_string()), Ok(Some(35_000_000)));
    assert_eq!(hats.directory_weight(&"A#B#2.5".to_string()), Ok(Some(2_500_000)));
    assert_eq!(hats.directory_weight(&"Hats".to_string()), Ok(None));
    assert_eq!(hats.directory_weight(&"Hats#0".to_string()), Ok(None));
    assert_eq!(hats.directory_weight(&"Hats#-1".to_string()), Ok(None));
    assert_eq!(hats.directory_weight(&"Hats#".to_string()), Err(SelectError::InvalidWeightSuffix));
    assert_eq!(hats.directory_weight(&"Hats#x".to_string()), Err(SelectError::InvalidWeightSuffix));
}

#[test]
fn another_symbol_may_be_configured() {
    let mut hats = layer("hats", "Hat");
    hats.percent_symbol = "--".to_string();
    let entries = vec![file("l", "Cap--10.png"), file("l", "Fez#10.png")];
    let pool = hats.scan(&entries, None).unwrap();
    assert_eq!(values(&pool), vec!["Cap".to_string()]);
    assert_eq!(hats.directory_weight(&"Hats--7".to_string()), Ok(Some(7_000_000)));
}

#[test]
fn a_candidate_carries_the_rules_of_its_value() {
    let mut eyes = layer("eyes", "Eyes");
    eyes.conflicts = Some(vec![
        TraitRules { value: "Laser".to_string(), rules: vec![rule("background", &["Red"])] },
        TraitRules { value: "Normal".to_string(), rules: vec![rule("hats", &["Cap"])] },
        TraitRules { value: "Laser".to_string(), rules: vec![rule("hats", &["Fez", "Wig"])] },
    ]);
    eyes.forces =
        Some(vec![TraitRules { value: "Laser".to_string(), rules: vec![rule("mouth", &["Grin"])] }]);
    let entries = vec![file("l", "Laser#20.png"), file("l", "Normal#80.png"), file("l", "Shut#5.png")];
    let pool = eyes.scan(&entries, None).unwrap();
    assert_eq!(
        pool[0].conflicts,
        vec![rule("background", &["Red"]), rule("hats", &["Fez", "Wig"])]
    );
    assert_eq!(pool[0].forces, vec![rule("mouth", &["Grin"])]);
    assert_eq!(pool[1].conflicts, vec![rule("hats", &["Cap"])]);
    assert!(pool[1].forces.is_empty());
    assert!(pool[2].conflicts.is_empty());
    assert!(pool[2].forces.is_empty());
}

#[test]
fn a_trait_is_made_of_its_parts() {
    let made = LayerTrait::new(
        "p".to_string(),
        "Eyes".to_string(),
        "Red".to_string(),
        3,
        Some(4),
        vec![rule("a", &["b"])],
        vec![],
    );
    assert_eq!(made.path, "p");
    assert_eq!(made.name, "Eyes");
    assert_eq!(made.value, "Red");
    assert_eq!(made.percent, 3);
    assert_eq!(made.nested_percent, Some(4));
    assert_eq!(made.conflicts, vec![rule("a", &["b"])]);
    assert!(made.forces.is_empty());
    assert_eq!(made.copy(), made);
}

#[test]
fn nothing_to_scan_gives_an_empty_pool() {
    let eyes = layer("eyes", "Eyes");
    assert_eq!(eyes.scan(&vec![], None), Ok(vec![]));
    assert_eq!(eyes.choose_trait(&vec![], None, None, None), Err(SelectError::PoolExhausted));
}

#[test]
fn an_unreadable_weight_is_no_exhausted_pool() {
    let eyes = layer("eyes", "Eyes");
    let entries = vec![file("l", "Red#ten.png")];
    assert_eq!(
        eyes.choose_trait(&entries, None, None, None),
        Err(SelectError::InvalidWeightSuffix)
    );
}
