use nft_generator::assemble::{image_file, record_file, stacking_order};
use nft_generator::config::{is_none_marker, listed_traits, Config};
use nft_generator::factory::NFTFactory;
use nft_generator::layer::LayerTrait;
use nft_generator::nft::NFT;
use nft_generator::utils::{decimal_string, hash, millis_of, push_decimal, timestamp};

fn chosen(name: &str, value: &str, path: &str) -> LayerTrait {
    LayerTrait::new(
        path.to_string(),
        name.to_string(),
        value.to_string(),
        1_000_000,
        None,
        vec![],
        vec![],
    )
}

fn config(external_url: Option<&str>) -> Config {
    Config {
        ipfs: "QmHash".to_string(),
        description: "A collection".to_string(),
        external_url: external_url.map(|url| url.to_string()),
        name: "Fellow".to_string(),
        edition: 3,
        factory: NFTFactory::new(10, vec![], "build".to_string()),
    }
}

#[test]
fn a_record_lists_the_traits_in_the_order_of_the_layers() {
    let traits =
        vec![chosen("Background", "Blue", "l/b/Blue#50.png"), chosen("Eyes", "Normal", "l/e/Normal#80.png")];
    let image_hash = hash(b"the image");
    let nft = config(None).describe(7, &traits, image_hash.clone());
    assert_eq!(nft.attributes.len(), 2);
    assert_eq!(nft.attributes[0].name, "Background");
    assert_eq!(nft.attributes[0].value, "Blue");
    assert_eq!(nft.attributes[1].name, "Eyes");
    assert_eq!(nft.attributes[1].value, "Normal");
    assert_eq!(nft.attributes, traits);
    assert_eq!(nft.edition, 3);
    assert_eq!(nft.image_hash, image_hash);
    assert_eq!(nft.image_hash.len(), 64);
    assert!(nft.image_hash.chars().all(|c| c.is_ascii_digit() || ('a'..='f').contains(&c)));
}

#[test]
fn a_record_names_the_item() {
    let nft = config(Some("https://example.org/items")).describe(12, &vec![], "00".to_string());
    assert_eq!(nft.name, "Fellow #12");
    assert_eq!(nft.description, "A collection");
    assert_eq!(nft.image, "ipfs://QmHash/12.png");
    assert_eq!(nft.external_url, Some("https://example.org/items/12".to_string()));
    assert_eq!(nft.background_color, None);
    assert_eq!(nft.animation_url, None);
    assert_eq!(nft.youtube_url, None);
    assert_eq!(nft.image_hash, "00");
    assert!(nft.attributes.is_empty());
    let nft = config(None).describe(0, &vec![], "00".to_string());
    assert_eq!(nft.name, "Fellow #0");
    assert_eq!(nft.image, "ipfs://QmHash/0.png");
    assert_eq!(nft.external_url, None);
}

#[test]
fn two_records_of_an_item_differ_in_their_date_only() {
    let traits = vec![chosen("Background", "Blue", "l/b/Blue#50.png")];
    let first = config(Some("u")).describe(4, &traits, "ab".to_string());
    let mut second = config(Some("u")).describe(4, &traits, "ab".to_string());
    second.date = first.date;
    assert_eq!(first, second);
}

#[test]
fn a_record_is_dated() {
    let before = timestamp();
    let nft = config(None).describe(1, &vec![], "00".to_string());
    let after = timestamp();
    assert!(before <= nft.date && nft.date <= after);
}

#[test]
fn the_marker_for_no_trait_is_not_listed() {
    let traits = vec![
        chosen("Background", "Blue", "a"),
        chosen("!None", "Cap", "b"),
        chosen("Hat", "!None", "c"),
        chosen("Eyes", "Normal", "d"),
        chosen("!none", "None", "e"),
    ];
    let kept = listed_traits(&traits);
    assert_eq!(kept, vec![traits[0].clone(), traits[3].clone(), traits[4].clone()]);
    let nft = config(None).describe(1, &traits, "00".to_string());
    assert_eq!(nft.attributes, kept);
    assert!(is_none_marker(&"!None".to_string()));
    assert!(!is_none_marker(&"None".to_string()));
    assert!(!is_none_marker(&"!None ".to_string()));
    assert!(!is_none_marker(&"".to_string()));
}

#[test]
fn a_record_is_made_of_its_parts() {
    let traits = vec![chosen("Eyes", "Normal", "d")];
    let before = timestamp();
    let nft = NFT::new(
        "n".to_string(),
        "d".to_string(),
        "i".to_string(),
        "h".to_string(),
        -2,
        traits.clone(),
        Some("e".to_string()),
        Some("b".to_string()),
        Some("a".to_string()),
        Some("y".to_string()),
    );
    assert_eq!(nft.name, "n");
    assert_eq!(nft.description, "d");
    assert_eq!(nft.image, "i");
    assert_eq!(nft.image_hash, "h");
    assert_eq!(nft.edition, -2);
    assert_eq!(nft.attributes, traits);
    assert_eq!(nft.external_url, Some("e".to_string()));
    assert_eq!(nft.background_color, Some("b".to_string()));
    assert_eq!(nft.animation_url, Some("a".to_string()));
    assert_eq!(nft.youtube_url, Some("y".to_string()));
    assert!(nft.date >= before);
}

#[test]
fn a_factory_by_default_makes_nothing() {
    let factory = NFTFactory::default();
    assert_eq!(factory.count, 0);
    assert!(factory.layers.is_empty());
    assert_eq!(factory.build_path, "");
}

#[test]
fn the_last_trait_is_the_ground_of_the_image() {
    let traits = vec![chosen("A", "a", "1.png"), chosen("B", "b", "2.png"), chosen("C", "c", "3.png")];
    assert_eq!(stacking_order(&traits), vec!["3.png", "1.png", "2.png"]);
    assert_eq!(stacking_order(&traits[..1].to_vec()), vec!["1.png"]);
    assert_eq!(stacking_order(&vec![]), Vec::<String>::new());
}

#[test]
fn no_trait_without_an_asset_is_not_stacked() {
    let traits = vec![
        chosen("A", "a", "1.png"),
        chosen("!None", "b", ""),
        chosen("C", "!None", "3.png"),
        chosen("D", "d", ""),
        chosen("E", "!None", ""),
    ];
    assert_eq!(stacking_order(&traits), vec!["", "1.png", "3.png"]);
    assert_eq!(stacking_order(&vec![chosen("!None", "!None", "")]), Vec::<String>::new());
}

#[test]
fn the_files_of_an_item_are_named_by_its_number() {
    assert_eq!(image_file(0), "images/0.png");
    assert_eq!(image_file(41), "images/41.png");
    assert_eq!(record_file(0), "json/0.json");
    assert_eq!(record_file(9_999), "json/9999.json");
}

#[test]
fn numbers_are_written_in_decimal() {
    assert_eq!(decimal_string(0), "0");
    assert_eq!(decimal_string(7), "7");
    assert_eq!(decimal_string(10), "10");
    assert_eq!(decimal_string(1_234_567_890), "1234567890");
    assert_eq!(decimal_string(-1), "-1");
    assert_eq!(decimal_string(-905), "-905");
    assert_eq!(decimal_string(i64::MAX), "9223372036854775807");
    assert_eq!(decimal_string(i64::MIN), "-9223372036854775808");
    let mut text = "id ".to_string();
    push_decimal(&mut text, 18_446_744_073_709_551_615);
    assert_eq!(text, "id 18446744073709551615");
    for d in 0..10i64 {
        assert_eq!(decimal_string(d), d.to_string());
    }
}

#[test]
fn the_fingerprint_is_the_sha3_digest_in_hexadecimal() {
    assert_eq!(
        hash(b"hello world"),
        "644bcc7e564373040999aac89e7622f3ca71fba1d972fd94a31c3bfbf24e3938"
    );
    assert_eq!(hash(b""), "a7ffc6f8bf1ed76651c14756a061d662f580ff4de43b49fa82d80a4b80f8434a");
    assert_eq!(hash(b"abc"), "3a985da74fe225b2045c172d6bd390bd855f086e3e9d525b46bfe24511431532");
    assert_ne!(hash(b"hello world"), hash(b"hello world!"));
}

#[test]
fn the_time_of_day_is_counted_from_the_epoch() {
    let now = timestamp();
    assert!(now > 1_600_000_000_000);
    let later = timestamp();
    assert!(later >= now);
    assert!(later - now < 60_000);
}

#[test]
fn a_clock_before_the_epoch_counts_as_zero() {
    let epoch = std::time::UNIX_EPOCH;
    let later = epoch + std::time::Duration::from_millis(1_500);
    assert_eq!(millis_of(later.duration_since(epoch)), 1_500);
    assert_eq!(millis_of(epoch.duration_since(later)), 0);
}
