use pokedex::codec::encode;
use pokedex::model::Pokemon;
use pokedex::model::PokemonType;
use pokedex::store::PokemonStore;

fn text_of(chars: Vec<char>) -> String {
    chars.into_iter().collect()
}

fn pikachu() -> Pokemon {
    Pokemon {
        id: 1,
        name: String::from("Pikachu"),
        types: PokemonType::Electric,
        attack: 100,
        defense: 80,
        health: 120,
        birthday: String::from("2012-12-12"),
    }
}

#[test]
fn empty_collection_encodes_to_empty_array() {
    let store = PokemonStore::new();
    assert_eq!(text_of(store.to_json()), "[]");
}

#[test]
fn one_record_encodes_to_pretty_json() {
    let mut store = PokemonStore::new();
    store.create(pikachu()).unwrap();
    let expected = "[\n  {\n    \"id\": 1,\n    \"name\": \"Pikachu\",\n    \"types\": \"Electric\",\n    \"attack\": 100,\n    \"defense\": 80,\n    \"health\": 120,\n    \"birthday\": \"2012-12-12\"\n  }\n]";
    assert_eq!(text_of(store.to_json()), expected);
}

#[test]
fn encoded_text_is_json_serde_reads_back() {
    let mut store = PokemonStore::new();
    store.create(pikachu()).unwrap();
    store
        .create(Pokemon {
            id: 151,
            name: String::from("Mew"),
            types: PokemonType::Psychic,
            attack: 100,
            defense: 100,
            health: 100,
            birthday: String::from("1996-02-27"),
        })
        .unwrap();
    let text = text_of(store.to_json());
    let parsed: serde_json::Value = serde_json::from_str(&text).expect("encoder must emit JSON");
    let items = parsed.as_array().expect("an array");
    assert_eq!(items.len(), 2);
    assert_eq!(items[0].get("id").unwrap().as_u64(), Some(1));
    assert_eq!(items[0].get("name").unwrap().as_str(), Some("Pikachu"));
    assert_eq!(items[0].get("types").unwrap().as_str(), Some("Electric"));
    assert_eq!(items[1].get("id").unwrap().as_u64(), Some(151));
    assert_eq!(items[1].get("attack").unwrap().as_u64(), Some(100));
    assert_eq!(items[1].get("birthday").unwrap().as_str(), Some("1996-02-27"));
}

#[test]
fn strings_are_escaped_and_read_back_exactly() {
    let tricky = "he said \"hi\"\\ then\nleft\ttab\u{1}";
    let mut store = PokemonStore::new();
    store
        .create(Pokemon {
            id: 9,
            name: String::from(tricky),
            types: PokemonType::Normal,
            attack: 1,
            defense: 2,
            health: 3,
            birthday: String::from(""),
        })
        .unwrap();
    let text = text_of(store.to_json());
    let parsed: serde_json::Value = serde_json::from_str(&text).expect("escapes must stay JSON");
    let items = parsed.as_array().unwrap();
    assert_eq!(items[0].get("name").unwrap().as_str(), Some(tricky));
    assert_eq!(items[0].get("birthday").unwrap().as_str(), Some(""));
}

#[test]
fn phantom_variant_uses_the_ghost_tag() {
    let mut store = PokemonStore::new();
    store
        .create(Pokemon {
            id: 92,
            name: String::from("Gastly"),
            types: PokemonType::Phantom,
            attack: 100,
            defense: 30,
            health: 30,
            birthday: String::from("1996-02-27"),
        })
        .unwrap();
    let text = text_of(store.to_json());
    let parsed: serde_json::Value = serde_json::from_str(&text).unwrap();
    assert_eq!(parsed.as_array().unwrap()[0].get("types").unwrap().as_str(), Some("Ghost"));
}

#[test]
fn extreme_values_survive_serde() {
    let mut store = PokemonStore::new();
    store
        .create(Pokemon {
            id: u64::MAX,
            name: String::from("Max"),
            types: PokemonType::Dragon,
            attack: u16::MAX,
            defense: 0,
            health: u16::MAX,
            birthday: String::from("0000-01-01"),
        })
        .unwrap();
    let text = text_of(store.to_json());
    let parsed: serde_json::Value = serde_json::from_str(&text).unwrap();
    let item = &parsed.as_array().unwrap()[0];
    assert_eq!(item.get("id").unwrap().as_u64(), Some(u64::MAX));
    assert_eq!(item.get("attack").unwrap().as_u64(), Some(65535));
    assert_eq!(item.get("defense").unwrap().as_u64(), Some(0));
}

#[test]
fn every_species_tag_is_valid_json() {
    let tags = [
        (PokemonType::Normal, "Normal"),
        (PokemonType::Fire, "Fire"),
        (PokemonType::Water, "Water"),
        (PokemonType::Electric, "Electric"),
        (PokemonType::Grass, "Grass"),
        (PokemonType::Ice, "Ice"),
        (PokemonType::Fighting, "Fighting"),
        (PokemonType::Poison, "Poison"),
        (PokemonType::Ground, "Ground"),
        (PokemonType::Flying, "Flying"),
        (PokemonType::Psychic, "Psychic"),
        (PokemonType::Bug, "Bug"),
        (PokemonType::Rock, "Rock"),
        (PokemonType::Phantom, "Ghost"),
        (PokemonType::Dragon, "Dragon"),
    ];
    for (i, (tp, expected)) in tags.iter().enumerate() {
        let records = vec![Pokemon {
            id: i as u64,
            name: String::from("x"),
            types: *tp,
            attack: 0,
            defense: 0,
            health: 0,
            birthday: String::from(""),
        }];
        let text = text_of(encode(&records));
        let parsed: serde_json::Value = serde_json::from_str(&text).unwrap();
        assert_eq!(parsed.as_array().unwrap()[0].get("types").unwrap().as_str(), Some(*expected));
    }
}

#[test]
fn decode_reads_back_what_encode_wrote() {
    let records = vec![
        pikachu(),
        Pokemon {
            id: 92,
            name: String::from("we\"ird\\name\nwith\u{3}controls"),
            types: PokemonType::Phantom,
            attack: u16::MAX,
            defense: 0,
            health: 30,
            birthday: String::from(""),
        },
        Pokemon {
            id: u64::MAX,
            name: String::from("Mew"),
            types: PokemonType::Psychic,
            attack: 100,
            defense: 100,
            health: 100,
            birthday: String::from("1996-02-27"),
        },
    ];
    let encoded = encode(&records);
    let decoded = pokedex::codec::decode(&encoded).expect("own output must read back");
    assert_eq!(decoded, records);
}

#[test]
fn decode_accepts_the_empty_array() {
    let text: Vec<char> = "[]".chars().collect();
    assert_eq!(pokedex::codec::decode(&text), Some(Vec::new()));
}

#[test]
fn decode_rejects_text_outside_the_format() {
    for bad in [
        "",
        "[",
        "[]x",
        "{}",
        "[\n  {\n    \"id\": 1\n  }\n]",
        "[\n  ]",
        "nonsense",
    ] {
        let text: Vec<char> = bad.chars().collect();
        assert_eq!(pokedex::codec::decode(&text), None, "{bad:?} should be rejected");
    }
}

#[test]
fn decode_rejects_out_of_range_numbers() {
    let mut store = PokemonStore::new();
    store.create(pikachu()).unwrap();
    let text: String = store.to_json().into_iter().collect();
    let too_big = text.replace("\"attack\": 100", "\"attack\": 70000");
    let chars: Vec<char> = too_big.chars().collect();
    assert_eq!(pokedex::codec::decode(&chars), None);
}
