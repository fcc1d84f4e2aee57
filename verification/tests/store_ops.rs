use pokedex::model::Pokemon;
use pokedex::model::PokemonType;
use pokedex::store::PokemonStore;
use pokedex::store::StoreError;

fn pikachu() -> Pokemon {
    Pokemon {
        id: 1,
        name: String::from("Pikachu"),
        types: PokemonType::Electric,
        attack: 100,
        defense: 80,
        health: 120,
        birthday: String::from("2012-12-12"),
    }
}

fn bulbasaur() -> Pokemon {
    Pokemon {
        id: 2,
        name: String::from("Bulbasaur"),
        types: PokemonType::Grass,
        attack: 49,
        defense: 49,
        health: 45,
        birthday: String::from("1996-02-27"),
    }
}

#[test]
fn create_then_get_round_trip() {
    let mut store = PokemonStore::new();
    assert_eq!(store.create(pikachu()), Ok(()));
    let got = store.get(1).expect("record 1 should exist");
    assert_eq!(got, pikachu());
}

#[test]
fn create_conflict_leaves_store_unchanged() {
    let mut store = PokemonStore::new();
    assert_eq!(store.create(pikachu()), Ok(()));
    let mut twin = bulbasaur();
    twin.id = 1;
    assert_eq!(store.create(twin), Err(StoreError::Conflict));
    assert_eq!(store.stats(), 1);
    assert_eq!(store.get(1).unwrap(), pikachu());
}

#[test]
fn get_absent_is_not_found() {
    let store = PokemonStore::new();
    assert_eq!(store.get(7), Err(StoreError::NotFound));
}

#[test]
fn update_replaces_exactly_one() {
    let mut store = PokemonStore::new();
    store.create(pikachu()).unwrap();
    store.create(bulbasaur()).unwrap();
    let mut stronger = pikachu();
    stronger.attack = 150;
    assert_eq!(store.update(1, stronger.clone()), Ok(()));
    assert_eq!(store.get(1).unwrap().attack, 150);
    assert_eq!(store.get(2).unwrap(), bulbasaur());
    assert_eq!(store.stats(), 2);
}

#[test]
fn update_absent_is_not_found() {
    let mut store = PokemonStore::new();
    store.create(pikachu()).unwrap();
    assert_eq!(store.update(9, bulbasaur()), Err(StoreError::NotFound));
    assert_eq!(store.stats(), 1);
}

#[test]
fn update_colliding_id_is_conflict() {
    let mut store = PokemonStore::new();
    store.create(pikachu()).unwrap();
    store.create(bulbasaur()).unwrap();
    let mut renamed = bulbasaur();
    renamed.id = 1;
    assert_eq!(store.update(2, renamed), Err(StoreError::Conflict));
    assert_eq!(store.get(1).unwrap(), pikachu());
    assert_eq!(store.get(2).unwrap(), bulbasaur());
}

#[test]
fn update_may_move_to_a_fresh_id() {
    let mut store = PokemonStore::new();
    store.create(pikachu()).unwrap();
    let mut moved = pikachu();
    moved.id = 25;
    assert_eq!(store.update(1, moved.clone()), Ok(()));
    assert_eq!(store.get(1), Err(StoreError::NotFound));
    assert_eq!(store.get(25).unwrap(), moved);
    assert_eq!(store.stats(), 1);
}

#[test]
fn delete_removes_the_record() {
    let mut store = PokemonStore::new();
    store.create(pikachu()).unwrap();
    store.create(bulbasaur()).unwrap();
    assert_eq!(store.delete(1), Ok(()));
    assert_eq!(store.get(1), Err(StoreError::NotFound));
    assert_eq!(store.get(2).unwrap(), bulbasaur());
    assert_eq!(store.stats(), 1);
}

#[test]
fn delete_absent_is_idempotent() {
    let mut store = PokemonStore::new();
    store.create(pikachu()).unwrap();
    assert_eq!(store.delete(5), Err(StoreError::NotFound));
    assert_eq!(store.stats(), 1);
    assert_eq!(store.delete(5), Err(StoreError::NotFound));
    assert_eq!(store.stats(), 1);
}

#[test]
fn stats_matches_list_length() {
    let mut store = PokemonStore::new();
    assert_eq!(store.stats(), store.list().len());
    store.create(pikachu()).unwrap();
    assert_eq!(store.stats(), store.list().len());
    store.create(bulbasaur()).unwrap();
    assert_eq!(store.stats(), store.list().len());
    store.delete(1).unwrap();
    assert_eq!(store.stats(), store.list().len());
    store.delete(2).unwrap();
    assert_eq!(store.stats(), 0);
    assert_eq!(store.list().len(), 0);
}

#[test]
fn list_keeps_insertion_order() {
    let mut store = PokemonStore::new();
    store.create(pikachu()).unwrap();
    store.create(bulbasaur()).unwrap();
    let all = store.list();
    assert_eq!(all.len(), 2);
    assert_eq!(all[0], pikachu());
    assert_eq!(all[1], bulbasaur());
}

#[test]
fn spec_example_scenario() {
    let mut store = PokemonStore::new();
    assert_eq!(store.create(pikachu()), Ok(()));
    assert_eq!(store.get(1).unwrap(), pikachu());
    assert_eq!(store.create(pikachu()), Err(StoreError::Conflict));
    let mut stronger = pikachu();
    stronger.attack = 150;
    assert_eq!(store.update(1, stronger), Ok(()));
    assert_eq!(store.get(1).unwrap().attack, 150);
    assert_eq!(store.delete(1), Ok(()));
    assert_eq!(store.get(1), Err(StoreError::NotFound));
    assert_eq!(store.stats(), 0);
}
