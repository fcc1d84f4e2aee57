//! The record type the store manages: one Pokemon entry and its species tag.

use vstd::prelude::*;

verus! {

/// One of the fifteen species tags a record may carry.
///
/// The tag written `Ghost` in the wire format is represented here as
/// `Phantom`; the JSON codec and any boundary layer translate between the
/// two spellings.
#[derive(Clone, Copy, PartialEq, Eq, Structural, Debug)]
pub enum PokemonType {
    Normal,
    Fire,
    Water,
    Electric,
    Grass,
    Ice,
    Fighting,
    Poison,
    Ground,
    Flying,
    Psychic,
    Bug,
    Rock,
    Phantom,
    Dragon,
}

/// Mathematical image of one record: the strings are abstracted to
/// character sequences, everything else is carried as is.
pub ghost struct PokemonView {
    pub id: u64,
    pub name: Seq<char>,
    pub types: PokemonType,
    pub attack: u16,
    pub defense: u16,
    pub health: u16,
    pub birthday: Seq<char>,
}

/// One record of the collection. `id` is the primary key; no two records
/// of a well-formed store share it.
#[derive(Debug)]
pub struct Pokemon {
    pub id: u64,
    pub name: String,
    pub types: PokemonType,
    /// Combat statistics, each in [0, 65535].
    pub attack: u16,
    pub defense: u16,
    pub health: u16,
    /// Date-formatted text (`YYYY-MM-DD`); not validated beyond being text.
    pub birthday: String,
}

impl View for Pokemon {
    type V = PokemonView;

    open spec fn view(&self) -> PokemonView {
        PokemonView {
            id: self.id,
            name: self.name@,
            types: self.types,
            attack: self.attack,
            defense: self.defense,
            health: self.health,
            birthday: self.birthday@,
        }
    }
}

impl DeepView for Pokemon {
    type V = PokemonView;

    open spec fn deep_view(&self) -> PokemonView {
        self.view()
    }
}

impl Clone for Pokemon {
    fn clone(&self) -> (r: Self)
        ensures
            r@ == self@,
    {
        Pokemon {
            id: self.id,
            name: self.name.clone(),
            types: self.types,
            attack: self.attack,
            defense: self.defense,
            health: self.health,
            birthday: self.birthday.clone(),
        }
    }
}

impl PartialEq for Pokemon {
    fn eq(&self, other: &Self) -> (r: bool) {
        self.id == other.id && self.name == other.name && self.types == other.types
            && self.attack == other.attack && self.defense == other.defense
            && self.health == other.health && self.birthday == other.birthday
    }
}

impl vstd::std_specs::cmp::PartialEqSpecImpl for Pokemon {
    open spec fn obeys_eq_spec() -> bool {
        true
    }

    open spec fn eq_spec(&self, other: &Self) -> bool {
        self@ == other@
    }
}

} // verus!
