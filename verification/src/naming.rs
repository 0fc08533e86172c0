//! Names that players may not take: those that a game reads as something
//! else in a round line.

use vstd::prelude::*;

use crate::games::table::game::{Table, TableView};
use crate::games::tarok::game::Tarok;
use crate::games::tarok::sheets::TarokView;
use crate::models::user::{NameCheckedState, NewUser};
use crate::text::{chars_of, reads_as};

verus! {

/// What some string slices hold, slice by slice.
pub open spec fn terms_of(terms: Seq<&'static str>) -> Seq<Seq<char>> {
    Seq::new(terms.len(), |i: int| terms[i]@)
}

/// A game that reserves names.
pub trait CheckName {
    /// The names that the game reserves.
    spec fn reserved_terms(&self) -> Seq<Seq<char>>;

    /// The names that the game reserves.
    fn get_reserved_terms(&self) -> (r: Vec<&'static str>)
        ensures
            terms_of(r@) == self.reserved_terms(),
    ;

    /// Whether a player may take this name: it is none of the reserved
    /// ones, letter for letter.
    fn is_valid_name(&self, name: &str) -> (r: bool)
        ensures
            r == !self.reserved_terms().contains(name@),
    {
        let terms = self.get_reserved_terms();
        let wanted = chars_of(name);
        let mut i: usize = 0;
        while i < terms.len()
            invariant
                i <= terms.len(),
                wanted@ == name@,
                terms_of(terms@) == self.reserved_terms(),
                forall|j: int| 0 <= j < i ==> self.reserved_terms()[j] != name@,
            decreases terms.len() - i,
        {
            assert(terms_of(terms@)[i as int] == terms@[i as int]@);
            if reads_as(&wanted, terms[i]) {
                assert(self.reserved_terms()[i as int] == name@);
                return false;
            }
            i += 1;
        }
        assert(self.reserved_terms().len() == terms.len());
        true
    }
}

/// The names that Tarok reserves: its games, its announcements and its notes
/// on players.
pub open spec fn tarok_reserved_terms() -> Seq<Seq<char>> {
    seq![
        "I3"@,
        "I2"@,
        "I1"@,
        "S3"@,
        "S2"@,
        "S1"@,
        "SB"@,
        "KL"@,
        "B"@,
        "P"@,
        "BVI3"@,
        "BVI2"@,
        "BVI1"@,
        "BVS3"@,
        "BVS2"@,
        "BVS1"@,
        "BVSB"@,
        "ZP"@,
        "ZK"@,
        "V"@,
        "T"@,
        "K"@,
        "NZP"@,
        "NZK"@,
        "NV"@,
        "NT"@,
        "NK"@,
        "M"@,
        "R"@,
        "T"@,
        "Ig"@,
        "Sl"@,
    ]
}

impl CheckName for Tarok {
    open spec fn reserved_terms(&self) -> Seq<Seq<char>> {
        tarok_reserved_terms()
    }

    fn get_reserved_terms(&self) -> (r: Vec<&'static str>) {
        let mut terms: Vec<&'static str> = Vec::new();
        terms.push("I3");
        terms.push("I2");
        terms.push("I1");
        terms.push("S3");
        terms.push("S2");
        terms.push("S1");
        terms.push("SB");
        terms.push("KL");
        terms.push("B");
        terms.push("P");
        terms.push("BVI3");
        terms.push("BVI2");
        terms.push("BVI1");
        terms.push("BVS3");
        terms.push("BVS2");
        terms.push("BVS1");
        terms.push("BVSB");
        terms.push("ZP");
        terms.push("ZK");
        terms.push("V");
        terms.push("T");
        terms.push("K");
        terms.push("NZP");
        terms.push("NZK");
        terms.push("NV");
        terms.push("NT");
        terms.push("NK");
        terms.push("M");
        terms.push("R");
        terms.push("T");
        terms.push("Ig");
        terms.push("Sl");
        assert(terms_of(terms@) == tarok_reserved_terms());
        terms
    }
}

impl CheckName for Table {
    open spec fn reserved_terms(&self) -> Seq<Seq<char>> {
        Seq::empty()
    }

    fn get_reserved_terms(&self) -> (r: Vec<&'static str>) {
        let terms: Vec<&'static str> = Vec::new();
        assert(terms_of(terms@) == Seq::<Seq<char>>::empty());
        terms
    }
}

/// All the games, to hold a new player's name against each.
pub struct GameAggregator {
    pub tarok: Tarok,
    pub table: Table,
}

impl GameAggregator {
    /// One of each game, with nothing played and nobody known.
    pub fn new() -> (r: Self)
        ensures
            r.tarok.wf(),
            r.tarok@ == (TarokView {
                sheets: Seq::empty(),
                game_attributes: Seq::empty(),
                round: 0,
            }),
            r.table@ == (TableView { sheets: Seq::empty(), round: 0 }),
    {
        Self { tarok: Tarok::new(), table: Table::new() }
    }

    /// Whether every game lets a player take this name.
    pub open spec fn accepts(name: Seq<char>) -> bool {
        !tarok_reserved_terms().contains(name)
    }

    /// Holds a new player's name against every game and marks the player
    /// accordingly. Nothing else of the player changes.
    pub fn validate_user(&self, user: &mut NewUser)
        ensures
            *final(user) == (NewUser {
                checked: if Self::accepts(old(user).name@) {
                    NameCheckedState::Valid
                } else {
                    NameCheckedState::Invalid
                },
                ..*old(user)
            }),
    {
        if !self.table.is_valid_name(user.name.as_str()) {
            user.invalidate();
            return ;
        }
        if !self.tarok.is_valid_name(user.name.as_str()) {
            user.invalidate();
            return ;
        }
        user.validate();
    }
}

} // verus!
