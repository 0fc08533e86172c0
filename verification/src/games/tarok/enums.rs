//! What a round of Tarok is told in: games, announcements, what befell a
//! player, and the token that doubles a game.

use vstd::prelude::*;

verus! {

/// The game that a round was played as.
#[derive(Debug, Clone, Copy, PartialEq, Eq, Structural)]
pub enum TarokGame {
    I3,
    I2,
    I1,
    S3,
    S2,
    S1,
    SB,
    KL,
    B,
    P,
    BVI3,
    BVI2,
    BVI1,
    BVS3,
    BVS2,
    BVS1,
    BVSB,
}

/// What was announced or achieved in a round, beside the game itself.
#[derive(Debug, Clone, Copy, PartialEq, Eq, Structural)]
pub enum TarokGameAttribute {
    ZP,
    ZK,
    V,
    T,
    K,
    NZP,
    NZK,
    NV,
    NT,
    NK,
}

/// What is noted of one player in a round. `Ig` marks the player who declared
/// the game, `Sl` one who played along in a team game.
#[derive(Debug, Clone, Copy, PartialEq, Eq, Structural)]
pub enum TarokPlayerAttibute {
    M,
    R,
    T,
    Ig,
    Sl,
}

/// One token of a round's game part.
#[derive(Debug, Clone, Copy, PartialEq, Eq, Structural)]
pub enum TarokGameInput {
    TarokGame(TarokGame),
    TarokGameAttribute(TarokGameAttribute),
    TarokGameDiff(i32),
}

/// One token of what a round says of a player.
#[derive(Debug, Clone, Copy, PartialEq, Eq, Structural)]
pub enum TarokPlayerInput {
    PlayerAttribute(TarokPlayerAttibute),
    PlayerDiff(i32),
}

/// A doubling token: still to be spent, or spent.
#[derive(Debug, Clone, Copy, PartialEq, Eq, Structural)]
pub enum Radlc {
    Avalible,
    Used,
}

/// What can go wrong with a round. Whatever it is, the ledgers are then as
/// they were before the round was handed in.
#[derive(Debug, Clone, Copy, PartialEq, Eq, Structural)]
pub enum TarokError {
    /// The line lacks its game part or its player part.
    MalformedRound,
    /// No token of the game part names a game.
    NoGameSpecified,
    /// A token is neither a name that fits its place nor a number.
    UnrecognizedToken,
    /// A player's name is not in the directory.
    UnknownPlayer,
    /// The round lists no player.
    NoPlayers,
    /// A player of the round has no sheet in the ledgers.
    LedgerInvariantViolation,
    /// A player's points for the round do not fit the sheet's 32 bits.
    PointsOutOfRange,
}

impl TarokGame {
    /// What the game is worth before anything is added.
    pub open spec fn worth(self) -> int {
        match self {
            TarokGame::I3 => 10,
            TarokGame::I2 => 20,
            TarokGame::I1 => 30,
            TarokGame::S3 => 40,
            TarokGame::S2 => 50,
            TarokGame::S1 => 60,
            TarokGame::SB => 80,
            TarokGame::KL => 0,
            TarokGame::B => 70,
            TarokGame::P => 60,
            TarokGame::BVI3 => 90,
            TarokGame::BVI2 => 100,
            TarokGame::BVI1 => 110,
            TarokGame::BVS3 => 120,
            TarokGame::BVS2 => 130,
            TarokGame::BVS1 => 140,
            TarokGame::BVSB => 150,
        }
    }

    /// Whether the declarer plays with partners, who then carry the
    /// supporting role.
    pub open spec fn is_team(self) -> bool {
        self == TarokGame::I3 || self == TarokGame::I2 || self == TarokGame::I1 || self
            == TarokGame::BVI3 || self == TarokGame::BVI2 || self == TarokGame::BVI1
    }

    /// Whether the game has shared points, which a doubling token doubles.
    /// `KL` alone has none.
    pub open spec fn has_base_points(self) -> bool {
        self != TarokGame::KL
    }

    /// Whether every known player is granted a doubling token after the
    /// round. The solo games `S1`, `S2` and `S3` grant none.
    pub open spec fn grants_radlc(self) -> bool {
        self != TarokGame::S1 && self != TarokGame::S2 && self != TarokGame::S3
    }
}

impl TarokGameAttribute {
    /// What the announcement adds to the game's points.
    pub open spec fn worth(self) -> int {
        match self {
            TarokGameAttribute::ZP => 10,
            TarokGameAttribute::ZK => 10,
            TarokGameAttribute::V => 150,
            TarokGameAttribute::T => 15,
            TarokGameAttribute::K => 15,
            TarokGameAttribute::NZP => 20,
            TarokGameAttribute::NZK => 20,
            TarokGameAttribute::NV => 250,
            TarokGameAttribute::NT => 30,
            TarokGameAttribute::NK => 30,
        }
    }
}

impl TarokPlayerAttibute {
    /// What the note adds to the player's own points.
    pub open spec fn worth(self) -> int {
        match self {
            TarokPlayerAttibute::M => -20,
            TarokPlayerAttibute::R => 0,
            TarokPlayerAttibute::T => 0,
            TarokPlayerAttibute::Ig => 0,
            TarokPlayerAttibute::Sl => -20,
        }
    }
}

impl TarokGameInput {
    /// What the token adds to the game's points.
    pub open spec fn worth(self) -> int {
        match self {
            TarokGameInput::TarokGame(g) => g.worth(),
            TarokGameInput::TarokGameAttribute(a) => a.worth(),
            TarokGameInput::TarokGameDiff(v) => v as int,
        }
    }
}

impl TarokPlayerInput {
    /// What the token adds to the player's own points.
    pub open spec fn worth(self) -> int {
        match self {
            TarokPlayerInput::PlayerAttribute(a) => a.worth(),
            TarokPlayerInput::PlayerDiff(v) => v as int,
        }
    }
}

impl TarokError {
    /// A sentence for the one who handed the round in.
    pub fn message(&self) -> (r: &'static str)
        ensures
            r@ == self.message_text(),
    {
        match self {
            TarokError::MalformedRound => "The round needs a game and at least one player.",
            TarokError::NoGameSpecified => "No game specified.",
            TarokError::UnrecognizedToken => "Could not recognize an attribute of the round.",
            TarokError::UnknownPlayer => "A player of the round is not registered.",
            TarokError::NoPlayers => "No players specified!",
            TarokError::LedgerInvariantViolation => "A player of the round has no score sheet.",
            TarokError::PointsOutOfRange => "The points of the round are out of range.",
        }
    }

    /// The sentence that `message` gives.
    pub open spec fn message_text(self) -> Seq<char> {
        match self {
            TarokError::MalformedRound => "The round needs a game and at least one player."@,
            TarokError::NoGameSpecified => "No game specified."@,
            TarokError::UnrecognizedToken => "Could not recognize an attribute of the round."@,
            TarokError::UnknownPlayer => "A player of the round is not registered."@,
            TarokError::NoPlayers => "No players specified!"@,
            TarokError::LedgerInvariantViolation => "A player of the round has no score sheet."@,
            TarokError::PointsOutOfRange => "The points of the round are out of range."@,
        }
    }
}

} // verus!
