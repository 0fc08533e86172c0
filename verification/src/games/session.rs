//! A session of either game. Which game it is is chosen once, when the
//! session is made.

use vstd::prelude::*;

use crate::games::table::game::{
    filled_sheets, submitted_text, table_file_name_text, table_report_of, table_submit, Table,
    TableError, TableView,
};
use crate::games::tarok::enums::TarokError;
use crate::games::tarok::game::{file_name_text, response_text, scored_submission, submit, Tarok};
use crate::games::tarok::report::report_of;
use crate::models::user::PlayerDirectory;
use crate::text::texts;

verus! {

/// A session of Tarok or of the plain table.
#[derive(Debug)]
pub enum Game {
    Tarok(Tarok),
    Table(Table),
}

/// What can go wrong with a round, game by game.
#[derive(Debug, Clone, Copy, PartialEq, Eq, Structural)]
pub enum GameError {
    Tarok(TarokError),
    Table(TableError),
}

impl GameError {
    /// A sentence for the one who handed the round in.
    pub fn message(&self) -> (r: &'static str)
        ensures
            r@ == self.message_text(),
    {
        match self {
            GameError::Tarok(e) => e.message(),
            GameError::Table(e) => e.message(),
        }
    }

    /// The sentence that `message` gives.
    pub open spec fn message_text(self) -> Seq<char> {
        match self {
            GameError::Tarok(e) => e.message_text(),
            GameError::Table(e) => e.message_text(),
        }
    }
}

impl Game {
    /// The ledgers of the session are in order.
    pub open spec fn wf(&self) -> bool {
        match self {
            Game::Tarok(game) => game.wf(),
            Game::Table(_) => true,
        }
    }

    /// Whether the ledgers of the session are in order.
    pub fn is_well_formed(&self) -> (r: bool)
        ensures
            r == self.wf(),
    {
        match self {
            Game::Tarok(game) => game.is_well_formed(),
            Game::Table(_) => true,
        }
    }

    /// Opens the session.
    pub fn start_game(&mut self) -> (r: String)
        ensures
            *final(self) == *old(self),
            r@ == (match *old(self) {
                Game::Tarok(_) => "Started game of Tarok!"@,
                Game::Table(_) => "Started a generic game score table!"@,
            }),
    {
        match self {
            Game::Tarok(game) => game.start_game(),
            Game::Table(game) => game.start_game(),
        }
    }

    /// The names that a round line asks the directory for.
    pub fn names_to_resolve(&self, text: &str) -> (r: Vec<Vec<char>>)
        ensures
            texts(r@) == (match *self {
                Game::Tarok(_) => crate::games::tarok::tokens::round_names(text@),
                Game::Table(_) => crate::games::table::game::round_names(text@),
            }),
    {
        match self {
            Game::Tarok(_) => crate::games::tarok::tokens::extract_round_names(text),
            Game::Table(_) => crate::games::table::game::extract_round_names(text),
        }
    }

    /// Takes a round line, as the game of the session takes it.
    pub fn handle_round(&mut self, text: &str, directory: &PlayerDirectory) -> (r: Result<
        String,
        GameError,
    >)
        requires
            old(self).wf(),
        ensures
            final(self).wf(),
            match *old(self) {
                Game::Tarok(before) => *final(self) is Tarok && (match submit(
                    before@,
                    text@,
                    *directory,
                ) {
                    Ok(next) => r is Ok && (*final(self))->Tarok_0@ == next && r->Ok_0@
                        == response_text(scored_submission(before@, text@, *directory)->Ok_0),
                    Err(e) => r == Err::<String, GameError>(GameError::Tarok(e)) && *final(self)
                        == *old(self),
                }),
                Game::Table(before) => *final(self) is Table && (match table_submit(
                    before@,
                    text@,
                    *directory,
                    usize::MAX as nat,
                ) {
                    Ok(next) => r is Ok && (*final(self))->Table_0@ == next && r->Ok_0@
                        == submitted_text(next.round),
                    Err(e) => r == Err::<String, GameError>(GameError::Table(e)) && *final(self)
                        == *old(self),
                }),
            },
    {
        match self {
            Game::Tarok(game) => match game.handle_round(text, directory) {
                Ok(answer) => Ok(answer),
                Err(e) => Err(GameError::Tarok(e)),
            },
            Game::Table(game) => match game.handle_round(text, directory) {
                Ok(answer) => Ok(answer),
                Err(e) => Err(GameError::Table(e)),
            },
        }
    }

    /// The state of the session as a page.
    pub fn get_state(&mut self) -> (r: String)
        requires
            old(self).wf(),
        ensures
            final(self).wf(),
            match *old(self) {
                Game::Tarok(before) => *final(self) is Tarok && (*final(self))->Tarok_0@ == before@
                    && r@ == crate::games::tarok::html_helper::score_table_html(
                    report_of(before@),
                ),
                Game::Table(before) => *final(self) is Table && (*final(self))->Table_0@
                    == (TableView {
                    sheets: filled_sheets(before@.sheets, before@.round),
                    round: before@.round,
                }) && r@ == crate::games::table::html_helper::score_table_html(
                    table_report_of(before@),
                ),
            },
    {
        match self {
            Game::Tarok(game) => {
                let report = game.get_state();
                crate::games::tarok::html_helper::build_score_table_html(&report)
            },
            Game::Table(game) => {
                let report = game.get_state();
                crate::games::table::html_helper::build_score_table_html(&report)
            },
        }
    }

    /// Ends the session and gives its last state as a page.
    pub fn end_game(self) -> (r: String)
        requires
            self.wf(),
        ensures
            r@ == (match self {
                Game::Tarok(before) => crate::games::tarok::html_helper::score_table_html(
                    report_of(before@),
                ),
                Game::Table(before) => crate::games::table::html_helper::score_table_html(
                    table_report_of(before@),
                ),
            }),
    {
        let mut session = self;
        session.get_state()
    }

    /// The name of the file for a game that ends now.
    pub fn generate_file_name(&self) -> (r: String)
        ensures
            match *self {
                Game::Tarok(_) => exists|stamp: Seq<char>| r@ == file_name_text(stamp),
                Game::Table(_) => exists|stamp: Seq<char>| r@ == table_file_name_text(stamp),
            },
    {
        match self {
            Game::Tarok(game) => game.generate_file_name(),
            Game::Table(game) => game.generate_file_name(),
        }
    }
}

} // verus!
