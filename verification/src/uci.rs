//! The messages of the Universal Chess Interface: reading a line that the
//! GUI sends, and writing a line for the GUI.

use vstd::prelude::*;
use crate::notation::{split_spaces, split_spec, views};

verus! {

/// A command from the GUI.
#[derive(Debug)]
pub enum GuiToEngine {
    Uci,
    UciNewGame,
    IsReady,
    Quit,
    Position(PositionType),
    Go,
}

/// A message to the GUI.
pub enum EngineToGui {
    Id(IdType),
    UciOk,
    ReadyOk,
    Option(OptionType),
    Info(InfoType),
}

pub enum OptionType {
    Name(String),
}

pub enum IdType {
    Name(String),
    Author(String),
}

/// Where a `position` command starts from, with the words that follow
/// (the FEN fields, or the moves).
#[derive(Debug, Clone, PartialEq, Eq)]
pub enum PositionType {
    FenString(Vec<String>),
    StartPos(Vec<String>),
}

pub enum InfoType {
    Str(String),
}

/// The words of a command line, split at each single space.
pub open spec fn words(value: Seq<char>) -> Seq<Seq<char>> {
    split_spec(value)
}

/// Whether the line is a `position` command whose second word is neither
/// `startpos` nor `fen`: such a line is not handled.
pub open spec fn unknown_position(value: Seq<char>) -> bool {
    let w = words(value);
    &&& w[0] == "position"@
    &&& w.len() >= 2
    &&& w[1] != "startpos"@
    &&& w[1] != "fen"@
}

/// The text of a message to the GUI.
pub open spec fn message_text(m: EngineToGui) -> Seq<char> {
    match m {
        EngineToGui::UciOk => "uciok"@,
        EngineToGui::Id(IdType::Name(name)) => "id name "@ + name@,
        EngineToGui::Id(IdType::Author(author)) => "id author "@ + author@,
        EngineToGui::Info(InfoType::Str(s)) => "info string "@ + s@,
        EngineToGui::ReadyOk => "readyok"@,
        EngineToGui::Option(OptionType::Name(name)) => "option name "@ + name@,
    }
}

/// Whether a word is exactly `lit`.
fn is_word(word: &String, lit: &str) -> (r: bool)
    ensures
        r == (word@ == lit@),
{
    let expected = String::from_str(lit);
    *word == expected
}

/// The words of `tokens` from the `start`-th on.
fn words_from(tokens: &Vec<String>, start: usize) -> (r: Vec<String>)
    requires
        start <= tokens.len(),
    ensures
        views(r@) == views(tokens@).skip(start as int),
{
    let mut rest: Vec<String> = Vec::new();
    let mut i = start;
    while i < tokens.len()
        invariant
            start <= i <= tokens.len(),
            views(rest@) == views(tokens@).subrange(start as int, i as int),
        decreases tokens.len() - i,
    {
        let ghost before = views(rest@);
        rest.push(tokens[i].clone());
        assert(views(rest@) =~= before.push(tokens@[i as int]@));
        assert(views(tokens@).subrange(start as int, i + 1) =~= views(tokens@).subrange(
            start as int,
            i as int,
        ).push(tokens@[i as int]@));
        i = i + 1;
    }
    assert(views(tokens@).subrange(start as int, tokens.len() as int) =~= views(tokens@).skip(
        start as int,
    ));
    rest
}

impl GuiToEngine {
    /// Reads a command line. Its first word names the command (`uci`,
    /// `ucinewgame`, `isready`, `quit`, `go`); a `position` command of two
    /// words or more starts from `startpos` or from `fen`, and keeps the
    /// words after these two. Anything else is refused with
    /// `Invalid input` and the line.
    pub fn try_from(value: &str) -> (r: Result<GuiToEngine, String>)
        requires
            !unknown_position(value@),
        ensures
            ({
                let w = words(value@);
                if w[0] == "uci"@ {
                    r == Ok::<GuiToEngine, String>(GuiToEngine::Uci)
                } else if w[0] == "ucinewgame"@ {
                    r == Ok::<GuiToEngine, String>(GuiToEngine::UciNewGame)
                } else if w[0] == "isready"@ {
                    r == Ok::<GuiToEngine, String>(GuiToEngine::IsReady)
                } else if w[0] == "quit"@ {
                    r == Ok::<GuiToEngine, String>(GuiToEngine::Quit)
                } else if w[0] == "go"@ {
                    r == Ok::<GuiToEngine, String>(GuiToEngine::Go)
                } else if w[0] == "position"@ && w.len() >= 2 && w[1] == "startpos"@ {
                    r matches Ok(GuiToEngine::Position(PositionType::StartPos(rest)))
                        && views(rest@) == w.skip(2)
                } else if w[0] == "position"@ && w.len() >= 2 && w[1] == "fen"@ {
                    r matches Ok(GuiToEngine::Position(PositionType::FenString(rest)))
                        && views(rest@) == w.skip(2)
                } else {
                    r matches Err(e) && e@ == "Invalid input "@ + value@
                }
            }),
    {
        let tokens = split_spaces(value);
        let ghost w = words(value@);
        proof {
            crate::notation::lemma_split_nonempty(value@);
        }
        assert(tokens@[0]@ == w[0]);
        let first = &tokens[0];
        if is_word(first, "uci") {
            return Ok(GuiToEngine::Uci);
        }
        if is_word(first, "ucinewgame") {
            return Ok(GuiToEngine::UciNewGame);
        }
        if is_word(first, "isready") {
            return Ok(GuiToEngine::IsReady);
        }
        if is_word(first, "quit") {
            return Ok(GuiToEngine::Quit);
        }
        if is_word(first, "go") {
            return Ok(GuiToEngine::Go);
        }
        if is_word(first, "position") && tokens.len() >= 2 {
            assert(tokens@[1]@ == w[1]);
            let rest = words_from(&tokens, 2);
            if is_word(&tokens[1], "startpos") {
                return Ok(GuiToEngine::Position(PositionType::StartPos(rest)));
            }
            return Ok(GuiToEngine::Position(PositionType::FenString(rest)));
        }
        let mut message = String::from_str("Invalid input ");
        message.append(value);
        Err(message)
    }
}

impl EngineToGui {
    /// The line that carries the message to the GUI.
    pub fn to_string(&self) -> (r: String)
        ensures
            r@ == message_text(*self),
    {
        match self {
            EngineToGui::UciOk => String::from_str("uciok"),
            EngineToGui::Id(kind) => match kind {
                IdType::Name(name) => {
                    let mut line = String::from_str("id name ");
                    line.append(name.as_str());
                    line
                },
                IdType::Author(author) => {
                    let mut line = String::from_str("id author ");
                    line.append(author.as_str());
                    line
                },
            },
            EngineToGui::Info(info) => match info {
                InfoType::Str(string) => {
                    let mut line = String::from_str("info string ");
                    line.append(string.as_str());
                    line
                },
            },
            EngineToGui::ReadyOk => String::from_str("readyok"),
            EngineToGui::Option(OptionType::Name(name)) => {
                let mut line = String::from_str("option name ");
                line.append(name.as_str());
                line
            },
        }
    }
}

} // verus!
