//! What the menu offers.

use vstd::prelude::*;
use vstd::string::StrSliceExecFns;

verus! {

/// The kinds of game that the menu offers.
#[derive(Clone, Copy, Debug, PartialEq, Eq, Structural)]
pub enum GameType {
    Black,
    White,
    Humans,
    AIs,
    String,
    Genetic,
    BlackWeights,
    WhiteWeights,
}

/// The kind of game that an answer to the menu stands for: one digit from
/// 0 to 7, and nothing else.
pub open spec fn gametype_of(answer: Seq<char>) -> Option<GameType> {
    if answer.len() != 1 {
        None
    } else if answer[0] == '1' {
        Some(GameType::Black)
    } else if answer[0] == '2' {
        Some(GameType::White)
    } else if answer[0] == '3' {
        Some(GameType::Humans)
    } else if answer[0] == '4' {
        Some(GameType::AIs)
    } else if answer[0] == '5' {
        Some(GameType::String)
    } else if answer[0] == '6' {
        Some(GameType::BlackWeights)
    } else if answer[0] == '7' {
        Some(GameType::WhiteWeights)
    } else if answer[0] == '0' {
        Some(GameType::Genetic)
    } else {
        None
    }
}

/// The kind of game that an answer to the menu stands for.
pub fn get_gametype_from_string(g: &str) -> (game_type: Option<GameType>)
    ensures
        game_type == gametype_of(g@),
{
    if g.unicode_len() != 1 {
        return None;
    }
    let c = g.get_char(0);
    if c == '1' {
        Some(GameType::Black)
    } else if c == '2' {
        Some(GameType::White)
    } else if c == '3' {
        Some(GameType::Humans)
    } else if c == '4' {
        Some(GameType::AIs)
    } else if c == '5' {
        Some(GameType::String)
    } else if c == '6' {
        Some(GameType::BlackWeights)
    } else if c == '7' {
        Some(GameType::WhiteWeights)
    } else if c == '0' {
        Some(GameType::Genetic)
    } else {
        None
    }
}

} // verus!
