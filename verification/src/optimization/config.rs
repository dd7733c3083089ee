//! How hard the optimizer works.
use vstd::prelude::*;

use crate::text::{push_str, str_eq, to_owned_string};

verus! {

#[derive(Debug, Clone, Copy, PartialEq, Eq, Structural)]
pub enum OptimizationLevel {
    /// No optimization.
    O0,
    /// Basic optimizations.
    O1,
    /// Recommended optimizations.
    O2,
    /// Aggressive optimizations.
    O3,
}

/// The level a command-line spelling names: a digit `0`-`3`, or the same
/// digit after `O`.
pub open spec fn level_named(s: Seq<char>) -> Option<OptimizationLevel> {
    if s == "0"@ || s == "O0"@ {
        Some(OptimizationLevel::O0)
    } else if s == "1"@ || s == "O1"@ {
        Some(OptimizationLevel::O1)
    } else if s == "2"@ || s == "O2"@ {
        Some(OptimizationLevel::O2)
    } else if s == "3"@ || s == "O3"@ {
        Some(OptimizationLevel::O3)
    } else {
        None
    }
}

/// The canonical name of a level.
pub open spec fn level_name(level: OptimizationLevel) -> Seq<char> {
    match level {
        OptimizationLevel::O0 => "O0"@,
        OptimizationLevel::O1 => "O1"@,
        OptimizationLevel::O2 => "O2"@,
        OptimizationLevel::O3 => "O3"@,
    }
}

impl OptimizationLevel {
    pub fn from_string(s: &str) -> (result: Result<Self, String>)
        ensures
            match result {
                Ok(level) => level_named(s@) == Some(level),
                Err(message) => level_named(s@).is_none() && message@ == "Unknown optimization level: "@ + s@,
            },
    {
        if str_eq(s, "0") || str_eq(s, "O0") {
            Ok(OptimizationLevel::O0)
        } else if str_eq(s, "1") || str_eq(s, "O1") {
            Ok(OptimizationLevel::O1)
        } else if str_eq(s, "2") || str_eq(s, "O2") {
            Ok(OptimizationLevel::O2)
        } else if str_eq(s, "3") || str_eq(s, "O3") {
            Ok(OptimizationLevel::O3)
        } else {
            let mut message = to_owned_string("Unknown optimization level: ");
            push_str(&mut message, s);
            Err(message)
        }
    }

    pub fn as_str(&self) -> (result: &'static str)
        ensures
            result@ == level_name(*self),
    {
        match self {
            OptimizationLevel::O0 => "O0",
            OptimizationLevel::O1 => "O1",
            OptimizationLevel::O2 => "O2",
            OptimizationLevel::O3 => "O3",
        }
    }
}

impl Default for OptimizationLevel {
    fn default() -> (result: Self)
        ensures
            result == OptimizationLevel::O2,
    {
        OptimizationLevel::O2
    }
}

/// Reading back the name of a level gives the level.
pub proof fn lemma_level_name_round_trip(level: OptimizationLevel)
    ensures
        level_named(level_name(level)) == Some(level),
{
    reveal_strlit("0");
    reveal_strlit("1");
    reveal_strlit("2");
    reveal_strlit("3");
    reveal_strlit("O0");
    reveal_strlit("O1");
    reveal_strlit("O2");
    reveal_strlit("O3");
    assert("O0"@.len() == 2 && "O1"@.len() == 2 && "O2"@.len() == 2 && "O3"@.len() == 2);
    assert("0"@.len() == 1 && "1"@.len() == 1 && "2"@.len() == 1 && "3"@.len() == 1);
    assert("O0"@[1] == '0' && "O1"@[1] == '1' && "O2"@[1] == '2' && "O3"@[1] == '3');
}

} // verus!
