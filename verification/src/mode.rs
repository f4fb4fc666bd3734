use crate::errors::TarotErrorKind;
use crate::handle::Handle;
use vstd::prelude::*;

verus! {

/// The table of per-player-count constants: how many play, how large the
/// dog is, how many cards each hand gets, the handle thresholds and the
/// score ratio.
#[derive(Copy, Clone, Debug, Eq, PartialEq, Structural, Hash)]
pub enum Mode {
    Three,
    Four,
    Five,
}

impl Default for Mode {
    /// The standard table seats four players.
    fn default() -> (r: Mode)
        ensures
            r == Mode::Four,
    {
        Mode::Four
    }
}

impl Mode {
    /// Number of players at the table.
    pub open spec fn spec_players(self) -> int {
        match self {
            Mode::Three => 3,
            Mode::Four => 4,
            Mode::Five => 5,
        }
    }

    /// Number of players at the table.
    pub fn players(self) -> (r: usize)
        ensures
            r == self.spec_players(),
    {
        match self {
            Mode::Three => 3,
            Mode::Four => 4,
            Mode::Five => 5,
        }
    }

    /// The table for the given number of players, or an error for any
    /// other count.
    pub fn from_players(value: usize) -> (r: Result<Mode, TarotErrorKind>)
        ensures
            value == 3 ==> r == Ok::<Mode, TarotErrorKind>(Mode::Three),
            value == 4 ==> r == Ok::<Mode, TarotErrorKind>(Mode::Four),
            value == 5 ==> r == Ok::<Mode, TarotErrorKind>(Mode::Five),
            !(3 <= value <= 5) ==> (r matches Err(TarotErrorKind::InvalidPlayers(_))),
    {
        match value {
            3 => Ok(Mode::Three),
            4 => Ok(Mode::Four),
            5 => Ok(Mode::Five),
            _ => Err(TarotErrorKind::InvalidPlayers(String::new())),
        }
    }

    /// Multiplier applied to the taker's own score delta: doubled at three
    /// players, tripled at four; at five it is doubled with an ally and
    /// quadrupled without one.
    pub open spec fn spec_ratio(self, with_ally: bool) -> int {
        match self {
            Mode::Three => 2,
            Mode::Four => 3,
            Mode::Five => if with_ally {
                2
            } else {
                4
            },
        }
    }

    /// Multiplier applied to the taker's own score delta; see `spec_ratio`.
    pub fn ratio(&self, with_ally: bool) -> (r: i64)
        ensures
            r == self.spec_ratio(with_ally),
    {
        match self {
            Mode::Three => 2,
            Mode::Four => 3,
            Mode::Five => if with_ally {
                2
            } else {
                4
            },
        }
    }

    /// Number of cards set aside as the dog: three at five players, six
    /// otherwise.
    pub open spec fn spec_dog_size(self) -> int {
        match self {
            Mode::Five => 3,
            _ => 6,
        }
    }

    /// Number of cards set aside as the dog; see `spec_dog_size`.
    pub fn dog_size(&self) -> (r: usize)
        ensures
            r == self.spec_dog_size(),
    {
        match self {
            Mode::Five => 3,
            _ => 6,
        }
    }

    /// How many cards are dealt to a player at a time.
    pub fn cards_per_turn(&self) -> (r: usize)
        ensures
            self == Mode::Three ==> r == 4,
            self != Mode::Three ==> r == 3,
    {
        match self {
            Mode::Three => 4,
            _ => 3,
        }
    }

    /// Number of cards in each player's hand after the deal.
    pub open spec fn spec_cards_per_player(self) -> int {
        match self {
            Mode::Three => 24,
            Mode::Four => 18,
            Mode::Five => 15,
        }
    }

    /// Number of cards in each player's hand after the deal.
    pub fn cards_per_player(&self) -> (r: usize)
        ensures
            r == self.spec_cards_per_player(),
    {
        match self {
            Mode::Three => 24,
            Mode::Four => 18,
            Mode::Five => 15,
        }
    }

    /// The most cards the taker can ever hold: a full hand plus the dog.
    pub fn max_cards_for_taker(&self) -> (r: usize)
        ensures
            r == self.spec_dog_size() + self.spec_cards_per_player(),
    {
        self.dog_size() + self.cards_per_player()
    }

    /// Name of the seat at the given position, or an error past the last
    /// seat.
    pub open spec fn spec_player_name(self, index: int) -> Seq<char> {
        if index == 0 {
            "East"@
        } else if index == 1 {
            "North"@
        } else if index == 2 {
            "South"@
        } else if index == 3 {
            "West"@
        } else {
            "Compass"@
        }
    }

    /// Name of the seat at the given position, or an error past the last
    /// seat.
    pub fn player_name(&self, index: usize) -> (r: Result<&'static str, TarotErrorKind>)
        ensures
            index < self.spec_players() ==> (r matches Ok(s) && s@ == self.spec_player_name(
                index as int,
            )),
            index >= self.spec_players() ==> (r matches Err(TarotErrorKind::InvalidCase(_))),
    {
        if index < self.players() {
            match index {
                0 => Ok("East"),
                1 => Ok("North"),
                2 => Ok("South"),
                3 => Ok("West"),
                _ => Ok("Compass"),
            }
        } else {
            Err(TarotErrorKind::InvalidCase(String::new()))
        }
    }

    /// The handle tier a count of trumps is worth at this table, if any:
    /// the banded thresholds of the poignee rule.
    pub open spec fn spec_handle(self, count: int) -> Option<Handle> {
        match self {
            Mode::Three => if count <= 12 {
                None
            } else if count <= 14 {
                Some(Handle::Simple)
            } else if count <= 17 {
                Some(Handle::Double)
            } else {
                Some(Handle::Triple)
            },
            Mode::Four => if count <= 9 {
                None
            } else if count <= 12 {
                Some(Handle::Simple)
            } else if count <= 14 {
                Some(Handle::Double)
            } else {
                Some(Handle::Triple)
            },
            Mode::Five => if count <= 7 {
                None
            } else if count <= 9 {
                Some(Handle::Simple)
            } else if count <= 12 {
                Some(Handle::Double)
            } else {
                Some(Handle::Triple)
            },
        }
    }

    /// The handle tier a count of trumps is worth at this table; see
    /// `spec_handle`.
    pub fn handle(&self, count: usize) -> (r: Option<Handle>)
        ensures
            r == self.spec_handle(count as int),
    {
        match self {
            Mode::Three => {
                if count <= 12 {
                    None
                } else if count <= 14 {
                    Some(Handle::Simple)
                } else if count <= 17 {
                    Some(Handle::Double)
                } else {
                    Some(Handle::Triple)
                }
            },
            Mode::Four => {
                if count <= 9 {
                    None
                } else if count <= 12 {
                    Some(Handle::Simple)
                } else if count <= 14 {
                    Some(Handle::Double)
                } else {
                    Some(Handle::Triple)
                }
            },
            Mode::Five => {
                if count <= 7 {
                    None
                } else if count <= 9 {
                    Some(Handle::Simple)
                } else if count <= 12 {
                    Some(Handle::Double)
                } else {
                    Some(Handle::Triple)
                }
            },
        }
    }

    /// How many trumps a declared handle of the given tier must show at
    /// this table.
    pub open spec fn spec_handle_limit(self, handle: Handle) -> int {
        match handle {
            Handle::Refused => 0,
            Handle::Simple => match self {
                Mode::Three => 13,
                Mode::Four => 10,
                Mode::Five => 8,
            },
            Handle::Double => match self {
                Mode::Three => 15,
                Mode::Four => 13,
                Mode::Five => 10,
            },
            Handle::Triple => match self {
                Mode::Three => 18,
                Mode::Four => 15,
                Mode::Five => 13,
            },
        }
    }

    /// How many trumps a declared handle of the given tier must show; see
    /// `spec_handle_limit`.
    pub fn handle_limit(&self, handle: &Handle) -> (r: usize)
        ensures
            r == self.spec_handle_limit(*handle),
    {
        match handle {
            Handle::Refused => 0,
            Handle::Simple => match self {
                Mode::Three => 13,
                Mode::Four => 10,
                Mode::Five => 8,
            },
            Handle::Double => match self {
                Mode::Three => 15,
                Mode::Four => 13,
                Mode::Five => 10,
            },
            Handle::Triple => match self {
                Mode::Three => 18,
                Mode::Four => 15,
                Mode::Five => 13,
            },
        }
    }

    /// A short description of the table for display.
    pub fn describe(&self) -> String {
        match self {
            Mode::Three => "3 players, 1 vs 2 (easy)".to_string(),
            Mode::Four => "4 players, 1 vs 3 (standard)".to_string(),
            Mode::Five => "5 players, 2 vs 3 (call a king)".to_string(),
        }
    }
}

/// Character-for-character equality of two string slices.
fn chars_eq(a: &str, b: &str) -> (r: bool)
    ensures
        r == (a@ == b@),
{
    let alen = a.unicode_len();
    let blen = b.unicode_len();
    if alen != blen {
        return false;
    }
    let mut i: usize = 0;
    while i < alen
        invariant
            i <= alen,
            alen == a@.len(),
            alen == b@.len(),
            forall|j: int| 0 <= j < i ==> a@[j] == b@[j],
        decreases alen - i,
    {
        if a.get_char(i) != b.get_char(i) {
            return false;
        }
        i = i + 1;
    }
    proof {
        assert(a@ =~= b@);
    }
    true
}

/// Reads a table size written as a digit or in words: "3" or "three",
/// "4" or "four", "5" or "five"; anything else is rejected.
pub fn mode_of_str(s: &str) -> (r: Result<Mode, TarotErrorKind>)
    ensures
        (s@ == "3"@ || s@ == "three"@) ==> r == Ok::<Mode, TarotErrorKind>(Mode::Three),
        (s@ == "4"@ || s@ == "four"@) ==> r == Ok::<Mode, TarotErrorKind>(Mode::Four),
        (s@ == "5"@ || s@ == "five"@) ==> r == Ok::<Mode, TarotErrorKind>(Mode::Five),
        !(s@ == "3"@ || s@ == "three"@ || s@ == "4"@ || s@ == "four"@ || s@ == "5"@ || s@
            == "five"@) ==> (r matches Err(TarotErrorKind::InvalidPlayers(_))),
{
    proof {
        reveal_strlit("3");
        reveal_strlit("three");
        reveal_strlit("4");
        reveal_strlit("four");
        reveal_strlit("5");
        reveal_strlit("five");
        assert("3"@ =~= seq!['3']);
        assert("4"@ =~= seq!['4']);
        assert("5"@ =~= seq!['5']);
        assert("three"@ =~= seq!['t', 'h', 'r', 'e', 'e']);
        assert("four"@ =~= seq!['f', 'o', 'u', 'r']);
        assert("five"@ =~= seq!['f', 'i', 'v', 'e']);
        assert("3"@ != "4"@ && "3"@ != "four"@ && "3"@ != "5"@ && "3"@ != "five"@) by {
            assert("3"@[0] == '3' && "4"@[0] == '4' && "5"@[0] == '5' && "four"@[0] == 'f'
                && "five"@[0] == 'f');
        }
        assert("three"@ != "4"@ && "three"@ != "four"@ && "three"@ != "5"@ && "three"@
            != "five"@) by {
            assert("three"@[0] == 't' && "4"@[0] == '4' && "5"@[0] == '5' && "four"@[0] == 'f'
                && "five"@[0] == 'f');
        }
        assert("4"@ != "5"@ && "4"@ != "five"@ && "four"@ != "5"@ && "four"@ != "five"@) by {
            assert("4"@[0] == '4' && "5"@[0] == '5' && "four"@[1] == 'o' && "five"@[1] == 'i'
                && "four"@[0] == 'f' && "five"@[0] == 'f');
        }
    }
    if chars_eq(s, "3") || chars_eq(s, "three") {
        Ok(Mode::Three)
    } else if chars_eq(s, "4") || chars_eq(s, "four") {
        Ok(Mode::Four)
    } else if chars_eq(s, "5") || chars_eq(s, "five") {
        Ok(Mode::Five)
    } else {
        Err(TarotErrorKind::InvalidPlayers(s.to_string()))
    }
}

impl core::str::FromStr for Mode {
    type Err = TarotErrorKind;

    /// Reads a table size written as a digit or in words; see
    /// `mode_of_str`, which carries the contract.
    fn from_str(s: &str) -> Result<Mode, TarotErrorKind> {
        mode_of_str(s)
    }
}

} // verus!
