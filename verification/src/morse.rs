//! The Morse symbol model, the fixed code table over the 37 supported
//! characters, and the encode/decode translation engine.

use vstd::prelude::*;

use crate::text::all_space_sep;
use crate::text::join_strs;
use crate::text::join_with;
use crate::text::lemma_join_keeps_runs_narrow;
use crate::text::lemma_join_of_split;
use crate::text::lemma_no_run_no_occurrence;
use crate::text::lemma_split_len;
use crate::text::lemma_split_nonempty_pieces;
use crate::text::lemma_split_of_join;
use crate::text::lemma_split_pieces_clean;
use crate::text::lemma_split_preserves;
use crate::text::occurs_at;
use crate::text::piece_ok;
use crate::text::space_runs_below;
use crate::text::split_on;
use crate::text::split_str;
use crate::text::views_of;
use crate::text::window_all_spaces;

verus! {

/// One of the five Morse primitives: the two pulses and the three gap widths.
#[derive(Clone, Copy, PartialEq, Eq, Structural, Debug)]
pub enum Morse {
    /// The short pulse ("dit"), one time unit.
    Dit,
    /// The long pulse ("dah"), three time units.
    Dah,
    /// The gap between pulses within one letter, one time unit.
    BaseSpace,
    /// The gap between letters within a word, three time units.
    LetterSpace,
    /// The gap between words, seven time units.
    WordSpace,
}

/// A translation failure; the engine never repairs or retries.
#[derive(Clone, Copy, PartialEq, Eq, Structural, Debug)]
pub enum MorseError {
    /// The text to encode holds a character outside the 37 supported ones.
    UnknownCharacter,
    /// A decode token is not one of the five canonical renderings.
    InvalidSymbol,
    /// A decoded pulse sequence matches no code table entry.
    UnknownSequence,
}

/// The canonical textual rendering of each primitive.
pub open spec fn render_spec(m: Morse) -> Seq<char> {
    match m {
        Morse::Dit => seq!['\u{b7}'],
        Morse::Dah => seq!['\u{2015}'],
        Morse::BaseSpace => seq![' '],
        Morse::LetterSpace => seq![' ', ' ', ' '],
        Morse::WordSpace => seq![' ', ' ', ' ', ' ', ' ', ' ', ' '],
    }
}

/// The duration of each primitive, in abstract time units.
pub open spec fn weight_spec(m: Morse) -> u8 {
    match m {
        Morse::Dit => 1,
        Morse::Dah => 3,
        Morse::BaseSpace => 1,
        Morse::LetterSpace => 3,
        Morse::WordSpace => 7,
    }
}

/// The inverse of `render_spec`: the primitive a token stands for, if any.
pub open spec fn parse_spec(s: Seq<char>) -> Option<Morse> {
    if s.len() == 1 && s[0] == '\u{b7}' {
        Some(Morse::Dit)
    } else if s.len() == 1 && s[0] == '\u{2015}' {
        Some(Morse::Dah)
    } else if s.len() == 1 && s[0] == ' ' {
        Some(Morse::BaseSpace)
    } else if s.len() == 3 && s[0] == ' ' && s[1] == ' ' && s[2] == ' ' {
        Some(Morse::LetterSpace)
    } else if s.len() == 7 && s[0] == ' ' && s[1] == ' ' && s[2] == ' ' && s[3] == ' ' && s[4]
        == ' ' && s[5] == ' ' && s[6] == ' ' {
        Some(Morse::WordSpace)
    } else {
        None
    }
}

/// Parsing any rendered primitive gives the primitive back.
pub proof fn lemma_parse_of_render(m: Morse)
    ensures
        parse_spec(render_spec(m)) == Some(m),
{
}

/// The five renderings are pairwise distinct, so decoding by
/// delimiter-splitting is unambiguous.
pub proof fn lemma_renderings_distinct(m1: Morse, m2: Morse)
    requires
        render_spec(m1) == render_spec(m2),
    ensures
        m1 == m2,
{
    lemma_parse_of_render(m1);
    lemma_parse_of_render(m2);
}

impl Morse {
    /// The canonical string form of this primitive.
    pub fn to_str(&self) -> (r: &'static str)
        ensures
            r@ == render_spec(*self),
    {
        proof {
            reveal_strlit("\u{b7}");
            reveal_strlit("\u{2015}");
            reveal_strlit(" ");
            reveal_strlit("   ");
            reveal_strlit("       ");
        }
        match self {
            Morse::Dit => "\u{b7}",
            Morse::Dah => "\u{2015}",
            Morse::BaseSpace => " ",
            Morse::LetterSpace => "   ",
            Morse::WordSpace => "       ",
        }
    }

    /// The primitive a token stands for; `InvalidSymbol` when the token is
    /// not exactly one of the five canonical renderings.
    pub fn from_str(symbol: &str) -> (r: Result<Morse, MorseError>)
        ensures
            r == (match parse_spec(symbol@) {
                Some(m) => Ok::<Morse, MorseError>(m),
                None => Err::<Morse, MorseError>(MorseError::InvalidSymbol),
            }),
    {
        let n = symbol.unicode_len();
        if n == 1 {
            let c = symbol.get_char(0);
            if c == '\u{b7}' {
                Ok(Morse::Dit)
            } else if c == '\u{2015}' {
                Ok(Morse::Dah)
            } else if c == ' ' {
                Ok(Morse::BaseSpace)
            } else {
                Err(MorseError::InvalidSymbol)
            }
        } else if n == 3 {
            if symbol.get_char(0) == ' ' && symbol.get_char(1) == ' ' && symbol.get_char(2) == ' ' {
                Ok(Morse::LetterSpace)
            } else {
                Err(MorseError::InvalidSymbol)
            }
        } else if n == 7 {
            if symbol.get_char(0) == ' ' && symbol.get_char(1) == ' ' && symbol.get_char(2) == ' '
                && symbol.get_char(3) == ' ' && symbol.get_char(4) == ' ' && symbol.get_char(5)
                == ' ' && symbol.get_char(6) == ' ' {
                Ok(Morse::WordSpace)
            } else {
                Err(MorseError::InvalidSymbol)
            }
        } else {
            Err(MorseError::InvalidSymbol)
        }
    }

    /// The duration of this primitive, in abstract time units.
    pub fn len(&self) -> (r: u8)
        ensures
            r == weight_spec(*self),
    {
        match self {
            Morse::Dit | Morse::BaseSpace => 1,
            Morse::Dah | Morse::LetterSpace => 3,
            Morse::WordSpace => 7,
        }
    }
}


/// The code table: the pulse sequence of each supported character, `None`
/// outside the 37 supported ones.
pub open spec fn code_spec(c: char) -> Option<Seq<Morse>> {
    if c == ' ' {
        Some(seq![Morse::WordSpace])
    } else if c == 'a' {
        Some(seq![Morse::Dit, Morse::Dah])
    } else if c == 'b' {
        Some(seq![Morse::Dah, Morse::Dit, Morse::Dit, Morse::Dit])
    } else if c == 'c' {
        Some(seq![Morse::Dah, Morse::Dit, Morse::Dah, Morse::Dit])
    } else if c == 'd' {
        Some(seq![Morse::Dah, Morse::Dit, Morse::Dit])
    } else if c == 'e' {
        Some(seq![Morse::Dit])
    } else if c == 'f' {
        Some(seq![Morse::Dit, Morse::Dit, Morse::Dah, Morse::Dit])
    } else if c == 'g' {
        Some(seq![Morse::Dah, Morse::Dah, Morse::Dit])
    } else if c == 'h' {
        Some(seq![Morse::Dit, Morse::Dit, Morse::Dit, Morse::Dit])
    } else if c == 'i' {
        Some(seq![Morse::Dit, Morse::Dit])
    } else if c == 'j' {
        Some(seq![Morse::Dit, Morse::Dah, Morse::Dah, Morse::Dah])
    } else if c == 'k' {
        Some(seq![Morse::Dah, Morse::Dit, Morse::Dah])
    } else if c == 'l' {
        Some(seq![Morse::Dit, Morse::Dah, Morse::Dit, Morse::Dit])
    } else if c == 'm' {
        Some(seq![Morse::Dah, Morse::Dah])
    } else if c == 'n' {
        Some(seq![Morse::Dah, Morse::Dit])
    } else if c == 'o' {
        Some(seq![Morse::Dah, Morse::Dah, Morse::Dah])
    } else if c == 'p' {
        Some(seq![Morse::Dit, Morse::Dah, Morse::Dah, Morse::Dit])
    } else if c == 'q' {
        Some(seq![Morse::Dah, Morse::Dah, Morse::Dit, Morse::Dah])
    } else if c == 'r' {
        Some(seq![Morse::Dit, Morse::Dah, Morse::Dit])
    } else if c == 's' {
        Some(seq![Morse::Dit, Morse::Dit, Morse::Dit])
    } else if c == 't' {
        Some(seq![Morse::Dah])
    } else if c == 'u' {
        Some(seq![Morse::Dit, Morse::Dit, Morse::Dah])
    } else if c == 'v' {
        Some(seq![Morse::Dit, Morse::Dit, Morse::Dit, Morse::Dah])
    } else if c == 'w' {
        Some(seq![Morse::Dit, Morse::Dah, Morse::Dah])
    } else if c == 'x' {
        Some(seq![Morse::Dah, Morse::Dit, Morse::Dit, Morse::Dah])
    } else if c == 'y' {
        Some(seq![Morse::Dah, Morse::Dit, Morse::Dah, Morse::Dah])
    } else if c == 'z' {
        Some(seq![Morse::Dah, Morse::Dah, Morse::Dit, Morse::Dit])
    } else if c == '1' {
        Some(seq![Morse::Dit, Morse::Dah, Morse::Dah, Morse::Dah, Morse::Dah])
    } else if c == '2' {
        Some(seq![Morse::Dit, Morse::Dit, Morse::Dah, Morse::Dah, Morse::Dah])
    } else if c == '3' {
        Some(seq![Morse::Dit, Morse::Dit, Morse::Dit, Morse::Dah, Morse::Dah])
    } else if c == '4' {
        Some(seq![Morse::Dit, Morse::Dit, Morse::Dit, Morse::Dit, Morse::Dah])
    } else if c == '5' {
        Some(seq![Morse::Dit, Morse::Dit, Morse::Dit, Morse::Dit, Morse::Dit])
    } else if c == '6' {
        Some(seq![Morse::Dah, Morse::Dit, Morse::Dit, Morse::Dit, Morse::Dit])
    } else if c == '7' {
        Some(seq![Morse::Dah, Morse::Dah, Morse::Dit, Morse::Dit, Morse::Dit])
    } else if c == '8' {
        Some(seq![Morse::Dah, Morse::Dah, Morse::Dah, Morse::Dit, Morse::Dit])
    } else if c == '9' {
        Some(seq![Morse::Dah, Morse::Dah, Morse::Dah, Morse::Dah, Morse::Dit])
    } else if c == '0' {
        Some(seq![Morse::Dah, Morse::Dah, Morse::Dah, Morse::Dah, Morse::Dah])
    } else {
        None
    }
}

/// A character the code table covers: `a`-`z`, `0`-`9` or space.
pub open spec fn is_supported(c: char) -> bool {
    code_spec(c) is Some
}

/// The inverse code table: the character a pulse sequence stands for.
pub open spec fn char_of_code(s: Seq<Morse>) -> Option<char> {
    if s.len() == 1 && s[0] == Morse::WordSpace {
        Some(' ')
    } else if s.len() == 2 && s[0] == Morse::Dit && s[1] == Morse::Dah {
        Some('a')
    } else if s.len() == 4 && s[0] == Morse::Dah && s[1] == Morse::Dit && s[2] == Morse::Dit && s[3] == Morse::Dit {
        Some('b')
    } else if s.len() == 4 && s[0] == Morse::Dah && s[1] == Morse::Dit && s[2] == Morse::Dah && s[3] == Morse::Dit {
        Some('c')
    } else if s.len() == 3 && s[0] == Morse::Dah && s[1] == Morse::Dit && s[2] == Morse::Dit {
        Some('d')
    } else if s.len() == 1 && s[0] == Morse::Dit {
        Some('e')
    } else if s.len() == 4 && s[0] == Morse::Dit && s[1] == Morse::Dit && s[2] == Morse::Dah && s[3] == Morse::Dit {
        Some('f')
    } else if s.len() == 3 && s[0] == Morse::Dah && s[1] == Morse::Dah && s[2] == Morse::Dit {
        Some('g')
    } else if s.len() == 4 && s[0] == Morse::Dit && s[1] == Morse::Dit && s[2] == Morse::Dit && s[3] == Morse::Dit {
        Some('h')
    } else if s.len() == 2 && s[0] == Morse::Dit && s[1] == Morse::Dit {
        Some('i')
    } else if s.len() == 4 && s[0] == Morse::Dit && s[1] == Morse::Dah && s[2] == Morse::Dah && s[3] == Morse::Dah {
        Some('j')
    } else if s.len() == 3 && s[0] == Morse::Dah && s[1] == Morse::Dit && s[2] == Morse::Dah {
        Some('k')
    } else if s.len() == 4 && s[0] == Morse::Dit && s[1] == Morse::Dah && s[2] == Morse::Dit && s[3] == Morse::Dit {
        Some('l')
    } else if s.len() == 2 && s[0] == Morse::Dah && s[1] == Morse::Dah {
        Some('m')
    } else if s.len() == 2 && s[0] == Morse::Dah && s[1] == Morse::Dit {
        Some('n')
    } else if s.len() == 3 && s[0] == Morse::Dah && s[1] == Morse::Dah && s[2] == Morse::Dah {
        Some('o')
    } else if s.len() == 4 && s[0] == Morse::Dit && s[1] == Morse::Dah && s[2] == Morse::Dah && s[3] == Morse::Dit {
        Some('p')
    } else if s.len() == 4 && s[0] == Morse::Dah && s[1] == Morse::Dah && s[2] == Morse::Dit && s[3] == Morse::Dah {
        Some('q')
    } else if s.len() == 3 && s[0] == Morse::Dit && s[1] == Morse::Dah && s[2] == Morse::Dit {
        Some('r')
    } else if s.len() == 3 && s[0] == Morse::Dit && s[1] == Morse::Dit && s[2] == Morse::Dit {
        Some('s')
    } else if s.len() == 1 && s[0] == Morse::Dah {
        Some('t')
    } else if s.len() == 3 && s[0] == Morse::Dit && s[1] == Morse::Dit && s[2] == Morse::Dah {
        Some('u')
    } else if s.len() == 4 && s[0] == Morse::Dit && s[1] == Morse::Dit && s[2] == Morse::Dit && s[3] == Morse::Dah {
        Some('v')
    } else if s.len() == 3 && s[0] == Morse::Dit && s[1] == Morse::Dah && s[2] == Morse::Dah {
        Some('w')
    } else if s.len() == 4 && s[0] == Morse::Dah && s[1] == Morse::Dit && s[2] == Morse::Dit && s[3] == Morse::Dah {
        Some('x')
    } else if s.len() == 4 && s[0] == Morse::Dah && s[1] == Morse::Dit && s[2] == Morse::Dah && s[3] == Morse::Dah {
        Some('y')
    } else if s.len() == 4 && s[0] == Morse::Dah && s[1] == Morse::Dah && s[2] == Morse::Dit && s[3] == Morse::Dit {
        Some('z')
    } else if s.len() == 5 && s[0] == Morse::Dit && s[1] == Morse::Dah && s[2] == Morse::Dah && s[3] == Morse::Dah && s[4] == Morse::Dah {
        Some('1')
    } else if s.len() == 5 && s[0] == Morse::Dit && s[1] == Morse::Dit && s[2] == Morse::Dah && s[3] == Morse::Dah && s[4] == Morse::Dah {
        Some('2')
    } else if s.len() == 5 && s[0] == Morse::Dit && s[1] == Morse::Dit && s[2] == Morse::Dit && s[3] == Morse::Dah && s[4] == Morse::Dah {
        Some('3')
    } else if s.len() == 5 && s[0] == Morse::Dit && s[1] == Morse::Dit && s[2] == Morse::Dit && s[3] == Morse::Dit && s[4] == Morse::Dah {
        Some('4')
    } else if s.len() == 5 && s[0] == Morse::Dit && s[1] == Morse::Dit && s[2] == Morse::Dit && s[3] == Morse::Dit && s[4] == Morse::Dit {
        Some('5')
    } else if s.len() == 5 && s[0] == Morse::Dah && s[1] == Morse::Dit && s[2] == Morse::Dit && s[3] == Morse::Dit && s[4] == Morse::Dit {
        Some('6')
    } else if s.len() == 5 && s[0] == Morse::Dah && s[1] == Morse::Dah && s[2] == Morse::Dit && s[3] == Morse::Dit && s[4] == Morse::Dit {
        Some('7')
    } else if s.len() == 5 && s[0] == Morse::Dah && s[1] == Morse::Dah && s[2] == Morse::Dah && s[3] == Morse::Dit && s[4] == Morse::Dit {
        Some('8')
    } else if s.len() == 5 && s[0] == Morse::Dah && s[1] == Morse::Dah && s[2] == Morse::Dah && s[3] == Morse::Dah && s[4] == Morse::Dit {
        Some('9')
    } else if s.len() == 5 && s[0] == Morse::Dah && s[1] == Morse::Dah && s[2] == Morse::Dah && s[3] == Morse::Dah && s[4] == Morse::Dah {
        Some('0')
    } else {
        None
    }
}

/// The pulse sequence of a supported character.
pub open spec fn code_of(c: char) -> Seq<Morse> {
    code_spec(c)->Some_0
}

/// Whether a primitive is one of the two pulses.
pub open spec fn is_mark(m: Morse) -> bool {
    m == Morse::Dit || m == Morse::Dah
}

/// Looking a supported character up and looking the resulting sequence back
/// up returns the character: the two directions of the table agree.
#[verifier::rlimit(60)]
pub proof fn lemma_table_complete(c: char)
    requires
        is_supported(c),
    ensures
        char_of_code(code_of(c)) == Some(c),
{
    if c == ' ' {
        assert(char_of_code(seq![Morse::WordSpace]) == Some(' '));
    } else if c == 'a' {
        assert(char_of_code(seq![Morse::Dit, Morse::Dah]) == Some('a'));
    } else if c == 'b' {
        assert(char_of_code(seq![Morse::Dah, Morse::Dit, Morse::Dit, Morse::Dit]) == Some('b'));
    } else if c == 'c' {
        assert(char_of_code(seq![Morse::Dah, Morse::Dit, Morse::Dah, Morse::Dit]) == Some('c'));
    } else if c == 'd' {
        assert(char_of_code(seq![Morse::Dah, Morse::Dit, Morse::Dit]) == Some('d'));
    } else if c == 'e' {
        assert(char_of_code(seq![Morse::Dit]) == Some('e'));
    } else if c == 'f' {
        assert(char_of_code(seq![Morse::Dit, Morse::Dit, Morse::Dah, Morse::Dit]) == Some('f'));
    } else if c == 'g' {
        assert(char_of_code(seq![Morse::Dah, Morse::Dah, Morse::Dit]) == Some('g'));
    } else if c == 'h' {
        assert(char_of_code(seq![Morse::Dit, Morse::Dit, Morse::Dit, Morse::Dit]) == Some('h'));
    } else if c == 'i' {
        assert(char_of_code(seq![Morse::Dit, Morse::Dit]) == Some('i'));
    } else if c == 'j' {
        assert(char_of_code(seq![Morse::Dit, Morse::Dah, Morse::Dah, Morse::Dah]) == Some('j'));
    } else if c == 'k' {
        assert(char_of_code(seq![Morse::Dah, Morse::Dit, Morse::Dah]) == Some('k'));
    } else if c == 'l' {
        assert(char_of_code(seq![Morse::Dit, Morse::Dah, Morse::Dit, Morse::Dit]) == Some('l'));
    } else if c == 'm' {
        assert(char_of_code(seq![Morse::Dah, Morse::Dah]) == Some('m'));
    } else if c == 'n' {
        assert(char_of_code(seq![Morse::Dah, Morse::Dit]) == Some('n'));
    } else if c == 'o' {
        assert(char_of_code(seq![Morse::Dah, Morse::Dah, Morse::Dah]) == Some('o'));
    } else if c == 'p' {
        assert(char_of_code(seq![Morse::Dit, Morse::Dah, Morse::Dah, Morse::Dit]) == Some('p'));
    } else if c == 'q' {
        assert(char_of_code(seq![Morse::Dah, Morse::Dah, Morse::Dit, Morse::Dah]) == Some('q'));
    } else if c == 'r' {
        assert(char_of_code(seq![Morse::Dit, Morse::Dah, Morse::Dit]) == Some('r'));
    } else if c == 's' {
        assert(char_of_code(seq![Morse::Dit, Morse::Dit, Morse::Dit]) == Some('s'));
    } else if c == 't' {
        assert(char_of_code(seq![Morse::Dah]) == Some('t'));
    } else if c == 'u' {
        assert(char_of_code(seq![Morse::Dit, Morse::Dit, Morse::Dah]) == Some('u'));
    } else if c == 'v' {
        assert(char_of_code(seq![Morse::Dit, Morse::Dit, Morse::Dit, Morse::Dah]) == Some('v'));
    } else if c == 'w' {
        assert(char_of_code(seq![Morse::Dit, Morse::Dah, Morse::Dah]) == Some('w'));
    } else if c == 'x' {
        assert(char_of_code(seq![Morse::Dah, Morse::Dit, Morse::Dit, Morse::Dah]) == Some('x'));
    } else if c == 'y' {
        assert(char_of_code(seq![Morse::Dah, Morse::Dit, Morse::Dah, Morse::Dah]) == Some('y'));
    } else if c == 'z' {
        assert(char_of_code(seq![Morse::Dah, Morse::Dah, Morse::Dit, Morse::Dit]) == Some('z'));
    } else if c == '1' {
        assert(char_of_code(seq![Morse::Dit, Morse::Dah, Morse::Dah, Morse::Dah, Morse::Dah]) == Some('1'));
    } else if c == '2' {
        assert(char_of_code(seq![Morse::Dit, Morse::Dit, Morse::Dah, Morse::Dah, Morse::Dah]) == Some('2'));
    } else if c == '3' {
        assert(char_of_code(seq![Morse::Dit, Morse::Dit, Morse::Dit, Morse::Dah, Morse::Dah]) == Some('3'));
    } else if c == '4' {
        assert(char_of_code(seq![Morse::Dit, Morse::Dit, Morse::Dit, Morse::Dit, Morse::Dah]) == Some('4'));
    } else if c == '5' {
        assert(char_of_code(seq![Morse::Dit, Morse::Dit, Morse::Dit, Morse::Dit, Morse::Dit]) == Some('5'));
    } else if c == '6' {
        assert(char_of_code(seq![Morse::Dah, Morse::Dit, Morse::Dit, Morse::Dit, Morse::Dit]) == Some('6'));
    } else if c == '7' {
        assert(char_of_code(seq![Morse::Dah, Morse::Dah, Morse::Dit, Morse::Dit, Morse::Dit]) == Some('7'));
    } else if c == '8' {
        assert(char_of_code(seq![Morse::Dah, Morse::Dah, Morse::Dah, Morse::Dit, Morse::Dit]) == Some('8'));
    } else if c == '9' {
        assert(char_of_code(seq![Morse::Dah, Morse::Dah, Morse::Dah, Morse::Dah, Morse::Dit]) == Some('9'));
    } else if c == '0' {
        assert(char_of_code(seq![Morse::Dah, Morse::Dah, Morse::Dah, Morse::Dah, Morse::Dah]) == Some('0'));
    }
}

/// The code table is injective: no two distinct supported characters share a
/// pulse sequence.
pub proof fn lemma_table_injective(c1: char, c2: char)
    requires
        is_supported(c1),
        is_supported(c2),
        code_spec(c1) == code_spec(c2),
    ensures
        c1 == c2,
{
    lemma_table_complete(c1);
    lemma_table_complete(c2);
}

/// A sequence the inverse table knows is the code of a supported character.
pub proof fn lemma_char_of_code_sound(s: Seq<Morse>, c: char)
    requires
        char_of_code(s) == Some(c),
    ensures
        is_supported(c),
        code_spec(c) == Some(s),
{
}

/// The code of any supported character other than space is a non-empty
/// sequence of pulses.
pub proof fn lemma_code_all_marks(c: char)
    requires
        is_supported(c),
        c != ' ',
    ensures
        code_of(c).len() >= 1,
        forall|j: int| 0 <= j < code_of(c).len() ==> is_mark(#[trigger] code_of(c)[j]),
{
}

/// The pulse sequence of a character; `UnknownCharacter` outside the 37
/// supported ones.
pub fn lookup_by_char(c: char) -> (r: Result<Vec<Morse>, MorseError>)
    ensures
        (match code_spec(c) {
            Some(s) => r matches Ok(v) && v@ == s,
            None => r == Err::<Vec<Morse>, MorseError>(MorseError::UnknownCharacter),
        }),
{
    match c {
        ' ' => Ok(vec![Morse::WordSpace]),
        'a' => Ok(vec![Morse::Dit, Morse::Dah]),
        'b' => Ok(vec![Morse::Dah, Morse::Dit, Morse::Dit, Morse::Dit]),
        'c' => Ok(vec![Morse::Dah, Morse::Dit, Morse::Dah, Morse::Dit]),
        'd' => Ok(vec![Morse::Dah, Morse::Dit, Morse::Dit]),
        'e' => Ok(vec![Morse::Dit]),
        'f' => Ok(vec![Morse::Dit, Morse::Dit, Morse::Dah, Morse::Dit]),
        'g' => Ok(vec![Morse::Dah, Morse::Dah, Morse::Dit]),
        'h' => Ok(vec![Morse::Dit, Morse::Dit, Morse::Dit, Morse::Dit]),
        'i' => Ok(vec![Morse::Dit, Morse::Dit]),
        'j' => Ok(vec![Morse::Dit, Morse::Dah, Morse::Dah, Morse::Dah]),
        'k' => Ok(vec![Morse::Dah, Morse::Dit, Morse::Dah]),
        'l' => Ok(vec![Morse::Dit, Morse::Dah, Morse::Dit, Morse::Dit]),
        'm' => Ok(vec![Morse::Dah, Morse::Dah]),
        'n' => Ok(vec![Morse::Dah, Morse::Dit]),
        'o' => Ok(vec![Morse::Dah, Morse::Dah, Morse::Dah]),
        'p' => Ok(vec![Morse::Dit, Morse::Dah, Morse::Dah, Morse::Dit]),
        'q' => Ok(vec![Morse::Dah, Morse::Dah, Morse::Dit, Morse::Dah]),
        'r' => Ok(vec![Morse::Dit, Morse::Dah, Morse::Dit]),
        's' => Ok(vec![Morse::Dit, Morse::Dit, Morse::Dit]),
        't' => Ok(vec![Morse::Dah]),
        'u' => Ok(vec![Morse::Dit, Morse::Dit, Morse::Dah]),
        'v' => Ok(vec![Morse::Dit, Morse::Dit, Morse::Dit, Morse::Dah]),
        'w' => Ok(vec![Morse::Dit, Morse::Dah, Morse::Dah]),
        'x' => Ok(vec![Morse::Dah, Morse::Dit, Morse::Dit, Morse::Dah]),
        'y' => Ok(vec![Morse::Dah, Morse::Dit, Morse::Dah, Morse::Dah]),
        'z' => Ok(vec![Morse::Dah, Morse::Dah, Morse::Dit, Morse::Dit]),
        '1' => Ok(vec![Morse::Dit, Morse::Dah, Morse::Dah, Morse::Dah, Morse::Dah]),
        '2' => Ok(vec![Morse::Dit, Morse::Dit, Morse::Dah, Morse::Dah, Morse::Dah]),
        '3' => Ok(vec![Morse::Dit, Morse::Dit, Morse::Dit, Morse::Dah, Morse::Dah]),
        '4' => Ok(vec![Morse::Dit, Morse::Dit, Morse::Dit, Morse::Dit, Morse::Dah]),
        '5' => Ok(vec![Morse::Dit, Morse::Dit, Morse::Dit, Morse::Dit, Morse::Dit]),
        '6' => Ok(vec![Morse::Dah, Morse::Dit, Morse::Dit, Morse::Dit, Morse::Dit]),
        '7' => Ok(vec![Morse::Dah, Morse::Dah, Morse::Dit, Morse::Dit, Morse::Dit]),
        '8' => Ok(vec![Morse::Dah, Morse::Dah, Morse::Dah, Morse::Dit, Morse::Dit]),
        '9' => Ok(vec![Morse::Dah, Morse::Dah, Morse::Dah, Morse::Dah, Morse::Dit]),
        '0' => Ok(vec![Morse::Dah, Morse::Dah, Morse::Dah, Morse::Dah, Morse::Dah]),
        _ => Err(MorseError::UnknownCharacter),
    }
}

/// The character a pulse sequence stands for; `UnknownSequence` when no
/// table entry matches.
#[verifier::rlimit(100)]
pub fn from_morse_array_to_char(morse: &[Morse]) -> (r: Result<char, MorseError>)
    ensures
        (match char_of_code(morse@) {
            Some(c) => r == Ok::<char, MorseError>(c),
            None => r == Err::<char, MorseError>(MorseError::UnknownSequence),
        }),
{
    if morse.len() == 1 && morse[0] == Morse::WordSpace {
        Ok(' ')
    } else if morse.len() == 2 && morse[0] == Morse::Dit && morse[1] == Morse::Dah {
        Ok('a')
    } else if morse.len() == 4 && morse[0] == Morse::Dah && morse[1] == Morse::Dit && morse[2] == Morse::Dit && morse[3] == Morse::Dit {
        Ok('b')
    } else if morse.len() == 4 && morse[0] == Morse::Dah && morse[1] == Morse::Dit && morse[2] == Morse::Dah && morse[3] == Morse::Dit {
        Ok('c')
    } else if morse.len() == 3 && morse[0] == Morse::Dah && morse[1] == Morse::Dit && morse[2] == Morse::Dit {
        Ok('d')
    } else if morse.len() == 1 && morse[0] == Morse::Dit {
        Ok('e')
    } else if morse.len() == 4 && morse[0] == Morse::Dit && morse[1] == Morse::Dit && morse[2] == Morse::Dah && morse[3] == Morse::Dit {
        Ok('f')
    } else if morse.len() == 3 && morse[0] == Morse::Dah && morse[1] == Morse::Dah && morse[2] == Morse::Dit {
        Ok('g')
    } else if morse.len() == 4 && morse[0] == Morse::Dit && morse[1] == Morse::Dit && morse[2] == Morse::Dit && morse[3] == Morse::Dit {
        Ok('h')
    } else if morse.len() == 2 && morse[0] == Morse::Dit && morse[1] == Morse::Dit {
        Ok('i')
    } else if morse.len() == 4 && morse[0] == Morse::Dit && morse[1] == Morse::Dah && morse[2] == Morse::Dah && morse[3] == Morse::Dah {
        Ok('j')
    } else if morse.len() == 3 && morse[0] == Morse::Dah && morse[1] == Morse::Dit && morse[2] == Morse::Dah {
        Ok('k')
    } else if morse.len() == 4 && morse[0] == Morse::Dit && morse[1] == Morse::Dah && morse[2] == Morse::Dit && morse[3] == Morse::Dit {
        Ok('l')
    } else if morse.len() == 2 && morse[0] == Morse::Dah && morse[1] == Morse::Dah {
        Ok('m')
    } else if morse.len() == 2 && morse[0] == Morse::Dah && morse[1] == Morse::Dit {
        Ok('n')
    } else if morse.len() == 3 && morse[0] == Morse::Dah && morse[1] == Morse::Dah && morse[2] == Morse::Dah {
        Ok('o')
    } else if morse.len() == 4 && morse[0] == Morse::Dit && morse[1] == Morse::Dah && morse[2] == Morse::Dah && morse[3] == Morse::Dit {
        Ok('p')
    } else if morse.len() == 4 && morse[0] == Morse::Dah && morse[1] == Morse::Dah && morse[2] == Morse::Dit && morse[3] == Morse::Dah {
        Ok('q')
    } else if morse.len() == 3 && morse[0] == Morse::Dit && morse[1] == Morse::Dah && morse[2] == Morse::Dit {
        Ok('r')
    } else if morse.len() == 3 && morse[0] == Morse::Dit && morse[1] == Morse::Dit && morse[2] == Morse::Dit {
        Ok('s')
    } else if morse.len() == 1 && morse[0] == Morse::Dah {
        Ok('t')
    } else if morse.len() == 3 && morse[0] == Morse::Dit && morse[1] == Morse::Dit && morse[2] == Morse::Dah {
        Ok('u')
    } else if morse.len() == 4 && morse[0] == Morse::Dit && morse[1] == Morse::Dit && morse[2] == Morse::Dit && morse[3] == Morse::Dah {
        Ok('v')
    } else if morse.len() == 3 && morse[0] == Morse::Dit && morse[1] == Morse::Dah && morse[2] == Morse::Dah {
        Ok('w')
    } else if morse.len() == 4 && morse[0] == Morse::Dah && morse[1] == Morse::Dit && morse[2] == Morse::Dit && morse[3] == Morse::Dah {
        Ok('x')
    } else if morse.len() == 4 && morse[0] == Morse::Dah && morse[1] == Morse::Dit && morse[2] == Morse::Dah && morse[3] == Morse::Dah {
        Ok('y')
    } else if morse.len() == 4 && morse[0] == Morse::Dah && morse[1] == Morse::Dah && morse[2] == Morse::Dit && morse[3] == Morse::Dit {
        Ok('z')
    } else if morse.len() == 5 && morse[0] == Morse::Dit && morse[1] == Morse::Dah && morse[2] == Morse::Dah && morse[3] == Morse::Dah && morse[4] == Morse::Dah {
        Ok('1')
    } else if morse.len() == 5 && morse[0] == Morse::Dit && morse[1] == Morse::Dit && morse[2] == Morse::Dah && morse[3] == Morse::Dah && morse[4] == Morse::Dah {
        Ok('2')
    } else if morse.len() == 5 && morse[0] == Morse::Dit && morse[1] == Morse::Dit && morse[2] == Morse::Dit && morse[3] == Morse::Dah && morse[4] == Morse::Dah {
        Ok('3')
    } else if morse.len() == 5 && morse[0] == Morse::Dit && morse[1] == Morse::Dit && morse[2] == Morse::Dit && morse[3] == Morse::Dit && morse[4] == Morse::Dah {
        Ok('4')
    } else if morse.len() == 5 && morse[0] == Morse::Dit && morse[1] == Morse::Dit && morse[2] == Morse::Dit && morse[3] == Morse::Dit && morse[4] == Morse::Dit {
        Ok('5')
    } else if morse.len() == 5 && morse[0] == Morse::Dah && morse[1] == Morse::Dit && morse[2] == Morse::Dit && morse[3] == Morse::Dit && morse[4] == Morse::Dit {
        Ok('6')
    } else if morse.len() == 5 && morse[0] == Morse::Dah && morse[1] == Morse::Dah && morse[2] == Morse::Dit && morse[3] == Morse::Dit && morse[4] == Morse::Dit {
        Ok('7')
    } else if morse.len() == 5 && morse[0] == Morse::Dah && morse[1] == Morse::Dah && morse[2] == Morse::Dah && morse[3] == Morse::Dit && morse[4] == Morse::Dit {
        Ok('8')
    } else if morse.len() == 5 && morse[0] == Morse::Dah && morse[1] == Morse::Dah && morse[2] == Morse::Dah && morse[3] == Morse::Dah && morse[4] == Morse::Dit {
        Ok('9')
    } else if morse.len() == 5 && morse[0] == Morse::Dah && morse[1] == Morse::Dah && morse[2] == Morse::Dah && morse[3] == Morse::Dah && morse[4] == Morse::Dah {
        Ok('0')
    } else {
        Err(MorseError::UnknownSequence)
    }
}


// --- translation engine: specification ---

/// The renderings of a pulse sequence, one piece per pulse.
pub open spec fn renderings_of(ms: Seq<Morse>) -> Seq<Seq<char>> {
    ms.map_values(|m: Morse| render_spec(m))
}

/// The string form of a pulse sequence: each pulse rendered, joined with the
/// in-letter gap.
pub open spec fn marks_str_spec(ms: Seq<Morse>) -> Seq<char> {
    join_with(renderings_of(ms), render_spec(Morse::BaseSpace))
}

/// The Morse string of one supported character.
pub open spec fn letter_str_spec(c: char) -> Seq<char> {
    marks_str_spec(code_of(c))
}

/// Every character of the word is supported.
pub open spec fn word_supported(w: Seq<char>) -> bool {
    forall|i: int| 0 <= i < w.len() ==> is_supported(#[trigger] w[i])
}

/// The Morse letters of a word, one piece per character.
pub open spec fn letters_of(w: Seq<char>) -> Seq<Seq<char>> {
    w.map_values(|c: char| letter_str_spec(c))
}

/// The Morse string of one word: the Morse letters of its characters joined
/// with the letter gap.
pub open spec fn word_str_spec(w: Seq<char>) -> Seq<char> {
    join_with(letters_of(w), render_spec(Morse::LetterSpace))
}

/// The Morse strings of a sequence of words, one piece per word.
pub open spec fn word_strs_of(ws: Seq<Seq<char>>) -> Seq<Seq<char>> {
    ws.map_values(|w: Seq<char>| word_str_spec(w))
}

/// What encoding returns: the words of the text, each encoded, joined with
/// the word gap; `UnknownCharacter` when any character is unsupported.
pub open spec fn encode_text_spec(t: Seq<char>) -> Result<Seq<char>, MorseError> {
    let ws = split_on(t, render_spec(Morse::BaseSpace));
    if forall|k: int| 0 <= k < ws.len() ==> word_supported(#[trigger] ws[k]) {
        Ok(join_with(word_strs_of(ws), render_spec(Morse::WordSpace)))
    } else {
        Err(MorseError::UnknownCharacter)
    }
}

/// The primitives a sequence of tokens parses to, where every token parses.
pub open spec fn parses_of(toks: Seq<Seq<char>>) -> Seq<Morse> {
    toks.map_values(|t: Seq<char>| parse_spec(t)->Some_0)
}

/// What parsing one Morse letter returns: its tokens, split on the in-letter
/// gap, each parsed; `InvalidSymbol` when any token is not a rendering.
pub open spec fn parse_letter_spec(s: Seq<char>) -> Result<Seq<Morse>, MorseError> {
    let toks = split_on(s, render_spec(Morse::BaseSpace));
    if forall|k: int| 0 <= k < toks.len() ==> parse_spec(#[trigger] toks[k]) is Some {
        Ok(parses_of(toks))
    } else {
        Err(MorseError::InvalidSymbol)
    }
}

/// What decoding one Morse letter returns: its pulse sequence, looked up in
/// the table; `UnknownSequence` when no entry matches.
pub open spec fn decode_letter_spec(s: Seq<char>) -> Result<char, MorseError> {
    match parse_letter_spec(s) {
        Err(e) => Err(e),
        Ok(ms) => match char_of_code(ms) {
            Some(c) => Ok(c),
            None => Err(MorseError::UnknownSequence),
        },
    }
}

/// Decode Morse letters left to right; the first failure wins.
pub open spec fn decode_letters_spec(ls: Seq<Seq<char>>) -> Result<Seq<char>, MorseError>
    decreases ls.len(),
{
    if ls.len() == 0 {
        Ok(Seq::empty())
    } else {
        match decode_letter_spec(ls[0]) {
            Err(e) => Err(e),
            Ok(c) => match decode_letters_spec(ls.skip(1)) {
                Err(e) => Err(e),
                Ok(rest) => Ok(seq![c] + rest),
            },
        }
    }
}

/// What decoding one Morse word returns; the empty Morse word is the empty
/// word.
pub open spec fn decode_word_spec(w: Seq<char>) -> Result<Seq<char>, MorseError> {
    if w.len() == 0 {
        Ok(Seq::empty())
    } else {
        decode_letters_spec(split_on(w, render_spec(Morse::LetterSpace)))
    }
}

/// Decode Morse words left to right; the first failure wins.
pub open spec fn decode_words_spec(ws: Seq<Seq<char>>) -> Result<Seq<Seq<char>>, MorseError>
    decreases ws.len(),
{
    if ws.len() == 0 {
        Ok(Seq::empty())
    } else {
        match decode_word_spec(ws[0]) {
            Err(e) => Err(e),
            Ok(w) => match decode_words_spec(ws.skip(1)) {
                Err(e) => Err(e),
                Ok(rest) => Ok(seq![w] + rest),
            },
        }
    }
}

/// What decoding returns: the Morse words of the input, each decoded, joined
/// with a single space.
pub open spec fn decode_text_spec(t: Seq<char>) -> Result<Seq<char>, MorseError> {
    match decode_words_spec(split_on(t, render_spec(Morse::WordSpace))) {
        Err(e) => Err(e),
        Ok(ws) => Ok(join_with(ws, render_spec(Morse::BaseSpace))),
    }
}

/// Unfolding `decode_letters_spec` one letter at a time.
proof fn lemma_decode_letters_step(ls: Seq<Seq<char>>, i: int)
    requires
        0 <= i < ls.len(),
    ensures
        decode_letters_spec(ls.skip(i)) == (match decode_letter_spec(ls[i]) {
            Err(e) => Err::<Seq<char>, MorseError>(e),
            Ok(c) => match decode_letters_spec(ls.skip(i + 1)) {
                Err(e) => Err::<Seq<char>, MorseError>(e),
                Ok(rest) => Ok::<Seq<char>, MorseError>(seq![c] + rest),
            },
        }),
{
    assert(ls.skip(i)[0] == ls[i]);
    assert(ls.skip(i).skip(1) =~~= ls.skip(i + 1));
}

/// Unfolding `decode_words_spec` one word at a time.
proof fn lemma_decode_words_step(ws: Seq<Seq<char>>, i: int)
    requires
        0 <= i < ws.len(),
    ensures
        decode_words_spec(ws.skip(i)) == (match decode_word_spec(ws[i]) {
            Err(e) => Err::<Seq<Seq<char>>, MorseError>(e),
            Ok(w) => match decode_words_spec(ws.skip(i + 1)) {
                Err(e) => Err::<Seq<Seq<char>>, MorseError>(e),
                Ok(rest) => Ok::<Seq<Seq<char>>, MorseError>(seq![w] + rest),
            },
        }),
{
    assert(ws.skip(i)[0] == ws[i]);
    assert(ws.skip(i).skip(1) =~~= ws.skip(i + 1));
}

// --- translation engine: executable functions ---

/// The string form of one pulse sequence: each pulse rendered, joined with
/// the in-letter gap.
pub fn morse_char_to_str(c: &[Morse]) -> (r: String)
    ensures
        r@ == marks_str_spec(c@),
{
    let mut pieces: Vec<String> = Vec::new();
    let mut i: usize = 0;
    while i < c.len()
        invariant
            0 <= i <= c@.len(),
            views_of(pieces@) == renderings_of(c@.take(i as int)),
        decreases c@.len() - i,
    {
        let ghost prev = views_of(pieces@);
        pieces.push(String::from_str(c[i].to_str()));
        proof {
            assert(views_of(pieces@) =~~= prev.push(render_spec(c@[i as int])));
            assert(renderings_of(c@.take(i + 1)) =~~= renderings_of(c@.take(i as int)).push(
                render_spec(c@[i as int]),
            ));
        }
        i += 1;
    }
    proof {
        assert(renderings_of(c@.take(c@.len() as int)) =~~= renderings_of(c@));
    }
    join_strs(&pieces, Morse::BaseSpace.to_str())
}

/// The pulse sequence a Morse-letter string denotes; `InvalidSymbol` when a
/// token is not one of the canonical renderings.
pub fn from_morse_str_to_morse_array(msg: &str) -> (r: Result<Vec<Morse>, MorseError>)
    ensures
        (match parse_letter_spec(msg@) {
            Ok(ms) => r matches Ok(v) && v@ == ms,
            Err(e) => r == Err::<Vec<Morse>, MorseError>(e),
        }),
{
    let toks = split_str(msg, Morse::BaseSpace.to_str());
    let ghost tv = split_on(msg@, render_spec(Morse::BaseSpace));
    let mut out: Vec<Morse> = Vec::new();
    let mut i: usize = 0;
    while i < toks.len()
        invariant
            views_of(toks@) == tv,
            toks@.len() == tv.len(),
            tv == split_on(msg@, render_spec(Morse::BaseSpace)),
            0 <= i <= tv.len(),
            forall|k: int| 0 <= k < i ==> parse_spec(#[trigger] tv[k]) is Some,
            out@.len() == i,
            forall|k: int| 0 <= k < i ==> out@[k] == parse_spec(#[trigger] tv[k])->Some_0,
        decreases tv.len() - i,
    {
        proof {
            assert(views_of(toks@)[i as int] == toks@[i as int]@);
        }
        match Morse::from_str(toks[i].as_str()) {
            Ok(m) => {
                out.push(m);
            },
            Err(e) => {
                proof {
                    assert(parse_spec(tv[i as int]) is None);
                }
                return Err(e);
            },
        }
        i += 1;
    }
    proof {
        assert(out@ =~= parses_of(tv));
    }
    Ok(out)
}

/// The character one Morse-letter string decodes to.
fn decode_letter(letter: &str) -> (r: Result<char, MorseError>)
    ensures
        r == decode_letter_spec(letter@),
{
    let marks = match from_morse_str_to_morse_array(letter) {
        Ok(v) => v,
        Err(e) => {
            return Err(e);
        },
    };
    match from_morse_array_to_char(marks.as_slice()) {
        Ok(c) => Ok(c),
        Err(e) => Err(e),
    }
}

/// The one-character string of a supported character.
fn char_to_str(c: char) -> (r: &'static str)
    requires
        is_supported(c),
    ensures
        r@ == seq![c],
{
    proof {
        reveal_strlit(" ");
        reveal_strlit("a");
        reveal_strlit("b");
        reveal_strlit("c");
        reveal_strlit("d");
        reveal_strlit("e");
        reveal_strlit("f");
        reveal_strlit("g");
        reveal_strlit("h");
        reveal_strlit("i");
        reveal_strlit("j");
        reveal_strlit("k");
        reveal_strlit("l");
        reveal_strlit("m");
        reveal_strlit("n");
        reveal_strlit("o");
        reveal_strlit("p");
        reveal_strlit("q");
        reveal_strlit("r");
        reveal_strlit("s");
        reveal_strlit("t");
        reveal_strlit("u");
        reveal_strlit("v");
        reveal_strlit("w");
        reveal_strlit("x");
        reveal_strlit("y");
        reveal_strlit("z");
        reveal_strlit("1");
        reveal_strlit("2");
        reveal_strlit("3");
        reveal_strlit("4");
        reveal_strlit("5");
        reveal_strlit("6");
        reveal_strlit("7");
        reveal_strlit("8");
        reveal_strlit("9");
        reveal_strlit("0");
    }
    match c {
        ' ' => " ",
        'a' => "a",
        'b' => "b",
        'c' => "c",
        'd' => "d",
        'e' => "e",
        'f' => "f",
        'g' => "g",
        'h' => "h",
        'i' => "i",
        'j' => "j",
        'k' => "k",
        'l' => "l",
        'm' => "m",
        'n' => "n",
        'o' => "o",
        'p' => "p",
        'q' => "q",
        'r' => "r",
        's' => "s",
        't' => "t",
        'u' => "u",
        'v' => "v",
        'w' => "w",
        'x' => "x",
        'y' => "y",
        'z' => "z",
        '1' => "1",
        '2' => "2",
        '3' => "3",
        '4' => "4",
        '5' => "5",
        '6' => "6",
        '7' => "7",
        '8' => "8",
        '9' => "9",
        '0' => "0",
        _ => " ",
    }
}

/// The word one Morse word decodes to; the empty Morse word gives the empty
/// word.
pub fn morseword_to_alphabet(morseword: &str) -> (r: Result<String, MorseError>)
    ensures
        (match decode_word_spec(morseword@) {
            Ok(w) => r matches Ok(s) && s@ == w,
            Err(e) => r == Err::<String, MorseError>(e),
        }),
{
    if morseword.unicode_len() == 0 {
        return Ok(String::new());
    }
    let letters = split_str(morseword, Morse::LetterSpace.to_str());
    let ghost ls = split_on(morseword@, render_spec(Morse::LetterSpace));
    let mut out = String::new();
    let mut i: usize = 0;
    proof {
        assert(ls.skip(0) =~~= ls);
        match decode_letters_spec(ls) {
            Ok(rest) => {
                assert(out@ + rest =~= rest);
            },
            Err(e) => {},
        }
    }
    while i < letters.len()
        invariant
            views_of(letters@) == ls,
            letters@.len() == ls.len(),
            0 <= i <= ls.len(),
            decode_word_spec(morseword@) == decode_letters_spec(ls),
            decode_letters_spec(ls) == (match decode_letters_spec(ls.skip(i as int)) {
                Ok(rest) => Ok::<Seq<char>, MorseError>(out@ + rest),
                Err(e) => Err::<Seq<char>, MorseError>(e),
            }),
        decreases ls.len() - i,
    {
        proof {
            assert(views_of(letters@)[i as int] == letters@[i as int]@);
            lemma_decode_letters_step(ls, i as int);
        }
        match decode_letter(letters[i].as_str()) {
            Ok(c) => {
                proof {
                    lemma_char_of_code_sound(
                        parse_letter_spec(ls[i as int])->Ok_0,
                        c,
                    );
                }
                let ghost old_out = out@;
                out.append(char_to_str(c));
                proof {
                    assert(out@ =~= old_out + seq![c]);
                    assert forall|rest: Seq<char>| old_out + (seq![c] + rest) =~= (old_out
                        + seq![c]) + rest by {}
                }
            },
            Err(e) => {
                return Err(e);
            },
        }
        i += 1;
    }
    proof {
        assert(ls.skip(ls.len() as int) =~~= Seq::<Seq<char>>::empty());
        assert(decode_letters_spec(Seq::<Seq<char>>::empty()) == Ok::<Seq<char>, MorseError>(
            Seq::empty(),
        ));
        assert(out@ + Seq::<char>::empty() =~= out@);
    }
    Ok(out)
}

/// The Morse string of one word: each character's pulse sequence rendered
/// and joined with the letter gap; `UnknownCharacter` when the word holds an
/// unsupported character.
pub fn word_to_morse(word: &str) -> (r: Result<String, MorseError>)
    ensures
        word_supported(word@) ==> (r matches Ok(s) && s@ == word_str_spec(word@)),
        !word_supported(word@) ==> r == Err::<String, MorseError>(MorseError::UnknownCharacter),
{
    let n = word.unicode_len();
    let mut pieces: Vec<String> = Vec::new();
    let mut i: usize = 0;
    while i < n
        invariant
            n == word@.len(),
            0 <= i <= n,
            forall|k: int| 0 <= k < i ==> is_supported(#[trigger] word@[k]),
            views_of(pieces@) == letters_of(word@.take(i as int)),
        decreases n - i,
    {
        let c = word.get_char(i);
        match lookup_by_char(c) {
            Ok(v) => {
                let ghost prev = views_of(pieces@);
                pieces.push(morse_char_to_str(v.as_slice()));
                proof {
                    assert(views_of(pieces@) =~~= prev.push(letter_str_spec(word@[i as int])));
                    assert(letters_of(word@.take(i + 1)) =~~= letters_of(word@.take(i as int)).push(
                        letter_str_spec(word@[i as int]),
                    ));
                }
            },
            Err(e) => {
                return Err(e);
            },
        }
        i += 1;
    }
    proof {
        assert(letters_of(word@.take(n as int)) =~~= letters_of(word@));
    }
    Ok(join_strs(&pieces, Morse::LetterSpace.to_str()))
}

/// Encode: the words of the text, each translated, joined with the word gap;
/// `UnknownCharacter` when the text holds an unsupported character.
pub fn translate_to_morse(msg: &str) -> (r: Result<String, MorseError>)
    ensures
        (match encode_text_spec(msg@) {
            Ok(t) => r matches Ok(s) && s@ == t,
            Err(e) => r == Err::<String, MorseError>(e),
        }),
{
    let words = split_str(msg, Morse::BaseSpace.to_str());
    let ghost ws = split_on(msg@, render_spec(Morse::BaseSpace));
    let mut pieces: Vec<String> = Vec::new();
    let mut i: usize = 0;
    while i < words.len()
        invariant
            views_of(words@) == ws,
            words@.len() == ws.len(),
            ws == split_on(msg@, render_spec(Morse::BaseSpace)),
            0 <= i <= ws.len(),
            forall|k: int| 0 <= k < i ==> word_supported(#[trigger] ws[k]),
            views_of(pieces@) == word_strs_of(ws.take(i as int)),
        decreases ws.len() - i,
    {
        proof {
            assert(views_of(words@)[i as int] == words@[i as int]@);
        }
        match word_to_morse(words[i].as_str()) {
            Ok(s) => {
                let ghost prev = views_of(pieces@);
                pieces.push(s);
                proof {
                    assert(views_of(pieces@) =~~= prev.push(word_str_spec(ws[i as int])));
                    assert(word_strs_of(ws.take(i + 1)) =~~= word_strs_of(ws.take(i as int)).push(
                        word_str_spec(ws[i as int]),
                    ));
                }
            },
            Err(e) => {
                return Err(e);
            },
        }
        i += 1;
    }
    proof {
        assert(word_strs_of(ws.take(ws.len() as int)) =~~= word_strs_of(ws));
    }
    Ok(join_strs(&pieces, Morse::WordSpace.to_str()))
}

/// Decode: the Morse words of the input, each translated, joined with a
/// single space; the first failure of a word wins.
pub fn translate_from_morse(msg: &str) -> (r: Result<String, MorseError>)
    ensures
        (match decode_text_spec(msg@) {
            Ok(t) => r matches Ok(s) && s@ == t,
            Err(e) => r == Err::<String, MorseError>(e),
        }),
{
    let words = split_str(msg, Morse::WordSpace.to_str());
    let ghost ws = split_on(msg@, render_spec(Morse::WordSpace));
    let mut pieces: Vec<String> = Vec::new();
    let mut i: usize = 0;
    proof {
        assert(ws.skip(0) =~~= ws);
        match decode_words_spec(ws) {
            Ok(rest) => {
                assert(views_of(pieces@) + rest =~~= rest);
            },
            Err(e) => {},
        }
    }
    while i < words.len()
        invariant
            views_of(words@) == ws,
            words@.len() == ws.len(),
            ws == split_on(msg@, render_spec(Morse::WordSpace)),
            0 <= i <= ws.len(),
            decode_words_spec(ws) == (match decode_words_spec(ws.skip(i as int)) {
                Ok(rest) => Ok::<Seq<Seq<char>>, MorseError>(views_of(pieces@) + rest),
                Err(e) => Err::<Seq<Seq<char>>, MorseError>(e),
            }),
        decreases ws.len() - i,
    {
        proof {
            assert(views_of(words@)[i as int] == words@[i as int]@);
            lemma_decode_words_step(ws, i as int);
        }
        match morseword_to_alphabet(words[i].as_str()) {
            Ok(s) => {
                let ghost prev = views_of(pieces@);
                let ghost w = decode_word_spec(ws[i as int])->Ok_0;
                pieces.push(s);
                proof {
                    assert(views_of(pieces@) =~~= prev.push(w));
                    assert forall|rest: Seq<Seq<char>>| prev + (seq![w] + rest) =~~= (prev.push(w))
                        + rest by {}
                }
            },
            Err(e) => {
                return Err(e);
            },
        }
        i += 1;
    }
    proof {
        assert(ws.skip(ws.len() as int) =~~= Seq::<Seq<char>>::empty());
        assert(decode_words_spec(Seq::<Seq<char>>::empty()) == Ok::<Seq<Seq<char>>, MorseError>(
            Seq::empty(),
        ));
        assert(views_of(pieces@) + Seq::<Seq<char>>::empty() =~~= views_of(pieces@));
    }
    Ok(join_strs(&pieces, Morse::BaseSpace.to_str()))
}

// --- the round-trip law ---

/// The Morse letter of a supported non-space character: non-empty, free of
/// double spaces, non-space at both ends, and decoding it gives the
/// character back.
proof fn lemma_letter_wellformed(c: char)
    requires
        is_supported(c),
        c != ' ',
    ensures
        letter_str_spec(c).len() >= 1,
        letter_str_spec(c)[0] != ' ',
        letter_str_spec(c)[letter_str_spec(c).len() - 1] != ' ',
        space_runs_below(letter_str_spec(c), 2),
        decode_letter_spec(letter_str_spec(c)) == Ok::<char, MorseError>(c),
{
    let sp1 = render_spec(Morse::BaseSpace);
    let ms = code_of(c);
    let pieces = renderings_of(ms);
    lemma_code_all_marks(c);
    assert(all_space_sep(sp1));
    assert forall|k: int| 0 <= k < pieces.len() implies (#[trigger] pieces[k]).len() == 1
        && pieces[k][0] != ' ' by {
        assert(is_mark(ms[k]));
        assert(pieces[k] == render_spec(ms[k]));
    }
    assert forall|k: int| 0 <= k < pieces.len() implies space_runs_below(#[trigger] pieces[k], 1) by {
        assert forall|i: int| 0 <= i && i + 1 <= pieces[k].len() implies !(#[trigger] window_all_spaces(
            pieces[k],
            i,
            1,
        )) by {
            assert(pieces[k][0] != ' ');
        }
    }
    lemma_join_keeps_runs_narrow(pieces, sp1, 1);
    assert forall|k: int| 0 <= k < pieces.len() implies piece_ok(#[trigger] pieces[k], sp1) by {
        assert forall|i: int| !occurs_at(pieces[k], sp1, i) by {
            if occurs_at(pieces[k], sp1, i) {
                assert(pieces[k].subrange(i, i + 1)[0] == pieces[k][i]);
            }
        }
    }
    lemma_split_of_join(pieces, sp1);
    let letter = letter_str_spec(c);
    let toks = split_on(letter, sp1);
    assert(toks == pieces);
    assert forall|k: int| 0 <= k < toks.len() implies parse_spec(#[trigger] toks[k]) is Some by {
        lemma_parse_of_render(ms[k]);
    }
    assert(parses_of(toks) =~= ms) by {
        assert forall|k: int| 0 <= k < toks.len() implies parses_of(toks)[k] == ms[k] by {
            lemma_parse_of_render(ms[k]);
        }
    }
    assert(parse_letter_spec(letter) == Ok::<Seq<Morse>, MorseError>(ms));
    lemma_table_complete(c);
}

/// Decoding letters that each decode is the concatenation of their results.
proof fn lemma_decode_letters_all(ls: Seq<Seq<char>>, w: Seq<char>)
    requires
        ls.len() == w.len(),
        forall|k: int|
            0 <= k < ls.len() ==> decode_letter_spec(#[trigger] ls[k]) == Ok::<char, MorseError>(
                w[k],
            ),
    ensures
        decode_letters_spec(ls) == Ok::<Seq<char>, MorseError>(w),
    decreases ls.len(),
{
    if ls.len() == 0 {
        assert(w =~= Seq::<char>::empty());
    } else {
        assert forall|k: int| 0 <= k < ls.skip(1).len() implies decode_letter_spec(
            #[trigger] ls.skip(1)[k],
        ) == Ok::<char, MorseError>(w.skip(1)[k]) by {
            assert(ls.skip(1)[k] == ls[k + 1]);
            assert(w.skip(1)[k] == w[k + 1]);
        }
        lemma_decode_letters_all(ls.skip(1), w.skip(1));
        assert(seq![w[0]] + w.skip(1) =~= w);
    }
}

/// Decoding words that each decode is the sequence of their results.
proof fn lemma_decode_words_all(ps: Seq<Seq<char>>, ws: Seq<Seq<char>>)
    requires
        ps.len() == ws.len(),
        forall|k: int|
            0 <= k < ps.len() ==> decode_word_spec(#[trigger] ps[k]) == Ok::<Seq<char>, MorseError>(
                ws[k],
            ),
    ensures
        decode_words_spec(ps) == Ok::<Seq<Seq<char>>, MorseError>(ws),
    decreases ps.len(),
{
    if ps.len() == 0 {
        assert(ws =~~= Seq::<Seq<char>>::empty());
    } else {
        assert forall|k: int| 0 <= k < ps.skip(1).len() implies decode_word_spec(
            #[trigger] ps.skip(1)[k],
        ) == Ok::<Seq<char>, MorseError>(ws.skip(1)[k]) by {
            assert(ps.skip(1)[k] == ps[k + 1]);
            assert(ws.skip(1)[k] == ws[k + 1]);
        }
        lemma_decode_words_all(ps.skip(1), ws.skip(1));
        assert(seq![ws[0]] + ws.skip(1) =~~= ws);
    }
}

/// The Morse string of a non-empty word of supported non-space characters:
/// non-empty, with space runs of at most three, non-space at both ends, and
/// decoding it gives the word back.
proof fn lemma_word_decodes(w: Seq<char>)
    requires
        w.len() >= 1,
        word_supported(w),
        forall|j: int| 0 <= j < w.len() ==> (#[trigger] w[j]) != ' ',
    ensures
        word_str_spec(w).len() >= 1,
        word_str_spec(w)[0] != ' ',
        word_str_spec(w)[word_str_spec(w).len() - 1] != ' ',
        space_runs_below(word_str_spec(w), 4),
        decode_word_spec(word_str_spec(w)) == Ok::<Seq<char>, MorseError>(w),
{
    let sp3 = render_spec(Morse::LetterSpace);
    let ls = letters_of(w);
    assert(all_space_sep(sp3));
    assert forall|k: int| 0 <= k < ls.len() implies (#[trigger] ls[k]).len() >= 1 && ls[k][0] != ' '
        && ls[k][ls[k].len() - 1] != ' ' && space_runs_below(ls[k], 2) && decode_letter_spec(ls[k])
        == Ok::<char, MorseError>(w[k]) by {
        lemma_letter_wellformed(w[k]);
        assert(ls[k] == letter_str_spec(w[k]));
    }
    lemma_join_keeps_runs_narrow(ls, sp3, 2);
    assert forall|k: int| 0 <= k < ls.len() implies piece_ok(#[trigger] ls[k], sp3) by {
        lemma_no_run_no_occurrence(ls[k], sp3, 2);
    }
    lemma_split_of_join(ls, sp3);
    let wstr = word_str_spec(w);
    assert(split_on(wstr, sp3) == ls);
    lemma_decode_letters_all(ls, w);
}

/// A canonical text: supported characters only, single spaces, and no space
/// at either end.
pub open spec fn canonical_text(s: Seq<char>) -> bool {
    &&& forall|i: int| 0 <= i < s.len() ==> is_supported(#[trigger] s[i])
    &&& forall|i: int| 0 <= i && i + 1 < s.len() ==> !((#[trigger] s[i]) == ' ' && s[i + 1] == ' ')
    &&& s.len() >= 1 ==> s[0] != ' ' && s[s.len() - 1] != ' '
}

/// Round trip: encoding a canonical text succeeds, and decoding the encoded
/// form gives exactly the text back.
pub proof fn lemma_round_trip(s: Seq<char>)
    requires
        canonical_text(s),
    ensures
        encode_text_spec(s) is Ok,
        decode_text_spec(encode_text_spec(s)->Ok_0) == Ok::<Seq<char>, MorseError>(s),
{
    let sp1 = render_spec(Morse::BaseSpace);
    let sp7 = render_spec(Morse::WordSpace);
    assert(all_space_sep(sp7));
    let ws = split_on(s, sp1);
    lemma_split_len(s, sp1);
    lemma_join_of_split(s, sp1);
    lemma_split_pieces_clean(s, sp1);
    let supported = |c: char| is_supported(c);
    lemma_split_preserves(s, sp1, supported);
    assert forall|k: int| 0 <= k < ws.len() implies word_supported(#[trigger] ws[k]) by {
        assert forall|j: int| 0 <= j < ws[k].len() implies is_supported(#[trigger] ws[k][j]) by {
            assert(supported(ws[k][j]));
        }
    }
    assert forall|k: int, j: int| 0 <= k < ws.len() && 0 <= j < ws[k].len() implies (
    #[trigger] ws[k][j]) != ' ' by {
        if ws[k][j] == ' ' {
            assert(ws[k].subrange(j, j + 1) =~= sp1);
            assert(occurs_at(ws[k], sp1, j));
        }
    }
    assert(encode_text_spec(s) is Ok);
    let pieces = word_strs_of(ws);
    let morse = encode_text_spec(s)->Ok_0;
    assert(morse == join_with(pieces, sp7));
    if s.len() == 0 {
        let empty_word = Seq::<char>::empty();
        assert(ws =~~= seq![empty_word]);
        assert(letters_of(empty_word).len() == 0);
        assert(word_str_spec(empty_word) =~= empty_word);
        assert(pieces =~~= seq![empty_word]);
        assert(morse =~= empty_word);
        assert(split_on(morse, sp7) =~~= seq![empty_word]);
        assert(decode_word_spec(empty_word) == Ok::<Seq<char>, MorseError>(empty_word));
        assert(seq![empty_word].skip(1) =~~= Seq::<Seq<char>>::empty());
        assert(decode_words_spec(Seq::<Seq<char>>::empty()) == Ok::<Seq<Seq<char>>, MorseError>(
            Seq::<Seq<char>>::empty(),
        ));
        assert(decode_words_spec(seq![empty_word]) == Ok::<Seq<Seq<char>>, MorseError>(
            seq![empty_word] + Seq::<Seq<char>>::empty(),
        ));
        assert(seq![empty_word] + Seq::<Seq<char>>::empty() =~~= seq![empty_word]);
        assert(join_with(seq![empty_word], sp1) == empty_word);
        assert(decode_text_spec(morse) == Ok::<Seq<char>, MorseError>(s));
    } else {
        assert(sp1 == seq![' ']) by {
            assert(sp1 =~= seq![' ']);
        }
        lemma_split_nonempty_pieces(s, ' ');
        assert forall|k: int| 0 <= k < ws.len() implies (#[trigger] ws[k]).len() >= 1 by {
            if k == 0 {
                assert(ws[0].len() >= 1);
            }
        }
        assert forall|k: int| 0 <= k < pieces.len() implies (#[trigger] pieces[k]).len() >= 1
            && pieces[k][pieces[k].len() - 1] != ' ' && space_runs_below(pieces[k], 4)
            && decode_word_spec(pieces[k]) == Ok::<Seq<char>, MorseError>(ws[k]) by {
            lemma_word_decodes(ws[k]);
            assert(pieces[k] == word_str_spec(ws[k]));
        }
        assert forall|k: int| 0 <= k < pieces.len() implies piece_ok(#[trigger] pieces[k], sp7) by {
            lemma_no_run_no_occurrence(pieces[k], sp7, 4);
        }
        lemma_split_of_join(pieces, sp7);
        lemma_decode_words_all(pieces, ws);
        assert(decode_text_spec(morse) == Ok::<Seq<char>, MorseError>(join_with(ws, sp1)));
    }
}

} // verus!
