//! Classification of single characters, and the two character runs the
//! lexer consumes: whitespace runs and word runs.

use vstd::prelude::*;

verus! {

/// What the character under the cursor starts.
#[derive(Clone, Copy, Debug, PartialEq, Eq, Structural)]
pub enum CharClass {
    /// `$`, the sigil of a variable reference.
    Var,
    /// `[`
    BracketOpen,
    /// `]`
    BracketClose,
    /// `{`
    BlockOpen,
    /// `}`
    BlockClose,
    /// `"`
    StringDelim,
    /// A whitespace character.
    Space,
    /// A character that may stand in a word run.
    Word,
    /// A character that no class accepts.
    Unknown,
}

/// The whitespace class: the characters with the Unicode `White_Space`
/// property.
pub open spec fn is_space(c: char) -> bool {
    let u = c as u32;
    ||| 0x09 <= u <= 0x0D
    ||| u == 0x20
    ||| u == 0x85
    ||| u == 0xA0
    ||| u == 0x1680
    ||| 0x2000 <= u <= 0x200A
    ||| u == 0x2028
    ||| u == 0x2029
    ||| u == 0x202F
    ||| u == 0x205F
    ||| u == 0x3000
}

/// The word class: every character that is not whitespace, `}`, `]` or `"`.
/// `$`, `[` and `{` belong to it; the classifier gives them priority.
pub open spec fn is_word(c: char) -> bool {
    !is_space(c) && c != '}' && c != ']' && c != '"'
}

/// The class of a character; the structural characters are tested before
/// the generic word class.
pub open spec fn class_of(c: char) -> CharClass {
    if c == '$' {
        CharClass::Var
    } else if c == '[' {
        CharClass::BracketOpen
    } else if c == ']' {
        CharClass::BracketClose
    } else if c == '{' {
        CharClass::BlockOpen
    } else if c == '}' {
        CharClass::BlockClose
    } else if c == '"' {
        CharClass::StringDelim
    } else if is_space(c) {
        CharClass::Space
    } else if is_word(c) {
        CharClass::Word
    } else {
        CharClass::Unknown
    }
}

/// End (exclusive) of the maximal run of whitespace starting at `p`; `p`
/// itself when no whitespace starts there.
pub open spec fn space_end(s: Seq<char>, p: int) -> int
    decreases s.len() - p,
{
    if 0 <= p < s.len() && is_space(s[p]) {
        space_end(s, p + 1)
    } else {
        p
    }
}

/// End (exclusive) of the maximal word run starting at `p`; `p` itself when
/// no word character starts there.
pub open spec fn word_end(s: Seq<char>, p: int) -> int
    decreases s.len() - p,
{
    if 0 <= p < s.len() && is_word(s[p]) {
        word_end(s, p + 1)
    } else {
        p
    }
}

/// Tests membership in the whitespace class.
pub fn char_is_space(c: char) -> (r: bool)
    ensures
        r == is_space(c),
{
    let u = c as u32;
    (0x09 <= u && u <= 0x0D) || u == 0x20 || u == 0x85 || u == 0xA0 || u == 0x1680 || (0x2000
        <= u && u <= 0x200A) || u == 0x2028 || u == 0x2029 || u == 0x202F || u == 0x205F || u
        == 0x3000
}

/// Tests membership in the word class.
pub fn char_is_word(c: char) -> (r: bool)
    ensures
        r == is_word(c),
{
    !char_is_space(c) && c != '}' && c != ']' && c != '"'
}

/// Classifies one character, structural characters first.
pub fn classify(c: char) -> (r: CharClass)
    ensures
        r == class_of(c),
{
    if c == '$' {
        CharClass::Var
    } else if c == '[' {
        CharClass::BracketOpen
    } else if c == ']' {
        CharClass::BracketClose
    } else if c == '{' {
        CharClass::BlockOpen
    } else if c == '}' {
        CharClass::BlockClose
    } else if c == '"' {
        CharClass::StringDelim
    } else if char_is_space(c) {
        CharClass::Space
    } else if char_is_word(c) {
        CharClass::Word
    } else {
        CharClass::Unknown
    }
}

/// Every character falls in some class: the whitespace class and the word
/// class together cover all characters but `}`, `]` and `"`, which are
/// structural.
pub proof fn lemma_every_char_recognized(c: char)
    ensures
        class_of(c) != CharClass::Unknown,
{
}

} // verus!
