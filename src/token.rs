//! The tokens the lexer emits.

use vstd::prelude::*;
use vstd::string::*;

verus! {

/// One lexical token.
#[derive(Clone, Debug, PartialEq, Eq)]
pub enum Token {
    /// A variable reference `$name`; `name` holds the word run after the sigil.
    Var { name: String },
    /// A maximal run of plain characters.
    Word { contents: String },
    /// A maximal run of whitespace, kept verbatim.
    Whitespace { contents: String },
    /// The string delimiter `"`.
    String,
    /// `[`
    BracketOpen,
    /// `]`
    BracketClose,
    /// `{`
    BlockOpen,
    /// `}`
    BlockClose,
}

impl Token {
    /// The source text this token stands for: the sigil and the name for a
    /// variable, the contents of a run, the delimiter of a structural marker.
    pub open spec fn source_text(self) -> Seq<char> {
        match self {
            Token::Var { name } => seq!['$'] + name@,
            Token::Word { contents } => contents@,
            Token::Whitespace { contents } => contents@,
            Token::String => seq!['"'],
            Token::BracketOpen => seq!['['],
            Token::BracketClose => seq![']'],
            Token::BlockOpen => seq!['{'],
            Token::BlockClose => seq!['}'],
        }
    }

    /// The source text this token stands for, as a string.
    pub fn to_source(&self) -> (r: String)
        ensures
            r@ == self.source_text(),
    {
        proof {
            reveal_strlit("$");
            reveal_strlit("\"");
            reveal_strlit("[");
            reveal_strlit("]");
            reveal_strlit("{");
            reveal_strlit("}");
        }
        match self {
            Token::Var { name } => String::from_str("$").concat(name.as_str()),
            Token::Word { contents } => contents.clone(),
            Token::Whitespace { contents } => contents.clone(),
            Token::String => String::from_str("\""),
            Token::BracketOpen => String::from_str("["),
            Token::BracketClose => String::from_str("]"),
            Token::BlockOpen => String::from_str("{"),
            Token::BlockClose => String::from_str("}"),
        }
    }
}

/// The source texts of a sequence of tokens, concatenated.
pub open spec fn joined_text(toks: Seq<Token>) -> Seq<char>
    decreases toks.len(),
{
    if toks.len() == 0 {
        Seq::empty()
    } else {
        joined_text(toks.drop_last()) + toks.last().source_text()
    }
}

} // verus!
