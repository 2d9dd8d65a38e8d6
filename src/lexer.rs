//! The lexer: a cursor over the input that hands out one token per call.
//!
//! Positions count characters (Unicode scalar values). On ASCII text they
//! are byte offsets; on other text the cursor never falls inside a
//! multi-byte character.

use vstd::prelude::*;
use vstd::string::*;
use crate::classify::{
    CharClass,
    class_of,
    classify,
    char_is_space,
    char_is_word,
    is_space,
    is_word,
    space_end,
    word_end,
};
use crate::token::{Token, joined_text};

verus! {

broadcast use vstd::string::axiom_spec_iter;

/// The abstract state of a lexer: the whole input and the cursor.
pub struct LexState {
    pub input: Seq<char>,
    pub pos: nat,
}

/// Whether the lexer has nothing left to emit at `p`: the input is used up,
/// or the character at `p` belongs to no class.
pub open spec fn stops_at(s: Seq<char>, p: int) -> bool {
    p >= s.len() || class_of(s[p]) == CharClass::Unknown
}

/// Where the token that starts at `p` ends (exclusive): after the sigil and
/// the word run that follows it for a variable, after the run for a word or
/// whitespace, after the single delimiter for a structural marker.
pub open spec fn token_end(s: Seq<char>, p: int) -> int {
    match class_of(s[p]) {
        CharClass::Var => word_end(s, p + 1),
        CharClass::Word => word_end(s, p),
        CharClass::Space => space_end(s, p),
        CharClass::Unknown => p,
        _ => p + 1,
    }
}

/// `t` is the token the lexer emits when its cursor stands at `p`.
pub open spec fn is_token_at(t: Token, s: Seq<char>, p: int) -> bool {
    match class_of(s[p]) {
        CharClass::Var => t matches Token::Var { name } && name@ == s.subrange(
            p + 1,
            token_end(s, p),
        ),
        CharClass::Word => t matches Token::Word { contents } && contents@ == s.subrange(
            p,
            token_end(s, p),
        ),
        CharClass::Space => t matches Token::Whitespace { contents } && contents@ == s.subrange(
            p,
            token_end(s, p),
        ),
        CharClass::StringDelim => t is String,
        CharClass::BracketOpen => t is BracketOpen,
        CharClass::BracketClose => t is BracketClose,
        CharClass::BlockOpen => t is BlockOpen,
        CharClass::BlockClose => t is BlockClose,
        CharClass::Unknown => false,
    }
}

/// `toks` is the stream the lexer emits while its cursor moves from `p` to
/// `q`, one token per call.
pub open spec fn is_scan(toks: Seq<Token>, s: Seq<char>, p: int, q: int) -> bool
    decreases toks.len(),
{
    if toks.len() == 0 {
        p == q
    } else {
        &&& 0 <= p
        &&& !stops_at(s, p)
        &&& is_token_at(toks[0], s, p)
        &&& is_scan(toks.drop_first(), s, token_end(s, p), q)
    }
}

/// Tokenizing state over an input text.
pub struct Lexer {
    input: String,
    chars: Vec<char>,
    pos: usize,
}

impl View for Lexer {
    type V = LexState;

    closed spec fn view(&self) -> LexState {
        LexState { input: self.chars@, pos: self.pos as nat }
    }
}

impl Lexer {
    /// The lexer's internal consistency: the decoded characters are those of
    /// the input, and the cursor lies within them.
    pub closed spec fn wf(&self) -> bool {
        &&& self.chars@ == self.input@
        &&& self.pos <= self.chars.len()
    }

    /// A lexer over `input`, with its cursor at the start.
    pub fn new(input: String) -> (r: Lexer)
        ensures
            r.wf(),
            r@.input == input@,
            r@.pos == 0,
    {
        let mut chars: Vec<char> = Vec::new();
        for c in it: input.as_str().chars()
            invariant
                chars@ == it.seq().take(it.index() as int),
                it.seq() == input@,
        {
            chars.push(c);
        }
        assert(chars@ == input@);
        Lexer { input, chars, pos: 0 }
    }

    /// The class of the character under the cursor; `None` at the end of the
    /// input.
    fn peek(&self) -> (r: Option<CharClass>)
        requires
            self.wf(),
        ensures
            r is None <==> self@.pos >= self@.input.len(),
            r matches Some(k) ==> k == class_of(self@.input[self@.pos as int]),
    {
        if self.pos >= self.chars.len() {
            return None;
        }
        Some(classify(self.chars[self.pos]))
    }

    /// End of the word run that starts at the cursor.
    fn end_of_word(&self) -> (r: usize)
        requires
            self.wf(),
        ensures
            r == word_end(self@.input, self@.pos as int),
    {
        let mut q = self.pos;
        while q < self.chars.len() && char_is_word(self.chars[q])
            invariant
                self.pos <= q <= self.chars.len(),
                word_end(self.chars@, q as int) == word_end(self.chars@, self.pos as int),
            decreases self.chars.len() - q,
        {
            q = q + 1;
        }
        q
    }

    /// End of the whitespace run that starts at the cursor.
    fn end_of_space(&self) -> (r: usize)
        requires
            self.wf(),
        ensures
            r == space_end(self@.input, self@.pos as int),
    {
        let mut q = self.pos;
        while q < self.chars.len() && char_is_space(self.chars[q])
            invariant
                self.pos <= q <= self.chars.len(),
                space_end(self.chars@, q as int) == space_end(self.chars@, self.pos as int),
            decreases self.chars.len() - q,
        {
            q = q + 1;
        }
        q
    }

    /// Consumes the text from the cursor up to `end` (clamped to the end of
    /// the input) and returns it.
    fn eat_until(&mut self, end: usize) -> (r: String)
        requires
            old(self).wf(),
            old(self)@.pos <= end,
        ensures
            final(self).wf(),
            final(self)@.input == old(self)@.input,
            final(self)@.pos == if end <= old(self)@.input.len() {
                end as nat
            } else {
                old(self)@.input.len()
            },
            r@ == old(self)@.input.subrange(old(self)@.pos as int, final(self)@.pos as int),
    {
        let p = if end > self.chars.len() {
            self.chars.len()
        } else {
            end
        };
        let res = self.input.as_str().substring_char(self.pos, p).to_owned();
        self.pos = p;
        res
    }

    /// The next token, advancing the cursor past its text; `None`, with the
    /// lexer left as it was, once the input is used up or the character under
    /// the cursor belongs to no class. A lexer that has returned `None` keeps
    /// returning `None`.
    pub fn next(&mut self) -> (r: Option<Token>)
        requires
            old(self).wf(),
        ensures
            final(self).wf(),
            final(self)@.input == old(self)@.input,
            r is None <==> stops_at(old(self)@.input, old(self)@.pos as int),
            r is None ==> final(self)@ == old(self)@,
            r matches Some(t) ==> {
                &&& is_token_at(t, old(self)@.input, old(self)@.pos as int)
                &&& final(self)@.pos == token_end(old(self)@.input, old(self)@.pos as int)
            },
    {
        proof {
            if !stops_at(self.chars@, self.pos as int) {
                lemma_token_end_bounds(self.chars@, self.pos as int);
            }
        }
        match self.peek() {
            Some(CharClass::Var) => {
                self.pos = self.pos + 1;
                let p = self.end_of_word();
                Some(Token::Var { name: self.eat_until(p) })
            },
            Some(CharClass::Word) => {
                let p = self.end_of_word();
                Some(Token::Word { contents: self.eat_until(p) })
            },
            Some(CharClass::Space) => {
                let p = self.end_of_space();
                Some(Token::Whitespace { contents: self.eat_until(p) })
            },
            Some(CharClass::StringDelim) => {
                self.pos = self.pos + 1;
                Some(Token::String)
            },
            Some(CharClass::BracketOpen) => {
                self.pos = self.pos + 1;
                Some(Token::BracketOpen)
            },
            Some(CharClass::BracketClose) => {
                self.pos = self.pos + 1;
                Some(Token::BracketClose)
            },
            Some(CharClass::BlockOpen) => {
                self.pos = self.pos + 1;
                Some(Token::BlockOpen)
            },
            Some(CharClass::BlockClose) => {
                self.pos = self.pos + 1;
                Some(Token::BlockClose)
            },
            Some(CharClass::Unknown) => None,
            None => None,
        }
    }

    /// Calls `next` until it returns `None` and collects what it returned.
    /// The cursor ends where the stream stops: at the end of the input, or on
    /// the first character that belongs to no class.
    pub fn tokens(&mut self) -> (r: Vec<Token>)
        requires
            old(self).wf(),
        ensures
            final(self).wf(),
            final(self)@.input == old(self)@.input,
            is_scan(r@, old(self)@.input, old(self)@.pos as int, final(self)@.pos as int),
            stops_at(final(self)@.input, final(self)@.pos as int),
            joined_text(r@) == old(self)@.input.subrange(
                old(self)@.pos as int,
                final(self)@.pos as int,
            ),
    {
        let ghost s = self@.input;
        let ghost start = self@.pos as int;
        let mut toks: Vec<Token> = Vec::new();
        loop
            invariant
                self.wf(),
                self@.input == s,
                start <= self@.pos,
                is_scan(toks@, s, start, self@.pos as int),
                joined_text(toks@) == s.subrange(start, self@.pos as int),
            ensures
                self.wf(),
                self@.input == s,
                is_scan(toks@, s, start, self@.pos as int),
                stops_at(s, self@.pos as int),
                joined_text(toks@) == s.subrange(start, self@.pos as int),
            decreases s.len() - self@.pos,
        {
            let ghost before = self@.pos as int;
            match self.next() {
                Some(t) => {
                    proof {
                        lemma_token_end_bounds(s, before);
                        lemma_token_text(t, s, before);
                        lemma_scan_push(toks@, t, s, start, before);
                        assert(toks@.push(t).drop_last() =~= toks@);
                        assert(s.subrange(start, self@.pos as int) =~= s.subrange(start, before)
                            + s.subrange(before, self@.pos as int));
                    }
                    toks.push(t);
                },
                None => {
                    break ;
                },
            }
        }
        toks
    }

    /// The cursor: how many characters of the input have been consumed.
    pub fn position(&self) -> (r: usize)
        requires
            self.wf(),
        ensures
            r == self@.pos,
    {
        self.pos
    }

    /// The character the stream stopped on, when it stopped before the end
    /// of the input on a character that belongs to no class; `None` otherwise.
    pub fn unrecognized(&self) -> (r: Option<char>)
        requires
            self.wf(),
        ensures
            r is Some <==> (self@.pos < self@.input.len() && class_of(
                self@.input[self@.pos as int],
            ) == CharClass::Unknown),
            r matches Some(c) ==> c == self@.input[self@.pos as int],
    {
        match self.peek() {
            Some(CharClass::Unknown) => Some(self.chars[self.pos]),
            _ => None,
        }
    }
}

/// The source text of the token emitted at `p` is the input from `p` to
/// where that token ends.
pub proof fn lemma_token_text(t: Token, s: Seq<char>, p: int)
    requires
        0 <= p,
        !stops_at(s, p),
        is_token_at(t, s, p),
    ensures
        t.source_text() == s.subrange(p, token_end(s, p)),
{
    lemma_token_end_bounds(s, p);
    assert(t.source_text() =~= s.subrange(p, token_end(s, p)));
}

/// A scan extended by the token emitted where it stopped is a scan.
pub proof fn lemma_scan_push(toks: Seq<Token>, t: Token, s: Seq<char>, p: int, q: int)
    requires
        is_scan(toks, s, p, q),
        0 <= q,
        !stops_at(s, q),
        is_token_at(t, s, q),
    ensures
        is_scan(toks.push(t), s, p, token_end(s, q)),
    decreases toks.len(),
{
    if toks.len() == 0 {
        assert(toks.push(t).drop_first() =~= Seq::<Token>::empty());
        assert(is_scan(Seq::<Token>::empty(), s, token_end(s, q), token_end(s, q)));
        assert(toks.push(t)[0] == t);
    } else {
        lemma_scan_push(toks.drop_first(), t, s, token_end(s, p), q);
        assert(toks.push(t).drop_first() =~= toks.drop_first().push(t));
        assert(toks.push(t)[0] == toks[0]);
    }
}

/// A word run starting within the input ends within it, no earlier than it
/// starts.
pub proof fn lemma_word_end_bounds(s: Seq<char>, p: int)
    requires
        0 <= p <= s.len(),
    ensures
        p <= word_end(s, p) <= s.len(),
    decreases s.len() - p,
{
    if p < s.len() && is_word(s[p]) {
        lemma_word_end_bounds(s, p + 1);
    }
}

/// A whitespace run starting within the input ends within it, no earlier
/// than it starts.
pub proof fn lemma_space_end_bounds(s: Seq<char>, p: int)
    requires
        0 <= p <= s.len(),
    ensures
        p <= space_end(s, p) <= s.len(),
    decreases s.len() - p,
{
    if p < s.len() && is_space(s[p]) {
        lemma_space_end_bounds(s, p + 1);
    }
}

/// Every token the lexer can emit consumes at least one character and stays
/// within the input.
pub proof fn lemma_token_end_bounds(s: Seq<char>, p: int)
    requires
        0 <= p,
        !stops_at(s, p),
    ensures
        p < token_end(s, p) <= s.len(),
{
    lemma_word_end_bounds(s, p + 1);
    lemma_space_end_bounds(s, p + 1);
    if class_of(s[p]) == CharClass::Word {
        assert(word_end(s, p) == word_end(s, p + 1));
    } else if class_of(s[p]) == CharClass::Space {
        assert(space_end(s, p) == space_end(s, p + 1));
    }
}

/// The joined text of a non-empty stream is the text of its first token
/// followed by the joined text of the rest.
pub proof fn lemma_joined_first(toks: Seq<Token>)
    requires
        toks.len() > 0,
    ensures
        joined_text(toks) == toks[0].source_text() + joined_text(toks.drop_first()),
    decreases toks.len(),
{
    if toks.len() == 1 {
        assert(toks.drop_last() =~= Seq::<Token>::empty());
        assert(toks.drop_first() =~= Seq::<Token>::empty());
        assert(joined_text(Seq::<Token>::empty()) == Seq::<char>::empty());
        assert(toks.last() == toks[0]);
        assert(joined_text(toks) =~= toks[0].source_text());
    } else {
        let rest = toks.drop_first();
        lemma_joined_first(toks.drop_last());
        assert(toks.drop_last().drop_first() =~= rest.drop_last());
        assert(rest.last() == toks.last());
        assert(toks.drop_last()[0] == toks[0]);
        assert(joined_text(toks) =~= toks[0].source_text() + joined_text(rest));
    }
}

/// The joined text of a scan from `p` to `q` is the input from `p` to `q`,
/// and a scan never runs past the end of the input.
pub proof fn lemma_scan_text(toks: Seq<Token>, s: Seq<char>, p: int, q: int)
    requires
        0 <= p <= s.len(),
        is_scan(toks, s, p, q),
    ensures
        p <= q <= s.len(),
        joined_text(toks) == s.subrange(p, q),
    decreases toks.len(),
{
    if toks.len() == 0 {
        assert(s.subrange(p, q) =~= Seq::<char>::empty());
    } else {
        let m = token_end(s, p);
        lemma_token_end_bounds(s, p);
        lemma_token_text(toks[0], s, p);
        lemma_scan_text(toks.drop_first(), s, m, q);
        lemma_joined_first(toks);
        assert(s.subrange(p, q) =~= s.subrange(p, m) + s.subrange(m, q));
    }
}

/// Round trip: when every character of the input belongs to a class, the
/// stream runs to the end of the input, and the source texts of its tokens,
/// joined, give back the input.
pub proof fn lemma_round_trip(toks: Seq<Token>, s: Seq<char>, q: int)
    requires
        forall|i: int| 0 <= i < s.len() ==> class_of(#[trigger] s[i]) != CharClass::Unknown,
        is_scan(toks, s, 0, q),
        stops_at(s, q),
    ensures
        q == s.len(),
        joined_text(toks) == s,
{
    lemma_scan_text(toks, s, 0, q);
    assert(s.subrange(0, s.len() as int) =~= s);
}

} // verus!
