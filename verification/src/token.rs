//! Tokens, the splitting of program text into tokens, and the cursor from
//! which the engine and its helpers all read.

use vstd::prelude::*;
use crate::text::chars_of;

verus! {

/// One whitespace-delimited piece of program text, as written and in upper
/// case. Words and operators are recognised by the upper-case form; string
/// literals print the form as written.
pub struct Token {
    pub raw: Vec<char>,
    pub upper: Vec<char>,
}

/// The mathematical value of a token.
pub struct TokenView {
    pub raw: Seq<char>,
    pub upper: Seq<char>,
}

impl View for Token {
    type V = TokenView;

    open spec fn view(&self) -> TokenView {
        TokenView { raw: self.raw@, upper: self.upper@ }
    }
}

/// The values of a sequence of tokens.
pub open spec fn views(tokens: Seq<Token>) -> Seq<TokenView> {
    tokens.map_values(|t: Token| t@)
}

/// The values of a sequence with one more token are those of the sequence
/// with one more value.
pub proof fn lemma_views_push(tokens: Seq<Token>, t: Token)
    ensures
        views(tokens.push(t)) == views(tokens).push(t@),
{
}

/// The tokens left when the first `n` are dropped; none when there are
/// fewer than `n`.
pub open spec fn drop_tokens(tokens: Seq<TokenView>, n: nat) -> Seq<TokenView> {
    if n <= tokens.len() {
        tokens.skip(n as int)
    } else {
        Seq::empty()
    }
}

/// The upper-case form of a text, as the standard library computes it.
pub uninterp spec fn uppercase_of(text: Seq<char>) -> Seq<char>;

/// Whether a character is white space, as the standard library judges it.
pub uninterp spec fn white_space(c: char) -> bool;

/// The piece that ends where white space or the end of the text follows:
/// none if no character has been gathered.
pub open spec fn finished(current: Seq<char>) -> Seq<Seq<char>> {
    if current.len() > 0 {
        seq![current]
    } else {
        Seq::empty()
    }
}

/// The pieces of `text` between white space, given the characters
/// `current` of a piece that began before `text`.
pub open spec fn pieces_from(text: Seq<char>, current: Seq<char>) -> Seq<Seq<char>>
    decreases text.len(),
{
    if text.len() == 0 {
        finished(current)
    } else if white_space(text[0]) {
        finished(current) + pieces_from(text.drop_first(), Seq::empty())
    } else {
        pieces_from(text.drop_first(), current.push(text[0]))
    }
}

/// The maximal runs of characters of a text that are not white space, in
/// order.
pub open spec fn whitespace_tokens(text: Seq<char>) -> Seq<Seq<char>> {
    pieces_from(text, Seq::empty())
}

/// A piece of text with its upper-case form.
pub open spec fn token_of(raw: Seq<char>) -> TokenView {
    TokenView { raw, upper: uppercase_of(raw) }
}

/// The tokens of a program text: its whitespace-delimited pieces, each with
/// its upper-case form.
pub open spec fn tokens_of(text: Seq<char>) -> Seq<TokenView> {
    whitespace_tokens(text).map_values(|raw: Seq<char>| token_of(raw))
}

/// Calls `str::to_uppercase` on the given characters. Trusted: the result is
/// the upper-case form that the standard library gives for this text, which
/// depends on the text alone.
#[verifier::external_body]
fn upper_case(text: &Vec<char>) -> (upper: Vec<char>)
    ensures
        upper@ == uppercase_of(text@),
{
    let s: String = text.iter().collect();
    s.to_uppercase().chars().collect()
}

/// Calls `char::is_whitespace`. Trusted: the answer is the standard
/// library's judgement of this character, which depends on the character
/// alone.
#[verifier::external_body]
fn is_white_space(c: char) -> (yes: bool)
    ensures
        yes == white_space(c),
{
    c.is_whitespace()
}

/// A copy of a text.
pub fn copy_text(text: &Vec<char>) -> (copy: Vec<char>)
    ensures
        copy@ == text@,
{
    let mut copy: Vec<char> = Vec::new();
    let mut i: usize = 0;
    while i < text.len()
        invariant
            i <= text@.len(),
            copy@ == text@.take(i as int),
        decreases text@.len() - i,
    {
        copy.push(text[i]);
        i += 1;
    }
    copy
}

impl Token {
    /// The token for a piece of text as written.
    pub fn new(raw: &str) -> (token: Token)
        ensures
            token@.raw == raw@,
            token@.upper == uppercase_of(raw@),
    {
        let raw: Vec<char> = chars_of(raw);
        let upper: Vec<char> = upper_case(&raw);
        Token { raw, upper }
    }

    /// A copy of this token.
    pub fn duplicate(&self) -> (copy: Token)
        ensures
            copy@ == self@,
    {
        Token { raw: copy_text(&self.raw), upper: copy_text(&self.upper) }
    }
}

/// A copy of a sequence of tokens.
pub fn copy_tokens(tokens: &Vec<Token>) -> (copy: Vec<Token>)
    ensures
        views(copy@) == views(tokens@),
{
    let mut copy: Vec<Token> = Vec::new();
    let mut i: usize = 0;
    while i < tokens.len()
        invariant
            i <= tokens@.len(),
            views(copy@) == views(tokens@).take(i as int),
        decreases tokens@.len() - i,
    {
        let t: Token = tokens[i].duplicate();
        proof {
            lemma_views_push(copy@, t);
        }
        copy.push(t);
        i += 1;
    }
    copy
}

/// Splits a program text into its tokens.
pub fn tokenize(text: &str) -> (tokens: Vec<Token>)
    ensures
        views(tokens@) == tokens_of(text@),
{
    let chars: Vec<char> = chars_of(text);
    let mut tokens: Vec<Token> = Vec::new();
    let mut current: Vec<char> = Vec::new();
    let mut i: usize = 0;
    assert(chars@.skip(0) =~= chars@);
    while i < chars.len()
        invariant
            i <= chars@.len(),
            chars@ == text@,
            tokens_of(text@) == views(tokens@) + pieces_from(chars@.skip(i as int), current@).map_values(
                |raw: Seq<char>| token_of(raw),
            ),
        decreases chars@.len() - i,
    {
        let c: char = chars[i];
        let ghost here = chars@.skip(i as int);
        let ghost done = views(tokens@);
        let ghost gathered = current@;
        proof {
            assert(here.drop_first() =~= chars@.skip(i + 1));
        }
        if is_white_space(c) {
            let ghost tail = pieces_from(here.drop_first(), Seq::empty());
            if current.len() > 0 {
                let upper: Vec<char> = upper_case(&current);
                let t: Token = Token { raw: current, upper };
                proof {
                    lemma_views_push(tokens@, t);
                    assert(done + (seq![gathered] + tail).map_values(|raw: Seq<char>| token_of(raw)) =~= done.push(
                        t@,
                    ) + tail.map_values(|raw: Seq<char>| token_of(raw)));
                }
                tokens.push(t);
                current = Vec::new();
            } else {
                assert(gathered =~= Seq::<char>::empty());
            }
        } else {
            current.push(c);
        }
        i += 1;
    }
    if current.len() > 0 {
        let upper: Vec<char> = upper_case(&current);
        let t: Token = Token { raw: current, upper };
        proof {
            lemma_views_push(tokens@, t);
            assert(views(tokens@) + seq![current@].map_values(|raw: Seq<char>| token_of(raw)) =~= views(tokens@).push(
                t@,
            ));
        }
        tokens.push(t);
    } else {
        assert(views(tokens@) + Seq::<Seq<char>>::empty().map_values(|raw: Seq<char>| token_of(raw)) =~= views(
            tokens@,
        ));
    }
    tokens
}

/// A forward-only position in a sequence of tokens. One cursor is shared by
/// the engine and by every construct that reads ahead, so that each resumes
/// where the other stopped.
pub struct TokenCursor<'a> {
    tokens: &'a Vec<Token>,
    pos: usize,
}

impl<'a> TokenCursor<'a> {
    #[verifier::type_invariant]
    spec fn in_range(&self) -> bool {
        self.pos <= self.tokens@.len()
    }

    /// The tokens not yet read.
    pub closed spec fn remaining(&self) -> Seq<TokenView> {
        views(self.tokens@).skip(self.pos as int)
    }

    /// A cursor before the first of `tokens`.
    pub fn new(tokens: &'a Vec<Token>) -> (cursor: Self)
        ensures
            cursor.remaining() == views(tokens@),
    {
        TokenCursor { tokens, pos: 0 }
    }

    /// Reads the next token, if any is left, and moves past it.
    pub fn next(&mut self) -> (token: Option<&'a Token>)
        ensures
            match token {
                Some(t) => old(self).remaining().len() > 0 && t@ == old(self).remaining()[0]
                    && final(self).remaining() == old(self).remaining().drop_first(),
                None => old(self).remaining().len() == 0 && final(self).remaining()
                    == old(self).remaining(),
            },
    {
        proof {
            use_type_invariant(&*self);
        }
        if self.pos < self.tokens.len() {
            let t: &'a Token = &self.tokens[self.pos];
            self.pos = self.pos + 1;
            Some(t)
        } else {
            None
        }
    }

    /// The number of tokens not yet read.
    pub fn remaining_len(&self) -> (n: usize)
        ensures
            n == self.remaining().len(),
    {
        proof {
            use_type_invariant(self);
        }
        self.tokens.len() - self.pos
    }
}

} // verus!
