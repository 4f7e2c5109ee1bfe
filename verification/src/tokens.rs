//! The token form of the input.
//!
//! The host hands the generator one enum definition as a tree of tokens:
//! identifiers, punctuation, string-shaped literals, and delimited groups.
//! Every token carries an opaque source position that diagnostics point at.

use vstd::prelude::*;

verus! {

/// The delimiter of a token group.
#[derive(Clone, Copy, PartialEq, Eq, Structural, Debug)]
pub enum Delim {
    Paren,
    Brace,
    Bracket,
}

/// One tree in the token form of the input.
///
/// `Literal` keeps the literal's source text as written, quotes included;
/// the cursor is what turns it into a plain string.
#[derive(Debug)]
pub enum Token {
    Ident { text: String, pos: u32 },
    Punct { ch: char, pos: u32 },
    Literal { repr: String, pos: u32 },
    Group { delim: Delim, tokens: Vec<Token>, pos: u32 },
}

impl Token {
    /// The source position the token carries.
    pub open spec fn spec_pos(&self) -> u32 {
        match self {
            Token::Ident { pos, .. } => *pos,
            Token::Punct { pos, .. } => *pos,
            Token::Literal { pos, .. } => *pos,
            Token::Group { pos, .. } => *pos,
        }
    }

    /// Whether the token is the identifier spelled `s`.
    pub open spec fn is_ident_named(&self, s: Seq<char>) -> bool {
        match self {
            Token::Ident { text, .. } => text@ == s,
            _ => false,
        }
    }

    /// Whether the token is the punctuation character `c`.
    pub open spec fn is_punct_char(&self, c: char) -> bool {
        match self {
            Token::Punct { ch, .. } => *ch == c,
            _ => false,
        }
    }

    /// The position the token carries, as an executable read.
    pub fn pos(&self) -> (p: u32)
        ensures
            p == self.spec_pos(),
    {
        match self {
            Token::Ident { pos, .. } => *pos,
            Token::Punct { pos, .. } => *pos,
            Token::Literal { pos, .. } => *pos,
            Token::Group { pos, .. } => *pos,
        }
    }
}

} // verus!
