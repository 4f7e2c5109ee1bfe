//! The token cursor: lookahead and shape-checked consumption over a token
//! list, plus the three small readers every caller needs (attribute lists,
//! a visibility marker, type paths).
//!
//! Every reader is specified against a spec-level twin over the token
//! sequence, so a caller knows exactly which tokens are consumed and what
//! comes back, success and failure alike.

use vstd::prelude::*;

use crate::model::{DiagKindV, DiagV, Diagnostic, DiagnosticKind};
use crate::text::{chars_to_string, push_chars, push_str_chars, str_eq, unescape, unescaped_from};
use crate::tokens::{Delim, Token};

verus! {

/// The source position diagnostics use for the token at `i`: the token's
/// own position, or the end-of-input position when none remains.
pub open spec fn spec_pos_at(ts: Seq<Token>, i: int, end: u32) -> u32 {
    if 0 <= i < ts.len() {
        ts[i].spec_pos()
    } else {
        end
    }
}

/// One parsed `#[...]` attribute: its name and, behind it, the rest of the
/// bracket group's tokens.
pub struct Attribute<'a> {
    pub name: String,
    pub name_pos: u32,
    pub group: &'a Vec<Token>,
}

/// The mathematical shape of one attribute.
pub ghost struct AttrV {
    pub name: Seq<char>,
    pub name_pos: u32,
    pub tree: Seq<Token>,
}

impl<'a> View for Attribute<'a> {
    type V = AttrV;

    open spec fn view(&self) -> AttrV {
        AttrV {
            name: self.name@,
            name_pos: self.name_pos,
            tree: if self.group@.len() >= 1 {
                self.group@.skip(1)
            } else {
                self.group@
            },
        }
    }
}

/// The string a literal token stands for: present when the token's source
/// text is quote-delimited, with its escape pairs resolved.
pub open spec fn lit_string_val(repr: Seq<char>) -> Option<Seq<char>> {
    if repr.len() >= 2 && repr[0] == '"' && repr[repr.len() - 1] == '"' {
        Some(unescaped_from(repr.subrange(1, repr.len() - 1), 0))
    } else {
        None
    }
}

/// The attributes standing at `i`: each a `#` sign and a bracket group
/// whose first token names the attribute.
pub open spec fn spec_attrs(ts: Seq<Token>, i: int, end: u32) -> Result<(Seq<AttrV>, int), DiagV>
    decreases ts.len() - i,
{
    if !(0 <= i < ts.len() && ts[i].is_punct_char('#')) {
        Ok((Seq::empty(), i))
    } else if i + 1 < ts.len() && (ts[i + 1] matches Token::Group { delim: Delim::Bracket, .. }) {
        let gt = ts[i + 1]->Group_tokens@;
        if gt.len() >= 1 && gt[0] is Ident {
            let a = AttrV {
                name: gt[0]->Ident_text@,
                name_pos: gt[0]->Ident_pos,
                tree: gt.skip(1),
            };
            match spec_attrs(ts, i + 2, end) {
                Ok((rest, j)) => Ok((seq![a] + rest, j)),
                Err(d) => Err(d),
            }
        } else {
            Err(
                DiagV {
                    kind: DiagKindV::UnexpectedToken,
                    pos: if gt.len() >= 1 {
                        gt[0].spec_pos()
                    } else {
                        ts[i + 1].spec_pos()
                    },
                },
            )
        }
    } else {
        Err(DiagV { kind: DiagKindV::UnexpectedToken, pos: spec_pos_at(ts, i + 1, end) })
    }
}

/// Where the input stands once an optional visibility marker (`pub`, with
/// an optional parenthesized restriction) is skipped.
pub open spec fn spec_skip_vis(ts: Seq<Token>, i: int) -> int {
    if 0 <= i < ts.len() && ts[i].is_ident_named("pub"@) {
        if i + 1 < ts.len() && (ts[i + 1] matches Token::Group { delim: Delim::Paren, .. }) {
            i + 2
        } else {
            i + 1
        }
    } else {
        i
    }
}

/// The next position after a parser step that consumed up to `j`: a step
/// always makes at least one token of progress, and never leaves the
/// input.
pub open spec fn advance(len: int, i: int, j: int) -> int {
    let a = if j > i {
        j
    } else {
        i + 1
    };
    if a > len {
        len
    } else {
        a
    }
}

/// The text without one trailing space, as a trailing separator in a
/// tuple type leaves one behind.
pub open spec fn strip_trailing_space(t: Seq<char>) -> Seq<char> {
    if t.len() > 0 && t[t.len() - 1] == ' ' {
        t.drop_last()
    } else {
        t
    }
}

/// The text of the type path standing at `i`, read until a `,` or `;`
/// outside `<`...`>` nesting, or the end of the input.  A parenthesized
/// group is rendered as a tuple type and a bracketed group as an array
/// type; a literal or braced group inside a path is rejected.
pub open spec fn spec_path(ts: Seq<Token>, i: int, nesting: int, end: u32) -> Result<
    (Seq<char>, int),
    DiagV,
>
    decreases ts, ts.len() - i, 0int,
{
    if !(0 <= i < ts.len()) {
        Ok((Seq::empty(), i))
    } else {
        match ts[i] {
            Token::Punct { ch, pos } => if (ch == ',' || ch == ';') && nesting == 0 {
                Ok((Seq::empty(), i))
            } else {
                let n2: int = if ch == '<' {
                    nesting + 1
                } else if ch == '>' && nesting > 0 {
                    nesting - 1
                } else {
                    nesting
                };
                match spec_path(ts, i + 1, n2, end) {
                    Ok((t, j)) => Ok((seq![ch] + t, j)),
                    Err(d) => Err(d),
                }
            },
            Token::Ident { text, pos } => match spec_path(ts, i + 1, nesting, end) {
                Ok((t, j)) => Ok((text@ + t, j)),
                Err(d) => Err(d),
            },
            Token::Literal { repr, pos } => Err(
                DiagV { kind: DiagKindV::UnexpectedToken, pos: pos },
            ),
            Token::Group { delim, tokens, pos } => match spec_group_path(tokens@, delim, pos) {
                Err(d) => Err(d),
                Ok(t) => match spec_path(ts, i + 1, nesting, end) {
                    Ok((t2, j)) => Ok((t + t2, j)),
                    Err(d) => Err(d),
                },
            },
        }
    }
}

/// The text a group inside a type path stands for: a parenthesized group
/// is a tuple type of comma-separated paths, a bracketed group an array
/// type `[path; literal]`; a braced group has no place in a path.
pub open spec fn spec_group_path(g: Seq<Token>, delim: Delim, gpos: u32) -> Result<
    Seq<char>,
    DiagV,
>
    decreases g, g.len() + 1, 0int,
{
    if delim == Delim::Paren {
        match spec_tuple_path_elems(g, 0, gpos) {
            Err(d) => Err(d),
            Ok(t) => Ok(seq!['('] + strip_trailing_space(t) + seq![')']),
        }
    } else if delim == Delim::Bracket {
        match spec_path(g, 0, 0, gpos) {
            Err(d) => Err(d),
            Ok((t, j)) => if j == 0 {
                Err(DiagV { kind: DiagKindV::UnexpectedToken, pos: spec_pos_at(g, 0, gpos) })
            } else if 0 <= j < g.len() && g[j].is_punct_char(';') {
                if j + 1 < g.len() && g[j + 1] is Literal {
                    Ok(seq!['['] + t + "; "@ + g[j + 1]->Literal_repr@ + seq![']'])
                } else {
                    Err(
                        DiagV {
                            kind: DiagKindV::UnexpectedToken,
                            pos: spec_pos_at(g, j + 1, gpos),
                        },
                    )
                }
            } else {
                Err(DiagV { kind: DiagKindV::UnexpectedToken, pos: spec_pos_at(g, j, gpos) })
            },
        }
    } else {
        Err(DiagV { kind: DiagKindV::UnexpectedToken, pos: gpos })
    }
}

/// The comma-separated element paths of a tuple type, `", "` between
/// them; a trailing separator leaves a trailing `", "` for the caller to
/// trim.  An empty element is rejected.
pub open spec fn spec_tuple_path_elems(g: Seq<Token>, k: int, gpos: u32) -> Result<
    Seq<char>,
    DiagV,
>
    decreases g, g.len() - k, 1int,
{
    if !(0 <= k < g.len()) {
        Ok(Seq::empty())
    } else {
        match spec_path(g, k, 0, gpos) {
            Err(d) => Err(d),
            Ok((t, j)) => if j == k {
                Err(DiagV { kind: DiagKindV::UnexpectedToken, pos: spec_pos_at(g, k, gpos) })
            } else if 0 <= j < g.len() {
                if g[j].is_punct_char(',') {
                    match spec_tuple_path_elems(g, advance(g.len() as int, k, j + 1), gpos) {
                        Err(d) => Err(d),
                        Ok(rest) => Ok(t + ", "@ + rest),
                    }
                } else {
                    Err(DiagV { kind: DiagKindV::UnexpectedToken, pos: g[j].spec_pos() })
                }
            } else {
                Ok(t)
            },
        }
    }
}

/// A whole type path: at least one token must belong to it.
pub open spec fn spec_parse_path(ts: Seq<Token>, i: int, end: u32) -> Result<
    (Seq<char>, int),
    DiagV,
> {
    match spec_path(ts, i, 0, end) {
        Ok((t, j)) => if j == i {
            Err(DiagV { kind: DiagKindV::UnexpectedToken, pos: spec_pos_at(ts, i, end) })
        } else {
            Ok((t, j))
        },
        Err(d) => Err(d),
    }
}

/// A cursor over a borrowed token list.  `end_pos` is the position
/// diagnostics point at once the input is exhausted.
pub struct TokenCursor<'a> {
    pub tokens: &'a Vec<Token>,
    pub end_pos: u32,
}

impl<'a> TokenCursor<'a> {
    /// The diagnostic position for the token at `i`.
    pub fn pos_at(&self, i: usize) -> (p: u32)
        ensures
            p == spec_pos_at(self.tokens@, i as int, self.end_pos),
    {
        if i < self.tokens.len() {
            self.tokens[i].pos()
        } else {
            self.end_pos
        }
    }

    /// Whether any input remains at `i`.
    pub fn has_more(&self, i: usize) -> (b: bool)
        ensures
            b == (i < self.tokens@.len()),
    {
        i < self.tokens.len()
    }

    /// Whether the token at `i` is the punctuation `c`.
    pub fn peek_is_punct(&self, i: usize, c: char) -> (b: bool)
        ensures
            b == (i < self.tokens@.len() && self.tokens@[i as int].is_punct_char(c)),
    {
        if i < self.tokens.len() {
            match &self.tokens[i] {
                Token::Punct { ch, .. } => *ch == c,
                _ => false,
            }
        } else {
            false
        }
    }

    /// Consume the identifier `expect`, or fail at the offending token.
    pub fn expect_ident(&self, i: usize, expect: &str) -> (r: (Result<(), Diagnostic>, usize))
        ensures
            (i < self.tokens@.len() && self.tokens@[i as int].is_ident_named(expect@)) ==> (r.0
                is Ok && r.1 == i + 1),
            !(i < self.tokens@.len() && self.tokens@[i as int].is_ident_named(expect@)) ==> (r.0
                matches Err(d) && d@ == DiagV {
                kind: DiagKindV::UnexpectedToken,
                pos: spec_pos_at(self.tokens@, i as int, self.end_pos),
            } && r.1 == i),
    {
        if i < self.tokens.len() {
            match &self.tokens[i] {
                Token::Ident { text, .. } => {
                    if str_eq(text.as_str(), expect) {
                        return (Ok(()), i + 1);
                    }
                },
                _ => {},
            }
        }
        (
            Err(
                Diagnostic { kind: DiagnosticKind::UnexpectedToken, pos: self.pos_at(i) },
            ),
            i,
        )
    }

    /// Consume an identifier, handing back its text and position.
    pub fn try_ident(&self, i: usize) -> (r: (Result<(String, u32), Diagnostic>, usize))
        ensures
            i < self.tokens@.len() ==> (self.tokens@[i as int] matches Token::Ident {
                text,
                pos,
            } ==> (r.0 matches Ok(v) && v.0@ == text@ && v.1 == pos && r.1 == i + 1)),
            !(i < self.tokens@.len() && self.tokens@[i as int] is Ident) ==> (r.0 matches Err(d)
                && d@ == DiagV {
                kind: DiagKindV::UnexpectedToken,
                pos: spec_pos_at(self.tokens@, i as int, self.end_pos),
            } && r.1 == i),
    {
        if i < self.tokens.len() {
            match &self.tokens[i] {
                Token::Ident { text, pos } => {
                    return (Ok((text.clone(), *pos)), i + 1);
                },
                _ => {},
            }
        }
        (
            Err(
                Diagnostic { kind: DiagnosticKind::UnexpectedToken, pos: self.pos_at(i) },
            ),
            i,
        )
    }

    /// Consume a group of any delimiter, handing back its tokens, its
    /// delimiter and its position.
    pub fn try_group(&self, i: usize) -> (r: (
        Result<(&'a Vec<Token>, Delim, u32), Diagnostic>,
        usize,
    ))
        ensures
            i < self.tokens@.len() ==> (self.tokens@[i as int] matches Token::Group {
                delim,
                tokens,
                pos,
            } ==> (r.0 matches Ok(v) && v.0@ == tokens@ && v.1 == delim && v.2 == pos && r.1 == i
                + 1)),
            !(i < self.tokens@.len() && self.tokens@[i as int] is Group) ==> (r.0 matches Err(d)
                && d@ == DiagV {
                kind: DiagKindV::UnexpectedToken,
                pos: spec_pos_at(self.tokens@, i as int, self.end_pos),
            } && r.1 == i),
    {
        if i < self.tokens.len() {
            match &self.tokens[i] {
                Token::Group { delim, tokens, pos } => {
                    return (Ok((tokens, *delim, *pos)), i + 1);
                },
                _ => {},
            }
        }
        (
            Err(
                Diagnostic { kind: DiagnosticKind::UnexpectedToken, pos: self.pos_at(i) },
            ),
            i,
        )
    }

    /// Consume a group with the expected delimiter, or fail at the
    /// offending token.
    pub fn expect_group(&self, i: usize, expect: Delim) -> (r: (
        Result<(&'a Vec<Token>, u32), Diagnostic>,
        usize,
    ))
        ensures
            i < self.tokens@.len() ==> (self.tokens@[i as int] matches Token::Group {
                delim,
                tokens,
                pos,
            } ==> (delim == expect ==> (r.0 matches Ok(v) && v.0@ == tokens@ && v.1 == pos && r.1
                == i + 1))),
            !(i < self.tokens@.len() && (self.tokens@[i as int] matches Token::Group { delim, .. }
                && delim == expect)) ==> (r.0 matches Err(d) && d@ == DiagV {
                kind: DiagKindV::UnexpectedToken,
                pos: spec_pos_at(self.tokens@, i as int, self.end_pos),
            } && r.1 == i),
    {
        if i < self.tokens.len() {
            match &self.tokens[i] {
                Token::Group { delim, tokens, pos } => {
                    if *delim == expect {
                        return (Ok((tokens, *pos)), i + 1);
                    }
                },
                _ => {},
            }
        }
        (
            Err(
                Diagnostic { kind: DiagnosticKind::UnexpectedToken, pos: self.pos_at(i) },
            ),
            i,
        )
    }

    /// Consume the punctuation `expect`, or fail at the offending token.
    pub fn expect_punct(&self, i: usize, expect: char) -> (r: (Result<(), Diagnostic>, usize))
        ensures
            (i < self.tokens@.len() && self.tokens@[i as int].is_punct_char(expect)) ==> (r.0
                is Ok && r.1 == i + 1),
            !(i < self.tokens@.len() && self.tokens@[i as int].is_punct_char(expect)) ==> (r.0
                matches Err(d) && d@ == DiagV {
                kind: DiagKindV::UnexpectedToken,
                pos: spec_pos_at(self.tokens@, i as int, self.end_pos),
            } && r.1 == i),
    {
        if i < self.tokens.len() && self.peek_is_punct(i, expect) {
            (Ok(()), i + 1)
        } else {
            (
                Err(
                    Diagnostic { kind: DiagnosticKind::UnexpectedToken, pos: self.pos_at(i) },
                ),
                i,
            )
        }
    }

    /// Consume the punctuation `c` if it stands at `i`; a trailing
    /// separator is optional.
    pub fn eat_punct(&self, i: usize, c: char) -> (next: usize)
        ensures
            next == if i < self.tokens@.len() && self.tokens@[i as int].is_punct_char(c) {
                i + 1
            } else {
                i as int
            },
    {
        if i < self.tokens.len() && self.peek_is_punct(i, c) {
            i + 1
        } else {
            i
        }
    }

    /// Consume a string literal and hand back the string it stands for,
    /// escape pairs resolved.
    pub fn try_lit_string(&self, i: usize) -> (r: (Result<String, Diagnostic>, usize))
        ensures
            i < self.tokens@.len() ==> (self.tokens@[i as int] matches Token::Literal {
                repr,
                pos,
            } ==> (match lit_string_val(repr@) {
                Some(t) => r.0 matches Ok(s) && s@ == t && r.1 == i + 1,
                None => r.0 matches Err(d) && d@ == DiagV {
                    kind: DiagKindV::UnexpectedToken,
                    pos: pos,
                } && r.1 == i + 1,
            })),
            !(i < self.tokens@.len() && self.tokens@[i as int] is Literal) ==> (r.0 matches Err(d)
                && d@ == DiagV {
                kind: DiagKindV::UnexpectedToken,
                pos: spec_pos_at(self.tokens@, i as int, self.end_pos),
            } && r.1 == i),
    {
        if i < self.tokens.len() {
            match &self.tokens[i] {
                Token::Literal { repr, pos } => {
                    let n = repr.as_str().unicode_len();
                    if n >= 2 && repr.as_str().get_char(0) == '"' && repr.as_str().get_char(n - 1)
                        == '"' {
                        let body = repr.as_str().substring_char(1, n - 1);
                        return (Ok(unescape(body)), i + 1);
                    } else {
                        return (
                            (
                                Err(
                                    Diagnostic {
                                        kind: DiagnosticKind::UnexpectedToken,
                                        pos: *pos,
                                    },
                                ),
                                i + 1,
                            )
                        );
                    }
                },
                _ => {},
            }
        }
        (
            Err(
                Diagnostic { kind: DiagnosticKind::UnexpectedToken, pos: self.pos_at(i) },
            ),
            i,
        )
    }

    /// Read the `#[...]` attributes standing at `i`.
    pub fn parse_attributes(&self, i: usize) -> (r: (
        Result<Vec<Attribute<'a>>, Diagnostic>,
        usize,
    ))
        requires
            i <= self.tokens@.len(),
        ensures
            match spec_attrs(self.tokens@, i as int, self.end_pos) {
                Ok(p) => r.0 matches Ok(v) && v@.map_values(|a: Attribute| a@) == p.0 && r.1 == p.1,
                Err(d) => r.0 matches Err(e) && e@ == d,
            },
            r.1 <= self.tokens@.len(),
        decreases self.tokens@.len() - i,
    {
        if !(i < self.tokens.len() && self.peek_is_punct(i, '#')) {
            let v: Vec<Attribute<'a>> = Vec::new();
            proof {
                assert(v@.map_values(|a: Attribute| a@) =~= Seq::<AttrV>::empty());
            }
            return (Ok(v), i);
        }
        let (g, gnext) = self.expect_group(i + 1, Delim::Bracket);
        match g {
            Err(d) => (Err(d), i),
            Ok((gt, gpos)) => {
                if gt.len() == 0 {
                    return (
                        (
                            Err(
                                Diagnostic { kind: DiagnosticKind::UnexpectedToken, pos: gpos },
                            ),
                            i,
                        )
                    );
                }
                match &gt[0] {
                    Token::Ident { text, pos } => {
                        let attr = Attribute { name: text.clone(), name_pos: *pos, group: gt };
                        let (rest, j) = self.parse_attributes(gnext);
                        match rest {
                            Ok(mut v) => {
                                let ghost tail = v@.map_values(|a: Attribute| a@);
                                v.insert(0, attr);
                                proof {
                                    assert(v@.map_values(|a: Attribute| a@) =~= seq![attr@]
                                        + tail);
                                }
                                (Ok(v), j)
                            },
                            Err(d) => (Err(d), i),
                        }
                    },
                    t => {
                        (
                            Err(
                                Diagnostic {
                                    kind: DiagnosticKind::UnexpectedToken,
                                    pos: t.pos(),
                                },
                            ),
                            i,
                        )
                    },
                }
            },
        }
    }

    /// Skip an optional visibility marker.
    pub fn parse_visibility(&self, i: usize) -> (next: usize)
        ensures
            next == spec_skip_vis(self.tokens@, i as int),
    {
        if i < self.tokens.len() {
            match &self.tokens[i] {
                Token::Ident { text, .. } => {
                    if str_eq(text.as_str(), "pub") {
                        if i + 1 < self.tokens.len() {
                            match &self.tokens[i + 1] {
                                Token::Group { delim: Delim::Paren, .. } => {
                                    return i + 2;
                                },
                                _ => {},
                            }
                        }
                        return i + 1;
                    }
                },
                _ => {},
            }
        }
        i
    }

    fn path_rec(&self, i: usize, nesting: usize, out: &mut Vec<char>) -> (r: (
        Result<(), Diagnostic>,
        usize,
    ))
        requires
            i <= self.tokens@.len(),
            nesting <= i,
        ensures
            match spec_path(self.tokens@, i as int, nesting as int, self.end_pos) {
                Ok(p) => r.0 is Ok && final(out)@ == old(out)@ + p.0 && r.1 == p.1,
                Err(d) => r.0 matches Err(e) && e@ == d,
            },
            r.1 <= self.tokens@.len(),
        decreases self.tokens@, self.tokens@.len() - i, 0int,
    {
        if i >= self.tokens.len() {
            proof {
                assert(out@ =~= old(out)@ + Seq::<char>::empty());
            }
            return (Ok(()), i);
        }
        match &self.tokens[i] {
            Token::Punct { ch, pos } => {
                if (*ch == ',' || *ch == ';') && nesting == 0 {
                    proof {
                        assert(out@ =~= old(out)@ + Seq::<char>::empty());
                    }
                    (Ok(()), i)
                } else {
                    let n2: usize = if *ch == '<' {
                        nesting + 1
                    } else if *ch == '>' && nesting > 0 {
                        nesting - 1
                    } else {
                        nesting
                    };
                    let c = *ch;
                    out.push(c);
                    let rr = self.path_rec(i + 1, n2, out);
                    proof {
                        match spec_path(self.tokens@, i as int + 1, n2 as int, self.end_pos) {
                            Ok(p) => {
                                assert(out@ =~= old(out)@ + (seq![c] + p.0));
                            },
                            Err(_) => {},
                        }
                    }
                    rr
                }
            },
            Token::Ident { text, .. } => {
                push_str_chars(text.as_str(), out);
                let rr = self.path_rec(i + 1, nesting, out);
                proof {
                    match spec_path(self.tokens@, i as int + 1, nesting as int, self.end_pos) {
                        Ok(p) => {
                            assert(out@ =~= old(out)@ + (text@ + p.0));
                        },
                        Err(_) => {},
                    }
                }
                rr
            },
            Token::Literal { pos, .. } => {
                (
                    Err(
                        Diagnostic { kind: DiagnosticKind::UnexpectedToken, pos: *pos },
                    ),
                    i,
                )
            },
            Token::Group { delim, tokens, pos } => {
                proof {
                    let t = self.tokens@[i as int];
                    assert(decreases_to!(self.tokens@ => t));
                    assert(decreases_to!(t => t->Group_tokens));
                    assert(decreases_to!(t->Group_tokens => t->Group_tokens@));
                    assert(decreases_to!(self.tokens@ => tokens@));
                }
                match group_path(tokens, *delim, *pos) {
                    Err(d) => (Err(d), i),
                    Ok(gtext) => {
                        push_chars(&gtext, out);
                        let rr = self.path_rec(i + 1, nesting, out);
                        proof {
                            match spec_path(
                                self.tokens@,
                                i as int + 1,
                                nesting as int,
                                self.end_pos,
                            ) {
                                Ok(p) => {
                                    assert(out@ =~= old(out)@ + (gtext@ + p.0));
                                },
                                Err(_) => {},
                            }
                        }
                        rr
                    },
                }
            },
        }
    }

    /// Read a type path into a string, or fail where no path stands.
    pub fn parse_path(&self, i: usize) -> (r: (Result<String, Diagnostic>, usize))
        requires
            i <= self.tokens@.len(),
        ensures
            match spec_parse_path(self.tokens@, i as int, self.end_pos) {
                Ok(p) => r.0 matches Ok(s) && s@ == p.0 && r.1 == p.1,
                Err(d) => r.0 matches Err(e) && e@ == d,
            },
            r.1 <= self.tokens@.len(),
    {
        let mut v: Vec<char> = Vec::new();
        let (res, j) = self.path_rec(i, 0, &mut v);
        match res {
            Ok(_) => {
                if j == i {
                    (
                        Err(
                            Diagnostic {
                                kind: DiagnosticKind::UnexpectedToken,
                                pos: self.pos_at(i),
                            },
                        ),
                        i,
                    )
                } else {
                    (Ok(chars_to_string(&v)), j)
                }
            },
            Err(d) => (Err(d), i),
        }
    }
}


fn tuple_path_elems(g: &Vec<Token>, k: usize, gpos: u32, out: &mut Vec<char>) -> (r: Result<
    (),
    Diagnostic,
>)
    requires
        k <= g@.len(),
    ensures
        match spec_tuple_path_elems(g@, k as int, gpos) {
            Ok(t) => r is Ok && final(out)@ == old(out)@ + t,
            Err(d) => r matches Err(e) && e@ == d,
        },
    decreases g@, g@.len() - k, 1int,
{
    if k >= g.len() {
        proof {
            assert(out@ =~= old(out)@ + Seq::<char>::empty());
        }
        return Ok(());
    }
    let sub = TokenCursor { tokens: g, end_pos: gpos };
    let (res, j) = sub.path_rec(k, 0, out);
    match res {
        Err(d) => Err(d),
        Ok(_) => {
            if j == k {
                return Err(
                    Diagnostic { kind: DiagnosticKind::UnexpectedToken, pos: sub.pos_at(k) },
                );
            }
            if j < g.len() {
                if sub.peek_is_punct(j, ',') {
                    push_str_chars(", ", out);
                    let nx0 = if j + 1 > k {
                        j + 1
                    } else {
                        k + 1
                    };
                    let nx = if nx0 > g.len() {
                        g.len()
                    } else {
                        nx0
                    };
                    proof {
                        assert(nx == advance(g@.len() as int, k as int, j as int + 1));
                    }
                    let rr = tuple_path_elems(g, nx, gpos, out);
                    proof {
                        match spec_tuple_path_elems(g@, nx as int, gpos) {
                            Ok(rest) => {
                                match spec_path(g@, k as int, 0, gpos) {
                                    Ok(p) => {
                                        assert(out@ =~= old(out)@ + (p.0 + ", "@ + rest));
                                    },
                                    Err(_) => {},
                                }
                            },
                            Err(_) => {},
                        }
                    }
                    rr
                } else {
                    Err(Diagnostic { kind: DiagnosticKind::UnexpectedToken, pos: g[j].pos() })
                }
            } else {
                Ok(())
            }
        },
    }
}

fn group_path(g: &Vec<Token>, delim: Delim, gpos: u32) -> (r: Result<Vec<char>, Diagnostic>)
    ensures
        match spec_group_path(g@, delim, gpos) {
            Ok(t) => r matches Ok(v) && v@ == t,
            Err(d) => r matches Err(e) && e@ == d,
        },
    decreases g@, g@.len() + 1, 0int,
{
    match delim {
        Delim::Paren => {
            let mut v: Vec<char> = Vec::new();
            v.push('(');
            match tuple_path_elems(g, 0, gpos, &mut v) {
                Err(d) => Err(d),
                Ok(_) => {
                    let ghost t = match spec_tuple_path_elems(g@, 0, gpos) {
                        Ok(t) => t,
                        Err(_) => Seq::empty(),
                    };
                    proof {
                        assert(v@ == seq!['('] + t);
                    }
                    let n = v.len();
                    if n > 0 && v[n - 1] == ' ' {
                        let _ = v.pop();
                        proof {
                            assert(v@ =~= seq!['('] + strip_trailing_space(t));
                        }
                    } else {
                        proof {
                            assert(v@ =~= seq!['('] + strip_trailing_space(t));
                        }
                    }
                    v.push(')');
                    proof {
                        assert(v@ =~= seq!['('] + strip_trailing_space(t) + seq![')']);
                    }
                    Ok(v)
                },
            }
        },
        Delim::Bracket => {
            let sub = TokenCursor { tokens: g, end_pos: gpos };
            let mut v: Vec<char> = Vec::new();
            v.push('[');
            let (res, j) = sub.path_rec(0, 0, &mut v);
            match res {
                Err(d) => Err(d),
                Ok(_) => {
                    if j == 0 {
                        return Err(
                            Diagnostic {
                                kind: DiagnosticKind::UnexpectedToken,
                                pos: sub.pos_at(0),
                            },
                        );
                    }
                    let (semi, j2) = sub.expect_punct(j, ';');
                    match semi {
                        Err(d) => Err(d),
                        Ok(_) => {
                            if j2 < g.len() {
                                match &g[j2] {
                                    Token::Literal { repr, .. } => {
                                        push_str_chars("; ", &mut v);
                                        push_str_chars(repr.as_str(), &mut v);
                                        v.push(']');
                                        proof {
                                            match spec_path(g@, 0, 0, gpos) {
                                                Ok(p) => {
                                                    assert(v@ =~= seq!['['] + p.0 + "; "@
                                                        + repr@ + seq![']']);
                                                },
                                                Err(_) => {},
                                            }
                                        }
                                        Ok(v)
                                    },
                                    other => Err(
                                        Diagnostic {
                                            kind: DiagnosticKind::UnexpectedToken,
                                            pos: other.pos(),
                                        },
                                    ),
                                }
                            } else {
                                Err(
                                    Diagnostic {
                                        kind: DiagnosticKind::UnexpectedToken,
                                        pos: sub.pos_at(j2),
                                    },
                                )
                            }
                        },
                    }
                },
            }
        },
        Delim::Brace => Err(Diagnostic { kind: DiagnosticKind::UnexpectedToken, pos: gpos }),
    }
}

} // verus!
