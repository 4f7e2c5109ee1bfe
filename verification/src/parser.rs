//! The model builder: from the token form of an enum definition to the
//! structured model, with variant-level validation.
//!
//! Every parsing function is specified against a spec-level parse of the
//! token sequence, so the model built — or the diagnostic returned — is
//! pinned down exactly for every input.

use vstd::prelude::*;

use crate::cursor::{
    advance, lit_string_val, spec_attrs, spec_parse_path, spec_pos_at, spec_skip_vis, AttrV,
    Attribute, TokenCursor,
};
use crate::model::{
    key_pos, lemma_key_pos_absent, lemma_key_pos_unique, lemma_map_keys, DiagKindV, DiagV,
    Diagnostic, DiagnosticKind, Error, ErrorSource, ErrorV, OrderedMap, SourceV, Variant,
    VariantType, VariantV,
};
use crate::text::{
    chars_to_string, dec_str, extract_placeholders, extracted_from, lemma_dec_str_injective,
    push_str_chars, rewrite_positional, rewritten_from, str_eq, unescape, usize_to_string,
};
use crate::tokens::{Delim, Token};

verus! {

/// One parsed field: its attributes and the text of its type path.
pub struct Field<'a> {
    pub attrs: Vec<Attribute<'a>>,
    pub path: String,
}

/// The mathematical shape of one parsed field.
pub ghost struct FieldV {
    pub attrs: Seq<AttrV>,
    pub path: Seq<char>,
}

impl<'a> View for Field<'a> {
    type V = FieldV;

    open spec fn view(&self) -> FieldV {
        FieldV { attrs: self.attrs@.map_values(|a: Attribute| a@), path: self.path@ }
    }
}

/// Where the input stands once an optional `c` is consumed.
pub open spec fn spec_eat(ts: Seq<Token>, i: int, c: char) -> int {
    if 0 <= i < ts.len() && ts[i].is_punct_char(c) {
        i + 1
    } else {
        i
    }
}

/// Insertion into an ordered key-value sequence: an existing key keeps its
/// position and takes the new value, a fresh key goes to the back.
pub open spec fn spec_insert<V>(ps: Seq<(Seq<char>, V)>, k: Seq<char>, v: V) -> Seq<
    (Seq<char>, V),
> {
    if key_pos(ps, k) >= 0 {
        ps.update(key_pos(ps, k), (k, v))
    } else {
        ps.push((k, v))
    }
}

/// One tuple field: attributes, a type path, an optional trailing comma.
pub open spec fn spec_tuple_field(g: Seq<Token>, i: int, end: u32) -> Result<(FieldV, int), DiagV> {
    match spec_attrs(g, i, end) {
        Err(d) => Err(d),
        Ok((attrs, j)) => match spec_parse_path(g, j, end) {
            Err(d) => Err(d),
            Ok((path, k)) => Ok((FieldV { attrs, path }, spec_eat(g, k, ','))),
        },
    }
}

/// The whole tuple field list, keys counting up in decimal from `idx`,
/// accumulated onto `acc`.
pub open spec fn spec_tuple_fields(
    g: Seq<Token>,
    i: int,
    idx: nat,
    acc: Seq<(Seq<char>, FieldV)>,
    end: u32,
) -> Result<Seq<(Seq<char>, FieldV)>, DiagV>
    decreases g.len() - i,
{
    if !(0 <= i < g.len()) {
        Ok(acc)
    } else {
        match spec_tuple_field(g, i, end) {
            Err(d) => Err(d),
            Ok((f, j)) => spec_tuple_fields(
                g,
                advance(g.len() as int, i, j),
                idx + 1,
                acc.push((dec_str(idx), f)),
                end,
            ),
        }
    }
}

/// One struct field: attributes, a name, `:`, a type path, an optional
/// trailing comma.
pub open spec fn spec_struct_field(g: Seq<Token>, i: int, end: u32) -> Result<
    ((Seq<char>, FieldV), int),
    DiagV,
> {
    match spec_attrs(g, i, end) {
        Err(d) => Err(d),
        Ok((attrs, j)) => if !(0 <= j < g.len() && g[j] is Ident) {
            Err(DiagV { kind: DiagKindV::UnexpectedToken, pos: spec_pos_at(g, j, end) })
        } else {
            let name = g[j]->Ident_text@;
            if !(j + 1 < g.len() && g[j + 1].is_punct_char(':')) {
                Err(DiagV { kind: DiagKindV::UnexpectedToken, pos: spec_pos_at(g, j + 1, end) })
            } else {
                match spec_parse_path(g, j + 2, end) {
                    Err(d) => Err(d),
                    Ok((path, k)) => Ok(((name, FieldV { attrs, path }), spec_eat(g, k, ','))),
                }
            }
        },
    }
}

/// The whole struct field list, accumulated onto `acc`; a repeated name
/// keeps its position and takes the later field.
pub open spec fn spec_struct_fields(
    g: Seq<Token>,
    i: int,
    acc: Seq<(Seq<char>, FieldV)>,
    end: u32,
) -> Result<Seq<(Seq<char>, FieldV)>, DiagV>
    decreases g.len() - i,
{
    if !(0 <= i < g.len()) {
        Ok(acc)
    } else {
        match spec_struct_field(g, i, end) {
            Err(d) => Err(d),
            Ok(((k, f), j)) => spec_struct_fields(
                g,
                advance(g.len() as int, i, j),
                spec_insert(acc, k, f),
                end,
            ),
        }
    }
}

/// The cause marker the attributes of the field holding `key` leave
/// behind, starting from marker state `cur`: a second marker anywhere is a
/// duplicate, and a conversion source demands a single-field variant.
pub open spec fn spec_resolve_attrs(
    key: Seq<char>,
    attrs: Seq<AttrV>,
    ai: int,
    cur: SourceV,
    nfields: nat,
    vpos: u32,
) -> Result<SourceV, DiagV>
    decreases attrs.len() - ai,
{
    if !(0 <= ai < attrs.len()) {
        Ok(cur)
    } else {
        let a = attrs[ai];
        if a.name == "from"@ || a.name == "source"@ {
            match cur {
                SourceV::From(p) => Err(
                    DiagV {
                        kind: DiagKindV::DuplicateCauseMarker { first_field: p },
                        pos: a.name_pos,
                    },
                ),
                SourceV::Source(p) => Err(
                    DiagV {
                        kind: DiagKindV::DuplicateCauseMarker { first_field: p },
                        pos: a.name_pos,
                    },
                ),
                SourceV::NoSource => if a.name == "from"@ {
                    if nfields > 1 {
                        Err(DiagV { kind: DiagKindV::ConversionArityError, pos: vpos })
                    } else {
                        spec_resolve_attrs(key, attrs, ai + 1, SourceV::From(key), nfields, vpos)
                    }
                } else {
                    spec_resolve_attrs(key, attrs, ai + 1, SourceV::Source(key), nfields, vpos)
                },
            }
        } else {
            spec_resolve_attrs(key, attrs, ai + 1, cur, nfields, vpos)
        }
    }
}

/// The cause marker the whole field list leaves behind, fields scanned in
/// order from `fi`.
pub open spec fn spec_resolve(
    fields: Seq<(Seq<char>, FieldV)>,
    fi: int,
    cur: SourceV,
    nfields: nat,
    vpos: u32,
) -> Result<SourceV, DiagV>
    decreases fields.len() - fi,
{
    if !(0 <= fi < fields.len()) {
        Ok(cur)
    } else {
        match spec_resolve_attrs(fields[fi].0, fields[fi].1.attrs, 0, cur, nfields, vpos) {
            Err(d) => Err(d),
            Ok(c2) => spec_resolve(fields, fi + 1, c2, nfields, vpos),
        }
    }
}

/// The first `error` attribute's parenthesized tree, when it has one.
pub open spec fn spec_find_error(attrs: Seq<AttrV>, i: int) -> Option<(Seq<Token>, u32)>
    decreases attrs.len() - i,
{
    if !(0 <= i < attrs.len()) {
        None
    } else if attrs[i].name == "error"@ {
        if attrs[i].tree.len() >= 1 && (attrs[i].tree[0] matches Token::Group {
            delim: Delim::Paren,
            ..
        }) {
            Some((attrs[i].tree[0]->Group_tokens@, attrs[i].tree[0]->Group_pos))
        } else {
            None
        }
    } else {
        spec_find_error(attrs, i + 1)
    }
}

/// The string literal a message attribute's group must open with.
pub open spec fn spec_lit_from_group(g: Seq<Token>, gpos: u32) -> Result<Seq<char>, DiagV> {
    if g.len() >= 1 && g[0] is Literal {
        match lit_string_val(g[0]->Literal_repr@) {
            Some(t) => Ok(t),
            None => Err(DiagV { kind: DiagKindV::UnexpectedToken, pos: g[0].spec_pos() }),
        }
    } else {
        Err(
            DiagV {
                kind: DiagKindV::UnexpectedToken,
                pos: if g.len() >= 1 {
                    g[0].spec_pos()
                } else {
                    gpos
                },
            },
        )
    }
}

/// What one attribute contributes to the doc-comment text: the string of a
/// `doc = "..."` attribute, nothing otherwise.
pub open spec fn spec_doc_line(a: AttrV) -> Seq<char> {
    if a.name == "doc"@ && a.tree.len() >= 2 && a.tree[0].is_punct_char('=') && a.tree[1]
        is Literal && lit_string_val(a.tree[1]->Literal_repr@) is Some {
        lit_string_val(a.tree[1]->Literal_repr@)->0
    } else {
        Seq::empty()
    }
}

/// The doc-comment lines of the attributes from `i` on, concatenated in
/// order.
pub open spec fn spec_doc_text(attrs: Seq<AttrV>, i: int) -> Seq<char>
    decreases attrs.len() - i,
{
    if !(0 <= i < attrs.len()) {
        Seq::empty()
    } else {
        spec_doc_line(attrs[i]) + spec_doc_text(attrs, i + 1)
    }
}

/// The display template of a variant: the message attribute's literal —
/// positional placeholders rewritten for a tuple variant — or, without
/// one, the concatenated doc comments.
pub open spec fn spec_display(
    attrs: Seq<AttrV>,
    ty: VariantType,
    nfields: nat,
) -> Result<Seq<char>, DiagV> {
    match spec_find_error(attrs, 0) {
        Some((g, gpos)) => match spec_lit_from_group(g, gpos) {
            Err(d) => Err(d),
            Ok(t) => Ok(
                if ty == VariantType::Tuple {
                    rewritten_from(t, 0, nfields)
                } else {
                    t
                },
            ),
        },
        None => Ok(spec_doc_text(attrs, 0)),
    }
}

/// The finished shape of a variant, given everything parsed for it.
pub open spec fn spec_make_variant(
    name: Seq<char>,
    name_pos: u32,
    ty: VariantType,
    fpairs: Seq<(Seq<char>, FieldV)>,
    src: SourceV,
    display: Seq<char>,
) -> VariantV {
    VariantV {
        name,
        name_pos,
        ty,
        fields: fpairs.map_values(|p: (Seq<char>, FieldV)| (p.0, p.1.path)),
        display,
        display_fields: extracted_from(display, 0),
        source: src,
    }
}

/// One whole variant: attributes, a name, an optional field group with its
/// marker resolution, an optional comma, and the display template.
pub open spec fn spec_variant(ts: Seq<Token>, i: int, end: u32) -> Result<(VariantV, int), DiagV> {
    match spec_attrs(ts, i, end) {
        Err(d) => Err(d),
        Ok((attrs, j)) => if !(0 <= j < ts.len() && ts[j] is Ident) {
            Err(DiagV { kind: DiagKindV::UnexpectedToken, pos: spec_pos_at(ts, j, end) })
        } else {
            let name = ts[j]->Ident_text@;
            let npos = ts[j]->Ident_pos;
            if j + 1 < ts.len() && ts[j + 1] is Group {
                let delim = ts[j + 1]->Group_delim;
                let g = ts[j + 1]->Group_tokens@;
                let gpos = ts[j + 1]->Group_pos;
                if delim == Delim::Bracket {
                    Err(DiagV { kind: DiagKindV::UnexpectedToken, pos: gpos })
                } else {
                    let ty = if delim == Delim::Paren {
                        VariantType::Tuple
                    } else {
                        VariantType::Struct
                    };
                    let fres = if delim == Delim::Paren {
                        spec_tuple_fields(g, 0, 0, Seq::empty(), gpos)
                    } else {
                        spec_struct_fields(g, 0, Seq::empty(), gpos)
                    };
                    match fres {
                        Err(d) => Err(d),
                        Ok(fpairs) => match spec_resolve(
                            fpairs,
                            0,
                            SourceV::NoSource,
                            fpairs.len(),
                            npos,
                        ) {
                            Err(d) => Err(d),
                            Ok(src) => match spec_display(attrs, ty, fpairs.len()) {
                                Err(d) => Err(d),
                                Ok(disp) => Ok(
                                    (
                                        spec_make_variant(name, npos, ty, fpairs, src, disp),
                                        spec_eat(ts, j + 2, ','),
                                    ),
                                ),
                            },
                        },
                    }
                }
            } else {
                match spec_display(attrs, VariantType::Unit, 0) {
                    Err(d) => Err(d),
                    Ok(disp) => Ok(
                        (
                            spec_make_variant(
                                name,
                                npos,
                                VariantType::Unit,
                                Seq::empty(),
                                SourceV::NoSource,
                                disp,
                            ),
                            spec_eat(ts, j + 1, ','),
                        ),
                    ),
                }
            }
        },
    }
}

/// Every variant of the enum body, accumulated onto `acc`.
pub open spec fn spec_variants(
    ts: Seq<Token>,
    i: int,
    acc: Seq<VariantV>,
    end: u32,
) -> Result<Seq<VariantV>, DiagV>
    decreases ts.len() - i,
{
    if !(0 <= i < ts.len()) {
        Ok(acc)
    } else {
        match spec_variant(ts, i, end) {
            Err(d) => Err(d),
            Ok((v, j)) => spec_variants(ts, advance(ts.len() as int, i, j), acc.push(v), end),
        }
    }
}

/// Whether some attribute carries the given name.
pub open spec fn spec_has_attr(attrs: Seq<AttrV>, name: Seq<char>) -> bool {
    exists|q: int| 0 <= q < attrs.len() && attrs[q].name == name
}

/// The whole enum definition: outer attributes (watching for
/// `no_display`), a visibility marker, the `enum` keyword, a name, the
/// brace-delimited variant list, and nothing after it.
pub open spec fn spec_enum(ts: Seq<Token>, end: u32) -> Result<ErrorV, DiagV> {
    match spec_attrs(ts, 0, end) {
        Err(d) => Err(d),
        Ok((attrs, i0)) => {
            let nd = spec_has_attr(attrs, "no_display"@);
            let i1 = spec_skip_vis(ts, i0);
            if !(0 <= i1 < ts.len() && ts[i1].is_ident_named("enum"@)) {
                Err(DiagV { kind: DiagKindV::UnexpectedToken, pos: spec_pos_at(ts, i1, end) })
            } else if !(i1 + 1 < ts.len() && ts[i1 + 1] is Ident) {
                Err(DiagV { kind: DiagKindV::UnexpectedToken, pos: spec_pos_at(ts, i1 + 1, end) })
            } else {
                let name = ts[i1 + 1]->Ident_text@;
                if !(i1 + 2 < ts.len() && (ts[i1 + 2] matches Token::Group {
                    delim: Delim::Brace,
                    ..
                })) {
                    Err(
                        DiagV {
                            kind: DiagKindV::UnexpectedToken,
                            pos: spec_pos_at(ts, i1 + 2, end),
                        },
                    )
                } else {
                    let g = ts[i1 + 2]->Group_tokens@;
                    let gpos = ts[i1 + 2]->Group_pos;
                    match spec_variants(g, 0, Seq::empty(), gpos) {
                        Err(d) => Err(d),
                        Ok(vs) => if i1 + 3 < ts.len() {
                            Err(
                                DiagV {
                                    kind: DiagKindV::TrailingTokens,
                                    pos: ts[i1 + 3].spec_pos(),
                                },
                            )
                        } else {
                            Ok(ErrorV { name, no_display: nd, variants: vs })
                        },
                    }
                }
            }
        },
    }
}


/// The pairs of an ordered field map, fields abstracted to their shapes.
pub open spec fn pairs_view<'a>(m: &OrderedMap<Field<'a>>) -> Seq<(Seq<char>, FieldV)> {
    m.spec_pairs().map_values(|p: (Seq<char>, Field<'a>)| (p.0, p.1@))
}

/// The shapes of a borrowed attribute list.
pub open spec fn attrs_view<'a>(attrs: &Vec<Attribute<'a>>) -> Seq<AttrV> {
    attrs@.map_values(|a: Attribute<'a>| a@)
}

/// The shapes of an ordered key-field list.
pub open spec fn pairs_seq_view<'a>(ps: Seq<(String, Field<'a>)>) -> Seq<(Seq<char>, FieldV)> {
    ps.map_values(|p: (String, Field<'a>)| (p.0@, p.1@))
}

/// The keys a tuple field map holds after `idx` fields: `0` up to
/// `idx - 1`, in decimal.
pub open spec fn dec_keys(idx: nat) -> Seq<Seq<char>> {
    Seq::new(idx, |t: int| dec_str(t as nat))
}

/// Read one tuple field at `i`.
pub fn parse_tuple_field<'a>(input: &TokenCursor<'a>, i: usize) -> (r: (
    Result<Field<'a>, Diagnostic>,
    usize,
))
    requires
        i <= input.tokens@.len(),
    ensures
        match spec_tuple_field(input.tokens@, i as int, input.end_pos) {
            Ok(p) => r.0 matches Ok(f) && f@ == p.0 && r.1 == p.1,
            Err(d) => r.0 matches Err(e) && e@ == d,
        },
{
    let (ares, j) = input.parse_attributes(i);
    let attrs = match ares {
        Ok(a) => a,
        Err(d) => return (Err(d), i),
    };
    let (pres, k) = input.parse_path(j);
    let path = match pres {
        Ok(p) => p,
        Err(d) => return (Err(d), i),
    };
    let next = input.eat_punct(k, ',');
    (Ok(Field { attrs, path }), next)
}

/// Read one struct field (`name: Type`) at `i`.
pub fn parse_struct_field<'a>(input: &TokenCursor<'a>, i: usize) -> (r: (
    Result<(String, Field<'a>), Diagnostic>,
    usize,
))
    requires
        i <= input.tokens@.len(),
    ensures
        match spec_struct_field(input.tokens@, i as int, input.end_pos) {
            Ok(p) => r.0 matches Ok(kf) && kf.0@ == p.0.0 && kf.1@ == p.0.1 && r.1 == p.1,
            Err(d) => r.0 matches Err(e) && e@ == d,
        },
{
    let (ares, j) = input.parse_attributes(i);
    let attrs = match ares {
        Ok(a) => a,
        Err(d) => return (Err(d), i),
    };
    let (ires, j1) = input.try_ident(j);
    let (name, _npos) = match ires {
        Ok(p) => p,
        Err(d) => return (Err(d), i),
    };
    let (cres, j2) = input.expect_punct(j1, ':');
    match cres {
        Ok(_) => {},
        Err(d) => return (Err(d), i),
    }
    let (pres, k) = input.parse_path(j2);
    let path = match pres {
        Ok(p) => p,
        Err(d) => return (Err(d), i),
    };
    let next = input.eat_punct(k, ',');
    (Ok((name, Field { attrs, path })), next)
}

fn tuple_rec<'a>(cur: &TokenCursor<'a>, i: usize, idx: usize, m: &mut OrderedMap<Field<'a>>) -> (r:
    Result<(), Diagnostic>)
    requires
        i <= cur.tokens@.len(),
        idx + (cur.tokens@.len() - i) <= usize::MAX,
        old(m).spec_keys() == dec_keys(idx as nat),
        old(m).wf(),
    ensures
        match spec_tuple_fields(
            cur.tokens@,
            i as int,
            idx as nat,
            pairs_view(old(m)),
            cur.end_pos,
        ) {
            Ok(ps) => r is Ok && pairs_view(final(m)) == ps && final(m).wf(),
            Err(d) => r matches Err(e) && e@ == d,
        },
    decreases cur.tokens@.len() - i,
{
    let len = cur.tokens.len();
    if i >= len {
        return Ok(());
    }
    let (fres, j) = parse_tuple_field(cur, i);
    match fres {
        Err(d) => Err(d),
        Ok(f) => {
            let key = usize_to_string(idx);
            let ghost fv = f@;
            let ghost fx = f;
            let prev = m.insert(key, f);
            proof {
                lemma_map_keys(old(m));
                if prev is Some {
                    let q = choose|q: int|
                        0 <= q < old(m).spec_pairs().len() && old(m).spec_pairs()[q].0 == key@;
                    assert(old(m).spec_keys()[q] == dec_str(q as nat));
                    lemma_dec_str_injective(q as nat, idx as nat);
                    assert(false);
                }
                assert(m.spec_pairs() == old(m).spec_pairs().push((key@, fx)));
                lemma_map_keys(m);
                assert(pairs_view(m) =~= pairs_view(old(m)).push((dec_str(idx as nat), fv)));
                assert(m.spec_keys() =~= dec_keys(idx as nat + 1));
            }
            let next0 = if j > i {
                j
            } else {
                i + 1
            };
            let next = if next0 > len {
                len
            } else {
                next0
            };
            proof {
                assert(next == advance(cur.tokens@.len() as int, i as int, j as int));
            }
            tuple_rec(cur, next, idx + 1, m)
        },
    }
}

/// Read a whole parenthesized tuple field list, keyed by position.
pub fn parse_tuple_fields<'a>(input: &TokenCursor<'a>) -> (r: Result<
    OrderedMap<Field<'a>>,
    Diagnostic,
>)
    ensures
        match spec_tuple_fields(input.tokens@, 0, 0, Seq::empty(), input.end_pos) {
            Ok(ps) => r matches Ok(m) && pairs_view(&m) == ps && m.wf(),
            Err(d) => r matches Err(e) && e@ == d,
        },
{
    let mut m: OrderedMap<Field<'a>> = OrderedMap::new();
    let n = input.tokens.len();
    proof {
        assert(input.tokens@.len() == n);
        assert(pairs_view(&m) =~= Seq::<(Seq<char>, FieldV)>::empty());
        assert(m.spec_keys() =~= dec_keys(0));
    }
    match tuple_rec(input, 0, 0, &mut m) {
        Ok(_) => Ok(m),
        Err(d) => Err(d),
    }
}

fn struct_rec<'a>(cur: &TokenCursor<'a>, i: usize, m: &mut OrderedMap<Field<'a>>) -> (r: Result<
    (),
    Diagnostic,
>)
    requires
        i <= cur.tokens@.len(),
        old(m).wf(),
    ensures
        match spec_struct_fields(cur.tokens@, i as int, pairs_view(old(m)), cur.end_pos) {
            Ok(ps) => r is Ok && pairs_view(final(m)) == ps && final(m).wf(),
            Err(d) => r matches Err(e) && e@ == d,
        },
    decreases cur.tokens@.len() - i,
{
    let len = cur.tokens.len();
    if i >= len {
        return Ok(());
    }
    let (fres, j) = parse_struct_field(cur, i);
    match fres {
        Err(d) => Err(d),
        Ok((key, f)) => {
            let ghost kv = key@;
            let ghost fv = f@;
            let ghost fx = f;
            let ghost acc0 = pairs_view(m);
            let prev = m.insert(key, f);
            proof {
                lemma_map_keys(old(m));
                lemma_map_keys(m);
                assert(forall|q: int|
                    0 <= q < acc0.len() ==> (#[trigger] acc0[q]).0 == old(m).spec_keys()[q]);
                assert(forall|a: int, b: int|
                    0 <= a < b < acc0.len() ==> acc0[a].0 != acc0[b].0);
                if prev is Some {
                    let q = choose|q: int|
                        0 <= q < old(m).spec_pairs().len() && old(m).spec_pairs()[q].0 == kv
                            && old(m).spec_pairs()[q].1 == prev->0 && m.spec_pairs() =~= old(
                            m,
                        ).spec_pairs().update(q, (kv, fx));
                    assert(acc0[q].0 == kv);
                    lemma_key_pos_unique(acc0, kv, q);
                    assert(pairs_view(m) =~= acc0.update(q, (kv, fv)));
                    assert(pairs_view(m) =~= spec_insert(acc0, kv, fv));
                } else {
                    assert(forall|q: int| 0 <= q < acc0.len() ==> acc0[q].0 != kv);
                    lemma_key_pos_absent(acc0, kv);
                    assert(pairs_view(m) =~= acc0.push((kv, fv)));
                    assert(pairs_view(m) =~= spec_insert(acc0, kv, fv));
                }
            }
            let next0 = if j > i {
                j
            } else {
                i + 1
            };
            let next = if next0 > len {
                len
            } else {
                next0
            };
            proof {
                assert(next == advance(cur.tokens@.len() as int, i as int, j as int));
            }
            struct_rec(cur, next, m)
        },
    }
}

/// Read a whole braced struct field list, keyed by field name.
pub fn parse_struct_fields<'a>(input: &TokenCursor<'a>) -> (r: Result<
    OrderedMap<Field<'a>>,
    Diagnostic,
>)
    ensures
        match spec_struct_fields(input.tokens@, 0, Seq::empty(), input.end_pos) {
            Ok(ps) => r matches Ok(m) && pairs_view(&m) == ps && m.wf(),
            Err(d) => r matches Err(e) && e@ == d,
        },
{
    let mut m: OrderedMap<Field<'a>> = OrderedMap::new();
    proof {
        assert(pairs_view(&m) =~= Seq::<(Seq<char>, FieldV)>::empty());
    }
    match struct_rec(input, 0, &mut m) {
        Ok(_) => Ok(m),
        Err(d) => Err(d),
    }
}

impl ErrorSource {
    /// The marked field's key, when one is set.
    pub fn as_ref(&self) -> (r: Option<&String>)
        ensures
            match self@ {
                SourceV::NoSource => r is None,
                SourceV::From(k) => r matches Some(s) && s@ == k,
                SourceV::Source(k) => r matches Some(s) && s@ == k,
            },
    {
        match self {
            ErrorSource::NoSource => None,
            ErrorSource::From(name) => Some(name),
            ErrorSource::Source(name) => Some(name),
        }
    }
}

fn resolve_attrs_rec<'a>(
    key: &String,
    attrs: &Vec<Attribute<'a>>,
    ai: usize,
    cur: ErrorSource,
    nfields: usize,
    vpos: u32,
) -> (r: Result<ErrorSource, Diagnostic>)
    requires
        ai <= attrs@.len(),
    ensures
        match spec_resolve_attrs(key@, attrs_view(attrs), ai as int, cur@, nfields as nat, vpos) {
            Ok(s) => r matches Ok(e) && e@ == s,
            Err(d) => r matches Err(e) && e@ == d,
        },
    decreases attrs@.len() - ai,
{
    if ai >= attrs.len() {
        return Ok(cur);
    }
    let a = &attrs[ai];
    let is_from = str_eq(a.name.as_str(), "from");
    let is_source = str_eq(a.name.as_str(), "source");
    if is_from || is_source {
        match cur.as_ref() {
            Some(prev) => {
                return Err(
                    Diagnostic {
                        kind: DiagnosticKind::DuplicateCauseMarker { first_field: prev.clone() },
                        pos: a.name_pos,
                    },
                );
            },
            None => {},
        }
        if is_from {
            if nfields > 1 {
                return Err(Diagnostic { kind: DiagnosticKind::ConversionArityError, pos: vpos });
            }
            resolve_attrs_rec(key, attrs, ai + 1, ErrorSource::From(key.clone()), nfields, vpos)
        } else {
            resolve_attrs_rec(key, attrs, ai + 1, ErrorSource::Source(key.clone()), nfields, vpos)
        }
    } else {
        resolve_attrs_rec(key, attrs, ai + 1, cur, nfields, vpos)
    }
}

fn resolve_rec<'a>(
    pairs: &Vec<(String, Field<'a>)>,
    fi: usize,
    cur: ErrorSource,
    nfields: usize,
    vpos: u32,
    out: &mut OrderedMap<String>,
) -> (r: Result<ErrorSource, Diagnostic>)
    requires
        fi <= pairs@.len(),
        forall|a: int, b: int| 0 <= a < b < pairs@.len() ==> pairs@[a].0@ != pairs@[b].0@,
        old(out).spec_keys() == pairs_seq_view(pairs@).subrange(0, fi as int).map_values(
            |q: (Seq<char>, FieldV)| q.0,
        ),
        old(out).wf(),
    ensures
        ({
            let pv = pairs_seq_view(pairs@);
            match spec_resolve(pv, fi as int, cur@, nfields as nat, vpos) {
                Ok(src) => r matches Ok(s) && s@ == src && final(out).wf() && final(out).spec_pairs().map_values(|q: (Seq<char>, String)| (q.0, q.1@)) =~= old(out).spec_pairs().map_values(|q: (Seq<char>, String)| (q.0, q.1@)) + pv.subrange(
                    fi as int,
                    pv.len() as int,
                ).map_values(|q: (Seq<char>, FieldV)| (q.0, q.1.path)),
                Err(d) => r matches Err(e) && e@ == d,
            }
        }),
    decreases pairs@.len() - fi,
{
    let ghost pv = pairs_seq_view(pairs@);
    if fi >= pairs.len() {
        proof {
            assert(out.spec_pairs().map_values(|q: (Seq<char>, String)| (q.0, q.1@)) =~= out
                .spec_pairs().map_values(|q: (Seq<char>, String)| (q.0, q.1@)) + pv.subrange(
                fi as int,
                pv.len() as int,
            ).map_values(|q: (Seq<char>, FieldV)| (q.0, q.1.path)));
        }
        return Ok(cur);
    }
    let key = &pairs[fi].0;
    let field = &pairs[fi].1;
    proof {
        assert(pv[fi as int] == (key@, field@));
        assert(attrs_view(&field.attrs) == field@.attrs);
    }
    match resolve_attrs_rec(key, &field.attrs, 0, cur, nfields, vpos) {
        Err(d) => Err(d),
        Ok(c2) => {
            proof {
                assert(forall|q: int|
                    0 <= q < pv.len() ==> (#[trigger] pv[q]) == (pairs@[q].0@, pairs@[q].1@));
                if out.spec_contains(key@) {
                    let q = choose|q: int|
                        0 <= q < out.spec_keys().len() && out.spec_keys()[q] == key@;
                    assert(out.spec_keys()[q] == pv.subrange(0, fi as int).map_values(
                        |w: (Seq<char>, FieldV)| w.0,
                    )[q]);
                    assert(pv.subrange(0, fi as int)[q] == pv[q]);
                    assert(pairs@[q].0@ == pairs@[fi as int].0@);
                    assert(false);
                }
            }
            let ghost out0 = *out;
            let pathc = field.path.clone();
            let ghost pathx = pathc;
            let prev = out.insert(key.clone(), pathc);
            proof {
                lemma_map_keys(&out0);
                lemma_map_keys(out);
                if prev is Some {
                    let q = choose|q: int|
                        0 <= q < out0.spec_pairs().len() && out0.spec_pairs()[q].0 == key@;
                    assert(out0.spec_keys()[q] == key@);
                    assert(false);
                }
                assert(out.spec_pairs() == out0.spec_pairs().push((key@, pathx)));
                assert(out.spec_keys() =~= pv.subrange(0, fi as int + 1).map_values(
                    |q: (Seq<char>, FieldV)| q.0,
                )) by {
                    assert(pv.subrange(0, fi as int + 1) =~= pv.subrange(0, fi as int).push(
                        pv[fi as int],
                    ));
                }
            }
            let rr = resolve_rec(pairs, fi + 1, c2, nfields, vpos, out);
            proof {
                if spec_resolve(pv, fi as int, cur@, nfields as nat, vpos) is Ok {
                    assert(pv.subrange(fi as int, pv.len() as int) =~= seq![pv[fi as int]]
                        + pv.subrange(fi as int + 1, pv.len() as int));
                    assert(out.spec_pairs().map_values(|q: (Seq<char>, String)| (q.0, q.1@))
                        =~= out0.spec_pairs().map_values(|q: (Seq<char>, String)| (q.0, q.1@))
                        + pv.subrange(fi as int, pv.len() as int).map_values(
                        |q: (Seq<char>, FieldV)| (q.0, q.1.path),
                    ));
                }
            }
            rr
        },
    }
}

/// Build the key-to-type-path map of a variant and resolve its cause
/// marker from the field attributes.
fn resolve_fields<'a>(pairs: &Vec<(String, Field<'a>)>, vpos: u32) -> (r: Result<
    (OrderedMap<String>, ErrorSource),
    Diagnostic,
>)
    requires
        forall|a: int, b: int| 0 <= a < b < pairs@.len() ==> pairs@[a].0@ != pairs@[b].0@,
    ensures
        ({
            let pv = pairs_seq_view(pairs@);
            match spec_resolve(pv, 0, SourceV::NoSource, pv.len(), vpos) {
                Ok(src) => r matches Ok(p) && p.1@ == src && p.0.wf() && p.0.spec_pairs()
                    .map_values(|q: (Seq<char>, String)| (q.0, q.1@)) =~= pv.map_values(
                    |q: (Seq<char>, FieldV)| (q.0, q.1.path),
                ),
                Err(d) => r matches Err(e) && e@ == d,
            }
        }),
{
    let ghost pv = pairs_seq_view(pairs@);
    let mut out: OrderedMap<String> = OrderedMap::new();
    proof {
        assert(out.spec_keys() =~= pv.subrange(0, 0).map_values(|q: (Seq<char>, FieldV)| q.0));
    }
    let n = pairs.len();
    match resolve_rec(pairs, 0, ErrorSource::NoSource, n, vpos, &mut out) {
        Ok(src) => {
            proof {
                assert(pv.subrange(0, pv.len() as int) =~= pv);
            }
            Ok((out, src))
        },
        Err(d) => Err(d),
    }
}

fn find_error_attr<'a>(attrs: &Vec<Attribute<'a>>, i: usize) -> (r: Option<(&'a Vec<Token>, u32)>)
    requires
        i <= attrs@.len(),
    ensures
        match spec_find_error(attrs_view(attrs), i as int) {
            Some(p) => r matches Some(v) && v.0@ == p.0 && v.1 == p.1,
            None => r is None,
        },
    decreases attrs@.len() - i,
{
    if i >= attrs.len() {
        return None;
    }
    let a = &attrs[i];
    proof {
        assert(attrs_view(attrs)[i as int] == a@);
    }
    if str_eq(a.name.as_str(), "error") {
        proof {
            if a.group@.len() >= 2 {
                assert(a@.tree[0] == a.group@[1]);
            }
        }
        if a.group.len() >= 2 {
            match &a.group[1] {
                Token::Group { delim: Delim::Paren, tokens, pos } => {
                    return Some((tokens, *pos));
                },
                _ => {},
            }
        }
        None
    } else {
        find_error_attr(attrs, i + 1)
    }
}

fn lit_string(repr: &str) -> (r: Option<String>)
    ensures
        match lit_string_val(repr@) {
            Some(t) => r matches Some(s) && s@ == t,
            None => r is None,
        },
{
    let n = repr.unicode_len();
    if n >= 2 && repr.get_char(0) == '"' && repr.get_char(n - 1) == '"' {
        Some(unescape(repr.substring_char(1, n - 1)))
    } else {
        None
    }
}

fn doc_rec<'a>(attrs: &Vec<Attribute<'a>>, i: usize, out: &mut Vec<char>)
    requires
        i <= attrs@.len(),
    ensures
        final(out)@ == old(out)@ + spec_doc_text(attrs_view(attrs), i as int),
    decreases attrs@.len() - i,
{
    if i >= attrs.len() {
        proof {
            assert(out@ =~= old(out)@ + spec_doc_text(attrs_view(attrs), i as int));
        }
        return ;
    }
    let a = &attrs[i];
    proof {
        assert(attrs_view(attrs)[i as int] == a@);
    }
    if str_eq(a.name.as_str(), "doc") && a.group.len() >= 3 {
        proof {
            assert(a@.tree[0] == a.group@[1]);
            assert(a@.tree[1] == a.group@[2]);
        }
        let ok_eq = match &a.group[1] {
            Token::Punct { ch, .. } => *ch == '=',
            _ => false,
        };
        if ok_eq {
            match &a.group[2] {
                Token::Literal { repr, .. } => {
                    match lit_string(repr.as_str()) {
                        Some(s) => push_str_chars(s.as_str(), out),
                        None => {},
                    }
                },
                _ => {},
            }
        }
    }
    doc_rec(attrs, i + 1, out);
    proof {
        assert(out@ =~= old(out)@ + spec_doc_text(attrs_view(attrs), i as int));
    }
}

/// The concatenated doc-comment text of an attribute list.
pub fn get_doc_comment<'a>(attrs: &Vec<Attribute<'a>>) -> (r: String)
    ensures
        r@ == spec_doc_text(attrs_view(attrs), 0),
{
    let mut v: Vec<char> = Vec::new();
    doc_rec(attrs, 0, &mut v);
    chars_to_string(&v)
}

fn has_attr<'a>(attrs: &Vec<Attribute<'a>>, name: &str) -> (r: bool)
    ensures
        r == spec_has_attr(attrs_view(attrs), name@),
{
    let n = attrs.len();
    let mut i: usize = 0;
    while i < n
        invariant
            n == attrs@.len(),
            i <= n,
            forall|q: int| 0 <= q < i ==> attrs_view(attrs)[q].name != name@,
        decreases n - i,
    {
        if str_eq(attrs[i].name.as_str(), name) {
            proof {
                assert(attrs_view(attrs)[i as int].name == name@);
            }
            return true;
        }
        i = i + 1;
    }
    false
}

impl Variant {
    /// Read one variant: attributes, a name, an optional field group with
    /// marker resolution, an optional comma, and the display template.
    pub fn parse<'a>(input: &TokenCursor<'a>, i: usize) -> (r: (Result<Variant, Diagnostic>, usize))
        requires
            i <= input.tokens@.len(),
        ensures
            match spec_variant(input.tokens@, i as int, input.end_pos) {
                Ok(p) => r.0 matches Ok(v) && v@ == p.0 && r.1 == p.1,
                Err(d) => r.0 matches Err(e) && e@ == d,
            },
    {
        let (ares, j) = input.parse_attributes(i);
        let attrs = match ares {
            Ok(a) => a,
            Err(d) => return (Err(d), i),
        };
        let (ires, j1) = input.try_ident(j);
        let (name, name_pos) = match ires {
            Ok(p) => p,
            Err(d) => return (Err(d), i),
        };
        let (gres, j2) = input.try_group(j1);
        match gres {
            Ok((gt, delim, gpos)) => {
                if matches!(delim, Delim::Bracket) {
                    return (
                        (
                            Err(Diagnostic { kind: DiagnosticKind::UnexpectedToken, pos: gpos }),
                            i,
                        )
                    );
                }
                let is_tuple = matches!(delim, Delim::Paren);
                let sub = TokenCursor { tokens: gt, end_pos: gpos };
                let pres = if is_tuple {
                    parse_tuple_fields(&sub)
                } else {
                    parse_struct_fields(&sub)
                };
                let pairs_map = match pres {
                    Ok(m) => m,
                    Err(d) => return (Err(d), i),
                };
                let ty = if is_tuple {
                    VariantType::Tuple
                } else {
                    VariantType::Struct
                };
                let ghost fpairs = pairs_view(&pairs_map);
                let nfields = pairs_map.len();
                let pairs = pairs_map.into_iter();
                proof {
                    lemma_map_keys(&pairs_map);
                    assert(forall|q: int|
                        0 <= q < pairs@.len() ==> (#[trigger] pairs_seq_view(pairs@)[q])
                            == fpairs[q]);
                    assert(pairs_seq_view(pairs@) =~= fpairs);
                    assert(forall|q: int|
                        0 <= q < pairs@.len() ==> (#[trigger] pairs@[q]).0@
                            == pairs_map.spec_keys()[q]);
                    assert(forall|a: int, b: int|
                        0 <= a < b < pairs@.len() ==> pairs@[a].0@ != pairs@[b].0@);
                }
                let rres = resolve_fields(&pairs, name_pos);
                let (fields, source) = match rres {
                    Ok(p) => p,
                    Err(d) => return (Err(d), i),
                };
                let after = input.eat_punct(j2, ',');
                let display = match find_error_attr(&attrs, 0) {
                    Some((g, gp)) => {
                        let sub2 = TokenCursor { tokens: g, end_pos: gp };
                        let (lres, _ln) = sub2.try_lit_string(0);
                        match lres {
                            Err(d) => return (Err(d), i),
                            Ok(t) => if is_tuple {
                                rewrite_positional(t.as_str(), nfields)
                            } else {
                                t
                            },
                        }
                    },
                    None => get_doc_comment(&attrs),
                };
                let display_fields = extract_placeholders(display.as_str());
                let v = Variant { name, name_pos, ty, fields, display, display_fields, source };
                proof {
                    assert(v@.fields =~= fpairs.map_values(
                        |p: (Seq<char>, FieldV)| (p.0, p.1.path),
                    ));
                    assert(v@ == spec_make_variant(
                        v@.name,
                        v@.name_pos,
                        v@.ty,
                        fpairs,
                        v@.source,
                        v@.display,
                    ));
                }
                (Ok(v), after)
            },
            Err(_) => {
                let after = input.eat_punct(j1, ',');
                let display = match find_error_attr(&attrs, 0) {
                    Some((g, gp)) => {
                        let sub2 = TokenCursor { tokens: g, end_pos: gp };
                        let (lres, _ln) = sub2.try_lit_string(0);
                        match lres {
                            Err(d) => return (Err(d), i),
                            Ok(t) => t,
                        }
                    },
                    None => get_doc_comment(&attrs),
                };
                let display_fields = extract_placeholders(display.as_str());
                let v = Variant {
                    name,
                    name_pos,
                    ty: VariantType::Unit,
                    fields: OrderedMap::new(),
                    display,
                    display_fields,
                    source: ErrorSource::NoSource,
                };
                proof {
                    assert(v@.fields =~= Seq::<(Seq<char>, FieldV)>::empty().map_values(
                        |p: (Seq<char>, FieldV)| (p.0, p.1.path),
                    ));
                    assert(v@ == spec_make_variant(
                        v@.name,
                        v@.name_pos,
                        VariantType::Unit,
                        Seq::empty(),
                        SourceV::NoSource,
                        v@.display,
                    ));
                }
                (Ok(v), after)
            },
        }
    }
}

fn variants_rec<'a>(cur: &TokenCursor<'a>, i: usize, out: &mut Vec<Variant>) -> (r: Result<
    (),
    Diagnostic,
>)
    requires
        i <= cur.tokens@.len(),
    ensures
        match spec_variants(
            cur.tokens@,
            i as int,
            old(out)@.map_values(|v: Variant| v@),
            cur.end_pos,
        ) {
            Ok(vs) => r is Ok && final(out)@.map_values(|v: Variant| v@) == vs,
            Err(d) => r matches Err(e) && e@ == d,
        },
    decreases cur.tokens@.len() - i,
{
    let len = cur.tokens.len();
    if i >= len {
        return Ok(());
    }
    let (vres, j) = Variant::parse(cur, i);
    match vres {
        Err(d) => Err(d),
        Ok(v) => {
            let ghost acc0 = out@.map_values(|w: Variant| w@);
            let ghost vv = v@;
            out.push(v);
            proof {
                assert(out@.map_values(|w: Variant| w@) =~= acc0.push(vv));
            }
            let next0 = if j > i {
                j
            } else {
                i + 1
            };
            let next = if next0 > len {
                len
            } else {
                next0
            };
            proof {
                assert(next == advance(cur.tokens@.len() as int, i as int, j as int));
            }
            variants_rec(cur, next, out)
        },
    }
}

impl Error {
    /// Parse the token form of one whole enum definition into the model.
    pub fn parse(input: &Vec<Token>, end_pos: u32) -> (r: Result<Error, Diagnostic>)
        ensures
            match spec_enum(input@, end_pos) {
                Ok(m) => r matches Ok(e) && e@ == m,
                Err(d) => r matches Err(x) && x@ == d,
            },
    {
        let cur = TokenCursor { tokens: input, end_pos };
        let (ares, i0) = cur.parse_attributes(0);
        let attrs = match ares {
            Ok(a) => a,
            Err(d) => return Err(d),
        };
        let no_display = has_attr(&attrs, "no_display");
        let i1 = cur.parse_visibility(i0);
        let (eres, _i2) = cur.expect_ident(i1, "enum");
        match eres {
            Ok(_) => {},
            Err(d) => return Err(d),
        }
        let (nres, i3) = cur.try_ident(_i2);
        let (name, _npos) = match nres {
            Ok(p) => p,
            Err(d) => return Err(d),
        };
        let (gres, i4) = cur.expect_group(i3, Delim::Brace);
        let (gt, gpos) = match gres {
            Ok(p) => p,
            Err(d) => return Err(d),
        };
        let sub = TokenCursor { tokens: gt, end_pos: gpos };
        let mut variants: Vec<Variant> = Vec::new();
        proof {
            assert(variants@.map_values(|v: Variant| v@) =~= Seq::<VariantV>::empty());
        }
        match variants_rec(&sub, 0, &mut variants) {
            Ok(_) => {},
            Err(d) => return Err(d),
        }
        if cur.has_more(i4) {
            return Err(Diagnostic { kind: DiagnosticKind::TrailingTokens, pos: cur.pos_at(i4) });
        }
        Ok(Error { name, no_display, variants })
    }
}


} // verus!
