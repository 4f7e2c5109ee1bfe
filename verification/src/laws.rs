//! The laws the generator obeys, stated and proved over the spec-level
//! model and text.

use vstd::prelude::*;

use crate::codegen::{
    disp_args, field_alias, first_missing, spec_display_arm, spec_display_impl, spec_from_impl,
    spec_from_impls, spec_generate, spec_source_arm, spec_source_arms, src_binders,
    tuple_disp_binders,
};
use crate::cursor::AttrV;
use crate::model::{
    error_wf, key_pos, key_val, lemma_key_pos_bounds, variant_wf, DiagKindV, DiagV, ErrorV,
    SourceV, VariantType, VariantV,
};
use crate::parser::{
    spec_enum, spec_resolve, spec_resolve_attrs, spec_struct_fields, spec_tuple_fields,
    spec_variant, spec_variants, FieldV,
};
use crate::text::{dec_str, lemma_dec_str_injective};
use crate::tokens::Token;

verus! {

/// Whether `mid` occurs inside `s` as one contiguous run.
pub open spec fn has_infix(s: Seq<char>, mid: Seq<char>) -> bool {
    exists|a: Seq<char>, b: Seq<char>| s == #[trigger] (a + mid + b)
}

proof fn lemma_infix_extend_left(pre: Seq<char>, s: Seq<char>, mid: Seq<char>)
    requires
        has_infix(s, mid),
    ensures
        has_infix(pre + s, mid),
{
    let (a, b) = choose|a: Seq<char>, b: Seq<char>| s == #[trigger] (a + mid + b);
    assert(pre + s =~= (pre + a) + mid + b);
}

proof fn lemma_source_arm_infix(vs: Seq<VariantV>, i: int, q: int)
    requires
        0 <= i <= q < vs.len(),
    ensures
        has_infix(spec_source_arms(vs, i), spec_source_arm(vs[q])),
    decreases q - i,
{
    if i == q {
        assert(spec_source_arms(vs, q) =~= Seq::empty() + spec_source_arm(vs[q])
            + spec_source_arms(vs, q + 1));
    } else {
        lemma_source_arm_infix(vs, i + 1, q);
        lemma_infix_extend_left(spec_source_arm(vs[i]), spec_source_arms(vs, i + 1), spec_source_arm(vs[q]));
    }
}

proof fn lemma_from_impl_infix(m: ErrorV, i: int, q: int)
    requires
        0 <= i <= q < m.variants.len(),
    ensures
        has_infix(spec_from_impls(m, i), spec_from_impl(m.name, m.variants[q])),
    decreases q - i,
{
    if i == q {
        assert(spec_from_impls(m, q) =~= Seq::empty() + spec_from_impl(m.name, m.variants[q])
            + spec_from_impls(m, q + 1));
    } else {
        lemma_from_impl_infix(m, i + 1, q);
        lemma_infix_extend_left(
            spec_from_impl(m.name, m.variants[i]),
            spec_from_impls(m, i + 1),
            spec_from_impl(m.name, m.variants[q]),
        );
    }
}

proof fn lemma_disp_args_infix(dfs: Seq<Seq<char>>, i: int, q: int)
    requires
        0 <= i <= q < dfs.len(),
    ensures
        has_infix(disp_args(dfs, i), dfs[q] + ","@),
    decreases q - i,
{
    if i == q {
        assert(disp_args(dfs, q) =~= Seq::empty() + (dfs[q] + ","@) + disp_args(dfs, q + 1));
    } else {
        lemma_disp_args_infix(dfs, i + 1, q);
        lemma_infix_extend_left(dfs[i] + ","@, disp_args(dfs, i + 1), dfs[q] + ","@);
    }
}

/// A run of `_,` wildcard binders.
pub open spec fn wild_binders(c: int) -> Seq<char>
    decreases c,
{
    if c <= 0 {
        Seq::empty()
    } else {
        "_,"@ + wild_binders(c - 1)
    }
}

proof fn lemma_src_binders_nomark(n: int, kp: int, i: int)
    requires
        i <= n,
        kp < i,
    ensures
        src_binders(n, kp, i) == wild_binders(n - i),
    decreases n - i,
{
    if i < n {
        lemma_src_binders_nomark(n, kp, i + 1);
    }
}

/// The tuple pattern of a cause-accessor arm binds `field` at exactly the
/// marked position: wildcards before it, `field,` there, wildcards after.
pub proof fn lemma_src_binders_mark(n: int, kp: int, i: int)
    requires
        0 <= i <= kp < n,
    ensures
        src_binders(n, kp, i) == wild_binders(kp - i) + "field,"@ + wild_binders(n - 1 - kp),
    decreases kp - i,
{
    if i == kp {
        lemma_src_binders_nomark(n, kp, i + 1);
        assert(src_binders(n, kp, i) =~= wild_binders(0) + "field,"@ + wild_binders(n - 1 - kp));
    } else {
        lemma_src_binders_mark(n, kp, i + 1);
        assert(wild_binders(kp - i) =~= "_,"@ + wild_binders(kp - i - 1));
        assert(src_binders(n, kp, i) =~= wild_binders(kp - i) + "field,"@ + wild_binders(
            n - 1 - kp,
        ));
    }
}

/// Cause-chain correctness, on the emitted text: a variant contributes an
/// arm to the cause accessor exactly when one of its fields is marked.
/// The arm of a marked struct variant binds the marked field by name and
/// returns it; the arm of a marked tuple variant binds `field` at the
/// marked position (`lemma_src_binders_mark`) and returns it.  Every
/// unmarked variant is left to the accessor's final wildcard arm, which
/// returns no cause.
pub proof fn lemma_cause_accessor(m: ErrorV, q: int)
    requires
        0 <= q < m.variants.len(),
        error_wf(m),
    ensures
        m.variants[q].source is NoSource ==> spec_source_arm(m.variants[q])
            == Seq::<char>::empty(),
        !(m.variants[q].source is NoSource) ==> has_infix(
            spec_source_arms(m.variants, 0),
            spec_source_arm(m.variants[q]),
        ) && spec_source_arm(m.variants[q]).len() > 0,
        m.variants[q].source matches SourceV::Source(k) ==> (m.variants[q].ty
            == VariantType::Struct ==> spec_source_arm(m.variants[q]) == "Self::"@
            + m.variants[q].name + " { "@ + k + ", ..} => Some("@ + k + "),"@),
        m.variants[q].source matches SourceV::From(k) ==> (m.variants[q].ty == VariantType::Tuple
            ==> spec_source_arm(m.variants[q]) == "Self::"@ + m.variants[q].name + "("@
            + src_binders(
            m.variants[q].fields.len() as int,
            key_pos(m.variants[q].fields, k),
            0,
        ) + ") => Some(field),"@),
{
    let v = m.variants[q];
    if !(v.source is NoSource) {
        lemma_source_arm_infix(m.variants, 0, q);
        reveal_strlit("Self::");
        assert(spec_source_arm(v).len() > 0);
    }
}

/// Round-trip formatting, on the emitted text: every placeholder name the
/// template references is handed to the generated `write!` as an
/// argument, in template order — so the formatting routine substitutes the
/// bound field's own representation for the placeholder.
pub proof fn lemma_display_arm_passes_referenced_fields(v: VariantV, q: int)
    requires
        0 <= q < v.display_fields.len(),
        v.ty == VariantType::Struct || v.ty == VariantType::Tuple,
    ensures
        has_infix(spec_display_arm(v), v.display_fields[q] + ","@),
{
    lemma_disp_args_infix(v.display_fields, 0, q);
    let (a, b) = choose|a: Seq<char>, b: Seq<char>|
        disp_args(v.display_fields, 0) == #[trigger] (a + (v.display_fields[q] + ","@) + b);
    if v.ty == VariantType::Tuple {
        let pre = "Self::"@ + v.name + "("@ + tuple_disp_binders(
            v.display_fields,
            v.fields.len() as int,
            0,
        ) + ") => write!(f, "@ + crate::text::quoted(v.display) + ", "@;
        assert(spec_display_arm(v) =~= (pre + a) + (v.display_fields[q] + ","@) + (b + "),"@));
    } else {
        let pre = "Self::"@ + v.name + " { "@;
        let post = " .. } => write!(f, "@ + crate::text::quoted(v.display) + ", "@ + disp_args(
            v.display_fields,
            0,
        ) + "),"@;
        assert(spec_display_arm(v) =~= (pre + a) + (v.display_fields[q] + ","@) + (b + post));
    }
}

/// A tuple display arm binds the alias `field_i` exactly where the
/// template references it, and a wildcard everywhere else.
pub proof fn lemma_tuple_display_binders(dfs: Seq<Seq<char>>, n: int, i: int)
    requires
        0 <= i < n,
    ensures
        dfs.contains(field_alias(i as nat)) ==> has_infix(
            tuple_disp_binders(dfs, n, 0),
            field_alias(i as nat) + ","@,
        ),
    decreases n,
{
    if dfs.contains(field_alias(i as nat)) {
        lemma_tuple_binder_infix(dfs, n, 0, i);
    }
}

proof fn lemma_tuple_binder_infix(dfs: Seq<Seq<char>>, n: int, j: int, i: int)
    requires
        0 <= j <= i < n,
        dfs.contains(field_alias(i as nat)),
    ensures
        has_infix(tuple_disp_binders(dfs, n, j), field_alias(i as nat) + ","@),
    decreases i - j,
{
    if j == i {
        assert(tuple_disp_binders(dfs, n, i) =~= Seq::empty() + (field_alias(i as nat) + ","@)
            + tuple_disp_binders(dfs, n, i + 1));
    } else {
        lemma_tuple_binder_infix(dfs, n, j + 1, i);
        let head = if dfs.contains(field_alias(j as nat)) {
            field_alias(j as nat) + ","@
        } else {
            "_,"@
        };
        lemma_infix_extend_left(head, tuple_disp_binders(dfs, n, j + 1), field_alias(i as nat) + ","@);
    }
}

/// Conversion soundness, on the emitted text: a variant gets a conversion
/// constructor exactly when its marker is a conversion source, the
/// constructor takes one value of the marked field's declared type, and
/// its body wraps the value into that variant and no other — positionally
/// for a tuple variant, under the field's name otherwise.
pub proof fn lemma_conversion_constructor(m: ErrorV, q: int)
    requires
        0 <= q < m.variants.len(),
    ensures
        !(m.variants[q].source is From) ==> spec_from_impl(m.name, m.variants[q])
            == Seq::<char>::empty(),
        m.variants[q].source matches SourceV::From(k) ==> has_infix(
            spec_from_impls(m, 0),
            spec_from_impl(m.name, m.variants[q]),
        ) && spec_from_impl(m.name, m.variants[q]) == "impl ::std::convert::From<"@ + key_val(
            m.variants[q].fields,
            k,
        ) + "> for "@ + m.name + " { fn from(value: "@ + key_val(m.variants[q].fields, k)
            + ") -> Self { "@ + (if m.variants[q].ty == VariantType::Tuple {
            "Self::"@ + m.variants[q].name + "(value)"@
        } else {
            "Self::"@ + m.variants[q].name + " { "@ + k + ": value }"@
        }) + " } }"@,
{
    if m.variants[q].source is From {
        lemma_from_impl_infix(m, 0, q);
    }
}

proof fn lemma_first_missing_le(vs: Seq<VariantV>, i: int, q: int)
    requires
        0 <= i <= q < vs.len(),
        vs[q].display.len() == 0,
    ensures
        i <= first_missing(vs, i) <= q,
    decreases q - i,
{
    if i < q && vs[i].display.len() != 0 {
        lemma_first_missing_le(vs, i + 1, q);
    }
}

/// Validation completeness, the rejecting half: while formatting is
/// generated, a variant with an empty display template — no message
/// attribute and no doc comment — makes generation fail with a
/// missing-message diagnostic.
pub proof fn lemma_validation_completeness(m: ErrorV, q: int)
    requires
        0 <= q < m.variants.len(),
        m.variants[q].display.len() == 0,
        !m.no_display,
    ensures
        spec_generate(m) matches Err(d) && d.kind is MissingDisplayMessage,
{
    lemma_first_missing_le(m.variants, 0, q);
}

/// Validation completeness, the accepting half: with formatting
/// suppressed, generation succeeds whatever the templates hold, and the
/// emitted text carries no display implementation.
pub proof fn lemma_no_display_suppresses(m: ErrorV)
    requires
        m.no_display,
    ensures
        spec_generate(m) is Ok,
        spec_display_impl(m) == Seq::<char>::empty(),
        spec_generate(m)->Ok_0 == spec_error_impl_of(m) + "\n"@ + "\n"@ + spec_from_impls(m, 0),
{
    assert(spec_generate(m)->Ok_0 =~= spec_error_impl_of(m) + "\n"@ + "\n"@ + spec_from_impls(
        m,
        0,
    ));
}

/// The error-cause accessor text of the model.
pub open spec fn spec_error_impl_of(m: ErrorV) -> Seq<char> {
    crate::codegen::spec_error_impl(m)
}

/// Whether an attribute is a cause marker.
pub open spec fn has_marker(a: AttrV) -> bool {
    a.name == "from"@ || a.name == "source"@
}

/// Marker exclusivity, within one field: once the field holding `p` is
/// marked as the cause, the next marker attribute — at `x`, with none
/// between — is rejected as a duplicate naming `p`, wherever it stands.
pub proof fn lemma_marker_exclusivity_attrs(
    key: Seq<char>,
    attrs: Seq<AttrV>,
    ai: int,
    p: Seq<char>,
    x: int,
    nfields: nat,
    vpos: u32,
)
    requires
        0 <= ai <= x < attrs.len(),
        has_marker(attrs[x]),
        forall|j: int| ai <= j < x ==> !has_marker(#[trigger] attrs[j]),
    ensures
        spec_resolve_attrs(key, attrs, ai, SourceV::Source(p), nfields, vpos) == Err::<
            SourceV,
            DiagV,
        >(
            DiagV {
                kind: DiagKindV::DuplicateCauseMarker { first_field: p },
                pos: attrs[x].name_pos,
            },
        ),
        spec_resolve_attrs(key, attrs, ai, SourceV::From(p), nfields, vpos) == Err::<
            SourceV,
            DiagV,
        >(
            DiagV {
                kind: DiagKindV::DuplicateCauseMarker { first_field: p },
                pos: attrs[x].name_pos,
            },
        ),
    decreases x - ai,
{
    if ai < x {
        lemma_marker_exclusivity_attrs(key, attrs, ai + 1, p, x, nfields, vpos);
    }
}

/// Marker exclusivity, across fields: once the field holding `p` is
/// marked, a marker attribute on any later field — the first one to
/// appear — is rejected as a duplicate naming `p`.
pub proof fn lemma_marker_exclusivity_fields(
    fields: Seq<(Seq<char>, FieldV)>,
    fi: int,
    p: Seq<char>,
    fx: int,
    ax: int,
    nfields: nat,
    vpos: u32,
)
    requires
        0 <= fi <= fx < fields.len(),
        0 <= ax < fields[fx].1.attrs.len(),
        has_marker(fields[fx].1.attrs[ax]),
        forall|j: int| 0 <= j < ax ==> !has_marker(#[trigger] fields[fx].1.attrs[j]),
        forall|g: int, j: int|
            fi <= g < fx && 0 <= j < fields[g].1.attrs.len() ==> !has_marker(
                #[trigger] fields[g].1.attrs[j],
            ),
    ensures
        spec_resolve(fields, fi, SourceV::Source(p), nfields, vpos) == Err::<SourceV, DiagV>(
            DiagV {
                kind: DiagKindV::DuplicateCauseMarker { first_field: p },
                pos: fields[fx].1.attrs[ax].name_pos,
            },
        ),
    decreases fx - fi,
{
    if fi == fx {
        lemma_marker_exclusivity_attrs(
            fields[fi].0,
            fields[fi].1.attrs,
            0,
            p,
            ax,
            nfields,
            vpos,
        );
    } else {
        lemma_resolve_attrs_clean(fields[fi].0, fields[fi].1.attrs, 0, SourceV::Source(p), nfields, vpos);
        lemma_marker_exclusivity_fields(fields, fi + 1, p, fx, ax, nfields, vpos);
    }
}

proof fn lemma_resolve_attrs_clean(
    key: Seq<char>,
    attrs: Seq<AttrV>,
    ai: int,
    cur: SourceV,
    nfields: nat,
    vpos: u32,
)
    requires
        0 <= ai,
        forall|j: int| ai <= j < attrs.len() ==> !has_marker(#[trigger] attrs[j]),
    ensures
        spec_resolve_attrs(key, attrs, ai, cur, nfields, vpos) == Ok::<SourceV, DiagV>(cur),
    decreases attrs.len() - ai,
{
    if ai < attrs.len() {
        lemma_resolve_attrs_clean(key, attrs, ai + 1, cur, nfields, vpos);
    }
}

/// Marker exclusivity, the arity half: a conversion-source marker on a
/// variant with more than one field — the first marker the scan meets —
/// is rejected as a conversion-arity error at the variant's name.
pub proof fn lemma_conversion_arity(
    fields: Seq<(Seq<char>, FieldV)>,
    fi: int,
    fx: int,
    ax: int,
    nfields: nat,
    vpos: u32,
)
    requires
        0 <= fi <= fx < fields.len(),
        0 <= ax < fields[fx].1.attrs.len(),
        fields[fx].1.attrs[ax].name == "from"@,
        forall|j: int| 0 <= j < ax ==> !has_marker(#[trigger] fields[fx].1.attrs[j]),
        forall|g: int, j: int|
            fi <= g < fx && 0 <= j < fields[g].1.attrs.len() ==> !has_marker(
                #[trigger] fields[g].1.attrs[j],
            ),
        nfields > 1,
    ensures
        spec_resolve(fields, fi, SourceV::NoSource, nfields, vpos) == Err::<SourceV, DiagV>(
            DiagV { kind: DiagKindV::ConversionArityError, pos: vpos },
        ),
    decreases fx - fi,
{
    if fi == fx {
        lemma_arity_attrs(fields[fi].0, fields[fi].1.attrs, 0, ax, nfields, vpos);
    } else {
        lemma_resolve_attrs_clean(
            fields[fi].0,
            fields[fi].1.attrs,
            0,
            SourceV::NoSource,
            nfields,
            vpos,
        );
        lemma_conversion_arity(fields, fi + 1, fx, ax, nfields, vpos);
    }
}

proof fn lemma_arity_attrs(
    key: Seq<char>,
    attrs: Seq<AttrV>,
    ai: int,
    x: int,
    nfields: nat,
    vpos: u32,
)
    requires
        0 <= ai <= x < attrs.len(),
        attrs[x].name == "from"@,
        forall|j: int| ai <= j < x ==> !has_marker(#[trigger] attrs[j]),
        nfields > 1,
    ensures
        spec_resolve_attrs(key, attrs, ai, SourceV::NoSource, nfields, vpos) == Err::<
            SourceV,
            DiagV,
        >(DiagV { kind: DiagKindV::ConversionArityError, pos: vpos }),
    decreases x - ai,
{
    if ai < x {
        lemma_arity_attrs(key, attrs, ai + 1, x, nfields, vpos);
    }
}



/// Keys are pairwise distinct.
pub open spec fn keys_unique<V>(ps: Seq<(Seq<char>, V)>) -> bool {
    forall|a: int, b: int| 0 <= a < b < ps.len() ==> ps[a].0 != ps[b].0
}

proof fn lemma_tuple_fields_keys(
    g: Seq<Token>,
    i: int,
    idx: nat,
    acc: Seq<(Seq<char>, FieldV)>,
    end: u32,
)
    requires
        acc.len() == idx,
        forall|q: int| 0 <= q < acc.len() ==> (#[trigger] acc[q]).0 == dec_str(q as nat),
    ensures
        spec_tuple_fields(g, i, idx, acc, end) matches Ok(ps) ==> ps.len() >= idx && forall|q: int|
            0 <= q < ps.len() ==> (#[trigger] ps[q]).0 == dec_str(q as nat),
    decreases g.len() - i,
{
    if 0 <= i < g.len() {
        match crate::parser::spec_tuple_field(g, i, end) {
            Err(_) => {},
            Ok((f, j)) => {
                let acc2 = acc.push((dec_str(idx), f));
                assert(forall|q: int|
                    0 <= q < acc2.len() ==> (#[trigger] acc2[q]).0 == dec_str(q as nat));
                lemma_tuple_fields_keys(
                    g,
                    crate::cursor::advance(g.len() as int, i, j),
                    idx + 1,
                    acc2,
                    end,
                );
            },
        }
    }
}

proof fn lemma_struct_fields_unique(g: Seq<Token>, i: int, acc: Seq<(Seq<char>, FieldV)>, end: u32)
    requires
        keys_unique(acc),
    ensures
        spec_struct_fields(g, i, acc, end) matches Ok(ps) ==> keys_unique(ps),
    decreases g.len() - i,
{
    if 0 <= i < g.len() {
        match crate::parser::spec_struct_field(g, i, end) {
            Err(_) => {},
            Ok(((k, f), j)) => {
                let acc2 = crate::parser::spec_insert(acc, k, f);
                lemma_key_pos_bounds(acc, k);
                if key_pos(acc, k) >= 0 {
                    assert(keys_unique(acc2)) by {
                        assert(forall|q: int|
                            0 <= q < acc2.len() && q != key_pos(acc, k) ==> (#[trigger] acc2[q])
                                == acc[q]);
                        assert(acc2[key_pos(acc, k)].0 == acc[key_pos(acc, k)].0);
                    }
                } else {
                    assert(keys_unique(acc2));
                }
                lemma_struct_fields_unique(
                    g,
                    crate::cursor::advance(g.len() as int, i, j),
                    acc2,
                    end,
                );
            },
        }
    }
}

/// What a marker state may claim of the fields it was resolved against.
pub open spec fn marker_ok(
    fields: Seq<(Seq<char>, FieldV)>,
    nfields: nat,
    cur: SourceV,
) -> bool {
    match cur {
        SourceV::NoSource => true,
        SourceV::From(k) => key_pos(fields, k) >= 0 && nfields <= 1,
        SourceV::Source(k) => key_pos(fields, k) >= 0,
    }
}

proof fn lemma_resolve_attrs_ok(
    fields: Seq<(Seq<char>, FieldV)>,
    key: Seq<char>,
    attrs: Seq<AttrV>,
    ai: int,
    cur: SourceV,
    nfields: nat,
    vpos: u32,
)
    requires
        marker_ok(fields, nfields, cur),
        key_pos(fields, key) >= 0,
    ensures
        spec_resolve_attrs(key, attrs, ai, cur, nfields, vpos) matches Ok(c2) ==> marker_ok(
            fields,
            nfields,
            c2,
        ),
    decreases attrs.len() - ai,
{
    if 0 <= ai < attrs.len() {
        let a = attrs[ai];
        if a.name == "from"@ || a.name == "source"@ {
            match cur {
                SourceV::NoSource => {
                    if a.name == "from"@ {
                        if nfields <= 1 {
                            lemma_resolve_attrs_ok(
                                fields,
                                key,
                                attrs,
                                ai + 1,
                                SourceV::From(key),
                                nfields,
                                vpos,
                            );
                        }
                    } else {
                        lemma_resolve_attrs_ok(
                            fields,
                            key,
                            attrs,
                            ai + 1,
                            SourceV::Source(key),
                            nfields,
                            vpos,
                        );
                    }
                },
                _ => {},
            }
        } else {
            lemma_resolve_attrs_ok(fields, key, attrs, ai + 1, cur, nfields, vpos);
        }
    }
}

proof fn lemma_key_pos_present<V>(fields: Seq<(Seq<char>, V)>, k: Seq<char>, i: int)
    requires
        0 <= i < fields.len(),
        fields[i].0 == k,
    ensures
        key_pos(fields, k) >= 0,
    decreases i,
{
    if i > 0 && fields[0].0 != k {
        assert(fields.drop_first()[i - 1].0 == k);
        lemma_key_pos_present(fields.drop_first(), k, i - 1);
    }
}

proof fn lemma_resolve_ok(
    fields: Seq<(Seq<char>, FieldV)>,
    fi: int,
    cur: SourceV,
    nfields: nat,
    vpos: u32,
)
    requires
        marker_ok(fields, nfields, cur),
    ensures
        spec_resolve(fields, fi, cur, nfields, vpos) matches Ok(src) ==> marker_ok(
            fields,
            nfields,
            src,
        ),
    decreases fields.len() - fi,
{
    if 0 <= fi < fields.len() {
        lemma_key_pos_present(fields, fields[fi].0, fi);
        lemma_resolve_attrs_ok(fields, fields[fi].0, fields[fi].1.attrs, 0, cur, nfields, vpos);
        match spec_resolve_attrs(fields[fi].0, fields[fi].1.attrs, 0, cur, nfields, vpos) {
            Err(_) => {},
            Ok(c2) => {
                lemma_resolve_ok(fields, fi + 1, c2, nfields, vpos);
            },
        }
    }
}

proof fn lemma_key_pos_path_map(fields: Seq<(Seq<char>, FieldV)>, k: Seq<char>)
    ensures
        key_pos(fields.map_values(|p: (Seq<char>, FieldV)| (p.0, p.1.path)), k) == key_pos(
            fields,
            k,
        ),
    decreases fields.len(),
{
    let mapped = fields.map_values(|p: (Seq<char>, FieldV)| (p.0, p.1.path));
    if fields.len() > 0 {
        if fields[0].0 != k {
            lemma_key_pos_path_map(fields.drop_first(), k);
            assert(mapped.drop_first() =~= fields.drop_first().map_values(
                |p: (Seq<char>, FieldV)| (p.0, p.1.path),
            ));
        }
    }
}

/// Every variant the parser accepts is well-formed: unique keys, decimal
/// positional keys on a tuple variant, nothing carried by a unit variant,
/// and a marker that names an existing field — a conversion source only on
/// a single-field variant.
pub proof fn lemma_parsed_variant_wf(ts: Seq<Token>, i: int, end: u32)
    ensures
        spec_variant(ts, i, end) matches Ok(p) ==> variant_wf(p.0),
{
    match spec_variant(ts, i, end) {
        Err(_) => {},
        Ok((v, _)) => {
            match crate::cursor::spec_attrs(ts, i, end) {
                Err(_) => {},
                Ok((attrs, j)) => {
                    if 0 <= j < ts.len() && ts[j] is Ident {
                        if j + 1 < ts.len() && ts[j + 1] is Group {
                            let delim = ts[j + 1]->Group_delim;
                            let g = ts[j + 1]->Group_tokens@;
                            let gpos = ts[j + 1]->Group_pos;
                            if delim != crate::tokens::Delim::Bracket {
                                let fres = if delim == crate::tokens::Delim::Paren {
                                    spec_tuple_fields(g, 0, 0, Seq::empty(), gpos)
                                } else {
                                    spec_struct_fields(g, 0, Seq::empty(), gpos)
                                };
                                if delim == crate::tokens::Delim::Paren {
                                    lemma_tuple_fields_keys(g, 0, 0, Seq::empty(), gpos);
                                } else {
                                    lemma_struct_fields_unique(g, 0, Seq::empty(), gpos);
                                }
                                match fres {
                                    Err(_) => {},
                                    Ok(fpairs) => {
                                        if delim == crate::tokens::Delim::Paren {
                                            assert(keys_unique(fpairs)) by {
                                                assert forall|a: int, b: int|
                                                    0 <= a < b < fpairs.len() implies fpairs[a].0
                                                    != fpairs[b].0 by {
                                                    if fpairs[a].0 == fpairs[b].0 {
                                                        lemma_dec_str_injective(
                                                            a as nat,
                                                            b as nat,
                                                        );
                                                    }
                                                }
                                            }
                                        }
                                        lemma_resolve_ok(
                                            fpairs,
                                            0,
                                            SourceV::NoSource,
                                            fpairs.len(),
                                            ts[j]->Ident_pos,
                                        );
                                        match spec_resolve(
                                            fpairs,
                                            0,
                                            SourceV::NoSource,
                                            fpairs.len(),
                                            ts[j]->Ident_pos,
                                        ) {
                                            Err(_) => {},
                                            Ok(src) => {
                                                let mapped = fpairs.map_values(
                                                    |p: (Seq<char>, FieldV)| (p.0, p.1.path),
                                                );
                                                assert(forall|q: int|
                                                    0 <= q < fpairs.len() ==> (
                                                    #[trigger] mapped[q]).0 == fpairs[q].0);
                                                match src {
                                                    SourceV::NoSource => {},
                                                    SourceV::From(k) => {
                                                        lemma_key_pos_path_map(fpairs, k);
                                                        lemma_key_pos_bounds(fpairs, k);
                                                    },
                                                    SourceV::Source(k) => {
                                                        lemma_key_pos_path_map(fpairs, k);
                                                        lemma_key_pos_bounds(fpairs, k);
                                                    },
                                                }
                                            },
                                        }
                                    },
                                }
                            }
                        }
                    }
                },
            }
        },
    }
}

proof fn lemma_variants_wf(ts: Seq<Token>, i: int, acc: Seq<VariantV>, end: u32)
    requires
        forall|q: int| 0 <= q < acc.len() ==> variant_wf(#[trigger] acc[q]),
    ensures
        spec_variants(ts, i, acc, end) matches Ok(vs) ==> forall|q: int|
            0 <= q < vs.len() ==> variant_wf(#[trigger] vs[q]),
    decreases ts.len() - i,
{
    if 0 <= i < ts.len() {
        lemma_parsed_variant_wf(ts, i, end);
        match spec_variant(ts, i, end) {
            Err(_) => {},
            Ok((v, j)) => {
                lemma_variants_wf(
                    ts,
                    crate::cursor::advance(ts.len() as int, i, j),
                    acc.push(v),
                    end,
                );
            },
        }
    }
}

/// Every model the parser accepts satisfies the model invariant: each of
/// its variants is well-formed.
pub proof fn lemma_parsed_model_wf(ts: Seq<Token>, end: u32)
    ensures
        spec_enum(ts, end) matches Ok(m) ==> error_wf(m),
{
    match crate::cursor::spec_attrs(ts, 0, end) {
        Err(_) => {},
        Ok((attrs, i0)) => {
            let i1 = crate::cursor::spec_skip_vis(ts, i0);
            if 0 <= i1 < ts.len() && ts[i1].is_ident_named("enum"@) && i1 + 1 < ts.len() && ts[i1
                + 1] is Ident && i1 + 2 < ts.len() && (ts[i1 + 2] matches Token::Group {
                delim: crate::tokens::Delim::Brace,
                ..
            }) {
                let g = ts[i1 + 2]->Group_tokens@;
                let gpos = ts[i1 + 2]->Group_pos;
                lemma_variants_wf(g, 0, Seq::empty(), gpos);
            }
        },
    }
}


} // verus!
