//! The code generator: from the finished model to the emitted source text.
//!
//! Three pieces are emitted: the error-cause accessor, the display routine
//! (omitted when formatting is suppressed), and one conversion constructor
//! per `#[from]` field.  The text is pinned down exactly, character for
//! character, by the spec functions here.

use vstd::prelude::*;

use crate::model::{
    key_pos, key_val, lemma_key_pos_absent, lemma_key_pos_first,
    lemma_map_keys, DiagKindV, DiagV, Diagnostic, DiagnosticKind, Error, ErrorSource, ErrorV,
    SourceV, Variant, VariantType, VariantV,
};
use crate::text::{chars_to_string, dec_str, push_quoted, push_str_chars, quoted, usize_to_string};
use vstd::string::StringExecFns;

verus! {

/// The alias a tuple field is bound under in generated display code.
pub open spec fn field_alias(i: nat) -> Seq<char> {
    "field_"@ + dec_str(i)
}

/// The pattern list of a tuple cause-accessor arm: `field,` at the marked
/// position `kp`, `_,` elsewhere.
pub open spec fn src_binders(n: int, kp: int, i: int) -> Seq<char>
    decreases n - i,
{
    if i >= n {
        Seq::empty()
    } else {
        (if i == kp {
            "field,"@
        } else {
            "_,"@
        }) + src_binders(n, kp, i + 1)
    }
}

/// The cause-accessor arm of one variant; empty when it has no marked
/// field.
pub open spec fn spec_source_arm(v: VariantV) -> Seq<char> {
    let k = match v.source {
        SourceV::NoSource => Seq::<char>::empty(),
        SourceV::From(k) => k,
        SourceV::Source(k) => k,
    };
    if v.source is NoSource {
        Seq::empty()
    } else {
        match v.ty {
            VariantType::Unit => "Self::"@ + v.name + " => None,"@,
            VariantType::Tuple => "Self::"@ + v.name + "("@ + src_binders(
                v.fields.len() as int,
                key_pos(v.fields, k),
                0,
            ) + ") => Some(field),"@,
            VariantType::Struct => "Self::"@ + v.name + " { "@ + k + ", ..} => Some("@ + k
                + "),"@,
        }
    }
}

/// The cause-accessor arms of all variants from `i` on, in order.
pub open spec fn spec_source_arms(vs: Seq<VariantV>, i: int) -> Seq<char>
    decreases vs.len() - i,
{
    if !(0 <= i < vs.len()) {
        Seq::empty()
    } else {
        spec_source_arm(vs[i]) + spec_source_arms(vs, i + 1)
    }
}

/// The whole error-cause accessor implementation.
pub open spec fn spec_error_impl(m: ErrorV) -> Seq<char> {
    "impl ::std::error::Error for "@ + m.name
        + " { fn source(&self) -> Option<&(dyn ::std::error::Error + 'static)> { match self { "@
        + spec_source_arms(m.variants, 0) + " _ => None, } } }"@
}

/// The display arguments: every referenced placeholder name, in template
/// order, each with a trailing comma.
pub open spec fn disp_args(dfs: Seq<Seq<char>>, i: int) -> Seq<char>
    decreases dfs.len() - i,
{
    if !(0 <= i < dfs.len()) {
        Seq::empty()
    } else {
        dfs[i] + ","@ + disp_args(dfs, i + 1)
    }
}

/// The pattern list of a tuple display arm: the alias where the template
/// references it, `_,` elsewhere.
pub open spec fn tuple_disp_binders(dfs: Seq<Seq<char>>, n: int, i: int) -> Seq<char>
    decreases n - i,
{
    if i >= n {
        Seq::empty()
    } else {
        (if dfs.contains(field_alias(i as nat)) {
            field_alias(i as nat) + ","@
        } else {
            "_,"@
        }) + tuple_disp_binders(dfs, n, i + 1)
    }
}

/// The display arm of one variant.
pub open spec fn spec_display_arm(v: VariantV) -> Seq<char> {
    match v.ty {
        VariantType::Unit => "Self::"@ + v.name + " => write!(f, "@ + quoted(v.display) + "),"@,
        VariantType::Tuple => "Self::"@ + v.name + "("@ + tuple_disp_binders(
            v.display_fields,
            v.fields.len() as int,
            0,
        ) + ") => write!(f, "@ + quoted(v.display) + ", "@ + disp_args(v.display_fields, 0)
            + "),"@,
        VariantType::Struct => "Self::"@ + v.name + " { "@ + disp_args(v.display_fields, 0)
            + " .. } => write!(f, "@ + quoted(v.display) + ", "@ + disp_args(v.display_fields, 0)
            + "),"@,
    }
}

/// The display arms of all variants from `i` on, in order.
pub open spec fn spec_display_arms(vs: Seq<VariantV>, i: int) -> Seq<char>
    decreases vs.len() - i,
{
    if !(0 <= i < vs.len()) {
        Seq::empty()
    } else {
        spec_display_arm(vs[i]) + spec_display_arms(vs, i + 1)
    }
}

/// The whole display implementation; empty when formatting is suppressed.
pub open spec fn spec_display_impl(m: ErrorV) -> Seq<char> {
    if m.no_display {
        Seq::empty()
    } else {
        "impl ::std::fmt::Display for "@ + m.name
            + " { fn fmt(&self, f: &mut ::std::fmt::Formatter<'_>) -> ::std::result::Result<(), ::std::fmt::Error> { "@
            + (if m.variants.len() == 0 {
            "Ok(())"@
        } else {
            "match self { "@ + spec_display_arms(m.variants, 0) + " }"@
        }) + " } }"@
    }
}

/// The conversion constructor of one variant; empty unless its marker is a
/// conversion source.
pub open spec fn spec_from_impl(ename: Seq<char>, v: VariantV) -> Seq<char> {
    match v.source {
        SourceV::From(k) => {
            let ty = key_val(v.fields, k);
            let body = if v.ty == VariantType::Tuple {
                "Self::"@ + v.name + "(value)"@
            } else {
                "Self::"@ + v.name + " { "@ + k + ": value }"@
            };
            "impl ::std::convert::From<"@ + ty + "> for "@ + ename + " { fn from(value: "@ + ty
                + ") -> Self { "@ + body + " } }"@
        },
        SourceV::Source(_) => Seq::empty(),
        SourceV::NoSource => Seq::empty(),
    }
}

/// The conversion constructors of all variants from `i` on, in order.
pub open spec fn spec_from_impls(m: ErrorV, i: int) -> Seq<char>
    decreases m.variants.len() - i,
{
    if !(0 <= i < m.variants.len()) {
        Seq::empty()
    } else {
        spec_from_impl(m.name, m.variants[i]) + spec_from_impls(m, i + 1)
    }
}

/// The first variant with an empty display template; the length when every
/// variant has one.
pub open spec fn first_missing(vs: Seq<VariantV>, i: int) -> int
    decreases vs.len() - i,
{
    if !(0 <= i < vs.len()) {
        vs.len() as int
    } else if vs[i].display.len() == 0 {
        i
    } else {
        first_missing(vs, i + 1)
    }
}

/// What generation yields for a model: a missing-message diagnostic at the
/// first offending variant when formatting is wanted and some variant has
/// no template, and otherwise the three implementations, newline-joined.
pub open spec fn spec_generate(m: ErrorV) -> Result<Seq<char>, DiagV> {
    if !m.no_display && first_missing(m.variants, 0) < m.variants.len() {
        Err(
            DiagV {
                kind: DiagKindV::MissingDisplayMessage,
                pos: m.variants[first_missing(m.variants, 0)].name_pos,
            },
        )
    } else {
        Ok(
            spec_error_impl(m) + "\n"@ + spec_display_impl(m) + "\n"@ + spec_from_impls(m, 0),
        )
    }
}

fn push_src_binders(n: usize, kp: usize, kps: Ghost<int>, i: usize, out: &mut Vec<char>)
    requires
        i <= n,
        0 <= kps@ < n ==> kps@ == kp as int,
        !(0 <= kps@ < n) ==> kp >= n,
    ensures
        final(out)@ == old(out)@ + src_binders(n as int, kps@, i as int),
    decreases n - i,
{
    if i >= n {
        return ;
    }
    if i == kp {
        push_str_chars("field,", out);
    } else {
        push_str_chars("_,", out);
    }
    push_src_binders(n, kp, kps, i + 1, out);
    proof {
        assert(out@ =~= old(out)@ + src_binders(n as int, kps@, i as int));
    }
}

fn push_source_arm(v: &Variant, out: &mut Vec<char>)
    ensures
        final(out)@ == old(out)@ + spec_source_arm(v@),
{
    let key: &String = match v.source.as_ref() {
        Some(k) => k,
        None => {
            proof {
                assert(out@ =~= old(out)@ + spec_source_arm(v@));
            }
            return ;
        },
    };
    match v.ty {
        VariantType::Unit => {
            push_str_chars("Self::", out);
            push_str_chars(v.name.as_str(), out);
            push_str_chars(" => None,", out);
        },
        VariantType::Tuple => {
            let n = v.fields.len();
            let kp = match v.fields.index_of(key.as_str()) {
                Some(p) => {
                    proof {
                        lemma_map_keys(&v.fields);
                        lemma_key_pos_first(v@.fields, key@, p as int);
                    }
                    p
                },
                None => {
                    proof {
                        lemma_map_keys(&v.fields);
                        lemma_key_pos_absent(v@.fields, key@);
                    }
                    n
                },
            };
            let ghost kps = key_pos(v@.fields, key@);
            push_str_chars("Self::", out);
            push_str_chars(v.name.as_str(), out);
            push_str_chars("(", out);
            push_src_binders(n, kp, Ghost(kps), 0, out);
            push_str_chars(") => Some(field),", out);
        },
        VariantType::Struct => {
            push_str_chars("Self::", out);
            push_str_chars(v.name.as_str(), out);
            push_str_chars(" { ", out);
            push_str_chars(key.as_str(), out);
            push_str_chars(", ..} => Some(", out);
            push_str_chars(key.as_str(), out);
            push_str_chars("),", out);
        },
    }
    proof {
        assert(out@ =~= old(out)@ + spec_source_arm(v@));
    }
}

fn push_source_arms(vs: &Vec<Variant>, i: usize, out: &mut Vec<char>)
    requires
        i <= vs@.len(),
    ensures
        final(out)@ == old(out)@ + spec_source_arms(vs@.map_values(|v: Variant| v@), i as int),
    decreases vs@.len() - i,
{
    if i >= vs.len() {
        proof {
            assert(out@ =~= old(out)@ + spec_source_arms(
                vs@.map_values(|v: Variant| v@),
                i as int,
            ));
        }
        return ;
    }
    proof {
        assert(vs@.map_values(|v: Variant| v@)[i as int] == vs@[i as int]@);
    }
    push_source_arm(&vs[i], out);
    push_source_arms(vs, i + 1, out);
    proof {
        assert(out@ =~= old(out)@ + spec_source_arms(vs@.map_values(|v: Variant| v@), i as int));
    }
}

fn push_disp_args(dfs: &Vec<String>, i: usize, out: &mut Vec<char>)
    requires
        i <= dfs@.len(),
    ensures
        final(out)@ == old(out)@ + disp_args(dfs@.map_values(|s: String| s@), i as int),
    decreases dfs@.len() - i,
{
    if i >= dfs.len() {
        proof {
            assert(out@ =~= old(out)@ + disp_args(dfs@.map_values(|s: String| s@), i as int));
        }
        return ;
    }
    proof {
        assert(dfs@.map_values(|s: String| s@)[i as int] == dfs@[i as int]@);
    }
    push_str_chars(dfs[i].as_str(), out);
    push_str_chars(",", out);
    push_disp_args(dfs, i + 1, out);
    proof {
        assert(out@ =~= old(out)@ + disp_args(dfs@.map_values(|s: String| s@), i as int));
    }
}

fn contains_name(dfs: &Vec<String>, name: &str) -> (r: bool)
    ensures
        r == dfs@.map_values(|s: String| s@).contains(name@),
{
    let n = dfs.len();
    let mut i: usize = 0;
    while i < n
        invariant
            n == dfs@.len(),
            i <= n,
            forall|q: int| 0 <= q < i ==> (#[trigger] dfs@[q])@ != name@,
        decreases n - i,
    {
        if crate::text::str_eq(dfs[i].as_str(), name) {
            proof {
                assert(dfs@.map_values(|s: String| s@)[i as int] == name@);
            }
            return true;
        }
        i = i + 1;
    }
    proof {
        let md = dfs@.map_values(|s: String| s@);
        assert(forall|q: int| 0 <= q < md.len() ==> (#[trigger] md[q]) == dfs@[q]@);
        if md.contains(name@) {
            let q = choose|q: int| 0 <= q < md.len() && md[q] == name@;
            assert(false);
        }
    }
    false
}

fn push_tuple_disp_binders(dfs: &Vec<String>, n: usize, i: usize, out: &mut Vec<char>)
    requires
        i <= n,
    ensures
        final(out)@ == old(out)@ + tuple_disp_binders(
            dfs@.map_values(|s: String| s@),
            n as int,
            i as int,
        ),
    decreases n - i,
{
    if i >= n {
        return ;
    }
    let num = usize_to_string(i);
    let mut alias = "field_".to_owned();
    alias.append(num.as_str());
    proof {
        assert(alias@ == field_alias(i as nat));
    }
    if contains_name(dfs, alias.as_str()) {
        push_str_chars(alias.as_str(), out);
        push_str_chars(",", out);
    } else {
        push_str_chars("_,", out);
    }
    push_tuple_disp_binders(dfs, n, i + 1, out);
    proof {
        assert(out@ =~= old(out)@ + tuple_disp_binders(
            dfs@.map_values(|s: String| s@),
            n as int,
            i as int,
        ));
    }
}

fn push_display_arm(v: &Variant, out: &mut Vec<char>)
    ensures
        final(out)@ == old(out)@ + spec_display_arm(v@),
{
    match v.ty {
        VariantType::Unit => {
            push_str_chars("Self::", out);
            push_str_chars(v.name.as_str(), out);
            push_str_chars(" => write!(f, ", out);
            push_quoted(v.display.as_str(), out);
            push_str_chars("),", out);
        },
        VariantType::Tuple => {
            push_str_chars("Self::", out);
            push_str_chars(v.name.as_str(), out);
            push_str_chars("(", out);
            push_tuple_disp_binders(&v.display_fields, v.fields.len(), 0, out);
            push_str_chars(") => write!(f, ", out);
            push_quoted(v.display.as_str(), out);
            push_str_chars(", ", out);
            push_disp_args(&v.display_fields, 0, out);
            push_str_chars("),", out);
        },
        VariantType::Struct => {
            push_str_chars("Self::", out);
            push_str_chars(v.name.as_str(), out);
            push_str_chars(" { ", out);
            push_disp_args(&v.display_fields, 0, out);
            push_str_chars(" .. } => write!(f, ", out);
            push_quoted(v.display.as_str(), out);
            push_str_chars(", ", out);
            push_disp_args(&v.display_fields, 0, out);
            push_str_chars("),", out);
        },
    }
    proof {
        assert(out@ =~= old(out)@ + spec_display_arm(v@));
    }
}

fn push_display_arms(vs: &Vec<Variant>, i: usize, out: &mut Vec<char>)
    requires
        i <= vs@.len(),
    ensures
        final(out)@ == old(out)@ + spec_display_arms(vs@.map_values(|v: Variant| v@), i as int),
    decreases vs@.len() - i,
{
    if i >= vs.len() {
        proof {
            assert(out@ =~= old(out)@ + spec_display_arms(
                vs@.map_values(|v: Variant| v@),
                i as int,
            ));
        }
        return ;
    }
    proof {
        assert(vs@.map_values(|v: Variant| v@)[i as int] == vs@[i as int]@);
    }
    push_display_arm(&vs[i], out);
    push_display_arms(vs, i + 1, out);
    proof {
        assert(out@ =~= old(out)@ + spec_display_arms(vs@.map_values(|v: Variant| v@), i as int));
    }
}

fn push_from_impl(ename: &str, v: &Variant, out: &mut Vec<char>)
    ensures
        final(out)@ == old(out)@ + spec_from_impl(ename@, v@),
{
    let key: &String = match &v.source {
        ErrorSource::From(k) => k,
        _ => {
            proof {
                assert(out@ =~= old(out)@ + spec_from_impl(ename@, v@));
            }
            return ;
        },
    };
    let ty: String = match v.fields.get(key.as_str()) {
        Some(t) => {
            proof {
                lemma_map_keys(&v.fields);
                let q = choose|q: int|
                    0 <= q < v.fields.spec_pairs().len() && (#[trigger] v.fields.spec_pairs()[q]).0
                        == key@ && v.fields.spec_pairs()[q].1 == *t && forall|j: int|
                        0 <= j < q ==> v.fields.spec_pairs()[j].0 != key@;
                assert(forall|j: int| 0 <= j < q ==> v@.fields[j].0 != key@);
                lemma_key_pos_first(v@.fields, key@, q);
                assert(key_val(v@.fields, key@) == t@);
            }
            t.clone()
        },
        None => {
            proof {
                lemma_map_keys(&v.fields);
                lemma_key_pos_absent(v@.fields, key@);
                assert(key_val(v@.fields, key@) == Seq::<char>::empty());
                reveal_strlit("");
                assert(""@ =~= Seq::<char>::empty());
            }
            "".to_owned()
        },
    };
    push_str_chars("impl ::std::convert::From<", out);
    push_str_chars(ty.as_str(), out);
    push_str_chars("> for ", out);
    push_str_chars(ename, out);
    push_str_chars(" { fn from(value: ", out);
    push_str_chars(ty.as_str(), out);
    push_str_chars(") -> Self { ", out);
    push_str_chars("Self::", out);
    push_str_chars(v.name.as_str(), out);
    let is_tuple = matches!(v.ty, VariantType::Tuple);
    if is_tuple {
        push_str_chars("(value)", out);
    } else {
        push_str_chars(" { ", out);
        push_str_chars(key.as_str(), out);
        push_str_chars(": value }", out);
    }
    push_str_chars(" } }", out);
    proof {
        assert(out@ =~= old(out)@ + spec_from_impl(ename@, v@));
    }
}

fn push_from_impls(ast: &Error, i: usize, out: &mut Vec<char>)
    requires
        i <= ast.variants@.len(),
    ensures
        final(out)@ == old(out)@ + spec_from_impls(ast@, i as int),
    decreases ast.variants@.len() - i,
{
    if i >= ast.variants.len() {
        proof {
            assert(out@ =~= old(out)@ + spec_from_impls(ast@, i as int));
        }
        return ;
    }
    proof {
        assert(ast@.variants[i as int] == ast.variants@[i as int]@);
    }
    push_from_impl(ast.name.as_str(), &ast.variants[i], out);
    push_from_impls(ast, i + 1, out);
    proof {
        assert(out@ =~= old(out)@ + spec_from_impls(ast@, i as int));
    }
}

/// Emit the three implementations for the model, or the missing-message
/// diagnostic that replaces them.
pub fn generate(ast: &Error) -> (r: Result<String, Diagnostic>)
    ensures
        match spec_generate(ast@) {
            Ok(t) => r matches Ok(s) && s@ == t,
            Err(d) => r matches Err(e) && e@ == d,
        },
{
    let ghost vsv = ast@.variants;
    if !ast.no_display {
        let n = ast.variants.len();
        let mut i: usize = 0;
        while i < n
            invariant
                n == ast.variants@.len(),
                i <= n,
                vsv == ast@.variants,
                !ast.no_display,
                first_missing(vsv, 0) == first_missing(vsv, i as int),
            decreases n - i,
        {
            proof {
                assert(vsv[i as int] == ast.variants@[i as int]@);
            }
            if ast.variants[i].display.as_str().is_empty() {
                proof {
                    assert(first_missing(vsv, i as int) == i);
                }
                return Err(
                    Diagnostic {
                        kind: DiagnosticKind::MissingDisplayMessage,
                        pos: ast.variants[i].name_pos,
                    },
                );
            }
            i = i + 1;
        }
        proof {
            assert(first_missing(vsv, n as int) == n);
        }
    }
    let mut out: Vec<char> = Vec::new();
    push_str_chars("impl ::std::error::Error for ", &mut out);
    push_str_chars(ast.name.as_str(), &mut out);
    push_str_chars(
        " { fn source(&self) -> Option<&(dyn ::std::error::Error + 'static)> { match self { ",
        &mut out,
    );
    push_source_arms(&ast.variants, 0, &mut out);
    push_str_chars(" _ => None, } } }", &mut out);
    push_str_chars("\n", &mut out);
    proof {
        assert(out@ =~= spec_error_impl(ast@) + "\n"@);
    }
    if !ast.no_display {
        push_str_chars("impl ::std::fmt::Display for ", &mut out);
        push_str_chars(ast.name.as_str(), &mut out);
        push_str_chars(
            " { fn fmt(&self, f: &mut ::std::fmt::Formatter<'_>) -> ::std::result::Result<(), ::std::fmt::Error> { ",
            &mut out,
        );
        if ast.variants.len() == 0 {
            push_str_chars("Ok(())", &mut out);
        } else {
            push_str_chars("match self { ", &mut out);
            push_display_arms(&ast.variants, 0, &mut out);
            push_str_chars(" }", &mut out);
        }
        push_str_chars(" } }", &mut out);
    }
    push_str_chars("\n", &mut out);
    proof {
        assert(out@ =~= spec_error_impl(ast@) + "\n"@ + spec_display_impl(ast@) + "\n"@);
    }
    push_from_impls(ast, 0, &mut out);
    proof {
        assert(out@ =~= spec_error_impl(ast@) + "\n"@ + spec_display_impl(ast@) + "\n"@
            + spec_from_impls(ast@, 0));
    }
    Ok(chars_to_string(&out))
}

} // verus!
