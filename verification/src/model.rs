//! The structured model of one error enum, and the diagnostics that replace
//! generated code when the input is rejected.

use vstd::prelude::*;

use crate::text::{dec_str, str_eq};
use vstd::string::StringExecFns;

verus! {

/// What a diagnostic reports.
#[derive(Debug)]
pub enum DiagnosticKind {
    /// A token of an unexpected shape, or missing input.
    UnexpectedToken,
    /// Input left over after the enum definition.
    TrailingTokens,
    /// A second cause marker in one variant; carries the field that held
    /// the first.
    DuplicateCauseMarker { first_field: String },
    /// A conversion-source marker on a variant with more than one field.
    ConversionArityError,
    /// A variant with neither message attribute nor doc comment while
    /// formatting is generated.
    MissingDisplayMessage,
    /// The host could not assemble the emitted text.
    CodeAssemblyError { message: String },
}

/// A diagnostic replacing the generated code: what went wrong, and the
/// source position it points at.
#[derive(Debug)]
pub struct Diagnostic {
    pub kind: DiagnosticKind,
    pub pos: u32,
}

/// The mathematical shape of a diagnostic kind.
pub ghost enum DiagKindV {
    UnexpectedToken,
    TrailingTokens,
    DuplicateCauseMarker { first_field: Seq<char> },
    ConversionArityError,
    MissingDisplayMessage,
    CodeAssemblyError { message: Seq<char> },
}

/// The mathematical shape of a diagnostic.
pub ghost struct DiagV {
    pub kind: DiagKindV,
    pub pos: u32,
}

impl View for DiagnosticKind {
    type V = DiagKindV;

    open spec fn view(&self) -> DiagKindV {
        match self {
            DiagnosticKind::UnexpectedToken => DiagKindV::UnexpectedToken,
            DiagnosticKind::TrailingTokens => DiagKindV::TrailingTokens,
            DiagnosticKind::DuplicateCauseMarker { first_field } => (
            DiagKindV::DuplicateCauseMarker { first_field: first_field@ }),
            DiagnosticKind::ConversionArityError => DiagKindV::ConversionArityError,
            DiagnosticKind::MissingDisplayMessage => DiagKindV::MissingDisplayMessage,
            DiagnosticKind::CodeAssemblyError { message } => (
            DiagKindV::CodeAssemblyError { message: message@ }),
        }
    }
}

impl View for Diagnostic {
    type V = DiagV;

    open spec fn view(&self) -> DiagV {
        DiagV { kind: self.kind@, pos: self.pos }
    }
}

/// The human-readable message of a diagnostic kind.
pub open spec fn spec_message(k: DiagKindV) -> Seq<char> {
    match k {
        DiagKindV::UnexpectedToken => "Unexpected token"@,
        DiagKindV::TrailingTokens => "Unexpected token"@,
        DiagKindV::DuplicateCauseMarker { first_field } => (
        "#[from] | #[source] can only be used once. Previously seen on field `"@ + first_field
            + "`"@),
        DiagKindV::ConversionArityError => "#[from] can only be used with a single field"@,
        DiagKindV::MissingDisplayMessage => "Required error message is missing"@,
        DiagKindV::CodeAssemblyError { message } => message,
    }
}

impl Diagnostic {
    /// The human-readable message of the diagnostic.
    pub fn message(&self) -> (s: String)
        ensures
            s@ == spec_message(self@.kind),
    {
        match &self.kind {
            DiagnosticKind::UnexpectedToken => "Unexpected token".to_owned(),
            DiagnosticKind::TrailingTokens => "Unexpected token".to_owned(),
            DiagnosticKind::DuplicateCauseMarker { first_field } => {
                let mut s =
                    "#[from] | #[source] can only be used once. Previously seen on field `".to_owned();
                s.append(first_field.as_str());
                s.append("`");
                proof {
                    assert(s@ =~= spec_message(self@.kind));
                }
                s
            },
            DiagnosticKind::ConversionArityError => (
            "#[from] can only be used with a single field".to_owned()),
            DiagnosticKind::MissingDisplayMessage => "Required error message is missing".to_owned(),
            DiagnosticKind::CodeAssemblyError { message } => message.clone(),
        }
    }
}

/// How a variant carries its payload.
#[derive(Clone, Copy, PartialEq, Eq, Structural, Debug)]
pub enum VariantType {
    Unit,
    Tuple,
    Struct,
}

/// The cause marker of a variant: no marked field, a `#[from]` field
/// (cause and conversion source), or a `#[source]` field (cause only).
pub enum ErrorSource {
    NoSource,
    From(String),
    Source(String),
}

/// The mathematical shape of a cause marker.
pub ghost enum SourceV {
    NoSource,
    From(Seq<char>),
    Source(Seq<char>),
}

impl View for ErrorSource {
    type V = SourceV;

    open spec fn view(&self) -> SourceV {
        match self {
            ErrorSource::NoSource => SourceV::NoSource,
            ErrorSource::From(k) => SourceV::From(k@),
            ErrorSource::Source(k) => SourceV::Source(k@),
        }
    }
}

/// One variant of the enum: its name and position, its payload shape, its
/// fields (key to type-path text, in declaration order), its display
/// template, the placeholder names the template references, and its cause
/// marker.
pub struct Variant {
    pub name: String,
    pub name_pos: u32,
    pub ty: VariantType,
    pub fields: OrderedMap<String>,
    pub display: String,
    pub display_fields: Vec<String>,
    pub source: ErrorSource,
}

/// The mathematical shape of one variant.
pub ghost struct VariantV {
    pub name: Seq<char>,
    pub name_pos: u32,
    pub ty: VariantType,
    pub fields: Seq<(Seq<char>, Seq<char>)>,
    pub display: Seq<char>,
    pub display_fields: Seq<Seq<char>>,
    pub source: SourceV,
}

impl View for Variant {
    type V = VariantV;

    open spec fn view(&self) -> VariantV {
        VariantV {
            name: self.name@,
            name_pos: self.name_pos,
            ty: self.ty,
            fields: self.fields.spec_pairs().map_values(|p: (Seq<char>, String)| (p.0, p.1@)),
            display: self.display@,
            display_fields: self.display_fields@.map_values(|s: String| s@),
            source: self.source@,
        }
    }
}

/// The whole enum definition: its name, whether formatting is suppressed,
/// and its variants in declaration order.
pub struct Error {
    pub name: String,
    pub no_display: bool,
    pub variants: Vec<Variant>,
}

/// The mathematical shape of the enum definition.
pub ghost struct ErrorV {
    pub name: Seq<char>,
    pub no_display: bool,
    pub variants: Seq<VariantV>,
}

impl View for Error {
    type V = ErrorV;

    open spec fn view(&self) -> ErrorV {
        ErrorV {
            name: self.name@,
            no_display: self.no_display,
            variants: self.variants@.map_values(|v: Variant| v@),
        }
    }
}

/// The position of key `k` among `fields`, `-1` when absent; when it is
/// not negative it is below the length and names a pair holding `k`.
pub open spec fn key_pos<V>(fields: Seq<(Seq<char>, V)>, k: Seq<char>) -> int
    decreases fields.len(),
{
    if fields.len() == 0 {
        -1
    } else if fields[0].0 == k {
        0
    } else {
        let r = key_pos(fields.drop_first(), k);
        if r < 0 {
            -1
        } else {
            r + 1
        }
    }
}

/// The type-path text stored under key `k`; empty when absent.
pub open spec fn key_val(fields: Seq<(Seq<char>, Seq<char>)>, k: Seq<char>) -> Seq<char> {
    if key_pos(fields, k) >= 0 {
        fields[key_pos(fields, k)].1
    } else {
        Seq::empty()
    }
}

/// With unique keys, the position of a key that stands at `i` is `i`.
pub proof fn lemma_key_pos_unique<V>(fields: Seq<(Seq<char>, V)>, k: Seq<char>, i: int)
    requires
        0 <= i < fields.len(),
        fields[i].0 == k,
        forall|a: int, b: int| 0 <= a < b < fields.len() ==> fields[a].0 != fields[b].0,
    ensures
        key_pos(fields, k) == i,
    decreases i,
{
    if i == 0 {
    } else {
        assert(fields[0].0 != k);
        assert(fields.drop_first()[i - 1].0 == k);
        lemma_key_pos_unique(fields.drop_first(), k, i - 1);
    }
}

/// A key's position is in range and names a pair holding the key; a key
/// found at some position has a non-negative position.
pub proof fn lemma_key_pos_bounds<V>(fields: Seq<(Seq<char>, V)>, k: Seq<char>)
    ensures
        -1 <= key_pos(fields, k) < fields.len(),
        key_pos(fields, k) >= 0 ==> fields[key_pos(fields, k)].0 == k,
        key_pos(fields, k) == -1 ==> forall|i: int|
            0 <= i < fields.len() ==> (#[trigger] fields[i]).0 != k,
    decreases fields.len(),
{
    if fields.len() > 0 && fields[0].0 != k {
        lemma_key_pos_bounds(fields.drop_first(), k);
        assert(forall|i: int|
            1 <= i < fields.len() ==> (#[trigger] fields[i]) == fields.drop_first()[i - 1]);
    }
}

/// The position of the first occurrence of key `k` is its `key_pos`.
pub proof fn lemma_key_pos_first<V>(fields: Seq<(Seq<char>, V)>, k: Seq<char>, i: int)
    requires
        0 <= i < fields.len(),
        fields[i].0 == k,
        forall|j: int| 0 <= j < i ==> fields[j].0 != k,
    ensures
        key_pos(fields, k) == i,
    decreases i,
{
    if i == 0 {
    } else {
        assert(fields[0].0 != k);
        assert(fields.drop_first()[i - 1].0 == k);
        lemma_key_pos_first(fields.drop_first(), k, i - 1);
    }
}

/// When no field holds key `k`, its position is `-1`.
pub proof fn lemma_key_pos_absent<V>(fields: Seq<(Seq<char>, V)>, k: Seq<char>)
    requires
        forall|i: int| 0 <= i < fields.len() ==> fields[i].0 != k,
    ensures
        key_pos(fields, k) == -1,
    decreases fields.len(),
{
    if fields.len() > 0 {
        lemma_key_pos_absent(fields.drop_first(), k);
    }
}

/// A well-formed variant: unique field keys, tuple keys counting up in
/// decimal, a unit variant carrying nothing, and the cause marker naming
/// an existing field — with a conversion source only on a single-field
/// variant.
pub open spec fn variant_wf(v: VariantV) -> bool {
    &&& forall|a: int, b: int| 0 <= a < b < v.fields.len() ==> v.fields[a].0 != v.fields[b].0
    &&& v.ty == VariantType::Unit ==> v.fields.len() == 0
    &&& v.ty == VariantType::Tuple ==> forall|i: int|
        0 <= i < v.fields.len() ==> v.fields[i].0 == dec_str(i as nat)
    &&& match v.source {
        SourceV::NoSource => true,
        SourceV::From(k) => key_pos(v.fields, k) >= 0 && v.fields.len() == 1,
        SourceV::Source(k) => key_pos(v.fields, k) >= 0,
    }
}

/// A well-formed enum model: every variant well-formed.
pub open spec fn error_wf(e: ErrorV) -> bool {
    forall|i: int| 0 <= i < e.variants.len() ==> variant_wf(#[trigger] e.variants[i])
}

/// An insertion-ordered map from string keys to values.
///
/// Keys stay unique: inserting an existing key replaces its value in place
/// and keeps the key's original position.
pub struct OrderedMap<T> {
    pairs: Vec<(String, T)>,
}

impl<T> OrderedMap<T> {
    /// The pairs the map holds, keys abstracted to character sequences,
    /// in insertion order.
    pub closed spec fn spec_pairs(&self) -> Seq<(Seq<char>, T)> {
        self.pairs@.map_values(|p: (String, T)| (p.0@, p.1))
    }

    /// The keys the map holds, in insertion order.
    pub open spec fn spec_keys(&self) -> Seq<Seq<char>> {
        self.spec_pairs().map_values(|p: (Seq<char>, T)| p.0)
    }

    /// Whether `k` is a key of the map.
    pub open spec fn spec_contains(&self, k: Seq<char>) -> bool {
        exists|i: int| 0 <= i < self.spec_keys().len() && self.spec_keys()[i] == k
    }

    /// Keys are unique.
    pub open spec fn wf(&self) -> bool {
        forall|i: int, j: int|
            0 <= i < j < self.spec_keys().len() ==> self.spec_keys()[i] != self.spec_keys()[j]
    }

    /// An empty map.
    pub fn new() -> (r: Self)
        ensures
            r.spec_pairs() == Seq::<(Seq<char>, T)>::empty(),
            r.wf(),
    {
        let r = OrderedMap { pairs: Vec::new() };
        proof {
            assert(r.spec_pairs() =~= Seq::<(Seq<char>, T)>::empty());
        }
        r
    }

    /// How many keys the map holds.
    pub fn len(&self) -> (n: usize)
        ensures
            n == self.spec_pairs().len(),
    {
        self.pairs.len()
    }

    /// The position of key `key`, if it is present.
    pub fn index_of(&self, key: &str) -> (r: Option<usize>)
        ensures
            match r {
                Some(i) => i < self.spec_pairs().len() && self.spec_keys()[i as int] == key@
                    && forall|j: int| 0 <= j < i ==> self.spec_keys()[j] != key@,
                None => forall|i: int|
                    0 <= i < self.spec_keys().len() ==> self.spec_keys()[i] != key@,
            },
    {
        let n = self.pairs.len();
        let mut i: usize = 0;
        while i < n
            invariant
                n == self.spec_pairs().len(),
                i <= n,
                forall|j: int| 0 <= j < i ==> self.spec_keys()[j] != key@,
            decreases n - i,
        {
            if str_eq(self.pairs[i].0.as_str(), key) {
                return Some(i);
            }
            i = i + 1;
        }
        None
    }

    /// The value stored under `key`, if any.
    pub fn get(&self, key: &str) -> (r: Option<&T>)
        ensures
            match r {
                Some(v) => exists|i: int|
                    0 <= i < self.spec_pairs().len() && (#[trigger] self.spec_pairs()[i]).0
                        == key@ && self.spec_pairs()[i].1 == *v && forall|j: int|
                        0 <= j < i ==> self.spec_pairs()[j].0 != key@,
                None => forall|i: int|
                    0 <= i < self.spec_keys().len() ==> self.spec_keys()[i] != key@,
            },
    {
        match self.index_of(key) {
            Some(i) => {
                proof {
                    lemma_map_keys(self);
                }
                Some(&self.pairs[i].1)
            },
            None => None,
        }
    }

    /// Insert `value` under `key`.
    ///
    /// A fresh key goes to the back; an existing key keeps its position and
    /// has its value replaced, the old value coming back to the caller.
    pub fn insert(&mut self, key: String, value: T) -> (r: Option<T>)
        ensures
            match r {
                None => {
                    &&& !old(self).spec_contains(key@)
                    &&& final(self).spec_pairs() =~= old(self).spec_pairs().push((key@, value))
                },
                Some(v) => exists|i: int|
                    0 <= i < old(self).spec_pairs().len() && old(self).spec_pairs()[i].0 == key@
                        && old(self).spec_pairs()[i].1 == v && final(self).spec_pairs() =~= old(
                        self,
                    ).spec_pairs().update(i, (key@, value)),
            },
            old(self).wf() ==> final(self).wf(),
    {
        let found = self.index_of(key.as_str());
        match found {
            Some(i) => {
                let (_old_key, old_value) = self.pairs.remove(i);
                self.pairs.insert(i, (key, value));
                proof {
                    assert(self.spec_pairs() =~= old(self).spec_pairs().update(
                        i as int,
                        (key@, value),
                    ));
                    assert(self.spec_keys() =~= old(self).spec_keys());
                }
                Some(old_value)
            },
            None => {
                self.pairs.push((key, value));
                proof {
                    assert(self.spec_pairs() =~= old(self).spec_pairs().push((key@, value)));
                    assert(self.spec_keys() =~= old(self).spec_keys().push(key@));
                }
                None
            },
        }
    }

    /// Hand the pairs out in insertion order.
    pub fn into_iter(self) -> (r: Vec<(String, T)>)
        ensures
            r@.len() == self.spec_pairs().len(),
            forall|q: int|
                0 <= q < r@.len() ==> (#[trigger] r@[q]).0@ == self.spec_pairs()[q].0 && r@[q].1
                    == self.spec_pairs()[q].1,
    {
        self.pairs
    }
}

/// The key at each position of the pair list is the key list's entry
/// there.
pub proof fn lemma_map_keys<T>(m: &OrderedMap<T>)
    ensures
        m.spec_keys().len() == m.spec_pairs().len(),
        forall|q: int|
            0 <= q < m.spec_pairs().len() ==> m.spec_keys()[q] == (#[trigger] m.spec_pairs()[q]).0,
{
}

} // verus!
