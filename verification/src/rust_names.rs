//! Which names of a model the generated Rust can use.  The generators write
//! each table and field name as a Rust identifier, `Model::<table>` as a
//! type, `<table>` as a type for tables served over HTTP, and
//! `&self.<field>` as an expression.
//!
//! A name must be a Rust identifier: `_` or a character with the Unicode
//! property XID_Start, then characters with XID_Continue, as `unicode-ident`
//! answers.  For an identifier made of ASCII characters `syn` is asked
//! whether the type or expression text is valid (an ASCII identifier may be
//! a Rust keyword, which such text cannot hold).  `syn` is asked only about
//! ASCII text, which the lexer of `proc-macro2` and the compiler's own lexer
//! split into the same tokens; no Rust keyword holds a character outside
//! ASCII.
use vstd::prelude::*;
use crate::modelx::{Modelx, Definition, DefinitionView, FieldView, defs_view};
use crate::corex::has_annotation;
use crate::text::{is_ident, is_ident_start, is_ident_char, ident_start, ident_char};

verus! {

/// Whether `c` has the Unicode property XID_Start.
pub uninterp spec fn xid_start(c: char) -> bool;

/// Whether `c` has the Unicode property XID_Continue.
pub uninterp spec fn xid_continue(c: char) -> bool;

/// `unicode_ident::is_xid_start`: whether `c` has the property XID_Start in
/// the crate's Unicode tables.  The contract only names the answer.
#[verifier::external_body]
fn char_xid_start(c: char) -> (b: bool)
    ensures
        b == xid_start(c),
{
    unicode_ident::is_xid_start(c)
}

/// `unicode_ident::is_xid_continue`: whether `c` has the property
/// XID_Continue in the crate's Unicode tables.  The contract only names the
/// answer.
#[verifier::external_body]
fn char_xid_continue(c: char) -> (b: bool)
    ensures
        b == xid_continue(c),
{
    unicode_ident::is_xid_continue(c)
}

/// A Rust identifier, as `proc_macro2::Ident::new` accepts it: `_` or an
/// XID_Start character, then XID_Continue characters.
pub open spec fn is_rust_ident(s: Seq<char>) -> bool {
    &&& s.len() > 0
    &&& s[0] == '_' || xid_start(s[0])
    &&& forall|k: int| 1 <= k < s.len() ==> xid_continue(#[trigger] s[k])
}

/// Whether `s` is a Rust identifier.
pub fn is_rust_ident_text(s: &str) -> (b: bool)
    ensures
        b == is_rust_ident(s@),
{
    let mut at_start = true;
    for c in it: s.chars()
        invariant
            it.seq() == s@,
            at_start == (it.index() == 0),
            forall|k: int| 1 <= k < it.index() ==> xid_continue(#[trigger] s@[k]),
            !at_start ==> (s@[0] == '_' || xid_start(s@[0])),
    {
        if at_start {
            if !(c == '_' || char_xid_start(c)) {
                return false;
            }
        } else if !char_xid_continue(c) {
            assert(!xid_continue(s@[it.index() as int]));
            return false;
        }
        at_start = false;
    }
    !at_start
}

/// Whether `syn` parses `s`, an ASCII identifier or `Model::` and an ASCII
/// identifier, as a Rust type.
pub uninterp spec fn parses_as_type(s: Seq<char>) -> bool;

/// Whether `syn` parses `s`, `&self.` and an ASCII identifier, as a Rust
/// expression.
pub uninterp spec fn parses_as_expr(s: Seq<char>) -> bool;

/// Text that is an ASCII identifier, or `Model::` and one.
pub open spec fn is_type_text(s: Seq<char>) -> bool {
    is_ident(s) || exists|w: Seq<char>| is_ident(w) && s == "Model::"@ + w
}

/// Text that is `&self.` and an ASCII identifier.
pub open spec fn is_access_text(s: Seq<char>) -> bool {
    exists|w: Seq<char>| is_ident(w) && s == "&self."@ + w
}

/// `syn::parse_str::<syn::Type>`: whether `s` parses as a Rust type.  The
/// contract only names the answer, and only for text made of ASCII
/// identifier characters and `::`, which every lexer that `syn` may run on
/// reads alike; it claims nothing about which such strings `syn` accepts.
#[verifier::external_body]
fn type_parses(s: &str) -> (b: bool)
    requires
        is_type_text(s@),
    ensures
        b == parses_as_type(s@),
{
    syn::parse_str::<syn::Type>(s).is_ok()
}

/// `syn::parse_str::<syn::Expr>`: whether `s` parses as a Rust expression.
/// The contract only names the answer, and only for `&self.` and an ASCII
/// identifier, which every lexer that `syn` may run on reads alike; it
/// claims nothing about which such strings `syn` accepts.
#[verifier::external_body]
fn expr_parses(s: &str) -> (b: bool)
    requires
        is_access_text(s@),
    ensures
        b == parses_as_expr(s@),
{
    syn::parse_str::<syn::Expr>(s).is_ok()
}

/// Whether `s` is an ASCII identifier.
pub fn is_ident_text(s: &str) -> (b: bool)
    ensures
        b == is_ident(s@),
{
    let mut at_start = true;
    for c in it: s.chars()
        invariant
            it.seq() == s@,
            at_start == (it.index() == 0),
            forall|k: int| 0 <= k < it.index() ==> is_ident_char(#[trigger] s@[k]),
            !at_start ==> is_ident_start(s@[0]),
    {
        if at_start {
            if !ident_start(c) {
                return false;
            }
        }
        if !ident_char(c) {
            assert(!is_ident_char(s@[it.index() as int]));
            return false;
        }
        at_start = false;
    }
    !at_start
}

/// A table name that can stand as `Model::<table>`.
pub open spec fn model_path_usable(n: Seq<char>) -> bool {
    is_rust_ident(n) && (is_ident(n) ==> parses_as_type("Model::"@ + n))
}

/// A table name that can stand as `<table>` and `Model::<table>`.
pub open spec fn http_path_usable(n: Seq<char>) -> bool {
    model_path_usable(n) && (is_ident(n) ==> parses_as_type(n))
}

/// A field name that can stand as `&self.<field>`.
pub open spec fn field_access_usable(n: Seq<char>) -> bool {
    is_rust_ident(n) && (is_ident(n) ==> parses_as_expr("&self."@ + n))
}

/// Every table and field name is an identifier.
pub open spec fn names_are_idents(m: Seq<DefinitionView>) -> bool {
    forall|k: int| 0 <= k < m.len() ==> {
        &&& is_rust_ident(#[trigger] m[k].name)
        &&& forall|j: int| 0 <= j < m[k].fields.len() ==> is_rust_ident(#[trigger] m[k].fields[j].name)
    }
}

/// Every table name can stand as `Model::<table>`.
pub open spec fn model_paths_usable(m: Seq<DefinitionView>) -> bool {
    forall|k: int| 0 <= k < m.len() ==> model_path_usable(#[trigger] m[k].name)
}

/// Every field name can stand as `&self.<field>`.
pub open spec fn field_accesses_usable(m: Seq<DefinitionView>) -> bool {
    forall|k: int, j: int|
        0 <= k < m.len() && 0 <= j < m[k].fields.len() ==> field_access_usable(
            #[trigger] m[k].fields[j].name,
        )
}

/// Every table served over HTTP can stand as `<table>` and `Model::<table>`.
pub open spec fn http_paths_usable(m: Seq<DefinitionView>) -> bool {
    forall|k: int|
        0 <= k < m.len() && has_annotation(#[trigger] m[k], "@http"@) ==> http_path_usable(m[k].name)
}

/// The names of a field that the generated Rust uses are usable.
pub open spec fn field_names_usable(f: FieldView) -> bool {
    field_access_usable(f.name)
}

/// The names of a definition, and of its fields, that the generated Rust
/// uses are usable.
pub open spec fn definition_names_usable(d: DefinitionView) -> bool {
    &&& model_path_usable(d.name)
    &&& has_annotation(d, "@http"@) ==> http_path_usable(d.name)
    &&& forall|k: int| 0 <= k < d.fields.len() ==> field_names_usable(#[trigger] d.fields[k])
}

/// Every name of the model that the generated Rust uses is usable.
pub open spec fn model_names_usable(m: Seq<DefinitionView>) -> bool {
    forall|k: int| 0 <= k < m.len() ==> definition_names_usable(#[trigger] m[k])
}

/// A model whose names are all usable is accepted by each generator.
pub proof fn lemma_usable_names_suffice(m: Seq<DefinitionView>)
    requires
        model_names_usable(m),
    ensures
        names_are_idents(m),
        model_paths_usable(m),
        field_accesses_usable(m),
        http_paths_usable(m),
{
    assert forall|k: int| 0 <= k < m.len() implies {
        &&& is_rust_ident(#[trigger] m[k].name)
        &&& forall|j: int| 0 <= j < m[k].fields.len() ==> is_rust_ident(#[trigger] m[k].fields[j].name)
    } by {
        assert(definition_names_usable(m[k]));
        assert forall|j: int| 0 <= j < m[k].fields.len() implies is_rust_ident(
            #[trigger] m[k].fields[j].name,
        ) by {
            assert(field_names_usable(m[k].fields[j]));
        }
    }
    assert forall|k: int| 0 <= k < m.len() implies model_path_usable(#[trigger] m[k].name) by {
        assert(definition_names_usable(m[k]));
    }
    assert forall|k: int, j: int|
        0 <= k < m.len() && 0 <= j < m[k].fields.len() implies field_access_usable(
            #[trigger] m[k].fields[j].name,
        ) by {
        assert(definition_names_usable(m[k]));
        assert(field_names_usable(m[k].fields[j]));
    }
    assert forall|k: int|
        0 <= k < m.len() && has_annotation(#[trigger] m[k], "@http"@) implies http_path_usable(
            m[k].name,
        ) by {
        assert(definition_names_usable(m[k]));
    }
}

fn name_usable_as_path(n: &String, http: bool) -> (b: bool)
    ensures
        b == (model_path_usable(n@) && (http ==> http_path_usable(n@))),
{
    if !is_rust_ident_text(n.as_str()) {
        return false;
    }
    if !is_ident_text(n.as_str()) {
        return true;
    }
    let mut path = String::from_str("Model::");
    path.append(n.as_str());
    assert(is_type_text(path@)) by {
        assert(is_ident(n@) && path@ == "Model::"@ + n@);
    }
    if !type_parses(path.as_str()) {
        return false;
    }
    if http && !type_parses(n.as_str()) {
        return false;
    }
    true
}

fn name_usable_as_access(n: &String) -> (b: bool)
    ensures
        b == field_access_usable(n@),
{
    if !is_rust_ident_text(n.as_str()) {
        return false;
    }
    if !is_ident_text(n.as_str()) {
        return true;
    }
    let mut access = String::from_str("&self.");
    access.append(n.as_str());
    assert(is_access_text(access@)) by {
        assert(is_ident(n@) && access@ == "&self."@ + n@);
    }
    expr_parses(access.as_str())
}

fn definition_usable(d: &Definition) -> (b: bool)
    ensures
        b == definition_names_usable(d@),
{
    let http = crate::corex::definition_has_annotation(d, "@http");
    if !name_usable_as_path(&d.name, http) {
        return false;
    }
    let ghost fv = d@.fields;
    let mut k: usize = 0;
    while k < d.fields.len()
        invariant
            k <= d.fields.len(),
            fv == d@.fields,
            forall|m: int| 0 <= m < k ==> field_names_usable(#[trigger] fv[m]),
        decreases d.fields.len() - k,
    {
        if !name_usable_as_access(&d.fields[k].name) {
            assert(!field_names_usable(fv[k as int]));
            return false;
        }
        k = k + 1;
    }
    true
}

impl Modelx {
    /// Whether every name of the model can stand where the generated Rust
    /// puts it: each name is a Rust identifier and, for ASCII names,
    /// `Model::<table>` is a type, `<table>` is a type for a table served
    /// over HTTP, and `&self.<field>` is an expression.
    pub fn names_usable(&self) -> (b: bool)
        ensures
            b == model_names_usable(self@),
    {
        let ghost dv = self@;
        let mut k: usize = 0;
        while k < self.definitions.len()
            invariant
                k <= self.definitions.len(),
                dv == self@,
                dv == defs_view(self.definitions@),
                forall|m: int| 0 <= m < k ==> definition_names_usable(#[trigger] dv[m]),
            decreases self.definitions.len() - k,
        {
            if !definition_usable(&self.definitions[k]) {
                assert(!definition_names_usable(dv[k as int]));
                return false;
            }
            k = k + 1;
        }
        true
    }
}

} // verus!
