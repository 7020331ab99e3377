//! The `.modelx` data model: its types, the grammar of its source text and
//! the verified parser that reads it.
//!
//! A model file is a sequence of tables:
//!
//! ```text
//! file       = table*
//! table      = annotation* "table" ident "{" field* "}"
//! field      = annotation* ["key"] ident ":" field_type
//! field_type = "String" | "UUID" | "Integer"
//! annotation = "@" ident
//! ident      = (letter | "_") (letter | digit | "_")*
//! ```
//!
//! Tokens may be separated by spaces, tabs and line breaks.  The word `key`
//! marks a key field only when another word follows it (so `key: UUID` is a
//! field named `key`).  Later tables replace earlier tables of the same name,
//! later fields replace earlier fields of the same name, and a field keeps
//! each of its annotations once.
use vstd::prelude::*;
use crate::text::{push_char, is_ident_start, is_ident_char, is_blank, ident_start, ident_char, blank};

verus! {

// ------------------------------------------------------------------------
// The model
// ------------------------------------------------------------------------

/// The type of a field.
#[derive(Debug, Clone, Copy, PartialEq, Eq, Structural)]
pub enum FieldType {
    String,
    UUID,
    Integer,
}

impl Default for FieldType {
    fn default() -> (r: Self)
        ensures
            r == FieldType::String,
    {
        FieldType::String
    }
}

/// A field of a table.  Its annotations hold no duplicates.
#[derive(Debug)]
pub struct Field {
    pub name: String,
    pub field_type: FieldType,
    pub is_key: bool,
    pub annotations: Vec<String>,
}

/// A table definition: its fields (distinct names, in order of first
/// declaration) and its annotations (as written, in order).
#[derive(Debug)]
pub struct Definition {
    pub name: String,
    pub fields: Vec<Field>,
    pub annotations: Vec<String>,
}

/// A whole model: its definitions, with distinct names, in order of first
/// declaration.
#[derive(Debug)]
pub struct Modelx {
    pub definitions: Vec<Definition>,
}

/// Mathematical value of a [`Field`].
pub struct FieldView {
    pub name: Seq<char>,
    pub field_type: FieldType,
    pub is_key: bool,
    pub annotations: Seq<Seq<char>>,
}

/// Mathematical value of a [`Definition`].
pub struct DefinitionView {
    pub name: Seq<char>,
    pub fields: Seq<FieldView>,
    pub annotations: Seq<Seq<char>>,
}

pub open spec fn strs_view(v: Seq<String>) -> Seq<Seq<char>> {
    v.map_values(|s: String| s@)
}

pub open spec fn fields_view(v: Seq<Field>) -> Seq<FieldView> {
    v.map_values(|f: Field| f@)
}

pub open spec fn defs_view(v: Seq<Definition>) -> Seq<DefinitionView> {
    v.map_values(|d: Definition| d@)
}

impl View for Field {
    type V = FieldView;

    open spec fn view(&self) -> FieldView {
        FieldView {
            name: self.name@,
            field_type: self.field_type,
            is_key: self.is_key,
            annotations: strs_view(self.annotations@),
        }
    }
}

impl View for Definition {
    type V = DefinitionView;

    open spec fn view(&self) -> DefinitionView {
        DefinitionView {
            name: self.name@,
            fields: fields_view(self.fields@),
            annotations: strs_view(self.annotations@),
        }
    }
}

impl View for Modelx {
    type V = Seq<DefinitionView>;

    open spec fn view(&self) -> Seq<DefinitionView> {
        defs_view(self.definitions@)
    }
}

impl Default for Field {
    fn default() -> (r: Self)
        ensures
            r@.name == Seq::<char>::empty(),
            r@.field_type == FieldType::String,
            !r@.is_key,
            r@.annotations == Seq::<Seq<char>>::empty(),
    {
        let r = Field {
            name: String::new(),
            field_type: FieldType::String,
            is_key: false,
            annotations: Vec::new(),
        };
        assert(r@.annotations =~= Seq::<Seq<char>>::empty());
        r
    }
}

impl Default for Definition {
    fn default() -> (r: Self)
        ensures
            r@.name == Seq::<char>::empty(),
            r@.fields == Seq::<FieldView>::empty(),
            r@.annotations == Seq::<Seq<char>>::empty(),
    {
        let r = Definition { name: String::new(), fields: Vec::new(), annotations: Vec::new() };
        assert(r@.fields =~= Seq::<FieldView>::empty());
        assert(r@.annotations =~= Seq::<Seq<char>>::empty());
        r
    }
}

impl Default for Modelx {
    fn default() -> (r: Self)
        ensures
            r@ == Seq::<DefinitionView>::empty(),
    {
        let r = Modelx { definitions: Vec::new() };
        assert(r@ =~= Seq::<DefinitionView>::empty());
        r
    }
}

/// No two fields share a name.
pub open spec fn field_names_distinct(fs: Seq<FieldView>) -> bool {
    forall|i: int, j: int| 0 <= i < fs.len() && 0 <= j < fs.len() && i != j ==> fs[i].name != fs[j].name
}

/// No two definitions share a name.
pub open spec fn def_names_distinct(ds: Seq<DefinitionView>) -> bool {
    forall|i: int, j: int| 0 <= i < ds.len() && 0 <= j < ds.len() && i != j ==> ds[i].name != ds[j].name
}

pub open spec fn field_wf(f: FieldView) -> bool {
    f.annotations.no_duplicates()
}

/// Distinct field names, each field well formed.
pub open spec fn fields_wf(fs: Seq<FieldView>) -> bool {
    &&& field_names_distinct(fs)
    &&& forall|i: int| 0 <= i < fs.len() ==> field_wf(#[trigger] fs[i])
}

pub open spec fn definition_wf(d: DefinitionView) -> bool {
    fields_wf(d.fields)
}

/// What a model read from source always satisfies.
pub open spec fn model_wf(m: Seq<DefinitionView>) -> bool {
    &&& def_names_distinct(m)
    &&& forall|i: int| 0 <= i < m.len() ==> definition_wf(#[trigger] m[i])
}

impl Modelx {
    pub open spec fn wf(&self) -> bool {
        model_wf(self@)
    }
}

// ------------------------------------------------------------------------
// Tokens
// ------------------------------------------------------------------------

/// A token of model source text.  An annotation keeps its leading `@`.
pub enum Tok {
    Word(Seq<char>),
    Annot(Seq<char>),
    Colon,
    Open,
    Close,
}

/// A token as the lexer produces it.
pub enum Token {
    Word(String),
    Annotation(String),
    Colon,
    Open,
    Close,
}

impl View for Token {
    type V = Tok;

    open spec fn view(&self) -> Tok {
        match self {
            Token::Word(w) => Tok::Word(w@),
            Token::Annotation(a) => Tok::Annot(a@),
            Token::Colon => Tok::Colon,
            Token::Open => Tok::Open,
            Token::Close => Tok::Close,
        }
    }
}

pub open spec fn toks_view(v: Seq<Token>) -> Seq<Tok> {
    v.map_values(|t: Token| t@)
}

/// Length of the run of identifier characters that starts at `i`.
pub open spec fn ident_run(s: Seq<char>, i: int) -> nat
    decreases s.len() - i,
{
    if 0 <= i < s.len() && is_ident_char(s[i]) {
        1 + ident_run(s, i + 1)
    } else {
        0
    }
}

pub proof fn lemma_ident_run(s: Seq<char>, i: int)
    requires
        0 <= i <= s.len(),
    ensures
        i + ident_run(s, i) <= s.len(),
        forall|k: int| i <= k < i + ident_run(s, i) ==> is_ident_char(#[trigger] s[k]),
        i + ident_run(s, i) < s.len() ==> !is_ident_char(s[i + ident_run(s, i)]),
    decreases s.len() - i,
{
    if i < s.len() && is_ident_char(s[i]) {
        lemma_ident_run(s, i + 1);
    }
}

pub open spec fn cons_tok(t: Tok, rest: Option<Seq<Tok>>) -> Option<Seq<Tok>> {
    match rest {
        Some(r) => Some(seq![t] + r),
        None => None,
    }
}

/// The tokens of `s` from position `i` on, or `None` where `s` holds a
/// character that no token allows.
pub open spec fn lex_from(s: Seq<char>, i: int) -> Option<Seq<Tok>>
    decreases s.len() - i,
{
    if !(0 <= i < s.len()) {
        Some(Seq::empty())
    } else {
        let c = s[i];
        if is_blank(c) {
            lex_from(s, i + 1)
        } else if c == ':' {
            cons_tok(Tok::Colon, lex_from(s, i + 1))
        } else if c == '{' {
            cons_tok(Tok::Open, lex_from(s, i + 1))
        } else if c == '}' {
            cons_tok(Tok::Close, lex_from(s, i + 1))
        } else if c == '@' {
            if i + 1 < s.len() && is_ident_start(s[i + 1]) {
                proof {
                    lemma_ident_run(s, i + 1);
                }
                let n = ident_run(s, i + 1);
                cons_tok(Tok::Annot(s.subrange(i, i + 1 + n)), lex_from(s, i + 1 + n))
            } else {
                None
            }
        } else if is_ident_start(c) {
            proof {
                lemma_ident_run(s, i);
            }
            let n = ident_run(s, i);
            cons_tok(Tok::Word(s.subrange(i, i + n)), lex_from(s, i + n))
        } else {
            None
        }
    }
}

pub open spec fn prefix_toks(p: Seq<Tok>, rest: Option<Seq<Tok>>) -> Option<Seq<Tok>> {
    match rest {
        Some(r) => Some(p + r),
        None => None,
    }
}

proof fn lemma_prefix_cons(p: Seq<Tok>, t: Tok, rest: Option<Seq<Tok>>)
    ensures
        prefix_toks(p, cons_tok(t, rest)) == prefix_toks(p.push(t), rest),
{
    if let Some(r) = rest {
        assert(p + (seq![t] + r) =~= p.push(t) + r);
    }
}

proof fn lemma_toks_view_push(v: Seq<Token>, t: Token)
    ensures
        toks_view(v.push(t)) == toks_view(v).push(t@),
{
    assert(toks_view(v.push(t)) =~= toks_view(v).push(t@));
}

/// End of the identifier run that starts at `from`.
fn scan_ident(s: &Vec<char>, from: usize) -> (end: usize)
    requires
        from <= s.len(),
    ensures
        end == from + ident_run(s@, from as int),
{
    let mut i = from;
    while i < s.len() && ident_char(s[i])
        invariant
            from <= i <= s.len(),
            ident_run(s@, from as int) == (i - from) + ident_run(s@, i as int),
        decreases s.len() - i,
    {
        i = i + 1;
    }
    i
}

/// The characters `s[from..to]` as a string.
fn text_of(s: &Vec<char>, from: usize, to: usize) -> (r: String)
    requires
        from <= to <= s.len(),
    ensures
        r@ == s@.subrange(from as int, to as int),
{
    let mut r = String::new();
    let mut i = from;
    while i < to
        invariant
            from <= i <= to <= s.len(),
            r@ == s@.subrange(from as int, i as int),
        decreases to - i,
    {
        push_char(&mut r, s[i]);
        assert(s@.subrange(from as int, i + 1) =~= s@.subrange(from as int, i as int).push(s@[i as int]));
        i = i + 1;
    }
    r
}

/// Splits source characters into tokens.
fn lex(s: &Vec<char>) -> (r: Option<Vec<Token>>)
    ensures
        match lex_from(s@, 0) {
            Some(t) => r matches Some(v) && toks_view(v@) == t,
            None => r is None,
        },
{
    let mut out: Vec<Token> = Vec::new();
    let mut i: usize = 0;
    assert(toks_view(out@) =~= Seq::<Tok>::empty());
    assert(prefix_toks(Seq::<Tok>::empty(), lex_from(s@, 0)) =~= lex_from(s@, 0)) by {
        if let Some(r) = lex_from(s@, 0) {
            assert(Seq::<Tok>::empty() + r =~= r);
        }
    }
    while i < s.len()
        invariant
            i <= s.len(),
            lex_from(s@, 0) == prefix_toks(toks_view(out@), lex_from(s@, i as int)),
        decreases s.len() - i,
    {
        let c = s[i];
        let ghost p = toks_view(out@);
        if blank(c) {
            i = i + 1;
        } else if c == ':' || c == '{' || c == '}' {
            let t = if c == ':' {
                Token::Colon
            } else if c == '{' {
                Token::Open
            } else {
                Token::Close
            };
            proof {
                lemma_prefix_cons(p, t@, lex_from(s@, i + 1));
                lemma_toks_view_push(out@, t);
            }
            out.push(t);
            i = i + 1;
        } else if c == '@' {
            if i + 1 < s.len() && ident_start(s[i + 1]) {
                proof {
                    lemma_ident_run(s@, i + 1);
                }
                let end = scan_ident(s, i + 1);
                let a = text_of(s, i, end);
                let t = Token::Annotation(a);
                proof {
                    lemma_prefix_cons(p, t@, lex_from(s@, end as int));
                    lemma_toks_view_push(out@, t);
                }
                out.push(t);
                i = end;
            } else {
                return None;
            }
        } else if ident_start(c) {
            proof {
                lemma_ident_run(s@, i as int);
            }
            let end = scan_ident(s, i);
            let w = text_of(s, i, end);
            let t = Token::Word(w);
            proof {
                lemma_prefix_cons(p, t@, lex_from(s@, end as int));
                lemma_toks_view_push(out@, t);
            }
            out.push(t);
            i = end;
        } else {
            return None;
        }
    }
    proof {
        assert(toks_view(out@) + Seq::<Tok>::empty() =~= toks_view(out@));
    }
    Some(out)
}


// ------------------------------------------------------------------------
// Grammar over tokens
// ------------------------------------------------------------------------

/// A field as written in source.
pub struct FieldDecl {
    pub annotations: Seq<Seq<char>>,
    pub is_key: bool,
    pub name: Seq<char>,
    pub field_type: FieldType,
}

/// A table as written in source.
pub struct TableDecl {
    pub annotations: Seq<Seq<char>>,
    pub name: Seq<char>,
    pub fields: Seq<FieldDecl>,
}

pub open spec fn word_of(t: Tok) -> Seq<char> {
    match t {
        Tok::Word(w) => w,
        _ => Seq::empty(),
    }
}

/// The field type that a type name denotes.
pub open spec fn type_named(w: Seq<char>) -> Option<FieldType> {
    if w == "String"@ {
        Some(FieldType::String)
    } else if w == "UUID"@ {
        Some(FieldType::UUID)
    } else if w == "Integer"@ {
        Some(FieldType::Integer)
    } else {
        None
    }
}

/// The annotations that stand one after the other from position `i`.
pub open spec fn annots_from(t: Seq<Tok>, i: int) -> Seq<Seq<char>>
    decreases t.len() - i,
{
    if 0 <= i < t.len() {
        match t[i] {
            Tok::Annot(a) => seq![a] + annots_from(t, i + 1),
            _ => Seq::empty(),
        }
    } else {
        Seq::empty()
    }
}

/// Whether the field that starts at `i` (after its annotations, at `j`) is
/// marked `key`: the word `key` followed by another word.
pub open spec fn keyed_at(t: Seq<Tok>, j: int) -> bool {
    0 <= j && j + 1 < t.len() && t[j] == Tok::Word("key"@) && t[j + 1] is Word
}

/// The field that starts at `i`, and the position after it.
pub open spec fn field_from(t: Seq<Tok>, i: int) -> Option<(FieldDecl, int)> {
    let an = annots_from(t, i);
    let j = i + an.len();
    let keyed = keyed_at(t, j);
    let k = if keyed { j + 1 } else { j };
    if 0 <= i && k + 2 < t.len() && t[k] is Word && t[k + 1] == Tok::Colon && t[k + 2] is Word
        && type_named(word_of(t[k + 2])) is Some {
        Some(
            (
                FieldDecl {
                    annotations: an,
                    is_key: keyed,
                    name: word_of(t[k]),
                    field_type: type_named(word_of(t[k + 2]))->0,
                },
                k + 3,
            ),
        )
    } else {
        None
    }
}

/// The fields from position `i` up to and including the closing brace, and
/// the position after that brace.
pub open spec fn fields_from(t: Seq<Tok>, i: int) -> Option<(Seq<FieldDecl>, int)>
    decreases t.len() - i,
{
    if !(0 <= i < t.len()) {
        None
    } else if t[i] == Tok::Close {
        Some((Seq::empty(), i + 1))
    } else {
        match field_from(t, i) {
            Some((f, j)) => match fields_from(t, j) {
                Some((fs, k)) => Some((seq![f] + fs, k)),
                None => None,
            },
            None => None,
        }
    }
}

pub proof fn lemma_fields_from_advances(t: Seq<Tok>, i: int)
    ensures
        fields_from(t, i) matches Some((_, k)) ==> i < k <= t.len(),
    decreases t.len() - i,
{
    if 0 <= i < t.len() && t[i] != Tok::Close {
        if let Some((f, j)) = field_from(t, i) {
            lemma_fields_from_advances(t, j);
        }
    }
}

/// The table that starts at `i`, and the position after it.
pub open spec fn table_from(t: Seq<Tok>, i: int) -> Option<(TableDecl, int)> {
    let an = annots_from(t, i);
    let j = i + an.len();
    if 0 <= i && j + 2 < t.len() && t[j] == Tok::Word("table"@) && t[j + 1] is Word && t[j + 2]
        == Tok::Open {
        match fields_from(t, j + 3) {
            Some((fs, k)) => Some(
                (TableDecl { annotations: an, name: word_of(t[j + 1]), fields: fs }, k),
            ),
            None => None,
        }
    } else {
        None
    }
}

pub proof fn lemma_table_from_advances(t: Seq<Tok>, i: int)
    ensures
        table_from(t, i) matches Some((_, k)) ==> i < k <= t.len(),
{
    let an = annots_from(t, i);
    lemma_fields_from_advances(t, i + an.len() + 3);
}

/// The tables from position `i` to the end, or `None` where the tokens do
/// not follow the grammar.
pub open spec fn tables_from(t: Seq<Tok>, i: int) -> Option<Seq<TableDecl>>
    decreases t.len() - i,
{
    if !(0 <= i < t.len()) {
        Some(Seq::empty())
    } else {
        proof {
            lemma_table_from_advances(t, i);
        }
        match table_from(t, i) {
            Some((tb, j)) => match tables_from(t, j) {
                Some(r) => Some(seq![tb] + r),
                None => None,
            },
            None => None,
        }
    }
}

// ------------------------------------------------------------------------
// From declarations to the model
// ------------------------------------------------------------------------

/// `s` with `x` added at the end unless it holds `x` already.
pub open spec fn insert_unique(s: Seq<Seq<char>>, x: Seq<char>) -> Seq<Seq<char>> {
    if s.contains(x) {
        s
    } else {
        s.push(x)
    }
}

/// The elements of `s` in order of first occurrence, each once.
pub open spec fn dedup(s: Seq<Seq<char>>) -> Seq<Seq<char>>
    decreases s.len(),
{
    if s.len() == 0 {
        Seq::empty()
    } else {
        insert_unique(dedup(s.drop_last()), s.last())
    }
}

/// `fs` where the field named like `f` is replaced by `f`, or `f` added at
/// the end if there is none.
pub open spec fn upsert_field(fs: Seq<FieldView>, f: FieldView) -> Seq<FieldView> {
    if exists|k: int| 0 <= k < fs.len() && fs[k].name == f.name {
        fs.update(choose|k: int| 0 <= k < fs.len() && fs[k].name == f.name, f)
    } else {
        fs.push(f)
    }
}

/// `ds` where the definition named like `d` is replaced by `d`, or `d` added
/// at the end if there is none.
pub open spec fn upsert_def(ds: Seq<DefinitionView>, d: DefinitionView) -> Seq<DefinitionView> {
    if exists|k: int| 0 <= k < ds.len() && ds[k].name == d.name {
        ds.update(choose|k: int| 0 <= k < ds.len() && ds[k].name == d.name, d)
    } else {
        ds.push(d)
    }
}

pub open spec fn field_of(d: FieldDecl) -> FieldView {
    FieldView {
        name: d.name,
        field_type: d.field_type,
        is_key: d.is_key,
        annotations: dedup(d.annotations),
    }
}

/// The fields of a table: each declaration in turn replaces the field of the
/// same name.
pub open spec fn fields_of(ds: Seq<FieldDecl>) -> Seq<FieldView>
    decreases ds.len(),
{
    if ds.len() == 0 {
        Seq::empty()
    } else {
        upsert_field(fields_of(ds.drop_last()), field_of(ds.last()))
    }
}

pub open spec fn definition_of(t: TableDecl) -> DefinitionView {
    DefinitionView { name: t.name, fields: fields_of(t.fields), annotations: t.annotations }
}

/// The model of a file: each table in turn replaces the definition of the
/// same name.
pub open spec fn definitions_of(ts: Seq<TableDecl>) -> Seq<DefinitionView>
    decreases ts.len(),
{
    if ts.len() == 0 {
        Seq::empty()
    } else {
        upsert_def(definitions_of(ts.drop_last()), definition_of(ts.last()))
    }
}

/// The model that source text `s` describes, or `None` where `s` does not
/// follow the grammar.
pub open spec fn spec_parse(s: Seq<char>) -> Option<Seq<DefinitionView>> {
    match lex_from(s, 0) {
        Some(t) => match tables_from(t, 0) {
            Some(ts) => Some(definitions_of(ts)),
            None => None,
        },
        None => None,
    }
}

// ------------------------------------------------------------------------
// The parser
// ------------------------------------------------------------------------

pub proof fn lemma_insert_unique_no_dup(s: Seq<Seq<char>>, x: Seq<char>)
    requires
        s.no_duplicates(),
    ensures
        insert_unique(s, x).no_duplicates(),
{
}

pub proof fn lemma_dedup_no_dup(s: Seq<Seq<char>>)
    ensures
        dedup(s).no_duplicates(),
    decreases s.len(),
{
    if s.len() > 0 {
        lemma_dedup_no_dup(s.drop_last());
        lemma_insert_unique_no_dup(dedup(s.drop_last()), s.last());
    }
}

proof fn lemma_strs_view_push(v: Seq<String>, x: String)
    ensures
        strs_view(v.push(x)) == strs_view(v).push(x@),
{
    assert(strs_view(v.push(x)) =~= strs_view(v).push(x@));
}

fn word_is(w: &String, lit: &str) -> (b: bool)
    ensures
        b == (w@ == lit@),
{
    let l = String::from_str(lit);
    *w == l
}

fn word_at(toks: &Vec<Token>, j: usize, lit: &str) -> (b: bool)
    requires
        j < toks.len(),
    ensures
        b == (toks_view(toks@)[j as int] == Tok::Word(lit@)),
{
    match &toks[j] {
        Token::Word(w) => word_is(w, lit),
        _ => false,
    }
}

fn is_word(t: &Token) -> (b: bool)
    ensures
        b == (t@ is Word),
{
    match t {
        Token::Word(_) => true,
        _ => false,
    }
}

fn type_of_word(w: &String) -> (r: Option<FieldType>)
    ensures
        r == type_named(w@),
{
    if word_is(w, "String") {
        Some(FieldType::String)
    } else if word_is(w, "UUID") {
        Some(FieldType::UUID)
    } else if word_is(w, "Integer") {
        Some(FieldType::Integer)
    } else {
        None
    }
}

fn is_annotation(t: &Token) -> (b: bool)
    ensures
        b == (t@ is Annot),
{
    match t {
        Token::Annotation(_) => true,
        _ => false,
    }
}

/// The annotations that stand one after the other from position `i`.
fn parse_annotations(toks: &Vec<Token>, i: usize) -> (r: (Vec<String>, usize))
    requires
        i <= toks.len(),
    ensures
        strs_view(r.0@) == annots_from(toks_view(toks@), i as int),
        r.1 == i + r.0@.len(),
        r.1 <= toks.len(),
{
    let ghost tv = toks_view(toks@);
    let mut out: Vec<String> = Vec::new();
    let mut j = i;
    assert(strs_view(out@) + annots_from(tv, i as int) =~= annots_from(tv, i as int));
    while j < toks.len() && is_annotation(&toks[j])
        invariant
            i <= j <= toks.len(),
            j == i + out@.len(),
            tv == toks_view(toks@),
            annots_from(tv, i as int) == strs_view(out@) + annots_from(tv, j as int),
        decreases toks.len() - j,
    {
        match &toks[j] {
            Token::Annotation(a) => {
                let ghost before = strs_view(out@);
                let a2 = a.clone();
                proof {
                    lemma_strs_view_push(out@, a2);
                    assert(before + annots_from(tv, j as int) =~= before.push(a@) + annots_from(
                        tv,
                        j + 1,
                    ));
                }
                out.push(a2);
            },
            _ => {},
        }
        j = j + 1;
    }
    assert(strs_view(out@) + annots_from(tv, j as int) =~= strs_view(out@));
    (out, j)
}

/// Adds `x` unless `v` holds it already.
fn insert_unique_string(v: &mut Vec<String>, x: String)
    ensures
        strs_view(final(v)@) == insert_unique(strs_view(old(v)@), x@),
{
    let ghost sv = strs_view(v@);
    let mut k: usize = 0;
    while k < v.len()
        invariant
            k <= v.len(),
            v@ == old(v)@,
            sv == strs_view(v@),
            forall|m: int| 0 <= m < k ==> sv[m] != x@,
        decreases v.len() - k,
    {
        if v[k] == x {
            assert(sv[k as int] == x@);
            assert(sv.contains(x@));
            return;
        }
        k = k + 1;
    }
    assert(!sv.contains(x@));
    proof {
        lemma_strs_view_push(v@, x);
    }
    v.push(x);
}

/// The elements of `v` in order of first occurrence, each once.
fn dedup_strings(v: &Vec<String>) -> (r: Vec<String>)
    ensures
        strs_view(r@) == dedup(strs_view(v@)),
{
    let ghost sv = strs_view(v@);
    let mut r: Vec<String> = Vec::new();
    let mut k: usize = 0;
    assert(sv.take(0) =~= Seq::<Seq<char>>::empty());
    assert(strs_view(r@) =~= Seq::<Seq<char>>::empty());
    while k < v.len()
        invariant
            k <= v.len(),
            sv == strs_view(v@),
            strs_view(r@) == dedup(sv.take(k as int)),
        decreases v.len() - k,
    {
        assert(sv.take(k + 1).drop_last() =~= sv.take(k as int));
        insert_unique_string(&mut r, v[k].clone());
        k = k + 1;
    }
    assert(sv.take(v.len() as int) =~= sv);
    r
}

proof fn lemma_fields_view_update(v: Seq<Field>, k: int, f: Field)
    requires
        0 <= k < v.len(),
    ensures
        fields_view(v.update(k, f)) == fields_view(v).update(k, f@),
{
    assert(fields_view(v.update(k, f)) =~= fields_view(v).update(k, f@));
}

proof fn lemma_fields_view_push(v: Seq<Field>, f: Field)
    ensures
        fields_view(v.push(f)) == fields_view(v).push(f@),
{
    assert(fields_view(v.push(f)) =~= fields_view(v).push(f@));
}

proof fn lemma_defs_view_update(v: Seq<Definition>, k: int, d: Definition)
    requires
        0 <= k < v.len(),
    ensures
        defs_view(v.update(k, d)) == defs_view(v).update(k, d@),
{
    assert(defs_view(v.update(k, d)) =~= defs_view(v).update(k, d@));
}

proof fn lemma_defs_view_push(v: Seq<Definition>, d: Definition)
    ensures
        defs_view(v.push(d)) == defs_view(v).push(d@),
{
    assert(defs_view(v.push(d)) =~= defs_view(v).push(d@));
}

/// Puts `f` in place of the field of the same name, or at the end.
fn upsert_field_exec(fields: &mut Vec<Field>, f: Field)
    requires
        fields_wf(fields_view(old(fields)@)),
        field_wf(f@),
    ensures
        fields_view(final(fields)@) == upsert_field(fields_view(old(fields)@), f@),
        fields_wf(fields_view(final(fields)@)),
{
    let ghost fv = fields_view(fields@);
    let mut k: usize = 0;
    while k < fields.len()
        invariant
            k <= fields.len(),
            fields@ == old(fields)@,
            fv == fields_view(fields@),
            fields_wf(fv),
            field_wf(f@),
            forall|m: int| 0 <= m < k ==> fv[m].name != f@.name,
        decreases fields.len() - k,
    {
        if fields[k].name == f.name {
            proof {
                assert(fv[k as int].name == f@.name);
                let c = choose|c: int| 0 <= c < fv.len() && fv[c].name == f@.name;
                assert(c == k);
                lemma_fields_view_update(fields@, k as int, f);
            }
            fields.set(k, f);
            proof {
                let nv = fields_view(fields@);
                assert(forall|m: int| 0 <= m < nv.len() ==> nv[m].name == fv[m].name);
                assert(forall|m: int| 0 <= m < nv.len() ==> field_wf(#[trigger] nv[m]));
            }
            return;
        }
        k = k + 1;
    }
    proof {
        lemma_fields_view_push(fields@, f);
    }
    fields.push(f);
}

/// Puts `d` in place of the definition of the same name, or at the end.
fn upsert_def_exec(defs: &mut Vec<Definition>, d: Definition)
    requires
        model_wf(defs_view(old(defs)@)),
        definition_wf(d@),
    ensures
        defs_view(final(defs)@) == upsert_def(defs_view(old(defs)@), d@),
        model_wf(defs_view(final(defs)@)),
{
    let ghost dv = defs_view(defs@);
    let mut k: usize = 0;
    while k < defs.len()
        invariant
            k <= defs.len(),
            defs@ == old(defs)@,
            dv == defs_view(defs@),
            model_wf(dv),
            definition_wf(d@),
            forall|m: int| 0 <= m < k ==> dv[m].name != d@.name,
        decreases defs.len() - k,
    {
        if defs[k].name == d.name {
            proof {
                assert(dv[k as int].name == d@.name);
                let c = choose|c: int| 0 <= c < dv.len() && dv[c].name == d@.name;
                assert(c == k);
                lemma_defs_view_update(defs@, k as int, d);
            }
            defs.set(k, d);
            proof {
                let nv = defs_view(defs@);
                assert(forall|m: int| 0 <= m < nv.len() ==> nv[m].name == dv[m].name);
                assert(forall|m: int| 0 <= m < nv.len() ==> definition_wf(#[trigger] nv[m]));
            }
            return;
        }
        k = k + 1;
    }
    proof {
        lemma_defs_view_push(defs@, d);
    }
    defs.push(d);
}

/// The field that starts at position `i`.
fn parse_field(toks: &Vec<Token>, i: usize) -> (r: Option<(Field, usize)>)
    requires
        i <= toks.len(),
    ensures
        match field_from(toks_view(toks@), i as int) {
            Some((fd, j)) => r matches Some((f, k)) && f@ == field_of(fd) && k == j && field_wf(f@),
            None => r is None,
        },
{
    let ghost tv = toks_view(toks@);
    let (an, j) = parse_annotations(toks, i);
    let n = toks.len();
    let keyed = j < n && n - j > 1 && word_at(toks, j, "key") && is_word(&toks[j + 1]);
    assert(keyed == keyed_at(tv, j as int));
    let k = if keyed {
        j + 1
    } else {
        j
    };
    if !(k < n && n - k > 2) {
        return None;
    }
    let name = match &toks[k] {
        Token::Word(w) => w.clone(),
        _ => {
            return None;
        },
    };
    match &toks[k + 1] {
        Token::Colon => {},
        _ => {
            return None;
        },
    }
    let field_type = match &toks[k + 2] {
        Token::Word(w) => match type_of_word(w) {
            Some(ft) => ft,
            None => {
                return None;
            },
        },
        _ => {
            return None;
        },
    };
    let annotations = dedup_strings(&an);
    proof {
        lemma_dedup_no_dup(strs_view(an@));
    }
    Some((Field { name, field_type, is_key: keyed, annotations }, k + 3))
}

pub open spec fn prefix_fields(p: Seq<FieldDecl>, rest: Option<(Seq<FieldDecl>, int)>) -> Option<
    (Seq<FieldDecl>, int),
> {
    match rest {
        Some((fs, k)) => Some((p + fs, k)),
        None => None,
    }
}

pub open spec fn prefix_tables(p: Seq<TableDecl>, rest: Option<Seq<TableDecl>>) -> Option<
    Seq<TableDecl>,
> {
    match rest {
        Some(r) => Some(p + r),
        None => None,
    }
}

/// The fields from position `i` up to the closing brace, and the position
/// after that brace.
fn parse_fields(toks: &Vec<Token>, i: usize) -> (r: Option<(Vec<Field>, usize)>)
    requires
        i <= toks.len(),
    ensures
        match fields_from(toks_view(toks@), i as int) {
            Some((fds, k)) => r matches Some((v, k2)) && fields_view(v@) == fields_of(fds) && k2
                == k && fields_wf(fields_view(v@)),
            None => r is None,
        },
{
    let ghost tv = toks_view(toks@);
    let mut fields: Vec<Field> = Vec::new();
    let mut pos = i;
    let ghost mut done: Seq<FieldDecl> = Seq::empty();
    assert(fields_view(fields@) =~= Seq::<FieldView>::empty());
    assert(prefix_fields(done, fields_from(tv, i as int)) == fields_from(tv, i as int)) by {
        if let Some((fs, k)) = fields_from(tv, i as int) {
            assert(done + fs =~= fs);
        }
    }
    loop
        invariant
            i <= pos <= toks.len(),
            tv == toks_view(toks@),
            fields_from(tv, i as int) == prefix_fields(done, fields_from(tv, pos as int)),
            fields_view(fields@) == fields_of(done),
            fields_wf(fields_view(fields@)),
        decreases toks.len() - pos,
    {
        if pos >= toks.len() {
            return None;
        }
        match &toks[pos] {
            Token::Close => {
                assert(done + Seq::<FieldDecl>::empty() =~= done);
                return Some((fields, pos + 1));
            },
            _ => {},
        }
        match parse_field(toks, pos) {
            None => {
                return None;
            },
            Some((f, j)) => {
                let ghost fd = (field_from(tv, pos as int)->0).0;
                proof {
                    assert(done.push(fd).drop_last() =~= done);
                    match fields_from(tv, j as int) {
                        Some((fs, k)) => {
                            assert(done + (seq![fd] + fs) =~= done.push(fd) + fs);
                        },
                        None => {},
                    }
                }
                upsert_field_exec(&mut fields, f);
                proof {
                    done = done.push(fd);
                }
                pos = j;
            },
        }
    }
}

/// The table that starts at position `i`.
fn parse_table(toks: &Vec<Token>, i: usize) -> (r: Option<(Definition, usize)>)
    requires
        i <= toks.len(),
    ensures
        match table_from(toks_view(toks@), i as int) {
            Some((td, k)) => r matches Some((d, k2)) && d@ == definition_of(td) && k2 == k
                && definition_wf(d@),
            None => r is None,
        },
{
    let (annotations, j) = parse_annotations(toks, i);
    let n = toks.len();
    if !(j < n && n - j > 2) {
        return None;
    }
    if !word_at(toks, j, "table") {
        return None;
    }
    let name = match &toks[j + 1] {
        Token::Word(w) => w.clone(),
        _ => {
            return None;
        },
    };
    match &toks[j + 2] {
        Token::Open => {},
        _ => {
            return None;
        },
    }
    match parse_fields(toks, j + 3) {
        Some((fields, k)) => Some((Definition { name, fields, annotations }, k)),
        None => None,
    }
}

/// All tables of a token sequence, as a model.
fn parse_tables(toks: &Vec<Token>) -> (r: Option<Vec<Definition>>)
    ensures
        match tables_from(toks_view(toks@), 0) {
            Some(ts) => r matches Some(v) && defs_view(v@) == definitions_of(ts) && model_wf(
                defs_view(v@),
            ),
            None => r is None,
        },
{
    let ghost tv = toks_view(toks@);
    let mut defs: Vec<Definition> = Vec::new();
    let mut pos: usize = 0;
    let ghost mut done: Seq<TableDecl> = Seq::empty();
    assert(defs_view(defs@) =~= Seq::<DefinitionView>::empty());
    assert(prefix_tables(done, tables_from(tv, 0)) == tables_from(tv, 0)) by {
        if let Some(r) = tables_from(tv, 0) {
            assert(done + r =~= r);
        }
    }
    loop
        invariant
            pos <= toks.len(),
            tv == toks_view(toks@),
            tables_from(tv, 0) == prefix_tables(done, tables_from(tv, pos as int)),
            defs_view(defs@) == definitions_of(done),
            model_wf(defs_view(defs@)),
        decreases toks.len() - pos,
    {
        if pos >= toks.len() {
            assert(done + Seq::<TableDecl>::empty() =~= done);
            return Some(defs);
        }
        proof {
            lemma_table_from_advances(tv, pos as int);
        }
        match parse_table(toks, pos) {
            None => {
                return None;
            },
            Some((d, j)) => {
                let ghost td = (table_from(tv, pos as int)->0).0;
                proof {
                    assert(done.push(td).drop_last() =~= done);
                    match tables_from(tv, j as int) {
                        Some(r) => {
                            assert(done + (seq![td] + r) =~= done.push(td) + r);
                        },
                        None => {},
                    }
                }
                upsert_def_exec(&mut defs, d);
                proof {
                    done = done.push(td);
                }
                pos = j;
            },
        }
    }
}

/// The characters of `input`, in order.
fn chars_of(input: &str) -> (v: Vec<char>)
    ensures
        v@ == input@,
{
    let mut v: Vec<char> = Vec::new();
    for c in it: input.chars()
        invariant
            v@ == it.seq().take(it.index()),
    {
        v.push(c);
    }
    v
}

/// The parser of model source text.
pub struct ModelxParser;

impl ModelxParser {
    /// Reads a model from source text; `None` where the text does not follow
    /// the grammar.
    pub fn parse(input: &str) -> (r: Option<Modelx>)
        ensures
            match spec_parse(input@) {
                Some(m) => r matches Some(x) && x@ == m && x.wf(),
                None => r is None,
            },
    {
        let chars = chars_of(input);
        match lex(&chars) {
            None => None,
            Some(toks) => match parse_tables(&toks) {
                Some(definitions) => Some(Modelx { definitions }),
                None => None,
            },
        }
    }
}

impl Modelx {
    /// Reads a model from source text that follows the grammar.
    pub fn parse(input: &str) -> (r: Modelx)
        requires
            spec_parse(input@) is Some,
        ensures
            r@ == spec_parse(input@)->0,
            r.wf(),
    {
        match ModelxParser::parse(input) {
            Some(m) => m,
            None => Modelx { definitions: Vec::new() },
        }
    }
}

} // verus!
