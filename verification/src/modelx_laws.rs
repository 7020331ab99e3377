//! What the parser of model source promises as a whole: how declarations
//! become the model, and that it reads exactly the grammar.
use vstd::prelude::*;
use crate::modelx::{
    DefinitionView, FieldView, FieldDecl, TableDecl, def_names_distinct, field_names_distinct,
    upsert_def, upsert_field, insert_unique, dedup, definitions_of, definition_of, fields_of, field_of,
    lemma_dedup_no_dup, FieldType, Tok, annots_from, keyed_at, field_from, fields_from, table_from,
    tables_from, type_named, word_of, lex_from, ident_run, spec_parse, cons_tok, lemma_ident_run,
};
use crate::text::{is_ident, is_ident_char, is_ident_start, is_blank};

verus! {

// ------------------------------------------------------------------------
// From declarations to the model
// ------------------------------------------------------------------------

pub open spec fn def_names(ds: Seq<DefinitionView>) -> Seq<Seq<char>> {
    ds.map_values(|d: DefinitionView| d.name)
}

pub open spec fn table_names(ts: Seq<TableDecl>) -> Seq<Seq<char>> {
    ts.map_values(|t: TableDecl| t.name)
}

pub open spec fn field_names(fs: Seq<FieldView>) -> Seq<Seq<char>> {
    fs.map_values(|f: FieldView| f.name)
}

pub open spec fn decl_names(fs: Seq<FieldDecl>) -> Seq<Seq<char>> {
    fs.map_values(|f: FieldDecl| f.name)
}

/// The definition named `n` in `ds`, if any.
pub open spec fn def_named(ds: Seq<DefinitionView>, n: Seq<char>) -> Option<DefinitionView> {
    if exists|k: int| 0 <= k < ds.len() && ds[k].name == n {
        Some(ds[choose|k: int| 0 <= k < ds.len() && ds[k].name == n])
    } else {
        None
    }
}

/// The field named `n` in `fs`, if any.
pub open spec fn field_named(fs: Seq<FieldView>, n: Seq<char>) -> Option<FieldView> {
    if exists|k: int| 0 <= k < fs.len() && fs[k].name == n {
        Some(fs[choose|k: int| 0 <= k < fs.len() && fs[k].name == n])
    } else {
        None
    }
}

/// The last table declared under the name `n`, if any.
pub open spec fn last_table_named(ts: Seq<TableDecl>, n: Seq<char>) -> Option<TableDecl>
    decreases ts.len(),
{
    if ts.len() == 0 {
        None
    } else if ts.last().name == n {
        Some(ts.last())
    } else {
        last_table_named(ts.drop_last(), n)
    }
}

/// The last field declared under the name `n`, if any.
pub open spec fn last_field_named(fs: Seq<FieldDecl>, n: Seq<char>) -> Option<FieldDecl>
    decreases fs.len(),
{
    if fs.len() == 0 {
        None
    } else if fs.last().name == n {
        Some(fs.last())
    } else {
        last_field_named(fs.drop_last(), n)
    }
}

proof fn lemma_upsert_def(ds: Seq<DefinitionView>, d: DefinitionView)
    requires
        def_names_distinct(ds),
    ensures
        def_names_distinct(upsert_def(ds, d)),
        def_names(upsert_def(ds, d)) == insert_unique(def_names(ds), d.name),
        forall|n: Seq<char>|
            #[trigger] def_named(upsert_def(ds, d), n) == if n == d.name {
                Some(d)
            } else {
                def_named(ds, n)
            },
{
    let r = upsert_def(ds, d);
    if exists|k: int| 0 <= k < ds.len() && ds[k].name == d.name {
        let c = choose|k: int| 0 <= k < ds.len() && ds[k].name == d.name;
        assert(r == ds.update(c, d));
        assert(def_names(r) =~= def_names(ds));
        assert(def_names(ds)[c] == d.name);
        assert(forall|m: int| 0 <= m < r.len() ==> r[m].name == ds[m].name);
        assert forall|n: Seq<char>|
            #[trigger] def_named(r, n) == if n == d.name {
                Some(d)
            } else {
                def_named(ds, n)
            } by {
            if n == d.name {
                assert(r[c].name == n);
                let k1 = choose|k: int| 0 <= k < r.len() && r[k].name == n;
                assert(k1 == c);
            } else if exists|k: int| 0 <= k < ds.len() && ds[k].name == n {
                let k2 = choose|k: int| 0 <= k < ds.len() && ds[k].name == n;
                assert(r[k2].name == n);
                let k1 = choose|k: int| 0 <= k < r.len() && r[k].name == n;
                assert(k1 == k2);
            } else {
                assert(!exists|k: int| 0 <= k < r.len() && r[k].name == n);
            }
        }
    } else {
        assert(r == ds.push(d));
        assert(def_names(r) =~= def_names(ds).push(d.name));
        assert(!def_names(ds).contains(d.name));
        assert forall|n: Seq<char>|
            #[trigger] def_named(r, n) == if n == d.name {
                Some(d)
            } else {
                def_named(ds, n)
            } by {
            if n == d.name {
                assert(r[ds.len() as int].name == n);
                let k1 = choose|k: int| 0 <= k < r.len() && r[k].name == n;
                assert(k1 == ds.len());
            } else if exists|k: int| 0 <= k < ds.len() && ds[k].name == n {
                let k2 = choose|k: int| 0 <= k < ds.len() && ds[k].name == n;
                assert(r[k2].name == n);
                let k1 = choose|k: int| 0 <= k < r.len() && r[k].name == n;
                assert(k1 == k2);
            } else {
                assert(!exists|k: int| 0 <= k < r.len() && r[k].name == n);
            }
        }
    }
}

proof fn lemma_upsert_field(fs: Seq<FieldView>, f: FieldView)
    requires
        field_names_distinct(fs),
    ensures
        field_names_distinct(upsert_field(fs, f)),
        field_names(upsert_field(fs, f)) == insert_unique(field_names(fs), f.name),
        forall|n: Seq<char>|
            #[trigger] field_named(upsert_field(fs, f), n) == if n == f.name {
                Some(f)
            } else {
                field_named(fs, n)
            },
{
    let r = upsert_field(fs, f);
    if exists|k: int| 0 <= k < fs.len() && fs[k].name == f.name {
        let c = choose|k: int| 0 <= k < fs.len() && fs[k].name == f.name;
        assert(r == fs.update(c, f));
        assert(field_names(r) =~= field_names(fs));
        assert(field_names(fs)[c] == f.name);
        assert(forall|m: int| 0 <= m < r.len() ==> r[m].name == fs[m].name);
        assert forall|n: Seq<char>|
            #[trigger] field_named(r, n) == if n == f.name {
                Some(f)
            } else {
                field_named(fs, n)
            } by {
            if n == f.name {
                assert(r[c].name == n);
                let k1 = choose|k: int| 0 <= k < r.len() && r[k].name == n;
                assert(k1 == c);
            } else if exists|k: int| 0 <= k < fs.len() && fs[k].name == n {
                let k2 = choose|k: int| 0 <= k < fs.len() && fs[k].name == n;
                assert(r[k2].name == n);
                let k1 = choose|k: int| 0 <= k < r.len() && r[k].name == n;
                assert(k1 == k2);
            } else {
                assert(!exists|k: int| 0 <= k < r.len() && r[k].name == n);
            }
        }
    } else {
        assert(r == fs.push(f));
        assert(field_names(r) =~= field_names(fs).push(f.name));
        assert(!field_names(fs).contains(f.name));
        assert forall|n: Seq<char>|
            #[trigger] field_named(r, n) == if n == f.name {
                Some(f)
            } else {
                field_named(fs, n)
            } by {
            if n == f.name {
                assert(r[fs.len() as int].name == n);
                let k1 = choose|k: int| 0 <= k < r.len() && r[k].name == n;
                assert(k1 == fs.len());
            } else if exists|k: int| 0 <= k < fs.len() && fs[k].name == n {
                let k2 = choose|k: int| 0 <= k < fs.len() && fs[k].name == n;
                assert(r[k2].name == n);
                let k1 = choose|k: int| 0 <= k < r.len() && r[k].name == n;
                assert(k1 == k2);
            } else {
                assert(!exists|k: int| 0 <= k < r.len() && r[k].name == n);
            }
        }
    }
}

/// The model of a sequence of tables holds each declared table name once, in
/// order of first declaration, and under each name the last table declared
/// with it.
pub proof fn lemma_model_of_tables(ts: Seq<TableDecl>)
    ensures
        def_names_distinct(definitions_of(ts)),
        def_names(definitions_of(ts)) == dedup(table_names(ts)),
        forall|n: Seq<char>|
            #[trigger] def_named(definitions_of(ts), n) == match last_table_named(ts, n) {
                Some(t) => Some(definition_of(t)),
                None => None,
            },
    decreases ts.len(),
{
    if ts.len() == 0 {
        assert(def_names(definitions_of(ts)) =~= dedup(table_names(ts)));
        assert forall|n: Seq<char>|
            #[trigger] def_named(definitions_of(ts), n) == match last_table_named(ts, n) {
                Some(t) => Some(definition_of(t)),
                None => None,
            } by {}
    } else {
        let init = ts.drop_last();
        lemma_model_of_tables(init);
        lemma_upsert_def(definitions_of(init), definition_of(ts.last()));
        assert(table_names(ts).drop_last() =~= table_names(init));
        assert(table_names(ts).last() == ts.last().name);
        assert forall|n: Seq<char>|
            #[trigger] def_named(definitions_of(ts), n) == match last_table_named(ts, n) {
                Some(t) => Some(definition_of(t)),
                None => None,
            } by {
            assert(def_named(definitions_of(init), n) == match last_table_named(init, n) {
                Some(t) => Some(definition_of(t)),
                None => None,
            });
        }
    }
}

/// The fields of a table hold each declared field name once, in order of
/// first declaration, and under each name the last field declared with it.
pub proof fn lemma_fields_of_decls(fs: Seq<FieldDecl>)
    ensures
        field_names_distinct(fields_of(fs)),
        field_names(fields_of(fs)) == dedup(decl_names(fs)),
        forall|n: Seq<char>|
            #[trigger] field_named(fields_of(fs), n) == match last_field_named(fs, n) {
                Some(f) => Some(field_of(f)),
                None => None,
            },
    decreases fs.len(),
{
    if fs.len() == 0 {
        assert(field_names(fields_of(fs)) =~= dedup(decl_names(fs)));
        assert forall|n: Seq<char>|
            #[trigger] field_named(fields_of(fs), n) == match last_field_named(fs, n) {
                Some(f) => Some(field_of(f)),
                None => None,
            } by {}
    } else {
        let init = fs.drop_last();
        lemma_fields_of_decls(init);
        lemma_upsert_field(fields_of(init), field_of(fs.last()));
        assert(decl_names(fs).drop_last() =~= decl_names(init));
        assert(decl_names(fs).last() == fs.last().name);
        assert forall|n: Seq<char>|
            #[trigger] field_named(fields_of(fs), n) == match last_field_named(fs, n) {
                Some(f) => Some(field_of(f)),
                None => None,
            } by {
            assert(field_named(fields_of(init), n) == match last_field_named(init, n) {
                Some(f) => Some(field_of(f)),
                None => None,
            });
        }
    }
}

proof fn lemma_push_contains(p: Seq<Seq<char>>, y: Seq<char>, x: Seq<char>)
    ensures
        p.push(y).contains(x) <==> (p.contains(x) || x == y),
{
    let q = p.push(y);
    if q.contains(x) {
        let k = choose|k: int| 0 <= k < q.len() && q[k] == x;
        if k < p.len() {
            assert(p[k] == x);
        }
    }
    if p.contains(x) {
        let k = choose|k: int| 0 <= k < p.len() && p[k] == x;
        assert(q[k] == x);
    }
    if x == y {
        assert(q[p.len() as int] == x);
    }
}

/// A field keeps exactly the annotations written on it, each once.
pub proof fn lemma_dedup_keeps_elements(s: Seq<Seq<char>>)
    ensures
        dedup(s).no_duplicates(),
        forall|x: Seq<char>| #[trigger] dedup(s).contains(x) <==> s.contains(x),
    decreases s.len(),
{
    lemma_dedup_no_dup(s);
    if s.len() > 0 {
        let p = s.drop_last();
        let y = s.last();
        let d = dedup(p);
        lemma_dedup_keeps_elements(p);
        assert(s =~= p.push(y));
        assert forall|x: Seq<char>| #[trigger] dedup(s).contains(x) <==> s.contains(x) by {
            lemma_push_contains(p, y, x);
            lemma_push_contains(d, y, x);
        }
    }
}

// ------------------------------------------------------------------------
// The grammar, written forwards
// ------------------------------------------------------------------------

/// How a field type is written.
pub open spec fn written_type(t: FieldType) -> Seq<char> {
    match t {
        FieldType::String => "String"@,
        FieldType::UUID => "UUID"@,
        FieldType::Integer => "Integer"@,
    }
}

pub open spec fn annot_toks(an: Seq<Seq<char>>) -> Seq<Tok> {
    an.map_values(|a: Seq<char>| Tok::Annot(a))
}

/// The tokens of a field declaration.
pub open spec fn field_toks(f: FieldDecl) -> Seq<Tok> {
    annot_toks(f.annotations) + (if f.is_key {
        seq![Tok::Word("key"@)]
    } else {
        Seq::empty()
    }) + seq![Tok::Word(f.name), Tok::Colon, Tok::Word(written_type(f.field_type))]
}

pub open spec fn fields_toks(fs: Seq<FieldDecl>) -> Seq<Tok>
    decreases fs.len(),
{
    if fs.len() == 0 {
        Seq::empty()
    } else {
        field_toks(fs[0]) + fields_toks(fs.drop_first())
    }
}

/// The tokens of a table declaration.
pub open spec fn table_toks(t: TableDecl) -> Seq<Tok> {
    annot_toks(t.annotations) + seq![Tok::Word("table"@), Tok::Word(t.name), Tok::Open]
        + fields_toks(t.fields) + seq![Tok::Close]
}

/// The tokens of a sequence of table declarations.
pub open spec fn tables_toks(ts: Seq<TableDecl>) -> Seq<Tok>
    decreases ts.len(),
{
    if ts.len() == 0 {
        Seq::empty()
    } else {
        table_toks(ts[0]) + tables_toks(ts.drop_first())
    }
}

/// `r` stands in `t` from position `i` on.
pub open spec fn at(t: Seq<Tok>, i: int, r: Seq<Tok>) -> bool {
    &&& 0 <= i
    &&& i + r.len() <= t.len()
    &&& forall|k: int| 0 <= k < r.len() ==> t[i + k] == #[trigger] r[k]
}

proof fn lemma_at_split(t: Seq<Tok>, i: int, a: Seq<Tok>, b: Seq<Tok>)
    requires
        at(t, i, a + b),
    ensures
        at(t, i, a),
        at(t, i + a.len(), b),
{
    assert forall|k: int| 0 <= k < a.len() implies t[i + k] == #[trigger] a[k] by {
        assert((a + b)[k] == a[k]);
    }
    assert forall|k: int| 0 <= k < b.len() implies t[i + a.len() + k] == #[trigger] b[k] by {
        assert((a + b)[a.len() + k] == b[k]);
    }
}

proof fn lemma_at_join(t: Seq<Tok>, i: int, a: Seq<Tok>, b: Seq<Tok>)
    requires
        at(t, i, a),
        at(t, i + a.len(), b),
    ensures
        at(t, i, a + b),
{
    assert forall|k: int| 0 <= k < (a + b).len() implies t[i + k] == #[trigger] (a + b)[k] by {
        if k < a.len() {
            assert(a[k] == (a + b)[k]);
        } else {
            assert(b[k - a.len()] == (a + b)[k]);
        }
    }
}

proof fn lemma_written_type(ft: FieldType)
    ensures
        type_named(written_type(ft)) == Some(ft),
{
    reveal_strlit("String");
    reveal_strlit("UUID");
    reveal_strlit("Integer");
    assert("String"@.len() == 6);
    assert("UUID"@.len() == 4);
    assert("Integer"@.len() == 7);
}

proof fn lemma_annots_read(t: Seq<Tok>, i: int, an: Seq<Seq<char>>)
    requires
        at(t, i, annot_toks(an)),
        i + an.len() < t.len() ==> !(t[i + an.len()] is Annot),
    ensures
        annots_from(t, i) == an,
    decreases an.len(),
{
    if an.len() > 0 {
        assert(annot_toks(an)[0] == Tok::Annot(an[0]));
        let rest = an.drop_first();
        assert forall|k: int| 0 <= k < annot_toks(rest).len() implies t[i + 1 + k]
            == #[trigger] annot_toks(rest)[k] by {
            assert(annot_toks(an)[k + 1] == Tok::Annot(an[k + 1]));
        }
        lemma_annots_read(t, i + 1, rest);
        assert(seq![an[0]] + rest =~= an);
    }
}

proof fn lemma_field_read(t: Seq<Tok>, i: int, f: FieldDecl)
    requires
        at(t, i, field_toks(f)),
    ensures
        field_from(t, i) == Some((f, i + field_toks(f).len())),
{
    let a = annot_toks(f.annotations);
    let kk: Seq<Tok> = if f.is_key {
        seq![Tok::Word("key"@)]
    } else {
        Seq::empty()
    };
    let tail = seq![Tok::Word(f.name), Tok::Colon, Tok::Word(written_type(f.field_type))];
    assert(field_toks(f) == a + kk + tail);
    lemma_at_split(t, i, a + kk, tail);
    lemma_at_split(t, i, a, kk);
    let j = i + f.annotations.len();
    let k = j + kk.len();
    assert(t[k] == tail[0]);
    assert(t[k + 1] == tail[1]);
    assert(t[k + 2] == tail[2]);
    if f.is_key {
        assert(t[j] == kk[0]);
    }
    lemma_annots_read(t, i, f.annotations);
    lemma_written_type(f.field_type);
}

proof fn lemma_field_toks_start(f: FieldDecl)
    ensures
        field_toks(f).len() >= 3,
        field_toks(f)[0] != Tok::Close,
{
    let a = annot_toks(f.annotations);
    if f.annotations.len() > 0 {
        assert(field_toks(f)[0] == a[0]);
    } else if f.is_key {
        assert(field_toks(f)[0] == Tok::Word("key"@));
    } else {
        assert(field_toks(f)[0] == Tok::Word(f.name));
    }
}

proof fn lemma_fields_read(t: Seq<Tok>, i: int, fs: Seq<FieldDecl>)
    requires
        at(t, i, fields_toks(fs) + seq![Tok::Close]),
    ensures
        fields_from(t, i) == Some((fs, i + fields_toks(fs).len() + 1)),
    decreases fs.len(),
{
    let r = fields_toks(fs) + seq![Tok::Close];
    if fs.len() == 0 {
        assert(r[0] == Tok::Close);
        assert(fs =~= Seq::<FieldDecl>::empty());
    } else {
        let f = fs[0];
        let rest = fs.drop_first();
        assert(r =~= field_toks(f) + (fields_toks(rest) + seq![Tok::Close]));
        lemma_at_split(t, i, field_toks(f), fields_toks(rest) + seq![Tok::Close]);
        lemma_field_toks_start(f);
        assert(t[i] == field_toks(f)[0]);
        lemma_field_read(t, i, f);
        lemma_fields_read(t, i + field_toks(f).len(), rest);
        assert(seq![f] + rest =~= fs);
    }
}

proof fn lemma_table_read(t: Seq<Tok>, i: int, tb: TableDecl)
    requires
        at(t, i, table_toks(tb)),
    ensures
        table_from(t, i) == Some((tb, i + table_toks(tb).len())),
{
    let a = annot_toks(tb.annotations);
    let head = seq![Tok::Word("table"@), Tok::Word(tb.name), Tok::Open];
    let body = fields_toks(tb.fields) + seq![Tok::Close];
    assert(table_toks(tb) =~= a + head + body);
    lemma_at_split(t, i, a + head, body);
    lemma_at_split(t, i, a, head);
    let j = i + tb.annotations.len();
    assert(t[j] == head[0]);
    assert(t[j + 1] == head[1]);
    assert(t[j + 2] == head[2]);
    lemma_annots_read(t, i, tb.annotations);
    lemma_fields_read(t, j + 3, tb.fields);
}

proof fn lemma_tables_read(t: Seq<Tok>, i: int, ts: Seq<TableDecl>)
    requires
        at(t, i, tables_toks(ts)),
        i + tables_toks(ts).len() == t.len(),
    ensures
        tables_from(t, i) == Some(ts),
    decreases ts.len(),
{
    if ts.len() == 0 {
        assert(ts =~= Seq::<TableDecl>::empty());
    } else {
        let tb = ts[0];
        let rest = ts.drop_first();
        lemma_at_split(t, i, table_toks(tb), tables_toks(rest));
        lemma_table_read(t, i, tb);
        lemma_tables_read(t, i + table_toks(tb).len(), rest);
        assert(seq![tb] + rest =~= ts);
    }
}

proof fn lemma_annots_written(t: Seq<Tok>, i: int)
    requires
        0 <= i <= t.len(),
    ensures
        at(t, i, annot_toks(annots_from(t, i))),
        i + annots_from(t, i).len() < t.len() ==> !(t[i + annots_from(t, i).len()] is Annot),
    decreases t.len() - i,
{
    let an = annots_from(t, i);
    if i < t.len() && t[i] is Annot {
        lemma_annots_written(t, i + 1);
        let rest = annots_from(t, i + 1);
        assert(an == seq![word_of_annot(t[i])] + rest);
        assert forall|k: int| 0 <= k < annot_toks(an).len() implies t[i + k]
            == #[trigger] annot_toks(an)[k] by {
            if k > 0 {
                assert(annot_toks(rest)[k - 1] == annot_toks(an)[k]);
            }
        }
    }
}

spec fn word_of_annot(t: Tok) -> Seq<char> {
    match t {
        Tok::Annot(a) => a,
        _ => Seq::empty(),
    }
}

proof fn lemma_field_written(t: Seq<Tok>, i: int)
    requires
        0 <= i <= t.len(),
    ensures
        field_from(t, i) matches Some((f, j)) ==> at(t, i, field_toks(f)) && j == i + field_toks(
            f,
        ).len(),
{
    if let Some((f, j)) = field_from(t, i) {
        let a = annot_toks(f.annotations);
        let kk: Seq<Tok> = if f.is_key {
            seq![Tok::Word("key"@)]
        } else {
            Seq::empty()
        };
        let tail = seq![Tok::Word(f.name), Tok::Colon, Tok::Word(written_type(f.field_type))];
        lemma_annots_written(t, i);
        let j0 = i + f.annotations.len();
        let k = j0 + kk.len();
        assert(at(t, j0, kk));
        let w = word_of(t[k + 2]);
        assert(written_type(type_named(w)->0) == w);
        assert(at(t, k, tail));
        lemma_at_join(t, i, a, kk);
        lemma_at_join(t, i, a + kk, tail);
        assert(field_toks(f) == a + kk + tail);
    }
}

proof fn lemma_fields_written(t: Seq<Tok>, i: int)
    requires
        0 <= i <= t.len(),
    ensures
        fields_from(t, i) matches Some((fs, k)) ==> at(t, i, fields_toks(fs) + seq![Tok::Close])
            && k == i + fields_toks(fs).len() + 1,
    decreases t.len() - i,
{
    if let Some((fs, k)) = fields_from(t, i) {
        if t[i] == Tok::Close {
            assert(fields_toks(fs) + seq![Tok::Close] =~= seq![Tok::Close]);
        } else {
            let (f, j) = field_from(t, i)->0;
            lemma_field_written(t, i);
            lemma_fields_written(t, j);
            let rest = (fields_from(t, j)->0).0;
            assert(fs == seq![f] + rest);
            assert(fs[0] == f);
            assert(fs.drop_first() =~= rest);
            lemma_at_join(t, i, field_toks(f), fields_toks(rest) + seq![Tok::Close]);
            assert(fields_toks(fs) + seq![Tok::Close] =~= field_toks(f) + (fields_toks(rest) + seq![
                Tok::Close,
            ]));
        }
    }
}

proof fn lemma_table_written(t: Seq<Tok>, i: int)
    requires
        0 <= i <= t.len(),
    ensures
        table_from(t, i) matches Some((tb, j)) ==> at(t, i, table_toks(tb)) && j == i + table_toks(
            tb,
        ).len(),
{
    if let Some((tb, j)) = table_from(t, i) {
        let a = annot_toks(tb.annotations);
        let head = seq![Tok::Word("table"@), Tok::Word(tb.name), Tok::Open];
        let body = fields_toks(tb.fields) + seq![Tok::Close];
        lemma_annots_written(t, i);
        let j0 = i + tb.annotations.len();
        assert(at(t, j0, head));
        lemma_fields_written(t, j0 + 3);
        lemma_at_join(t, i, a, head);
        lemma_at_join(t, i, a + head, body);
        assert(table_toks(tb) =~= a + head + body);
    }
}

proof fn lemma_tables_written(t: Seq<Tok>, i: int)
    requires
        0 <= i <= t.len(),
    ensures
        tables_from(t, i) matches Some(ts) ==> at(t, i, tables_toks(ts)) && i + tables_toks(ts).len()
            == t.len(),
    decreases t.len() - i,
{
    if let Some(ts) = tables_from(t, i) {
        if i == t.len() {
            assert(tables_toks(ts) =~= Seq::<Tok>::empty());
        } else {
            crate::modelx::lemma_table_from_advances(t, i);
            let (tb, j) = table_from(t, i)->0;
            lemma_table_written(t, i);
            lemma_tables_written(t, j);
            let rest = tables_from(t, j)->0;
            assert(ts == seq![tb] + rest);
            assert(ts[0] == tb);
            assert(ts.drop_first() =~= rest);
            lemma_at_join(t, i, table_toks(tb), tables_toks(rest));
        }
    }
}

/// The parser reads exactly what the grammar writes: every sequence of table
/// declarations, written out as tokens, reads back as itself, and a token
/// sequence that reads as some tables is those tables written out.
pub proof fn lemma_grammar_round_trip(ts: Seq<TableDecl>, t: Seq<Tok>)
    ensures
        tables_from(tables_toks(ts), 0) == Some(ts),
        tables_from(t, 0) == Some(ts) ==> tables_toks(ts) == t,
{
    let w = tables_toks(ts);
    assert(at(w, 0, w));
    lemma_tables_read(w, 0, ts);
    lemma_tables_written(t, 0);
    if tables_from(t, 0) == Some(ts) {
        assert(tables_toks(ts) =~= t);
    }
}

// ------------------------------------------------------------------------
// Source text, written forwards
// ------------------------------------------------------------------------

/// How a token is written.
pub open spec fn tok_text(t: Tok) -> Seq<char> {
    match t {
        Tok::Word(w) => w,
        Tok::Annot(a) => a,
        Tok::Colon => seq![':'],
        Tok::Open => seq!['{'],
        Tok::Close => seq!['}'],
    }
}

/// Tokens written one after another, each followed by a space.
pub open spec fn print_toks(ts: Seq<Tok>) -> Seq<char>
    decreases ts.len(),
{
    if ts.len() == 0 {
        Seq::empty()
    } else {
        tok_text(ts[0]) + seq![' '] + print_toks(ts.drop_first())
    }
}

/// A name that can be written as an annotation: `@` and an identifier.
pub open spec fn is_annotation_name(a: Seq<char>) -> bool {
    a.len() >= 1 && a[0] == '@' && is_ident(a.drop_first())
}

/// A token that can be written: words are identifiers, annotations are `@`
/// and an identifier.
pub open spec fn tok_wf(t: Tok) -> bool {
    match t {
        Tok::Word(w) => is_ident(w),
        Tok::Annot(a) => is_annotation_name(a),
        _ => true,
    }
}

pub open spec fn toks_wf(ts: Seq<Tok>) -> bool {
    forall|k: int| 0 <= k < ts.len() ==> tok_wf(#[trigger] ts[k])
}

/// Declarations that can be written as source: identifiers for names and
/// `@` and an identifier for annotations.
pub open spec fn field_decl_wf(f: FieldDecl) -> bool {
    &&& is_ident(f.name)
    &&& forall|k: int| 0 <= k < f.annotations.len() ==> is_annotation_name(#[trigger] f.annotations[k])
}

pub open spec fn table_decl_wf(t: TableDecl) -> bool {
    &&& is_ident(t.name)
    &&& forall|k: int| 0 <= k < t.annotations.len() ==> is_annotation_name(#[trigger] t.annotations[k])
    &&& forall|k: int| 0 <= k < t.fields.len() ==> field_decl_wf(#[trigger] t.fields[k])
}

pub open spec fn tables_decl_wf(ts: Seq<TableDecl>) -> bool {
    forall|k: int| 0 <= k < ts.len() ==> table_decl_wf(#[trigger] ts[k])
}

/// `r` stands in `s` from position `i` on.
pub open spec fn at_chars(s: Seq<char>, i: int, r: Seq<char>) -> bool {
    &&& 0 <= i
    &&& i + r.len() <= s.len()
    &&& forall|k: int| 0 <= k < r.len() ==> s[i + k] == #[trigger] r[k]
}

proof fn lemma_at_chars_split(s: Seq<char>, i: int, a: Seq<char>, b: Seq<char>)
    requires
        at_chars(s, i, a + b),
    ensures
        at_chars(s, i, a),
        at_chars(s, i + a.len(), b),
{
    assert forall|k: int| 0 <= k < a.len() implies s[i + k] == #[trigger] a[k] by {
        assert((a + b)[k] == a[k]);
    }
    assert forall|k: int| 0 <= k < b.len() implies s[i + a.len() + k] == #[trigger] b[k] by {
        assert((a + b)[a.len() + k] == b[k]);
    }
}

proof fn lemma_ident_run_of(s: Seq<char>, i: int, w: Seq<char>)
    requires
        at_chars(s, i, w),
        forall|k: int| 0 <= k < w.len() ==> is_ident_char(#[trigger] w[k]),
        i + w.len() < s.len(),
        !is_ident_char(s[i + w.len()]),
    ensures
        ident_run(s, i) == w.len(),
    decreases w.len(),
{
    if w.len() == 0 {
    } else {
        assert(s[i] == w[0]);
        let rest = w.drop_first();
        assert forall|k: int| 0 <= k < rest.len() implies s[i + 1 + k] == #[trigger] rest[k] by {
            assert(w[k + 1] == rest[k]);
        }
        assert forall|k: int| 0 <= k < rest.len() implies is_ident_char(#[trigger] rest[k]) by {
            assert(w[k + 1] == rest[k]);
        }
        lemma_ident_run_of(s, i + 1, rest);
    }
}

proof fn lemma_lex_printed(s: Seq<char>, i: int, ts: Seq<Tok>)
    requires
        at_chars(s, i, print_toks(ts)),
        i + print_toks(ts).len() == s.len(),
        toks_wf(ts),
    ensures
        lex_from(s, i) == Some(ts),
    decreases ts.len(),
{
    if ts.len() == 0 {
        assert(ts =~= Seq::<Tok>::empty());
    } else {
        let t0 = ts[0];
        let rest = ts.drop_first();
        let txt = tok_text(t0);
        assert(tok_wf(t0));
        assert(print_toks(ts) == txt + seq![' '] + print_toks(rest));
        lemma_at_chars_split(s, i, txt + seq![' '], print_toks(rest));
        lemma_at_chars_split(s, i, txt, seq![' ']);
        let n = txt.len();
        assert(s[i + n] == seq![' '][0]);
        assert forall|k: int| 0 <= k < rest.len() implies tok_wf(#[trigger] rest[k]) by {
            assert(ts[k + 1] == rest[k]);
        }
        lemma_lex_printed(s, i + n + 1, rest);
        match t0 {
            Tok::Word(w) => {
                assert(s[i] == w[0]);
                lemma_ident_run_of(s, i, w);
                assert(s.subrange(i, i + n) =~= w);
                assert(lex_from(s, i + n) == lex_from(s, i + n + 1));
            },
            Tok::Annot(a) => {
                assert(s[i] == a[0]);
                let body = a.drop_first();
                assert forall|k: int| 0 <= k < body.len() implies s[i + 1 + k] == #[trigger] body[k] by {
                    assert(a[k + 1] == body[k]);
                }
                assert(s[i + 1] == body[0]);
                lemma_ident_run_of(s, i + 1, body);
                assert(s.subrange(i, i + n) =~= a);
                assert(lex_from(s, i + n) == lex_from(s, i + n + 1));
            },
            Tok::Colon => {
                assert(s[i] == txt[0]);
            },
            Tok::Open => {
                assert(s[i] == txt[0]);
            },
            Tok::Close => {
                assert(s[i] == txt[0]);
            },
        }
        assert(seq![t0] + rest =~= ts);
    }
}

proof fn lemma_toks_wf_join(a: Seq<Tok>, b: Seq<Tok>)
    requires
        toks_wf(a),
        toks_wf(b),
    ensures
        toks_wf(a + b),
{
    assert forall|k: int| 0 <= k < (a + b).len() implies tok_wf(#[trigger] (a + b)[k]) by {
        if k < a.len() {
            assert((a + b)[k] == a[k]);
        } else {
            assert((a + b)[k] == b[k - a.len()]);
        }
    }
}

proof fn lemma_keywords_are_idents()
    ensures
        is_ident("key"@),
        is_ident("table"@),
        is_ident("String"@),
        is_ident("UUID"@),
        is_ident("Integer"@),
{
    reveal_strlit("key");
    reveal_strlit("table");
    reveal_strlit("String");
    reveal_strlit("UUID");
    reveal_strlit("Integer");
}

proof fn lemma_annot_toks_wf(an: Seq<Seq<char>>)
    requires
        forall|k: int| 0 <= k < an.len() ==> is_annotation_name(#[trigger] an[k]),
    ensures
        toks_wf(annot_toks(an)),
{
    assert forall|k: int| 0 <= k < annot_toks(an).len() implies tok_wf(#[trigger] annot_toks(an)[k]) by {
        assert(is_annotation_name(an[k]));
    }
}

proof fn lemma_fields_toks_wf(fs: Seq<FieldDecl>)
    requires
        forall|k: int| 0 <= k < fs.len() ==> field_decl_wf(#[trigger] fs[k]),
    ensures
        toks_wf(fields_toks(fs)),
    decreases fs.len(),
{
    if fs.len() > 0 {
        let f = fs[0];
        assert(field_decl_wf(f));
        lemma_keywords_are_idents();
        lemma_annot_toks_wf(f.annotations);
        let kk: Seq<Tok> = if f.is_key {
            seq![Tok::Word("key"@)]
        } else {
            Seq::empty()
        };
        let tail = seq![Tok::Word(f.name), Tok::Colon, Tok::Word(written_type(f.field_type))];
        assert(tok_wf(tail[0]));
        assert(tok_wf(tail[2]));
        assert(toks_wf(tail));
        assert(toks_wf(kk));
        lemma_toks_wf_join(annot_toks(f.annotations), kk);
        lemma_toks_wf_join(annot_toks(f.annotations) + kk, tail);
        assert forall|k: int| 0 <= k < fs.drop_first().len() implies field_decl_wf(
            #[trigger] fs.drop_first()[k],
        ) by {
            assert(fs[k + 1] == fs.drop_first()[k]);
        }
        lemma_fields_toks_wf(fs.drop_first());
        lemma_toks_wf_join(field_toks(f), fields_toks(fs.drop_first()));
    }
}

proof fn lemma_tables_toks_wf(ts: Seq<TableDecl>)
    requires
        tables_decl_wf(ts),
    ensures
        toks_wf(tables_toks(ts)),
    decreases ts.len(),
{
    if ts.len() > 0 {
        let tb = ts[0];
        assert(table_decl_wf(tb));
        lemma_keywords_are_idents();
        lemma_annot_toks_wf(tb.annotations);
        let head = seq![Tok::Word("table"@), Tok::Word(tb.name), Tok::Open];
        assert(tok_wf(head[0]));
        assert(tok_wf(head[1]));
        assert(toks_wf(head));
        let close = seq![Tok::Close];
        assert(toks_wf(close));
        lemma_fields_toks_wf(tb.fields);
        lemma_toks_wf_join(annot_toks(tb.annotations), head);
        lemma_toks_wf_join(annot_toks(tb.annotations) + head, fields_toks(tb.fields));
        lemma_toks_wf_join(annot_toks(tb.annotations) + head + fields_toks(tb.fields), close);
        assert forall|k: int| 0 <= k < ts.drop_first().len() implies table_decl_wf(
            #[trigger] ts.drop_first()[k],
        ) by {
            assert(ts[k + 1] == ts.drop_first()[k]);
        }
        lemma_tables_toks_wf(ts.drop_first());
        lemma_toks_wf_join(table_toks(tb), tables_toks(ts.drop_first()));
    }
}

/// Every sequence of table declarations with identifiers for names and
/// annotations, written out with a space after each token, is source text
/// whose model is the model of those tables.
pub proof fn lemma_source_round_trip(ts: Seq<TableDecl>)
    requires
        tables_decl_wf(ts),
    ensures
        spec_parse(print_toks(tables_toks(ts))) == Some(definitions_of(ts)),
{
    let t = tables_toks(ts);
    let s = print_toks(t);
    lemma_tables_toks_wf(ts);
    assert(at_chars(s, 0, s));
    lemma_lex_printed(s, 0, t);
    lemma_grammar_round_trip(ts, t);
}

// ------------------------------------------------------------------------
// Sources joined one after the other
// ------------------------------------------------------------------------

proof fn lemma_ident_run_shift(p: Seq<char>, b: Seq<char>, j: int)
    requires
        0 <= j <= b.len(),
    ensures
        ident_run(p + b, p.len() + j) == ident_run(b, j),
    decreases b.len() - j,
{
    if j < b.len() {
        assert((p + b)[p.len() + j] == b[j]);
        if is_ident_char(b[j]) {
            lemma_ident_run_shift(p, b, j + 1);
        }
    }
}

proof fn lemma_ident_run_prefix(a: Seq<char>, r: Seq<char>, i: int)
    requires
        0 <= i <= a.len(),
        r.len() > 0,
        !is_ident_char(r[0]),
    ensures
        ident_run(a + r, i) == ident_run(a, i),
    decreases a.len() - i,
{
    if i < a.len() {
        assert((a + r)[i] == a[i]);
        if is_ident_char(a[i]) {
            lemma_ident_run_prefix(a, r, i + 1);
        }
    } else {
        assert((a + r)[i] == r[0]);
    }
}

/// Lexing does not look before a position: the text after a prefix lexes as
/// it does alone.
proof fn lemma_lex_shift(p: Seq<char>, b: Seq<char>, j: int)
    requires
        0 <= j <= b.len(),
    ensures
        lex_from(p + b, p.len() + j) == lex_from(b, j),
    decreases b.len() - j,
{
    let s = p + b;
    let i = p.len() + j;
    if j < b.len() {
        assert(s[i] == b[j]);
        let c = b[j];
        if is_blank(c) || c == ':' || c == '{' || c == '}' {
            lemma_lex_shift(p, b, j + 1);
        } else if c == '@' {
            if j + 1 < b.len() {
                assert(s[i + 1] == b[j + 1]);
                if is_ident_start(b[j + 1]) {
                    lemma_ident_run_shift(p, b, j + 1);
                    lemma_ident_run(b, j + 1);
                    let n = ident_run(b, j + 1);
                    assert(s.subrange(i, i + 1 + n) =~= b.subrange(j, j + 1 + n));
                    lemma_lex_shift(p, b, j + 1 + n);
                }
            }
        } else if is_ident_start(c) {
            lemma_ident_run_shift(p, b, j);
            lemma_ident_run(b, j);
            let n = ident_run(b, j);
            assert(s.subrange(i, i + n) =~= b.subrange(j, j + n));
            lemma_lex_shift(p, b, j + n);
        }
    }
}

/// Tokens of two parts, or `None` if either part has none.
pub open spec fn join_toks(x: Option<Seq<Tok>>, y: Option<Seq<Tok>>) -> Option<Seq<Tok>> {
    match x {
        Some(u) => match y {
            Some(v) => Some(u + v),
            None => None,
        },
        None => None,
    }
}

proof fn lemma_join_cons(t: Tok, x: Option<Seq<Tok>>, y: Option<Seq<Tok>>)
    ensures
        join_toks(cons_tok(t, x), y) == cons_tok(t, join_toks(x, y)),
{
    if let Some(u) = x {
        if let Some(v) = y {
            assert(seq![t] + u + v =~= seq![t] + (u + v));
        }
    }
}

/// Lexing a text that goes on after a blank: the tokens of the text before
/// the blank, then those from the blank on.
proof fn lemma_lex_prefix(a: Seq<char>, r: Seq<char>, i: int)
    requires
        0 <= i <= a.len(),
        r.len() > 0,
        is_blank(r[0]),
    ensures
        lex_from(a + r, i) == join_toks(lex_from(a, i), lex_from(a + r, a.len() as int)),
    decreases a.len() - i,
{
    let s = a + r;
    if i == a.len() {
        if let Some(v) = lex_from(s, i) {
            assert(Seq::<Tok>::empty() + v =~= v);
        }
    } else {
        assert(s[i] == a[i]);
        let c = a[i];
        let rest = lex_from(s, a.len() as int);
        if is_blank(c) {
            lemma_lex_prefix(a, r, i + 1);
        } else if c == ':' {
            lemma_lex_prefix(a, r, i + 1);
            lemma_join_cons(Tok::Colon, lex_from(a, i + 1), rest);
        } else if c == '{' {
            lemma_lex_prefix(a, r, i + 1);
            lemma_join_cons(Tok::Open, lex_from(a, i + 1), rest);
        } else if c == '}' {
            lemma_lex_prefix(a, r, i + 1);
            lemma_join_cons(Tok::Close, lex_from(a, i + 1), rest);
        } else if c == '@' {
            if i + 1 < a.len() {
                assert(s[i + 1] == a[i + 1]);
                if is_ident_start(a[i + 1]) {
                    lemma_ident_run_prefix(a, r, i + 1);
                    lemma_ident_run(a, i + 1);
                    let n = ident_run(a, i + 1);
                    assert(s.subrange(i, i + 1 + n) =~= a.subrange(i, i + 1 + n));
                    lemma_lex_prefix(a, r, i + 1 + n);
                    lemma_join_cons(
                        Tok::Annot(a.subrange(i, i + 1 + n)),
                        lex_from(a, i + 1 + n),
                        rest,
                    );
                }
            } else {
                assert(s[i + 1] == r[0]);
            }
        } else if is_ident_start(c) {
            lemma_ident_run_prefix(a, r, i);
            lemma_ident_run(a, i);
            let n = ident_run(a, i);
            assert(s.subrange(i, i + n) =~= a.subrange(i, i + n));
            lemma_lex_prefix(a, r, i + n);
            lemma_join_cons(Tok::Word(a.subrange(i, i + n)), lex_from(a, i + n), rest);
        }
    }
}

/// Two texts joined by a line break lex as the tokens of the first, then
/// those of the second.
proof fn lemma_lex_join(a: Seq<char>, b: Seq<char>)
    ensures
        lex_from(a + seq!['\n'] + b, 0) == join_toks(lex_from(a, 0), lex_from(b, 0)),
{
    let s = a + seq!['\n'] + b;
    let r = seq!['\n'] + b;
    let p = a + seq!['\n'];
    assert(s =~= a + r);
    assert(s =~= p + b);
    assert(r[0] == '\n');
    lemma_lex_prefix(a, r, 0);
    assert(s[a.len() as int] == '\n');
    lemma_lex_shift(p, b, 0);
    assert(lex_from(s, a.len() as int) == lex_from(s, p.len() as int));
}

proof fn lemma_tables_toks_concat(x: Seq<TableDecl>, y: Seq<TableDecl>)
    ensures
        tables_toks(x + y) == tables_toks(x) + tables_toks(y),
    decreases x.len(),
{
    if x.len() == 0 {
        assert(x + y =~= y);
        assert(tables_toks(x) + tables_toks(y) =~= tables_toks(y));
    } else {
        assert((x + y)[0] == x[0]);
        assert((x + y).drop_first() =~= x.drop_first() + y);
        lemma_tables_toks_concat(x.drop_first(), y);
        assert(table_toks(x[0]) + (tables_toks(x.drop_first()) + tables_toks(y)) =~= table_toks(x[0])
            + tables_toks(x.drop_first()) + tables_toks(y));
    }
}

proof fn lemma_last_table_concat(x: Seq<TableDecl>, y: Seq<TableDecl>, n: Seq<char>)
    ensures
        last_table_named(x + y, n) == match last_table_named(y, n) {
            Some(t) => Some(t),
            None => last_table_named(x, n),
        },
    decreases y.len(),
{
    if y.len() == 0 {
        assert(x + y =~= x);
    } else {
        assert((x + y).drop_last() =~= x + y.drop_last());
        assert((x + y).last() == y.last());
        lemma_last_table_concat(x, y.drop_last(), n);
    }
}

/// Two model sources joined by a line break read as one model that holds
/// every table name of either; under a name that the second source declares
/// stands the second source's definition, under any other the first's.
pub proof fn lemma_joined_sources(a: Seq<char>, b: Seq<char>)
    requires
        spec_parse(a) is Some,
        spec_parse(b) is Some,
    ensures
        spec_parse(a + seq!['\n'] + b) is Some,
        forall|n: Seq<char>|
            #[trigger] def_named(spec_parse(a + seq!['\n'] + b)->0, n) == match def_named(
                spec_parse(b)->0,
                n,
            ) {
                Some(d) => Some(d),
                None => def_named(spec_parse(a)->0, n),
            },
{
    let s = a + seq!['\n'] + b;
    let ta = lex_from(a, 0)->0;
    let tb = lex_from(b, 0)->0;
    let xa = tables_from(ta, 0)->0;
    let xb = tables_from(tb, 0)->0;
    lemma_lex_join(a, b);
    lemma_grammar_round_trip(xa, ta);
    lemma_grammar_round_trip(xb, tb);
    lemma_tables_toks_concat(xa, xb);
    lemma_grammar_round_trip(xa + xb, ta + tb);
    assert(lex_from(s, 0) == Some(ta + tb));
    assert(tables_from(ta + tb, 0) == Some(xa + xb));
    assert(spec_parse(s) == Some(definitions_of(xa + xb)));
    lemma_model_of_tables(xa);
    lemma_model_of_tables(xb);
    lemma_model_of_tables(xa + xb);
    assert forall|n: Seq<char>|
        #[trigger] def_named(spec_parse(s)->0, n) == match def_named(spec_parse(b)->0, n) {
            Some(d) => Some(d),
            None => def_named(spec_parse(a)->0, n),
        } by {
        lemma_last_table_concat(xa, xb, n);
        assert(def_named(definitions_of(xa + xb), n) == match last_table_named(xa + xb, n) {
            Some(t) => Some(definition_of(t)),
            None => None,
        });
        assert(def_named(definitions_of(xa), n) == match last_table_named(xa, n) {
            Some(t) => Some(definition_of(t)),
            None => None,
        });
        assert(def_named(definitions_of(xb), n) == match last_table_named(xb, n) {
            Some(t) => Some(definition_of(t)),
            None => None,
        });
    }
}

} // verus!
