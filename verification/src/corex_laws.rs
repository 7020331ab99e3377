//! What the generated service holds, for every model: the pieces of source
//! that each generator must write, stated as text that the output contains.
use vstd::prelude::*;
use crate::modelx::{DefinitionView, FieldView, FieldType};
use crate::corex::deploy_sql;
use crate::corex::{
    model_static_init_text, db_static_init_text, resources_static_init_text,
    http_static_init_text, def_pieces, def_piece, DefPiece, join_field_pieces, field_piece,
    FieldPiece, has_annotation,
};
use crate::expand::import_text;
use crate::text::str_literal;

verus! {

/// `t` stands in `s` from position `i` on.
pub open spec fn text_at(s: Seq<char>, t: Seq<char>, i: int) -> bool {
    0 <= i && i + t.len() <= s.len() && s.subrange(i, i + t.len()) == t
}

/// `t` stands somewhere in `s`.
pub open spec fn has_text(s: Seq<char>, t: Seq<char>) -> bool {
    exists|i: int| #[trigger] text_at(s, t, i)
}

proof fn lemma_has_text_mid(a: Seq<char>, t: Seq<char>, b: Seq<char>)
    ensures
        has_text(a + t + b, t),
{
    assert((a + t + b).subrange(a.len() as int, (a.len() + t.len()) as int) =~= t);
    assert(text_at(a + t + b, t, a.len() as int));
}

proof fn lemma_has_text_left(a: Seq<char>, b: Seq<char>, t: Seq<char>)
    requires
        has_text(a, t),
    ensures
        has_text(a + b, t),
{
    let i = choose|i: int| text_at(a, t, i);
    assert((a + b).subrange(i, i + t.len()) =~= a.subrange(i, i + t.len()));
    assert(text_at(a + b, t, i));
}

proof fn lemma_has_text_right(a: Seq<char>, b: Seq<char>, t: Seq<char>)
    requires
        has_text(b, t),
    ensures
        has_text(a + b, t),
{
    let i = choose|i: int| text_at(b, t, i);
    assert((a + b).subrange(a.len() + i, a.len() + i + t.len()) =~= b.subrange(i, i + t.len()));
    assert(text_at(a + b, t, a.len() + i));
}

proof fn lemma_has_text_trans(s: Seq<char>, t: Seq<char>, u: Seq<char>)
    requires
        has_text(s, t),
        has_text(t, u),
    ensures
        has_text(s, u),
{
    let i = choose|i: int| text_at(s, t, i);
    let j = choose|j: int| text_at(t, u, j);
    assert(s.subrange(i + j, i + j + u.len()) =~= t.subrange(j, j + u.len()));
    assert(text_at(s, u, i + j));
}

proof fn lemma_has_text_self(t: Seq<char>)
    ensures
        has_text(t, t),
{
    assert(t.subrange(0, t.len() as int) =~= t);
    assert(text_at(t, t, 0));
}

proof fn lemma_def_pieces_has(p: DefPiece, m: Seq<DefinitionView>, k: int)
    requires
        0 <= k < m.len(),
    ensures
        has_text(def_pieces(p, m), def_piece(p, m[k])),
    decreases m.len(),
{
    let init = m.drop_last();
    if k == m.len() - 1 {
        lemma_has_text_mid(def_pieces(p, init), def_piece(p, m[k]), Seq::empty());
        assert(def_pieces(p, init) + def_piece(p, m[k]) + Seq::<char>::empty() =~= def_pieces(p, m));
    } else {
        lemma_def_pieces_has(p, init, k);
        assert(init[k] == m[k]);
        lemma_has_text_left(def_pieces(p, init), def_piece(p, m.last()), def_piece(p, m[k]));
    }
}

proof fn lemma_field_pieces_has(
    p: FieldPiece,
    d: DefinitionView,
    fs: Seq<FieldView>,
    sep: Seq<char>,
    j: int,
)
    requires
        0 <= j < fs.len(),
    ensures
        has_text(join_field_pieces(p, d, fs, sep), field_piece(p, d, fs[j])),
    decreases fs.len(),
{
    if fs.len() == 1 {
        lemma_has_text_self(field_piece(p, d, fs[0]));
    } else {
        let init = fs.drop_last();
        let front = join_field_pieces(p, d, init, sep) + sep;
        if j == fs.len() - 1 {
            lemma_has_text_mid(front, field_piece(p, d, fs[j]), Seq::empty());
            assert(front + field_piece(p, d, fs[j]) + Seq::<char>::empty() =~= join_field_pieces(
                p,
                d,
                fs,
                sep,
            ));
        } else {
            lemma_field_pieces_has(p, d, init, sep, j);
            assert(init[j] == fs[j]);
            lemma_has_text_left(join_field_pieces(p, d, init, sep), sep, field_piece(p, d, fs[j]));
            lemma_has_text_left(front, field_piece(p, d, fs.last()), field_piece(p, d, fs[j]));
        }
    }
}

/// The struct of every table has a field for each of its fields, typed
/// `String` for a `String` or `UUID` field and `i32` for an `Integer` field,
/// as is for a key field and in an `Option` for any other.
pub proof fn lemma_model_field_types(m: Seq<DefinitionView>, k: int, j: int)
    requires
        0 <= k < m.len(),
        0 <= j < m[k].fields.len(),
    ensures
        ({
            let f = m[k].fields[j];
            let text = model_static_init_text(m);
            &&& (f.field_type == FieldType::String || f.field_type == FieldType::UUID) ==> has_text(
                text,
                "pub "@ + f.name + if f.is_key {
                    ": String"@
                } else {
                    ": Option<String>"@
                },
            )
            &&& f.field_type == FieldType::Integer ==> has_text(
                text,
                "pub "@ + f.name + if f.is_key {
                    ": i32"@
                } else {
                    ": Option<i32>"@
                },
            )
        }),
{
    let d = m[k];
    let f = d.fields[j];
    reveal_strlit(": ");
    reveal_strlit(": Option<");
    reveal_strlit(">");
    reveal_strlit("String");
    reveal_strlit("i32");
    reveal_strlit(": String");
    reveal_strlit(": Option<String>");
    reveal_strlit(": i32");
    reveal_strlit(": Option<i32>");
    let fp = field_piece(FieldPiece::ModelField, d, f);
    let want = "pub "@ + f.name + if f.field_type == FieldType::Integer {
        if f.is_key {
            ": i32"@
        } else {
            ": Option<i32>"@
        }
    } else {
        if f.is_key {
            ": String"@
        } else {
            ": Option<String>"@
        }
    };
    assert(fp =~= want);
    lemma_field_pieces_has(FieldPiece::ModelField, d, d.fields, crate::corex::MODEL_FIELD_SEP@, j);
    let dp = def_piece(DefPiece::ModelStruct, d);
    let join = join_field_pieces(FieldPiece::ModelField, d, d.fields, crate::corex::MODEL_FIELD_SEP@);
    lemma_has_text_mid(crate::corex::model_struct_head_text(d), join, crate::corex::MODEL_STRUCT_TAIL@);
    lemma_has_text_trans(dp, join, fp);
    lemma_def_pieces_has(DefPiece::ModelStruct, m, k);
    let all = def_pieces(DefPiece::ModelStruct, m);
    lemma_has_text_trans(all, dp, fp);
    lemma_has_text_mid(crate::corex::MODEL_MOD_HEAD@, all, crate::corex::MODEL_MOD_TAIL@);
    lemma_has_text_trans(model_static_init_text(m), all, fp);
}

/// The `createDB` of every table removes the separator after the last set
/// field before it ends the query with `;`, then runs it; its `readDB`
/// selects everything from that table.
pub proof fn lemma_db_query_closed(m: Seq<DefinitionView>, k: int)
    requires
        0 <= k < m.len(),
    ensures
        has_text(db_static_init_text(m), "        post_statement.pop();\n        post_statement.push(\";\".to_string());\n        let ast = post_statement.join(\"\");\n        db.execute(&ast, &ses, None, false).await.unwrap();\n    }\n    async fn readDB(db: &surrealdb::Datastore) -> Self {\n        let ses = surrealdb::Session::for_kv().with_ns(\"test\").with_db(\"test\");\n        let ast = format!(\"SELECT * FROM {};\", "@ + str_literal(m[k].name)),
{
    let d = m[k];
    let seg = "        post_statement.pop();\n        post_statement.push(\";\".to_string());\n        let ast = post_statement.join(\"\");\n        db.execute(&ast, &ses, None, false).await.unwrap();\n    }\n    async fn readDB(db: &surrealdb::Datastore) -> Self {\n        let ses = surrealdb::Session::for_kv().with_ns(\"test\").with_db(\"test\");\n        let ast = format!(\"SELECT * FROM {};\", "@ + str_literal(d.name);
    let tail = crate::corex::db_impl_tail_text(d);
    let rest = tail.subrange(seg.len() as int, tail.len() as int);
    assert(tail =~= seg + rest);
    lemma_has_text_mid(Seq::empty(), seg, rest);
    assert(Seq::<char>::empty() + seg + rest =~= tail);
    let dp = def_piece(DefPiece::DbImpl, d);
    let front = crate::corex::db_impl_head_text(d) + join_field_pieces(FieldPiece::DbPost, d, d.fields, ""@);
    lemma_has_text_mid(front, tail, Seq::empty());
    assert(front + tail + Seq::<char>::empty() =~= dp);
    lemma_has_text_trans(dp, tail, seg);
    lemma_def_pieces_has(DefPiece::DbImpl, m, k);
    let all = def_pieces(DefPiece::DbImpl, m);
    lemma_has_text_trans(all, dp, seg);
    lemma_has_text_right(crate::corex::DB_TRAIT@, all, seg);
}

/// The database handler of every table annotated `@db` writes a created
/// record with `createDB` on the record and the resources' database, and
/// reads with `DB::readDB` as that table's struct.
pub proof fn lemma_db_handler_writes(m: Seq<DefinitionView>, k: int)
    requires
        0 <= k < m.len(),
        has_annotation(m[k], "@db"@),
    ensures
        has_text(resources_static_init_text(m), ", std::sync::Arc<Resources>>) -> Result<(), String> {\n                println!(\"Holly molly, it finally works!\");\n                match input {\n                    handlerx::Context::Create(create_context) => {\n                        println!(\"Write to database\");\n                        let _result = &create_context.data.createDB(&create_context.resources.db).await;\n                    }\n                    handlerx::Context::Read(read_context) => {\n                        let _result: Model::"@ + m[k].name + " = DB::readDB(&read_context.resources.db).await;\n                    }\n                    _ => {\n                        println!(\"Not implemented\");\n                    }\n                }\n                Ok(())\n            }\n        }\n        new_processor."@),
{
    let d = m[k];
    let seg = ", std::sync::Arc<Resources>>) -> Result<(), String> {\n                println!(\"Holly molly, it finally works!\");\n                match input {\n                    handlerx::Context::Create(create_context) => {\n                        println!(\"Write to database\");\n                        let _result = &create_context.data.createDB(&create_context.resources.db).await;\n                    }\n                    handlerx::Context::Read(read_context) => {\n                        let _result: Model::"@ + d.name + " = DB::readDB(&read_context.resources.db).await;\n                    }\n                    _ => {\n                        println!(\"Not implemented\");\n                    }\n                }\n                Ok(())\n            }\n        }\n        new_processor."@;
    let h = crate::corex::db_handler_text(d);
    let front = "        struct Handler_"@ + d.name
        + ";\n        #[async_trait::async_trait]\n        impl handlerx::Handler<handlerx::Context<Model::"@
        + d.name + ", std::sync::Arc<Resources>>> for Handler_"@ + d.name
        + " {\n            async fn handle(&self, input: &mut handlerx::Context<Model::"@ + d.name;
    let back = d.name + ".register(Handler_"@ + d.name + ");\n"@;
    assert(h =~= front + seg + back);
    lemma_has_text_mid(front, seg, back);
    assert(def_piece(DefPiece::DbHandler, d) == h);
    lemma_def_pieces_has(DefPiece::DbHandler, m, k);
    let all = def_pieces(DefPiece::DbHandler, m);
    lemma_has_text_trans(all, h, seg);
    let text = resources_static_init_text(m);
    let pre = crate::corex::PROCESSOR_HEAD@ + def_pieces(DefPiece::ProcessorField, m)
        + crate::corex::PROCESSOR_NEW_HEAD@ + def_pieces(DefPiece::ProcessorNew, m)
        + crate::corex::PROCESSOR_NEW_MID@;
    let post = crate::corex::PROCESSOR_NEW_TAIL@ + crate::corex::RESOURCES_TAIL@;
    assert(text =~= pre + all + post);
    lemma_has_text_mid(pre, all, post);
    lemma_has_text_trans(text, all, seg);
}

/// The router has a GET and a POST route at `/<table>` for every table
/// annotated `@http`, whatever its other annotations.
pub proof fn lemma_http_routes(m: Seq<DefinitionView>, k: int)
    requires
        0 <= k < m.len(),
        has_annotation(m[k], "@http"@),
    ensures
        has_text(
            http_static_init_text(m),
            "        router = router.route("@ + str_literal("/"@ + m[k].name)
                + ", axum::routing::get(Self::axum_get_"@ + m[k].name
                + "));\n        router = router.route("@ + str_literal("/"@ + m[k].name)
                + ", axum::routing::post(Self::axum_post_"@ + m[k].name + "));\n"@,
        ),
{
    let d = m[k];
    let r = crate::corex::http_route_text(d);
    assert(def_piece(DefPiece::HttpRoute, d) == r);
    lemma_def_pieces_has(DefPiece::HttpRoute, m, k);
    let all = def_pieces(DefPiece::HttpRoute, m);
    let text = http_static_init_text(m);
    let post = crate::corex::HTTP_INIT_END@ + def_pieces(DefPiece::HttpEndpoints, m)
        + crate::corex::DEPLOY_HEAD@ + def_pieces(DefPiece::DeployExec, m)
        + crate::corex::HTTP_TAIL@;
    assert(text =~= crate::corex::HTTP_HEAD@ + all + post);
    lemma_has_text_mid(crate::corex::HTTP_HEAD@, all, post);
    lemma_has_text_trans(text, all, r);
}

/// The application struct declares `options`, `http` and `resources`, and
/// its `init` sets each of them: `http` to a started `Http` and `resources`
/// to shared `Resources`.
pub proof fn lemma_app_init_sets_every_field(name: Seq<char>, m: Seq<DefinitionView>)
    ensures
        has_text(
            import_text(name, m),
            name + " {\n    options: Opt,\n"@ + "http: Option<Http>,\n"@
                + "resources: std::sync::Arc<Resources>,\n"@ + "}\nimpl "@ + name
                + " {\n    pub async fn init(options: Opt) -> Self {\n        Self {\n            options,\n"@
                + "http: Some(Http::init().await),\n"@
                + "resources: std::sync::Arc::new(Resources::init().await),\n"@
                + "        }\n    }\n"@,
        ),
{
    let seg = name + " {\n    options: Opt,\n"@ + "http: Option<Http>,\n"@
        + "resources: std::sync::Arc<Resources>,\n"@ + "}\nimpl "@ + name
        + " {\n    pub async fn init(options: Opt) -> Self {\n        Self {\n            options,\n"@
        + "http: Some(Http::init().await),\n"@
        + "resources: std::sync::Arc::new(Resources::init().await),\n"@
        + "        }\n    }\n"@;
    let app = crate::expand::app_text(name);
    let post = crate::expand::BOOT_HEAD@ + crate::corex::HTTP_BOOT@ + crate::expand::BOOT_TAIL@
        + crate::expand::APP_TAIL@;
    assert(app =~= crate::expand::APP_HEAD@ + seg + post);
    lemma_has_text_mid(crate::expand::APP_HEAD@, seg, post);
    let pre = crate::expand::static_init_text(m) + crate::expand::options_text();
    assert(import_text(name, m) == pre + app);
    lemma_has_text_right(pre, app, seg);
}

/// The `createDB` of every table sets each of its fields in the query: a
/// key field from `&self.<field>`, any other only when present; the value
/// stands between double quotes for a `String` or `UUID` field and bare for
/// an `Integer` field, and each part is followed by a `,` separator.
pub proof fn lemma_db_sets_every_field(m: Seq<DefinitionView>, k: int, j: int)
    requires
        0 <= k < m.len(),
        0 <= j < m[k].fields.len(),
    ensures
        ({
            let f = m[k].fields[j];
            let q = if f.field_type == FieldType::Integer {
                ""@
            } else {
                "\""@
            };
            has_text(
                db_static_init_text(m),
                if f.is_key {
                    "        post_statement.push(format!(\"{} = {}{}{}\", "@ + str_literal(f.name) + ", "@
                        + str_literal(q) + ", &self."@ + f.name
                        + ", "@ + str_literal(q) + "));\n        post_statement.push(\",\".to_string());\n"@
                } else {
                    "        if let Some(x) = &self."@ + f.name + " {\n            post_statement.push(format!(\"{} = {}{}{}\", "@ + str_literal(
                        f.name,
                    ) + ", "@ + str_literal(q) + ", x, "@
                        + str_literal(q) + "));\n            post_statement.push(\",\".to_string());\n        }\n"@
                },
            )
        }),
{
    let d = m[k];
    let f = d.fields[j];
    let fp = field_piece(FieldPiece::DbPost, d, f);
    lemma_field_pieces_has(FieldPiece::DbPost, d, d.fields, ""@, j);
    let join = join_field_pieces(FieldPiece::DbPost, d, d.fields, ""@);
    let dp = def_piece(DefPiece::DbImpl, d);
    lemma_has_text_mid(crate::corex::db_impl_head_text(d), join, crate::corex::db_impl_tail_text(d));
    lemma_has_text_trans(dp, join, fp);
    lemma_def_pieces_has(DefPiece::DbImpl, m, k);
    let all = def_pieces(DefPiece::DbImpl, m);
    lemma_has_text_trans(all, dp, fp);
    lemma_has_text_right(crate::corex::DB_TRAIT@, all, fp);
}

/// `Processor` has a handler registry of the contexts of every table, made
/// empty in `Processor::new`; the database handler of every table annotated
/// `@db` is registered on that table's registry.
pub proof fn lemma_processor_registries(m: Seq<DefinitionView>, k: int)
    requires
        0 <= k < m.len(),
    ensures
        has_text(
            resources_static_init_text(m),
            "    "@ + m[k].name + ": handlerx::HandlerRegistry<handlerx::Context<Model::"@ + m[k].name
                + ", std::sync::Arc<Resources>>>,\n"@,
        ),
        has_text(
            resources_static_init_text(m),
            "            "@ + m[k].name + ": handlerx::HandlerRegistry::new(),\n"@,
        ),
        has_annotation(m[k], "@db"@) ==> has_text(
            resources_static_init_text(m),
            " = DB::readDB(&read_context.resources.db).await;\n                    }\n                    _ => {\n                        println!(\"Not implemented\");\n                    }\n                }\n                Ok(())\n            }\n        }\n        new_processor."@ + m[k].name + ".register(Handler_"@ + m[k].name + ");\n"@,
        ),
{
    let d = m[k];
    let text = resources_static_init_text(m);
    let fields = def_pieces(DefPiece::ProcessorField, m);
    let news = def_pieces(DefPiece::ProcessorNew, m);
    let handlers = def_pieces(DefPiece::DbHandler, m);
    lemma_def_pieces_has(DefPiece::ProcessorField, m, k);
    lemma_def_pieces_has(DefPiece::ProcessorNew, m, k);
    lemma_def_pieces_has(DefPiece::DbHandler, m, k);
    let a = crate::corex::PROCESSOR_HEAD@;
    let b = crate::corex::PROCESSOR_NEW_HEAD@ + news + crate::corex::PROCESSOR_NEW_MID@ + handlers
        + crate::corex::PROCESSOR_NEW_TAIL@ + crate::corex::RESOURCES_TAIL@;
    assert(text =~= a + fields + b);
    lemma_has_text_mid(a, fields, b);
    lemma_has_text_trans(text, fields, crate::corex::processor_field_text(d));
    let a2 = crate::corex::PROCESSOR_HEAD@ + fields + crate::corex::PROCESSOR_NEW_HEAD@;
    let b2 = crate::corex::PROCESSOR_NEW_MID@ + handlers + crate::corex::PROCESSOR_NEW_TAIL@
        + crate::corex::RESOURCES_TAIL@;
    assert(text =~= a2 + news + b2);
    lemma_has_text_mid(a2, news, b2);
    lemma_has_text_trans(text, news, crate::corex::processor_new_text(d));
    if has_annotation(d, "@db"@) {
        let h = crate::corex::db_handler_text(d);
        let reg = " = DB::readDB(&read_context.resources.db).await;\n                    }\n                    _ => {\n                        println!(\"Not implemented\");\n                    }\n                }\n                Ok(())\n            }\n        }\n        new_processor."@ + d.name + ".register(Handler_"@ + d.name + ");\n"@;
        let front = "        struct Handler_"@ + d.name
            + ";\n        #[async_trait::async_trait]\n        impl handlerx::Handler<handlerx::Context<Model::"@
            + d.name + ", std::sync::Arc<Resources>>> for Handler_"@ + d.name
            + " {\n            async fn handle(&self, input: &mut handlerx::Context<Model::"@ + d.name
            + ", std::sync::Arc<Resources>>) -> Result<(), String> {\n                println!(\"Holly molly, it finally works!\");\n                match input {\n                    handlerx::Context::Create(create_context) => {\n                        println!(\"Write to database\");\n                        let _result = &create_context.data.createDB(&create_context.resources.db).await;\n                    }\n                    handlerx::Context::Read(read_context) => {\n                        let _result: Model::"@ + d.name;
        assert(h =~= front + reg + Seq::<char>::empty());
        lemma_has_text_mid(front, reg, Seq::empty());
        let a3 = crate::corex::PROCESSOR_HEAD@ + fields + crate::corex::PROCESSOR_NEW_HEAD@ + news
            + crate::corex::PROCESSOR_NEW_MID@;
        let b3 = crate::corex::PROCESSOR_NEW_TAIL@ + crate::corex::RESOURCES_TAIL@;
        assert(text =~= a3 + handlers + b3);
        lemma_has_text_mid(a3, handlers, b3);
        lemma_has_text_trans(handlers, h, reg);
        lemma_has_text_trans(text, handlers, reg);
    }
}

/// The POST endpoint of every table annotated `@http` runs the table's
/// handlers on a create context, then answers `CREATED`; its GET endpoint
/// runs them on a read context, then answers `OK`.
pub proof fn lemma_http_endpoints_run_handlers(m: Seq<DefinitionView>, k: int)
    requires
        0 <= k < m.len(),
        has_annotation(m[k], "@http"@),
    ensures
        has_text(
            http_static_init_text(m),
            ", std::sync::Arc<Resources>> {\n            data: payload,\n            resources: resources.clone(),\n        };\n        let mut context = handlerx::Context::Create(create_context);\n        resources.processors."@ + m[k].name + ".exec(&mut context).await;\n        let result = \"ok\".to_string();\n        (axum::http::StatusCode::CREATED, axum::Json(result))\n    }\n    pub async fn axum_get_"@,
        ),
        has_text(
            http_static_init_text(m),
            ");\n        let read_context = handlerx::ReadContext { resources: resources.clone() };\n        let mut context = handlerx::Context::Read(read_context);\n        resources.processors."@ + m[k].name + ".exec(&mut context).await;\n        let result = \"ok\".to_string();\n        (axum::http::StatusCode::OK, axum::Json(result))\n    }\n"@,
        ),
{
    let d = m[k];
    let e = crate::corex::http_endpoints_text(d);
    let s1 = ", std::sync::Arc<Resources>> {\n            data: payload,\n            resources: resources.clone(),\n        };\n        let mut context = handlerx::Context::Create(create_context);\n        resources.processors."@ + d.name + ".exec(&mut context).await;\n        let result = \"ok\".to_string();\n        (axum::http::StatusCode::CREATED, axum::Json(result))\n    }\n    pub async fn axum_get_"@;
    let s2 = ");\n        let read_context = handlerx::ReadContext { resources: resources.clone() };\n        let mut context = handlerx::Context::Read(read_context);\n        resources.processors."@ + d.name + ".exec(&mut context).await;\n        let result = \"ok\".to_string();\n        (axum::http::StatusCode::OK, axum::Json(result))\n    }\n"@;
    let f1 = "    pub async fn axum_post_"@ + d.name + "(axum::Extension(resources): axum::Extension<std::sync::Arc<Resources>>, axum::extract::Json(payload): axum::extract::Json<Model::"@ + d.name
        + ">) -> impl axum::response::IntoResponse {\n        println!(\"POST for {}\", "@ + str_literal(d.name) + ");\n        let mut create_context = handlerx::CreateContext::<Model::"@
        + d.name;
    let b1 = d.name + "(axum::Extension(resources): axum::Extension<std::sync::Arc<Resources>>) -> impl axum::response::IntoResponse {\n        println!(\"GET for {}\", "@ + str_literal(d.name) + s2;
    assert(e =~= f1 + s1 + b1);
    lemma_has_text_mid(f1, s1, b1);
    let f2 = f1 + s1 + d.name + "(axum::Extension(resources): axum::Extension<std::sync::Arc<Resources>>) -> impl axum::response::IntoResponse {\n        println!(\"GET for {}\", "@ + str_literal(d.name);
    assert(e =~= f2 + s2 + Seq::<char>::empty());
    lemma_has_text_mid(f2, s2, Seq::empty());
    assert(def_piece(DefPiece::HttpEndpoints, d) == e);
    lemma_def_pieces_has(DefPiece::HttpEndpoints, m, k);
    let all = def_pieces(DefPiece::HttpEndpoints, m);
    let text = http_static_init_text(m);
    let pre = crate::corex::HTTP_HEAD@ + def_pieces(DefPiece::HttpRoute, m) + crate::corex::HTTP_INIT_END@;
    let post = crate::corex::DEPLOY_HEAD@ + def_pieces(DefPiece::DeployExec, m) + crate::corex::HTTP_TAIL@;
    assert(text =~= pre + all + post);
    lemma_has_text_mid(pre, all, post);
    lemma_has_text_trans(all, e, s1);
    lemma_has_text_trans(all, e, s2);
    lemma_has_text_trans(text, all, s1);
    lemma_has_text_trans(text, all, s2);
}

/// The SurrealQL of a table defines the table as schemafull and then each
/// of its fields, typed `string` for a `String` or `UUID` field and `int`
/// for an `Integer` field.
pub proof fn lemma_deploy_defines_fields(d: DefinitionView, j: int)
    requires
        0 <= j < d.fields.len(),
    ensures
        deploy_sql(d).subrange(0, ("\nDEFINE TABLE "@ + d.name + " SCHEMAFULL;"@).len() as int)
            == "\nDEFINE TABLE "@ + d.name + " SCHEMAFULL;"@,
        has_text(
            deploy_sql(d),
            "\nDEFINE FIELD "@ + d.fields[j].name + " on TABLE "@ + d.name + " TYPE "@ + if d.fields[j].field_type
                == FieldType::Integer {
                "int"@
            } else {
                "string"@
            } + ";"@,
        ),
{
    let head = crate::corex::DEPLOY_TABLE_HEAD@ + d.name + crate::corex::DEPLOY_TABLE_TAIL@;
    let join = join_field_pieces(FieldPiece::DeployField, d, d.fields, ""@);
    assert(deploy_sql(d) =~= head + join);
    assert((head + join).subrange(0, head.len() as int) =~= head);
    lemma_field_pieces_has(FieldPiece::DeployField, d, d.fields, ""@, j);
    lemma_has_text_right(head, join, field_piece(FieldPiece::DeployField, d, d.fields[j]));
}

/// The deploy endpoint prints and runs the SurrealQL of every table
/// annotated `@http`.
pub proof fn lemma_deploy_runs_tables(m: Seq<DefinitionView>, k: int)
    requires
        0 <= k < m.len(),
        has_annotation(m[k], "@http"@),
    ensures
        has_text(
            http_static_init_text(m),
            "        println!(\"{}\", "@ + str_literal(deploy_sql(m[k])) + ");\n        resources.db.execute("@
                + str_literal(deploy_sql(m[k])) + ", &ses, None, false).await.unwrap();\n"@,
        ),
{
    let d = m[k];
    assert(def_piece(DefPiece::DeployExec, d) == crate::corex::deploy_exec_text(d));
    lemma_def_pieces_has(DefPiece::DeployExec, m, k);
    let all = def_pieces(DefPiece::DeployExec, m);
    let text = http_static_init_text(m);
    let pre = crate::corex::HTTP_HEAD@ + def_pieces(DefPiece::HttpRoute, m) + crate::corex::HTTP_INIT_END@
        + def_pieces(DefPiece::HttpEndpoints, m) + crate::corex::DEPLOY_HEAD@;
    assert(text =~= pre + all + crate::corex::HTTP_TAIL@);
    lemma_has_text_mid(pre, all, crate::corex::HTTP_TAIL@);
    lemma_has_text_trans(text, all, crate::corex::deploy_exec_text(d));
}

/// Every table has a struct of its own name in `pub mod Model`.
pub proof fn lemma_model_struct_per_table(m: Seq<DefinitionView>, k: int)
    requires
        0 <= k < m.len(),
    ensures
        has_text(
            model_static_init_text(m),
            "#[derive(Debug, serde::Serialize, serde::Deserialize, Default, sqlx::FromRow)]\npub struct "@
                + m[k].name + " {\n"@,
        ),
{
    let d = m[k];
    let h = crate::corex::model_struct_head_text(d);
    let dp = def_piece(DefPiece::ModelStruct, d);
    let rest = join_field_pieces(FieldPiece::ModelField, d, d.fields, crate::corex::MODEL_FIELD_SEP@)
        + crate::corex::MODEL_STRUCT_TAIL@;
    assert(dp =~= Seq::<char>::empty() + h + rest);
    lemma_has_text_mid(Seq::empty(), h, rest);
    lemma_def_pieces_has(DefPiece::ModelStruct, m, k);
    let all = def_pieces(DefPiece::ModelStruct, m);
    lemma_has_text_trans(all, dp, h);
    lemma_has_text_mid(crate::corex::MODEL_MOD_HEAD@, all, crate::corex::MODEL_MOD_TAIL@);
    lemma_has_text_trans(model_static_init_text(m), all, h);
}

} // verus!
