//! Generators of the Rust source of a service built from a model: the data
//! structs, their database access, the handler registries and the HTTP
//! endpoints.  Each generator yields source text; each function's contract
//! states that text exactly, as a function of the model.
use vstd::prelude::*;
use crate::modelx::{Modelx, Definition, DefinitionView, Field, FieldView, FieldType, defs_view, fields_view};
use crate::text::{push_str_literal, str_literal};
use crate::rust_names::{names_are_idents, model_paths_usable, field_accesses_usable, http_paths_usable};

verus! {

// ------------------------------------------------------------------------
// Fixed pieces of generated source
// ------------------------------------------------------------------------

pub const HTTP_OPTIONS: &'static str = "#[derive(Debug)]\npub struct OptHttp {\n    pub port: u16\n}\n\nimpl Default for OptHttp {\n    fn default() -> Self {\n        OptHttp {\n            port: 8080,\n        }\n    }\n}\n";

pub const HTTP_OPTIONS_EMBED: &'static str = "pub http: OptHttp,\n";

pub const HTTP_INIT: &'static str = "http: Some(Http::init().await),\n";

pub const HTTP_INIT_INJECT: &'static str = "http: Option<Http>,\n";

pub const HTTP_BOOT: &'static str = "let http = self.http.take().unwrap();\nlet resources = self.resources.clone();\nhttp.boot(resources, *&self.options.http.port).await;\n";

pub const RESOURCES_INIT: &'static str = "resources: std::sync::Arc::new(Resources::init().await),\n";

pub const RESOURCES_INIT_INJECT: &'static str = "resources: std::sync::Arc<Resources>,\n";

pub const MODEL_MOD_HEAD: &'static str = "pub mod Model {\n";

pub const MODEL_MOD_TAIL: &'static str = "}\n";

pub const MODEL_STRUCT_TAIL: &'static str = "\n}\n";

pub const MODEL_FIELD_SEP: &'static str = ",\n";

pub const DB_TRAIT: &'static str = "#[async_trait::async_trait]\npub trait DB {\n    async fn createDB(&self, db: &surrealdb::Datastore) {}\n    async fn readDB(db: &surrealdb::Datastore) -> Self;\n}\n";

pub const PROCESSOR_HEAD: &'static str = "pub struct Processor {\n";

pub const PROCESSOR_NEW_HEAD: &'static str = "}\nimpl Processor {\n    pub fn new() -> Self {\n        let mut new_processor = Self {\n";

pub const PROCESSOR_NEW_MID: &'static str = "        };\n";

pub const PROCESSOR_NEW_TAIL: &'static str = "        new_processor\n    }\n}\n";

pub const RESOURCES_TAIL: &'static str = "pub struct Resources {\n    pub db: surrealdb::Datastore,\n    pub processors: Processor,\n}\nimpl Resources {\n    pub async fn init() -> Self {\n        Resources {\n            db: surrealdb::Datastore::new(\"memory\").await.unwrap(),\n            processors: Processor::new(),\n        }\n    }\n}\nimpl std::fmt::Debug for Resources {\n    fn fmt(&self, f: &mut std::fmt::Formatter<'_>) -> std::fmt::Result {\n        f.debug_struct(\"Resources\").finish()\n    }\n}\n";

pub const HTTP_HEAD: &'static str = "#[derive(Debug)]\npub struct Http {\n    pub router: axum::Router,\n}\n\nimpl Http {\n    pub async fn init() -> Self {\n        let mut router = axum::Router::new().route(\"/health\", axum::routing::get(Self::health));\n        router = router.route(\"/deploy\", axum::routing::get(Self::axum_deploy));\n";

pub const HTTP_INIT_END: &'static str = "        Self {\n            router\n        }\n    }\n";

pub const DEPLOY_HEAD: &'static str = "    pub async fn axum_deploy(axum::Extension(resources): axum::Extension<std::sync::Arc<Resources>>) -> impl axum::response::IntoResponse {\n        println!(\"Deploy\");\n        let ses = surrealdb::Session::for_kv().with_ns(\"test\").with_db(\"test\");\n";

pub const HTTP_TAIL: &'static str = "        (axum::http::StatusCode::OK, \"success\")\n    }\n    pub async fn health() -> impl axum::response::IntoResponse {\n        (axum::http::StatusCode::OK, \"healthy\")\n    }\n    pub async fn boot(mut self, resources: std::sync::Arc<Resources>, port: u16) {\n        self.router = self.router.layer(axum::extract::Extension(resources));\n        let addr = std::net::SocketAddr::from(([127, 0, 0, 1], port));\n        println!(\"Listening on http://localhost:{}\", &port);\n        axum::Server::bind(&addr)\n            .serve(self.router.into_make_service())\n            .await\n            .unwrap();\n    }\n}\n";

pub const DEPLOY_TABLE_HEAD: &'static str = "\nDEFINE TABLE ";

pub const DEPLOY_TABLE_TAIL: &'static str = " SCHEMAFULL;";

// ------------------------------------------------------------------------
// Types and annotations
// ------------------------------------------------------------------------

/// The Rust type that stores a field of the given type.
pub open spec fn rust_type(t: FieldType) -> Seq<char> {
    match t {
        FieldType::String => "String"@,
        FieldType::UUID => "String"@,
        FieldType::Integer => "i32"@,
    }
}

fn rust_type_str(t: FieldType) -> (r: &'static str)
    ensures
        r@ == rust_type(t),
{
    match t {
        FieldType::String => "String",
        FieldType::UUID => "String",
        FieldType::Integer => "i32",
    }
}

/// The SurrealQL type of a field of the given type.
pub open spec fn sql_type(t: FieldType) -> Seq<char> {
    match t {
        FieldType::String => "string"@,
        FieldType::UUID => "string"@,
        FieldType::Integer => "int"@,
    }
}

fn sql_type_str(t: FieldType) -> (r: &'static str)
    ensures
        r@ == sql_type(t),
{
    match t {
        FieldType::String => "string",
        FieldType::UUID => "string",
        FieldType::Integer => "int",
    }
}

/// What encloses a value of the given type in a SurrealQL query: a double
/// quote for text, nothing for numbers.
pub open spec fn sql_quote(t: FieldType) -> Seq<char> {
    match t {
        FieldType::String => "\""@,
        FieldType::UUID => "\""@,
        FieldType::Integer => ""@,
    }
}

fn sql_quote_str(t: FieldType) -> (r: &'static str)
    ensures
        r@ == sql_quote(t),
{
    match t {
        FieldType::String => "\"",
        FieldType::UUID => "\"",
        FieldType::Integer => "",
    }
}

/// Whether a definition carries the annotation `a` (written with its `@`).
pub open spec fn has_annotation(d: DefinitionView, a: Seq<char>) -> bool {
    d.annotations.contains(a)
}

pub(crate) fn definition_has_annotation(d: &Definition, a: &str) -> (b: bool)
    ensures
        b == has_annotation(d@, a@),
{
    let ghost sv = d@.annotations;
    let target = String::from_str(a);
    let mut k: usize = 0;
    while k < d.annotations.len()
        invariant
            k <= d.annotations.len(),
            sv == d@.annotations,
            target@ == a@,
            forall|m: int| 0 <= m < k ==> sv[m] != a@,
        decreases d.annotations.len() - k,
    {
        if d.annotations[k] == target {
            assert(sv[k as int] == a@);
            return true;
        }
        k = k + 1;
    }
    false
}

fn push_endpoint_literal(out: &mut String, d: &Definition)
    ensures
        final(out)@ == old(out)@ + str_literal("/"@ + d@.name),
{
    let mut endpoint = String::from_str("/");
    endpoint.append(d.name.as_str());
    push_str_literal(out, endpoint.as_str());
}

// ------------------------------------------------------------------------
// Pieces generated once per field or per definition
// ------------------------------------------------------------------------

/// A key field of a model struct.
pub open spec fn model_key_field_text(d: DefinitionView, f: FieldView) -> Seq<char> {
    "pub "@
        + f.name
        + ": "@
        + rust_type(f.field_type)
}

fn append_model_key_field_text(out: &mut String, _d: &Definition, f: &Field)
    ensures
        final(out)@ == old(out)@ + model_key_field_text(_d@, f@),
{
    let ghost start = out@;
    out.append("pub ");
    out.append(f.name.as_str());
    out.append(": ");
    out.append(rust_type_str(f.field_type));
    proof {
        assert(out@ =~= start + model_key_field_text(_d@, f@));
    }
}

/// A field of a model struct that may be absent.
pub open spec fn model_opt_field_text(d: DefinitionView, f: FieldView) -> Seq<char> {
    "pub "@
        + f.name
        + ": Option<"@
        + rust_type(f.field_type)
        + ">"@
}

fn append_model_opt_field_text(out: &mut String, _d: &Definition, f: &Field)
    ensures
        final(out)@ == old(out)@ + model_opt_field_text(_d@, f@),
{
    let ghost start = out@;
    out.append("pub ");
    out.append(f.name.as_str());
    out.append(": Option<");
    out.append(rust_type_str(f.field_type));
    out.append(">");
    proof {
        assert(out@ =~= start + model_opt_field_text(_d@, f@));
    }
}

/// The statements that add a key field to the `CREATE` query.
pub open spec fn db_key_post_text(d: DefinitionView, f: FieldView) -> Seq<char> {
    "        post_statement.push(format!(\"{} = {}{}{}\", "@
        + str_literal(f.name)
        + ", "@
        + str_literal(sql_quote(f.field_type))
        + ", &self."@
        + f.name
        + ", "@
        + str_literal(sql_quote(f.field_type))
        + "));\n        post_statement.push(\",\".to_string());\n"@
}

fn append_db_key_post_text(out: &mut String, _d: &Definition, f: &Field)
    ensures
        final(out)@ == old(out)@ + db_key_post_text(_d@, f@),
{
    let ghost start = out@;
    out.append("        post_statement.push(format!(\"{} = {}{}{}\", ");
    push_str_literal(out, f.name.as_str());
    out.append(", ");
    push_str_literal(out, sql_quote_str(f.field_type));
    out.append(", &self.");
    out.append(f.name.as_str());
    out.append(", ");
    push_str_literal(out, sql_quote_str(f.field_type));
    out.append("));\n        post_statement.push(\",\".to_string());\n");
    proof {
        assert(out@ =~= start + db_key_post_text(_d@, f@));
    }
}

/// The statements that add a field that may be absent to the `CREATE` query.
pub open spec fn db_opt_post_text(d: DefinitionView, f: FieldView) -> Seq<char> {
    "        if let Some(x) = &self."@
        + f.name
        + " {\n            post_statement.push(format!(\"{} = {}{}{}\", "@
        + str_literal(f.name)
        + ", "@
        + str_literal(sql_quote(f.field_type))
        + ", x, "@
        + str_literal(sql_quote(f.field_type))
        + "));\n            post_statement.push(\",\".to_string());\n        }\n"@
}

fn append_db_opt_post_text(out: &mut String, _d: &Definition, f: &Field)
    ensures
        final(out)@ == old(out)@ + db_opt_post_text(_d@, f@),
{
    let ghost start = out@;
    out.append("        if let Some(x) = &self.");
    out.append(f.name.as_str());
    out.append(" {\n            post_statement.push(format!(\"{} = {}{}{}\", ");
    push_str_literal(out, f.name.as_str());
    out.append(", ");
    push_str_literal(out, sql_quote_str(f.field_type));
    out.append(", x, ");
    push_str_literal(out, sql_quote_str(f.field_type));
    out.append("));\n            post_statement.push(\",\".to_string());\n        }\n");
    proof {
        assert(out@ =~= start + db_opt_post_text(_d@, f@));
    }
}

/// The SurrealQL statement that defines one field of a table.
pub open spec fn deploy_field_text(d: DefinitionView, f: FieldView) -> Seq<char> {
    "\nDEFINE FIELD "@
        + f.name
        + " on TABLE "@
        + d.name
        + " TYPE "@
        + sql_type(f.field_type)
        + ";"@
}

fn append_deploy_field_text(out: &mut String, d: &Definition, f: &Field)
    ensures
        final(out)@ == old(out)@ + deploy_field_text(d@, f@),
{
    let ghost start = out@;
    out.append("\nDEFINE FIELD ");
    out.append(f.name.as_str());
    out.append(" on TABLE ");
    out.append(d.name.as_str());
    out.append(" TYPE ");
    out.append(sql_type_str(f.field_type));
    out.append(";");
    proof {
        assert(out@ =~= start + deploy_field_text(d@, f@));
    }
}

/// The opening of the struct generated for a definition.
pub open spec fn model_struct_head_text(d: DefinitionView) -> Seq<char> {
    "#[derive(Debug, serde::Serialize, serde::Deserialize, Default, sqlx::FromRow)]\npub struct "@
        + d.name
        + " {\n"@
}

fn append_model_struct_head_text(out: &mut String, d: &Definition)
    ensures
        final(out)@ == old(out)@ + model_struct_head_text(d@),
{
    let ghost start = out@;
    out.append("#[derive(Debug, serde::Serialize, serde::Deserialize, Default, sqlx::FromRow)]\npub struct ");
    out.append(d.name.as_str());
    out.append(" {\n");
    proof {
        assert(out@ =~= start + model_struct_head_text(d@));
    }
}

/// The opening of the `DB` impl generated for a definition.
pub open spec fn db_impl_head_text(d: DefinitionView) -> Seq<char> {
    "#[async_trait::async_trait]\nimpl DB for Model::"@
        + d.name
        + " {\n    async fn createDB(&self, db: &surrealdb::Datastore) {\n        let ses = surrealdb::Session::for_kv().with_ns(\"test\").with_db(\"test\");\n        let mut post_statement: Vec<String> = vec![];\n        post_statement.push(format!(\"CREATE {} SET \", "@
        + str_literal(d.name)
        + "));\n"@
}

fn append_db_impl_head_text(out: &mut String, d: &Definition)
    ensures
        final(out)@ == old(out)@ + db_impl_head_text(d@),
{
    let ghost start = out@;
    out.append("#[async_trait::async_trait]\nimpl DB for Model::");
    out.append(d.name.as_str());
    out.append(" {\n    async fn createDB(&self, db: &surrealdb::Datastore) {\n        let ses = surrealdb::Session::for_kv().with_ns(\"test\").with_db(\"test\");\n        let mut post_statement: Vec<String> = vec![];\n        post_statement.push(format!(\"CREATE {} SET \", ");
    push_str_literal(out, d.name.as_str());
    out.append("));\n");
    proof {
        assert(out@ =~= start + db_impl_head_text(d@));
    }
}

/// The closing of the `DB` impl generated for a definition.
pub open spec fn db_impl_tail_text(d: DefinitionView) -> Seq<char> {
    "        post_statement.pop();\n        post_statement.push(\";\".to_string());\n        let ast = post_statement.join(\"\");\n        db.execute(&ast, &ses, None, false).await.unwrap();\n    }\n    async fn readDB(db: &surrealdb::Datastore) -> Self {\n        let ses = surrealdb::Session::for_kv().with_ns(\"test\").with_db(\"test\");\n        let ast = format!(\"SELECT * FROM {};\", "@
        + str_literal(d.name)
        + ");\n        let result = db.execute(&ast, &ses, None, false).await.unwrap();\n        let result = result.into_iter().next().map(|rp| rp.result).transpose().unwrap();\n        Self { ..Default::default() }\n    }\n}\n"@
}

fn append_db_impl_tail_text(out: &mut String, d: &Definition)
    ensures
        final(out)@ == old(out)@ + db_impl_tail_text(d@),
{
    let ghost start = out@;
    out.append("        post_statement.pop();\n        post_statement.push(\";\".to_string());\n        let ast = post_statement.join(\"\");\n        db.execute(&ast, &ses, None, false).await.unwrap();\n    }\n    async fn readDB(db: &surrealdb::Datastore) -> Self {\n        let ses = surrealdb::Session::for_kv().with_ns(\"test\").with_db(\"test\");\n        let ast = format!(\"SELECT * FROM {};\", ");
    push_str_literal(out, d.name.as_str());
    out.append(");\n        let result = db.execute(&ast, &ses, None, false).await.unwrap();\n        let result = result.into_iter().next().map(|rp| rp.result).transpose().unwrap();\n        Self { ..Default::default() }\n    }\n}\n");
    proof {
        assert(out@ =~= start + db_impl_tail_text(d@));
    }
}

/// The handler registry field of `Processor` for a definition.
pub open spec fn processor_field_text(d: DefinitionView) -> Seq<char> {
    "    "@
        + d.name
        + ": handlerx::HandlerRegistry<handlerx::Context<Model::"@
        + d.name
        + ", std::sync::Arc<Resources>>>,\n"@
}

fn append_processor_field_text(out: &mut String, d: &Definition)
    ensures
        final(out)@ == old(out)@ + processor_field_text(d@),
{
    let ghost start = out@;
    out.append("    ");
    out.append(d.name.as_str());
    out.append(": handlerx::HandlerRegistry<handlerx::Context<Model::");
    out.append(d.name.as_str());
    out.append(", std::sync::Arc<Resources>>>,\n");
    proof {
        assert(out@ =~= start + processor_field_text(d@));
    }
}

/// The initialiser of a definition's handler registry in `Processor::new`.
pub open spec fn processor_new_text(d: DefinitionView) -> Seq<char> {
    "            "@
        + d.name
        + ": handlerx::HandlerRegistry::new(),\n"@
}

fn append_processor_new_text(out: &mut String, d: &Definition)
    ensures
        final(out)@ == old(out)@ + processor_new_text(d@),
{
    let ghost start = out@;
    out.append("            ");
    out.append(d.name.as_str());
    out.append(": handlerx::HandlerRegistry::new(),\n");
    proof {
        assert(out@ =~= start + processor_new_text(d@));
    }
}

/// The database handler registered for a definition annotated `@db`.
pub open spec fn db_handler_text(d: DefinitionView) -> Seq<char> {
    "        struct Handler_"@
        + d.name
        + ";\n        #[async_trait::async_trait]\n        impl handlerx::Handler<handlerx::Context<Model::"@
        + d.name
        + ", std::sync::Arc<Resources>>> for Handler_"@
        + d.name
        + " {\n            async fn handle(&self, input: &mut handlerx::Context<Model::"@
        + d.name
        + ", std::sync::Arc<Resources>>) -> Result<(), String> {\n                println!(\"Holly molly, it finally works!\");\n                match input {\n                    handlerx::Context::Create(create_context) => {\n                        println!(\"Write to database\");\n                        let _result = &create_context.data.createDB(&create_context.resources.db).await;\n                    }\n                    handlerx::Context::Read(read_context) => {\n                        let _result: Model::"@
        + d.name
        + " = DB::readDB(&read_context.resources.db).await;\n                    }\n                    _ => {\n                        println!(\"Not implemented\");\n                    }\n                }\n                Ok(())\n            }\n        }\n        new_processor."@
        + d.name
        + ".register(Handler_"@
        + d.name
        + ");\n"@
}

fn append_db_handler_text(out: &mut String, d: &Definition)
    ensures
        final(out)@ == old(out)@ + db_handler_text(d@),
{
    let ghost start = out@;
    out.append("        struct Handler_");
    out.append(d.name.as_str());
    out.append(";\n        #[async_trait::async_trait]\n        impl handlerx::Handler<handlerx::Context<Model::");
    out.append(d.name.as_str());
    out.append(", std::sync::Arc<Resources>>> for Handler_");
    out.append(d.name.as_str());
    out.append(" {\n            async fn handle(&self, input: &mut handlerx::Context<Model::");
    out.append(d.name.as_str());
    out.append(", std::sync::Arc<Resources>>) -> Result<(), String> {\n                println!(\"Holly molly, it finally works!\");\n                match input {\n                    handlerx::Context::Create(create_context) => {\n                        println!(\"Write to database\");\n                        let _result = &create_context.data.createDB(&create_context.resources.db).await;\n                    }\n                    handlerx::Context::Read(read_context) => {\n                        let _result: Model::");
    out.append(d.name.as_str());
    out.append(" = DB::readDB(&read_context.resources.db).await;\n                    }\n                    _ => {\n                        println!(\"Not implemented\");\n                    }\n                }\n                Ok(())\n            }\n        }\n        new_processor.");
    out.append(d.name.as_str());
    out.append(".register(Handler_");
    out.append(d.name.as_str());
    out.append(");\n");
    proof {
        assert(out@ =~= start + db_handler_text(d@));
    }
}

/// The routes of the endpoints of a definition annotated `@http`.
pub open spec fn http_route_text(d: DefinitionView) -> Seq<char> {
    "        router = router.route("@
        + str_literal("/"@ + d.name)
        + ", axum::routing::get(Self::axum_get_"@
        + d.name
        + "));\n        router = router.route("@
        + str_literal("/"@ + d.name)
        + ", axum::routing::post(Self::axum_post_"@
        + d.name
        + "));\n"@
}

fn append_http_route_text(out: &mut String, d: &Definition)
    ensures
        final(out)@ == old(out)@ + http_route_text(d@),
{
    let ghost start = out@;
    out.append("        router = router.route(");
    push_endpoint_literal(out, d);
    out.append(", axum::routing::get(Self::axum_get_");
    out.append(d.name.as_str());
    out.append("));\n        router = router.route(");
    push_endpoint_literal(out, d);
    out.append(", axum::routing::post(Self::axum_post_");
    out.append(d.name.as_str());
    out.append("));\n");
    proof {
        assert(out@ =~= start + http_route_text(d@));
    }
}

/// The GET and POST endpoints of a definition annotated `@http`.
pub open spec fn http_endpoints_text(d: DefinitionView) -> Seq<char> {
    "    pub async fn axum_post_"@
        + d.name
        + "(axum::Extension(resources): axum::Extension<std::sync::Arc<Resources>>, axum::extract::Json(payload): axum::extract::Json<Model::"@
        + d.name
        + ">) -> impl axum::response::IntoResponse {\n        println!(\"POST for {}\", "@
        + str_literal(d.name)
        + ");\n        let mut create_context = handlerx::CreateContext::<Model::"@
        + d.name
        + ", std::sync::Arc<Resources>> {\n            data: payload,\n            resources: resources.clone(),\n        };\n        let mut context = handlerx::Context::Create(create_context);\n        resources.processors."@
        + d.name
        + ".exec(&mut context).await;\n        let result = \"ok\".to_string();\n        (axum::http::StatusCode::CREATED, axum::Json(result))\n    }\n    pub async fn axum_get_"@
        + d.name
        + "(axum::Extension(resources): axum::Extension<std::sync::Arc<Resources>>) -> impl axum::response::IntoResponse {\n        println!(\"GET for {}\", "@
        + str_literal(d.name)
        + ");\n        let read_context = handlerx::ReadContext { resources: resources.clone() };\n        let mut context = handlerx::Context::Read(read_context);\n        resources.processors."@
        + d.name
        + ".exec(&mut context).await;\n        let result = \"ok\".to_string();\n        (axum::http::StatusCode::OK, axum::Json(result))\n    }\n"@
}

fn append_http_endpoints_text(out: &mut String, d: &Definition)
    ensures
        final(out)@ == old(out)@ + http_endpoints_text(d@),
{
    let ghost start = out@;
    out.append("    pub async fn axum_post_");
    out.append(d.name.as_str());
    out.append("(axum::Extension(resources): axum::Extension<std::sync::Arc<Resources>>, axum::extract::Json(payload): axum::extract::Json<Model::");
    out.append(d.name.as_str());
    out.append(">) -> impl axum::response::IntoResponse {\n        println!(\"POST for {}\", ");
    push_str_literal(out, d.name.as_str());
    out.append(");\n        let mut create_context = handlerx::CreateContext::<Model::");
    out.append(d.name.as_str());
    out.append(", std::sync::Arc<Resources>> {\n            data: payload,\n            resources: resources.clone(),\n        };\n        let mut context = handlerx::Context::Create(create_context);\n        resources.processors.");
    out.append(d.name.as_str());
    out.append(".exec(&mut context).await;\n        let result = \"ok\".to_string();\n        (axum::http::StatusCode::CREATED, axum::Json(result))\n    }\n    pub async fn axum_get_");
    out.append(d.name.as_str());
    out.append("(axum::Extension(resources): axum::Extension<std::sync::Arc<Resources>>) -> impl axum::response::IntoResponse {\n        println!(\"GET for {}\", ");
    push_str_literal(out, d.name.as_str());
    out.append(");\n        let read_context = handlerx::ReadContext { resources: resources.clone() };\n        let mut context = handlerx::Context::Read(read_context);\n        resources.processors.");
    out.append(d.name.as_str());
    out.append(".exec(&mut context).await;\n        let result = \"ok\".to_string();\n        (axum::http::StatusCode::OK, axum::Json(result))\n    }\n");
    proof {
        assert(out@ =~= start + http_endpoints_text(d@));
    }
}

/// The SurrealQL statements that define a table and each of its fields.
pub open spec fn deploy_sql(d: DefinitionView) -> Seq<char> {
    DEPLOY_TABLE_HEAD@ + d.name + DEPLOY_TABLE_TAIL@ + join_field_pieces(
        FieldPiece::DeployField,
        d,
        d.fields,
        ""@,
    )
}

/// The deploy endpoint's statements that print and run a definition's
/// SurrealQL.
pub open spec fn deploy_exec_text(d: DefinitionView) -> Seq<char> {
    "        println!(\"{}\", "@
        + str_literal(deploy_sql(d))
        + ");\n        resources.db.execute("@
        + str_literal(deploy_sql(d))
        + ", &ses, None, false).await.unwrap();\n"@
}

fn append_deploy_exec_text(out: &mut String, d: &Definition)
    ensures
        final(out)@ == old(out)@ + deploy_exec_text(d@),
{
    let ghost start = out@;
    let sql = Http::deploy_statement(d);
    out.append("        println!(\"{}\", ");
    push_str_literal(out, sql.as_str());
    out.append(");\n        resources.db.execute(");
    push_str_literal(out, sql.as_str());
    out.append(", &ses, None, false).await.unwrap();\n");
    proof {
        assert(out@ =~= start + deploy_exec_text(d@));
    }
}

/// The pieces of generated source that repeat once per field.
#[derive(Clone, Copy)]
pub enum FieldPiece {
    /// A field of the model struct.
    ModelField,
    /// The part of the `CREATE` query that sets a field.
    DbPost,
    /// The SurrealQL definition of a field.
    DeployField,
}

pub open spec fn field_piece(p: FieldPiece, d: DefinitionView, f: FieldView) -> Seq<char> {
    match p {
        FieldPiece::ModelField => if f.is_key {
            model_key_field_text(d, f)
        } else {
            model_opt_field_text(d, f)
        },
        FieldPiece::DbPost => if f.is_key {
            db_key_post_text(d, f)
        } else {
            db_opt_post_text(d, f)
        },
        FieldPiece::DeployField => deploy_field_text(d, f),
    }
}

/// The piece `p` of each field in `fs`, in order, with `sep` between two
/// neighbours.
pub open spec fn join_field_pieces(
    p: FieldPiece,
    d: DefinitionView,
    fs: Seq<FieldView>,
    sep: Seq<char>,
) -> Seq<char>
    decreases fs.len(),
{
    if fs.len() == 0 {
        Seq::empty()
    } else if fs.len() == 1 {
        field_piece(p, d, fs[0])
    } else {
        join_field_pieces(p, d, fs.drop_last(), sep) + sep + field_piece(p, d, fs.last())
    }
}

fn append_field_piece(out: &mut String, p: FieldPiece, d: &Definition, f: &Field)
    ensures
        final(out)@ == old(out)@ + field_piece(p, d@, f@),
{
    match p {
        FieldPiece::ModelField => if f.is_key {
            append_model_key_field_text(out, d, f)
        } else {
            append_model_opt_field_text(out, d, f)
        },
        FieldPiece::DbPost => if f.is_key {
            append_db_key_post_text(out, d, f)
        } else {
            append_db_opt_post_text(out, d, f)
        },
        FieldPiece::DeployField => append_deploy_field_text(out, d, f),
    }
}

fn append_field_pieces(out: &mut String, p: FieldPiece, d: &Definition, sep: &str)
    ensures
        final(out)@ == old(out)@ + join_field_pieces(p, d@, d@.fields, sep@),
{
    let ghost start = out@;
    let ghost fv = d@.fields;
    let mut k: usize = 0;
    assert(fv.take(0) =~= Seq::<FieldView>::empty());
    assert(out@ =~= start + join_field_pieces(p, d@, fv.take(0), sep@));
    while k < d.fields.len()
        invariant
            k <= d.fields.len(),
            fv == d@.fields,
            fv == fields_view(d.fields@),
            out@ == start + join_field_pieces(p, d@, fv.take(k as int), sep@),
        decreases d.fields.len() - k,
    {
        let ghost before = out@;
        assert(fv.take(k + 1).drop_last() =~= fv.take(k as int));
        assert(fv.take(k + 1).last() == fv[k as int]);
        if k > 0 {
            out.append(sep);
        }
        append_field_piece(out, p, d, &d.fields[k]);
        proof {
            if k == 0 {
                assert(fv.take(1)[0] == fv[0]);
                assert(out@ =~= start + join_field_pieces(p, d@, fv.take(1), sep@));
            } else {
                assert(out@ =~= before + sep@ + field_piece(p, d@, fv[k as int]));
                assert(out@ =~= start + join_field_pieces(p, d@, fv.take(k + 1), sep@));
            }
        }
        k = k + 1;
    }
    assert(fv.take(d.fields.len() as int) =~= fv);
}

/// The pieces of generated source that repeat once per definition; those
/// for annotated definitions are empty for the others.
#[derive(Clone, Copy)]
pub enum DefPiece {
    /// The data struct of a definition.
    ModelStruct,
    /// The `DB` impl of a definition.
    DbImpl,
    /// The handler registry field of `Processor`.
    ProcessorField,
    /// The initialiser of that field.
    ProcessorNew,
    /// The database handler of a definition annotated `@db`.
    DbHandler,
    /// The routes of a definition annotated `@http`.
    HttpRoute,
    /// The endpoints of a definition annotated `@http`.
    HttpEndpoints,
    /// The deploy statements of a definition annotated `@http`.
    DeployExec,
}

pub open spec fn def_piece(p: DefPiece, d: DefinitionView) -> Seq<char> {
    match p {
        DefPiece::ModelStruct => model_struct_head_text(d) + join_field_pieces(
            FieldPiece::ModelField,
            d,
            d.fields,
            MODEL_FIELD_SEP@,
        ) + MODEL_STRUCT_TAIL@,
        DefPiece::DbImpl => db_impl_head_text(d) + join_field_pieces(
            FieldPiece::DbPost,
            d,
            d.fields,
            ""@,
        ) + db_impl_tail_text(d),
        DefPiece::ProcessorField => processor_field_text(d),
        DefPiece::ProcessorNew => processor_new_text(d),
        DefPiece::DbHandler => if has_annotation(d, "@db"@) {
            db_handler_text(d)
        } else {
            Seq::empty()
        },
        DefPiece::HttpRoute => if has_annotation(d, "@http"@) {
            http_route_text(d)
        } else {
            Seq::empty()
        },
        DefPiece::HttpEndpoints => if has_annotation(d, "@http"@) {
            http_endpoints_text(d)
        } else {
            Seq::empty()
        },
        DefPiece::DeployExec => if has_annotation(d, "@http"@) {
            deploy_exec_text(d)
        } else {
            Seq::empty()
        },
    }
}

fn append_def_piece(out: &mut String, p: DefPiece, d: &Definition)
    ensures
        final(out)@ == old(out)@ + def_piece(p, d@),
{
    let ghost start = out@;
    match p {
        DefPiece::ModelStruct => {
            append_model_struct_head_text(out, d);
            append_field_pieces(out, FieldPiece::ModelField, d, MODEL_FIELD_SEP);
            out.append(MODEL_STRUCT_TAIL);
        },
        DefPiece::DbImpl => {
            append_db_impl_head_text(out, d);
            append_field_pieces(out, FieldPiece::DbPost, d, "");
            append_db_impl_tail_text(out, d);
        },
        DefPiece::ProcessorField => append_processor_field_text(out, d),
        DefPiece::ProcessorNew => append_processor_new_text(out, d),
        DefPiece::DbHandler => if definition_has_annotation(d, "@db") {
            append_db_handler_text(out, d);
        },
        DefPiece::HttpRoute => if definition_has_annotation(d, "@http") {
            append_http_route_text(out, d);
        },
        DefPiece::HttpEndpoints => if definition_has_annotation(d, "@http") {
            append_http_endpoints_text(out, d);
        },
        DefPiece::DeployExec => if definition_has_annotation(d, "@http") {
            append_deploy_exec_text(out, d);
        },
    }
    proof {
        assert(out@ =~= start + def_piece(p, d@));
    }
}

/// The piece `p` of each definition in `ds`, in order.
pub open spec fn def_pieces(p: DefPiece, ds: Seq<DefinitionView>) -> Seq<char>
    decreases ds.len(),
{
    if ds.len() == 0 {
        Seq::empty()
    } else {
        def_pieces(p, ds.drop_last()) + def_piece(p, ds.last())
    }
}

fn append_def_pieces(out: &mut String, p: DefPiece, defs: &Vec<Definition>)
    ensures
        final(out)@ == old(out)@ + def_pieces(p, defs_view(defs@)),
{
    let ghost start = out@;
    let ghost dv = defs_view(defs@);
    let mut k: usize = 0;
    assert(dv.take(0) =~= Seq::<DefinitionView>::empty());
    assert(out@ =~= start + def_pieces(p, dv.take(0)));
    while k < defs.len()
        invariant
            k <= defs.len(),
            dv == defs_view(defs@),
            out@ == start + def_pieces(p, dv.take(k as int)),
        decreases defs.len() - k,
    {
        let ghost before = out@;
        assert(dv.take(k + 1).drop_last() =~= dv.take(k as int));
        assert(dv.take(k + 1).last() == dv[k as int]);
        append_def_piece(out, p, &defs[k]);
        assert(out@ =~= start + def_pieces(p, dv.take(k + 1)));
        k = k + 1;
    }
    assert(dv.take(defs.len() as int) =~= dv);
}

// ------------------------------------------------------------------------
// What each module generates
// ------------------------------------------------------------------------

/// `pub mod Model`: one data struct per definition.
pub open spec fn model_static_init_text(m: Seq<DefinitionView>) -> Seq<char> {
    MODEL_MOD_HEAD@ + def_pieces(DefPiece::ModelStruct, m) + MODEL_MOD_TAIL@
}

/// The `DB` trait and its impl for each definition.
pub open spec fn db_static_init_text(m: Seq<DefinitionView>) -> Seq<char> {
    DB_TRAIT@ + def_pieces(DefPiece::DbImpl, m)
}

/// `Processor` (a handler registry per definition, with a database handler
/// registered for each definition annotated `@db`) and `Resources`.
pub open spec fn resources_static_init_text(m: Seq<DefinitionView>) -> Seq<char> {
    PROCESSOR_HEAD@ + def_pieces(DefPiece::ProcessorField, m) + PROCESSOR_NEW_HEAD@ + def_pieces(
        DefPiece::ProcessorNew,
        m,
    ) + PROCESSOR_NEW_MID@ + def_pieces(DefPiece::DbHandler, m) + PROCESSOR_NEW_TAIL@
        + RESOURCES_TAIL@
}

/// `Http`: the router, with GET and POST endpoints for each definition
/// annotated `@http` and an endpoint that deploys their tables.
pub open spec fn http_static_init_text(m: Seq<DefinitionView>) -> Seq<char> {
    HTTP_HEAD@ + def_pieces(DefPiece::HttpRoute, m) + HTTP_INIT_END@ + def_pieces(
        DefPiece::HttpEndpoints,
        m,
    ) + DEPLOY_HEAD@ + def_pieces(DefPiece::DeployExec, m) + HTTP_TAIL@
}

/// A part of the generated service.  Each method yields the source that the
/// part contributes at one place of the generated program; by default none.
pub trait Module {
    /// The models for which `static_init` can write its items: those whose
    /// names can stand where these items put them.
    spec fn static_init_accepts(m: Seq<DefinitionView>) -> bool;

    /// Option types, before the `Opt` struct.
    fn options(_modelx: &Modelx) -> (r: String)
        default_ensures
            r@ == Seq::<char>::empty(),
    {
        String::new()
    }

    /// Fields of the `Opt` struct.
    fn options_embed(_modelx: &Modelx) -> (r: String)
        default_ensures
            r@ == Seq::<char>::empty(),
    {
        String::new()
    }

    /// Items at the top level of the generated program.
    fn static_init(_modelx: &Modelx) -> (r: String)
        requires
            Self::static_init_accepts(_modelx@),
        default_ensures
            r@ == Seq::<char>::empty(),
    {
        String::new()
    }

    /// Field initialisers of the application in its `init`.
    fn init(_modelx: &Modelx) -> (r: String)
        default_ensures
            r@ == Seq::<char>::empty(),
    {
        String::new()
    }

    /// Fields of the application struct.
    fn init_inject(_modelx: &Modelx) -> (r: String)
        default_ensures
            r@ == Seq::<char>::empty(),
    {
        String::new()
    }

    /// Statements of the application's `boot`.
    fn boot(_modelx: &Modelx) -> (r: String)
        default_ensures
            r@ == Seq::<char>::empty(),
    {
        String::new()
    }
}

/// The data structs.
pub struct Model {}

/// The HTTP server.
pub struct Http {}

/// The database access.
pub struct DB {}

/// The shared resources: database and handler registries.
pub struct Resources {}

impl Module for DB {
    open spec fn static_init_accepts(m: Seq<DefinitionView>) -> bool {
        model_paths_usable(m) && field_accesses_usable(m)
    }

    fn options(_modelx: &Modelx) -> (r: String)
        ensures
            r@ == Seq::<char>::empty(),
    {
        String::new()
    }

    fn options_embed(_modelx: &Modelx) -> (r: String)
        ensures
            r@ == Seq::<char>::empty(),
    {
        String::new()
    }

    fn static_init(modelx: &Modelx) -> (r: String)
        ensures
            r@ == db_static_init_text(modelx@),
    {
        let mut out = String::new();
        out.append(DB_TRAIT);
        append_def_pieces(&mut out, DefPiece::DbImpl, &modelx.definitions);
        assert(out@ =~= db_static_init_text(modelx@));
        out
    }

    fn init(_modelx: &Modelx) -> (r: String)
        ensures
            r@ == Seq::<char>::empty(),
    {
        String::new()
    }

    fn init_inject(_modelx: &Modelx) -> (r: String)
        ensures
            r@ == Seq::<char>::empty(),
    {
        String::new()
    }

    fn boot(_modelx: &Modelx) -> (r: String)
        ensures
            r@ == Seq::<char>::empty(),
    {
        String::new()
    }
}

impl Module for Resources {
    open spec fn static_init_accepts(m: Seq<DefinitionView>) -> bool {
        model_paths_usable(m)
    }

    fn options(_modelx: &Modelx) -> (r: String)
        ensures
            r@ == Seq::<char>::empty(),
    {
        String::new()
    }

    fn options_embed(_modelx: &Modelx) -> (r: String)
        ensures
            r@ == Seq::<char>::empty(),
    {
        String::new()
    }

    fn static_init(modelx: &Modelx) -> (r: String)
        ensures
            r@ == resources_static_init_text(modelx@),
    {
        let mut out = String::new();
        out.append(PROCESSOR_HEAD);
        append_def_pieces(&mut out, DefPiece::ProcessorField, &modelx.definitions);
        out.append(PROCESSOR_NEW_HEAD);
        append_def_pieces(&mut out, DefPiece::ProcessorNew, &modelx.definitions);
        out.append(PROCESSOR_NEW_MID);
        append_def_pieces(&mut out, DefPiece::DbHandler, &modelx.definitions);
        out.append(PROCESSOR_NEW_TAIL);
        out.append(RESOURCES_TAIL);
        assert(out@ =~= resources_static_init_text(modelx@));
        out
    }

    fn init(_modelx: &Modelx) -> (r: String)
        ensures
            r@ == RESOURCES_INIT@,
    {
        String::from_str(RESOURCES_INIT)
    }

    fn init_inject(_modelx: &Modelx) -> (r: String)
        ensures
            r@ == RESOURCES_INIT_INJECT@,
    {
        String::from_str(RESOURCES_INIT_INJECT)
    }

    fn boot(_modelx: &Modelx) -> (r: String)
        ensures
            r@ == Seq::<char>::empty(),
    {
        String::new()
    }
}

impl Module for Model {
    open spec fn static_init_accepts(m: Seq<DefinitionView>) -> bool {
        names_are_idents(m)
    }

    fn options(_modelx: &Modelx) -> (r: String)
        ensures
            r@ == Seq::<char>::empty(),
    {
        String::new()
    }

    fn options_embed(_modelx: &Modelx) -> (r: String)
        ensures
            r@ == Seq::<char>::empty(),
    {
        String::new()
    }

    fn init(_modelx: &Modelx) -> (r: String)
        ensures
            r@ == Seq::<char>::empty(),
    {
        String::new()
    }

    fn init_inject(_modelx: &Modelx) -> (r: String)
        ensures
            r@ == Seq::<char>::empty(),
    {
        String::new()
    }

    fn boot(_modelx: &Modelx) -> (r: String)
        ensures
            r@ == Seq::<char>::empty(),
    {
        String::new()
    }

    fn static_init(modelx: &Modelx) -> (r: String)
        ensures
            r@ == model_static_init_text(modelx@),
    {
        let mut out = String::new();
        out.append(MODEL_MOD_HEAD);
        append_def_pieces(&mut out, DefPiece::ModelStruct, &modelx.definitions);
        out.append(MODEL_MOD_TAIL);
        assert(out@ =~= model_static_init_text(modelx@));
        out
    }
}

impl Http {
    /// The SurrealQL that the deploy endpoint runs for a definition.
    pub fn deploy_statement(d: &Definition) -> (r: String)
        ensures
            r@ == deploy_sql(d@),
    {
        let mut out = String::new();
        out.append(DEPLOY_TABLE_HEAD);
        out.append(d.name.as_str());
        out.append(DEPLOY_TABLE_TAIL);
        append_field_pieces(&mut out, FieldPiece::DeployField, d, "");
        assert(out@ =~= deploy_sql(d@));
        out
    }
}

impl Module for Http {
    open spec fn static_init_accepts(m: Seq<DefinitionView>) -> bool {
        http_paths_usable(m)
    }

    fn options(_modelx: &Modelx) -> (r: String)
        ensures
            r@ == HTTP_OPTIONS@,
    {
        String::from_str(HTTP_OPTIONS)
    }

    fn options_embed(_modelx: &Modelx) -> (r: String)
        ensures
            r@ == HTTP_OPTIONS_EMBED@,
    {
        String::from_str(HTTP_OPTIONS_EMBED)
    }

    fn static_init(modelx: &Modelx) -> (r: String)
        ensures
            r@ == http_static_init_text(modelx@),
    {
        let mut out = String::new();
        out.append(HTTP_HEAD);
        append_def_pieces(&mut out, DefPiece::HttpRoute, &modelx.definitions);
        out.append(HTTP_INIT_END);
        append_def_pieces(&mut out, DefPiece::HttpEndpoints, &modelx.definitions);
        out.append(DEPLOY_HEAD);
        append_def_pieces(&mut out, DefPiece::DeployExec, &modelx.definitions);
        out.append(HTTP_TAIL);
        assert(out@ =~= http_static_init_text(modelx@));
        out
    }

    fn init(_modelx: &Modelx) -> (r: String)
        ensures
            r@ == HTTP_INIT@,
    {
        String::from_str(HTTP_INIT)
    }

    fn init_inject(_modelx: &Modelx) -> (r: String)
        ensures
            r@ == HTTP_INIT_INJECT@,
    {
        String::from_str(HTTP_INIT_INJECT)
    }

    fn boot(_modelx: &Modelx) -> (r: String)
        ensures
            r@ == HTTP_BOOT@,
    {
        String::from_str(HTTP_BOOT)
    }
}

} // verus!
