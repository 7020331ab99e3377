use servex::corex::{Http, Model, Module, Resources, DB};
use servex::expand::import;
use servex::modelx::Modelx;

const SAMPLE: &str = r#"
            @anno1
            @anno2
            table foobar {
              @fieldanno1
              @fieldanno2
              key bla: UUID
              super:Integer
            }
        "#;

const SERVICE: &str = "@http @db table user { key id: Integer name: String } table note { key id: UUID }";

#[test]
fn model_structs_follow_the_fields() {
    let m = Modelx::parse(SAMPLE);
    let text = Model::static_init(&m);
    assert_eq!(
        text,
        "pub mod Model {\n#[derive(Debug, serde::Serialize, serde::Deserialize, Default, sqlx::FromRow)]\npub struct foobar {\npub bla: String,\npub super: Option<i32>\n}\n}\n"
    );
}

#[test]
fn empty_model_has_empty_model_module() {
    let m = Modelx::parse("");
    assert_eq!(Model::static_init(&m), "pub mod Model {\n}\n");
    assert_eq!(Model::options(&m), "");
    assert_eq!(DB::boot(&m), "");
}

#[test]
fn deploy_statement_defines_table_and_fields() {
    let m = Modelx::parse(SAMPLE);
    let sql = Http::deploy_statement(&m.definitions[0]);
    assert_eq!(
        sql,
        "\nDEFINE TABLE foobar SCHEMAFULL;\nDEFINE FIELD bla on TABLE foobar TYPE string;\nDEFINE FIELD super on TABLE foobar TYPE int;"
    );
}

#[test]
fn db_impl_quotes_text_fields_only() {
    let m = Modelx::parse(SAMPLE);
    let text = DB::static_init(&m);
    assert!(text.starts_with("#[async_trait::async_trait]\npub trait DB {\n"));
    assert!(text.contains("impl DB for Model::foobar {"));
    assert!(text.contains("post_statement.push(format!(\"{} = {}{}{}\", \"bla\", \"\\\"\", &self.bla, \"\\\"\"));"));
    assert!(text.contains("if let Some(x) = &self.super {\n            post_statement.push(format!(\"{} = {}{}{}\", \"super\", \"\", x, \"\"));"));
    assert!(text.contains("post_statement.push(format!(\"CREATE {} SET \", \"foobar\"));"));
    assert!(text.contains("let ast = format!(\"SELECT * FROM {};\", \"foobar\");"));
}

#[test]
fn http_routes_only_for_http_definitions() {
    let m = Modelx::parse(SERVICE);
    let text = Http::static_init(&m);
    assert!(text.contains("router = router.route(\"/user\", axum::routing::get(Self::axum_get_user));"));
    assert!(text.contains("router = router.route(\"/user\", axum::routing::post(Self::axum_post_user));"));
    assert!(text.contains("pub async fn axum_post_user("));
    assert!(text.contains("resources.processors.user.exec(&mut context).await;"));
    assert!(text.contains("println!(\"{}\", \"\\nDEFINE TABLE user SCHEMAFULL;\\nDEFINE FIELD id on TABLE user TYPE int;\\nDEFINE FIELD name on TABLE user TYPE string;\");"));
    assert!(!text.contains("note"));
    assert!(text.ends_with("    }\n}\n"));
}

#[test]
fn http_without_annotated_definitions_has_fixed_routes_only() {
    let m = Modelx::parse("table note { key id: UUID }");
    let text = Http::static_init(&m);
    assert!(text.contains("router = router.route(\"/deploy\", axum::routing::get(Self::axum_deploy));\n        Self {"));
    assert!(!text.contains("axum_get_"));
}

#[test]
fn db_handlers_only_for_db_definitions() {
    let m = Modelx::parse(SERVICE);
    let text = Resources::static_init(&m);
    assert!(text.contains("    user: handlerx::HandlerRegistry<handlerx::Context<Model::user, std::sync::Arc<Resources>>>,\n"));
    assert!(text.contains("    note: handlerx::HandlerRegistry<handlerx::Context<Model::note, std::sync::Arc<Resources>>>,\n"));
    assert!(text.contains("            note: handlerx::HandlerRegistry::new(),\n"));
    assert!(text.contains("struct Handler_user;"));
    assert!(text.contains("new_processor.user.register(Handler_user);"));
    assert!(!text.contains("Handler_note"));
}

#[test]
fn fixed_module_pieces() {
    let m = Modelx::parse("");
    assert_eq!(Http::options_embed(&m), "pub http: OptHttp,\n");
    assert_eq!(Http::init(&m), "http: Some(Http::init().await),\n");
    assert_eq!(Http::init_inject(&m), "http: Option<Http>,\n");
    assert_eq!(Resources::init(&m), "resources: std::sync::Arc::new(Resources::init().await),\n");
    assert_eq!(Resources::init_inject(&m), "resources: std::sync::Arc<Resources>,\n");
    assert!(Http::options(&m).contains("port: 8080,"));
    assert!(Http::boot(&m).contains("http.boot(resources, *&self.options.http.port).await;"));
}

#[test]
fn import_composes_the_program() {
    let m = Modelx::parse(SERVICE);
    let text = import("App", &m);
    assert!(text.starts_with(&Model::static_init(&m)));
    let statics = format!(
        "{}{}{}{}",
        Model::static_init(&m),
        Http::static_init(&m),
        DB::static_init(&m),
        Resources::static_init(&m)
    );
    assert!(text.starts_with(&statics));
    assert!(text.contains("#[derive(Default, Debug)]\npub struct Opt {\npub http: OptHttp,\n}\n"));
    assert!(text.contains("pub struct App {\n    options: Opt,\nhttp: Option<Http>,\nresources: std::sync::Arc<Resources>,\n}\nimpl App {"));
    assert!(text.ends_with("pub async fn boot(&mut self) {\nlet http = self.http.take().unwrap();\nlet resources = self.resources.clone();\nhttp.boot(resources, *&self.options.http.port).await;\n}\n}\n"));
}

#[test]
fn import_checked_accepts_plain_names() {
    let m = Modelx::parse(SERVICE);
    assert!(m.names_usable());
    let checked = servex::expand::import_checked("App", &m);
    assert_eq!(checked, Some(import("App", &m)));
}

#[test]
fn import_checked_refuses_keyword_table_names() {
    let m = Modelx::parse("table fn { key id: UUID }");
    assert!(!m.names_usable());
    assert_eq!(servex::expand::import_checked("App", &m), None);
}

#[test]
fn import_checked_refuses_keyword_field_names() {
    let m = Modelx::parse("table t { key type: UUID }");
    assert!(!m.names_usable());
    assert_eq!(servex::expand::import_checked("App", &m), None);
}


#[test]
fn import_checked_refuses_names_that_are_not_identifiers() {
    let mut m = Modelx::parse(SERVICE);
    m.definitions[1].name = "Foo<u8>".to_string();
    assert!(!m.names_usable());
    assert_eq!(servex::expand::import_checked("App", &m), None);
    let mut m = Modelx::parse(SERVICE);
    m.definitions[0].fields[1].name = "na me".to_string();
    assert!(!m.names_usable());
    let mut m = Modelx::parse(SERVICE);
    m.definitions[0].name = "x\u{a0}".to_string();
    assert!(!m.names_usable());
}

#[test]
fn unicode_identifiers_are_usable_names() {
    let mut m = Modelx::parse(SERVICE);
    m.definitions[0].name = "caf\u{e9}".to_string();
    m.definitions[0].fields[1].name = "\u{3b1}\u{3b2}".to_string();
    assert!(m.names_usable());
    let text = servex::expand::import_checked("App", &m).unwrap();
    assert!(text.contains("pub struct caf\u{e9} {"));
    assert!(text.contains("router = router.route(\"/caf\u{e9}\", axum::routing::get(Self::axum_get_caf\u{e9}));"));
}

#[test]
fn identifiers_are_ascii_words() {
    assert!(servex::rust_names::is_ident_text("_a9"));
    assert!(servex::rust_names::is_ident_text("User_1"));
    assert!(!servex::rust_names::is_ident_text(""));
    assert!(!servex::rust_names::is_ident_text("9a"));
    assert!(!servex::rust_names::is_ident_text("a-b"));
    assert!(!servex::rust_names::is_ident_text("caf\u{e9}"));
    assert!(servex::rust_names::is_rust_ident_text("caf\u{e9}"));
    assert!(servex::rust_names::is_rust_ident_text("_"));
    assert!(!servex::rust_names::is_rust_ident_text("9a"));
    assert!(!servex::rust_names::is_rust_ident_text("a b"));
    assert!(!servex::rust_names::is_rust_ident_text(""));
}
