use servex::modelx::{FieldType, Modelx, ModelxParser};

const SAMPLE: &str = r#"
            @anno1
            @anno2
            table foobar {
              @fieldanno1
              @fieldanno2
              key bla: UUID
              super:Integer
            }
        "#;

#[test]
fn sample_model_parse() {
    let result = Modelx::parse(SAMPLE);
    println!("{:?}", &result);
    assert_eq!(result.definitions.len(), 1);
    let def = &result.definitions[0];
    assert_eq!(def.name, "foobar");
    assert_eq!(def.annotations, vec!["@anno1".to_string(), "@anno2".to_string()]);
    assert_eq!(def.fields.len(), 2);
    let bla = &def.fields[0];
    assert_eq!(bla.name, "bla");
    assert_eq!(bla.field_type, FieldType::UUID);
    assert!(bla.is_key);
    assert_eq!(bla.annotations, vec!["@fieldanno1".to_string(), "@fieldanno2".to_string()]);
    let sup = &def.fields[1];
    assert_eq!(sup.name, "super");
    assert_eq!(sup.field_type, FieldType::Integer);
    assert!(!sup.is_key);
    assert!(sup.annotations.is_empty());
}

#[test]
fn empty_source_is_an_empty_model() {
    let m = Modelx::parse("  \n\t ");
    assert!(m.definitions.is_empty());
}

#[test]
fn later_table_replaces_earlier_one_in_place() {
    let m = Modelx::parse("table a { x: String } table b { } @db table a { y: Integer }");
    assert_eq!(m.definitions.len(), 2);
    assert_eq!(m.definitions[0].name, "a");
    assert_eq!(m.definitions[0].annotations, vec!["@db".to_string()]);
    assert_eq!(m.definitions[0].fields.len(), 1);
    assert_eq!(m.definitions[0].fields[0].name, "y");
    assert_eq!(m.definitions[1].name, "b");
}

#[test]
fn later_field_replaces_earlier_one_and_annotations_are_kept_once() {
    let m = Modelx::parse("table t { a: String @x @y @x b: UUID @z key a: Integer }");
    let d = &m.definitions[0];
    assert_eq!(d.fields.len(), 2);
    assert_eq!(d.fields[0].name, "a");
    assert_eq!(d.fields[0].field_type, FieldType::Integer);
    assert!(d.fields[0].is_key);
    assert_eq!(d.fields[0].annotations, vec!["@z".to_string()]);
    assert_eq!(d.fields[1].annotations, vec!["@x".to_string(), "@y".to_string()]);
}

#[test]
fn key_followed_by_colon_names_a_field() {
    let m = Modelx::parse("table t { key: UUID }");
    let f = &m.definitions[0].fields[0];
    assert_eq!(f.name, "key");
    assert!(!f.is_key);
    assert_eq!(f.field_type, FieldType::UUID);
}

#[test]
fn malformed_sources_are_refused() {
    assert!(ModelxParser::parse("table t { a: Float }").is_none());
    assert!(ModelxParser::parse("table t { a: String").is_none());
    assert!(ModelxParser::parse("tables t { }").is_none());
    assert!(ModelxParser::parse("table t { a String }").is_none());
    assert!(ModelxParser::parse("table 9t { }").is_none());
    assert!(ModelxParser::parse("@ table t { }").is_none());
    assert!(ModelxParser::parse("table t { a: String } #").is_none());
    assert!(ModelxParser::parse("table t { a: String } }").is_none());
}

#[test]
fn parser_accepts_what_modelx_parse_reads() {
    let m = ModelxParser::parse(SAMPLE).unwrap();
    assert_eq!(m.definitions[0].name, "foobar");
}

#[test]
fn written_out_tokens_read_back() {
    let m = Modelx::parse("@db @http table user { @doc key id : Integer name : String } table note { key : UUID } ");
    assert_eq!(m.definitions.len(), 2);
    let user = &m.definitions[0];
    assert_eq!(user.name, "user");
    assert_eq!(user.annotations, vec!["@db".to_string(), "@http".to_string()]);
    assert_eq!(user.fields[0].name, "id");
    assert!(user.fields[0].is_key);
    assert_eq!(user.fields[0].annotations, vec!["@doc".to_string()]);
    assert_eq!(user.fields[1].name, "name");
    assert_eq!(user.fields[1].field_type, FieldType::String);
    let note = &m.definitions[1];
    assert_eq!(note.fields[0].name, "key");
    assert!(!note.fields[0].is_key);
}

#[test]
fn joined_sources_let_the_second_override_the_first() {
    let a = "@db table user { key id: Integer } table note { key id: UUID }";
    let b = "table user { name: String } @http table tag { key t: String }";
    let joined = format!("{}\n{}", a, b);
    let m = Modelx::parse(&joined);
    let names: Vec<&str> = m.definitions.iter().map(|d| d.name.as_str()).collect();
    assert_eq!(names, vec!["user", "note", "tag"]);
    assert!(m.definitions[0].annotations.is_empty());
    assert_eq!(m.definitions[0].fields.len(), 1);
    assert_eq!(m.definitions[0].fields[0].name, "name");
    assert_eq!(m.definitions[1].fields[0].field_type, FieldType::UUID);
    assert_eq!(m.definitions[2].annotations, vec!["@http".to_string()]);
}
