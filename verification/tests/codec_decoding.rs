use op_dispatch::codec::{
    decode, decode_compile, decode_transpile, read_optional_text, read_optional_text_map,
    read_required_flag, read_required_text, read_required_text_map, read_text_map, ArgSchema,
    CompileArgs, TranspileArgs, TypedArgs,
};
use op_dispatch::error::DecodeError;
use op_dispatch::payload::{Payload, ValueKind};
use op_dispatch::text_map::TextMap;

fn text(s: &str) -> Payload {
    Payload::Text(s.to_string())
}

fn fields(entries: Vec<(&str, Payload)>) -> TextMap<Payload> {
    let mut fields = TextMap::new();
    for (key, value) in entries {
        fields.insert(key.to_string(), value);
    }
    fields
}

fn record(entries: Vec<(&str, Payload)>) -> Payload {
    Payload::Record(fields(entries))
}

fn texts(entries: Vec<(&str, &str)>) -> TextMap<String> {
    let mut texts = TextMap::new();
    for (key, value) in entries {
        texts.insert(key.to_string(), value.to_string());
    }
    texts
}

fn fault(field: &str, expected: ValueKind, found: Option<ValueKind>) -> DecodeError {
    DecodeError { field: field.to_string(), expected, found, path: vec![field.to_string()] }
}

#[test]
fn compile_arguments_decode_in_full() {
    let payload = record(vec![
        ("rootName", text("main.ts")),
        ("sources", record(vec![("main.ts", text("const x=1")), ("lib.ts", text(""))])),
        ("bundle", Payload::Flag(true)),
        ("options", text("{\"strict\":true}")),
    ]);
    assert_eq!(
        decode_compile(&payload),
        Ok(CompileArgs {
            root_name: "main.ts".to_string(),
            sources: Some(texts(vec![("main.ts", "const x=1"), ("lib.ts", "")])),
            bundle: true,
            options: Some("{\"strict\":true}".to_string()),
        })
    );
}

#[test]
fn compile_arguments_of_the_scenario_decode() {
    let payload = record(vec![
        ("rootName", text("main.ts")),
        ("sources", record(vec![("main.ts", text("const x=1"))])),
        ("bundle", Payload::Flag(false)),
        ("options", Payload::Null),
    ]);
    assert_eq!(
        decode(ArgSchema::Compile, &payload),
        Ok(TypedArgs::Compile(CompileArgs {
            root_name: "main.ts".to_string(),
            sources: Some(texts(vec![("main.ts", "const x=1")])),
            bundle: false,
            options: None,
        }))
    );
}

#[test]
fn omitted_optional_fields_take_their_default() {
    let payload = record(vec![("bundle", Payload::Flag(false)), ("rootName", text("a.ts"))]);
    assert_eq!(
        decode_compile(&payload),
        Ok(CompileArgs { root_name: "a.ts".to_string(), sources: None, bundle: false, options: None })
    );
    let payload = record(vec![("sources", record(vec![("a.ts", text("1"))]))]);
    assert_eq!(
        decode_transpile(&payload),
        Ok(TranspileArgs { sources: texts(vec![("a.ts", "1")]), options: None })
    );
}

#[test]
fn null_optional_fields_take_their_default() {
    let payload = record(vec![
        ("rootName", text("a.ts")),
        ("sources", Payload::Null),
        ("bundle", Payload::Flag(true)),
        ("options", Payload::Null),
    ]);
    assert_eq!(
        decode_compile(&payload),
        Ok(CompileArgs { root_name: "a.ts".to_string(), sources: None, bundle: true, options: None })
    );
}

#[test]
fn missing_required_field_is_named() {
    let payload = record(vec![("bundle", Payload::Flag(true)), ("sources", Payload::Null)]);
    assert_eq!(decode_compile(&payload), Err(fault("rootName", ValueKind::Text, None)));
    let payload = record(vec![("rootName", text("a.ts")), ("options", text("o"))]);
    assert_eq!(decode_compile(&payload), Err(fault("bundle", ValueKind::Flag, None)));
    let payload = record(vec![("options", text("o"))]);
    assert_eq!(decode_transpile(&payload), Err(fault("sources", ValueKind::Record, None)));
}

#[test]
fn missing_required_field_is_named_before_any_mismatch() {
    let payload = record(vec![("rootName", Payload::Flag(true)), ("sources", text("x"))]);
    assert_eq!(decode_compile(&payload), Err(fault("bundle", ValueKind::Flag, None)));
    let payload = record(vec![("bundle", text("x")), ("options", Payload::Flag(true))]);
    assert_eq!(decode_compile(&payload), Err(fault("rootName", ValueKind::Text, None)));
}

#[test]
fn field_names_are_read_in_camel_case_only() {
    let payload = record(vec![("root_name", text("a.ts")), ("bundle", Payload::Flag(true))]);
    assert_eq!(decode_compile(&payload), Err(fault("rootName", ValueKind::Text, None)));
    let payload = record(vec![("RootName", text("a.ts")), ("bundle", Payload::Flag(true))]);
    assert_eq!(decode_compile(&payload), Err(fault("rootName", ValueKind::Text, None)));
}

#[test]
fn payload_that_is_no_record_lacks_every_field() {
    for payload in [
        Payload::Null,
        Payload::Flag(true),
        Payload::Number("1".to_string()),
        text("rootName"),
        Payload::List(vec![text("rootName")]),
    ] {
        assert_eq!(decode_compile(&payload), Err(fault("rootName", ValueKind::Text, None)));
        assert_eq!(decode_transpile(&payload), Err(fault("sources", ValueKind::Record, None)));
    }
}

#[test]
fn mismatched_fields_are_reported_in_declaration_order() {
    let payload = record(vec![
        ("options", Payload::Flag(true)),
        ("bundle", text("no")),
        ("sources", Payload::List(vec![])),
        ("rootName", Payload::Number("7".to_string())),
    ]);
    assert_eq!(
        decode_compile(&payload),
        Err(fault("rootName", ValueKind::Text, Some(ValueKind::Number)))
    );
    let payload = record(vec![
        ("options", Payload::Flag(true)),
        ("bundle", text("no")),
        ("sources", Payload::List(vec![])),
        ("rootName", text("a.ts")),
    ]);
    assert_eq!(
        decode_compile(&payload),
        Err(fault("sources", ValueKind::Record, Some(ValueKind::List)))
    );
    let payload = record(vec![
        ("options", Payload::Flag(true)),
        ("bundle", text("no")),
        ("rootName", text("a.ts")),
    ]);
    assert_eq!(decode_compile(&payload), Err(fault("bundle", ValueKind::Flag, Some(ValueKind::Text))));
    let payload = record(vec![
        ("options", Payload::Flag(true)),
        ("bundle", Payload::Flag(true)),
        ("rootName", text("a.ts")),
    ]);
    assert_eq!(decode_compile(&payload), Err(fault("options", ValueKind::Text, Some(ValueKind::Flag))));
}

#[test]
fn null_is_no_text_for_a_required_field() {
    let payload = record(vec![("rootName", Payload::Null), ("bundle", Payload::Flag(true))]);
    assert_eq!(
        decode_compile(&payload),
        Err(fault("rootName", ValueKind::Text, Some(ValueKind::Null)))
    );
    let payload = record(vec![("sources", Payload::Null)]);
    assert_eq!(
        decode_transpile(&payload),
        Err(fault("sources", ValueKind::Record, Some(ValueKind::Null)))
    );
}

#[test]
fn first_source_that_is_no_text_ends_the_path() {
    let payload = record(vec![
        ("rootName", text("a.ts")),
        (
            "sources",
            record(vec![
                ("a.ts", text("1")),
                ("b.ts", Payload::Number("2".to_string())),
                ("c.ts", Payload::Null),
            ]),
        ),
        ("bundle", Payload::Flag(true)),
    ]);
    assert_eq!(
        decode_compile(&payload),
        Err(DecodeError {
            field: "sources".to_string(),
            expected: ValueKind::Text,
            found: Some(ValueKind::Number),
            path: vec!["sources".to_string(), "b.ts".to_string()],
        })
    );
}

#[test]
fn undeclared_fields_are_passed_over() {
    let payload = record(vec![
        ("sources", record(vec![])),
        ("extra", Payload::List(vec![Payload::Null])),
        ("rootName", Payload::Flag(true)),
    ]);
    assert_eq!(
        decode(ArgSchema::Transpile, &payload),
        Ok(TypedArgs::Transpile(TranspileArgs { sources: TextMap::new(), options: None }))
    );
}

#[test]
fn schema_selects_the_record() {
    let payload = record(vec![
        ("rootName", text("a.ts")),
        ("bundle", Payload::Flag(true)),
        ("sources", record(vec![("a.ts", text("1"))])),
    ]);
    assert!(matches!(decode(ArgSchema::Compile, &payload), Ok(TypedArgs::Compile(_))));
    assert!(matches!(decode(ArgSchema::Transpile, &payload), Ok(TypedArgs::Transpile(_))));
    assert_eq!(
        decode(ArgSchema::Compile, &record(vec![])),
        Err(fault("rootName", ValueKind::Text, None))
    );
}

#[test]
fn single_fields_are_read_by_key() {
    let payload = record(vec![
        ("name", text("n")),
        ("flag", Payload::Flag(true)),
        ("nothing", Payload::Null),
        ("map", record(vec![("k", text("v"))])),
    ]);
    assert_eq!(read_required_text(&payload, "name"), Ok("n".to_string()));
    assert_eq!(
        read_required_text(&payload, "flag"),
        Err(fault("flag", ValueKind::Text, Some(ValueKind::Flag)))
    );
    assert_eq!(read_required_text(&payload, "none"), Err(fault("none", ValueKind::Text, None)));
    assert_eq!(read_required_flag(&payload, "flag"), Ok(true));
    assert_eq!(
        read_required_flag(&payload, "name"),
        Err(fault("name", ValueKind::Flag, Some(ValueKind::Text)))
    );
    assert_eq!(read_optional_text(&payload, "name"), Ok(Some("n".to_string())));
    assert_eq!(read_optional_text(&payload, "nothing"), Ok(None));
    assert_eq!(read_optional_text(&payload, "none"), Ok(None));
    assert_eq!(
        read_optional_text(&payload, "map"),
        Err(fault("map", ValueKind::Text, Some(ValueKind::Record)))
    );
    assert_eq!(read_required_text_map(&payload, "map"), Ok(texts(vec![("k", "v")])));
    assert_eq!(
        read_required_text_map(&payload, "name"),
        Err(fault("name", ValueKind::Record, Some(ValueKind::Text)))
    );
    assert_eq!(read_optional_text_map(&payload, "map"), Ok(Some(texts(vec![("k", "v")]))));
    assert_eq!(read_optional_text_map(&payload, "nothing"), Ok(None));
    assert_eq!(read_optional_text_map(&payload, "none"), Ok(None));
    assert_eq!(
        read_optional_text_map(&payload, "flag"),
        Err(fault("flag", ValueKind::Record, Some(ValueKind::Flag)))
    );
}

#[test]
fn text_map_keeps_the_order_of_the_record() {
    let source = fields(vec![("b", text("2")), ("a", text("1")), ("c", text("3"))]);
    let read = read_text_map(&source, "sources").unwrap();
    assert_eq!(read.len(), 3);
    assert_eq!(read.entry_at(0), Some((&"b".to_string(), &"2".to_string())));
    assert_eq!(read.entry_at(1), Some((&"a".to_string(), &"1".to_string())));
    assert_eq!(read.entry_at(2), Some((&"c".to_string(), &"3".to_string())));
    assert_eq!(read_text_map(&TextMap::new(), "sources"), Ok(TextMap::new()));
}
