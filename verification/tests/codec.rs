use nif_marshal::codec::{
    copy_field, copy_fields, decode_item, encode_value, gen_decoder, gen_encoder,
    transcoder_decorator, value_type, Context, Decoder, Field, FieldType, Record, Value,
};
use nif_marshal::error::Error;
use nif_marshal::term::{map_get, map_put, Env, Item, Pair, Term, TermData};

fn field(name: &str, ty: FieldType) -> Field {
    Field { name: name.to_string(), ty }
}

fn pair(key: &str, value: Item) -> Pair {
    Pair { key: key.to_string(), value }
}

fn context(ident: &str, fields: Vec<Field>) -> Context {
    Context { ident: ident.to_string(), struct_fields: Some(fields), encode: true, decode: true }
}

fn sample() -> Context {
    context("Sample", vec![field("a", FieldType::Integer), field("b", FieldType::Text)])
}

#[test]
fn encode_puts_fields_in_declaration_order() {
    let encoder = transcoder_decorator(&sample()).encoder.unwrap();
    let record = Record {
        record_type: "Sample".to_string(),
        values: vec![Value::Integer(7), Value::Text("seven".to_string())],
    };
    let term = encoder.encode(&record, Env::new(3)).unwrap();
    assert_eq!(
        term,
        Term::new(
            Env::new(3),
            TermData::Assoc(vec![
                pair("a", Item::Integer(7)),
                pair("b", Item::Text("seven".to_string())),
            ]),
        )
    );
}

#[test]
fn encode_then_decode_gives_record_back() {
    let gen = transcoder_decorator(&sample());
    let record = Record {
        record_type: "Sample".to_string(),
        values: vec![Value::Integer(-12), Value::Text("twelve".to_string())],
    };
    let term = gen.encoder.unwrap().encode(&record, Env::new(1)).unwrap();
    assert_eq!(gen.decoder.unwrap().decode(&term), Ok(record));
}

#[test]
fn decode_reports_missing_key() {
    let decoder = transcoder_decorator(&sample()).decoder.unwrap();
    let term = Term::new(Env::new(1), TermData::Assoc(vec![pair("a", Item::Integer(1))]));
    assert_eq!(
        decoder.decode(&term),
        Err(Error::FieldDecodeFailure { field: "b".to_string(), record: "Sample".to_string() })
    );
}

#[test]
fn decode_reports_wrong_type() {
    let decoder = transcoder_decorator(&sample()).decoder.unwrap();
    let term = Term::new(
        Env::new(1),
        TermData::Assoc(vec![
            pair("a", Item::Text("one".to_string())),
            pair("b", Item::Text("two".to_string())),
        ]),
    );
    assert_eq!(
        decoder.decode(&term),
        Err(Error::FieldDecodeFailure { field: "a".to_string(), record: "Sample".to_string() })
    );
}

#[test]
fn decode_reports_first_failing_field() {
    let decoder = transcoder_decorator(&sample()).decoder.unwrap();
    let term = Term::new(Env::new(1), TermData::Assoc(vec![]));
    assert_eq!(
        decoder.decode(&term),
        Err(Error::FieldDecodeFailure { field: "a".to_string(), record: "Sample".to_string() })
    );
}

#[test]
fn decode_ignores_order_and_extra_keys() {
    let decoder = transcoder_decorator(&sample()).decoder.unwrap();
    let term = Term::new(
        Env::new(1),
        TermData::Assoc(vec![
            pair("z", Item::Integer(0)),
            pair("b", Item::Text("two".to_string())),
            pair("a", Item::Integer(1)),
        ]),
    );
    assert_eq!(
        decoder.decode(&term),
        Ok(Record {
            record_type: "Sample".to_string(),
            values: vec![Value::Integer(1), Value::Text("two".to_string())],
        })
    );
}

#[test]
fn decode_rejects_terms_that_are_no_map() {
    let decoder = transcoder_decorator(&sample()).decoder.unwrap();
    let env = Env::new(1);
    assert_eq!(decoder.decode(&Term::new(env, TermData::Integer(1))), Err(Error::TypeMismatch));
    assert_eq!(decoder.decode(&Term::new(env, TermData::Binary(vec![]))), Err(Error::TypeMismatch));
    assert_eq!(
        decoder.decode(&Term::new(env, TermData::Atom("a".to_string()))),
        Err(Error::TypeMismatch)
    );
}

#[test]
fn encode_rejects_records_of_another_shape() {
    let encoder = transcoder_decorator(&sample()).encoder.unwrap();
    let short = Record { record_type: "Sample".to_string(), values: vec![Value::Integer(1)] };
    assert_eq!(encoder.encode(&short, Env::new(1)), Err(Error::TypeMismatch));
    let swapped = Record {
        record_type: "Sample".to_string(),
        values: vec![Value::Text("x".to_string()), Value::Integer(1)],
    };
    assert_eq!(encoder.encode(&swapped, Env::new(1)), Err(Error::TypeMismatch));
}

#[test]
fn same_field_name_in_two_types_stays_apart() {
    let first = transcoder_decorator(&context("First", vec![field("value", FieldType::Integer)]));
    let second = transcoder_decorator(&context("Second", vec![field("value", FieldType::Text)]));
    assert_ne!(first.atoms_module, second.atoms_module);
    assert_eq!(first.atoms, vec!["value".to_string()]);
    assert_eq!(second.atoms, vec!["value".to_string()]);

    let env = Env::new(1);
    let one = Record { record_type: "First".to_string(), values: vec![Value::Integer(1)] };
    let two = Record {
        record_type: "Second".to_string(),
        values: vec![Value::Text("two".to_string())],
    };
    let first_term = first.encoder.as_ref().unwrap().encode(&one, env).unwrap();
    let second_term = second.encoder.as_ref().unwrap().encode(&two, env).unwrap();
    assert_ne!(first_term, second_term);

    let first_decoder = first.decoder.unwrap();
    let second_decoder = second.decoder.unwrap();
    assert_eq!(first_decoder.decode(&first_term), Ok(one));
    assert_eq!(second_decoder.decode(&second_term), Ok(two));
    assert_eq!(
        first_decoder.decode(&second_term),
        Err(Error::FieldDecodeFailure { field: "value".to_string(), record: "First".to_string() })
    );
    assert_eq!(
        second_decoder.decode(&first_term),
        Err(Error::FieldDecodeFailure { field: "value".to_string(), record: "Second".to_string() })
    );
}

#[test]
fn flags_select_directions() {
    let mut ctx = sample();
    ctx.decode = false;
    let gen = transcoder_decorator(&ctx);
    assert!(gen.decoder.is_none());
    assert!(gen.encoder.is_some());
    ctx.decode = true;
    ctx.encode = false;
    let gen = transcoder_decorator(&ctx);
    assert!(gen.decoder.is_some());
    assert!(gen.encoder.is_none());
    ctx.decode = false;
    let gen = transcoder_decorator(&ctx);
    assert!(gen.decoder.is_none());
    assert!(gen.encoder.is_none());
    assert_eq!(gen.atoms, vec!["a".to_string(), "b".to_string()]);
}

#[test]
fn transcoder_names_namespace_and_atoms() {
    let ctx = sample();
    let gen = transcoder_decorator(&ctx);
    assert_eq!(gen.atoms_module, "ATOMS_Sample");
    assert_eq!(ctx.atoms_module_name(), "ATOMS_Sample");
    assert_eq!(gen.atoms, vec!["a".to_string(), "b".to_string()]);
    assert_eq!(ctx.field_atoms(), Some(vec!["a".to_string(), "b".to_string()]));
    let decoder = gen.decoder.unwrap();
    assert_eq!(decoder.record, "Sample");
    assert_eq!(decoder.atoms_module, "ATOMS_Sample");
    assert_eq!(decoder.fields, ctx.struct_fields.clone().unwrap());
    let encoder = gen.encoder.unwrap();
    assert_eq!(encoder.record, "Sample");
    assert_eq!(encoder.fields, ctx.struct_fields.unwrap());
}

#[test]
fn context_without_named_fields_has_no_atoms() {
    let ctx = Context { ident: "Unit".to_string(), struct_fields: None, encode: true, decode: false };
    assert_eq!(ctx.field_atoms(), None);
    assert!(ctx.encode());
    assert!(!ctx.decode());
}

#[test]
fn gen_decoder_and_encoder_take_fields_and_namespace() {
    let ctx = sample();
    let fields = vec![field("only", FieldType::Text)];
    let module = "elsewhere".to_string();
    let decoder = gen_decoder(&ctx, &fields, &module);
    assert_eq!(decoder.record, "Sample");
    assert_eq!(decoder.atoms_module, "elsewhere");
    assert_eq!(decoder.fields, fields);
    let encoder = gen_encoder(&ctx, &fields, &module);
    assert_eq!(encoder.record, "Sample");
    assert_eq!(encoder.atoms_module, "elsewhere");
    assert_eq!(encoder.fields, fields);
}

#[test]
fn error_message_names_field() {
    assert_eq!(Decoder::error_message(&"b".to_string()), "Could not decode field :b on %{}");
}

#[test]
fn decode_field_looks_up_and_decodes() {
    let decoder = transcoder_decorator(&sample()).decoder.unwrap();
    let entries = vec![pair("b", Item::Text("x".to_string())), pair("a", Item::Integer(4))];
    assert_eq!(decoder.decode_field(0, &entries), Some(Value::Integer(4)));
    assert_eq!(decoder.decode_field(1, &entries), Some(Value::Text("x".to_string())));
    assert_eq!(decoder.decode_field(0, &vec![]), None);
}

#[test]
fn map_get_finds_first_association() {
    let entries = vec![
        pair("a", Item::Integer(1)),
        pair("b", Item::Integer(2)),
        pair("a", Item::Integer(3)),
    ];
    assert_eq!(map_get(&entries, &"a".to_string()), Some(&Item::Integer(1)));
    assert_eq!(map_get(&entries, &"b".to_string()), Some(&Item::Integer(2)));
    assert_eq!(map_get(&entries, &"c".to_string()), None);
}

#[test]
fn items_and_values_convert() {
    assert_eq!(decode_item(FieldType::Integer, &Item::Integer(3)), Some(Value::Integer(3)));
    assert_eq!(decode_item(FieldType::Text, &Item::Integer(3)), None);
    assert_eq!(decode_item(FieldType::Integer, &Item::Text("t".to_string())), None);
    assert_eq!(
        decode_item(FieldType::Text, &Item::Text("t".to_string())),
        Some(Value::Text("t".to_string()))
    );
    assert_eq!(encode_value(&Value::Integer(i64::MIN)), Item::Integer(i64::MIN));
    assert_eq!(encode_value(&Value::Text("t".to_string())), Item::Text("t".to_string()));
    assert_eq!(value_type(&Value::Integer(0)), FieldType::Integer);
    assert_eq!(value_type(&Value::Text(String::new())), FieldType::Text);
}

#[test]
fn copies_are_equal() {
    let f = field("a", FieldType::Text);
    assert_eq!(copy_field(&f), f);
    let fs = vec![field("a", FieldType::Text), field("b", FieldType::Integer)];
    assert_eq!(copy_fields(&fs), fs);
}

#[test]
fn map_put_replaces_or_appends() {
    let mut entries = vec![pair("a", Item::Integer(1)), pair("b", Item::Integer(2))];
    map_put(&mut entries, "c".to_string(), Item::Integer(3));
    assert_eq!(
        entries,
        vec![pair("a", Item::Integer(1)), pair("b", Item::Integer(2)), pair("c", Item::Integer(3))]
    );
    map_put(&mut entries, "a".to_string(), Item::Text("one".to_string()));
    assert_eq!(
        entries,
        vec![
            pair("a", Item::Text("one".to_string())),
            pair("b", Item::Integer(2)),
            pair("c", Item::Integer(3)),
        ]
    );
    let mut empty: Vec<Pair> = vec![];
    map_put(&mut empty, "k".to_string(), Item::Integer(0));
    assert_eq!(empty, vec![pair("k", Item::Integer(0))]);
}

#[test]
fn encode_binds_a_repeated_name_once() {
    let ctx = context(
        "Twice",
        vec![field("x", FieldType::Integer), field("x", FieldType::Integer)],
    );
    let encoder = transcoder_decorator(&ctx).encoder.unwrap();
    let record = Record {
        record_type: "Twice".to_string(),
        values: vec![Value::Integer(1), Value::Integer(2)],
    };
    let term = encoder.encode(&record, Env::new(1)).unwrap();
    assert_eq!(term.data, TermData::Assoc(vec![pair("x", Item::Integer(2))]));
}
