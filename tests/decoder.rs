use anchor_decoder::decode::Leaf;
use anchor_decoder::dispatch::{Decoded, DecodedInstruction, Decoder, SchemaError};
use anchor_decoder::document::{anchor_idl, IdlError};
use anchor_decoder::idl::{Json, Member};
use anchor_decoder::naming::to_camel_case;
use anchor_decoder::schema::{Field, Layout, Primitive, TypeBody, TypeDef};

fn to_json(v: &serde_json::Value) -> Json {
    match v {
        serde_json::Value::Null => Json::Null,
        serde_json::Value::Bool(b) => Json::Bool(*b),
        serde_json::Value::Number(n) => match n.as_u64() {
            Some(x) => Json::Num(x),
            None => Json::OtherNum,
        },
        serde_json::Value::String(s) => Json::Str(s.clone()),
        serde_json::Value::Array(items) => Json::Arr(items.iter().map(to_json).collect()),
        serde_json::Value::Object(map) => Json::Obj(
            map.iter()
                .map(|(k, v)| Member { key: k.clone(), value: to_json(v) })
                .collect(),
        ),
    }
}

fn doc(text: &str) -> Json {
    to_json(&serde_json::from_str::<serde_json::Value>(text).unwrap())
}

fn build(text: &str) -> Decoder {
    anchor_idl(&doc(text), Vec::new()).unwrap()
}

const SENTINEL: [u8; 8] = [228, 69, 165, 46, 81, 203, 154, 29];

const ORDERS: &str = r#"{
  "address": "Order111111111111111111111111111111111111",
  "types": [
    {"name": "Vault", "type": {"kind": "struct", "fields": [{"name": "field", "type": "bool"}]}},
    {"name": "OrderFilled", "type": {"kind": "struct", "fields": [{"name": "id", "type": "u64"}]}},
    {"name": "Side", "type": {"kind": "enum", "variants": [{"name": "Bid"}, {"name": "Ask"}]}},
    {"name": "Quote", "type": {"kind": "struct", "fields": [
        {"name": "side", "type": {"defined": {"name": "Side"}}},
        {"name": "prices", "type": {"array": ["u64", 3]}},
        {"name": "owner", "type": "pubkey"},
        {"name": "label", "type": "string"},
        {"name": "delta", "type": "i64"},
        {"name": "tick", "type": "u16"},
        {"name": "flags", "type": "u8"},
        {"name": "extra", "type": "f32"}
    ]}}
  ],
  "instructions": [
    {"name": "create_order", "discriminator": [1,2,3,4,5,6,7,8],
     "args": [{"name": "amount", "type": "u64"}],
     "accounts": [{"name": "payer"}, {"name": "vault"}, {"name": "system_program"}]},
    {"name": "close", "discriminator": [2,2,2,2,2,2,2,2], "args": []}
  ],
  "accounts": [
    {"name": "Vault", "discriminator": [5,5,5,5,5,5,5,5]},
    {"name": "Quote", "discriminator": [6,6,6,6,6,6,6,6]}
  ],
  "events": [
    {"name": "OrderFilled", "discriminator": [7,7,7,7,7,7,7,7]}
  ]
}"#;

#[test]
fn create_order_decodes_amount() {
    let d = build(ORDERS);
    let data = [1, 2, 3, 4, 5, 6, 7, 8, 100, 0, 0, 0, 0, 0, 0, 0];
    assert_eq!(
        d.decode_instruction(&data),
        Some(DecodedInstruction::Call(Decoded { index: 0, values: vec![Leaf::U64(100)] }))
    );
    assert_eq!(to_camel_case(&d.instructions[0].name), "CreateOrder");
}

#[test]
fn unknown_instruction_discriminator_gives_nothing() {
    let d = build(ORDERS);
    let data = [9, 9, 9, 9, 9, 9, 9, 9, 100, 0, 0, 0, 0, 0, 0, 0];
    assert_eq!(d.decode_instruction(&data), None);
}

#[test]
fn truncated_arguments_give_nothing() {
    let d = build(ORDERS);
    let full = [1u8, 2, 3, 4, 5, 6, 7, 8, 100, 0, 0, 0, 0, 0, 0, 0];
    for cut in 8..full.len() {
        assert_eq!(d.decode_instruction(&full[..cut]), None);
    }
    assert_eq!(d.decode_instruction(&full[..5]), None);
}

#[test]
fn instruction_without_arguments_ignores_payload() {
    let d = build(ORDERS);
    assert_eq!(
        d.decode_instruction(&[2, 2, 2, 2, 2, 2, 2, 2, 42]),
        Some(DecodedInstruction::Call(Decoded { index: 1, values: vec![] }))
    );
}

#[test]
fn vault_account_decodes_bool() {
    let d = build(ORDERS);
    assert_eq!(
        d.decode_account(&[5, 5, 5, 5, 5, 5, 5, 5, 1]),
        Some(Decoded { index: 0, values: vec![Leaf::Bool(true)] })
    );
    assert_eq!(d.decode_account(&[5, 5, 5, 5, 5, 5, 5, 5]), None);
    assert_eq!(d.decode_account(&[5, 5, 5, 5, 5, 5, 5, 5, 2]), None);
    assert_eq!(d.decode_account(&[5, 5, 5, 5, 5, 5, 5, 5, 1, 0]), None);
}

#[test]
fn account_with_every_primitive() {
    let d = build(ORDERS);
    let mut data = vec![6u8; 8];
    data.push(1);
    data.extend(borsh::to_vec(&[10u64, 20, 30]).unwrap());
    let owner = [9u8; 32];
    data.extend(owner);
    data.extend(borsh::to_vec(&"h\u{e9}llo".to_string()).unwrap());
    data.extend(borsh::to_vec(&-5i64).unwrap());
    data.extend(borsh::to_vec(&513u16).unwrap());
    data.push(7);
    assert_eq!(
        d.decode_account(&data),
        Some(Decoded {
            index: 1,
            values: vec![
                Leaf::Variant(1),
                Leaf::U64(10),
                Leaf::U64(20),
                Leaf::U64(30),
                Leaf::Pubkey(owner.to_vec()),
                Leaf::Str("h\u{e9}llo".to_string()),
                Leaf::I64(-5),
                Leaf::U16(513),
                Leaf::U8(7),
                Leaf::Unit,
            ],
        })
    );
}

#[test]
fn invalid_enum_tag_and_bad_utf8_give_nothing() {
    let d = build(ORDERS);
    let mut tail = borsh::to_vec(&[10u64, 20, 30]).unwrap();
    tail.extend([9u8; 32]);
    let mut bad_tag = vec![6u8; 8];
    bad_tag.push(2);
    bad_tag.extend(tail.clone());
    bad_tag.extend(borsh::to_vec(&"a".to_string()).unwrap());
    bad_tag.extend([0u8; 11]);
    assert_eq!(d.decode_account(&bad_tag), None);
    let mut bad_text = vec![6u8; 8];
    bad_text.push(0);
    bad_text.extend(tail);
    bad_text.extend([1, 0, 0, 0, 0xff]);
    bad_text.extend([0u8; 11]);
    assert_eq!(d.decode_account(&bad_text), None);
}

#[test]
fn event_decodes_and_self_emission_reroutes() {
    let d = build(ORDERS);
    let mut ev = vec![7u8; 8];
    ev.extend(borsh::to_vec(&77u64).unwrap());
    let expected = Decoded { index: 0, values: vec![Leaf::U64(77)] };
    assert_eq!(d.decode_event(&ev), Some(Decoded { index: 0, values: vec![Leaf::U64(77)] }));
    let mut call = SENTINEL.to_vec();
    call.extend(ev);
    assert_eq!(d.decode_instruction(&call), Some(DecodedInstruction::EmitCpi(expected)));
    let mut unknown = SENTINEL.to_vec();
    unknown.extend([8u8; 16]);
    assert_eq!(d.decode_instruction(&unknown), None);
}

#[test]
fn decoding_twice_gives_the_same_result() {
    let d = build(ORDERS);
    let data = [1, 2, 3, 4, 5, 6, 7, 8, 100, 0, 0, 0, 0, 0, 0, 0];
    assert_eq!(d.decode_instruction(&data), d.decode_instruction(&data));
    assert_eq!(d.decode_account(&[5, 5, 5, 5, 5, 5, 5, 5, 0]), d.decode_account(&[5, 5, 5, 5, 5, 5, 5, 5, 0]));
}

#[test]
fn array_round_trip() {
    let text = r#"{"address": "x", "types": [],
      "instructions": [{"name": "set", "discriminator": [3,3,3,3,3,3,3,3],
        "args": [{"name": "values", "type": {"array": ["u64", 4]}}]}]}"#;
    let d = build(text);
    let values = [0u64, 1, u64::MAX, 1 << 40];
    let mut data = vec![3u8; 8];
    data.extend(borsh::to_vec(&values).unwrap());
    let leaves: Vec<Leaf> = values.iter().map(|v| Leaf::U64(*v)).collect();
    assert_eq!(d.decode_instruction(&data), Some(DecodedInstruction::Call(Decoded { index: 0, values: leaves })));
}

#[test]
fn account_slots_are_a_bijection() {
    let d = build(ORDERS);
    let table = &d.instructions[0].accounts;
    for i in 0..table.len() {
        let name = table.get_account_name(i).unwrap();
        assert_eq!(table.get_account_index(name), Some(i));
    }
    assert_eq!(table.get_account_name(3), None);
    assert_eq!(table.get_account_index("vault"), Some(1));
    assert_eq!(table.get_account_index("nobody"), None);
    let all = table.get_all_accounts();
    assert_eq!(all, vec![("payer".to_string(), 0), ("vault".to_string(), 1), ("system_program".to_string(), 2)]);
}

#[test]
fn observed_accounts_map_to_names() {
    let d = build(ORDERS);
    let table = &d.instructions[0].accounts;
    let keys = [[1u8; 32], [2u8; 32], [3u8; 32], [4u8; 32]];
    let mapped = table.map_accounts(&keys);
    assert_eq!(mapped.len(), 3);
    assert_eq!(mapped[0].name, "payer");
    assert_eq!(mapped[1].key, [2u8; 32]);
    assert_eq!(mapped[2].name, "system_program");
    assert_eq!(table.map_accounts(&keys[..1]).len(), 1);
}

#[test]
fn duplicate_discriminators_are_rejected() {
    let text = r#"{"address": "x", "instructions": [
        {"name": "a", "discriminator": [1,1,1,1,1,1,1,1], "args": []},
        {"name": "b", "discriminator": [1,1,1,1,1,1,1,1], "args": []}]}"#;
    assert_eq!(
        anchor_idl(&doc(text), Vec::new()).unwrap_err(),
        IdlError::Invalid(SchemaError::DuplicateDiscriminator("b".to_string()))
    );
}

#[test]
fn sentinel_discriminator_is_reserved() {
    let text = r#"{"address": "x", "instructions": [
        {"name": "emit", "discriminator": [228,69,165,46,81,203,154,29], "args": []}]}"#;
    assert_eq!(
        anchor_idl(&doc(text), Vec::new()).unwrap_err(),
        IdlError::Invalid(SchemaError::ReservedDiscriminator("emit".to_string()))
    );
}

#[test]
fn short_discriminator_is_rejected() {
    let text = r#"{"address": "x", "instructions": [
        {"name": "a", "discriminator": [1,1,1,1,1,1,1], "args": []}]}"#;
    assert_eq!(
        anchor_idl(&doc(text), Vec::new()).unwrap_err(),
        IdlError::Invalid(SchemaError::BadDiscriminator("a".to_string()))
    );
}

#[test]
fn account_without_type_is_rejected() {
    let text = r#"{"address": "x", "instructions": [],
        "accounts": [{"name": "Ghost", "discriminator": [1,1,1,1,1,1,1,1]}]}"#;
    assert_eq!(
        anchor_idl(&doc(text), Vec::new()).unwrap_err(),
        IdlError::Invalid(SchemaError::MissingType("Ghost".to_string()))
    );
}

#[test]
fn repeated_account_name_is_rejected() {
    let text = r#"{"address": "x", "instructions": [
        {"name": "a", "discriminator": [1,1,1,1,1,1,1,1], "args": [],
         "accounts": [{"name": "payer"}, {"name": "payer"}]}]}"#;
    assert_eq!(
        anchor_idl(&doc(text), Vec::new()).unwrap_err(),
        IdlError::Invalid(SchemaError::DuplicateAccount("a".to_string()))
    );
}

#[test]
fn missing_instructions_and_unknown_names_are_rejected() {
    assert_eq!(
        anchor_idl(&doc(r#"{"address": "x"}"#), Vec::new()).unwrap_err(),
        IdlError::Missing("instructions".to_string())
    );
    let text = r#"{"address": "x", "instructions": [
        {"name": "a", "discriminator": [1,1,1,1,1,1,1,1],
         "args": [{"name": "p", "type": {"defined": {"name": "Elsewhere"}}}]}]}"#;
    assert_eq!(
        anchor_idl(&doc(text), Vec::new()).unwrap_err(),
        IdlError::UnknownType("a".to_string())
    );
}

#[test]
fn external_types_are_supplied_by_the_host() {
    let text = r#"{"address": "x", "instructions": [
        {"name": "a", "discriminator": [1,1,1,1,1,1,1,1],
         "args": [{"name": "p", "type": {"defined": {"name": "Elsewhere"}}}]}]}"#;
    let ext = TypeDef {
        name: "Elsewhere".to_string(),
        body: TypeBody::Struct(vec![Field { name: "n".to_string(), ty: Layout::Prim(Primitive::U16) }]),
    };
    let d = anchor_idl(&doc(text), vec![ext]).unwrap();
    assert_eq!(
        d.decode_instruction(&[1, 1, 1, 1, 1, 1, 1, 1, 2, 1]),
        Some(DecodedInstruction::Call(Decoded { index: 0, values: vec![Leaf::U16(258)] }))
    );
}

#[test]
fn self_containing_type_never_decodes() {
    let text = r#"{"address": "x",
      "types": [{"name": "Node", "type": {"kind": "struct", "fields": [
          {"name": "next", "type": {"defined": {"name": "Node"}}}]}}],
      "instructions": [],
      "accounts": [{"name": "Node", "discriminator": [4,4,4,4,4,4,4,4]}]}"#;
    let d = build(text);
    assert_eq!(d.decode_account(&[4, 4, 4, 4, 4, 4, 4, 4, 0, 0]), None);
}

#[test]
fn empty_struct_decodes_from_no_bytes() {
    let text = r#"{"address": "x",
      "types": [{"name": "Marker", "type": {"kind": "struct"}}],
      "instructions": [],
      "events": [{"name": "Marker", "discriminator": [4,4,4,4,4,4,4,4]}]}"#;
    let d = build(text);
    assert_eq!(d.decode_event(&[4, 4, 4, 4, 4, 4, 4, 4]), Some(Decoded { index: 0, values: vec![] }));
    assert_eq!(d.decode_event(&[4, 4, 4]), None);
}

#[test]
fn camel_case_joins_words() {
    assert_eq!(to_camel_case("create_order"), "CreateOrder");
    assert_eq!(to_camel_case("a__b"), "AB");
    assert_eq!(to_camel_case("_x_"), "X");
    assert_eq!(to_camel_case(""), "");
    assert_eq!(to_camel_case("already"), "Already");
}

#[test]
fn address_is_kept() {
    let d = build(ORDERS);
    assert_eq!(d.address, "Order111111111111111111111111111111111111");
}

#[test]
fn type_decodes_without_discriminator() {
    let d = build(ORDERS);
    assert_eq!(d.decode_type(0, &[0]), Some(vec![Leaf::Bool(false)]));
    assert_eq!(d.decode_type(2, &[1]), Some(vec![Leaf::Variant(1)]));
    assert_eq!(d.decode_type(2, &[2]), None);
    assert_eq!(d.decode_type(9, &[0]), None);
}

#[test]
fn malformed_documents_name_what_is_missing() {
    assert_eq!(
        anchor_idl(&doc(r#"{"instructions": []}"#), Vec::new()).unwrap_err(),
        IdlError::Missing("address".to_string())
    );
    let text = r#"{"address": "x", "instructions": [
        {"name": "a", "discriminator": [1,1,1,1,1,1,1,256], "args": []}]}"#;
    assert_eq!(anchor_idl(&doc(text), Vec::new()).unwrap_err(), IdlError::Missing("a".to_string()));
    let text = r#"{"address": "x", "instructions": [{"name": "a", "discriminator": [1,1,1,1,1,1,1,1]}]}"#;
    assert_eq!(anchor_idl(&doc(text), Vec::new()).unwrap_err(), IdlError::Missing("a".to_string()));
}
