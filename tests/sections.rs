use custom_sections::meta::{
    add_function, packed_interface_version, write_contract_meta, write_env_meta, write_spec,
    write_spec_entries, CURRENT_PROTOCOL, ENV_META_SECTION, SPEC_SECTION,
};
use custom_sections::section::write_custom_section;
use custom_sections::xdr::{
    encode_env_meta, encode_function, encode_spec, limit_error, EncodeError, EnvMetaEntry,
    FunctionInput, FunctionSpec, SpecType,
};
use stellar_xdr::curr::{
    Limits, ReadXdr, ScEnvMetaEntry, ScSpecEntry, ScSpecFunctionInputV0, ScSpecFunctionV0,
    ScSpecTypeDef,
};

const EMPTY_MODULE: [u8; 8] = [0x00, 0x61, 0x73, 0x6d, 0x01, 0x00, 0x00, 0x00];

fn read_leb(bytes: &[u8], pos: &mut usize) -> usize {
    let mut result = 0usize;
    let mut shift = 0;
    loop {
        let b = bytes[*pos];
        *pos += 1;
        result |= ((b & 0x7f) as usize) << shift;
        if b & 0x80 == 0 {
            return result;
        }
        shift += 7;
    }
}

/// The custom sections after the module header, as (name, payload).
fn custom_sections_of(module: &[u8]) -> Vec<(String, Vec<u8>)> {
    assert_eq!(&module[..8], &EMPTY_MODULE[..]);
    let mut pos = 8;
    let mut out = Vec::new();
    while pos < module.len() {
        assert_eq!(module[pos], 0);
        pos += 1;
        let size = read_leb(module, &mut pos);
        let end = pos + size;
        let name_len = read_leb(module, &mut pos);
        let name = String::from_utf8(module[pos..pos + name_len].to_vec()).unwrap();
        pos += name_len;
        out.push((name, module[pos..end].to_vec()));
        pos = end;
    }
    out
}

fn input(name: &str, type_: SpecType) -> FunctionInput {
    FunctionInput { doc: Vec::new(), name: name.as_bytes().to_vec(), type_ }
}

fn function(name: &str, inputs: Vec<FunctionInput>, outputs: Vec<SpecType>) -> FunctionSpec {
    FunctionSpec { doc: Vec::new(), name: name.as_bytes().to_vec(), inputs, outputs }
}

fn xdr_input(name: &str, type_: ScSpecTypeDef) -> ScSpecFunctionInputV0 {
    ScSpecFunctionInputV0 {
        doc: "".try_into().unwrap(),
        name: name.try_into().unwrap(),
        type_,
    }
}

fn expected_add(t: ScSpecTypeDef) -> ScSpecEntry {
    ScSpecEntry::FunctionV0(ScSpecFunctionV0 {
        doc: "".try_into().unwrap(),
        name: "add".try_into().unwrap(),
        inputs: vec![xdr_input("a", ScSpecTypeDef::Bool), xdr_input("b", t.clone()), xdr_input("c", t.clone())]
            .try_into()
            .unwrap(),
        outputs: vec![t].try_into().unwrap(),
    })
}

#[test]
fn custom_section_layout() {
    let mut wasm = EMPTY_MODULE.to_vec();
    write_custom_section(&mut wasm, "abc", &[1, 2, 3]);
    assert_eq!(&wasm[..8], &EMPTY_MODULE[..]);
    assert_eq!(&wasm[8..], &[0, 7, 3, b'a', b'b', b'c', 1, 2, 3][..]);
}

#[test]
fn custom_section_grows_by_header_and_content() {
    let mut wasm = vec![9u8, 8, 7];
    let payload = vec![0x55u8; 200];
    write_custom_section(&mut wasm, "abc", &payload);
    // content is 1 + 3 + 200 = 204 bytes, whose LEB128 form takes two bytes
    assert_eq!(wasm.len(), 3 + 1 + 2 + 204);
    assert_eq!(&wasm[..3], &[9, 8, 7][..]);
    assert_eq!(&wasm[3..6], &[0, 0xcc, 0x01][..]);
    assert_eq!(&wasm[6..10], &[3, b'a', b'b', b'c'][..]);
    assert_eq!(&wasm[10..], &payload[..]);
}

#[test]
fn empty_payload_holds_only_the_name() {
    let mut wasm = EMPTY_MODULE.to_vec();
    write_custom_section(&mut wasm, "contractspecv0", &[]);
    let mut expected = vec![0u8, 15, 14];
    expected.extend_from_slice(b"contractspecv0");
    assert_eq!(&wasm[8..], &expected[..]);
    assert_eq!(custom_sections_of(&wasm), vec![("contractspecv0".to_string(), vec![])]);
}

#[test]
fn packed_version_value() {
    assert_eq!(packed_interface_version(21, 0), 21u64 << 32);
    assert_eq!(packed_interface_version(1, 2), (1u64 << 32) + 2);
    assert_eq!(packed_interface_version(u32::MAX, u32::MAX), u64::MAX);
    assert_eq!(CURRENT_PROTOCOL, 21);
}

#[test]
fn env_meta_bytes() {
    let bytes = encode_env_meta(&[EnvMetaEntry::InterfaceVersion(21u64 << 32)]);
    assert_eq!(bytes, vec![0, 0, 0, 0, 0, 0, 0, 21, 0, 0, 0, 0]);
    let two = encode_env_meta(&[EnvMetaEntry::InterfaceVersion(1), EnvMetaEntry::InterfaceVersion(2)]);
    assert_eq!(two, vec![0, 0, 0, 0, 0, 0, 0, 0, 0, 0, 0, 1, 0, 0, 0, 0, 0, 0, 0, 0, 0, 0, 0, 2]);
    assert!(encode_env_meta(&[]).is_empty());
}

#[test]
fn function_bytes_exact() {
    let f = function("ab", vec![input("x", SpecType::I64)], vec![SpecType::Bool]);
    let bytes = encode_function(&f).unwrap();
    let expected: Vec<u8> = vec![
        0, 0, 0, 0, // function entry
        0, 0, 0, 0, // empty doc
        0, 0, 0, 2, b'a', b'b', 0, 0, // name, padded
        0, 0, 0, 1, // one parameter
        0, 0, 0, 0, // its empty doc
        0, 0, 0, 1, b'x', 0, 0, 0, // its name, padded
        0, 0, 0, 7, // i64
        0, 0, 0, 1, // one return type
        0, 0, 0, 1, // bool
    ];
    assert_eq!(bytes, expected);
}

#[test]
fn env_meta_round_trip() {
    let mut wasm = EMPTY_MODULE.to_vec();
    write_env_meta(&mut wasm, 42);
    let sections = custom_sections_of(&wasm);
    assert_eq!(sections.len(), 1);
    assert_eq!(sections[0].0, ENV_META_SECTION);
    let entry = ScEnvMetaEntry::from_xdr(&sections[0].1, Limits::none()).unwrap();
    assert_eq!(entry, ScEnvMetaEntry::ScEnvMetaKindInterfaceVersion(42));
}

#[test]
fn spec_round_trip_keeps_names_types_and_order() {
    let f = FunctionSpec {
        doc: b"sums its arguments".to_vec(),
        name: b"transfer".to_vec(),
        inputs: vec![input("from", SpecType::Address), input("amount", SpecType::I128)],
        outputs: vec![SpecType::Void],
    };
    let mut wasm = EMPTY_MODULE.to_vec();
    write_spec_entries(&mut wasm, &[f.clone(), add_function(SpecType::U64)]).unwrap();
    let sections = custom_sections_of(&wasm);
    assert_eq!(sections.len(), 1);
    assert_eq!(sections[0].0, SPEC_SECTION);
    let mut cursor = stellar_xdr::curr::Limited::new(std::io::Cursor::new(sections[0].1.clone()), Limits::none());
    let first = ScSpecEntry::read_xdr(&mut cursor).unwrap();
    let second = ScSpecEntry::read_xdr(&mut cursor).unwrap();
    let expected_first = ScSpecEntry::FunctionV0(ScSpecFunctionV0 {
        doc: "sums its arguments".try_into().unwrap(),
        name: "transfer".try_into().unwrap(),
        inputs: vec![xdr_input("from", ScSpecTypeDef::Address), xdr_input("amount", ScSpecTypeDef::I128)]
            .try_into()
            .unwrap(),
        outputs: vec![ScSpecTypeDef::Void].try_into().unwrap(),
    });
    assert_eq!(first, expected_first);
    assert_eq!(second, expected_add(ScSpecTypeDef::U64));
    assert_eq!(cursor.inner.position() as usize, sections[0].1.len());
}

#[test]
fn encoding_is_deterministic() {
    let a = encode_spec(&[add_function(SpecType::U32)]).unwrap();
    let b = encode_spec(&[add_function(SpecType::U32)]).unwrap();
    assert_eq!(a, b);
    let mut w1 = EMPTY_MODULE.to_vec();
    let mut w2 = EMPTY_MODULE.to_vec();
    write_contract_meta(&mut w1, 7, SpecType::I32);
    write_contract_meta(&mut w2, 7, SpecType::I32);
    assert_eq!(w1, w2);
}

#[test]
fn long_function_name_fails_and_leaves_module() {
    let name = "f".repeat(33);
    let f = function(&name, vec![], vec![]);
    let mut wasm = EMPTY_MODULE.to_vec();
    assert_eq!(write_spec_entries(&mut wasm, &[f]), Err(EncodeError::StringTooLong));
    assert_eq!(wasm, EMPTY_MODULE.to_vec());
    let ok = function(&"f".repeat(32), vec![], vec![]);
    assert_eq!(limit_error(&ok), None);
}

#[test]
fn long_parameter_name_fails_and_leaves_module() {
    let f = function("add", vec![input("a", SpecType::Bool), input(&"p".repeat(31), SpecType::U32)], vec![]);
    let mut wasm = EMPTY_MODULE.to_vec();
    write_env_meta(&mut wasm, 1);
    let before = wasm.clone();
    assert_eq!(write_spec_entries(&mut wasm, &[add_function(SpecType::U32), f]), Err(EncodeError::StringTooLong));
    assert_eq!(wasm, before);
    let ok = function("add", vec![input(&"p".repeat(30), SpecType::U32)], vec![]);
    assert_eq!(limit_error(&ok), None);
}

#[test]
fn long_doc_fails() {
    let mut f = function("add", vec![], vec![]);
    f.doc = vec![b'd'; 1025];
    assert_eq!(encode_function(&f), Err(EncodeError::StringTooLong));
    f.doc = vec![b'd'; 1024];
    assert!(encode_function(&f).is_ok());
}

#[test]
fn too_many_parameters_or_returns_fail() {
    let inputs: Vec<FunctionInput> = (0..11).map(|_| input("x", SpecType::U32)).collect();
    let f = function("add", inputs, vec![]);
    assert_eq!(encode_spec(&[f]), Err(EncodeError::TooManyItems));
    let g = function("add", vec![], vec![SpecType::U32, SpecType::U32]);
    assert_eq!(limit_error(&g), Some(EncodeError::TooManyItems));
    let ten: Vec<FunctionInput> = (0..10).map(|_| input("x", SpecType::U32)).collect();
    assert_eq!(limit_error(&function("add", ten, vec![SpecType::U32])), None);
}

#[test]
fn string_error_comes_before_count_error() {
    let inputs: Vec<FunctionInput> = (0..11).map(|_| input("x", SpecType::U32)).collect();
    let f = function(&"n".repeat(40), inputs, vec![]);
    assert_eq!(limit_error(&f), Some(EncodeError::StringTooLong));
}

#[test]
fn empty_module_gets_packed_variant_sections() {
    let mut wasm = EMPTY_MODULE.to_vec();
    write_contract_meta(&mut wasm, packed_interface_version(CURRENT_PROTOCOL, 0), SpecType::U32);
    let sections = custom_sections_of(&wasm);
    assert_eq!(sections.len(), 2);
    assert_eq!(sections[0].0, "contractenvmetav0");
    assert_eq!(sections[1].0, "contractspecv0");
    let env = ScEnvMetaEntry::from_xdr(&sections[0].1, Limits::none()).unwrap();
    assert_eq!(env, ScEnvMetaEntry::ScEnvMetaKindInterfaceVersion(21 << 32));
    let spec = ScSpecEntry::from_xdr(&sections[1].1, Limits::none()).unwrap();
    assert_eq!(spec, expected_add(ScSpecTypeDef::U32));
}

#[test]
fn empty_module_gets_plain_variant_sections() {
    let mut wasm = EMPTY_MODULE.to_vec();
    write_env_meta(&mut wasm, 20);
    write_spec(&mut wasm, SpecType::I64);
    let sections = custom_sections_of(&wasm);
    assert_eq!(sections.len(), 2);
    assert_eq!(sections[0].0, "contractenvmetav0");
    assert_eq!(sections[1].0, "contractspecv0");
    let env = ScEnvMetaEntry::from_xdr(&sections[0].1, Limits::none()).unwrap();
    assert_eq!(env, ScEnvMetaEntry::ScEnvMetaKindInterfaceVersion(20));
    let spec = ScSpecEntry::from_xdr(&sections[1].1, Limits::none()).unwrap();
    assert_eq!(spec, expected_add(ScSpecTypeDef::I64));
}

#[test]
fn every_type_tag_round_trips() {
    let pairs = [
        (SpecType::Val, ScSpecTypeDef::Val),
        (SpecType::Bool, ScSpecTypeDef::Bool),
        (SpecType::Void, ScSpecTypeDef::Void),
        (SpecType::U32, ScSpecTypeDef::U32),
        (SpecType::I32, ScSpecTypeDef::I32),
        (SpecType::U64, ScSpecTypeDef::U64),
        (SpecType::I64, ScSpecTypeDef::I64),
        (SpecType::U128, ScSpecTypeDef::U128),
        (SpecType::I128, ScSpecTypeDef::I128),
        (SpecType::U256, ScSpecTypeDef::U256),
        (SpecType::I256, ScSpecTypeDef::I256),
        (SpecType::Bytes, ScSpecTypeDef::Bytes),
        (SpecType::Address, ScSpecTypeDef::Address),
    ];
    for (t, x) in pairs {
        let bytes = encode_function(&add_function(t)).unwrap();
        let spec = ScSpecEntry::from_xdr(&bytes, Limits::none()).unwrap();
        assert_eq!(spec, expected_add(x));
    }
}
