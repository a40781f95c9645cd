use indexmap::IndexMap;
use vmf_forge::errors::{ParseErrorKind, VmfError};
use vmf_forge::parser::{parse_blocks, strip_quotes};
use vmf_forge::text::{int_string, is_float, nat_string, parse_signed, parse_unsigned, To01String};
use vmf_forge::VmfBlock;

#[test]
fn to_01_string_true() {
    assert_eq!(true.to_01_string(), "1");
}

#[test]
fn to_01_string_false() {
    assert_eq!(false.to_01_string(), "0");
}

#[test]
fn parse_block_valid_block() {
    let input = "entity { \"classname\" \"logic_relay\" }";
    let mut blocks = parse_blocks(input).unwrap();
    let block = blocks.remove(0);

    assert_eq!(block.name, "entity");
    assert_eq!(block.key_values.get("classname"), Some(&"logic_relay".to_string()));
    assert!(block.blocks.is_empty());
}

#[test]
fn parse_block_nested_blocks() {
    let input = "entity { \"classname\" \"logic_relay\" solid { \"id\" \"1\" } }";
    let mut blocks = parse_blocks(input).unwrap();
    let block = blocks.remove(0);

    assert_eq!(block.name, "entity");
    assert_eq!(block.key_values.get("classname"), Some(&"logic_relay".to_string()));
    assert_eq!(block.blocks.len(), 1);
    assert_eq!(block.blocks[0].name, "solid");
    assert_eq!(block.blocks[0].key_values.get("id"), Some(&"1".to_string()));
}

#[test]
fn parse_block_empty_block() {
    let input = "entity { }";
    let mut blocks = parse_blocks(input).unwrap();
    let block = blocks.remove(0);

    assert_eq!(block.name, "entity");
    assert!(block.key_values.is_empty());
    assert!(block.blocks.is_empty());
}

#[test]
fn duplicate_keys_are_joined_in_order() {
    let input = "connections\n{\n\t\"OnTrigger\" \"a\"\n\t\"OnTrigger\" \"b\"\n\t\"x\" \"y\"\n}\n";
    let blocks = parse_blocks(input).unwrap();
    assert_eq!(blocks[0].key_values.len(), 2);
    assert_eq!(blocks[0].key_values.get_index(0), Some((&"OnTrigger".to_string(), &"a\rb".to_string())));
    assert_eq!(blocks[0].key_values.get_index(1), Some((&"x".to_string(), &"y".to_string())));
}

#[test]
fn unbalanced_braces_fail() {
    assert!(matches!(parse_blocks("world\n{\n"), Err(e) if e.kind == ParseErrorKind::UnexpectedEnd));
    assert!(matches!(parse_blocks("}"), Err(e) if e.kind == ParseErrorKind::UnbalancedClose));
    assert!(matches!(parse_blocks("world { \"a\" \"b }"), Err(e) if e.kind == ParseErrorKind::UnterminatedString));
    assert!(matches!(parse_blocks("world { \"a\" }"), Err(e) if e.kind == ParseErrorKind::UnexpectedChar));
    assert!(matches!(parse_blocks("world \"a\""), Err(e) if e.kind == ParseErrorKind::UnexpectedChar));
}

#[test]
fn parse_error_surfaces_as_parse_variant() {
    let r = vmf_forge::parser::parse_vmf("versioninfo\n{\n");
    assert!(matches!(r, Err(VmfError::Parse(_))));
}

#[test]
fn block_serialize_nests_children() {
    let mut kv = IndexMap::new();
    kv.insert("a".to_string(), "1".to_string());
    let child = VmfBlock { name: "c".to_string(), key_values: IndexMap::new(), blocks: vec![] };
    let b = VmfBlock { name: "b".to_string(), key_values: kv, blocks: vec![child] };
    assert_eq!(b.serialize(0), "b\n{\n\t\"a\" \"1\"\n\tc\n\t{\n\t}\n}\n");
}

#[test]
fn strip_quotes_cases() {
    assert_eq!(strip_quotes("\"abc\""), "abc");
    assert_eq!(strip_quotes("abc"), "abc");
    assert_eq!(strip_quotes("\""), "\"");
    assert_eq!(strip_quotes("\"\""), "");
}

#[test]
fn integer_text_round_trip() {
    assert_eq!(parse_signed("-128", -128, 127), Some(-128));
    assert_eq!(parse_signed("128", -128, 127), None);
    assert_eq!(parse_signed("+7", -128, 127), Some(7));
    assert_eq!(parse_signed("-", -128, 127), None);
    assert_eq!(parse_unsigned("65535", 65535), Some(65535));
    assert_eq!(parse_unsigned("65536", 65535), None);
    assert_eq!(parse_unsigned("-1", 65535), None);
    assert_eq!(parse_unsigned("", 65535), None);
    assert_eq!(parse_unsigned("18446744073709551615", u64::MAX), Some(u64::MAX));
    assert_eq!(parse_unsigned("18446744073709551616", u64::MAX), None);
    assert_eq!(int_string(-2147483648), "-2147483648");
    assert_eq!(nat_string(0), "0");
    assert_eq!(nat_string(9672), "9672");
}

#[test]
fn float_text_recognition() {
    for t in ["0", "-1.5", "+.5", "5.", "1e10", "1.5E-3", "inf", "-Infinity", "NaN"] {
        assert!(is_float(t), "{}", t);
    }
    for t in ["", ".", "abc", "1e", "e5", "1.2.3", "--1", "1 2"] {
        assert!(!is_float(t), "{}", t);
    }
}

#[test]
fn serialized_blocks_read_back() {
    let mut kv = IndexMap::new();
    kv.insert("classname".to_string(), "worldspawn".to_string());
    kv.insert("id".to_string(), "1".to_string());
    let mut inner = IndexMap::new();
    inner.insert("k".to_string(), "v w".to_string());
    let child = VmfBlock { name: "solid".to_string(), key_values: inner, blocks: vec![] };
    let b = VmfBlock { name: "world".to_string(), key_values: kv, blocks: vec![child] };
    let text = format!("{}{}", b.serialize(0), b.serialize(0));
    let back = parse_blocks(&text).unwrap();
    assert_eq!(back.len(), 2);
    for r in &back {
        assert_eq!(r.name, "world");
        assert_eq!(r.key_values, b.key_values);
        assert_eq!(r.blocks.len(), 1);
        assert_eq!(r.blocks[0].name, "solid");
        assert_eq!(r.blocks[0].key_values.get("k"), Some(&"v w".to_string()));
    }
    assert_eq!(format!("{}{}", back[0].serialize(0), back[1].serialize(0)), text);
}

#[test]
fn get_key_ref_existing_key() {
    let mut map = IndexMap::new();
    map.insert("test_key".to_string(), "test_value".to_string());

    let value = vmf_forge::kv::get_key_ref(&map, "test_key").unwrap();
    assert_eq!(value, "test_value");
    assert!(map.contains_key("test_key"));
}

#[test]
fn get_key_ref_missing_key() {
    let map = IndexMap::<String, String>::new();
    let result = vmf_forge::kv::get_key_ref(&map, "test_key");
    assert!(matches!(result, Err(VmfError::InvalidFormat(_))));
    if let Err(VmfError::InvalidFormat(msg)) = result {
        assert!(msg.contains("'test_key' key not found"));
    }
}

#[test]
fn joined_values_are_written_one_line_per_part() {
    let mut kv = IndexMap::new();
    kv.insert("O".to_string(), "a\rb".to_string());
    let b = VmfBlock { name: "connections".to_string(), key_values: kv, blocks: vec![] };
    let text = b.serialize(0);
    assert_eq!(text, "connections\n{\n\t\"O\" \"a\"\n\t\"O\" \"b\"\n}\n");
    let back = parse_blocks(&text).unwrap();
    assert_eq!(back[0].key_values.get("O"), Some(&"a\rb".to_string()));
}
