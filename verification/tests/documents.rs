use rustkube::decimal::{format_i64, format_u64, parse_i64, parse_u64};
use rustkube::ipv4::{format_address, parse_address};
use rustkube::json::Json;
use rustkube::merge::{merge, strategic_merge, strategic_merge_key};
use rustkube::outside::{parse_json, parse_yaml, write_json};
use rustkube::pointer::{path_of, pointer, remove_at};
use rustkube::sorted::SortedMap;
use rustkube::text::{
    find, join_with, rfind_text, split_at_first, split_on, strip_prefix, trim, words_of,
};

fn json(text: &str) -> Json {
    match parse_json(text.as_bytes()) {
        Ok(v) => v,
        Err(e) => panic!("{e}: {text}"),
    }
}

#[test]
fn a_document_reads_back() {
    let text = r#"{"a":[1,-2,true,null,"é\n"],"b":{"c":18446744073709551615}}"#;
    assert_eq!(write_json(&json(text)), text);
    assert!(parse_json(b"{").is_err());
    let yaml = parse_yaml(b"a: [1, x]\nb: {c: 2}\n").unwrap();
    assert!(yaml.equals(&json(r#"{"a": [1, "x"], "b": {"c": 2}}"#)));
    assert!(parse_yaml(b"a: [").is_err());
    // Numbers with a point keep their value.
    assert_eq!(write_json(&json("1.5")), "1.5");
    assert!(json("1.0").equals(&json("1.0")));
    assert!(!json("1.0").equals(&json("1")));
}

#[test]
fn members_are_set_and_removed() {
    let mut v = json(r#"{"b": 1}"#);
    v.set("a", Json::text("x"));
    v.set("b", Json::flag(true));
    assert_eq!(write_json(&v), r#"{"a":"x","b":true}"#);
    v.unset("b");
    assert!(v.get("b").is_none());
    assert!(v.at("missing").is_null());
    assert!(v.item(0).is_null());
    assert!(Json::float(f64::NAN.to_bits()).is_none());
    assert!(Json::float(0.5f64.to_bits()).unwrap().equals(&json("0.5")));
}

#[test]
fn pointers_find_and_remove() {
    let mut v = json(r#"{"a": {"b/c": [10, {"~x": 1}]}}"#);
    assert_eq!(pointer(&v, "/a/b~1c/0").unwrap().as_i64(), Some(10));
    assert_eq!(pointer(&v, "/a/b~1c/1/~0x").unwrap().as_i64(), Some(1));
    assert!(pointer(&v, "/a/b~1c/01").is_none(), "an index has no leading zero");
    assert!(pointer(&v, "a").is_none());
    assert!(pointer(&v, "").unwrap().is_object());
    let path = vec!["a".to_string(), "b/c".to_string()];
    assert_eq!(path_of("/a/b~1c").unwrap(), path);
    remove_at(&mut v, &path);
    assert!(v.equals(&json(r#"{"a": {}}"#)));
    remove_at(&mut v, &path);
    assert!(v.equals(&json(r#"{"a": {}}"#)));
}

#[test]
fn a_merge_replaces_lists_and_a_strategic_one_merges_them() {
    let start = r#"{"spec": {"containers": [{"name": "a", "image": "1"}], "x": 1}}"#;
    let patch = json(r#"{"spec": {"containers": [{"name": "b"}, {"name": "a", "image": "2"}], "x": null}}"#);
    let mut plain = json(start);
    merge(&mut plain, &patch);
    assert_eq!(plain.at("spec").at("containers").as_array().unwrap().len(), 2);
    assert!(plain.at("spec").at("containers").item(0).at("name").is_text("b"));
    let mut strategic = json(start);
    strategic_merge(&mut strategic, &patch);
    assert!(strategic.equals(&json(
        r#"{"spec": {"containers": [{"name": "a", "image": "2"}, {"name": "b"}]}}"#
    )));
    assert_eq!(strategic_merge_key("conditions"), Some("type"));
    assert_eq!(strategic_merge_key("args"), None);
    // What is no object replaces everything.
    merge(&mut plain, &json("[1]"));
    assert!(plain.equals(&json("[1]")));
}

#[test]
fn numbers_are_written_and_read() {
    for n in [0, 7, 10, 409, u64::MAX] {
        assert_eq!(format_u64(n), n.to_string());
        assert_eq!(parse_u64(&format_u64(n)), Some(n));
    }
    for n in [i64::MIN, -10, 0, i64::MAX] {
        assert_eq!(format_i64(n), n.to_string());
        assert_eq!(parse_i64(&format_i64(n)), Some(n));
    }
    assert_eq!(parse_u64("+5"), Some(5));
    for bad in ["", "+", "-1", "1x", "18446744073709551616"] {
        assert_eq!(parse_u64(bad), None, "{bad}");
    }
}

#[test]
fn addresses_are_written_and_read() {
    for text in ["0.0.0.0", "10.96.0.1", "255.255.255.255"] {
        assert_eq!(format_address(parse_address(text).unwrap()), text);
    }
    for bad in ["", "1.2.3", "1.2.3.4.5", "01.2.3.4", "256.0.0.0", "1.2.3.+4", "a.b.c.d"] {
        assert_eq!(parse_address(bad), None, "{bad}");
    }
}

#[test]
fn texts_are_split_joined_and_searched() {
    let parts = split_on("a//b", '/');
    assert_eq!(parts, ["a", "", "b"]);
    assert_eq!(join_with(&parts, "/"), "a//b");
    assert_eq!(split_at_first("a=b=c", '='), Some(("a", "b=c")));
    assert_eq!(find("abcabc", "ca"), Some(2));
    assert_eq!(rfind_text("abcabc", "ab"), Some(3));
    assert_eq!(strip_prefix("abc", "ab"), Some("c"));
    assert_eq!(trim(" \t é \n"), "é");
    assert_eq!(words_of("  a b\tc \n"), ["a", "b", "c"]);
    assert!(words_of(" \n").is_empty());
}

#[test]
fn a_sorted_map_keeps_its_keys_in_order() {
    let mut m: SortedMap<u32> = SortedMap::new();
    m.insert("b", 2);
    m.insert("a", 1);
    m.insert("c", 3);
    m.insert("b", 20);
    assert_eq!(m.len(), 3);
    assert_eq!((m.key(0), *m.value(0)), ("a", 1));
    assert_eq!(m.get("b"), Some(&20));
    assert_eq!(m.position("bb"), 2);
    assert_eq!(m.remove("b"), Some(20));
    assert_eq!(m.remove("b"), None);
    assert_eq!(m.get("b"), None);
    assert_eq!(m.len(), 2);
}
