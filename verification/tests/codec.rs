use sshvault::codec::{parse_vault, serialize_vault};
use sshvault::models::{Group, Host, IdKind, Vault};

fn host() -> Host {
    Host {
        id: "id-1".to_string(),
        name: "db1".to_string(),
        hostname: "example.com".to_string(),
        port: 22,
        username: Some("alice".to_string()),
        auth: IdKind::Agent,
        group: Some("prod".to_string()),
        tags: vec!["a".to_string(), "b".to_string()],
        notes: None,
        created_at: 1234567890,
        updated_at: -5,
    }
}

fn vault() -> Vault {
    Vault {
        version: 1,
        groups: vec![Group { name: "prod".to_string(), created_at: 7 }],
        hosts: vec![host()],
    }
}

const TEXT: &str = "{\"version\":1,\"groups\":[{\"name\":\"prod\",\"created_at\":7}],\"hosts\":[{\"id\":\"id-1\",\"name\":\"db1\",\"hostname\":\"example.com\",\"port\":22,\"username\":\"alice\",\"auth\":\"Agent\",\"key_path\":null,\"group\":\"prod\",\"tags\":[\"a\",\"b\"],\"notes\":null,\"created_at\":1234567890,\"updated_at\":-5}]}";

fn with_notes(notes: &str) -> Vault {
    let mut v = vault();
    v.hosts[0].notes = Some(notes.to_string());
    v
}

fn notes_text(written: &str) -> String {
    TEXT.replace("\"notes\":null", &format!("\"notes\":\"{}\"", written))
}

#[test]
fn vault_is_written_as_compact_json_in_fixed_order() {
    assert_eq!(serialize_vault(&vault()), TEXT);
}

#[test]
fn empty_vault_is_written_with_empty_lists() {
    assert_eq!(serialize_vault(&Vault::default()), "{\"version\":1,\"groups\":[],\"hosts\":[]}");
    assert_eq!(parse_vault("{\"version\":1,\"groups\":[],\"hosts\":[]}"), Some(Vault::default()));
}

#[test]
fn written_vault_is_read_back() {
    assert_eq!(parse_vault(TEXT), Some(vault()));
}

#[test]
fn key_path_is_written_beside_the_kind() {
    let mut v = vault();
    v.hosts[0].auth = IdKind::KeyPath("/k".to_string());
    let text = TEXT.replace("\"auth\":\"Agent\",\"key_path\":null", "\"auth\":\"KeyPath\",\"key_path\":\"/k\"");
    assert_eq!(serialize_vault(&v), text);
    assert_eq!(parse_vault(&text), Some(v));
}

#[test]
fn agent_with_a_path_and_key_without_a_path_are_refused() {
    let a = TEXT.replace("\"auth\":\"Agent\",\"key_path\":null", "\"auth\":\"Agent\",\"key_path\":\"/k\"");
    let b = TEXT.replace("\"auth\":\"Agent\",\"key_path\":null", "\"auth\":\"KeyPath\",\"key_path\":null");
    let c = TEXT.replace("\"auth\":\"Agent\"", "\"auth\":\"Password\"");
    assert_eq!(parse_vault(&a), None);
    assert_eq!(parse_vault(&b), None);
    assert_eq!(parse_vault(&c), None);
}

#[test]
fn special_characters_are_escaped() {
    let v = with_notes("q\" b\\ \u{8}\u{c}\n\r\t \u{1}\u{1f} / \u{7f} caf\u{e9} \u{1F510}");
    let text = notes_text("q\\\" b\\\\ \\b\\f\\n\\r\\t \\u0001\\u001f / \u{7f} caf\u{e9} \u{1F510}");
    assert_eq!(serialize_vault(&v), text);
    assert_eq!(parse_vault(&text), Some(v));
}

#[test]
fn every_control_character_is_read_back() {
    let mut all = String::new();
    for c in 0u8..0x20 {
        all.push(c as char);
    }
    let v = with_notes(&all);
    assert_eq!(parse_vault(&serialize_vault(&v)), Some(v));
}

#[test]
fn written_vault_is_json_to_serde() {
    let v = with_notes("q\" b\\ \n \u{1} caf\u{e9}");
    let value: serde_json::Value = serde_json::from_str(&serialize_vault(&v)).unwrap();
    assert_eq!(value["version"].as_u64(), Some(1));
    assert_eq!(value["groups"][0]["name"].as_str(), Some("prod"));
    assert_eq!(value["hosts"][0]["port"].as_u64(), Some(22));
    assert_eq!(value["hosts"][0]["notes"].as_str(), Some("q\" b\\ \n \u{1} caf\u{e9}"));
    assert_eq!(value["hosts"][0]["updated_at"].as_i64(), Some(-5));
    assert!(value["hosts"][0]["key_path"].is_null());
    assert_eq!(value["hosts"][0]["tags"][1].as_str(), Some("b"));
    assert_eq!(serde_json::to_string(&value["hosts"][0]["notes"]).unwrap(), "\"q\\\" b\\\\ \\n \\u0001 caf\u{e9}\"");
}

#[test]
fn other_spellings_of_a_string_are_refused() {
    assert_eq!(parse_vault(&notes_text("A")), Some(with_notes("A")));
    assert_eq!(parse_vault(&notes_text("\\u0041")), None);
    assert_eq!(parse_vault(&notes_text("\\/")), None);
    assert_eq!(parse_vault(&notes_text("\\u000a")), None);
    assert_eq!(parse_vault(&notes_text("\\u001F")), None);
    assert_eq!(parse_vault(&notes_text("\\u0022")), None);
    assert_eq!(parse_vault(&notes_text("\\x")), None);
    assert_eq!(parse_vault(&notes_text("\\u00")), None);
    assert_eq!(parse_vault(&notes_text("a\nb")), None);
    assert_eq!(parse_vault(&notes_text("a\u{1}b")), None);
}

#[test]
fn white_space_and_other_orders_are_refused() {
    assert_eq!(parse_vault(&format!(" {}", TEXT)), None);
    assert_eq!(parse_vault(&format!("{} ", TEXT)), None);
    assert_eq!(parse_vault(&format!("{}\n", TEXT)), None);
    assert_eq!(parse_vault(&TEXT.replace(":", ": ")), None);
    assert_eq!(parse_vault(&TEXT.replace(",", ", ")), None);
    assert_eq!(
        parse_vault("{\"groups\":[],\"version\":1,\"hosts\":[]}"),
        None
    );
    assert_eq!(
        parse_vault("{\"version\":1,\"groups\":[],\"hosts\":[],\"extra\":1}"),
        None
    );
    assert_eq!(parse_vault("{\"version\":1,\"groups\":[]}"), None);
}

#[test]
fn broken_texts_are_refused() {
    assert_eq!(parse_vault(""), None);
    assert_eq!(parse_vault("{"), None);
    assert_eq!(parse_vault("null"), None);
    assert_eq!(parse_vault(&TEXT[..TEXT.len() - 1]), None);
    assert_eq!(parse_vault(&TEXT[1..]), None);
    assert_eq!(parse_vault(&format!("{}{}", TEXT, TEXT)), None);
    assert_eq!(parse_vault(&TEXT.replace("[\"a\",\"b\"]", "[\"a\",\"b\",]")), None);
    assert_eq!(parse_vault(&TEXT.replace("[\"a\",\"b\"]", "[,\"a\",\"b\"]")), None);
    assert_eq!(parse_vault(&TEXT.replace("[\"a\",\"b\"]", "[\"a\"\"b\"]")), None);
    assert_eq!(parse_vault(&TEXT.replace("[\"a\",\"b\"]", "[\"a\",\"b\"")), None);
    assert_eq!(parse_vault(&TEXT.replace("\"alice\"", "\"alice")), None);
    assert_eq!(parse_vault(&TEXT.replace("\"alice\"", "alice")), None);
    assert_eq!(parse_vault(&TEXT.replace("\"notes\":null", "\"notes\":nul")), None);
}

#[test]
fn numbers_are_read_in_canonical_form_and_in_range() {
    let port = |p: &str| parse_vault(&TEXT.replace("\"port\":22", &format!("\"port\":{}", p)));
    assert_eq!(port("0").map(|v| v.hosts[0].port), Some(0));
    assert_eq!(port("65535").map(|v| v.hosts[0].port), Some(65535));
    assert_eq!(port("65536"), None);
    assert_eq!(port("022"), None);
    assert_eq!(port("00"), None);
    assert_eq!(port("-1"), None);
    assert_eq!(port("22.0"), None);
    assert_eq!(port("2e1"), None);
    assert_eq!(port("+22"), None);
    assert_eq!(port(""), None);
    assert_eq!(port("\"22\""), None);
    assert_eq!(port("99999999999999999999999999"), None);
    let version = |p: &str| parse_vault(&TEXT.replace("\"version\":1", &format!("\"version\":{}", p)));
    assert_eq!(version("255").map(|v| v.version), Some(255));
    assert_eq!(version("256"), None);
    assert_eq!(version("01"), None);
}

#[test]
fn timestamps_cover_the_whole_range() {
    let at = |p: &str| parse_vault(&TEXT.replace("\"updated_at\":-5", &format!("\"updated_at\":{}", p)));
    assert_eq!(at("0").map(|v| v.hosts[0].updated_at), Some(0));
    assert_eq!(at("-0"), None);
    assert_eq!(at("-"), None);
    assert_eq!(at("--5"), None);
    assert_eq!(at("-05"), None);
    assert_eq!(at("9223372036854775807").map(|v| v.hosts[0].updated_at), Some(i64::MAX));
    assert_eq!(at("9223372036854775808"), None);
    assert_eq!(at("-9223372036854775808").map(|v| v.hosts[0].updated_at), Some(i64::MIN));
    assert_eq!(at("-9223372036854775809"), None);
    assert_eq!(at("18446744073709551616"), None);
    let mut v = vault();
    v.hosts[0].created_at = i64::MIN;
    v.hosts[0].updated_at = i64::MAX;
    v.groups[0].created_at = -1;
    let text = serialize_vault(&v);
    assert!(text.contains("\"created_at\":-9223372036854775808,\"updated_at\":9223372036854775807}"));
    assert!(text.contains("{\"name\":\"prod\",\"created_at\":-1}"));
    assert_eq!(parse_vault(&text), Some(v));
}

#[test]
fn several_groups_and_hosts_keep_their_order() {
    let mut v = vault();
    v.groups.push(Group { name: "".to_string(), created_at: 0 });
    v.groups.push(Group { name: "prod".to_string(), created_at: 9 });
    let mut second = host();
    second.id = "id-2".to_string();
    second.username = None;
    second.group = None;
    second.tags = vec![];
    second.notes = Some(String::new());
    second.port = 65535;
    v.hosts.push(second);
    v.hosts.push(host());
    let text = serialize_vault(&v);
    assert!(text.contains("\"groups\":[{\"name\":\"prod\",\"created_at\":7},{\"name\":\"\",\"created_at\":0},{\"name\":\"prod\",\"created_at\":9}]"));
    assert!(text.contains("\"port\":65535,\"username\":null,\"auth\":\"Agent\",\"key_path\":null,\"group\":null,\"tags\":[],\"notes\":\"\","));
    assert_eq!(parse_vault(&text), Some(v));
}

#[test]
fn text_with_many_hosts_is_read_back() {
    let mut v = Vault::default();
    for i in 0..300u16 {
        let mut h = host();
        h.id = format!("id-{}", i);
        h.port = i;
        v.hosts.push(h);
    }
    assert_eq!(parse_vault(&serialize_vault(&v)), Some(v));
}
