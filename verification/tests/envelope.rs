use sshvault::envelope::{parse_envelope, render_envelope};
use sshvault::models::ExportFile;

fn envelope() -> ExportFile {
    ExportFile {
        fmt: "sshvault-export".to_string(),
        v: 1,
        salt: "AAECAwQFBgcICQoLDA0ODw==".to_string(),
        nonce: "AAECAwQFBgcICQoL".to_string(),
        ciphertext: "q+/x".to_string(),
    }
}

const TEXT: &str = "{\"fmt\":\"sshvault-export\",\"v\":1,\"salt\":\"AAECAwQFBgcICQoLDA0ODw==\",\"nonce\":\"AAECAwQFBgcICQoL\",\"ciphertext\":\"q+/x\"}";

#[test]
fn envelope_is_written_with_its_five_members_in_order() {
    assert_eq!(render_envelope(&envelope()), TEXT);
}

#[test]
fn written_envelope_is_read_back() {
    assert_eq!(parse_envelope(TEXT), Some(envelope()));
}

#[test]
fn written_envelope_is_json_to_serde() {
    let value: serde_json::Value = serde_json::from_str(&render_envelope(&envelope())).unwrap();
    assert_eq!(value["fmt"].as_str(), Some("sshvault-export"));
    assert_eq!(value["v"].as_u64(), Some(1));
    assert_eq!(value["salt"].as_str(), Some("AAECAwQFBgcICQoLDA0ODw=="));
    assert_eq!(value["nonce"].as_str(), Some("AAECAwQFBgcICQoL"));
    assert_eq!(value["ciphertext"].as_str(), Some("q+/x"));
    assert_eq!(value.as_object().unwrap().len(), 5);
}

#[test]
fn envelope_of_any_version_and_format_is_read() {
    let mut e = envelope();
    e.v = 255;
    e.fmt = "x\"y".to_string();
    e.ciphertext = String::new();
    let text = render_envelope(&e);
    assert!(text.starts_with("{\"fmt\":\"x\\\"y\",\"v\":255,"));
    assert_eq!(parse_envelope(&text), Some(e));
}

#[test]
fn envelope_laid_out_with_white_space_is_read() {
    let laid_out = "{ \"fmt\": \"sshvault-export\", \"v\": 1,\n  \"salt\": \"AAECAwQFBgcICQoLDA0ODw==\", \"nonce\": \"AAECAwQFBgcICQoL\", \"ciphertext\": \"q+/x\" }";
    assert_eq!(parse_envelope(laid_out), Some(envelope()));
    assert_eq!(parse_envelope(&format!("{}\n", TEXT)), Some(envelope()));
    assert_eq!(parse_envelope(&format!(" \t\r\n{}", TEXT)), Some(envelope()));
    assert_eq!(parse_envelope(&TEXT.replace(":", " :\t")), Some(envelope()));
    assert_eq!(parse_envelope(&TEXT.replace(",", "\r\n,\n")), Some(envelope()));
    let e = envelope();
    let pretty = format!(
        "{{\n  \"fmt\": \"sshvault-export\",\n  \"v\": 1,\n  \"salt\": \"{}\",\n  \"nonce\": \"{}\",\n  \"ciphertext\": \"{}\"\n}}\n",
        e.salt, e.nonce, e.ciphertext
    );
    assert_eq!(parse_envelope(&pretty), Some(e));
}

#[test]
fn white_space_inside_a_string_belongs_to_the_string() {
    let mut e = envelope();
    e.ciphertext = " q+/x ".to_string();
    let text = TEXT.replace("q+/x", " q+/x ");
    assert_eq!(render_envelope(&e), text);
    assert_eq!(parse_envelope(&text), Some(e));
}

#[test]
fn white_space_inside_a_token_is_refused() {
    assert_eq!(parse_envelope(&TEXT.replace("\"v\":1", "\"v\":0 1")), None);
    assert_eq!(parse_envelope(&TEXT.replace("\"v\":1", "\"v\":2 5")), None);
    assert_eq!(parse_envelope(&TEXT.replace("\"salt\"", "\"sa lt\"")), None);
    assert_eq!(parse_envelope(&TEXT.replace("\"nonce\"", "\" nonce\"")), None);
    assert_eq!(parse_envelope(&TEXT.replace("q+/x", "q+\n/x")), None);
    assert_eq!(parse_envelope(&TEXT.replace("{", "{\u{b}")), None);
    assert_eq!(parse_envelope(&TEXT.replace("{", "{\u{a0}")), None);
}

#[test]
fn other_spellings_of_an_envelope_are_refused() {
    assert_eq!(parse_envelope(""), None);
    assert_eq!(parse_envelope("   "), None);
    assert_eq!(parse_envelope("{}"), None);
    assert_eq!(parse_envelope(&format!("{}{}", TEXT, TEXT)), None);
    assert_eq!(parse_envelope(&format!("{} x", TEXT)), None);
    assert_eq!(parse_envelope(&TEXT.replace("\"v\":1", "\"v\":01")), None);
    assert_eq!(parse_envelope(&TEXT.replace("\"v\":1", "\"v\":256")), None);
    assert_eq!(parse_envelope(&TEXT.replace("\"v\":1", "\"v\":\"1\"")), None);
    assert_eq!(parse_envelope(&TEXT.replace("\"v\":1", "\"v\":1.0")), None);
    assert_eq!(parse_envelope(&TEXT.replace("\"v\":1,", "")), None);
    assert_eq!(parse_envelope(&TEXT.replace("q+/x", "q+\\/x")), None);
    assert_eq!(parse_envelope(&TEXT.replace("\"}", "\",\"more\":0}")), None);
    assert_eq!(parse_envelope(&TEXT[..TEXT.len() - 1]), None);
    assert_eq!(
        parse_envelope("{\"v\":1,\"fmt\":\"sshvault-export\",\"salt\":\"\",\"nonce\":\"\",\"ciphertext\":\"\"}"),
        None
    );
}
