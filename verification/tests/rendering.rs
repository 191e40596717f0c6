use no_clone::name_map::NameMap;
use no_clone::render::{
    dotenv_escape, dotenv_name, finish_serialized, fits_yaml, render, render_dotenv,
    secret_text_map, RenderFormat, YAML_LIMIT,
};
use no_clone::secret::SecretBytes;
use no_clone::vault::VaultSecret;

fn map_of(entries: &[(&str, &str)]) -> NameMap<String> {
    let mut values = NameMap::new();
    for (name, value) in entries {
        values.insert(name.to_string(), value.to_string());
    }
    values
}

fn secret(name: &str, value: &[u8]) -> VaultSecret {
    VaultSecret { name: name.to_string(), value: SecretBytes::new(value.to_vec()) }
}

#[test]
fn dotenv_names_are_normalized() {
    assert_eq!(
        dotenv_name("database-password").unwrap(),
        "DATABASE_PASSWORD"
    );
    assert_eq!(dotenv_name("tls.cert").unwrap(), "TLS_CERT");
    assert_eq!(dotenv_name("2fa-token").unwrap(), "_2FA_TOKEN");
}

#[test]
fn dotenv_collisions_are_rejected() {
    let values = map_of(&[("database-password", "one"), ("database_password", "two")]);
    assert!(render_dotenv(&values).is_err());
    assert_eq!(
        render_dotenv(&values).unwrap_err().message(),
        "secret names collide after dotenv conversion: 'database_password'"
    );
}

#[test]
fn dotenv_names_collapse_and_trim() {
    assert_eq!(dotenv_name("a--b..c").unwrap(), "A_B_C");
    assert_eq!(dotenv_name("-a-").unwrap(), "_A");
    assert_eq!(dotenv_name("--2").unwrap(), "_2");
    assert_eq!(dotenv_name("éa").unwrap(), "_A");
    assert_eq!(dotenv_name("straße").unwrap(), "STRA_E");
    assert_eq!(dotenv_name("a___").unwrap(), "A");
    assert_eq!(
        dotenv_name("é-é").unwrap_err().message(),
        "secret name 'é-é' cannot be converted to a dotenv variable"
    );
    assert!(dotenv_name("").is_err());
}

#[test]
fn dotenv_names_are_stable() {
    for name in ["database-password", "2fa", "-x", "a b c", "Z9"] {
        let variable = dotenv_name(name).unwrap();
        assert_eq!(dotenv_name(&variable).unwrap(), variable);
    }
}

#[test]
fn dotenv_values_are_escaped() {
    assert_eq!(dotenv_escape("plain ü $x #").unwrap(), "plain ü $x #");
    assert_eq!(dotenv_escape("a\nb\rc\td\\e\"f").unwrap(), "a\\nb\\rc\\td\\\\e\\\"f");
    assert_eq!(dotenv_escape("").unwrap(), "");
    assert_eq!(
        dotenv_escape("a\0").unwrap_err().message(),
        "secret contains an unsupported control character for dotenv output"
    );
    assert!(dotenv_escape("\u{85}").is_err());
    assert!(dotenv_escape("\u{7f}").is_err());
}

#[test]
fn dotenv_files_have_one_line_for_each_secret() {
    let values = map_of(&[("tls.cert", "a\"b"), ("api-key", "x\ny"), ("2fa", "")]);
    assert_eq!(
        render(&values, RenderFormat::Dotenv).unwrap(),
        "_2FA=\"\"\nAPI_KEY=\"x\\ny\"\nTLS_CERT=\"a\\\"b\"\n"
    );
    assert_eq!(render(&map_of(&[]), RenderFormat::Dotenv).unwrap(), "");
}

#[test]
fn the_first_unusable_entry_is_reported() {
    let values = map_of(&[("a", "\u{1}"), ("é", "x")]);
    assert_eq!(
        render_dotenv(&values).unwrap_err().message(),
        "secret contains an unsupported control character for dotenv output"
    );
}

#[test]
fn json_and_yaml_come_from_their_serializers() {
    let values = map_of(&[("b", "two\n"), ("a", "one")]);
    assert_eq!(
        render(&values, RenderFormat::Json).unwrap(),
        "{\n  \"a\": \"one\",\n  \"b\": \"two\\n\"\n}\n"
    );
    assert_eq!(
        render(&map_of(&[("b", "two"), ("a", "1")]), RenderFormat::Yaml).unwrap(),
        "a: '1'\nb: two\n"
    );
    assert_eq!(render(&map_of(&[]), RenderFormat::Json).unwrap(), "{}\n");
}

#[test]
fn serializer_errors_are_passed_on() {
    assert_eq!(finish_serialized(Ok("x".to_string()), "\n").unwrap(), "x\n");
    assert_eq!(
        finish_serialized(Err("no".to_string()), "\n").unwrap_err().message(),
        "no"
    );
}

#[test]
fn secrets_become_texts() {
    let values =
        secret_text_map(&vec![secret("b", "ü".as_bytes()), secret("a", b"1"), secret("b", b"2")])
            .unwrap();
    assert_eq!(values.len(), 2);
    assert_eq!(values.get("a").unwrap(), "1");
    assert_eq!(values.get("b").unwrap(), "2");
    assert_eq!(
        secret_text_map(&vec![secret("a", b"1"), secret("raw", &[b'x', 255])])
            .unwrap_err()
            .message(),
        "secret 'raw' is not valid UTF-8: invalid utf-8 sequence of 1 bytes from index 1"
    );
}

#[test]
fn yaml_has_a_limit() {
    let count = (YAML_LIMIT - 16) as usize / 4;
    let mut bytes = Vec::with_capacity(count + 1);
    bytes.resize(count, 1);
    let mut values = map_of(&[]);
    values.insert("a".to_string(), String::from_utf8(bytes).unwrap());
    assert!(fits_yaml(&values));
    let mut text = values.remove("a").unwrap();
    text.push('\u{1}');
    values.insert("a".to_string(), text);
    assert!(!fits_yaml(&values));
}

#[test]
fn large_texts_fit_yaml() {
    let mut values = map_of(&[("b", "'\"\\\t\n\u{85}\u{2028}\u{feff}\u{1f511}")]);
    values.insert("a".to_string(), String::from_utf8(vec![b'x'; 600_000_000]).unwrap());
    assert!(fits_yaml(&values));
}
