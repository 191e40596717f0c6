use no_clone::manifest::{
    parse_cli_binding, target_as_fd, Binding, Manifest, ProfileManifest, Target, Transport,
};
use no_clone::name_map::NameMap;

fn binding(transport: Transport, target: Option<Target>) -> Binding {
    Binding { transport, target }
}

fn one_profile(profile: &str, secret: &str, bound: Binding) -> Manifest {
    let mut secrets = NameMap::new();
    secrets.insert(secret.to_string(), bound);
    let mut profiles = NameMap::new();
    profiles.insert(profile.to_string(), ProfileManifest { secrets });
    Manifest { version: 1, profiles }
}

fn target_of(value: &serde_yaml::Value) -> Option<Target> {
    match value.get("target") {
        None => None,
        Some(target) => match target.as_i64() {
            Some(number) => Some(Target::Number(number)),
            None => target.as_str().map(|text| Target::Text(text.to_string())),
        },
    }
}

fn manifest_of(value: &serde_yaml::Value) -> Manifest {
    let mut profiles = NameMap::new();
    for (profile, body) in value.get("profiles").unwrap().as_mapping().unwrap() {
        let mut secrets = NameMap::new();
        for (secret, bound) in body.get("secrets").unwrap().as_mapping().unwrap() {
            let transport = match bound.get("transport").unwrap().as_str().unwrap() {
                "stdin" => Transport::Stdin,
                "env" => Transport::Env,
                "fd" => Transport::Fd,
                other => panic!("unknown transport {other}"),
            };
            secrets.insert(
                secret.as_str().unwrap().to_string(),
                binding(transport, target_of(bound)),
            );
        }
        profiles.insert(profile.as_str().unwrap().to_string(), ProfileManifest { secrets });
    }
    Manifest {
        version: value.get("version").unwrap().as_u64().unwrap() as u32,
        profiles,
    }
}

#[test]
fn accepts_nested_multi_profile_manifest() {
    let value: serde_yaml::Value = serde_yaml::from_str(
        "version: 1\nprofiles:\n  production:\n    secrets:\n      token:\n        transport: env\n        target: APP_TOKEN\n  registry:\n    secrets:\n      password:\n        transport: fd\n        target: 3\n",
    )
    .unwrap();
    let manifest = manifest_of(&value);

    manifest.validate().unwrap();
    assert_eq!(manifest.profiles.len(), 2);
    assert!(matches!(
        manifest.profiles.get("registry").unwrap().secrets.get("password").unwrap().target,
        Some(Target::Number(3))
    ));
}

#[test]
fn rejects_invalid_transport_targets() {
    let missing_env_target = Binding {
        transport: Transport::Env,
        target: None,
    };
    assert!(missing_env_target.validate("production", "token").is_err());

    let low_fd = Binding {
        transport: Transport::Fd,
        target: Some(Target::Number(2)),
    };
    assert!(low_fd.validate("production", "token").is_err());
}

#[test]
fn parses_direct_binding_syntax() {
    let (name, binding) = parse_cli_binding("deploy-token=env:APP_TOKEN").unwrap();
    assert_eq!(name, "deploy-token");
    assert!(matches!(binding.transport, Transport::Env));

    let (name, binding) = parse_cli_binding("tls-cert=fd:3").unwrap();
    assert_eq!(name, "tls-cert");
    assert!(matches!(binding.target, Some(Target::Text(ref value)) if value == "3"));
}

#[test]
fn stdin_bindings_parse_without_a_target() {
    let (name, binding) = parse_cli_binding("password=stdin").unwrap();
    assert_eq!(name, "password");
    assert_eq!(binding.transport, Transport::Stdin);
    assert!(binding.target.is_none());
}

#[test]
fn later_separators_belong_to_the_target() {
    assert_eq!(
        parse_cli_binding("a=env:B=C").unwrap_err().message(),
        "binding '<cli>/a' has an invalid environment target"
    );
    let (_, binding) = parse_cli_binding("a=env:B:C").unwrap();
    assert!(matches!(binding.target, Some(Target::Text(ref value)) if value == "B:C"));
}

#[test]
fn direct_binding_errors_say_what_is_wrong() {
    let message = |spec: &str| parse_cli_binding(spec).unwrap_err().message();
    assert_eq!(
        message("token"),
        "invalid binding 'token'; expected SECRET=TRANSPORT[:TARGET]"
    );
    assert_eq!(message("=stdin"), "secret name cannot be empty");
    assert_eq!(message("..=stdin"), "invalid secret name");
    assert_eq!(message("token=env"), "env bindings require a target name");
    assert_eq!(message("token=fd"), "fd bindings require a target number");
    assert_eq!(
        message("token=stdin:x"),
        "invalid binding 'token=stdin:x'; use stdin, env:NAME, or fd:NUMBER"
    );
    assert_eq!(
        message("token=file:x"),
        "invalid binding 'token=file:x'; use stdin, env:NAME, or fd:NUMBER"
    );
    assert_eq!(
        message("token=env:"),
        "binding '<cli>/token' has an empty environment target"
    );
    assert_eq!(
        message("token=fd:x"),
        "binding '<cli>/token' has an invalid file descriptor: 'x' is not a file descriptor number: invalid digit found in string"
    );
    assert_eq!(
        message("token=fd:"),
        "binding '<cli>/token' has an invalid file descriptor: '' is not a file descriptor number: cannot parse integer from empty string"
    );
    assert_eq!(
        message("token=fd:2"),
        "binding '<cli>/token' must use file descriptor 3 or higher"
    );
}

#[test]
fn binding_errors_say_what_is_wrong() {
    let message = |bound: Binding| bound.validate("p", "s").unwrap_err().message();
    assert_eq!(
        message(binding(Transport::Stdin, Some(Target::Number(1)))),
        "binding 'p/s' does not accept a stdin target"
    );
    assert_eq!(
        message(binding(Transport::Env, Some(Target::Number(1)))),
        "binding 'p/s' requires a text environment target"
    );
    assert_eq!(
        message(binding(Transport::Env, Some(Target::Text("A\0B".to_string())))),
        "binding 'p/s' has an invalid environment target"
    );
    assert_eq!(
        message(binding(Transport::Fd, None)),
        "binding 'p/s' requires a file descriptor target"
    );
    assert_eq!(
        message(binding(Transport::Fd, Some(Target::Number(1 << 31)))),
        "binding 'p/s' has an invalid file descriptor: file descriptor is outside the supported range: out of range integral type conversion attempted"
    );
}

#[test]
fn manifest_errors_say_what_is_wrong() {
    let mut manifest = one_profile("production", "token", binding(Transport::Stdin, None));
    manifest.validate().unwrap();
    manifest.version = 2;
    assert_eq!(
        manifest.validate().unwrap_err().message(),
        "unsupported manifest version 2; expected 1"
    );
    let nothing = Manifest { version: 1, profiles: NameMap::new() };
    assert_eq!(
        nothing.validate().unwrap_err().message(),
        "manifest must contain at least one profile"
    );
    let mut profiles = NameMap::new();
    profiles.insert("empty".to_string(), ProfileManifest { secrets: NameMap::new() });
    assert_eq!(
        Manifest { version: 1, profiles }.validate().unwrap_err().message(),
        "profile 'empty' must contain at least one secret binding"
    );
    assert_eq!(
        one_profile("", "token", binding(Transport::Stdin, None)).validate().unwrap_err().message(),
        "profile name cannot be empty"
    );
    assert_eq!(
        one_profile("p", &"x".repeat(129), binding(Transport::Stdin, None))
            .validate()
            .unwrap_err()
            .message(),
        "secret name is too long"
    );
}

#[test]
fn the_first_fault_in_name_order_is_reported() {
    let mut manifest = one_profile("b", "x", binding(Transport::Fd, None));
    let mut secrets = NameMap::new();
    secrets.insert("y".to_string(), binding(Transport::Env, None));
    manifest.profiles.insert("a".to_string(), ProfileManifest { secrets });
    assert_eq!(
        manifest.validate().unwrap_err().message(),
        "binding 'a/y' requires a text environment target"
    );
}

#[test]
fn targets_become_descriptors() {
    let text = |value: &str| target_as_fd(&Target::Text(value.to_string()));
    assert_eq!(target_as_fd(&Target::Number(3)).unwrap(), 3);
    assert_eq!(target_as_fd(&Target::Number(-4)).unwrap(), -4);
    assert_eq!(text("+7").unwrap(), 7);
    assert_eq!(text("007").unwrap(), 7);
    assert_eq!(text("-2147483648").unwrap(), i32::MIN);
    assert_eq!(text("2147483647").unwrap(), i32::MAX);
    assert_eq!(
        text("2147483648").unwrap_err().message(),
        "file descriptor is outside the supported range: out of range integral type conversion attempted"
    );
    assert_eq!(
        text("9223372036854775808").unwrap_err().message(),
        "'9223372036854775808' is not a file descriptor number: number too large to fit in target type"
    );
    assert_eq!(
        text("-9223372036854775809").unwrap_err().message(),
        "'-9223372036854775809' is not a file descriptor number: number too small to fit in target type"
    );
    assert_eq!(
        text("-").unwrap_err().message(),
        "'-' is not a file descriptor number: invalid digit found in string"
    );
}

#[test]
fn numbers_are_read_as_the_standard_library_reads_them() {
    for text in [
        "", "+", "-", "+-1", "--1", "0", "-0", "+0", "00", "1 ", " 1", "1_0", "12a", "a12",
        "9223372036854775807", "9223372036854775808", "-9223372036854775808",
        "-9223372036854775809", "99999999999999999999999999", "99999999999999999999999999x",
        "-99999999999999999999999999", "٣",
    ] {
        let expected = text.parse::<i64>();
        let read = no_clone::text::parse_number(text);
        match (expected, read) {
            (Ok(left), Ok(right)) => assert_eq!(left, right, "{text}"),
            (Err(left), Err(right)) => assert_eq!(left.to_string(), right.message(), "{text}"),
            (left, right) => panic!("{text}: {left:?} and {right:?}"),
        }
    }
}

#[test]
fn copies_of_manifests_are_equal() {
    let manifest = one_profile("p", "s", binding(Transport::Env, Some(Target::Text("A".to_string()))));
    let copy = manifest.clone();
    assert_eq!(format!("{manifest:?}"), format!("{copy:?}"));
}
