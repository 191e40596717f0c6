use no_clone::broker::{Request, RunOutcome, RunResult};
use no_clone::cli::{
    begin_run, check_bundle_exists, check_foreground, check_new_profile, check_no_vault,
    check_profile_names, check_rotation, check_value, check_vault_exists, direct_manifest,
    exported_line, finish_authorized, imported_line, locked_line, manifest_source, profile_command, profile_table,
    rendered_line, rotation_warning, secret_command, secret_table, status_table, status_table_at,
    unlocked_line, value_source, verification_report, CommandStep, Destination, FirstAnswer,
    ManifestSource, ProfileCommand, SecretCommand, ValueSource, VERIFICATION_ERROR_CODE,
};
use no_clone::error::{Error, Fault};
use no_clone::fingerprint::VerificationStatus;
use no_clone::gui;
use no_clone::manifest::{Manifest, Transport};
use no_clone::render::RenderFormat;
use no_clone::secret::SecretBytes;
use no_clone::session::ProfileStatus;
use no_clone::vault::{
    check_confirmation, check_password, export_profile, fingerprint_key, import_profile,
    profile_deleted, profile_found, rotation_recorded, secret_deleted, secret_found, ProfileSummary,
    SecretSummary, VaultSecret, VaultWrite,
};

fn words(list: &[&str]) -> Vec<String> {
    list.iter().map(|word| word.to_string()).collect()
}

fn shown<T: std::fmt::Debug>(steps: Vec<T>) -> Vec<String> {
    steps.into_iter().map(|step| format!("{step:?}")).collect()
}

#[test]
fn profile_commands_become_steps() {
    let create = |name: &str, ttl_seconds: i64| {
        profile_command(ProfileCommand::Create { name: name.to_string(), ttl_seconds })
    };
    let steps = create("p", 1800).unwrap();
    assert!(matches!(steps[0], CommandStep::OpenVault));
    assert!(matches!(&steps[1], CommandStep::CreateProfile { name, ttl_seconds: 1800 } if name == "p"));
    assert!(matches!(&steps[2], CommandStep::Say { text } if text == "Created profile 'p'."));
    assert_eq!(steps.len(), 3);
    assert_eq!(create("", 0).unwrap_err().message(), "profile name cannot be empty");
    assert_eq!(create("p", 0).unwrap_err().message(), "profile TTL must be greater than zero");

    assert_eq!(
        shown(profile_command(ProfileCommand::List).unwrap()),
        words(&["OpenVault", "ShowProfiles"])
    );
    assert_eq!(
        shown(profile_command(ProfileCommand::Delete { name: "p".to_string() }).unwrap()),
        words(&[
            "OpenVault",
            "DeleteProfile { name: \"p\" }",
            "Say { text: \"Deleted profile 'p'.\" }"
        ])
    );
    assert!(profile_command(ProfileCommand::Export { name: ".".to_string() }).is_err());
    assert_eq!(
        shown(profile_command(ProfileCommand::Export { name: "p".to_string() }).unwrap()),
        words(&["OpenVault", "ExportProfile { name: \"p\" }"])
    );
    assert_eq!(
        shown(profile_command(ProfileCommand::Import { as_name: Some("q".to_string()) }).unwrap()),
        words(&["ImportProfile { as_name: Some(\"q\") }"])
    );
}

#[test]
fn rendering_needs_a_destination() {
    let render = |to_file: bool, to_stdout: bool| {
        profile_command(ProfileCommand::Render {
            name: "p".to_string(),
            format: RenderFormat::Json,
            to_file,
            to_stdout,
        })
    };
    assert_eq!(
        render(false, false).unwrap_err().message(),
        "choose either --output PATH or --stdout"
    );
    assert!(matches!(
        render(true, false).unwrap()[1],
        CommandStep::RenderProfile { destination: Destination::File, .. }
    ));
    assert!(matches!(
        render(false, true).unwrap()[1],
        CommandStep::RenderProfile { destination: Destination::Stdout, .. }
    ));
}

#[test]
fn secret_commands_become_steps() {
    let store = |profile: &str, name: &str, prompt: bool, from_file: bool| {
        secret_command(SecretCommand::Store {
            profile: profile.to_string(),
            name: name.to_string(),
            prompt,
            from_file,
        })
    };
    assert_eq!(
        shown(store("p", "s", true, false).unwrap()),
        words(&[
            "ReadValue { source: Prompt, label: \"Value for p/s\" }",
            "OpenVault",
            "StoreSecret { profile: \"p\", name: \"s\" }",
            "Say { text: \"Stored secret 'p/s'.\" }"
        ])
    );
    assert_eq!(
        store("p", "s", false, false).unwrap_err().message(),
        "provide either --prompt or --from-file"
    );
    assert_eq!(store("", "", false, false).unwrap_err().message(), "profile name cannot be empty");
    assert_eq!(store("p", "", false, false).unwrap_err().message(), "secret name cannot be empty");

    let profile = || "p".to_string();
    let name = || "s".to_string();
    assert_eq!(
        shown(secret_command(SecretCommand::List { profile: profile() }).unwrap()),
        words(&["OpenVault", "ShowSecrets { profile: \"p\" }"])
    );
    assert_eq!(
        shown(secret_command(SecretCommand::Delete { profile: profile(), name: name() }).unwrap()),
        words(&[
            "OpenVault",
            "DeleteSecret { profile: \"p\", name: \"s\" }",
            "Say { text: \"Deleted secret 'p/s'.\" }"
        ])
    );
    assert_eq!(
        shown(secret_command(SecretCommand::Print { profile: profile(), name: name() }).unwrap()),
        words(&["OpenVault", "PrintSecret { profile: \"p\", name: \"s\" }"])
    );
    assert_eq!(
        shown(
            secret_command(SecretCommand::Fingerprint {
                profile: profile(),
                name: name(),
                prompt: false,
                from_file: true,
            })
            .unwrap()
        ),
        words(&[
            "ReadValue { source: File, label: \"Expected value for p/s\" }",
            "OpenVault",
            "PrintFingerprint { profile: \"p\", name: \"s\" }"
        ])
    );
    assert_eq!(
        shown(
            secret_command(SecretCommand::Verify {
                profile: profile(),
                name: name(),
                fingerprint: "t".to_string(),
            })
            .unwrap()
        ),
        words(&["VerifyFingerprint { profile: \"p\", name: \"s\", fingerprint: \"t\" }"])
    );
}

#[test]
fn values_come_from_one_source() {
    assert_eq!(value_source(true, false).unwrap(), ValueSource::Prompt);
    assert_eq!(value_source(false, true).unwrap(), ValueSource::File);
    assert!(value_source(false, false).is_err());
    assert!(check_value("x").is_ok());
    assert_eq!(check_value("").unwrap_err().message(), "secret value cannot be empty");
}

#[test]
fn tables_are_printed() {
    let profile = |name: &str, ttl_seconds: i64, secret_count: i64| ProfileSummary {
        name: name.to_string(),
        ttl_seconds,
        secret_count,
    };
    assert_eq!(profile_table(&Vec::new()), "No profiles found.\n");
    assert_eq!(
        profile_table(&vec![profile("a", 1800, 2), profile("b", -5, 0)]),
        "PROFILE\tSECRETS\tTTL_SECONDS\na\t2\t1800\nb\t0\t-5\n"
    );
    assert_eq!(secret_table("p", &Vec::new()), "No secrets found in profile 'p'.\n");
    assert_eq!(
        secret_table("p", &vec![SecretSummary { name: "s".to_string(), byte_len: 12 }]),
        "PROFILE\tSECRET\tBYTES\np\ts\t12\n"
    );
    let status = |name: &str, expires_at: i64, zero_trust: bool| ProfileStatus {
        name: name.to_string(),
        expires_at,
        zero_trust,
    };
    let report = status_table(&Vec::new());
    assert_eq!(report.table, "No profiles are unlocked.\n");
    assert!(report.failure.is_none());
    assert_eq!(
        status_table_at(
            &vec![status("a", 100, false), status("b", 100, true)],
            &vec![40, 41]
        ),
        "PROFILE\tSTATUS\tAUTH\tEXPIRES\na\tunlocked\tstandard\t1m 00s\nb\tunlocked\tzero-trust\t59s\n"
    );
    assert_eq!(
        status_table_at(&vec![status("a", 100, false), status("b", 100, true)], &vec![40]),
        "PROFILE\tSTATUS\tAUTH\tEXPIRES\na\tunlocked\tstandard\t1m 00s\n"
    );
    assert_eq!(
        status_table_at(&vec![status("a", 100, false)], &Vec::new()),
        "PROFILE\tSTATUS\tAUTH\tEXPIRES\n"
    );
    let report = status_table(&vec![status("a", i64::MIN, false)]);
    assert!(report.failure.is_none());
    assert_eq!(report.table, "PROFILE\tSTATUS\tAUTH\tEXPIRES\na\tunlocked\tstandard\t-8s\n");
}

#[test]
fn lines_are_worded() {
    assert_eq!(unlocked_line(&words(&["a"]), false), "Unlocked profile: a.");
    assert_eq!(unlocked_line(&words(&["a", "b"]), true), "Unlocked zero-trust profiles: a, b.");
    assert_eq!(locked_line(&Vec::new()), "Locked all profiles.");
    assert_eq!(locked_line(&words(&["a", "b"])), "Locked profiles: a, b.");
    assert_eq!(rendered_line("p", "/x/.env"), "Rendered profile 'p' to /x/.env.");
    assert_eq!(exported_line("p", "/x"), "Exported encrypted profile 'p' to /x.");
    assert_eq!(imported_line("p"), "Imported encrypted profile as 'p'.");
}

#[test]
fn profile_names_are_checked_in_order() {
    assert!(check_profile_names(&words(&["a", "b"])).is_ok());
    assert!(check_profile_names(&Vec::new()).is_ok());
    assert_eq!(
        check_profile_names(&words(&["a", "..", ""])).unwrap_err().message(),
        "invalid profile name"
    );
}

#[test]
fn direct_bindings_become_a_manifest() {
    let manifest =
        direct_manifest("p".to_string(), &words(&["b=fd:3", "a=env:A"])).unwrap();
    manifest.validate().unwrap();
    assert_eq!(manifest.version, 1);
    assert_eq!(manifest.profiles.len(), 1);
    let secrets = &manifest.profiles.get("p").unwrap().secrets;
    assert_eq!(secrets.len(), 2);
    assert_eq!(secrets.name_at(0), "a");
    assert_eq!(secrets.get("b").unwrap().transport, Transport::Fd);
    let message = |profile: &str, list: &[&str]| {
        direct_manifest(profile.to_string(), &words(list)).unwrap_err().message()
    };
    assert_eq!(message("p", &["a=stdin", "a=env:A"]), "secret 'p/a' is bound more than once");
    assert_eq!(message("..", &["bad"]), "invalid profile name");
    assert_eq!(message("p", &["a=stdin", "bad"]), "invalid binding 'bad'; expected SECRET=TRANSPORT[:TARGET]");
}

#[test]
fn a_run_takes_a_file_or_bindings() {
    let source = |file: bool, profile: Option<&str>, list: &[&str]| {
        manifest_source(file, profile.map(|name| name.to_string()), &words(list))
    };
    assert!(matches!(source(true, None, &[]).unwrap(), ManifestSource::File));
    assert!(matches!(source(false, Some("p"), &["a=stdin"]).unwrap(), ManifestSource::Direct(_)));
    let combined = "--manifest cannot be combined with a profile or --bind";
    assert_eq!(source(true, Some("p"), &[]).unwrap_err().message(), combined);
    assert_eq!(source(true, None, &["a=stdin"]).unwrap_err().message(), combined);
    let missing = "provide --manifest, or a profile together with at least one --bind";
    assert_eq!(source(false, Some("p"), &[]).unwrap_err().message(), missing);
    assert_eq!(source(false, None, &["a=stdin"]).unwrap_err().message(), missing);
}

fn bound_manifest() -> Manifest {
    direct_manifest("p".to_string(), &words(&["a=env:A", "b=fd:3"])).unwrap()
}

fn run_parts(request: Request) -> (String, Vec<String>, String, Option<String>) {
    match request {
        Request::Run { manifest, command, cwd, password } => {
            (format!("{manifest:?}"), command, cwd, password)
        }
        other => panic!("unexpected request: {other:?}"),
    }
}

#[test]
fn a_run_is_asked_for_at_most_twice() {
    let command = || words(&["./deploy.sh", "-v"]);
    let asks = || RunOutcome::PasswordRequired { profiles: words(&["a", "b"]) };
    let done = |code: i32| {
        RunOutcome::Completed(RunResult { code, stdout: "o".to_string(), stderr: String::new() })
    };
    let said = format!("{:?}", bound_manifest());

    let (pending, request) = begin_run(bound_manifest(), command(), "/w".to_string()).unwrap();
    assert_eq!(run_parts(request), (said.clone(), command(), "/w".to_string(), None));
    assert!(matches!(
        pending.answer(done(4)),
        FirstAnswer::Finished(RunResult { code: 4, .. })
    ));

    let (pending, _) = begin_run(bound_manifest(), command(), "/w".to_string()).unwrap();
    match pending.answer(asks()) {
        FirstAnswer::Ask { notice, run } => {
            assert_eq!(
                notice,
                "Zero-trust authorization required for profiles: a, b.\nCommand: ./deploy.sh -v\n"
            );
            assert_eq!(
                run_parts(run.authorize("pw".to_string())),
                (said, command(), "/w".to_string(), Some("pw".to_string()))
            );
        }
        other => panic!("unexpected answer: {other:?}"),
    }
    assert_eq!(finish_authorized(done(0)).unwrap().stdout, "o");
    assert_eq!(
        finish_authorized(asks()).unwrap_err().message(),
        "run authorization was not accepted"
    );
}

#[test]
fn runs_are_checked_before_they_begin() {
    let message = |manifest: Manifest, command: &[&str]| {
        begin_run(manifest, words(command), String::new()).unwrap_err().message()
    };
    assert_eq!(message(bound_manifest(), &[]), "a command is required");
    let mut later = bound_manifest();
    later.version = 3;
    assert_eq!(message(later, &["c"]), "unsupported manifest version 3; expected 1");
}

#[test]
fn comparisons_are_reported() {
    assert_eq!(verification_report(VerificationStatus::Match), ("match", 0));
    assert_eq!(verification_report(VerificationStatus::Mismatch), ("mismatch", 1));
    assert_eq!(verification_report(VerificationStatus::Stale), ("stale", 3));
    assert_eq!(verification_report(VerificationStatus::Missing), ("missing", 4));
    assert_eq!(VERIFICATION_ERROR_CODE, 2);
}

#[test]
fn rotation_is_confirmed_by_its_word() {
    assert!(rotation_warning().contains("rotate"));
    for line in ["rotate", "rotate\n", "rotate\r\n"] {
        assert!(check_rotation(line).is_ok());
    }
    for line in ["", "\n", "Rotate", "rotate ", " rotate", "yes\n", "rotate\n\n"] {
        assert_eq!(
            check_rotation(line).unwrap_err().message(),
            "fingerprint key rotation was cancelled"
        );
    }
}

#[test]
fn files_must_be_there_or_not() {
    assert!(check_vault_exists(true).is_ok());
    assert_eq!(
        check_vault_exists(false).unwrap_err().message(),
        "vault not initialized; run `no-clone init` first"
    );
    assert!(check_no_vault(false, "/v").is_ok());
    assert_eq!(check_no_vault(true, "/v").unwrap_err().message(), "vault already exists at /v");
    assert!(check_bundle_exists(true, "/b").is_ok());
    assert_eq!(
        check_bundle_exists(false, "/b").unwrap_err().message(),
        "bundle does not exist: /b"
    );
    assert!(check_foreground(true).is_ok());
    assert_eq!(
        check_foreground(false).unwrap_err().message(),
        "the broker command is for internal use"
    );
}

#[test]
fn new_profiles_are_checked() {
    assert!(check_new_profile("p", 1).is_ok());
    assert!(check_new_profile("p", -1).is_err());
}

#[test]
fn passwords_are_checked() {
    assert!(check_password("x").is_ok());
    assert_eq!(check_password("").unwrap_err().message(), "vault password cannot be empty");
    assert!(check_confirmation("a", "a").is_ok());
    assert_eq!(check_confirmation("a", "b").unwrap_err().message(), "passwords do not match");
}

#[test]
fn vault_answers_are_read() {
    assert_eq!(fingerprint_key(None).unwrap_err().message(), "vault fingerprint key is missing");
    assert_eq!(
        fingerprint_key(Some((vec![1; 32], vec![1; 15]))).unwrap_err().message(),
        "vault fingerprint key has invalid metadata"
    );
    assert_eq!(fingerprint_key(Some((vec![1; 32], vec![2; 16]))).unwrap().key_id(), &[2; 16]);
    assert!(rotation_recorded(1).is_ok());
    assert_eq!(rotation_recorded(0).unwrap_err().message(), "vault fingerprint key is missing");
    assert!(profile_deleted("p", 1).is_ok());
    assert_eq!(profile_deleted("p", 0).unwrap_err().message(), "profile 'p' does not exist");
    assert!(secret_deleted("p", "s", 1).is_ok());
    assert_eq!(secret_deleted("p", "s", 0).unwrap_err().message(), "secret 'p/s' does not exist");
    assert_eq!(profile_found("p", Some(3)).unwrap(), 3);
    assert!(profile_found::<u8>("p", None).is_err());
    assert_eq!(secret_found("p", "s", Some(3)).unwrap(), 3);
    assert!(secret_found::<u8>("p", "s", None).is_err());
}

#[test]
fn bundles_hold_one_profile() {
    let profile = |name: &str| ProfileSummary {
        name: name.to_string(),
        ttl_seconds: 60,
        secret_count: 0,
    };
    let names = import_profile(&vec![profile("a")], None).unwrap();
    assert_eq!((names.source.as_str(), names.target.as_str()), ("a", "a"));
    let names = import_profile(&vec![profile("a")], Some("b".to_string())).unwrap();
    assert_eq!((names.source.as_str(), names.target.as_str()), ("a", "b"));
    let message = |list: Vec<ProfileSummary>, as_name: Option<String>| match import_profile(
        &list, as_name,
    ) {
        Ok(_) => panic!("expected an error"),
        Err(error) => error.message(),
    };
    let shape = "profile bundle must contain exactly one profile";
    assert_eq!(message(Vec::new(), None), shape);
    assert_eq!(message(vec![profile("a"), profile("b")], None), shape);
    assert_eq!(message(vec![profile("a")], Some(String::new())), "profile name cannot be empty");
}

#[test]
fn profiles_are_written_secret_by_secret() {
    let secrets = vec![VaultSecret {
        name: "s".to_string(),
        value: SecretBytes::new(vec![0, 255]),
    }];
    let writes = export_profile("p", 60, &secrets);
    assert_eq!(writes.len(), 2);
    assert!(matches!(&writes[0], VaultWrite::CreateProfile { name, ttl_seconds: 60 } if name == "p"));
    assert!(matches!(
        &writes[1],
        VaultWrite::PutSecret { profile, name, value }
            if profile == "p" && name == "s" && value.expose() == [0, 255]
    ));
}

#[test]
fn an_exported_profile_is_imported_unchanged() {
    let secrets = vec![
        VaultSecret { name: "a".to_string(), value: SecretBytes::new(vec![1]) },
        VaultSecret { name: "b".to_string(), value: SecretBytes::new(vec![0, 255]) },
    ];
    let exported = export_profile("p", 60, &secrets);
    assert!(matches!(&exported[0], VaultWrite::CreateProfile { name, .. } if name == "p"));
    let listed = vec![ProfileSummary { name: "p".to_string(), ttl_seconds: 60, secret_count: 2 }];
    let import = import_profile(&listed, Some("q".to_string())).unwrap();
    assert_eq!(import.source, "p");
    let writes = import.writes(60, &secrets);
    assert_eq!(writes.len(), 3);
    assert!(matches!(&writes[0], VaultWrite::CreateProfile { name, ttl_seconds: 60 } if name == "q"));
    for (write, secret) in writes[1..].iter().zip(&secrets) {
        assert!(matches!(
            write,
            VaultWrite::PutSecret { profile, name, value }
                if profile == "q" && *name == secret.name
                    && value.expose() == secret.value.expose()
        ));
    }
}

#[test]
fn graphical_requests_become_operations() {
    let text = |value: &str| value.to_string();
    assert_eq!(
        shown(gui::handle(gui::Request::CreateProfile {
            name: text("p"),
            ttl_seconds: 5,
            password: text("w"),
        })),
        words(&[
            "OpenVault { password: \"w\" }",
            "CreateProfile { name: \"p\", ttl_seconds: 5 }",
            "AnswerSnapshot { password: Some(\"w\") }"
        ])
    );
    assert_eq!(
        shown(gui::handle(gui::Request::CreateProfile {
            name: text("p"),
            ttl_seconds: 0,
            password: text("w"),
        })),
        words(&["OpenVault { password: \"w\" }", "Refuse { error: ProfileLifetime }"])
    );
    assert_eq!(
        shown(gui::handle(gui::Request::DeleteProfile { name: text("p"), password: text("w") })),
        words(&[
            "LockProfiles { profiles: [\"p\"] }",
            "OpenVault { password: \"w\" }",
            "DeleteProfile { name: \"p\" }",
            "AnswerSnapshot { password: Some(\"w\") }"
        ])
    );
    assert_eq!(
        shown(gui::handle(gui::Request::SetSecret {
            profile: text("p"),
            name: text("s"),
            value: text(""),
            password: text("w"),
        })),
        words(&["Refuse { error: ValueEmpty }"])
    );
    assert_eq!(
        shown(gui::handle(gui::Request::SetSecret {
            profile: text("p"),
            name: text("s"),
            value: text("v"),
            password: text("w"),
        })),
        words(&[
            "OpenVault { password: \"w\" }",
            "PutSecret { profile: \"p\", name: \"s\", value: \"v\" }",
            "AnswerSecrets { profile: \"p\" }"
        ])
    );
    assert_eq!(
        shown(gui::handle(gui::Request::DeleteSecret {
            profile: text("p"),
            name: text("s"),
            password: text("w"),
        })),
        words(&[
            "OpenVault { password: \"w\" }",
            "DeleteSecret { profile: \"p\", name: \"s\" }",
            "AnswerSecrets { profile: \"p\" }"
        ])
    );
    assert_eq!(
        shown(gui::handle(gui::Request::LockVault)),
        words(&["LockProfiles { profiles: [] }", "AnswerSnapshot { password: None }"])
    );
    assert_eq!(
        shown(gui::handle(gui::Request::LockProfiles { profiles: words(&["a"]) })),
        words(&["LockProfiles { profiles: [\"a\"] }", "AnswerSnapshot { password: None }"])
    );
    assert_eq!(
        shown(gui::handle(gui::Request::InitializeVault { password: text("w") })),
        words(&["CreateVault { password: \"w\" }", "AnswerSnapshot { password: Some(\"w\") }"])
    );
    assert_eq!(
        shown(gui::handle(gui::Request::UnlockVault { password: text("w") })),
        words(&["OpenVault { password: \"w\" }", "AnswerSnapshot { password: Some(\"w\") }"])
    );
    assert_eq!(
        shown(gui::handle(gui::Request::ListSecrets { profile: text("p"), password: text("w") })),
        words(&["OpenVault { password: \"w\" }", "AnswerSecrets { profile: \"p\" }"])
    );
    assert_eq!(
        shown(gui::handle(gui::Request::Snapshot { password: None })),
        words(&["AnswerSnapshot { password: None }"])
    );
    let unlock = |profiles: &[&str], ttl_seconds: Option<i64>| {
        shown(gui::handle(gui::Request::UnlockProfiles {
            profiles: words(profiles),
            ttl_seconds,
            zero_trust: true,
            password: text("w"),
        }))
    };
    assert_eq!(unlock(&[], None), words(&["Refuse { error: NothingToUnlock }"]));
    assert_eq!(unlock(&["a"], Some(0)), words(&["Refuse { error: UnlockLifetime }"]));
    assert_eq!(
        unlock(&["a"], Some(9)),
        words(&[
            "UnlockProfiles { profiles: [\"a\"], ttl_seconds: Some(9), zero_trust: true, password: \"w\" }",
            "AnswerSnapshot { password: Some(\"w\") }"
        ])
    );
}

#[test]
fn snapshots_list_profiles_only_with_the_password() {
    let listed = || {
        vec![ProfileSummary { name: "p".to_string(), ttl_seconds: 1, secret_count: 0 }]
    };
    let full = gui::snapshot(Some("w"), true, "/v".to_string(), listed(), Vec::new());
    assert!(full.vault_exists && full.session_unlocked);
    assert_eq!(full.vault_path, "/v");
    assert_eq!(full.profiles.len(), 1);
    assert!(full.active_profiles.is_empty());
    let locked = gui::snapshot(None, true, "/v".to_string(), listed(), Vec::new());
    assert!(!locked.session_unlocked && locked.profiles.is_empty());
    let absent = gui::snapshot(Some("w"), false, "/v".to_string(), listed(), Vec::new());
    assert!(!absent.vault_exists && absent.session_unlocked && absent.profiles.is_empty());
    assert!(gui::lists_profiles(Some("w"), true));
    assert!(!gui::lists_profiles(None, true));
}

#[test]
fn graphical_vault_checks() {
    assert!(gui::check_open(true).is_ok());
    assert_eq!(gui::check_open(false).unwrap_err().message(), "vault is not initialized");
    assert!(gui::check_create(false).is_ok());
    assert_eq!(gui::check_create(true).unwrap_err().message(), "vault already exists");
}

#[test]
fn transport_errors_are_worded() {
    let cause = || "x".to_string();
    let message = |error: Error| error.message();
    assert_eq!(message(Fault::RequestInvalid { cause: cause() }), "invalid broker request: x");
    assert_eq!(
        message(Fault::RequestUnreadable { cause: cause() }),
        "failed to read broker request: x"
    );
    assert_eq!(message(Fault::GuiRequestInvalid { cause: cause() }), "invalid GUI request: x");
    assert_eq!(
        message(Fault::GuiRequestUnreadable { cause: cause() }),
        "failed to read GUI request: x"
    );
    assert_eq!(message(Fault::BrokerNotReady), "broker did not become ready");
    assert!(matches!(
        gui::refusal(&Fault::ValueEmpty),
        gui::Response::Error { message } if message == "secret value cannot be empty"
    ));
}

#[test]
fn secrets_are_kept_and_hidden() {
    let secret = SecretBytes::new(vec![1, 2, 3]);
    assert_eq!(secret.expose(), &[1, 2, 3]);
    assert_eq!(secret.duplicate().expose(), &[1, 2, 3]);
    assert!(!format!("{secret:?}").contains('1'));
}
