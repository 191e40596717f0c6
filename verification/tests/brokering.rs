use no_clone::broker::{
    after_failed_connection, authorize_peer, authorize_run, broker_name, broker_name_for, dispatch,
    dispatch_at, expect_ok, finish_rotation, finish_run, finish_unlock, lock, run, run_outcome,
    run_result, status, unlock, verification, Loaded, ReplyFault, Request, Response, RunOutcome,
    RunResult, StartupAction, Step,
};
use no_clone::delivery::{descriptor_mappings, plan_deliveries, source_base, DeliveryPlan};
use no_clone::error::Fault;
use no_clone::fingerprint::{token_for, FingerprintKey, VerificationStatus};
use no_clone::manifest::{Binding, Manifest, ProfileManifest, Target, Transport};
use no_clone::name_map::NameMap;
use no_clone::secret::SecretBytes;
use no_clone::session::{Delivery, LoadedProfile, SessionState};
use no_clone::vault::VaultSecret;

fn key(byte: u8) -> FingerprintKey {
    FingerprintKey::from_parts(vec![byte; 32], vec![byte; 16]).unwrap()
}

fn loaded(name: &str, ttl_seconds: i64, secrets: &[(&str, &[u8])]) -> LoadedProfile {
    LoadedProfile {
        name: name.to_string(),
        ttl_seconds,
        secrets: secrets
            .iter()
            .map(|(name, value)| VaultSecret {
                name: name.to_string(),
                value: SecretBytes::new(value.to_vec()),
            })
            .collect(),
    }
}

fn env(name: &str) -> Binding {
    Binding { transport: Transport::Env, target: Some(Target::Text(name.to_string())) }
}

fn fd(number: i64) -> Binding {
    Binding { transport: Transport::Fd, target: Some(Target::Number(number)) }
}

fn stdin() -> Binding {
    Binding { transport: Transport::Stdin, target: None }
}

fn manifest(bindings: Vec<(&str, &str, Binding)>) -> Manifest {
    let mut names: Vec<&str> = bindings.iter().map(|(profile, _, _)| *profile).collect();
    names.sort();
    names.dedup();
    let mut profiles = NameMap::new();
    for name in names {
        let mut secrets = NameMap::new();
        for (profile, secret, binding) in &bindings {
            if *profile == name {
                secrets.insert(secret.to_string(), binding.clone());
            }
        }
        profiles.insert(name.to_string(), ProfileManifest { secrets });
    }
    Manifest { version: 1, profiles }
}

fn words(list: &[&str]) -> Vec<String> {
    list.iter().map(|word| word.to_string()).collect()
}

fn session(now: i64, profiles: Vec<LoadedProfile>, zero_trust: bool) -> SessionState {
    let mut state = SessionState::new();
    let response = finish_unlock(
        &mut state,
        Ok(Loaded { now, profiles, key: key(7) }),
        None,
        zero_trust,
    );
    assert!(matches!(response, Response::Done));
    state
}

fn run_request(manifest: Manifest, password: Option<&str>) -> Request {
    run(
        manifest,
        words(&["/bin/true"]),
        "/tmp".to_string(),
        password.map(|text| text.to_string()),
    )
    .unwrap()
}

fn reply(step: Step) -> Response {
    match step {
        Step::Reply(response) => response,
        _ => panic!("expected a reply"),
    }
}

fn error_message(step: Step) -> String {
    match reply(step) {
        Response::Error { message } => message,
        other => panic!("unexpected broker response: {other:?}"),
    }
}

fn planned(step: Step) -> DeliveryPlan {
    match step {
        Step::Execute { plan, .. } => plan,
        Step::Reply(response) => panic!("unexpected broker response: {response:?}"),
        _ => panic!("expected a command to run"),
    }
}

fn status_names(state: &mut SessionState, now: i64) -> Vec<(String, i64, bool)> {
    state
        .status_profiles(now)
        .into_iter()
        .map(|profile| (profile.name, profile.expires_at, profile.zero_trust))
        .collect()
}

#[test]
fn unlock_run_and_lock_lifecycle() {
    let mut state = SessionState::new();
    let step = dispatch(
        &mut state,
        Request::Unlock {
            profiles: vec![String::from("production")],
            ttl_seconds: None,
            zero_trust: true,
            password: String::from("test-password"),
        },
    );
    let (ttl_seconds, zero_trust) = match step {
        Step::Load { profiles, ttl_seconds, zero_trust, password } => {
            assert_eq!(profiles, vec![String::from("production")]);
            assert_eq!(password, "test-password");
            (ttl_seconds, zero_trust)
        }
        _ => panic!("expected the vault to be read"),
    };
    let now = no_clone::clock::unix_time().unwrap();
    let unlock_response = finish_unlock(
        &mut state,
        Ok(Loaded {
            now,
            profiles: vec![loaded("production", 300, &[("token", b"secret-value")])],
            key: key(7),
        }),
        ttl_seconds,
        zero_trust,
    );
    assert!(matches!(unlock_response, Response::Done));

    let manifest = manifest(vec![("production", "token", env("APP_TOKEN"))]);
    let authorization_response = reply(dispatch(
        &mut state,
        Request::Run {
            manifest: manifest.clone(),
            command: vec![String::from("/bin/true")],
            cwd: String::from("/tmp"),
            password: None,
        },
    ));
    assert!(matches!(
        authorization_response,
        Response::PasswordRequired { profiles }
            if profiles == vec![String::from("production")]
    ));

    let step = dispatch(
        &mut state,
        Request::Run {
            manifest,
            command: vec![
                String::from("/bin/sh"),
                String::from("-c"),
                String::from("printf '%s' \"$APP_TOKEN\""),
            ],
            cwd: String::from("/tmp"),
            password: Some(String::from("test-password")),
        },
    );
    let step = match step {
        Step::Authorize { manifest, command, cwd, password } => {
            assert_eq!(password, "test-password");
            authorize_run(&state, manifest, command, cwd, Ok(()))
        }
        _ => panic!("expected the password to be checked"),
    };
    match step {
        Step::Execute { command, cwd, plan } => {
            assert_eq!(command[0], "/bin/sh");
            assert_eq!(command[2], "printf '%s' \"$APP_TOKEN\"");
            assert_eq!(cwd, "/tmp");
            assert_eq!(
                plan.variables,
                vec![(String::from("APP_TOKEN"), String::from("secret-value"))]
            );
        }
        _ => panic!("expected a command to run"),
    }
    match finish_run(Ok(run_result(Some(0), b"secret-value", b""))) {
        Response::RunResult { code, stdout, .. } => {
            assert_eq!(code, 0);
            assert_eq!(stdout, "secret-value");
        }
        response => panic!("unexpected broker response: {response:?}"),
    }

    assert!(matches!(
        reply(dispatch(&mut state, Request::Lock { profiles: vec![String::from("production")] })),
        Response::Done
    ));
    assert!(state.status_profiles(now).is_empty());
}

#[test]
fn profiles_expire_independently() {
    let mut state = session(
        1000,
        vec![loaded("short", 10, &[]), loaded("long", 20, &[])],
        false,
    );
    assert_eq!(
        status_names(&mut state, 1009),
        vec![("long".to_string(), 1020, false), ("short".to_string(), 1010, false)]
    );
    assert_eq!(status_names(&mut state, 1010), vec![("long".to_string(), 1020, false)]);
    assert!(status_names(&mut state, 1020).is_empty());
}

#[test]
fn lifetimes_can_be_overridden_and_do_not_overflow() {
    let mut state = SessionState::new();
    state.unlock_profiles(1000, &vec![loaded("a", 10, &[])], Some(5), false, key(7));
    assert_eq!(status_names(&mut state, 1000), vec![("a".to_string(), 1005, false)]);
    state.unlock_profiles(1000, &vec![loaded("a", i64::MAX, &[])], None, false, key(7));
    assert_eq!(status_names(&mut state, 1000), vec![("a".to_string(), i64::MAX, false)]);
}

#[test]
fn zero_trust_outlasts_another_unlock_but_not_a_lock() {
    let mut state = session(1000, vec![loaded("a", 10, &[])], true);
    state.unlock_profiles(1001, &vec![loaded("a", 10, &[])], None, false, key(7));
    assert_eq!(status_names(&mut state, 1001), vec![("a".to_string(), 1011, true)]);
    state.lock_profiles(&words(&["a"]));
    state.unlock_profiles(1001, &vec![loaded("a", 10, &[])], None, false, key(7));
    assert_eq!(status_names(&mut state, 1001), vec![("a".to_string(), 1011, false)]);
    state.unlock_profiles(1002, &vec![loaded("a", 10, &[])], None, true, key(7));
    state.unlock_profiles(1012, &vec![loaded("a", 10, &[])], None, false, key(7));
    assert_eq!(status_names(&mut state, 1012), vec![("a".to_string(), 1022, false)]);
}

#[test]
fn locking_takes_out_what_is_named() {
    let three = || vec![loaded("a", 10, &[]), loaded("b", 10, &[]), loaded("c", 10, &[])];
    let mut state = session(0, three(), false);
    state.lock_profiles(&words(&["b", "x", "b"]));
    let left: Vec<String> = status_names(&mut state, 1).into_iter().map(|entry| entry.0).collect();
    assert_eq!(left, words(&["a", "c"]));
    state.lock_profiles(&Vec::new());
    assert!(status_names(&mut state, 1).is_empty());
}

#[test]
fn runs_need_unlocked_profiles() {
    let mut state = session(0, vec![loaded("a", 10, &[("x", b"1")])], false);
    let wanted = || manifest(vec![("a", "x", stdin()), ("b", "y", env("Y"))]);
    assert_eq!(
        error_message(dispatch_at(&mut state, Ok(1), run_request(wanted(), None))),
        "profile 'b' is locked or expired; run no-clone unlock b first"
    );
    assert_eq!(
        error_message(dispatch_at(&mut state, Ok(10), run_request(wanted(), Some("pw")))),
        "profile 'a' is locked or expired; run no-clone unlock a first"
    );
}

#[test]
fn runs_deliver_every_binding() {
    let mut state = session(
        0,
        vec![
            loaded("a", 10, &[("x", b"1"), ("y", &[0, 255])]),
            loaded("b", 10, &[("z", b"3")]),
        ],
        false,
    );
    let wanted = manifest(vec![("b", "z", stdin()), ("a", "y", fd(5)), ("a", "x", env("X"))]);
    let plan = planned(dispatch_at(&mut state, Ok(1), run_request(wanted, None)));
    assert_eq!(plan.stdin.as_ref().unwrap().expose(), b"3");
    assert_eq!(plan.variables, vec![("X".to_string(), "1".to_string())]);
    assert_eq!(plan.descriptors.len(), 1);
    assert_eq!(plan.descriptors[0].0, 5);
    assert_eq!(plan.descriptors[0].1.expose(), &[0, 255]);
}

#[test]
fn missing_secrets_are_reported() {
    let mut state = session(0, vec![loaded("a", 10, &[("x", b"1")])], false);
    let wanted = manifest(vec![("a", "nope", stdin())]);
    assert_eq!(
        error_message(dispatch_at(&mut state, Ok(1), run_request(wanted, None))),
        "secret 'a/nope' does not exist"
    );
}

#[test]
fn only_protected_profiles_are_named() {
    let mut state = session(0, vec![loaded("z", 10, &[("x", b"1")])], true);
    state.unlock_profiles(0, &vec![loaded("a", 10, &[("x", b"1")])], None, false, key(7));
    let wanted = manifest(vec![("a", "x", stdin()), ("z", "x", env("Z"))]);
    match reply(dispatch_at(&mut state, Ok(1), run_request(wanted, None))) {
        Response::PasswordRequired { profiles } => assert_eq!(profiles, words(&["z"])),
        other => panic!("unexpected broker response: {other:?}"),
    }
}

#[test]
fn rejected_passwords_refuse_runs() {
    let state = session(0, vec![loaded("a", 10, &[("x", b"1")])], true);
    let wanted = manifest(vec![("a", "x", stdin())]);
    assert_eq!(
        error_message(authorize_run(
            &state,
            wanted,
            words(&["c"]),
            String::new(),
            Err("could not unlock vault; check the password".to_string()),
        )),
        "vault password rejected: could not unlock vault; check the password"
    );
}

#[test]
fn an_unknown_time_refuses_requests() {
    let mut state = session(0, vec![loaded("a", 10, &[])], false);
    let said = "system clock is before Unix epoch: second time provided was later than self";
    assert_eq!(
        error_message(dispatch_at(&mut state, Err(Fault::ClockBeforeEpoch), Request::Status)),
        said
    );
    assert_eq!(status_names(&mut state, 1).len(), 1);
}

#[test]
fn status_requests_tell_of_profiles_in_order() {
    let mut state = session(0, vec![loaded("b", 10, &[]), loaded("a", 20, &[])], false);
    let profiles = status(reply(dispatch_at(&mut state, Ok(1), Request::Status))).unwrap();
    let names: Vec<String> = profiles.into_iter().map(|profile| profile.name).collect();
    assert_eq!(names, words(&["a", "b"]));
}

#[test]
fn failed_unlocks_and_rotations_change_nothing() {
    let mut state = session(0, vec![loaded("a", 10, &[("x", b"1")])], false);
    let token = token_for(&key(7), "a", "x", b"1");
    match finish_unlock(&mut state, Err("no".to_string()), None, true) {
        Response::Error { message } => assert_eq!(message, "no"),
        other => panic!("unexpected broker response: {other:?}"),
    }
    match finish_rotation(&mut state, Err("failed".to_string())) {
        Response::Error { message } => assert_eq!(message, "failed"),
        other => panic!("unexpected broker response: {other:?}"),
    }
    assert_eq!(status_names(&mut state, 1), vec![("a".to_string(), 10, false)]);
    assert_eq!(
        state.verify_fingerprint(1, "a", "x", &token).unwrap(),
        VerificationStatus::Match
    );
}

#[test]
fn verification_follows_its_precedence() {
    let mut state = session(0, vec![loaded("a", 10, &[("x", b"1")])], true);
    let token = token_for(&key(7), "a", "x", b"1");
    let other = token_for(&key(7), "a", "x", b"2");
    let absent = token_for(&key(7), "a", "later", b"1");
    let stale = token_for(&key(8), "a", "x", b"1");
    let mut ask = |profile: &str, secret: &str, fingerprint: &str| {
        reply(dispatch_at(
            &mut state,
            Ok(1),
            Request::VerifyFingerprint {
                profile: profile.to_string(),
                secret: secret.to_string(),
                fingerprint: fingerprint.to_string(),
            },
        ))
    };
    assert_eq!(verification(ask("a", "x", &token)).unwrap(), VerificationStatus::Match);
    assert_eq!(verification(ask("a", "x", &other)).unwrap(), VerificationStatus::Mismatch);
    assert_eq!(verification(ask("a", "x", &stale)).unwrap(), VerificationStatus::Stale);
    assert_eq!(verification(ask("a", "later", &absent)).unwrap(), VerificationStatus::Missing);
    assert_eq!(verification(ask("a", "later", &stale)).unwrap(), VerificationStatus::Missing);
    let message = |response: Response| match response {
        Response::Error { message } => message,
        other => panic!("unexpected broker response: {other:?}"),
    };
    assert_eq!(
        message(ask("b", "x", &token)),
        "profile 'b' is locked or expired; run no-clone unlock b first"
    );
    assert_eq!(message(ask("b", "x", "bad")), "invalid fingerprint token");
    assert_eq!(message(ask("..", "x", "bad")), "invalid profile name");
    assert_eq!(message(ask("a", "", "bad")), "secret name cannot be empty");
}

#[test]
fn rotation_makes_tokens_stale_and_keeps_profiles() {
    let mut state = session(0, vec![loaded("a", 10, &[("x", b"1")])], false);
    let token = token_for(&key(7), "a", "x", b"1");
    match dispatch_at(
        &mut state,
        Ok(1),
        Request::RotateFingerprintKey { password: "pw".to_string() },
    ) {
        Step::Rotate { password } => assert_eq!(password, "pw"),
        _ => panic!("expected a rotation"),
    }
    assert!(matches!(finish_rotation(&mut state, Ok(key(9))), Response::Done));
    assert_eq!(status_names(&mut state, 1), vec![("a".to_string(), 10, false)]);
    assert_eq!(
        state.verify_fingerprint(1, "a", "x", &token).unwrap(),
        VerificationStatus::Stale
    );
    let fresh = token_for(&key(9), "a", "x", b"1");
    assert_eq!(
        state.verify_fingerprint(1, "a", "x", &fresh).unwrap(),
        VerificationStatus::Match
    );
}

#[test]
fn the_key_goes_with_the_last_profile() {
    let mut state = session(0, vec![loaded("a", 10, &[("x", b"1")])], false);
    state.purge_expired(10);
    assert!(matches!(finish_rotation(&mut state, Ok(key(9))), Response::Done));
    assert!(format!("{state:?}").contains("key: None"));
}

#[test]
fn resetting_a_secret_makes_its_fingerprint_match() {
    let mut state = session(0, vec![loaded("a", 10, &[("x", b"old")])], false);
    let token = token_for(&key(7), "a", "x", b"new");
    assert_eq!(
        state.verify_fingerprint(1, "a", "x", &token).unwrap(),
        VerificationStatus::Mismatch
    );
    state.unlock_profiles(1, &vec![loaded("a", 10, &[("x", b"new")])], None, false, key(7));
    assert_eq!(
        state.verify_fingerprint(1, "a", "x", &token).unwrap(),
        VerificationStatus::Match
    );
}

fn delivery(binding: Binding, value: &[u8]) -> Delivery {
    Delivery { binding, value: SecretBytes::new(value.to_vec()) }
}

#[test]
fn conflicting_deliveries_are_refused() {
    let message = |list: Vec<Delivery>| plan_deliveries(&list).unwrap_err().message();
    assert_eq!(
        message(vec![delivery(stdin(), b"1"), delivery(stdin(), b"2")]),
        "a run may contain only one stdin binding"
    );
    assert_eq!(
        message(vec![delivery(env("A"), b"1"), delivery(env("A"), &[255])]),
        "environment target 'A' is used more than once"
    );
    assert_eq!(
        message(vec![delivery(env("A"), &[255])]),
        "secret for environment target 'A' is not UTF-8: invalid utf-8 sequence of 1 bytes from index 0"
    );
    assert_eq!(
        message(vec![delivery(fd(3), b"1"), delivery(fd(3), b"2")]),
        "file descriptor target 3 is used more than once"
    );
    let textual = Binding { transport: Transport::Fd, target: Some(Target::Text("3".to_string())) };
    assert_eq!(
        message(vec![delivery(fd(3), b"1"), delivery(textual, b"2")]),
        "file descriptor target 3 is used more than once"
    );
    assert_eq!(
        message(vec![delivery(Binding { transport: Transport::Env, target: None }, b"1")]),
        "environment binding is missing its target name"
    );
    assert_eq!(
        message(vec![delivery(Binding { transport: Transport::Fd, target: None }, b"1")]),
        "file descriptor binding is missing its target number"
    );
}

#[test]
fn pipes_are_numbered_above_all_targets() {
    let base = |numbers: &[i64]| {
        let list: Vec<Delivery> = numbers.iter().map(|number| delivery(fd(*number), b"")).collect();
        source_base(&plan_deliveries(&list).unwrap())
    };
    assert_eq!(base(&[]), 100);
    assert_eq!(base(&[3, 7]), 100);
    assert_eq!(base(&[99]), 100);
    assert_eq!(base(&[3, 250, 120]), 251);
    assert_eq!(base(&[i32::MAX as i64]), i32::MAX);
}

#[test]
fn pipes_are_paired_with_their_targets() {
    let plan = plan_deliveries(&vec![delivery(fd(5), b""), delivery(fd(3), b"")]).unwrap();
    assert_eq!(descriptor_mappings(&plan, &vec![100, 101]), vec![(5, 100), (3, 101)]);
}

#[test]
fn results_of_commands_are_told() {
    let result = run_result(None, "ü".as_bytes(), &[b'a', 255, b'b']);
    assert_eq!(result.code, 1);
    assert_eq!(result.stdout, "ü");
    assert_eq!(result.stderr, "a\u{fffd}b");
    assert_eq!(run_result(Some(7), b"", b"").code, 7);
    match finish_run(Err("failed to start target command".to_string())) {
        Response::Error { message } => assert_eq!(message, "failed to start target command"),
        other => panic!("unexpected broker response: {other:?}"),
    }
}

#[test]
fn client_requests_are_checked() {
    assert_eq!(
        unlock(Vec::new(), Some(0), false, String::new()).unwrap_err().message(),
        "provide at least one profile to unlock"
    );
    for ttl in [0, -1] {
        assert_eq!(
            unlock(words(&["a"]), Some(ttl), false, String::new()).unwrap_err().message(),
            "unlock TTL must be greater than zero"
        );
    }
    assert!(matches!(
        unlock(words(&["a"]), Some(1), true, "pw".to_string()).unwrap(),
        Request::Unlock { ttl_seconds: Some(1), zero_trust: true, .. }
    ));
    assert!(matches!(lock(Vec::new()), Request::Lock { profiles } if profiles.is_empty()));
    let valid = manifest(vec![("a", "x", stdin())]);
    assert_eq!(
        run(valid.clone(), Vec::new(), String::new(), None).unwrap_err().message(),
        "a command is required"
    );
    let invalid = manifest(vec![("a", "x", fd(1))]);
    assert_eq!(
        run(invalid, words(&["c"]), String::new(), None).unwrap_err().message(),
        "binding 'a/x' must use file descriptor 3 or higher"
    );
}

#[test]
fn answers_are_read() {
    assert!(expect_ok(Response::Done).is_ok());
    assert!(matches!(
        expect_ok(Response::Error { message: "x".to_string() }).unwrap_err(),
        ReplyFault::Reported { message } if message == "x"
    ));
    assert!(matches!(
        status(Response::Done).unwrap_err(),
        ReplyFault::Unexpected { response: Response::Done }
    ));
    let ran = Response::RunResult { code: 3, stdout: "o".to_string(), stderr: "e".to_string() };
    assert!(matches!(
        run_outcome(ran).unwrap(),
        RunOutcome::Completed(RunResult { code: 3, stdout, stderr }) if stdout == "o" && stderr == "e"
    ));
    assert!(matches!(
        run_outcome(Response::PasswordRequired { profiles: words(&["a"]) }).unwrap(),
        RunOutcome::PasswordRequired { profiles } if profiles == words(&["a"])
    ));
    assert!(run_outcome(Response::Done).is_err());
    assert!(verification(Response::Done).is_err());
}

#[test]
fn only_the_own_user_is_served() {
    assert!(authorize_peer(Some(1000), 1000).is_ok());
    assert_eq!(
        authorize_peer(Some(0), 1000).unwrap_err().message(),
        "broker accepts clients from the current user only"
    );
    assert_eq!(
        authorize_peer(None, 1000).unwrap_err().message(),
        "broker client credentials did not include a user id"
    );
}

#[test]
fn brokers_are_named_after_their_users() {
    assert_eq!(broker_name(0), "no-clone-broker-0");
    assert_eq!(broker_name(1000), "no-clone-broker-1000");
    assert_eq!(broker_name_for("Ann Lee.ü"), "no-clone-broker-Ann_Lee__");
}

#[test]
fn a_client_tries_for_a_limited_time() {
    assert_eq!(after_failed_connection(1), StartupAction::Start);
    for failures in 2..=40 {
        assert_eq!(after_failed_connection(failures), StartupAction::Retry { milliseconds: 50 });
    }
    assert_eq!(after_failed_connection(41), StartupAction::GiveUp { milliseconds: 50 });
}
