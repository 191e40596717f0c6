//! The broker: what clients ask of it, and what it answers.

use vstd::prelude::*;
use vstd::utf8::{decode_utf8, encode_utf8, valid_utf8};

use crate::clock::saturating_sum;
use crate::clock::unix_time;
use crate::delivery::{plan_deliveries, DeliveryPlan};
use crate::delivery::{
    binding_valid, conflict, goes_to_descriptor, hands_over, law_plans_hand_over_every_delivery,
    law_plans_have_distinct_targets, law_valid_bindings_fail_only_in_conflicts,
    law_values_arrive_unchanged, plan_of, target_number, targets_distinct, PlanModel,
};
use crate::error::fault_text;
use crate::error::{outcome, Error, ErrorModel, Fault};
use crate::fingerprint::KeyModel;
use crate::fingerprint::{FingerprintKey, VerificationStatus};
use crate::manifest::{binding_check, law_accepted_manifests, manifest_check, profile_valid};
use crate::manifest::{BindingModel, TargetModel, Transport};
use crate::manifest::{Manifest, ProfileManifest};
use crate::name_map::{
    contents, in_order, lemma_entry_in_contents, lemma_sorted, names, sorted,
};
use crate::session::{
    asked_for, asked_for_somewhere, available, binding_count, bound_at,
    law_deliveries_are_what_was_asked_for, law_deliveries_bear_what_is_held,
    law_held_secrets_are_handed_out, law_locked_profiles_refuse_runs,
    law_protected_profiles_are_zero_trust, law_secrets_are_handed_out_if_they_are_there,
    law_unlock_holds_what_was_loaded, law_unlocks_are_bounded, law_unlocks_hold_what_was_read,
    law_unlocks_last_for_the_lifetime, not_loaded,
};
use crate::session::{
    deliveries_of, fingerprint_answer, locked, protected_profiles, purged, rekeyed, status_entries,
    statuses, unlocked, DeliveryModel, SessionModel, StatusModel,
};
use crate::session::{LoadedProfile, ProfileStatus, SessionState};
use crate::text::push_decimal;
use crate::text::{ascii_alphanumeric, decimal, texts};
use crate::vault::secret_map;

verus! {

broadcast use vstd::string::group_string_axioms;

/// What a client asks of the broker.
#[allow(inconsistent_fields)]
#[derive(Debug)]
pub enum Request {
    /// Read profiles from the vault and hold them.
    Unlock {
        profiles: Vec<String>,
        ttl_seconds: Option<i64>,
        zero_trust: bool,
        password: String,
    },
    /// Let go of these profiles, or of all of them if none is named.
    Lock { profiles: Vec<String> },
    /// Tell of the profiles that are held.
    Status,
    /// Run a command with the secrets that a manifest names.
    Run { manifest: Manifest, command: Vec<String>, cwd: String, password: Option<String> },
    /// Compare a secret with a fingerprint.
    VerifyFingerprint { profile: String, secret: String, fingerprint: String },
    /// Give the vault a new fingerprint key.
    RotateFingerprintKey { password: String },
}

/// What the broker answers.
#[allow(inconsistent_fields)]
#[derive(Debug)]
pub enum Response {
    /// It is done.
    Done,
    Status { profiles: Vec<ProfileStatus> },
    PasswordRequired { profiles: Vec<String> },
    RunResult { code: i32, stdout: String, stderr: String },
    Verification { status: VerificationStatus },
    Error { message: String },
}

/// What an answer says.
#[allow(inconsistent_fields)]
pub enum ResponseModel {
    Done,
    Status { profiles: Seq<(Seq<char>, StatusModel)> },
    PasswordRequired { profiles: Seq<Seq<char>> },
    RunResult { code: i32, stdout: Seq<char>, stderr: Seq<char> },
    Verification { status: VerificationStatus },
    Error { message: Seq<char> },
}

impl View for Response {
    type V = ResponseModel;

    open spec fn view(&self) -> ResponseModel {
        match *self {
            Response::Done => ResponseModel::Done,
            Response::Status { profiles } => ResponseModel::Status {
                profiles: status_entries(profiles@),
            },
            Response::PasswordRequired { profiles } => ResponseModel::PasswordRequired {
                profiles: texts(profiles@),
            },
            Response::RunResult { code, stdout, stderr } => ResponseModel::RunResult {
                code,
                stdout: stdout@,
                stderr: stderr@,
            },
            Response::Verification { status } => ResponseModel::Verification { status },
            Response::Error { message } => ResponseModel::Error { message: message@ },
        }
    }
}

/// What the broker does next.
#[allow(inconsistent_fields)]
pub enum Step {
    /// Answer the client.
    Reply(Response),
    /// Open the vault with the password and read these profiles and the fingerprint key.
    Load {
        profiles: Vec<String>,
        ttl_seconds: Option<i64>,
        zero_trust: bool,
        password: String,
    },
    /// Open the vault with the password, to see whether it is the right one.
    Authorize { manifest: Manifest, command: Vec<String>, cwd: String, password: String },
    /// Open the vault with the password and give it a new fingerprint key.
    Rotate { password: String },
    /// Run the command with these secrets.
    Execute { command: Vec<String>, cwd: String, plan: DeliveryPlan },
}

/// What a step says.
#[allow(inconsistent_fields)]
pub enum StepModel {
    Reply(ResponseModel),
    Load {
        profiles: Seq<Seq<char>>,
        ttl_seconds: Option<i64>,
        zero_trust: bool,
        password: Seq<char>,
    },
    Authorize {
        manifest: Manifest,
        command: Seq<Seq<char>>,
        cwd: Seq<char>,
        password: Seq<char>,
    },
    Rotate { password: Seq<char> },
    Execute { command: Seq<Seq<char>>, cwd: Seq<char>, plan: PlanModel },
}

impl View for Step {
    type V = StepModel;

    open spec fn view(&self) -> StepModel {
        match *self {
            Step::Reply(response) => StepModel::Reply(response@),
            Step::Load { profiles, ttl_seconds, zero_trust, password } => StepModel::Load {
                profiles: texts(profiles@),
                ttl_seconds,
                zero_trust,
                password: password@,
            },
            Step::Authorize { manifest, command, cwd, password } => StepModel::Authorize {
                manifest,
                command: texts(command@),
                cwd: cwd@,
                password: password@,
            },
            Step::Rotate { password } => StepModel::Rotate { password: password@ },
            Step::Execute { command, cwd, plan } => StepModel::Execute {
                command: texts(command@),
                cwd: cwd@,
                plan: plan@,
            },
        }
    }
}

/// The answer that says what went wrong.
pub open spec fn refusal_model(fault: ErrorModel) -> ResponseModel {
    ResponseModel::Error { message: fault_text(fault) }
}

/// The answer that says what went wrong.
pub fn refusal(error: &Error) -> (r: Response)
    ensures
        r@ == refusal_model(error@),
        r matches Response::Error { message } && message@ == fault_text(error@),
{
    Response::Error { message: error.message() }
}

/// The step of a run whose authorization is settled: the secrets are looked up and planned for.
pub open spec fn delivery_step(
    session: SessionModel,
    manifest: Manifest,
    command: Seq<Seq<char>>,
    cwd: Seq<char>,
) -> StepModel {
    match deliveries_of(session, manifest.profiles@, 0) {
        Err(fault) => StepModel::Reply(refusal_model(fault)),
        Ok(deliveries) => match plan_of(deliveries) {
            Err(fault) => StepModel::Reply(refusal_model(fault)),
            Ok(plan) => StepModel::Execute { command, cwd, plan },
        },
    }
}

/// The first step of a run: every profile of the manifest must be held, and where one of them was
/// unlocked that way, the password is asked for.
pub open spec fn run_step(
    session: SessionModel,
    manifest: Manifest,
    command: Seq<Seq<char>>,
    cwd: Seq<char>,
    password: Option<Seq<char>>,
) -> StepModel {
    match protected_profiles(session, manifest.profiles@, 0) {
        Err(fault) => StepModel::Reply(refusal_model(fault)),
        Ok(profiles) => if profiles.len() == 0 {
            delivery_step(session, manifest, command, cwd)
        } else {
            match password {
                None => StepModel::Reply(ResponseModel::PasswordRequired { profiles }),
                Some(password) => StepModel::Authorize { manifest, command, cwd, password },
            }
        },
    }
}

/// The step of a run after the vault was opened with its password, or was not.
pub open spec fn authorized_step(
    session: SessionModel,
    manifest: Manifest,
    command: Seq<Seq<char>>,
    cwd: Seq<char>,
    opened: Result<(), Seq<char>>,
) -> StepModel {
    match opened {
        Err(cause) => StepModel::Reply(refusal_model(Fault::PasswordRejected { cause })),
        Ok(()) => delivery_step(session, manifest, command, cwd),
    }
}

/// What the broker does first about a request.
pub open spec fn step_for(
    session: SessionModel,
    now: Result<i64, ErrorModel>,
    request: Request,
) -> StepModel {
    match request {
        Request::Unlock { profiles, ttl_seconds, zero_trust, password } => StepModel::Load {
            profiles: texts(profiles@),
            ttl_seconds,
            zero_trust,
            password: password@,
        },
        Request::Lock { profiles } => StepModel::Reply(ResponseModel::Done),
        Request::Status => match now {
            Err(fault) => StepModel::Reply(refusal_model(fault)),
            Ok(now) => StepModel::Reply(
                ResponseModel::Status { profiles: sorted(statuses(purged(session, now))) },
            ),
        },
        Request::Run { manifest, command, cwd, password } => match now {
            Err(fault) => StepModel::Reply(refusal_model(fault)),
            Ok(now) => run_step(
                purged(session, now),
                manifest,
                texts(command@),
                cwd@,
                match password {
                    Some(password) => Some(password@),
                    None => None,
                },
            ),
        },
        Request::VerifyFingerprint { profile, secret, fingerprint } => match now {
            Err(fault) => StepModel::Reply(refusal_model(fault)),
            Ok(now) => match fingerprint_answer(
                purged(session, now),
                profile@,
                secret@,
                fingerprint@,
            ) {
                Err(fault) => StepModel::Reply(refusal_model(fault)),
                Ok(status) => StepModel::Reply(ResponseModel::Verification { status }),
            },
        },
        Request::RotateFingerprintKey { password } => StepModel::Rotate { password: password@ },
    }
}

/// The session after the first step about a request.
pub open spec fn session_after(
    session: SessionModel,
    now: Result<i64, ErrorModel>,
    request: Request,
) -> SessionModel {
    match request {
        Request::Lock { profiles } => locked(session, texts(profiles@)),
        Request::Status | Request::Run { .. } | Request::VerifyFingerprint { .. } => match now {
            Ok(now) => purged(session, now),
            Err(_) => session,
        },
        _ => session,
    }
}

/// Looks up the secrets of a run and plans their delivery.
fn deliver(state: &SessionState, manifest: &Manifest, command: Vec<String>, cwd: String) -> (r:
    Step)
    ensures
        r@ == delivery_step(state@, *manifest, texts(command@), cwd@),
{
    match state.collect_deliveries(manifest) {
        Err(error) => Step::Reply(refusal(&error)),
        Ok(deliveries) => match plan_deliveries(&deliveries) {
            Err(error) => Step::Reply(refusal(&error)),
            Ok(plan) => Step::Execute { command, cwd, plan },
        },
    }
}

/// Begins a run.
fn run_target(
    state: &SessionState,
    manifest: Manifest,
    command: Vec<String>,
    cwd: String,
    password: Option<String>,
) -> (r: Step)
    ensures
        r@ == run_step(
            state@,
            manifest,
            texts(command@),
            cwd@,
            match password {
                Some(password) => Some(password@),
                None => None,
            },
        ),
{
    match state.protected_profiles(&manifest) {
        Err(error) => Step::Reply(refusal(&error)),
        Ok(profiles) => {
            if profiles.len() == 0 {
                return deliver(state, &manifest, command, cwd);
            }
            match password {
                None => Step::Reply(Response::PasswordRequired { profiles }),
                Some(password) => Step::Authorize { manifest, command, cwd, password },
            }
        },
    }
}

/// Goes on with a run after the vault was opened with its password; `opened` tells why it was not.
pub fn authorize_run(
    state: &SessionState,
    manifest: Manifest,
    command: Vec<String>,
    cwd: String,
    opened: Result<(), String>,
) -> (r: Step)
    ensures
        r@ == authorized_step(
            state@,
            manifest,
            texts(command@),
            cwd@,
            match opened {
                Ok(()) => Ok(()),
                Err(cause) => Err(cause@),
            },
        ),
{
    match opened {
        Err(cause) => Step::Reply(refusal(&Fault::PasswordRejected { cause })),
        Ok(()) => deliver(state, &manifest, command, cwd),
    }
}

/// Takes the first step about a request, at the time `now`.
#[verifier::rlimit(30)]
pub fn dispatch_at(state: &mut SessionState, now: Result<i64, Error>, request: Request) -> (r: Step)
    ensures
        final(state)@ == session_after(old(state)@, outcome(now), request),
        r@ == step_for(old(state)@, outcome(now), request),
{
    match request {
        Request::Unlock { profiles, ttl_seconds, zero_trust, password } => Step::Load {
            profiles,
            ttl_seconds,
            zero_trust,
            password,
        },
        Request::Lock { profiles } => {
            state.lock_profiles(&profiles);
            Step::Reply(Response::Done)
        },
        Request::Status => match now {
            Err(error) => Step::Reply(refusal(&error)),
            Ok(now) => {
                let profiles = state.status_profiles(now);
                proof {
                    lemma_sorted(status_entries(profiles@));
                }
                Step::Reply(Response::Status { profiles })
            },
        },
        Request::Run { manifest, command, cwd, password } => match now {
            Err(error) => Step::Reply(refusal(&error)),
            Ok(now) => {
                state.purge_expired(now);
                run_target(state, manifest, command, cwd, password)
            },
        },
        Request::VerifyFingerprint { profile, secret, fingerprint } => match now {
            Err(error) => Step::Reply(refusal(&error)),
            Ok(now) => match state.verify_fingerprint(
                now,
                profile.as_str(),
                secret.as_str(),
                fingerprint.as_str(),
            ) {
                Err(error) => Step::Reply(refusal(&error)),
                Ok(status) => Step::Reply(Response::Verification { status }),
            },
        },
        Request::RotateFingerprintKey { password } => Step::Rotate { password },
    }
}

/// Takes the first step about a request, at the current time.
pub fn dispatch(state: &mut SessionState, request: Request) -> (r: Step)
    ensures
        exists|now: Result<i64, ErrorModel>|
            {
                &&& now matches Err(fault) ==> fault == ErrorModel::ClockBeforeEpoch
                &&& final(state)@ == session_after(old(state)@, now, request)
                &&& r@ == #[trigger] step_for(old(state)@, now, request)
            },
{
    let now = unix_time();
    let ghost reading = outcome(now);
    let ghost before = state@;
    let step = dispatch_at(state, now, request);
    assert(step@ == step_for(before, reading, request));
    step
}

/// What was read from the vault for an unlock, and when.
pub struct Loaded {
    pub now: i64,
    pub profiles: Vec<LoadedProfile>,
    pub key: FingerprintKey,
}

/// Ends an unlock with what was read from the vault, or with why nothing was; then everything stays
/// as it was.
pub fn finish_unlock(
    state: &mut SessionState,
    loaded: Result<Loaded, String>,
    ttl_override: Option<i64>,
    zero_trust: bool,
) -> (r: Response)
    ensures
        match loaded {
            Err(message) => {
                &&& final(state)@ == old(state)@
                &&& r@ == (ResponseModel::Error { message: message@ })
            },
            Ok(loaded) => {
                &&& final(state)@ == unlocked(
                    old(state)@,
                    loaded.now,
                    loaded.profiles@,
                    ttl_override,
                    zero_trust,
                    loaded.key@,
                )
                &&& r@ == ResponseModel::Done
            },
        },
{
    match loaded {
        Err(message) => Response::Error { message },
        Ok(loaded) => {
            state.unlock_profiles(
                loaded.now,
                &loaded.profiles,
                ttl_override,
                zero_trust,
                loaded.key,
            );
            Response::Done
        },
    }
}

/// Ends a key rotation with the new key of the vault, or with why there is none; then the old key
/// stays.
pub fn finish_rotation(state: &mut SessionState, rotated: Result<FingerprintKey, String>) -> (r:
    Response)
    ensures
        match rotated {
            Err(message) => {
                &&& final(state)@ == old(state)@
                &&& r@ == (ResponseModel::Error { message: message@ })
            },
            Ok(key) => {
                &&& final(state)@ == rekeyed(old(state)@, key@)
                &&& r@ == ResponseModel::Done
            },
        },
{
    match rotated {
        Err(message) => Response::Error { message },
        Ok(key) => {
            state.replace_key(key);
            Response::Done
        },
    }
}

/// What `String::from_utf8_lossy` makes of some bytes.
pub uninterp spec fn lossy_text(bytes: Seq<u8>) -> Seq<char>;

/// Whether a text is what the bytes encode, if they are valid UTF-8 at all.
pub open spec fn encoded_text(bytes: Seq<u8>, text: Seq<char>) -> bool {
    valid_utf8(bytes) ==> text == decode_utf8(bytes)
}

/// `String::from_utf8_lossy`: the text that the bytes encode, if they are valid UTF-8; what stands
/// for invalid parts is left open.
#[verifier::external_body]
fn text_from_utf8_lossy(bytes: &[u8]) -> (r: String)
    ensures
        r@ == lossy_text(bytes@),
        encoded_text(bytes@, r@),
{
    String::from_utf8_lossy(bytes).into_owned()
}

/// What came of a command.
#[derive(Debug)]
pub struct RunResult {
    pub code: i32,
    pub stdout: String,
    pub stderr: String,
}

/// What came of a command.
pub struct ResultModel {
    pub code: i32,
    pub stdout: Seq<char>,
    pub stderr: Seq<char>,
}

impl View for RunResult {
    type V = ResultModel;

    open spec fn view(&self) -> ResultModel {
        ResultModel { code: self.code, stdout: self.stdout@, stderr: self.stderr@ }
    }
}

/// The code that a command ended with; 1 for one that a signal ended.
pub open spec fn exit_code(code: Option<i32>) -> i32 {
    match code {
        Some(code) => code,
        None => 1,
    }
}

/// What came of a command: its exit code, or 1 where a signal ended it, and what it printed.
pub fn run_result(code: Option<i32>, stdout: &[u8], stderr: &[u8]) -> (r: RunResult)
    ensures
        r.code == exit_code(code),
        code matches Some(status) ==> r.code == status,
        code is None ==> r.code == 1,
        r.stdout@ == lossy_text(stdout@),
        r.stderr@ == lossy_text(stderr@),
        encoded_text(stdout@, r.stdout@),
        encoded_text(stderr@, r.stderr@),
        valid_utf8(stdout@) ==> encode_utf8(r.stdout@) == stdout@,
        valid_utf8(stderr@) ==> encode_utf8(r.stderr@) == stderr@,
{
    proof {
        if valid_utf8(stdout@) {
            vstd::utf8::decode_utf8_encode_utf8(stdout@);
        }
        if valid_utf8(stderr@) {
            vstd::utf8::decode_utf8_encode_utf8(stderr@);
        }
    }
    RunResult {
        code: match code {
            Some(code) => code,
            None => 1,
        },
        stdout: text_from_utf8_lossy(stdout),
        stderr: text_from_utf8_lossy(stderr),
    }
}

/// Ends a run with what came of the command, or with why it did not run.
pub fn finish_run(result: Result<RunResult, String>) -> (r: Response)
    ensures
        r@ == match result {
            Ok(result) => ResponseModel::RunResult {
                code: result.code,
                stdout: result.stdout@,
                stderr: result.stderr@,
            },
            Err(message) => ResponseModel::Error { message: message@ },
        },
        result matches Ok(made) ==> (r matches Response::RunResult { code, stdout, stderr } && code
            == made.code && stdout@ == made.stdout@ && stderr@ == made.stderr@),
        result matches Err(words) ==> (r matches Response::Error { message } && message@ == words@),
{
    match result {
        Ok(result) => Response::RunResult {
            code: result.code,
            stdout: result.stdout,
            stderr: result.stderr,
        },
        Err(message) => Response::Error { message },
    }
}

/// What is wrong with a request to unlock profiles.
pub open spec fn unlock_fault(count: nat, ttl_seconds: Option<i64>) -> Option<ErrorModel> {
    if count == 0 {
        Some(Fault::NothingToUnlock)
    } else {
        match ttl_seconds {
            Some(ttl) => if ttl <= 0 {
                Some(Fault::UnlockLifetime)
            } else {
                None
            },
            None => None,
        }
    }
}

/// What is wrong with a request to unlock so many profiles: at least one must be named, and a
/// lifetime given for this session must be positive.
pub fn check_unlock(count: usize, ttl_seconds: Option<i64>) -> (r: Option<Error>)
    ensures
        match r {
            Some(error) => unlock_fault(count as nat, ttl_seconds) == Some(error@),
            None => unlock_fault(count as nat, ttl_seconds) is None,
        },
{
    if count == 0 {
        return Some(Fault::NothingToUnlock);
    }
    match ttl_seconds {
        Some(ttl) => {
            if ttl <= 0 {
                return Some(Fault::UnlockLifetime);
            }
            None
        },
        None => None,
    }
}

/// The request that unlocks profiles.
pub fn unlock(
    profiles: Vec<String>,
    ttl_seconds: Option<i64>,
    zero_trust: bool,
    password: String,
) -> (r: Result<Request, Error>)
    ensures
        match r {
            Ok(request) => {
                &&& unlock_fault(profiles@.len(), ttl_seconds) is None
                &&& request == (Request::Unlock { profiles, ttl_seconds, zero_trust, password })
            },
            Err(error) => unlock_fault(profiles@.len(), ttl_seconds) == Some(error@),
        },
        r is Ok <==> profiles@.len() > 0 && (ttl_seconds matches Some(ttl) ==> ttl > 0),
{
    match check_unlock(profiles.len(), ttl_seconds) {
        Some(error) => Err(error),
        None => Ok(Request::Unlock { profiles, ttl_seconds, zero_trust, password }),
    }
}

/// The request that locks profiles.
pub fn lock(profiles: Vec<String>) -> (r: Request)
    ensures
        r == (Request::Lock { profiles }),
{
    Request::Lock { profiles }
}

/// The request that runs a command. There must be a command, and the manifest must be valid.
pub fn run(manifest: Manifest, command: Vec<String>, cwd: String, password: Option<String>) -> (r:
    Result<Request, Error>)
    ensures
        match r {
            Ok(request) => {
                &&& command@.len() > 0
                &&& manifest_check(manifest) is Ok
                &&& request == (Request::Run { manifest, command, cwd, password })
            },
            Err(error) => if command@.len() == 0 {
                error@ == ErrorModel::CommandMissing
            } else {
                manifest_check(manifest) matches Err(fault) && fault == error@
            },
        },
{
    if command.len() == 0 {
        return Err(Fault::CommandMissing);
    }
    match manifest.validate() {
        Err(error) => Err(error),
        Ok(()) => Ok(Request::Run { manifest, command, cwd, password }),
    }
}

/// An answer other than the one that was asked for.
#[derive(Debug)]
pub enum ReplyFault {
    /// The broker says what went wrong.
    Reported { message: String },
    /// The answer belongs to another request.
    Unexpected { response: Response },
}

/// Whether a fault tells of this answer.
pub open spec fn tells_of(fault: ReplyFault, response: Response) -> bool {
    match response {
        Response::Error { message } => fault == (ReplyFault::Reported { message }),
        _ => fault == (ReplyFault::Unexpected { response }),
    }
}

/// What is wrong with an answer that was not asked for.
pub fn unexpected_response(response: Response) -> (r: ReplyFault)
    ensures
        tells_of(r, response),
{
    match response {
        Response::Error { message } => ReplyFault::Reported { message },
        other => ReplyFault::Unexpected { response: other },
    }
}

/// Reads the answer to a request that asks for nothing back.
pub fn expect_ok(response: Response) -> (r: Result<(), ReplyFault>)
    ensures
        match r {
            Ok(()) => response is Done,
            Err(fault) => response !is Done && tells_of(fault, response),
        },
{
    match response {
        Response::Done => Ok(()),
        other => Err(unexpected_response(other)),
    }
}

/// Reads the answer to a request for the status.
pub fn status(response: Response) -> (r: Result<Vec<ProfileStatus>, ReplyFault>)
    ensures
        match r {
            Ok(profiles) => response == (Response::Status { profiles }),
            Err(fault) => response !is Status && tells_of(fault, response),
        },
{
    match response {
        Response::Status { profiles } => Ok(profiles),
        other => Err(unexpected_response(other)),
    }
}

/// What came of a request to run a command.
#[derive(Debug)]
pub enum RunOutcome {
    /// The command ran.
    Completed(RunResult),
    /// These profiles ask for the password first.
    PasswordRequired { profiles: Vec<String> },
}

/// What came of a request to run a command.
pub enum OutcomeModel {
    Completed(ResultModel),
    PasswordRequired { profiles: Seq<Seq<char>> },
}

impl View for RunOutcome {
    type V = OutcomeModel;

    open spec fn view(&self) -> OutcomeModel {
        match *self {
            RunOutcome::Completed(result) => OutcomeModel::Completed(result@),
            RunOutcome::PasswordRequired { profiles } => OutcomeModel::PasswordRequired {
                profiles: texts(profiles@),
            },
        }
    }
}

/// Reads the answer to a request to run a command.
pub fn run_outcome(response: Response) -> (r: Result<RunOutcome, ReplyFault>)
    ensures
        match r {
            Ok(RunOutcome::Completed(result)) => response == (Response::RunResult {
                code: result.code,
                stdout: result.stdout,
                stderr: result.stderr,
            }),
            Ok(RunOutcome::PasswordRequired { profiles }) => response == (
            Response::PasswordRequired { profiles }),
            Err(fault) => {
                &&& response !is RunResult
                &&& response !is PasswordRequired
                &&& tells_of(fault, response)
            },
        },
{
    match response {
        Response::RunResult { code, stdout, stderr } => Ok(
            RunOutcome::Completed(RunResult { code, stdout, stderr }),
        ),
        Response::PasswordRequired { profiles } => Ok(RunOutcome::PasswordRequired { profiles }),
        other => Err(unexpected_response(other)),
    }
}

/// Reads the answer to a request to compare a secret with a fingerprint.
pub fn verification(response: Response) -> (r: Result<VerificationStatus, ReplyFault>)
    ensures
        match r {
            Ok(status) => response == (Response::Verification { status }),
            Err(fault) => response !is Verification && tells_of(fault, response),
        },
{
    match response {
        Response::Verification { status } => Ok(status),
        other => Err(unexpected_response(other)),
    }
}

/// Lets in only clients of the user that the broker runs for.
pub fn authorize_peer(peer: Option<u32>, current: u32) -> (r: Result<(), Error>)
    ensures
        outcome(r) == match peer {
            None => Err(ErrorModel::PeerUnknown),
            Some(user) => if user == current {
                Ok(())
            } else {
                Err(ErrorModel::PeerForeign)
            },
        },
{
    match peer {
        None => Err(Fault::PeerUnknown),
        Some(user) => {
            if user != current {
                return Err(Fault::PeerForeign);
            }
            Ok(())
        },
    }
}

/// How often a client tries to reach a broker that it has started.
pub const START_ATTEMPTS: u32 = 40;

/// How long a client waits after each such try.
pub const START_PAUSE_MILLISECONDS: u64 = 50;

/// What a client does that did not reach the broker.
#[derive(Debug, Clone, Copy, PartialEq, Eq, Structural)]
pub enum StartupAction {
    /// Start a broker and try again.
    Start,
    /// Wait and try again.
    Retry { milliseconds: u64 },
    /// Wait and give up.
    GiveUp { milliseconds: u64 },
}

/// What a client does after it has failed to reach the broker so many times: at first it starts
/// one, and then it tries for a limited time to reach that.
pub fn after_failed_connection(failures: u32) -> (r: StartupAction)
    requires
        failures > 0,
    ensures
        r == if failures == 1 {
            StartupAction::Start
        } else if failures <= START_ATTEMPTS {
            StartupAction::Retry { milliseconds: START_PAUSE_MILLISECONDS }
        } else {
            StartupAction::GiveUp { milliseconds: START_PAUSE_MILLISECONDS }
        },
        failures == 1 ==> r == StartupAction::Start,
        2 <= failures <= 40 ==> r == (StartupAction::Retry { milliseconds: 50 }),
        failures > 40 ==> r == (StartupAction::GiveUp { milliseconds: 50 }),
{
    if failures == 1 {
        StartupAction::Start
    } else if failures <= START_ATTEMPTS {
        StartupAction::Retry { milliseconds: START_PAUSE_MILLISECONDS }
    } else {
        StartupAction::GiveUp { milliseconds: START_PAUSE_MILLISECONDS }
    }
}

/// The name under which the broker of a user listens.
pub open spec fn broker_name_text(user: nat) -> Seq<char> {
    "no-clone-broker-"@ + decimal(user)
}

/// The name under which the broker of a user listens.
pub fn broker_name(user: u32) -> (r: String)
    ensures
        r@ == broker_name_text(user as nat),
        r@ == "no-clone-broker-"@ + decimal(user as nat),
{
    let mut name: String = "no-clone-broker-".to_owned();
    push_decimal(&mut name, user as u64);
    name
}

/// A character of a user name as it may stand in the name of a broker.
pub open spec fn name_character(character: char) -> char {
    if ascii_alphanumeric(character) {
        character
    } else {
        '_'
    }
}

/// The name under which the broker of a user listens where users have no numbers: everything in
/// the user name but ASCII letters and digits becomes an underscore.
pub fn broker_name_for(user: &str) -> (r: String)
    ensures
        r@ == "no-clone-broker-"@ + user@.map_values(
            |character: char| name_character(character),
        ),
{
    let mut name: String = "no-clone-broker-".to_owned();
    let ghost prefix = name@;
    let ghost wanted = user@.map_values(|character: char| name_character(character));
    for character in it: user.chars()
        invariant
            it.seq() == user@,
            wanted == user@.map_values(|character: char| name_character(character)),
            name@ == prefix + wanted.take(it.index()),
    {
        let ghost done = it.index();
        let letter: bool = ('0' <= character && character <= '9') || ('a' <= character && character
            <= 'z') || ('A' <= character && character <= 'Z');
        if letter {
            name.push(character);
        } else {
            name.push('_');
        }
        assert(wanted.take(done + 1) =~= wanted.take(done).push(name_character(character)));
        assert(name@ =~= prefix + wanted.take(done + 1));
    }
    assert(wanted.take(wanted.len() as int) =~= wanted);
    name
}

proof fn lemma_decimal_injective(left: nat, right: nat)
    requires
        decimal(left) == decimal(right),
    ensures
        left == right,
    decreases left,
{
    lemma_decimal_nonempty(left);
    lemma_decimal_nonempty(right);
    assert(decimal(left).last() == decimal(right).last());
    if left >= 10 && right >= 10 {
        assert(decimal(left).drop_last() =~= decimal(left / 10));
        assert(decimal(right).drop_last() =~= decimal(right / 10));
        lemma_decimal_injective(left / 10, right / 10);
    } else if left >= 10 {
        lemma_decimal_nonempty(left / 10);
    } else if right >= 10 {
        lemma_decimal_nonempty(right / 10);
    }
}

proof fn lemma_decimal_nonempty(value: nat)
    ensures
        decimal(value).len() > 0,
        decimal(value).last() == crate::text::digit((value % 10) as int),
        value < 10 ==> decimal(value).len() == 1,
        value >= 10 ==> decimal(value).len() == decimal(value / 10).len() + 1,
{
}

/// No two users have brokers of one name.
pub proof fn law_brokers_are_per_user(left: u32, right: u32)
    requires
        broker_name_text(left as nat) == broker_name_text(right as nat),
    ensures
        left == right,
{
    let prefix = "no-clone-broker-"@;
    let l = broker_name_text(left as nat);
    let r = broker_name_text(right as nat);
    assert(l.skip(prefix.len() as int) =~= decimal(left as nat));
    assert(r.skip(prefix.len() as int) =~= decimal(right as nat));
    lemma_decimal_injective(left as nat, right as nat);
}

/// A run goes ahead at once only if every profile of its manifest is held and none of them asks for
/// the password. Where one of them asks, a request without a password is answered with the names of
/// those that ask, and one with a password has to be authorized first.
pub proof fn law_zero_trust_runs_need_the_password(
    session: SessionModel,
    manifest: Manifest,
    command: Seq<Seq<char>>,
    cwd: Seq<char>,
    password: Option<Seq<char>>,
    index: int,
)
    requires
        0 <= index < manifest.profiles@.len(),
    ensures
        ({
            let step = run_step(session, manifest, command, cwd, password);
            let name = manifest.profiles@[index].0;
            &&& step is Execute ==> session.profiles.dom().contains(name)
                && !session.profiles[name].zero_trust
            &&& protected_profiles(session, manifest.profiles@, 0) is Ok
                && session.profiles[name].zero_trust ==> match password {
                None => {
                    &&& step matches StepModel::Reply(ResponseModel::PasswordRequired { profiles })
                    &&& profiles.contains(name)
                },
                Some(given) => step == (StepModel::Authorize {
                    manifest,
                    command,
                    cwd,
                    password: given,
                }),
            }
        }),
{
    let name = manifest.profiles@[index].0;
    assert(names(manifest.profiles@, name));
    law_locked_profiles_refuse_runs(session, manifest);
    if protected_profiles(session, manifest.profiles@, 0) is Ok {
        law_protected_profiles_are_zero_trust(session, manifest, name);
    }
}

/// A run goes ahead without a password where every profile of its manifest is held and asks for
/// none, every secret is there, and no two of them go to one place.
pub proof fn law_standard_runs_go_ahead(
    session: SessionModel,
    manifest: Manifest,
    command: Seq<Seq<char>>,
    cwd: Seq<char>,
    password: Option<Seq<char>>,
)
    requires
        forall|i: int|
            0 <= i < manifest.profiles@.len() ==> {
                &&& session.profiles.dom().contains((#[trigger] manifest.profiles@[i]).0)
                &&& !session.profiles[manifest.profiles@[i].0].zero_trust
            },
        forall|i: int, j: int| #[trigger]
            bound_at(manifest.profiles@, i, j) ==> available(session, manifest.profiles@, i, j),
        plan_of(deliveries_of(session, manifest.profiles@, 0)->Ok_0) is Ok,
    ensures
        run_step(session, manifest, command, cwd, password) == (StepModel::Execute {
            command,
            cwd,
            plan: plan_of(deliveries_of(session, manifest.profiles@, 0)->Ok_0)->Ok_0,
        }),
{
    law_locked_profiles_refuse_runs(session, manifest);
    law_held_secrets_are_handed_out(session, manifest);
    let asking = protected_profiles(session, manifest.profiles@, 0)->Ok_0;
    if asking.len() > 0 {
        let name = asking[0];
        assert(asking.contains(name));
        law_protected_profiles_are_zero_trust(session, manifest, name);
        let i = choose|i: int|
            0 <= i < manifest.profiles@.len() && (#[trigger] manifest.profiles@[i]).0 == name;
        assert(!session.profiles[manifest.profiles@[i].0].zero_trust);
    }
}

/// A run whose password the vault did not accept is refused, and nothing is delivered.
pub proof fn law_rejected_passwords_refuse_runs(
    session: SessionModel,
    manifest: Manifest,
    command: Seq<Seq<char>>,
    cwd: Seq<char>,
    cause: Seq<char>,
)
    ensures
        authorized_step(session, manifest, command, cwd, Err(cause)) == StepModel::Reply(
            refusal_model(Fault::PasswordRejected { cause }),
        ),
{
}

/// A run of a manifest that names a profile which is not held is refused, with or without a
/// password, and whatever the vault says of the password.
pub proof fn law_runs_of_locked_profiles_are_refused(
    session: SessionModel,
    manifest: Manifest,
    command: Seq<Seq<char>>,
    cwd: Seq<char>,
    password: Option<Seq<char>>,
    opened: Result<(), Seq<char>>,
    index: int,
)
    requires
        0 <= index < manifest.profiles@.len(),
        !session.profiles.dom().contains(manifest.profiles@[index].0),
    ensures
        run_step(session, manifest, command, cwd, password) matches StepModel::Reply(
            ResponseModel::Error { .. },
        ),
        authorized_step(session, manifest, command, cwd, opened) matches StepModel::Reply(
            ResponseModel::Error { .. },
        ),
{
    law_locked_profiles_refuse_runs(session, manifest);
    lemma_deliveries_need_profile(session, manifest.profiles@, 0, index);
}

proof fn lemma_deliveries_need_profile(
    session: SessionModel,
    profiles: Seq<(Seq<char>, ProfileManifest)>,
    from: int,
    index: int,
)
    requires
        0 <= from <= index < profiles.len(),
        !session.profiles.dom().contains(profiles[index].0),
    ensures
        deliveries_of(session, profiles, from) is Err,
    decreases index - from,
{
    if from < index {
        lemma_deliveries_need_profile(session, profiles, from + 1, index);
    }
}

/// A run of an accepted manifest whose secrets are all held fails only if two of them go to one
/// place or a value for a variable is no text; and it never touches a standard stream by its
/// number.
pub proof fn law_accepted_manifests_fail_only_in_conflicts(
    session: SessionModel,
    manifest: Manifest,
)
    requires
        manifest_check(manifest) is Ok,
        deliveries_of(session, manifest.profiles@, 0) is Ok,
    ensures
        match plan_of(deliveries_of(session, manifest.profiles@, 0)->Ok_0) {
            Ok(plan) => forall|i: int|
                0 <= i < plan.descriptors.len() ==> (#[trigger] plan.descriptors[i]).0 >= 3,
            Err(fault) => conflict(fault),
        },
{
    let profiles = manifest.profiles@;
    let deliveries = deliveries_of(session, profiles, 0)->Ok_0;
    law_deliveries_are_what_was_asked_for(session, manifest);
    law_accepted_manifests(manifest);
    assert forall|k: int| 0 <= k < deliveries.len() implies binding_valid(
        (#[trigger] deliveries[k]).binding,
    ) by {
        assert(asked_for_somewhere(session, profiles, 0, deliveries[k]));
        let (i, j) = choose|i: int, j: int|
            0 <= i && #[trigger] bound_at(profiles, i, j) && deliveries[k] == asked_for(
                session,
                profiles,
                i,
                j,
            );
        assert(profile_valid(profiles[i].0, profiles[i].1));
        let entry = profiles[i].1.secrets@[j];
        assert(binding_check(entry.1@, profiles[i].0, entry.0) is Ok);
    }
    law_valid_bindings_fail_only_in_conflicts(deliveries);
}

/// A command that is run receives the value of every binding of its manifest, as it is held, where
/// the binding says; and it receives as many values as there are bindings.
pub proof fn law_commands_receive_what_was_bound(
    session: SessionModel,
    manifest: Manifest,
    command: Seq<Seq<char>>,
    cwd: Seq<char>,
    i: int,
    j: int,
)
    requires
        delivery_step(session, manifest, command, cwd) is Execute,
        bound_at(manifest.profiles@, i, j),
    ensures
        delivery_step(session, manifest, command, cwd) matches StepModel::Execute {
            command: run,
            cwd: place,
            plan,
        } && {
            &&& run == command
            &&& place == cwd
            &&& targets_distinct(plan)
            &&& hands_over(plan, asked_for(session, manifest.profiles@, i, j))
            &&& binding_count(manifest.profiles@, 0) == plan.variables.len()
                + plan.descriptors.len() + (if plan.stdin is Some {
                1int
            } else {
                0int
            })
        },
{
    let deliveries = deliveries_of(session, manifest.profiles@, 0)->Ok_0;
    law_deliveries_are_what_was_asked_for(session, manifest);
    let wanted = asked_for(session, manifest.profiles@, i, j);
    assert(deliveries.contains(wanted));
    let k = choose|k: int| 0 <= k < deliveries.len() && deliveries[k] == wanted;
    law_plans_hand_over_every_delivery(deliveries, k);
    law_plans_have_distinct_targets(deliveries);
}

/// What was stored in the vault is what a command receives: the value of a binding in a profile
/// that was just unlocked is the one that was read from the vault under its name. And the command
/// runs only before the lifetime of that profile is over.
pub proof fn law_commands_receive_what_the_vault_held(
    session: SessionModel,
    now: i64,
    loaded: Seq<LoadedProfile>,
    ttl_override: Option<i64>,
    zero_trust: bool,
    key: KeyModel,
    index: int,
    later: i64,
    manifest: Manifest,
    command: Seq<Seq<char>>,
    cwd: Seq<char>,
    i: int,
    j: int,
)
    requires
        0 <= index < loaded.len(),
        not_loaded(loaded.skip(index + 1), loaded[index].name@),
        bound_at(manifest.profiles@, i, j),
        manifest.profiles@[i].0 == loaded[index].name@,
        delivery_step(
            purged(unlocked(session, now, loaded, ttl_override, zero_trust, key), later),
            manifest,
            command,
            cwd,
        ) is Execute,
    ensures
        ({
            let ttl = match ttl_override {
                Some(seconds) => seconds,
                None => loaded[index].ttl_seconds,
            };
            let (name, binding) = manifest.profiles@[i].1.secrets@[j];
            let held = purged(
                unlocked(session, now, loaded, ttl_override, zero_trust, key),
                later,
            );
            &&& later < saturating_sum(now, ttl)
            &&& delivery_step(held, manifest, command, cwd) matches StepModel::Execute {
                plan,
                ..
            } && hands_over(
                plan,
                DeliveryModel {
                    binding: binding@,
                    value: secret_map(loaded[index].secrets@)[name],
                },
            )
        }),
{
    let after = unlocked(session, now, loaded, ttl_override, zero_trust, key);
    let held = purged(after, later);
    law_unlock_holds_what_was_loaded(session, now, loaded, ttl_override, zero_trust, key, index);
    law_unlocks_are_bounded(
        session,
        now,
        loaded,
        ttl_override,
        zero_trust,
        key,
        index,
        later,
    );
    if !held.profiles.dom().contains(loaded[index].name@) {
        lemma_deliveries_need_profile(held, manifest.profiles@, 0, i);
    }
    law_commands_receive_what_was_bound(held, manifest, command, cwd, i, j);
}

/// Once a profile is locked, by its name or together with all others, no command receives anything
/// from it: every run that names it is refused.
pub proof fn law_locking_ends_delivery(
    session: SessionModel,
    names: Seq<Seq<char>>,
    now: i64,
    manifest: Manifest,
    command: Seq<Seq<char>>,
    cwd: Seq<char>,
    password: Option<Seq<char>>,
    index: int,
)
    requires
        0 <= index < manifest.profiles@.len(),
        names.len() == 0 || names.contains(manifest.profiles@[index].0),
    ensures
        run_step(
            purged(locked(session, names), now),
            manifest,
            command,
            cwd,
            password,
        ) matches StepModel::Reply(ResponseModel::Error { .. }),
{
    let held = purged(locked(session, names), now);
    assert(!held.profiles.dom().contains(manifest.profiles@[index].0));
    law_runs_of_locked_profiles_are_refused(
        held,
        manifest,
        command,
        cwd,
        password,
        Ok(()),
        index,
    );
}

/// Once the lifetime of a profile is over, every run that names it is refused.
pub proof fn law_expiry_ends_delivery(
    session: SessionModel,
    now: i64,
    manifest: Manifest,
    command: Seq<Seq<char>>,
    cwd: Seq<char>,
    password: Option<Seq<char>>,
    index: int,
)
    requires
        0 <= index < manifest.profiles@.len(),
        session.profiles[manifest.profiles@[index].0].expires_at <= now,
    ensures
        run_step(purged(session, now), manifest, command, cwd, password) matches StepModel::Reply(
            ResponseModel::Error { .. },
        ),
{
    let held = purged(session, now);
    assert(!held.profiles.dom().contains(manifest.profiles@[index].0));
    law_runs_of_locked_profiles_are_refused(
        held,
        manifest,
        command,
        cwd,
        password,
        Ok(()),
        index,
    );
}

/// The comparison with a fingerprint is answered at once, with a status or an error: it asks for no
/// password and delivers nothing. It leaves the session as it was, but for what has expired.
pub proof fn law_verification_only_answers(
    session: SessionModel,
    now: i64,
    profile: String,
    secret: String,
    fingerprint: String,
)
    ensures
        ({
            let request = Request::VerifyFingerprint { profile, secret, fingerprint };
            let step = step_for(session, Ok(now), request);
            &&& step matches StepModel::Reply(answer) && (answer is Verification
                || answer is Error)
            &&& session_after(session, Ok(now), request) == purged(session, now)
        }),
{
}

/// What the broker tells of its profiles does not depend on their secrets or on the fingerprint
/// key.
pub proof fn law_status_reveals_no_secrets(left: SessionModel, right: SessionModel, now: i64)
    requires
        statuses(left) == statuses(right),
    ensures
        step_for(left, Ok(now), Request::Status) == step_for(right, Ok(now), Request::Status),
{
    let l = statuses(purged(left, now));
    let r = statuses(purged(right, now));
    let known = statuses(left);
    assert forall|name: Seq<char>| l.dom().contains(name) == r.dom().contains(name) by {
        assert(known.dom().contains(name) == left.profiles.dom().contains(name));
        assert(statuses(right).dom().contains(name) == right.profiles.dom().contains(name));
        if known.dom().contains(name) {
            assert(known[name].expires_at == left.profiles[name].expires_at);
            assert(statuses(right)[name].expires_at == right.profiles[name].expires_at);
        }
    }
    assert forall|name: Seq<char>| l.dom().contains(name) implies l[name] == r[name] by {
        assert(r.dom().contains(name));
        assert(left.profiles.dom().contains(name) && right.profiles.dom().contains(name));
        assert(l[name] == statuses(left)[name]);
        assert(r[name] == statuses(right)[name]);
    }
    assert(l =~= r);
}

/// Where the time is not known, nothing that depends on it is done: a request for the status, for a
/// run or for a comparison is refused, and the session stays as it was.
pub proof fn law_no_clock_no_change(session: SessionModel, fault: ErrorModel, request: Request)
    requires
        request is Status || request is Run || request is VerifyFingerprint,
    ensures
        step_for(session, Err(fault), request) == StepModel::Reply(refusal_model(fault)),
        session_after(session, Err(fault), request) == session,
{
}

/// The code that is reported of a command is the one that it ended with, so that it is 0 exactly if
/// the command ended with 0; a command that ended without a code is reported as a failure.
pub proof fn law_exit_codes_are_handed_back(code: Option<i32>)
    ensures
        code matches Some(status) ==> exit_code(code) == status,
        exit_code(code) == 0 <==> code == Some(0i32),
        code is None ==> exit_code(code) == 1,
{
}

/// What an answer says is what it holds.
pub proof fn law_answers_say_what_they_hold(
    told: Vec<ProfileStatus>,
    asking: Vec<String>,
    code: i32,
    first: String,
    second: String,
    status: VerificationStatus,
)
    ensures
        Response::Done@ == ResponseModel::Done,
        (Response::Status { profiles: told })@ == (ResponseModel::Status {
            profiles: status_entries(told@),
        }),
        (Response::PasswordRequired { profiles: asking })@ == (ResponseModel::PasswordRequired {
            profiles: texts(asking@),
        }),
        (Response::RunResult { code, stdout: first, stderr: second })@
            == (ResponseModel::RunResult { code, stdout: first@, stderr: second@ }),
        (Response::Verification { status })@ == (ResponseModel::Verification { status }),
        (Response::Error { message: first })@ == (ResponseModel::Error { message: first@ }),
        (RunResult { code, stdout: first, stderr: second })@ == (ResultModel {
            code,
            stdout: first@,
            stderr: second@,
        }),
        (RunOutcome::PasswordRequired { profiles: asking })@ == (OutcomeModel::PasswordRequired {
            profiles: texts(asking@),
        }),
        forall|result: RunResult| #[trigger]
            RunOutcome::Completed(result)@ == OutcomeModel::Completed(result@),
{
}

/// What a step says is what it holds.
pub proof fn law_steps_say_what_they_hold(
    response: Response,
    profiles: Vec<String>,
    ttl_seconds: Option<i64>,
    zero_trust: bool,
    password: String,
    manifest: Manifest,
    command: Vec<String>,
    cwd: String,
    plan: DeliveryPlan,
)
    ensures
        Step::Reply(response)@ == StepModel::Reply(response@),
        (Step::Load { profiles, ttl_seconds, zero_trust, password })@ == (StepModel::Load {
            profiles: texts(profiles@),
            ttl_seconds,
            zero_trust,
            password: password@,
        }),
        (Step::Authorize { manifest, command, cwd, password })@ == (StepModel::Authorize {
            manifest,
            command: texts(command@),
            cwd: cwd@,
            password: password@,
        }),
        (Step::Rotate { password })@ == (StepModel::Rotate { password: password@ }),
        (Step::Execute { command, cwd, plan })@ == (StepModel::Execute {
            command: texts(command@),
            cwd: cwd@,
            plan: plan@,
        }),
{
}

/// A refusal says in words what went wrong, and nothing else.
pub proof fn law_refusals_say_what_went_wrong(fault: ErrorModel)
    ensures
        refusal_model(fault) == (ResponseModel::Error { message: fault_text(fault) }),
{
}

/// A request to unlock asks the vault for the profiles that were named, in that order and with the
/// lifetime, the manner and the password of the request, whatever time it is, and changes nothing
/// before they were read.
pub proof fn law_unlock_requests_are_passed_on(
    session: SessionModel,
    now: Result<i64, ErrorModel>,
    profiles: Vec<String>,
    ttl_seconds: Option<i64>,
    zero_trust: bool,
    password: String,
)
    ensures
        ({
            let request = Request::Unlock { profiles, ttl_seconds, zero_trust, password };
            &&& session_after(session, now, request) == session
            &&& step_for(session, now, request) matches StepModel::Load {
                profiles: asked,
                ttl_seconds: ttl,
                zero_trust: manner,
                password: given,
            } && {
                &&& asked.len() == profiles@.len()
                &&& forall|i: int| 0 <= i < asked.len() ==> #[trigger] asked[i] == profiles@[i]@
                &&& ttl == ttl_seconds
                &&& manner == zero_trust
                &&& given == password@
            }
        }),
{
}

/// A request to unlock is refused exactly if it names no profile, or gives a lifetime that is not
/// positive.
pub proof fn law_unlocks_need_a_profile_and_a_lifetime(count: nat, ttl_seconds: Option<i64>)
    ensures
        unlock_fault(count, ttl_seconds) is None <==> count > 0 && (ttl_seconds matches Some(ttl)
            ==> ttl > 0),
        count == 0 ==> unlock_fault(count, ttl_seconds) == Some(ErrorModel::NothingToUnlock),
        count > 0 && (ttl_seconds matches Some(ttl) && ttl <= 0) ==> unlock_fault(
            count,
            ttl_seconds,
        ) == Some(ErrorModel::UnlockLifetime),
{
}

/// A request to lock is carried out at once and whatever time it is: afterwards the named profiles
/// are gone, or all of them where none is named, and every other one is as it was.
pub proof fn law_lock_requests_are_carried_out(
    session: SessionModel,
    now: Result<i64, ErrorModel>,
    profiles: Vec<String>,
    name: Seq<char>,
)
    ensures
        ({
            let request = Request::Lock { profiles };
            let after = session_after(session, now, request);
            let named = exists|i: int|
                0 <= i < profiles@.len() && (#[trigger] profiles@[i])@ == name;
            &&& step_for(session, now, request) == StepModel::Reply(ResponseModel::Done)
            &&& after.profiles.dom().contains(name) <==> session.profiles.dom().contains(name)
                && profiles@.len() > 0 && !named
            &&& after.profiles.dom().contains(name) ==> after.profiles[name]
                == session.profiles[name]
        }),
{
    let all = texts(profiles@);
    if all.contains(name) {
        let i = choose|i: int| 0 <= i < all.len() && all[i] == name;
        assert(profiles@[i]@ == name);
    }
    if exists|i: int| 0 <= i < profiles@.len() && (#[trigger] profiles@[i])@ == name {
        let i = choose|i: int| 0 <= i < profiles@.len() && (#[trigger] profiles@[i])@ == name;
        assert(all[i] == name);
    }
}

/// A request for the status is answered with the profiles that are held and have not expired, in
/// the order of their names, each with the time at which it expires and with whether it asks for
/// the password before each run; what has expired is gone afterwards.
pub proof fn law_the_status_tells_what_is_held(
    session: SessionModel,
    now: i64,
    told: Seq<(Seq<char>, StatusModel)>,
)
    requires
        in_order(told),
        forall|name: Seq<char>| #[trigger]
            session.profiles.dom().contains(name) && session.profiles[name].expires_at > now
                ==> exists|i: int| 0 <= i < told.len() && (#[trigger] told[i]).0 == name,
        forall|i: int|
            0 <= i < told.len() ==> {
                let (name, status) = #[trigger] told[i];
                &&& session.profiles.dom().contains(name)
                &&& session.profiles[name].expires_at > now
                &&& status.expires_at == session.profiles[name].expires_at
                &&& status.zero_trust == session.profiles[name].zero_trust
            },
    ensures
        step_for(session, Ok(now), Request::Status) == StepModel::Reply(
            ResponseModel::Status { profiles: told },
        ),
        forall|name: Seq<char>|
            #![trigger session_after(session, Ok(now), Request::Status).profiles.dom().contains(name)]
            session_after(session, Ok(now), Request::Status).profiles.dom().contains(name)
                <==> session.profiles.dom().contains(name) && session.profiles[name].expires_at
                > now,
{
    let wanted = statuses(purged(session, now));
    let have = contents(told);
    assert forall|name: Seq<char>| have.dom().contains(name) == wanted.dom().contains(name) by {
        if have.dom().contains(name) {
            let i = choose|i: int| 0 <= i < told.len() && (#[trigger] told[i]).0 == name;
            assert(session.profiles.dom().contains(told[i].0));
        }
        if wanted.dom().contains(name) {
            assert(session.profiles.dom().contains(name));
            let i = choose|i: int| 0 <= i < told.len() && (#[trigger] told[i]).0 == name;
            lemma_entry_in_contents(told, i);
        }
    }
    assert forall|name: Seq<char>| have.dom().contains(name) implies have[name]
        == wanted[name] by {
        let i = choose|i: int| 0 <= i < told.len() && (#[trigger] told[i]).0 == name;
        assert(told[i].0 == name);
        lemma_entry_in_contents(told, i);
    }
    assert(have =~= wanted);
    lemma_sorted(told);
}

/// A request to rotate the fingerprint key is passed on with its password, whatever time it is, and
/// changes nothing before the vault has a new key; one to compare a secret with a fingerprint is answered from the
/// profiles that have not expired, with the names and the fingerprint of the request.
pub proof fn law_fingerprint_requests_are_passed_on(
    session: SessionModel,
    now: i64,
    reading: Result<i64, ErrorModel>,
    password: String,
    profile: String,
    secret: String,
    fingerprint: String,
)
    ensures
        ({
            let rotate = Request::RotateFingerprintKey { password };
            let compare = Request::VerifyFingerprint { profile, secret, fingerprint };
            let answer = fingerprint_answer(
                purged(session, now),
                profile@,
                secret@,
                fingerprint@,
            );
            &&& step_for(session, reading, rotate) == (StepModel::Rotate { password: password@ })
            &&& session_after(session, reading, rotate) == session
            &&& answer matches Ok(status) ==> step_for(session, Ok(now), compare)
                == StepModel::Reply(ResponseModel::Verification { status })
            &&& answer matches Err(fault) ==> step_for(session, Ok(now), compare)
                == StepModel::Reply(ResponseModel::Error { message: fault_text(fault) })
        }),
{
}

/// Whether a command receives this value as a binding says: on standard input, as the text whose
/// UTF-8 bytes it is in the variable that the binding names, or on the file descriptor of the
/// number that it names.
pub open spec fn receives(plan: PlanModel, binding: BindingModel, value: Seq<u8>) -> bool {
    match binding.transport {
        Transport::Stdin => plan.stdin == Some(value),
        Transport::Env => exists|name: Seq<char>, text: Seq<char>|
            binding.target == Some(TargetModel::Text(name)) && encode_utf8(text) == value
                && #[trigger] plan.variables.contains((name, text)),
        Transport::Fd => exists|number: i32|
            binding.target is Some && target_number(binding.target->Some_0) == Some(number as i64)
                && #[trigger] plan.descriptors.contains((number, value)),
    }
}

/// A command that is run is the one that was asked for, in the place that was asked for, and it
/// receives for every binding of its manifest, as the binding says, the bytes that are held under
/// the names of the profile and the secret. It is the same for a run that needed no password and
/// for one whose password was accepted.
pub proof fn law_commands_receive_their_secrets(
    session: SessionModel,
    manifest: Manifest,
    command: Seq<Seq<char>>,
    cwd: Seq<char>,
    password: Option<Seq<char>>,
    i: int,
    j: int,
)
    requires
        0 <= i < manifest.profiles@.len(),
        0 <= j < manifest.profiles@[i].1.secrets@.len(),
    ensures
        ({
            let (profile, bindings) = manifest.profiles@[i];
            let (secret, binding) = bindings.secrets@[j];
            let value = session.profiles[profile].secrets[secret];
            &&& run_step(session, manifest, command, cwd, password) matches StepModel::Execute {
                command: run,
                cwd: place,
                plan,
            } ==> run == command && place == cwd && receives(plan, binding@, value)
            &&& authorized_step(session, manifest, command, cwd, Ok(()))
                matches StepModel::Execute { command: run, cwd: place, plan } ==> run == command
                && place == cwd && receives(plan, binding@, value)
        }),
{
    if delivery_step(session, manifest, command, cwd) is Execute {
        lemma_received(session, manifest, command, cwd, i, j);
    }
}

proof fn lemma_received(
    session: SessionModel,
    manifest: Manifest,
    command: Seq<Seq<char>>,
    cwd: Seq<char>,
    i: int,
    j: int,
)
    requires
        0 <= i < manifest.profiles@.len(),
        0 <= j < manifest.profiles@[i].1.secrets@.len(),
        delivery_step(session, manifest, command, cwd) is Execute,
    ensures
        receives(
            delivery_step(session, manifest, command, cwd)->Execute_plan,
            manifest.profiles@[i].1.secrets@[j].1@,
            session.profiles[manifest.profiles@[i].0].secrets[manifest.profiles@[i].1.secrets@[j].0],
        ),
{
    let deliveries = deliveries_of(session, manifest.profiles@, 0)->Ok_0;
    let plan = plan_of(deliveries)->Ok_0;
    law_deliveries_bear_what_is_held(session, manifest, i, j, 0);
    let binding = manifest.profiles@[i].1.secrets@[j].1@;
    let value = session.profiles[manifest.profiles@[i].0].secrets[manifest.profiles@[i].1.secrets@[j].0];
    let m = choose|m: int|
        0 <= m < deliveries.len() && (#[trigger] deliveries[m]).binding == binding
            && deliveries[m].value == value;
    law_values_arrive_unchanged(deliveries, m);
    if binding.transport == Transport::Fd {
        let number = choose|number: i32|
            goes_to_descriptor(deliveries[m], number as int)
                && #[trigger] plan.descriptors.contains((number, value));
        assert(plan.descriptors.contains((number, value)));
    }
}

/// A run goes ahead exactly if every profile of its manifest is held and none of them asks for the
/// password, every secret that it binds is in its profile, and the deliveries can be planned; one
/// whose password was accepted goes ahead under the same conditions, but for the password.
pub proof fn law_runs_go_ahead_if_everything_is_there(
    session: SessionModel,
    manifest: Manifest,
    command: Seq<Seq<char>>,
    cwd: Seq<char>,
    password: Option<Seq<char>>,
)
    ensures
        ({
            let profiles = manifest.profiles@;
            let held = forall|i: int|
                0 <= i < profiles.len() ==> session.profiles.dom().contains(
                    (#[trigger] profiles[i]).0,
                );
            let there = forall|i: int, j: int|
                0 <= i < profiles.len() && 0 <= j < profiles[i].1.secrets@.len()
                    ==> session.profiles[profiles[i].0].secrets.dom().contains(
                    (#[trigger] profiles[i].1.secrets@[j]).0,
                );
            let open = forall|i: int|
                0 <= i < profiles.len() ==> !session.profiles[(
                #[trigger] profiles[i]).0].zero_trust;
            let fits = plan_of(deliveries_of(session, profiles, 0)->Ok_0) is Ok;
            let run = run_step(session, manifest, command, cwd, password);
            let authorized = authorized_step(session, manifest, command, cwd, Ok(()));
            &&& run is Execute <==> held && there && open && fits
            &&& authorized is Execute <==> held && there && fits
            &&& held && there && !fits ==> authorized == StepModel::Reply(
                ResponseModel::Error {
                    message: fault_text(
                        plan_of(deliveries_of(session, profiles, 0)->Ok_0)->Err_0,
                    ),
                },
            )
            &&& held && !open ==> (run matches StepModel::Reply(
                ResponseModel::PasswordRequired { .. },
            ) <==> password is None)
            &&& held && !open ==> (run is Authorize <==> password is Some)
        }),
{
    let profiles = manifest.profiles@;
    law_secrets_are_handed_out_if_they_are_there(session, manifest);
    law_locked_profiles_refuse_runs(session, manifest);
    if protected_profiles(session, profiles, 0) is Ok {
        let asking = protected_profiles(session, profiles, 0)->Ok_0;
        if asking.len() > 0 {
            assert(asking.contains(asking[0]));
            law_protected_profiles_are_zero_trust(session, manifest, asking[0]);
            let i = choose|i: int|
                0 <= i < profiles.len() && (#[trigger] profiles[i]).0 == asking[0];
            assert(session.profiles[profiles[i].0].zero_trust);
        } else {
            assert forall|i: int| 0 <= i < profiles.len() implies !session.profiles[(
            #[trigger] profiles[i]).0].zero_trust by {
                law_protected_profiles_are_zero_trust(session, manifest, profiles[i].0);
                if session.profiles[profiles[i].0].zero_trust {
                    assert(names(profiles, profiles[i].0));
                    assert(asking.contains(profiles[i].0));
                }
            }
        }
    }
}

/// A run whose password the vault did not accept executes nothing: it is answered with the cause.
pub proof fn law_a_wrong_password_runs_nothing(
    session: SessionModel,
    manifest: Manifest,
    command: Seq<Seq<char>>,
    cwd: Seq<char>,
    cause: Seq<char>,
)
    ensures
        authorized_step(session, manifest, command, cwd, Err(cause)) == StepModel::Reply(
            ResponseModel::Error {
                message: fault_text(ErrorModel::PasswordRejected { cause }),
            },
        ),
{
}

/// A request to run a command is taken up with the profiles that have not expired, and with the
/// manifest, the words of the command, the place and the password of the request.
pub proof fn law_run_requests_are_taken_up_as_asked(
    session: SessionModel,
    now: i64,
    manifest: Manifest,
    command: Vec<String>,
    cwd: String,
    password: Option<String>,
)
    ensures
        ({
            let request = Request::Run { manifest, command, cwd, password };
            let words = Seq::new(command@.len(), |i: int| command@[i]@);
            let given = if password is Some {
                Some(password->Some_0@)
            } else {
                None
            };
            &&& step_for(session, Ok(now), request) == run_step(
                purged(session, now),
                manifest,
                words,
                cwd@,
                given,
            )
            &&& session_after(session, Ok(now), request) == purged(session, now)
        }),
{
    assert(texts(command@) =~= Seq::new(command@.len(), |i: int| command@[i]@));
}

/// From the vault to the command. What a command receives for a binding in a profile that was
/// unlocked are the bytes that were read from the vault under the name of the secret; and it
/// receives them only before the lifetime of the profile is over, counted in seconds from the
/// unlock.
pub proof fn law_commands_receive_the_bytes_that_were_read(
    session: SessionModel,
    now: i64,
    loaded: Seq<LoadedProfile>,
    ttl_override: Option<i64>,
    zero_trust: bool,
    key: KeyModel,
    index: int,
    place: int,
    later: i64,
    manifest: Manifest,
    command: Seq<Seq<char>>,
    cwd: Seq<char>,
    i: int,
    j: int,
)
    requires
        0 <= index < loaded.len(),
        forall|k: int|
            index < k < loaded.len() ==> (#[trigger] loaded[k]).name@ != loaded[index].name@,
        0 <= place < loaded[index].secrets@.len(),
        forall|k: int|
            place < k < loaded[index].secrets@.len() ==> (
            #[trigger] loaded[index].secrets@[k]).name@ != loaded[index].secrets@[place].name@,
        0 <= i < manifest.profiles@.len(),
        manifest.profiles@[i].0 == loaded[index].name@,
        0 <= j < manifest.profiles@[i].1.secrets@.len(),
        manifest.profiles@[i].1.secrets@[j].0 == loaded[index].secrets@[place].name@,
    ensures
        ({
            let held = purged(unlocked(session, now, loaded, ttl_override, zero_trust, key), later);
            let ttl = if ttl_override is Some {
                ttl_override->Some_0 as int
            } else {
                loaded[index].ttl_seconds as int
            };
            authorized_step(held, manifest, command, cwd, Ok(())) matches StepModel::Execute {
                plan,
                ..
            } ==> {
                &&& later - now < ttl
                &&& receives(
                    plan,
                    manifest.profiles@[i].1.secrets@[j].1@,
                    loaded[index].secrets@[place].value@,
                )
            }
        }),
{
    let after = unlocked(session, now, loaded, ttl_override, zero_trust, key);
    let held = purged(after, later);
    let name = loaded[index].name@;
    if delivery_step(held, manifest, command, cwd) is Execute {
        law_unlocks_hold_what_was_read(
            session,
            now,
            loaded,
            ttl_override,
            zero_trust,
            key,
            index,
            place,
            name,
        );
        law_unlocks_last_for_the_lifetime(
            session,
            now,
            loaded,
            ttl_override,
            zero_trust,
            key,
            index,
            later,
        );
        if !held.profiles.dom().contains(name) {
            lemma_deliveries_need_profile(held, manifest.profiles@, 0, i);
        }
        assert(held.profiles[name] == after.profiles[name]);
        lemma_received(held, manifest, command, cwd, i, j);
    }
}

/// In the name of a broker a user name keeps its ASCII letters and digits; every other character
/// becomes an underscore.
pub proof fn law_user_names_keep_letters_and_digits(character: char)
    ensures
        '0' <= character <= '9' || 'A' <= character <= 'Z' || 'a' <= character <= 'z'
            ==> name_character(character) == character,
        !('0' <= character <= '9' || 'A' <= character <= 'Z' || 'a' <= character <= 'z')
            ==> name_character(character) == '_',
{
}

/// A fault that a client reports tells of the answer that it got: an error by its words, any other
/// answer by itself.
pub proof fn law_reply_faults_tell_of_the_answer(fault: ReplyFault, response: Response)
    requires
        tells_of(fault, response),
    ensures
        response matches Response::Error { message } ==> fault == (ReplyFault::Reported {
            message,
        }),
        response !is Error ==> fault == (ReplyFault::Unexpected { response }),
{
}

/// What a run is answered that does not go ahead. Where a profile is not held, the answer is that
/// error; where profiles ask for the password and none was given, the answer names exactly those,
/// in their order; where a secret is not there or the deliveries do not fit, the answer is that
/// error, whether the run needed a password or not. With a password that has to be accepted first,
/// the same manifest and the same command wait for that.
pub proof fn law_runs_are_answered(
    session: SessionModel,
    manifest: Manifest,
    command: Seq<Seq<char>>,
    cwd: Seq<char>,
    given: Seq<char>,
)
    ensures
        ({
            let asking = protected_profiles(session, manifest.profiles@, 0);
            let found = deliveries_of(session, manifest.profiles@, 0);
            let error = |fault: ErrorModel|
                StepModel::Reply(ResponseModel::Error { message: fault_text(fault) });
            let without = run_step(session, manifest, command, cwd, None);
            let with = run_step(session, manifest, command, cwd, Some(given));
            let authorized = authorized_step(session, manifest, command, cwd, Ok(()));
            &&& asking matches Err(fault) ==> without == error(fault) && with == error(fault)
            &&& asking matches Ok(profiles) ==> {
                &&& profiles.len() > 0 ==> without == StepModel::Reply(
                    ResponseModel::PasswordRequired { profiles },
                )
                &&& profiles.len() > 0 ==> with == (StepModel::Authorize {
                    manifest,
                    command,
                    cwd,
                    password: given,
                })
                &&& profiles.len() == 0 && found is Err ==> without == error(found->Err_0) && with
                    == error(found->Err_0)
                &&& profiles.len() == 0 && found is Ok && plan_of(found->Ok_0) is Err ==> without
                    == error(plan_of(found->Ok_0)->Err_0) && with == error(
                    plan_of(found->Ok_0)->Err_0,
                )
            }
            &&& found is Err ==> authorized == error(found->Err_0)
            &&& found is Ok && plan_of(found->Ok_0) is Err ==> authorized == error(
                plan_of(found->Ok_0)->Err_0,
            )
            &&& found is Ok && plan_of(found->Ok_0) is Ok ==> authorized == (StepModel::Execute {
                command,
                cwd,
                plan: plan_of(found->Ok_0)->Ok_0,
            })
        }),
{
}

} // verus!
