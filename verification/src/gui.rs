//! The graphical client's requests: what is done for each of them, and in which order.

use vstd::prelude::*;

use crate::broker::check_unlock;
use crate::broker::unlock_fault;
use crate::cli::new_profile_check;
use crate::cli::{check_new_profile, check_value};
use crate::error::{fault_text, outcome};
use crate::error::{Error, ErrorModel, Fault};
use crate::names::name_check;
use crate::names::validate_name;
use crate::session::ProfileStatus;
use crate::text::texts;
use crate::vault::{ProfileSummary, SecretSummary};

verus! {

broadcast use vstd::string::group_string_axioms;

/// What the graphical client asks for.
#[allow(inconsistent_fields)]
#[derive(Debug)]
pub enum Request {
    Snapshot { password: Option<String> },
    InitializeVault { password: String },
    UnlockVault { password: String },
    LockVault,
    ListSecrets { profile: String, password: String },
    CreateProfile { name: String, ttl_seconds: i64, password: String },
    DeleteProfile { name: String, password: String },
    SetSecret { profile: String, name: String, value: String, password: String },
    DeleteSecret { profile: String, name: String, password: String },
    UnlockProfiles {
        profiles: Vec<String>,
        ttl_seconds: Option<i64>,
        zero_trust: bool,
        password: String,
    },
    LockProfiles { profiles: Vec<String> },
}

/// What the graphical client is answered.
#[derive(Debug)]
pub enum Response {
    Snapshot { snapshot: Snapshot },
    Secrets { secrets: Vec<SecretSummary> },
    Error { message: String },
}

/// What the graphical client shows.
#[derive(Debug)]
pub struct Snapshot {
    pub vault_exists: bool,
    pub vault_path: String,
    pub session_unlocked: bool,
    pub profiles: Vec<ProfileSummary>,
    pub active_profiles: Vec<ProfileStatus>,
}

/// Whether a snapshot lists the profiles of the vault: only with the password, and if there is a
/// vault.
pub open spec fn snapshot_lists(password_given: bool, vault_exists: bool) -> bool {
    password_given && vault_exists
}

/// Whether a snapshot lists the profiles of the vault.
pub fn lists_profiles(password: Option<&str>, vault_exists: bool) -> (r: bool)
    ensures
        r == snapshot_lists(password is Some, vault_exists),
        r <==> password is Some && vault_exists,
{
    password.is_some() && vault_exists
}

/// A snapshot. `listed` is what the vault told of its profiles, if it was asked.
pub fn snapshot(
    password: Option<&str>,
    vault_exists: bool,
    vault_path: String,
    listed: Vec<ProfileSummary>,
    active_profiles: Vec<ProfileStatus>,
) -> (r: Snapshot)
    ensures
        r.vault_exists == vault_exists,
        r.vault_path == vault_path,
        r.session_unlocked == (password is Some),
        r.active_profiles == active_profiles,
        snapshot_lists(password is Some, vault_exists) ==> r.profiles == listed,
        !snapshot_lists(password is Some, vault_exists) ==> r.profiles@.len() == 0,
        password is Some && vault_exists ==> r.profiles == listed,
        password is None || !vault_exists ==> r.profiles@.len() == 0,
{
    let profiles: Vec<ProfileSummary> = if lists_profiles(password, vault_exists) {
        listed
    } else {
        Vec::new()
    };
    Snapshot {
        vault_exists,
        vault_path,
        session_unlocked: password.is_some(),
        profiles,
        active_profiles,
    }
}

/// Checks that there is a vault to open.
pub fn check_open(present: bool) -> (r: Result<(), Error>)
    ensures
        outcome(r) == if present {
            Ok(())
        } else {
            Err(ErrorModel::VaultAbsent)
        },
{
    if present {
        Ok(())
    } else {
        Err(Fault::VaultAbsent)
    }
}

/// Checks that there is no vault before one is made.
pub fn check_create(present: bool) -> (r: Result<(), Error>)
    ensures
        outcome(r) == if present {
            Err(ErrorModel::VaultPresent)
        } else {
            Ok(())
        },
{
    if present {
        Err(Fault::VaultPresent)
    } else {
        Ok(())
    }
}

/// One thing that is done for a request. They are done in order; the first that fails ends it, and
/// its error is the answer.
#[allow(inconsistent_fields)]
#[derive(Debug)]
pub enum Operation {
    /// Make a vault, if there is none.
    CreateVault { password: String },
    /// Open the vault, if there is one.
    OpenVault { password: String },
    /// Ask the broker to lock these profiles.
    LockProfiles { profiles: Vec<String> },
    /// Ask the broker to unlock these profiles.
    UnlockProfiles {
        profiles: Vec<String>,
        ttl_seconds: Option<i64>,
        zero_trust: bool,
        password: String,
    },
    CreateProfile { name: String, ttl_seconds: i64 },
    DeleteProfile { name: String },
    PutSecret { profile: String, name: String, value: String },
    DeleteSecret { profile: String, name: String },
    /// Fail with this error.
    Refuse { error: Error },
    /// Answer with a snapshot.
    AnswerSnapshot { password: Option<String> },
    /// Answer with the secrets of a profile.
    AnswerSecrets { profile: String },
}

/// What an operation says.
#[allow(inconsistent_fields)]
pub enum OperationModel {
    CreateVault { password: Seq<char> },
    OpenVault { password: Seq<char> },
    LockProfiles { profiles: Seq<Seq<char>> },
    UnlockProfiles {
        profiles: Seq<Seq<char>>,
        ttl_seconds: Option<i64>,
        zero_trust: bool,
        password: Seq<char>,
    },
    CreateProfile { name: Seq<char>, ttl_seconds: i64 },
    DeleteProfile { name: Seq<char> },
    PutSecret { profile: Seq<char>, name: Seq<char>, value: Seq<char> },
    DeleteSecret { profile: Seq<char>, name: Seq<char> },
    Refuse { fault: ErrorModel },
    AnswerSnapshot { password: Option<Seq<char>> },
    AnswerSecrets { profile: Seq<char> },
}

impl View for Operation {
    type V = OperationModel;

    open spec fn view(&self) -> OperationModel {
        match *self {
            Operation::CreateVault { password } => OperationModel::CreateVault {
                password: password@,
            },
            Operation::OpenVault { password } => OperationModel::OpenVault { password: password@ },
            Operation::LockProfiles { profiles } => OperationModel::LockProfiles {
                profiles: texts(profiles@),
            },
            Operation::UnlockProfiles { profiles, ttl_seconds, zero_trust, password } => {
                OperationModel::UnlockProfiles {
                    profiles: texts(profiles@),
                    ttl_seconds,
                    zero_trust,
                    password: password@,
                }
            },
            Operation::CreateProfile { name, ttl_seconds } => OperationModel::CreateProfile {
                name: name@,
                ttl_seconds,
            },
            Operation::DeleteProfile { name } => OperationModel::DeleteProfile { name: name@ },
            Operation::PutSecret { profile, name, value } => OperationModel::PutSecret {
                profile: profile@,
                name: name@,
                value: value@,
            },
            Operation::DeleteSecret { profile, name } => OperationModel::DeleteSecret {
                profile: profile@,
                name: name@,
            },
            Operation::Refuse { error } => OperationModel::Refuse { fault: error@ },
            Operation::AnswerSnapshot { password } => OperationModel::AnswerSnapshot {
                password: match password {
                    Some(password) => Some(password@),
                    None => None,
                },
            },
            Operation::AnswerSecrets { profile } => OperationModel::AnswerSecrets {
                profile: profile@,
            },
        }
    }
}

/// What a row of operations says.
pub open spec fn operation_models(operations: Seq<Operation>) -> Seq<OperationModel> {
    Seq::new(operations.len(), |i: int| operations[i]@)
}

/// What is done for a request.
pub open spec fn operations_for(request: Request) -> Seq<OperationModel> {
    match request {
        Request::Snapshot { password } => seq![
            OperationModel::AnswerSnapshot {
                password: match password {
                    Some(password) => Some(password@),
                    None => None,
                },
            },
        ],
        Request::InitializeVault { password } => seq![
            OperationModel::CreateVault { password: password@ },
            OperationModel::AnswerSnapshot { password: Some(password@) },
        ],
        Request::UnlockVault { password } => seq![
            OperationModel::OpenVault { password: password@ },
            OperationModel::AnswerSnapshot { password: Some(password@) },
        ],
        Request::LockVault => seq![
            OperationModel::LockProfiles { profiles: Seq::empty() },
            OperationModel::AnswerSnapshot { password: None },
        ],
        Request::ListSecrets { profile, password } => seq![
            OperationModel::OpenVault { password: password@ },
            OperationModel::AnswerSecrets { profile: profile@ },
        ],
        Request::CreateProfile { name, ttl_seconds, password } => match new_profile_check(
            name@,
            ttl_seconds,
        ) {
            Err(fault) => seq![
                OperationModel::OpenVault { password: password@ },
                OperationModel::Refuse { fault },
            ],
            Ok(()) => seq![
                OperationModel::OpenVault { password: password@ },
                OperationModel::CreateProfile { name: name@, ttl_seconds },
                OperationModel::AnswerSnapshot { password: Some(password@) },
            ],
        },
        Request::DeleteProfile { name, password } => seq![
            OperationModel::LockProfiles { profiles: seq![name@] },
            OperationModel::OpenVault { password: password@ },
            OperationModel::DeleteProfile { name: name@ },
            OperationModel::AnswerSnapshot { password: Some(password@) },
        ],
        Request::SetSecret { profile, name, value, password } => match name_check(
            name@,
            "secret"@,
        ) {
            Err(fault) => seq![OperationModel::Refuse { fault }],
            Ok(()) => if value@.len() == 0 {
                seq![OperationModel::Refuse { fault: Fault::ValueEmpty }]
            } else {
                seq![
                    OperationModel::OpenVault { password: password@ },
                    OperationModel::PutSecret { profile: profile@, name: name@, value: value@ },
                    OperationModel::AnswerSecrets { profile: profile@ },
                ]
            },
        },
        Request::DeleteSecret { profile, name, password } => seq![
            OperationModel::OpenVault { password: password@ },
            OperationModel::DeleteSecret { profile: profile@, name: name@ },
            OperationModel::AnswerSecrets { profile: profile@ },
        ],
        Request::UnlockProfiles { profiles, ttl_seconds, zero_trust, password } => {
            match unlock_fault(profiles@.len(), ttl_seconds) {
                Some(fault) => seq![OperationModel::Refuse { fault }],
                None => seq![
                    OperationModel::UnlockProfiles {
                        profiles: texts(profiles@),
                        ttl_seconds,
                        zero_trust,
                        password: password@,
                    },
                    OperationModel::AnswerSnapshot { password: Some(password@) },
                ],
            }
        },
        Request::LockProfiles { profiles } => seq![
            OperationModel::LockProfiles { profiles: texts(profiles@) },
            OperationModel::AnswerSnapshot { password: None },
        ],
    }
}

/// What is done for a request.
#[verifier::rlimit(40)]
pub fn handle(request: Request) -> (r: Vec<Operation>)
    ensures
        operation_models(r@) == operations_for(request),
{
    let mut operations: Vec<Operation> = Vec::new();
    match request {
        Request::Snapshot { password } => {
            operations.push(Operation::AnswerSnapshot { password });
        },
        Request::InitializeVault { password } => {
            operations.push(Operation::CreateVault { password: password.clone() });
            operations.push(Operation::AnswerSnapshot { password: Some(password) });
        },
        Request::UnlockVault { password } => {
            operations.push(Operation::OpenVault { password: password.clone() });
            operations.push(Operation::AnswerSnapshot { password: Some(password) });
        },
        Request::LockVault => {
            let none: Vec<String> = Vec::new();
            assert(texts(none@) =~= Seq::empty());
            operations.push(Operation::LockProfiles { profiles: none });
            operations.push(Operation::AnswerSnapshot { password: None });
        },
        Request::ListSecrets { profile, password } => {
            operations.push(Operation::OpenVault { password });
            operations.push(Operation::AnswerSecrets { profile });
        },
        Request::CreateProfile { name, ttl_seconds, password } => {
            operations.push(Operation::OpenVault { password: password.clone() });
            match check_new_profile(name.as_str(), ttl_seconds) {
                Err(error) => {
                    operations.push(Operation::Refuse { error });
                },
                Ok(()) => {
                    operations.push(Operation::CreateProfile { name, ttl_seconds });
                    operations.push(Operation::AnswerSnapshot { password: Some(password) });
                },
            }
        },
        Request::DeleteProfile { name, password } => {
            let mut one: Vec<String> = Vec::new();
            one.push(name.clone());
            assert(texts(one@) =~= seq![name@]);
            operations.push(Operation::LockProfiles { profiles: one });
            operations.push(Operation::OpenVault { password: password.clone() });
            operations.push(Operation::DeleteProfile { name });
            operations.push(Operation::AnswerSnapshot { password: Some(password) });
        },
        Request::SetSecret { profile, name, value, password } => {
            match validate_name(name.as_str(), "secret") {
                Err(error) => {
                    operations.push(Operation::Refuse { error });
                },
                Ok(()) => match check_value(value.as_str()) {
                    Err(error) => {
                        operations.push(Operation::Refuse { error });
                    },
                    Ok(()) => {
                        operations.push(Operation::OpenVault { password });
                        operations.push(
                            Operation::PutSecret { profile: profile.clone(), name, value },
                        );
                        operations.push(Operation::AnswerSecrets { profile });
                    },
                },
            }
        },
        Request::DeleteSecret { profile, name, password } => {
            operations.push(Operation::OpenVault { password });
            operations.push(Operation::DeleteSecret { profile: profile.clone(), name });
            operations.push(Operation::AnswerSecrets { profile });
        },
        Request::UnlockProfiles { profiles, ttl_seconds, zero_trust, password } => {
            match check_unlock(profiles.len(), ttl_seconds) {
                Some(error) => {
                    operations.push(Operation::Refuse { error });
                },
                None => {
                    operations.push(
                        Operation::UnlockProfiles {
                            profiles,
                            ttl_seconds,
                            zero_trust,
                            password: password.clone(),
                        },
                    );
                    operations.push(Operation::AnswerSnapshot { password: Some(password) });
                },
            }
        },
        Request::LockProfiles { profiles } => {
            operations.push(Operation::LockProfiles { profiles });
            operations.push(Operation::AnswerSnapshot { password: None });
        },
    }
    assert(operation_models(operations@) =~= operations_for(request));
    operations
}

/// Whether an operation ends a request: with an answer or with an error.
pub open spec fn ends(operation: OperationModel) -> bool {
    operation is AnswerSnapshot || operation is AnswerSecrets || operation is Refuse
}

/// Whether an operation reads or changes what the open vault holds.
pub open spec fn uses_vault(operation: OperationModel) -> bool {
    operation is CreateProfile || operation is DeleteProfile || operation is PutSecret
        || operation is DeleteSecret || operation is AnswerSecrets
}

/// Every request is answered once, at its end.
pub proof fn law_requests_are_answered_once(request: Request)
    ensures
        operations_for(request).len() > 0,
        ends(operations_for(request).last()),
        forall|i: int|
            0 <= i < operations_for(request).len() - 1 ==> !ends(
                #[trigger] operations_for(request)[i],
            ),
{
}

/// The password that a request brings.
pub open spec fn request_password(request: Request) -> Option<Seq<char>> {
    match request {
        Request::Snapshot { password } => match password {
            Some(password) => Some(password@),
            None => None,
        },
        Request::InitializeVault { password } => Some(password@),
        Request::UnlockVault { password } => Some(password@),
        Request::LockVault => None,
        Request::ListSecrets { profile: _, password } => Some(password@),
        Request::CreateProfile { name: _, ttl_seconds: _, password } => Some(password@),
        Request::DeleteProfile { name: _, password } => Some(password@),
        Request::SetSecret { profile: _, name: _, value: _, password } => Some(password@),
        Request::DeleteSecret { profile: _, name: _, password } => Some(password@),
        Request::UnlockProfiles { profiles: _, ttl_seconds: _, zero_trust: _, password } => Some(
            password@,
        ),
        Request::LockProfiles { profiles: _ } => None,
    }
}

/// What the vault holds is read or changed only after the vault was opened, with the password that
/// the request brings.
pub proof fn law_the_vault_is_opened_first(request: Request, i: int)
    requires
        0 <= i < operations_for(request).len(),
        uses_vault(operations_for(request)[i]),
    ensures
        request_password(request) matches Some(password) && exists|j: int|
            0 <= j < i && #[trigger] operations_for(request)[j] == (OperationModel::OpenVault {
                password,
            }),
{
    let operations = operations_for(request);
    let opening = OperationModel::OpenVault { password: request_password(request)->Some_0 };
    assert(operations[0] == opening || operations[1] == opening);
}

/// A request that is refused for its input changes nothing in the vault and asks nothing of the
/// broker.
pub proof fn law_refused_requests_change_nothing(request: Request, i: int)
    requires
        operations_for(request).last() is Refuse,
        0 <= i < operations_for(request).len(),
    ensures
        operations_for(request)[i] is Refuse || operations_for(request)[i] is OpenVault,
{
}

/// A profile is locked before it is deleted.
pub proof fn law_deleted_profiles_are_locked_first(request: Request, i: int)
    requires
        0 <= i < operations_for(request).len(),
        operations_for(request)[i] is DeleteProfile,
    ensures
        i > 0,
        operations_for(request)[0] == (OperationModel::LockProfiles {
            profiles: seq![operations_for(request)[i]->DeleteProfile_name],
        }),
{
}

/// The answer when a request could not be carried out.
pub fn refusal(error: &Error) -> (r: Response)
    ensures
        r matches Response::Error { message } && message@ == fault_text(error@),
{
    Response::Error { message: error.message() }
}

/// What an operation says is what it holds, for every kind of operation.
pub proof fn law_operations_say_what_they_hold(
    password: String,
    profile: String,
    name: String,
    value: String,
    profiles: Vec<String>,
    ttl_seconds: i64,
    lifetime: Option<i64>,
    zero_trust: bool,
    error: Error,
    operations: Seq<Operation>,
)
    ensures
        (Operation::CreateVault { password })@ == (OperationModel::CreateVault {
            password: password@,
        }),
        (Operation::OpenVault { password })@ == (OperationModel::OpenVault { password: password@ }),
        (Operation::LockProfiles { profiles })@ == (OperationModel::LockProfiles {
            profiles: texts(profiles@),
        }),
        (Operation::UnlockProfiles { profiles, ttl_seconds: lifetime, zero_trust, password })@ == (
        OperationModel::UnlockProfiles {
            profiles: texts(profiles@),
            ttl_seconds: lifetime,
            zero_trust,
            password: password@,
        }),
        (Operation::CreateProfile { name, ttl_seconds })@ == (OperationModel::CreateProfile {
            name: name@,
            ttl_seconds,
        }),
        (Operation::DeleteProfile { name })@ == (OperationModel::DeleteProfile { name: name@ }),
        (Operation::PutSecret { profile, name, value })@ == (OperationModel::PutSecret {
            profile: profile@,
            name: name@,
            value: value@,
        }),
        (Operation::DeleteSecret { profile, name })@ == (OperationModel::DeleteSecret {
            profile: profile@,
            name: name@,
        }),
        (Operation::Refuse { error })@ == (OperationModel::Refuse { fault: error@ }),
        (Operation::AnswerSnapshot { password: Some(password) })@ == (
        OperationModel::AnswerSnapshot { password: Some(password@) }),
        (Operation::AnswerSnapshot { password: None })@ == (OperationModel::AnswerSnapshot {
            password: None,
        }),
        (Operation::AnswerSecrets { profile })@ == (OperationModel::AnswerSecrets {
            profile: profile@,
        }),
        operation_models(operations).len() == operations.len(),
        forall|i: int|
            0 <= i < operations.len() ==> #[trigger] operation_models(operations)[i]
                == operations[i]@,
{
}

/// The requests on the vault as a whole: a snapshot is answered with the password that came with
/// it, if one did; a vault is made or opened with the password that was given, and the answer is a
/// snapshot with it; locking the vault locks every profile, and the snapshot has no password.
pub proof fn law_vault_requests_are_carried_out(password: String)
    ensures
        ({
            let plain = operations_for(Request::Snapshot { password: None });
            let full = operations_for(Request::Snapshot { password: Some(password) });
            let made = operations_for(Request::InitializeVault { password });
            let opened = operations_for(Request::UnlockVault { password });
            let locked = operations_for(Request::LockVault);
            let shown = OperationModel::AnswerSnapshot { password: Some(password@) };
            let bare = OperationModel::AnswerSnapshot { password: None };
            &&& plain.len() == 1 && plain[0] == bare
            &&& full.len() == 1 && full[0] == shown
            &&& made.len() == 2 && made[0] == (OperationModel::CreateVault {
                password: password@,
            }) && made[1] == shown
            &&& opened.len() == 2 && opened[0] == (OperationModel::OpenVault {
                password: password@,
            }) && opened[1] == shown
            &&& locked.len() == 2 && (locked[0] matches OperationModel::LockProfiles { profiles }
                && profiles.len() == 0) && locked[1] == bare
        }),
{
}

/// The requests on profiles bear the names, the lifetimes and the passwords that they came with. A
/// profile is made exactly if its name is sound and its lifetime is positive, after the vault was
/// opened; it is deleted after the broker was told to lock it and the vault was opened.
pub proof fn law_profile_requests_are_carried_out(
    name: String,
    ttl_seconds: i64,
    password: String,
)
    ensures
        ({
            let made = operations_for(Request::CreateProfile { name, ttl_seconds, password });
            let deleted = operations_for(Request::DeleteProfile { name, password });
            let opening = OperationModel::OpenVault { password: password@ };
            let shown = OperationModel::AnswerSnapshot { password: Some(password@) };
            let named = name_check(name@, "profile"@);
            &&& made[0] == opening
            &&& named is Ok && ttl_seconds > 0 ==> made.len() == 3 && made[1] == (
            OperationModel::CreateProfile { name: name@, ttl_seconds }) && made[2] == shown
            &&& named is Ok && ttl_seconds <= 0 ==> made.len() == 2 && made[1] == (
            OperationModel::Refuse { fault: Fault::ProfileLifetime })
            &&& named matches Err(fault) ==> made.len() == 2 && made[1] == (
            OperationModel::Refuse { fault })
            &&& deleted.len() == 4
            &&& deleted[0] matches OperationModel::LockProfiles { profiles } && profiles.len() == 1
                && profiles[0] == name@
            &&& deleted[1] == opening
            &&& deleted[2] == (OperationModel::DeleteProfile { name: name@ })
            &&& deleted[3] == shown
        }),
{
}

/// The requests on secrets bear the names, the values and the passwords that they came with. A
/// secret is stored exactly if its name is sound and its value is not empty, and it is stored whole;
/// each request is answered with the secrets of its profile, after the vault was opened.
pub proof fn law_secret_requests_are_carried_out(
    profile: String,
    name: String,
    value: String,
    password: String,
)
    ensures
        ({
            let listed = operations_for(Request::ListSecrets { profile, password });
            let stored = operations_for(Request::SetSecret { profile, name, value, password });
            let deleted = operations_for(Request::DeleteSecret { profile, name, password });
            let opening = OperationModel::OpenVault { password: password@ };
            let shown = OperationModel::AnswerSecrets { profile: profile@ };
            let named = name_check(name@, "secret"@);
            &&& listed.len() == 2 && listed[0] == opening && listed[1] == shown
            &&& named is Ok && value@.len() > 0 ==> {
                &&& stored.len() == 3
                &&& stored[0] == opening
                &&& stored[1] == (OperationModel::PutSecret {
                    profile: profile@,
                    name: name@,
                    value: value@,
                })
                &&& stored[2] == shown
            }
            &&& named is Ok && value@.len() == 0 ==> stored.len() == 1 && stored[0] == (
            OperationModel::Refuse { fault: Fault::ValueEmpty })
            &&& named matches Err(fault) ==> stored.len() == 1 && stored[0] == (
            OperationModel::Refuse { fault })
            &&& deleted.len() == 3
            &&& deleted[0] == opening
            &&& deleted[1] == (OperationModel::DeleteSecret { profile: profile@, name: name@ })
            &&& deleted[2] == shown
        }),
{
}

/// The requests to lock and to unlock profiles are passed on to the broker with the names that they
/// came with, in order, and the lifetime, the manner and the password. An unlock is refused exactly
/// if it names no profile or gives a lifetime that is not positive.
pub proof fn law_lock_and_unlock_requests_are_carried_out(
    profiles: Vec<String>,
    ttl_seconds: Option<i64>,
    zero_trust: bool,
    password: String,
)
    ensures
        ({
            let unlocked = operations_for(
                Request::UnlockProfiles { profiles, ttl_seconds, zero_trust, password },
            );
            let locked = operations_for(Request::LockProfiles { profiles });
            let all = Seq::new(profiles@.len(), |i: int| profiles@[i]@);
            let lasting = ttl_seconds matches Some(ttl) ==> ttl > 0;
            &&& profiles@.len() > 0 && lasting ==> {
                &&& unlocked.len() == 2
                &&& unlocked[0] == (OperationModel::UnlockProfiles {
                    profiles: all,
                    ttl_seconds,
                    zero_trust,
                    password: password@,
                })
                &&& unlocked[1] == (OperationModel::AnswerSnapshot { password: Some(password@) })
            }
            &&& profiles@.len() == 0 ==> unlocked.len() == 1 && unlocked[0] == (
            OperationModel::Refuse { fault: Fault::NothingToUnlock })
            &&& profiles@.len() > 0 && !lasting ==> unlocked.len() == 1 && unlocked[0] == (
            OperationModel::Refuse { fault: Fault::UnlockLifetime })
            &&& locked.len() == 2
            &&& locked[0] == (OperationModel::LockProfiles { profiles: all })
            &&& locked[1] == (OperationModel::AnswerSnapshot { password: None })
        }),
{
    assert(texts(profiles@) =~= Seq::new(profiles@.len(), |i: int| profiles@[i]@));
}

} // verus!
