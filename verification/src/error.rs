//! What can go wrong, and the words for it.

use vstd::prelude::*;

use crate::text::{decimal, push_decimal, push_signed, signed_decimal};

verus! {

broadcast use vstd::string::group_string_axioms;

/// Why a text is no decimal number.
#[derive(Debug, Clone, Copy, PartialEq, Eq, Structural)]
pub enum NumberFault {
    /// There is nothing to read.
    Empty,
    /// A character is no digit.
    InvalidDigit,
    /// The number is above the range.
    TooLarge,
    /// The number is below the range.
    TooSmall,
}

/// The words for a number fault.
pub open spec fn number_fault_text(fault: NumberFault) -> Seq<char> {
    match fault {
        NumberFault::Empty => "cannot parse integer from empty string"@,
        NumberFault::InvalidDigit => "invalid digit found in string"@,
        NumberFault::TooLarge => "number too large to fit in target type"@,
        NumberFault::TooSmall => "number too small to fit in target type"@,
    }
}

impl NumberFault {
    /// The words for this fault.
    pub fn message(&self) -> (r: &'static str)
        ensures
            r@ == number_fault_text(*self),
    {
        match self {
            NumberFault::Empty => "cannot parse integer from empty string",
            NumberFault::InvalidDigit => "invalid digit found in string",
            NumberFault::TooLarge => "number too large to fit in target type",
            NumberFault::TooSmall => "number too small to fit in target type",
        }
    }
}

/// What went wrong. `S` is `String` in code and `Seq<char>` in contracts.
#[derive(Debug, Clone)]
pub enum Fault<S> {
    /// A name is empty.
    NameEmpty { kind: S },
    /// A name takes more than 128 bytes.
    NameTooLong { kind: S },
    /// A name is a dot, two dots, or holds a control character.
    NameInvalid { kind: S },
    /// A manifest declares a version other than 1.
    UnsupportedVersion { version: u32 },
    /// A manifest names no profile.
    NoProfiles,
    /// A profile of a manifest binds no secret.
    NoBindings { profile: S },
    /// A stdin binding has a target.
    StdinTarget { profile: S, secret: S },
    /// An environment binding has no target, or a number for one.
    EnvTargetNotText { profile: S, secret: S },
    /// An environment binding has an empty target.
    EnvTargetEmpty { profile: S, secret: S },
    /// An environment target holds a zero byte or an equals sign.
    EnvTargetInvalid { profile: S, secret: S },
    /// A file descriptor binding has no target.
    FdTargetMissing { profile: S, secret: S },
    /// The target of a file descriptor binding is no number.
    FdTargetNotNumber { profile: S, secret: S, text: S, flaw: NumberFault },
    /// The target of a file descriptor binding is out of range.
    FdTargetOutOfRange { profile: S, secret: S },
    /// The target of a file descriptor binding is a standard stream.
    FdTargetLow { profile: S, secret: S },
    /// A text that should be a file descriptor is no number.
    FdNotNumber { text: S, flaw: NumberFault },
    /// A number is no file descriptor.
    FdOutOfRange,
    /// A direct binding has no equals sign.
    BindingSyntax { spec: S },
    /// A direct environment binding names no variable.
    EnvNameMissing,
    /// A direct file descriptor binding has no number.
    FdNumberMissing,
    /// A direct binding uses no known transport.
    BindingTransport { spec: S },
    /// Fingerprint key material has the wrong length.
    KeyLength,
    /// A fingerprint key id has the wrong length.
    KeyIdLength,
    /// A fingerprint token does not consist of the three expected fields.
    TokenShape,
    /// The key id of a token is not Base64URL.
    TokenKeyIdEncoding { cause: S },
    /// The key id of a token has the wrong length.
    TokenKeyIdLength,
    /// The tag of a token is not Base64URL.
    TokenTagEncoding { cause: S },
    /// The tag of a token has the wrong length.
    TokenTagLength,
    /// A vault password is empty.
    PasswordEmpty,
    /// A password and its confirmation differ.
    PasswordsDiffer,
    /// The vault holds no fingerprint key.
    KeyMissing,
    /// The fingerprint key of the vault has the wrong size.
    KeyMetadata,
    /// The vault holds no such profile.
    ProfileMissing { name: S },
    /// The profile holds no such secret.
    SecretMissing { profile: S, name: S },
    /// The system clock stands before 1970.
    ClockBeforeEpoch,
    /// An unlock names no profile.
    NothingToUnlock,
    /// The lifetime of an unlock is not positive.
    UnlockLifetime,
    /// A run has no command.
    CommandMissing,
    /// A profile is not held by the broker.
    ProfileLocked { profile: S },
    /// The vault did not open with the password of a run.
    PasswordRejected { cause: S },
    /// Two secrets go to standard input.
    SecondStdin,
    /// An environment delivery names no variable.
    EnvDeliveryTarget,
    /// Two secrets go to one environment variable.
    EnvTargetReused { name: S },
    /// A secret for an environment variable is not UTF-8.
    EnvValueNotText { name: S, cause: S },
    /// A file descriptor delivery has no number.
    FdDeliveryTarget,
    /// Two secrets go to one file descriptor.
    FdTargetReused { number: i32 },
    /// The user of a broker client is not known.
    PeerUnknown,
    /// A broker client belongs to another user.
    PeerForeign,
    /// The background broker did not start in time.
    BrokerNotReady,
    /// The lifetime of a profile is not positive.
    ProfileLifetime,
    /// No source is given for a value.
    ValueSourceMissing,
    /// A secret value is empty.
    ValueEmpty,
    /// No destination is given for rendered text.
    OutputMissing,
    /// A secret to render is not UTF-8.
    SecretNotText { name: S, cause: S },
    /// A secret name holds no ASCII letter or digit.
    DotenvNameImpossible { name: S },
    /// Two secret names become one variable.
    DotenvNameReused { name: S },
    /// A value holds a control character without an escape.
    DotenvControl,
    /// A serializer gave up.
    RenderFailed { cause: S },
    /// A bundle holds no profile, or more than one.
    BundleShape,
    /// A secret is bound twice on the command line.
    SecretBoundTwice { profile: S, name: S },
    /// A manifest file is combined with direct bindings.
    ManifestCombined,
    /// Neither a manifest file nor direct bindings are given.
    BindingsMissing,
    /// The broker asks for the password again.
    RunNotAuthorized,
    /// Key rotation was not confirmed.
    RotationCancelled,
    /// There is no vault yet.
    VaultNotInitialized,
    /// There is no vault yet (graphical client).
    VaultAbsent,
    /// There is a vault already (graphical client).
    VaultPresent,
    /// The broker was started by hand.
    BrokerInternal,
    /// A request to the broker makes no sense.
    RequestInvalid { cause: S },
    /// A request to the broker could not be read.
    RequestUnreadable { cause: S },
    /// A request of the graphical client makes no sense.
    GuiRequestInvalid { cause: S },
    /// A request of the graphical client could not be read.
    GuiRequestUnreadable { cause: S },
    /// There is a vault already.
    VaultExists { path: S },
    /// There is no such bundle.
    BundleAbsent { path: S },
}

/// The errors of this library.
pub type Error = Fault<String>;

/// What an error says, as contracts speak of it.
pub type ErrorModel = Fault<Seq<char>>;

impl View for Fault<String> {
    type V = Fault<Seq<char>>;

    open spec fn view(&self) -> Fault<Seq<char>> {
        match *self {
            Fault::NameEmpty { kind } => Fault::NameEmpty { kind: kind@ },
            Fault::NameTooLong { kind } => Fault::NameTooLong { kind: kind@ },
            Fault::NameInvalid { kind } => Fault::NameInvalid { kind: kind@ },
            Fault::UnsupportedVersion { version } => Fault::UnsupportedVersion { version },
            Fault::NoProfiles => Fault::NoProfiles,
            Fault::NoBindings { profile } => Fault::NoBindings { profile: profile@ },
            Fault::StdinTarget { profile, secret } => {
                Fault::StdinTarget { profile: profile@, secret: secret@ }
            },
            Fault::EnvTargetNotText { profile, secret } => {
                Fault::EnvTargetNotText { profile: profile@, secret: secret@ }
            },
            Fault::EnvTargetEmpty { profile, secret } => {
                Fault::EnvTargetEmpty { profile: profile@, secret: secret@ }
            },
            Fault::EnvTargetInvalid { profile, secret } => {
                Fault::EnvTargetInvalid { profile: profile@, secret: secret@ }
            },
            Fault::FdTargetMissing { profile, secret } => {
                Fault::FdTargetMissing { profile: profile@, secret: secret@ }
            },
            Fault::FdTargetNotNumber { profile, secret, text, flaw } => {
                Fault::FdTargetNotNumber { profile: profile@, secret: secret@, text: text@, flaw }
            },
            Fault::FdTargetOutOfRange { profile, secret } => {
                Fault::FdTargetOutOfRange { profile: profile@, secret: secret@ }
            },
            Fault::FdTargetLow { profile, secret } => {
                Fault::FdTargetLow { profile: profile@, secret: secret@ }
            },
            Fault::FdNotNumber { text, flaw } => Fault::FdNotNumber { text: text@, flaw },
            Fault::FdOutOfRange => Fault::FdOutOfRange,
            Fault::BindingSyntax { spec } => Fault::BindingSyntax { spec: spec@ },
            Fault::EnvNameMissing => Fault::EnvNameMissing,
            Fault::FdNumberMissing => Fault::FdNumberMissing,
            Fault::BindingTransport { spec } => Fault::BindingTransport { spec: spec@ },
            Fault::KeyLength => Fault::KeyLength,
            Fault::KeyIdLength => Fault::KeyIdLength,
            Fault::TokenShape => Fault::TokenShape,
            Fault::TokenKeyIdEncoding { cause } => Fault::TokenKeyIdEncoding { cause: cause@ },
            Fault::TokenKeyIdLength => Fault::TokenKeyIdLength,
            Fault::TokenTagEncoding { cause } => Fault::TokenTagEncoding { cause: cause@ },
            Fault::TokenTagLength => Fault::TokenTagLength,
            Fault::PasswordEmpty => Fault::PasswordEmpty,
            Fault::PasswordsDiffer => Fault::PasswordsDiffer,
            Fault::KeyMissing => Fault::KeyMissing,
            Fault::KeyMetadata => Fault::KeyMetadata,
            Fault::ProfileMissing { name } => Fault::ProfileMissing { name: name@ },
            Fault::SecretMissing { profile, name } => {
                Fault::SecretMissing { profile: profile@, name: name@ }
            },
            Fault::ClockBeforeEpoch => Fault::ClockBeforeEpoch,
            Fault::NothingToUnlock => Fault::NothingToUnlock,
            Fault::UnlockLifetime => Fault::UnlockLifetime,
            Fault::CommandMissing => Fault::CommandMissing,
            Fault::ProfileLocked { profile } => Fault::ProfileLocked { profile: profile@ },
            Fault::PasswordRejected { cause } => Fault::PasswordRejected { cause: cause@ },
            Fault::SecondStdin => Fault::SecondStdin,
            Fault::EnvDeliveryTarget => Fault::EnvDeliveryTarget,
            Fault::EnvTargetReused { name } => Fault::EnvTargetReused { name: name@ },
            Fault::EnvValueNotText { name, cause } => {
                Fault::EnvValueNotText { name: name@, cause: cause@ }
            },
            Fault::FdDeliveryTarget => Fault::FdDeliveryTarget,
            Fault::FdTargetReused { number } => Fault::FdTargetReused { number },
            Fault::PeerUnknown => Fault::PeerUnknown,
            Fault::PeerForeign => Fault::PeerForeign,
            Fault::BrokerNotReady => Fault::BrokerNotReady,
            Fault::ProfileLifetime => Fault::ProfileLifetime,
            Fault::ValueSourceMissing => Fault::ValueSourceMissing,
            Fault::ValueEmpty => Fault::ValueEmpty,
            Fault::OutputMissing => Fault::OutputMissing,
            Fault::SecretNotText { name, cause } => {
                Fault::SecretNotText { name: name@, cause: cause@ }
            },
            Fault::DotenvNameImpossible { name } => Fault::DotenvNameImpossible { name: name@ },
            Fault::DotenvNameReused { name } => Fault::DotenvNameReused { name: name@ },
            Fault::DotenvControl => Fault::DotenvControl,
            Fault::RenderFailed { cause } => Fault::RenderFailed { cause: cause@ },
            Fault::BundleShape => Fault::BundleShape,
            Fault::SecretBoundTwice { profile, name } => {
                Fault::SecretBoundTwice { profile: profile@, name: name@ }
            },
            Fault::ManifestCombined => Fault::ManifestCombined,
            Fault::BindingsMissing => Fault::BindingsMissing,
            Fault::RunNotAuthorized => Fault::RunNotAuthorized,
            Fault::RotationCancelled => Fault::RotationCancelled,
            Fault::VaultNotInitialized => Fault::VaultNotInitialized,
            Fault::VaultAbsent => Fault::VaultAbsent,
            Fault::VaultPresent => Fault::VaultPresent,
            Fault::BrokerInternal => Fault::BrokerInternal,
            Fault::RequestInvalid { cause } => Fault::RequestInvalid { cause: cause@ },
            Fault::RequestUnreadable { cause } => Fault::RequestUnreadable { cause: cause@ },
            Fault::GuiRequestInvalid { cause } => Fault::GuiRequestInvalid { cause: cause@ },
            Fault::GuiRequestUnreadable { cause } => Fault::GuiRequestUnreadable { cause: cause@ },
            Fault::VaultExists { path } => Fault::VaultExists { path: path@ },
            Fault::BundleAbsent { path } => Fault::BundleAbsent { path: path@ },
        }
    }
}

/// A result with its error as contracts speak of it.
pub open spec fn outcome<T>(result: Result<T, Error>) -> Result<T, ErrorModel> {
    match result {
        Ok(value) => Ok(value),
        Err(error) => Err(error@),
    }
}

/// The result of a success.
pub open spec fn success<T>(value: T) -> Result<T, ErrorModel> {
    Ok(value)
}

/// The words for an error, with its causes after colons.
pub open spec fn fault_text(fault: ErrorModel) -> Seq<char> {
    match fault {
        Fault::NameEmpty { kind } => kind + " name cannot be empty"@,
        Fault::NameTooLong { kind } => kind + " name is too long"@,
        Fault::NameInvalid { kind } => "invalid "@ + kind + " name"@,
        Fault::UnsupportedVersion { version } => {
            "unsupported manifest version "@ + decimal(version as nat) + "; expected 1"@
        },
        Fault::NoProfiles => "manifest must contain at least one profile"@,
        Fault::NoBindings { profile } => {
            "profile '"@ + profile + "' must contain at least one secret binding"@
        },
        Fault::StdinTarget { profile, secret } => {
            "binding '"@ + profile + "/"@ + secret + "' does not accept a stdin target"@
        },
        Fault::EnvTargetNotText { profile, secret } => {
            "binding '"@ + profile + "/"@ + secret + "' requires a text environment target"@
        },
        Fault::EnvTargetEmpty { profile, secret } => {
            "binding '"@ + profile + "/"@ + secret + "' has an empty environment target"@
        },
        Fault::EnvTargetInvalid { profile, secret } => {
            "binding '"@ + profile + "/"@ + secret + "' has an invalid environment target"@
        },
        Fault::FdTargetMissing { profile, secret } => {
            "binding '"@ + profile + "/"@ + secret + "' requires a file descriptor target"@
        },
        Fault::FdTargetNotNumber { profile, secret, text, flaw } => {
            "binding '"@ + profile + "/"@ + secret + "' has an invalid file descriptor: '"@ + text
                + "' is not a file descriptor number: "@ + number_fault_text(flaw)
        },
        Fault::FdTargetOutOfRange { profile, secret } => {
            "binding '"@ + profile + "/"@ + secret
                + "' has an invalid file descriptor: file descriptor is outside the supported range: out of range integral type conversion attempted"@
        },
        Fault::FdTargetLow { profile, secret } => {
            "binding '"@ + profile + "/"@ + secret + "' must use file descriptor 3 or higher"@
        },
        Fault::FdNotNumber { text, flaw } => {
            "'"@ + text + "' is not a file descriptor number: "@ + number_fault_text(flaw)
        },
        Fault::FdOutOfRange => {
            "file descriptor is outside the supported range: out of range integral type conversion attempted"@
        },
        Fault::BindingSyntax { spec } => {
            "invalid binding '"@ + spec + "'; expected SECRET=TRANSPORT[:TARGET]"@
        },
        Fault::EnvNameMissing => "env bindings require a target name"@,
        Fault::FdNumberMissing => "fd bindings require a target number"@,
        Fault::BindingTransport { spec } => {
            "invalid binding '"@ + spec + "'; use stdin, env:NAME, or fd:NUMBER"@
        },
        Fault::KeyLength => "vault fingerprint key has an invalid length"@,
        Fault::KeyIdLength => "vault fingerprint key id has an invalid length"@,
        Fault::TokenShape => "invalid fingerprint token"@,
        Fault::TokenKeyIdEncoding { cause } => "invalid fingerprint key id encoding: "@ + cause,
        Fault::TokenKeyIdLength => "invalid fingerprint key id length"@,
        Fault::TokenTagEncoding { cause } => "invalid fingerprint tag encoding: "@ + cause,
        Fault::TokenTagLength => "invalid fingerprint tag length"@,
        Fault::PasswordEmpty => "vault password cannot be empty"@,
        Fault::PasswordsDiffer => "passwords do not match"@,
        Fault::KeyMissing => "vault fingerprint key is missing"@,
        Fault::KeyMetadata => "vault fingerprint key has invalid metadata"@,
        Fault::ProfileMissing { name } => "profile '"@ + name + "' does not exist"@,
        Fault::SecretMissing { profile, name } => {
            "secret '"@ + profile + "/"@ + name + "' does not exist"@
        },
        Fault::ClockBeforeEpoch => {
            "system clock is before Unix epoch: second time provided was later than self"@
        },
        Fault::NothingToUnlock => "provide at least one profile to unlock"@,
        Fault::UnlockLifetime => "unlock TTL must be greater than zero"@,
        Fault::CommandMissing => "a command is required"@,
        Fault::ProfileLocked { profile } => {
            "profile '"@ + profile + "' is locked or expired; run no-clone unlock "@ + profile
                + " first"@
        },
        Fault::PasswordRejected { cause } => "vault password rejected: "@ + cause,
        Fault::SecondStdin => "a run may contain only one stdin binding"@,
        Fault::EnvDeliveryTarget => "environment binding is missing its target name"@,
        Fault::EnvTargetReused { name } => {
            "environment target '"@ + name + "' is used more than once"@
        },
        Fault::EnvValueNotText { name, cause } => {
            "secret for environment target '"@ + name + "' is not UTF-8: "@ + cause
        },
        Fault::FdDeliveryTarget => "file descriptor binding is missing its target number"@,
        Fault::FdTargetReused { number } => {
            "file descriptor target "@ + signed_decimal(number as int)
                + " is used more than once"@
        },
        Fault::PeerUnknown => "broker client credentials did not include a user id"@,
        Fault::PeerForeign => "broker accepts clients from the current user only"@,
        Fault::BrokerNotReady => "broker did not become ready"@,
        Fault::ProfileLifetime => "profile TTL must be greater than zero"@,
        Fault::ValueSourceMissing => "provide either --prompt or --from-file"@,
        Fault::ValueEmpty => "secret value cannot be empty"@,
        Fault::OutputMissing => "choose either --output PATH or --stdout"@,
        Fault::SecretNotText { name, cause } => {
            "secret '"@ + name + "' is not valid UTF-8: "@ + cause
        },
        Fault::DotenvNameImpossible { name } => {
            "secret name '"@ + name + "' cannot be converted to a dotenv variable"@
        },
        Fault::DotenvNameReused { name } => {
            "secret names collide after dotenv conversion: '"@ + name + "'"@
        },
        Fault::DotenvControl => {
            "secret contains an unsupported control character for dotenv output"@
        },
        Fault::RenderFailed { cause } => cause,
        Fault::BundleShape => "profile bundle must contain exactly one profile"@,
        Fault::SecretBoundTwice { profile, name } => {
            "secret '"@ + profile + "/"@ + name + "' is bound more than once"@
        },
        Fault::ManifestCombined => "--manifest cannot be combined with a profile or --bind"@,
        Fault::BindingsMissing => {
            "provide --manifest, or a profile together with at least one --bind"@
        },
        Fault::RunNotAuthorized => "run authorization was not accepted"@,
        Fault::RotationCancelled => "fingerprint key rotation was cancelled"@,
        Fault::VaultNotInitialized => "vault not initialized; run `no-clone init` first"@,
        Fault::VaultAbsent => "vault is not initialized"@,
        Fault::VaultPresent => "vault already exists"@,
        Fault::BrokerInternal => "the broker command is for internal use"@,
        Fault::RequestInvalid { cause } => "invalid broker request: "@ + cause,
        Fault::RequestUnreadable { cause } => "failed to read broker request: "@ + cause,
        Fault::GuiRequestInvalid { cause } => "invalid GUI request: "@ + cause,
        Fault::GuiRequestUnreadable { cause } => "failed to read GUI request: "@ + cause,
        Fault::VaultExists { path } => "vault already exists at "@ + path,
        Fault::BundleAbsent { path } => "bundle does not exist: "@ + path,
    }
}

impl Fault<String> {
    /// The words for this error, with its causes after colons.
    #[verifier::rlimit(30)]
    pub fn message(&self) -> (r: String)
        ensures
            r@ == fault_text(self@),
    {
        match self {
            Fault::NameEmpty { kind } => {
                let mut out: String = kind.clone();
                out.append(" name cannot be empty");
                out
            },
            Fault::NameTooLong { kind } => {
                let mut out: String = kind.clone();
                out.append(" name is too long");
                out
            },
            Fault::NameInvalid { kind } => {
                let mut out: String = "invalid ".to_owned();
                out.append(kind.as_str());
                out.append(" name");
                out
            },
            Fault::UnsupportedVersion { version } => {
                let mut out: String = "unsupported manifest version ".to_owned();
                push_decimal(&mut out, *version as u64);
                out.append("; expected 1");
                out
            },
            Fault::NoProfiles => "manifest must contain at least one profile".to_owned(),
            Fault::NoBindings { profile } => {
                let mut out: String = "profile '".to_owned();
                out.append(profile.as_str());
                out.append("' must contain at least one secret binding");
                out
            },
            Fault::StdinTarget { profile, secret } => {
                let mut out: String = "binding '".to_owned();
                out.append(profile.as_str());
                out.append("/");
                out.append(secret.as_str());
                out.append("' does not accept a stdin target");
                out
            },
            Fault::EnvTargetNotText { profile, secret } => {
                let mut out: String = "binding '".to_owned();
                out.append(profile.as_str());
                out.append("/");
                out.append(secret.as_str());
                out.append("' requires a text environment target");
                out
            },
            Fault::EnvTargetEmpty { profile, secret } => {
                let mut out: String = "binding '".to_owned();
                out.append(profile.as_str());
                out.append("/");
                out.append(secret.as_str());
                out.append("' has an empty environment target");
                out
            },
            Fault::EnvTargetInvalid { profile, secret } => {
                let mut out: String = "binding '".to_owned();
                out.append(profile.as_str());
                out.append("/");
                out.append(secret.as_str());
                out.append("' has an invalid environment target");
                out
            },
            Fault::FdTargetMissing { profile, secret } => {
                let mut out: String = "binding '".to_owned();
                out.append(profile.as_str());
                out.append("/");
                out.append(secret.as_str());
                out.append("' requires a file descriptor target");
                out
            },
            Fault::FdTargetNotNumber { profile, secret, text, flaw } => {
                let mut out: String = "binding '".to_owned();
                out.append(profile.as_str());
                out.append("/");
                out.append(secret.as_str());
                out.append("' has an invalid file descriptor: '");
                out.append(text.as_str());
                out.append("' is not a file descriptor number: ");
                out.append(flaw.message());
                out
            },
            Fault::FdTargetOutOfRange { profile, secret } => {
                let mut out: String = "binding '".to_owned();
                out.append(profile.as_str());
                out.append("/");
                out.append(secret.as_str());
                out.append("' has an invalid file descriptor: file descriptor is outside the supported range: out of range integral type conversion attempted");
                out
            },
            Fault::FdTargetLow { profile, secret } => {
                let mut out: String = "binding '".to_owned();
                out.append(profile.as_str());
                out.append("/");
                out.append(secret.as_str());
                out.append("' must use file descriptor 3 or higher");
                out
            },
            Fault::FdNotNumber { text, flaw } => {
                let mut out: String = "'".to_owned();
                out.append(text.as_str());
                out.append("' is not a file descriptor number: ");
                out.append(flaw.message());
                out
            },
            Fault::FdOutOfRange => {
                "file descriptor is outside the supported range: out of range integral type conversion attempted".to_owned()
            },
            Fault::BindingSyntax { spec } => {
                let mut out: String = "invalid binding '".to_owned();
                out.append(spec.as_str());
                out.append("'; expected SECRET=TRANSPORT[:TARGET]");
                out
            },
            Fault::EnvNameMissing => "env bindings require a target name".to_owned(),
            Fault::FdNumberMissing => "fd bindings require a target number".to_owned(),
            Fault::BindingTransport { spec } => {
                let mut out: String = "invalid binding '".to_owned();
                out.append(spec.as_str());
                out.append("'; use stdin, env:NAME, or fd:NUMBER");
                out
            },
            Fault::KeyLength => "vault fingerprint key has an invalid length".to_owned(),
            Fault::KeyIdLength => "vault fingerprint key id has an invalid length".to_owned(),
            Fault::TokenShape => "invalid fingerprint token".to_owned(),
            Fault::TokenKeyIdEncoding { cause } => {
                let mut out: String = "invalid fingerprint key id encoding: ".to_owned();
                out.append(cause.as_str());
                out
            },
            Fault::TokenKeyIdLength => "invalid fingerprint key id length".to_owned(),
            Fault::TokenTagEncoding { cause } => {
                let mut out: String = "invalid fingerprint tag encoding: ".to_owned();
                out.append(cause.as_str());
                out
            },
            Fault::TokenTagLength => "invalid fingerprint tag length".to_owned(),
            Fault::PasswordEmpty => "vault password cannot be empty".to_owned(),
            Fault::PasswordsDiffer => "passwords do not match".to_owned(),
            Fault::KeyMissing => "vault fingerprint key is missing".to_owned(),
            Fault::KeyMetadata => "vault fingerprint key has invalid metadata".to_owned(),
            Fault::ProfileMissing { name } => {
                let mut out: String = "profile '".to_owned();
                out.append(name.as_str());
                out.append("' does not exist");
                out
            },
            Fault::SecretMissing { profile, name } => {
                let mut out: String = "secret '".to_owned();
                out.append(profile.as_str());
                out.append("/");
                out.append(name.as_str());
                out.append("' does not exist");
                out
            },
            Fault::ClockBeforeEpoch => {
                "system clock is before Unix epoch: second time provided was later than self".to_owned()
            },
            Fault::NothingToUnlock => "provide at least one profile to unlock".to_owned(),
            Fault::UnlockLifetime => "unlock TTL must be greater than zero".to_owned(),
            Fault::CommandMissing => "a command is required".to_owned(),
            Fault::ProfileLocked { profile } => {
                let mut out: String = "profile '".to_owned();
                out.append(profile.as_str());
                out.append("' is locked or expired; run no-clone unlock ");
                out.append(profile.as_str());
                out.append(" first");
                out
            },
            Fault::PasswordRejected { cause } => {
                let mut out: String = "vault password rejected: ".to_owned();
                out.append(cause.as_str());
                out
            },
            Fault::SecondStdin => "a run may contain only one stdin binding".to_owned(),
            Fault::EnvDeliveryTarget => "environment binding is missing its target name".to_owned(),
            Fault::EnvTargetReused { name } => {
                let mut out: String = "environment target '".to_owned();
                out.append(name.as_str());
                out.append("' is used more than once");
                out
            },
            Fault::EnvValueNotText { name, cause } => {
                let mut out: String = "secret for environment target '".to_owned();
                out.append(name.as_str());
                out.append("' is not UTF-8: ");
                out.append(cause.as_str());
                out
            },
            Fault::FdDeliveryTarget => {
                "file descriptor binding is missing its target number".to_owned()
            },
            Fault::FdTargetReused { number } => {
                let mut out: String = "file descriptor target ".to_owned();
                push_signed(&mut out, *number as i64);
                out.append(" is used more than once");
                out
            },
            Fault::PeerUnknown => "broker client credentials did not include a user id".to_owned(),
            Fault::PeerForeign => "broker accepts clients from the current user only".to_owned(),
            Fault::BrokerNotReady => "broker did not become ready".to_owned(),
            Fault::ProfileLifetime => "profile TTL must be greater than zero".to_owned(),
            Fault::ValueSourceMissing => "provide either --prompt or --from-file".to_owned(),
            Fault::ValueEmpty => "secret value cannot be empty".to_owned(),
            Fault::OutputMissing => "choose either --output PATH or --stdout".to_owned(),
            Fault::SecretNotText { name, cause } => {
                let mut out: String = "secret '".to_owned();
                out.append(name.as_str());
                out.append("' is not valid UTF-8: ");
                out.append(cause.as_str());
                out
            },
            Fault::DotenvNameImpossible { name } => {
                let mut out: String = "secret name '".to_owned();
                out.append(name.as_str());
                out.append("' cannot be converted to a dotenv variable");
                out
            },
            Fault::DotenvNameReused { name } => {
                let mut out: String = "secret names collide after dotenv conversion: '".to_owned();
                out.append(name.as_str());
                out.append("'");
                out
            },
            Fault::DotenvControl => {
                "secret contains an unsupported control character for dotenv output".to_owned()
            },
            Fault::RenderFailed { cause } => {
                let out: String = cause.clone();
                out
            },
            Fault::BundleShape => "profile bundle must contain exactly one profile".to_owned(),
            Fault::SecretBoundTwice { profile, name } => {
                let mut out: String = "secret '".to_owned();
                out.append(profile.as_str());
                out.append("/");
                out.append(name.as_str());
                out.append("' is bound more than once");
                out
            },
            Fault::ManifestCombined => {
                "--manifest cannot be combined with a profile or --bind".to_owned()
            },
            Fault::BindingsMissing => {
                "provide --manifest, or a profile together with at least one --bind".to_owned()
            },
            Fault::RunNotAuthorized => "run authorization was not accepted".to_owned(),
            Fault::RotationCancelled => "fingerprint key rotation was cancelled".to_owned(),
            Fault::VaultNotInitialized => {
                "vault not initialized; run `no-clone init` first".to_owned()
            },
            Fault::VaultAbsent => "vault is not initialized".to_owned(),
            Fault::VaultPresent => "vault already exists".to_owned(),
            Fault::BrokerInternal => "the broker command is for internal use".to_owned(),
            Fault::RequestInvalid { cause } => {
                let mut out: String = "invalid broker request: ".to_owned();
                out.append(cause.as_str());
                out
            },
            Fault::RequestUnreadable { cause } => {
                let mut out: String = "failed to read broker request: ".to_owned();
                out.append(cause.as_str());
                out
            },
            Fault::GuiRequestInvalid { cause } => {
                let mut out: String = "invalid GUI request: ".to_owned();
                out.append(cause.as_str());
                out
            },
            Fault::GuiRequestUnreadable { cause } => {
                let mut out: String = "failed to read GUI request: ".to_owned();
                out.append(cause.as_str());
                out
            },
            Fault::VaultExists { path } => {
                let mut out: String = "vault already exists at ".to_owned();
                out.append(path.as_str());
                out
            },
            Fault::BundleAbsent { path } => {
                let mut out: String = "bundle does not exist: ".to_owned();
                out.append(path.as_str());
                out
            },
        }
    }
}

/// What contracts say of a result is what the result is: its value, or what its error says.
pub proof fn law_outcomes_are_results<T>(result: Result<T, Error>, value: T)
    ensures
        result matches Ok(made) ==> outcome(result) == Ok::<T, ErrorModel>(made),
        result matches Err(error) ==> outcome(result) == Err::<T, ErrorModel>(error@),
        success(value) == Ok::<T, ErrorModel>(value),
{
}

/// The words about names. Names are refused with what they should have named.
pub proof fn law_words_about_names(kind: Seq<char>)
    ensures
        fault_text(ErrorModel::NameEmpty { kind }) == kind + " name cannot be empty"@,
        fault_text(ErrorModel::NameTooLong { kind }) == kind + " name is too long"@,
        fault_text(ErrorModel::NameInvalid { kind }) == "invalid "@ + kind + " name"@,
{
}

/// The words about manifests. A manifest is refused with its version or with the profile that binds
/// nothing, and a binding with the names of its profile and its secret.
pub proof fn law_words_about_manifests(
    version: u32,
    profile: Seq<char>,
    secret: Seq<char>,
    text: Seq<char>,
    flaw: NumberFault,
)
    ensures
        fault_text(ErrorModel::UnsupportedVersion { version })
            == "unsupported manifest version "@ + decimal(version as nat) + "; expected 1"@,
        fault_text(ErrorModel::NoProfiles) == "manifest must contain at least one profile"@,
        fault_text(ErrorModel::NoBindings { profile })
            == "profile '"@ + profile + "' must contain at least one secret binding"@,
        fault_text(ErrorModel::StdinTarget { profile, secret })
            == "binding '"@ + profile + "/"@ + secret + "' does not accept a stdin target"@,
        fault_text(ErrorModel::EnvTargetNotText { profile, secret })
            == "binding '"@ + profile + "/"@ + secret + "' requires a text environment target"@,
        fault_text(ErrorModel::EnvTargetEmpty { profile, secret })
            == "binding '"@ + profile + "/"@ + secret + "' has an empty environment target"@,
        fault_text(ErrorModel::EnvTargetInvalid { profile, secret })
            == "binding '"@ + profile + "/"@ + secret + "' has an invalid environment target"@,
        fault_text(ErrorModel::FdTargetMissing { profile, secret })
            == "binding '"@ + profile + "/"@ + secret + "' requires a file descriptor target"@,
        fault_text(ErrorModel::FdTargetNotNumber { profile, secret, text, flaw })
            == "binding '"@ + profile + "/"@ + secret + "' has an invalid file descriptor: '"@ + text + "' is not a file descriptor number: "@ + number_fault_text(flaw),
        fault_text(ErrorModel::FdTargetOutOfRange { profile, secret })
            == "binding '"@ + profile + "/"@ + secret + "' has an invalid file descriptor: file descriptor is outside the supported range: out of range integral type conversion attempted"@,
        fault_text(ErrorModel::FdTargetLow { profile, secret })
            == "binding '"@ + profile + "/"@ + secret + "' must use file descriptor 3 or higher"@,
        fault_text(ErrorModel::FdNotNumber { text, flaw })
            == "'"@ + text + "' is not a file descriptor number: "@ + number_fault_text(flaw),
        fault_text(ErrorModel::FdOutOfRange)
            == "file descriptor is outside the supported range: out of range integral type conversion attempted"@,
{
}

/// The words about direct bindings. A direct binding is refused as it was written.
pub proof fn law_words_about_direct_bindings(spec: Seq<char>, profile: Seq<char>, name: Seq<char>)
    ensures
        fault_text(ErrorModel::BindingSyntax { spec })
            == "invalid binding '"@ + spec + "'; expected SECRET=TRANSPORT[:TARGET]"@,
        fault_text(ErrorModel::EnvNameMissing) == "env bindings require a target name"@,
        fault_text(ErrorModel::FdNumberMissing) == "fd bindings require a target number"@,
        fault_text(ErrorModel::BindingTransport { spec })
            == "invalid binding '"@ + spec + "'; use stdin, env:NAME, or fd:NUMBER"@,
        fault_text(ErrorModel::SecretBoundTwice { profile, name })
            == "secret '"@ + profile + "/"@ + name + "' is bound more than once"@,
        fault_text(ErrorModel::ManifestCombined)
            == "--manifest cannot be combined with a profile or --bind"@,
        fault_text(ErrorModel::BindingsMissing)
            == "provide --manifest, or a profile together with at least one --bind"@,
{
}

/// The words about fingerprints. A fingerprint or its key is refused with what is wrong with it.
pub proof fn law_words_about_fingerprints(cause: Seq<char>)
    ensures
        fault_text(ErrorModel::KeyLength) == "vault fingerprint key has an invalid length"@,
        fault_text(ErrorModel::KeyIdLength) == "vault fingerprint key id has an invalid length"@,
        fault_text(ErrorModel::TokenShape) == "invalid fingerprint token"@,
        fault_text(ErrorModel::TokenKeyIdEncoding { cause })
            == "invalid fingerprint key id encoding: "@ + cause,
        fault_text(ErrorModel::TokenKeyIdLength) == "invalid fingerprint key id length"@,
        fault_text(ErrorModel::TokenTagEncoding { cause })
            == "invalid fingerprint tag encoding: "@ + cause,
        fault_text(ErrorModel::TokenTagLength) == "invalid fingerprint tag length"@,
        fault_text(ErrorModel::KeyMissing) == "vault fingerprint key is missing"@,
        fault_text(ErrorModel::KeyMetadata) == "vault fingerprint key has invalid metadata"@,
        fault_text(ErrorModel::RotationCancelled) == "fingerprint key rotation was cancelled"@,
{
}

/// The words about the vault. What is not in the vault is named, and what is wrong with a password,
/// a file or a value is said.
pub proof fn law_words_about_the_vault(name: Seq<char>, profile: Seq<char>, path: Seq<char>)
    ensures
        fault_text(ErrorModel::PasswordEmpty) == "vault password cannot be empty"@,
        fault_text(ErrorModel::PasswordsDiffer) == "passwords do not match"@,
        fault_text(ErrorModel::ProfileMissing { name })
            == "profile '"@ + name + "' does not exist"@,
        fault_text(ErrorModel::SecretMissing { profile, name })
            == "secret '"@ + profile + "/"@ + name + "' does not exist"@,
        fault_text(ErrorModel::BundleShape) == "profile bundle must contain exactly one profile"@,
        fault_text(ErrorModel::VaultNotInitialized)
            == "vault not initialized; run `no-clone init` first"@,
        fault_text(ErrorModel::VaultAbsent) == "vault is not initialized"@,
        fault_text(ErrorModel::VaultPresent) == "vault already exists"@,
        fault_text(ErrorModel::VaultExists { path }) == "vault already exists at "@ + path,
        fault_text(ErrorModel::BundleAbsent { path }) == "bundle does not exist: "@ + path,
        fault_text(ErrorModel::ProfileLifetime) == "profile TTL must be greater than zero"@,
        fault_text(ErrorModel::ValueSourceMissing) == "provide either --prompt or --from-file"@,
        fault_text(ErrorModel::ValueEmpty) == "secret value cannot be empty"@,
        fault_text(ErrorModel::OutputMissing) == "choose either --output PATH or --stdout"@,
{
}

/// The words about runs. A run or an unlock is refused with the profile, the variable or the file
/// descriptor that it is refused for, and with what to do about a profile that is not held.
pub proof fn law_words_about_runs(
    profile: Seq<char>,
    cause: Seq<char>,
    name: Seq<char>,
    number: i32,
)
    ensures
        fault_text(ErrorModel::ClockBeforeEpoch)
            == "system clock is before Unix epoch: second time provided was later than self"@,
        fault_text(ErrorModel::NothingToUnlock) == "provide at least one profile to unlock"@,
        fault_text(ErrorModel::UnlockLifetime) == "unlock TTL must be greater than zero"@,
        fault_text(ErrorModel::CommandMissing) == "a command is required"@,
        fault_text(ErrorModel::ProfileLocked { profile })
            == "profile '"@ + profile + "' is locked or expired; run no-clone unlock "@ + profile + " first"@,
        fault_text(ErrorModel::PasswordRejected { cause }) == "vault password rejected: "@ + cause,
        fault_text(ErrorModel::SecondStdin) == "a run may contain only one stdin binding"@,
        fault_text(ErrorModel::EnvDeliveryTarget)
            == "environment binding is missing its target name"@,
        fault_text(ErrorModel::EnvTargetReused { name })
            == "environment target '"@ + name + "' is used more than once"@,
        fault_text(ErrorModel::EnvValueNotText { name, cause })
            == "secret for environment target '"@ + name + "' is not UTF-8: "@ + cause,
        fault_text(ErrorModel::FdDeliveryTarget)
            == "file descriptor binding is missing its target number"@,
        fault_text(ErrorModel::FdTargetReused { number })
            == "file descriptor target "@ + signed_decimal(number as int) + " is used more than once"@,
        fault_text(ErrorModel::RunNotAuthorized) == "run authorization was not accepted"@,
{
}

/// The words about the broker. A client or a request is refused with the cause.
pub proof fn law_words_about_the_broker(cause: Seq<char>)
    ensures
        fault_text(ErrorModel::PeerUnknown)
            == "broker client credentials did not include a user id"@,
        fault_text(ErrorModel::PeerForeign) == "broker accepts clients from the current user only"@,
        fault_text(ErrorModel::BrokerNotReady) == "broker did not become ready"@,
        fault_text(ErrorModel::BrokerInternal) == "the broker command is for internal use"@,
        fault_text(ErrorModel::RequestInvalid { cause }) == "invalid broker request: "@ + cause,
        fault_text(ErrorModel::RequestUnreadable { cause })
            == "failed to read broker request: "@ + cause,
        fault_text(ErrorModel::GuiRequestInvalid { cause }) == "invalid GUI request: "@ + cause,
        fault_text(ErrorModel::GuiRequestUnreadable { cause })
            == "failed to read GUI request: "@ + cause,
{
}

/// The words about rendering. A profile that cannot be rendered is refused with the secret or with
/// the cause.
pub proof fn law_words_about_rendering(name: Seq<char>, cause: Seq<char>)
    ensures
        fault_text(ErrorModel::SecretNotText { name, cause })
            == "secret '"@ + name + "' is not valid UTF-8: "@ + cause,
        fault_text(ErrorModel::DotenvNameImpossible { name })
            == "secret name '"@ + name + "' cannot be converted to a dotenv variable"@,
        fault_text(ErrorModel::DotenvNameReused { name })
            == "secret names collide after dotenv conversion: '"@ + name + "'"@,
        fault_text(ErrorModel::DotenvControl)
            == "secret contains an unsupported control character for dotenv output"@,
        fault_text(ErrorModel::RenderFailed { cause }) == cause,
{
}

/// The words for a text that is no number.
pub proof fn law_words_about_numbers(fault: NumberFault)
    ensures
        fault == NumberFault::Empty ==> number_fault_text(fault)
            == "cannot parse integer from empty string"@,
        fault == NumberFault::InvalidDigit ==> number_fault_text(fault)
            == "invalid digit found in string"@,
        fault == NumberFault::TooLarge ==> number_fault_text(fault)
            == "number too large to fit in target type"@,
        fault == NumberFault::TooSmall ==> number_fault_text(fault)
            == "number too small to fit in target type"@,
{
}

} // verus!
