//! Manifests: which secrets a command needs and how each of them reaches it.

use vstd::prelude::*;

use crate::error::{outcome, success};
use crate::error::{Error, ErrorModel, Fault};
use crate::name_map::NameMap;
use crate::names::{name_check, validate_name};
use crate::text::{characters, parse_number, same_text, split_once};
use crate::text::{law_parts_make_up_the_text, lemma_parted_at, parted, spelled_number};

verus! {

broadcast use vstd::string::group_string_axioms;

/// The version that manifests declare.
pub const MANIFEST_VERSION: u32 = 1;

/// The lowest file descriptor that is no standard stream.
pub const FIRST_FREE_FD: i32 = 3;

/// The profiles that a command needs, by name.
#[derive(Debug)]
pub struct Manifest {
    pub version: u32,
    pub profiles: NameMap<ProfileManifest>,
}

/// The secrets of one profile that a command needs, by name.
#[derive(Debug)]
pub struct ProfileManifest {
    pub secrets: NameMap<Binding>,
}

/// How one secret reaches a command.
#[derive(Debug)]
pub struct Binding {
    pub transport: Transport,
    pub target: Option<Target>,
}

/// The ways in which a secret can reach a command.
#[derive(Debug, Clone, Copy, PartialEq, Eq, Structural)]
pub enum Transport {
    /// On standard input.
    Stdin,
    /// In an environment variable.
    Env,
    /// On an inherited file descriptor.
    Fd,
}

/// Where a transport leads: the name of a variable or the number of a descriptor.
#[derive(Debug)]
pub enum Target {
    Text(String),
    Number(i64),
}

/// What a target says.
pub enum TargetModel {
    Text(Seq<char>),
    Number(i64),
}

impl View for Target {
    type V = TargetModel;

    open spec fn view(&self) -> TargetModel {
        match *self {
            Target::Text(text) => TargetModel::Text(text@),
            Target::Number(number) => TargetModel::Number(number),
        }
    }
}

/// What a binding says.
pub struct BindingModel {
    pub transport: Transport,
    pub target: Option<TargetModel>,
}

impl View for Binding {
    type V = BindingModel;

    open spec fn view(&self) -> BindingModel {
        BindingModel {
            transport: self.transport,
            target: match self.target {
                Some(target) => Some(target@),
                None => None,
            },
        }
    }
}

impl Clone for Target {
    fn clone(&self) -> (r: Self)
        ensures
            r@ == self@,
    {
        match self {
            Target::Text(text) => Target::Text(text.clone()),
            Target::Number(number) => Target::Number(*number),
        }
    }
}

impl Clone for Binding {
    fn clone(&self) -> (r: Self)
        ensures
            r@ == self@,
    {
        Binding {
            transport: self.transport,
            target: match &self.target {
                Some(target) => Some(target.clone()),
                None => None,
            },
        }
    }
}

impl View for ProfileManifest {
    type V = Seq<(Seq<char>, BindingModel)>;

    open spec fn view(&self) -> Seq<(Seq<char>, BindingModel)> {
        Seq::new(self.secrets@.len(), |j: int| (self.secrets@[j].0, self.secrets@[j].1@))
    }
}

/// What a manifest says: its version, and the bindings of each profile, in the order of the names.
#[verifier::ext_equal]
pub struct ManifestModel {
    pub version: u32,
    pub profiles: Seq<(Seq<char>, Seq<(Seq<char>, BindingModel)>)>,
}

impl View for Manifest {
    type V = ManifestModel;

    open spec fn view(&self) -> ManifestModel {
        ManifestModel {
            version: self.version,
            profiles: Seq::new(
                self.profiles@.len(),
                |i: int| (self.profiles@[i].0, self.profiles@[i].1@),
            ),
        }
    }
}

impl Clone for ProfileManifest {
    fn clone(&self) -> (r: Self)
        ensures
            r@ == self@,
    {
        let copy = ProfileManifest { secrets: self.secrets.clone() };
        assert(copy@ =~= self@);
        copy
    }
}

impl Clone for Manifest {
    fn clone(&self) -> (r: Self)
        ensures
            r@ == self@,
    {
        let copy = Manifest { version: self.version, profiles: self.profiles.clone() };
        assert(copy@ =~= self@);
        copy
    }
}

/// The file descriptor that a target stands for.
pub open spec fn descriptor(target: TargetModel) -> Result<i32, ErrorModel> {
    match target {
        TargetModel::Number(number) => descriptor_number(number),
        TargetModel::Text(text) => match spelled_number(text) {
            Ok(number) => descriptor_number(number),
            Err(flaw) => Err(Fault::FdNotNumber { text, flaw }),
        },
    }
}

/// A number as a file descriptor.
pub open spec fn descriptor_number(number: i64) -> Result<i32, ErrorModel> {
    if i32::MIN <= number <= i32::MAX {
        Ok(number as i32)
    } else {
        Err(Fault::FdOutOfRange)
    }
}

/// The file descriptor that a target stands for.
pub fn target_as_fd(target: &Target) -> (r: Result<i32, Error>)
    ensures
        outcome(r) == descriptor(target@),
{
    let number: i64 = match target {
        Target::Number(number) => *number,
        Target::Text(text) => match parse_number(text.as_str()) {
            Ok(number) => number,
            Err(flaw) => {
                return Err(Fault::FdNotNumber { text: text.clone(), flaw });
            },
        },
    };
    if number < i32::MIN as i64 || number > i32::MAX as i64 {
        return Err(Fault::FdOutOfRange);
    }
    Ok(number as i32)
}

/// Whether an environment variable cannot bear this name.
pub open spec fn unusable_variable(name: Seq<char>) -> bool {
    exists|i: int| 0 <= i < name.len() && (#[trigger] name[i] == '\0' || name[i] == '=')
}

/// What an error about a descriptor says of the binding that it belongs to.
pub open spec fn descriptor_fault(
    fault: ErrorModel,
    profile: Seq<char>,
    secret: Seq<char>,
) -> ErrorModel {
    match fault {
        Fault::FdNotNumber { text, flaw } => Fault::FdTargetNotNumber {
            profile,
            secret,
            text,
            flaw,
        },
        _ => Fault::FdTargetOutOfRange { profile, secret },
    }
}

/// Whether a binding can be carried out, and what is wrong with it if not.
pub open spec fn binding_check(
    binding: BindingModel,
    profile: Seq<char>,
    secret: Seq<char>,
) -> Result<(), ErrorModel> {
    match binding.transport {
        Transport::Stdin => if binding.target is Some {
            Err(Fault::StdinTarget { profile, secret })
        } else {
            Ok(())
        },
        Transport::Env => match binding.target {
            Some(TargetModel::Text(name)) => if name.len() == 0 {
                Err(Fault::EnvTargetEmpty { profile, secret })
            } else if unusable_variable(name) {
                Err(Fault::EnvTargetInvalid { profile, secret })
            } else {
                Ok(())
            },
            _ => Err(Fault::EnvTargetNotText { profile, secret }),
        },
        Transport::Fd => match binding.target {
            None => Err(Fault::FdTargetMissing { profile, secret }),
            Some(target) => match descriptor(target) {
                Err(fault) => Err(descriptor_fault(fault, profile, secret)),
                Ok(number) => if number < FIRST_FREE_FD {
                    Err(Fault::FdTargetLow { profile, secret })
                } else {
                    Ok(())
                },
            },
        },
    }
}

impl Binding {
    /// Checks that the target fits the transport; the names say in an error whose binding it is.
    pub fn validate(&self, profile: &str, secret: &str) -> (r: Result<(), Error>)
        ensures
            outcome(r) == binding_check(self@, profile@, secret@),
    {
        let owner = profile.to_owned();
        let name = secret.to_owned();
        match self.transport {
            Transport::Stdin => {
                if self.target.is_some() {
                    return Err(Fault::StdinTarget { profile: owner, secret: name });
                }
            },
            Transport::Env => match &self.target {
                Some(Target::Text(target)) => {
                    if target.as_str().is_empty() {
                        return Err(Fault::EnvTargetEmpty { profile: owner, secret: name });
                    }
                    let characters = characters(target.as_str());
                    let mut index: usize = 0;
                    while index < characters.len()
                        invariant
                            characters@ == target@,
                            self@.transport == Transport::Env,
                            self@.target == Some(TargetModel::Text(target@)),
                            target@.len() > 0,
                            owner@ == profile@,
                            name@ == secret@,
                            index <= target@.len(),
                            forall|i: int|
                                0 <= i < index ==> !(#[trigger] target@[i] == '\0' || target@[i]
                                    == '='),
                        decreases characters.len() - index,
                    {
                        if characters[index] == '\0' || characters[index] == '=' {
                            assert(target@[index as int] == '\0' || target@[index as int] == '=');
                            return Err(Fault::EnvTargetInvalid { profile: owner, secret: name });
                        }
                        index += 1;
                    }
                },
                _ => {
                    return Err(Fault::EnvTargetNotText { profile: owner, secret: name });
                },
            },
            Transport::Fd => match &self.target {
                None => {
                    return Err(Fault::FdTargetMissing { profile: owner, secret: name });
                },
                Some(target) => match target_as_fd(target) {
                    Err(Fault::FdNotNumber { text, flaw }) => {
                        return Err(
                            Fault::FdTargetNotNumber { profile: owner, secret: name, text, flaw },
                        );
                    },
                    Err(_) => {
                        return Err(Fault::FdTargetOutOfRange { profile: owner, secret: name });
                    },
                    Ok(number) => {
                        if number < FIRST_FREE_FD {
                            return Err(Fault::FdTargetLow { profile: owner, secret: name });
                        }
                    },
                },
            },
        }
        Ok(())
    }
}

/// The first fault among the bindings of a profile, from the place `from` on.
pub open spec fn bindings_check(
    profile: Seq<char>,
    secrets: Seq<(Seq<char>, Binding)>,
    from: int,
) -> Result<(), ErrorModel>
    decreases secrets.len() - from,
{
    if from < 0 || from >= secrets.len() {
        Ok(())
    } else {
        let (secret, binding) = secrets[from];
        match name_check(secret, "secret"@) {
            Err(fault) => Err(fault),
            Ok(()) => match binding_check(binding@, profile, secret) {
                Err(fault) => Err(fault),
                Ok(()) => bindings_check(profile, secrets, from + 1),
            },
        }
    }
}

/// The first fault in one profile of a manifest.
pub open spec fn profile_check(profile: Seq<char>, manifest: ProfileManifest) -> Result<
    (),
    ErrorModel,
> {
    match name_check(profile, "profile"@) {
        Err(fault) => Err(fault),
        Ok(()) => if manifest.secrets@.len() == 0 {
            Err(Fault::NoBindings { profile })
        } else {
            bindings_check(profile, manifest.secrets@, 0)
        },
    }
}

/// The first fault among the profiles of a manifest, from the place `from` on.
pub open spec fn profiles_check(
    profiles: Seq<(Seq<char>, ProfileManifest)>,
    from: int,
) -> Result<(), ErrorModel>
    decreases profiles.len() - from,
{
    if from < 0 || from >= profiles.len() {
        Ok(())
    } else {
        match profile_check(profiles[from].0, profiles[from].1) {
            Err(fault) => Err(fault),
            Ok(()) => profiles_check(profiles, from + 1),
        }
    }
}

/// Whether a manifest can be used, and the first fault if not: the version, then the profiles and
/// their secrets in the order of the names.
pub open spec fn manifest_check(manifest: Manifest) -> Result<(), ErrorModel> {
    if manifest.version != MANIFEST_VERSION {
        Err(Fault::UnsupportedVersion { version: manifest.version })
    } else if manifest.profiles@.len() == 0 {
        Err(Fault::NoProfiles)
    } else {
        profiles_check(manifest.profiles@, 0)
    }
}

fn validate_profile(profile: &str, manifest: &ProfileManifest) -> (r: Result<(), Error>)
    ensures
        outcome(r) == profile_check(profile@, *manifest),
{
    match validate_name(profile, "profile") {
        Err(error) => {
            return Err(error);
        },
        Ok(()) => {},
    }
    if manifest.secrets.is_empty() {
        return Err(Fault::NoBindings { profile: profile.to_owned() });
    }
    let mut index: usize = 0;
    while index < manifest.secrets.len()
        invariant
            index <= manifest.secrets@.len(),
            manifest.secrets@.len() > 0,
            name_check(profile@, "profile"@) is Ok,
            bindings_check(profile@, manifest.secrets@, 0) == bindings_check(
                profile@,
                manifest.secrets@,
                index as int,
            ),
        decreases manifest.secrets@.len() - index,
    {
        let secret = manifest.secrets.name_at(index);
        match validate_name(secret, "secret") {
            Err(error) => {
                return Err(error);
            },
            Ok(()) => {},
        }
        match manifest.secrets.value_at(index).validate(profile, secret) {
            Err(error) => {
                return Err(error);
            },
            Ok(()) => {},
        }
        index += 1;
    }
    Ok(())
}

impl Manifest {
    /// Checks the version, the names and the bindings.
    pub fn validate(&self) -> (r: Result<(), Error>)
        ensures
            outcome(r) == manifest_check(*self),
    {
        if self.version != MANIFEST_VERSION {
            return Err(Fault::UnsupportedVersion { version: self.version });
        }
        if self.profiles.is_empty() {
            return Err(Fault::NoProfiles);
        }
        let mut index: usize = 0;
        while index < self.profiles.len()
            invariant
                index <= self.profiles@.len(),
                self.version == MANIFEST_VERSION,
                self.profiles@.len() > 0,
                profiles_check(self.profiles@, 0) == profiles_check(self.profiles@, index as int),
            decreases self.profiles@.len() - index,
        {
            match validate_profile(self.profiles.name_at(index), self.profiles.value_at(index)) {
                Err(error) => {
                    return Err(error);
                },
                Ok(()) => {},
            }
            index += 1;
        }
        Ok(())
    }
}

/// What a direct binding says before its target is checked.
pub open spec fn cli_delivery(spec: Seq<char>, delivery: Seq<char>) -> Result<
    BindingModel,
    ErrorModel,
> {
    let (transport, target) = match parted(delivery, ':') {
        Some((transport, target)) => (transport, Some(target)),
        None => (delivery, None),
    };
    if transport == "stdin"@ && target is None {
        Ok(BindingModel { transport: Transport::Stdin, target: None })
    } else if transport == "env"@ {
        match target {
            Some(name) => Ok(
                BindingModel { transport: Transport::Env, target: Some(TargetModel::Text(name)) },
            ),
            None => Err(Fault::EnvNameMissing),
        }
    } else if transport == "fd"@ {
        match target {
            Some(number) => Ok(
                BindingModel { transport: Transport::Fd, target: Some(TargetModel::Text(number)) },
            ),
            None => Err(Fault::FdNumberMissing),
        }
    } else {
        Err(Fault::BindingTransport { spec })
    }
}

/// The secret and the binding that a direct binding names: `SECRET=stdin`, `SECRET=env:NAME` or
/// `SECRET=fd:NUMBER`.
pub open spec fn cli_binding(spec: Seq<char>) -> Result<(Seq<char>, BindingModel), ErrorModel> {
    match parted(spec, '=') {
        None => Err(Fault::BindingSyntax { spec }),
        Some((secret, delivery)) => match name_check(secret, "secret"@) {
            Err(fault) => Err(fault),
            Ok(()) => match cli_delivery(spec, delivery) {
                Err(fault) => Err(fault),
                Ok(binding) => match binding_check(binding, "<cli>"@, secret) {
                    Err(fault) => Err(fault),
                    Ok(()) => Ok((secret, binding)),
                },
            },
        },
    }
}

fn parse_delivery(spec: &str, delivery: &str) -> (r: Result<Binding, Error>)
    ensures
        match r {
            Ok(binding) => cli_delivery(spec@, delivery@) == success(binding@),
            Err(error) => cli_delivery(spec@, delivery@) matches Err(fault) && fault == error@,
        },
{
    let (transport, target): (&str, Option<String>) = match split_once(delivery, ':') {
        Some((transport, target)) => (transport, Some(target.to_owned())),
        None => (delivery, None),
    };
    if same_text(transport, "stdin") && target.is_none() {
        Ok(Binding { transport: Transport::Stdin, target: None })
    } else if same_text(transport, "env") {
        match target {
            Some(name) => Ok(
                Binding { transport: Transport::Env, target: Some(Target::Text(name)) },
            ),
            None => Err(Fault::EnvNameMissing),
        }
    } else if same_text(transport, "fd") {
        match target {
            Some(number) => Ok(
                Binding { transport: Transport::Fd, target: Some(Target::Text(number)) },
            ),
            None => Err(Fault::FdNumberMissing),
        }
    } else {
        Err(Fault::BindingTransport { spec: spec.to_owned() })
    }
}

/// Reads a direct binding: `SECRET=stdin`, `SECRET=env:NAME` or `SECRET=fd:NUMBER`.
pub fn parse_cli_binding(spec: &str) -> (r: Result<(String, Binding), Error>)
    ensures
        match r {
            Ok((secret, binding)) => cli_binding(spec@) == success(
                (secret@, binding@),
            ),
            Err(error) => cli_binding(spec@) matches Err(fault) && fault == error@,
        },
{
    let (secret, delivery) = match split_once(spec, '=') {
        Some(parts) => parts,
        None => {
            return Err(Fault::BindingSyntax { spec: spec.to_owned() });
        },
    };
    match validate_name(secret, "secret") {
        Err(error) => {
            return Err(error);
        },
        Ok(()) => {},
    }
    let binding = match parse_delivery(spec, delivery) {
        Err(error) => {
            return Err(error);
        },
        Ok(binding) => binding,
    };
    match binding.validate("<cli>", secret) {
        Err(error) => {
            return Err(error);
        },
        Ok(()) => {},
    }
    Ok((secret.to_owned(), binding))
}

/// Every entry of `secrets` from `from` on has a good name and a binding that can be carried out.
pub open spec fn bindings_valid(
    profile: Seq<char>,
    secrets: Seq<(Seq<char>, Binding)>,
    from: int,
) -> bool {
    forall|j: int|
        from <= j < secrets.len() ==> {
            &&& name_check((#[trigger] secrets[j]).0, "secret"@) is Ok
            &&& binding_check(secrets[j].1@, profile, secrets[j].0) is Ok
        }
}

/// A profile of a manifest has a good name and at least one binding, and all of them are valid.
pub open spec fn profile_valid(profile: Seq<char>, manifest: ProfileManifest) -> bool {
    &&& name_check(profile, "profile"@) is Ok
    &&& manifest.secrets@.len() > 0
    &&& bindings_valid(profile, manifest.secrets@, 0)
}

proof fn lemma_bindings_check(profile: Seq<char>, secrets: Seq<(Seq<char>, Binding)>, from: int)
    requires
        0 <= from <= secrets.len(),
    ensures
        bindings_check(profile, secrets, from) is Ok <==> bindings_valid(profile, secrets, from),
    decreases secrets.len() - from,
{
    if from < secrets.len() {
        lemma_bindings_check(profile, secrets, from + 1);
        let entry = secrets[from];
        assert(bindings_valid(profile, secrets, from) ==> name_check(entry.0, "secret"@) is Ok
            && binding_check(entry.1@, profile, entry.0) is Ok);
    }
}

proof fn lemma_profiles_check(profiles: Seq<(Seq<char>, ProfileManifest)>, from: int)
    requires
        0 <= from <= profiles.len(),
    ensures
        profiles_check(profiles, from) is Ok <==> forall|i: int|
            from <= i < profiles.len() ==> profile_valid(
                (#[trigger] profiles[i]).0,
                profiles[i].1,
            ),
    decreases profiles.len() - from,
{
    if from < profiles.len() {
        lemma_profiles_check(profiles, from + 1);
        let entry = profiles[from];
        lemma_bindings_check(entry.0, entry.1.secrets@, 0);
    }
}

/// A manifest is accepted exactly if it declares version 1 and names at least one profile, and each
/// profile has a good name and at least one binding, and each binding is of a secret with a good
/// name and can be carried out.
pub proof fn law_accepted_manifests(manifest: Manifest)
    ensures
        manifest_check(manifest) is Ok <==> {
            &&& manifest.version == MANIFEST_VERSION
            &&& manifest.profiles@.len() > 0
            &&& forall|i: int|
                0 <= i < manifest.profiles@.len() ==> profile_valid(
                    (#[trigger] manifest.profiles@[i]).0,
                    manifest.profiles@[i].1,
                )
        },
{
    lemma_profiles_check(manifest.profiles@, 0);
}

/// What a direct binding yields can be carried out, is of a secret with a good name, and names the
/// profile nowhere: it is valid in any profile.
pub proof fn law_direct_bindings_are_valid(spec: Seq<char>, profile: Seq<char>)
    requires
        cli_binding(spec) is Ok,
    ensures
        name_check(cli_binding(spec)->Ok_0.0, "secret"@) is Ok,
        binding_check(cli_binding(spec)->Ok_0.1, profile, cli_binding(spec)->Ok_0.0) is Ok,
{
}

/// The three forms of a direct binding, for every secret with a good name that holds no equals
/// sign: `SECRET=stdin`, `SECRET=env:NAME` for every name that a variable can bear, and
/// `SECRET=fd:NUMBER` for every descriptor that is no standard stream.
pub proof fn law_direct_binding_forms(secret: Seq<char>, target: Seq<char>)
    requires
        name_check(secret, "secret"@) is Ok,
        !secret.contains('='),
    ensures
        cli_binding(secret + seq!['='] + "stdin"@) == success(
            (secret, BindingModel { transport: Transport::Stdin, target: None }),
        ),
        target.len() > 0 && !unusable_variable(target) ==> cli_binding(
            secret + seq!['='] + ("env"@ + seq![':'] + target),
        ) == success(
            (
                secret,
                BindingModel { transport: Transport::Env, target: Some(TargetModel::Text(target)) },
            ),
        ),
        (descriptor(TargetModel::Text(target)) matches Ok(number) && number >= FIRST_FREE_FD)
            ==> cli_binding(secret + seq!['='] + ("fd"@ + seq![':'] + target)) == success(
            (
                secret,
                BindingModel { transport: Transport::Fd, target: Some(TargetModel::Text(target)) },
            ),
        ),
{
    reveal_strlit("stdin");
    reveal_strlit("env");
    reveal_strlit("fd");
    lemma_parted_at(secret, '=', "stdin"@);
    lemma_parted_at(secret, '=', "env"@ + seq![':'] + target);
    lemma_parted_at(secret, '=', "fd"@ + seq![':'] + target);
    "stdin"@.index_of_first_ensures(':');
    lemma_parted_at("env"@, ':', target);
    lemma_parted_at("fd"@, ':', target);
    assert("env"@[0] != "stdin"@[0]);
    assert("fd"@[0] != "stdin"@[0]);
    assert("fd"@[0] != "env"@[0]);
}

proof fn lemma_bindings_check_reads_view(
    profile: Seq<char>,
    left: ProfileManifest,
    right: ProfileManifest,
    from: int,
)
    requires
        left@ == right@,
        0 <= from <= left.secrets@.len(),
    ensures
        left.secrets@.len() == right.secrets@.len(),
        bindings_check(profile, left.secrets@, from) == bindings_check(
            profile,
            right.secrets@,
            from,
        ),
    decreases left.secrets@.len() - from,
{
    assert(left@.len() == left.secrets@.len());
    assert(right@.len() == right.secrets@.len());
    if from < left.secrets@.len() {
        assert(left@[from] == (left.secrets@[from].0, left.secrets@[from].1@));
        assert(right@[from] == (right.secrets@[from].0, right.secrets@[from].1@));
        lemma_bindings_check_reads_view(profile, left, right, from + 1);
    }
}

proof fn lemma_profiles_check_reads_view(left: Manifest, right: Manifest, from: int)
    requires
        left@ == right@,
        0 <= from <= left.profiles@.len(),
    ensures
        left.profiles@.len() == right.profiles@.len(),
        profiles_check(left.profiles@, from) == profiles_check(right.profiles@, from),
    decreases left.profiles@.len() - from,
{
    assert(left@.profiles.len() == left.profiles@.len());
    assert(right@.profiles.len() == right.profiles@.len());
    if from < left.profiles@.len() {
        assert(left@.profiles[from] == (left.profiles@[from].0, left.profiles@[from].1@));
        assert(right@.profiles[from] == (right.profiles@[from].0, right.profiles@[from].1@));
        let (name, bindings) = left.profiles@[from];
        lemma_bindings_check_reads_view(name, bindings, right.profiles@[from].1, 0);
        lemma_profiles_check_reads_view(left, right, from + 1);
    }
}

/// Two manifests that say the same are judged the same.
pub proof fn law_manifests_are_judged_by_what_they_say(left: Manifest, right: Manifest)
    requires
        left@ == right@,
    ensures
        manifest_check(left) == manifest_check(right),
{
    lemma_profiles_check_reads_view(left, right, 0);
}

/// What a binding and a target say is what they hold.
pub proof fn law_bindings_say_what_they_hold(binding: Binding, text: String, number: i64)
    ensures
        binding@.transport == binding.transport,
        binding@.target is None <==> binding.target is None,
        binding.target matches Some(target) ==> binding@.target == Some(target@),
        Target::Text(text)@ == TargetModel::Text(text@),
        Target::Number(number)@ == TargetModel::Number(number),
{
}

/// What a manifest says is what it holds: its version, its profiles and their bindings, each with
/// its name and in its place.
pub proof fn law_manifests_say_what_they_hold(manifest: Manifest)
    ensures
        manifest@.version == manifest.version,
        manifest@.profiles.len() == manifest.profiles@.len(),
        forall|i: int|
            0 <= i < manifest.profiles@.len() ==> {
                let (name, bindings) = #[trigger] manifest@.profiles[i];
                &&& name == manifest.profiles@[i].0
                &&& bindings.len() == manifest.profiles@[i].1.secrets@.len()
            },
        forall|i: int, j: int|
            0 <= i < manifest.profiles@.len() && 0 <= j < manifest.profiles@[i].1.secrets@.len()
                ==> {
                let (secret, binding) = #[trigger] manifest@.profiles[i].1[j];
                &&& secret == manifest.profiles@[i].1.secrets@[j].0
                &&& binding == manifest.profiles@[i].1.secrets@[j].1@
            },
{
}

/// A number stands for a file descriptor exactly if it fits in 32 bits, and then for that of the
/// same number; a text stands for what the number stands for that it spells.
pub proof fn law_descriptors_are_their_numbers(number: i64, text: Seq<char>)
    ensures
        ({
            let answer = descriptor(TargetModel::Number(number));
            let spelled = descriptor(TargetModel::Text(text));
            &&& -0x8000_0000 <= number <= 0x7fff_ffff ==> answer is Ok && answer->Ok_0 == number
            &&& !(-0x8000_0000 <= number <= 0x7fff_ffff) ==> answer == Err::<i32, ErrorModel>(
                Fault::FdOutOfRange,
            )
            &&& spelled_number(text) == Ok::<i64, crate::error::NumberFault>(number) ==> spelled
                == answer
            &&& spelled_number(text) matches Err(flaw) ==> spelled == Err::<i32, ErrorModel>(
                Fault::FdNotNumber { text, flaw },
            )
        }),
{
}

/// A binding to standard input is accepted exactly if it has no target.
pub proof fn law_stdin_bindings(
    target: Option<TargetModel>,
    profile: Seq<char>,
    secret: Seq<char>,
)
    ensures
        ({
            let answer = binding_check(
                BindingModel { transport: Transport::Stdin, target },
                profile,
                secret,
            );
            &&& target is None ==> answer is Ok
            &&& target is Some ==> answer == Err::<(), ErrorModel>(
                Fault::StdinTarget { profile, secret },
            )
        }),
{
}

/// A binding to an environment variable is accepted exactly if its target is a text that is not
/// empty and holds neither the character NUL nor an equals sign: letters, digits and everything
/// else may stand in it.
pub proof fn law_environment_bindings(
    target: Option<TargetModel>,
    profile: Seq<char>,
    secret: Seq<char>,
)
    ensures
        ({
            let answer = binding_check(
                BindingModel { transport: Transport::Env, target },
                profile,
                secret,
            );
            match target {
                Some(TargetModel::Text(name)) => {
                    &&& answer is Ok <==> name.len() > 0 && !name.contains('\0') && !name.contains(
                        '=',
                    )
                    &&& name.len() == 0 ==> answer == Err::<(), ErrorModel>(
                        Fault::EnvTargetEmpty { profile, secret },
                    )
                    &&& name.contains('\0') || name.contains('=') ==> answer == Err::<
                        (),
                        ErrorModel,
                    >(Fault::EnvTargetInvalid { profile, secret })
                },
                _ => answer == Err::<(), ErrorModel>(Fault::EnvTargetNotText { profile, secret }),
            }
        }),
{
    if let Some(TargetModel::Text(name)) = target {
        if unusable_variable(name) {
            let i = choose|i: int|
                0 <= i < name.len() && (#[trigger] name[i] == '\0' || name[i] == '=');
            assert(name.contains(name[i]));
        } else {
            assert(!name.contains('\0'));
            assert(!name.contains('='));
        }
    }
}

/// A binding to a file descriptor is accepted exactly if its target is a number from 3 to
/// 2147483647 or a text that spells one.
pub proof fn law_descriptor_bindings(
    target: Option<TargetModel>,
    profile: Seq<char>,
    secret: Seq<char>,
)
    ensures
        ({
            let answer = binding_check(
                BindingModel { transport: Transport::Fd, target },
                profile,
                secret,
            );
            let number = match target {
                Some(TargetModel::Number(number)) => Some(number),
                Some(TargetModel::Text(text)) => match spelled_number(text) {
                    Ok(number) => Some(number),
                    Err(_) => None,
                },
                None => None,
            };
            &&& answer is Ok <==> (number matches Some(n) && 3 <= n <= 0x7fff_ffff)
            &&& target is None ==> answer == Err::<(), ErrorModel>(
                Fault::FdTargetMissing { profile, secret },
            )
            &&& (number matches Some(n) && -0x8000_0000 <= n < 3) ==> answer == Err::<
                (),
                ErrorModel,
            >(Fault::FdTargetLow { profile, secret })
            &&& (number matches Some(n) && !(-0x8000_0000 <= n <= 0x7fff_ffff)) ==> answer == Err::<
                (),
                ErrorModel,
            >(Fault::FdTargetOutOfRange { profile, secret })
            &&& target matches Some(TargetModel::Text(text)) ==> (spelled_number(text) matches Err(
                flaw,
            ) ==> answer == Err::<(), ErrorModel>(
                Fault::FdTargetNotNumber { profile, secret, text, flaw },
            ))
        }),
{
}

/// A manifest is accepted exactly if its version is 1, it has a profile, every profile has a sound
/// name and a binding, and every binding is of a secret with a sound name and sound itself.
pub proof fn law_manifests_are_accepted_for_what_they_hold(manifest: Manifest)
    ensures
        manifest_check(manifest) is Ok <==> {
            &&& manifest.version == 1
            &&& manifest.profiles@.len() > 0
            &&& forall|i: int|
                0 <= i < manifest.profiles@.len() ==> {
                    let (name, bindings) = #[trigger] manifest.profiles@[i];
                    &&& name_check(name, "profile"@) is Ok
                    &&& bindings.secrets@.len() > 0
                }
            &&& forall|i: int, j: int|
                0 <= i < manifest.profiles@.len() && 0 <= j
                    < manifest.profiles@[i].1.secrets@.len() ==> {
                    let (secret, binding) = #[trigger] manifest.profiles@[i].1.secrets@[j];
                    &&& name_check(secret, "secret"@) is Ok
                    &&& binding_check(binding@, manifest.profiles@[i].0, secret) is Ok
                }
        },
{
    law_accepted_manifests(manifest);
    let profiles = manifest.profiles@;
    if manifest_check(manifest) is Ok {
        assert forall|i: int, j: int|
            0 <= i < profiles.len() && 0 <= j < profiles[i].1.secrets@.len() implies ({
            let (secret, binding) = #[trigger] profiles[i].1.secrets@[j];
            &&& name_check(secret, "secret"@) is Ok
            &&& binding_check(binding@, profiles[i].0, secret) is Ok
        }) by {
            assert(profile_valid(profiles[i].0, profiles[i].1));
            assert(name_check(profiles[i].1.secrets@[j].0, "secret"@) is Ok);
        }
        assert forall|i: int| 0 <= i < profiles.len() implies ({
            let (name, bindings) = #[trigger] profiles[i];
            &&& name_check(name, "profile"@) is Ok
            &&& bindings.secrets@.len() > 0
        }) by {
            assert(profile_valid(profiles[i].0, profiles[i].1));
        }
    }
}

/// What a manifest is refused for: first its version, then that it has no profile, and then the
/// first fault in the order of the profiles and of their secrets. A profile is refused for its
/// name, then for having no binding; a binding for the name of its secret, then for itself.
pub proof fn law_manifests_are_refused_for_the_first_fault(manifest: Manifest, i: int, j: int)
    ensures
        ({
            let answer = manifest_check(manifest);
            let profiles = manifest.profiles@;
            let sound_before = forall|k: int|
                0 <= k < i && k < profiles.len() ==> profile_check(
                    (#[trigger] profiles[k]).0,
                    profiles[k].1,
                ) is Ok;
            &&& manifest.version != 1 ==> answer == Err::<(), ErrorModel>(
                Fault::UnsupportedVersion { version: manifest.version },
            )
            &&& manifest.version == 1 && profiles.len() == 0 ==> answer == Err::<(), ErrorModel>(
                Fault::NoProfiles,
            )
            &&& manifest.version == 1 && 0 <= i < profiles.len() && sound_before ==> {
                let (name, bindings) = profiles[i];
                let sound = forall|k: int|
                    0 <= k < j && k < bindings.secrets@.len() ==> {
                        let (secret, binding) = #[trigger] bindings.secrets@[k];
                        &&& name_check(secret, "secret"@) is Ok
                        &&& binding_check(binding@, name, secret) is Ok
                    };
                &&& name_check(name, "profile"@) is Err ==> answer == name_check(name, "profile"@)
                &&& name_check(name, "profile"@) is Ok && bindings.secrets@.len() == 0 ==> answer
                    == Err::<(), ErrorModel>(Fault::NoBindings { profile: name })
                &&& name_check(name, "profile"@) is Ok && 0 <= j < bindings.secrets@.len() && sound
                    ==> {
                    let (secret, binding) = bindings.secrets@[j];
                    &&& name_check(secret, "secret"@) is Err ==> answer == name_check(
                        secret,
                        "secret"@,
                    )
                    &&& name_check(secret, "secret"@) is Ok && binding_check(
                        binding@,
                        name,
                        secret,
                    ) is Err ==> answer == binding_check(binding@, name, secret)
                }
            }
        }),
{
    let profiles = manifest.profiles@;
    if 0 <= i < profiles.len() && forall|k: int|
        0 <= k < i && k < profiles.len() ==> profile_check(
            (#[trigger] profiles[k]).0,
            profiles[k].1,
        ) is Ok {
        lemma_profiles_check_from(profiles, i);
        let (name, bindings) = profiles[i];
        if 0 <= j < bindings.secrets@.len() && forall|k: int|
            0 <= k < j && k < bindings.secrets@.len() ==> {
                let (secret, binding) = #[trigger] bindings.secrets@[k];
                &&& name_check(secret, "secret"@) is Ok
                &&& binding_check(binding@, name, secret) is Ok
            } {
            lemma_bindings_check_from(name, bindings.secrets@, j);
        }
    }
}

proof fn lemma_profiles_check_from(profiles: Seq<(Seq<char>, ProfileManifest)>, i: int)
    requires
        0 <= i < profiles.len(),
        forall|k: int|
            0 <= k < i ==> profile_check((#[trigger] profiles[k]).0, profiles[k].1) is Ok,
    ensures
        profiles_check(profiles, 0) == profiles_check(profiles, i),
    decreases i,
{
    if i > 0 {
        lemma_profiles_check_from(profiles, i - 1);
        assert(profile_check(profiles[i - 1].0, profiles[i - 1].1) is Ok);
    }
}

proof fn lemma_bindings_check_from(
    profile: Seq<char>,
    secrets: Seq<(Seq<char>, Binding)>,
    j: int,
)
    requires
        0 <= j < secrets.len(),
        forall|k: int|
            0 <= k < j ==> {
                let (secret, binding) = #[trigger] secrets[k];
                &&& name_check(secret, "secret"@) is Ok
                &&& binding_check(binding@, profile, secret) is Ok
            },
    ensures
        bindings_check(profile, secrets, 0) == bindings_check(profile, secrets, j),
    decreases j,
{
    if j > 0 {
        lemma_bindings_check_from(profile, secrets, j - 1);
        let (secret, binding) = secrets[j - 1];
        assert(name_check(secret, "secret"@) is Ok);
    }
}

/// A direct binding is accepted if it has one of the forms `SECRET=stdin`, `SECRET=env:NAME` and
/// `SECRET=fd:NUMBER`, where the secret holds no equals sign and has a sound name, the variable can
/// bear its name, and the number is one from 3 to 2147483647. What it yields bears the secret, the
/// transport and the target as they were written.
pub proof fn law_direct_bindings_are_what_was_written(
    spec: Seq<char>,
    secret: Seq<char>,
    target: Seq<char>,
)
    ensures
        ({
            let stdin = secret + seq!['=', 's', 't', 'd', 'i', 'n'];
            let env = secret + seq!['=', 'e', 'n', 'v', ':'] + target;
            let fd = secret + seq!['=', 'f', 'd', ':'] + target;
            let sound = name_check(secret, "secret"@) is Ok && !secret.contains('=');
            let answer = cli_binding(spec);
            let on = |transport: Transport, target: Option<TargetModel>|
                success((secret, BindingModel { transport, target }));
            &&& sound && spec == stdin ==> answer == on(Transport::Stdin, None)
            &&& sound && spec == env && target.len() > 0 && !target.contains('\0')
                && !target.contains('=') ==> answer == on(
                Transport::Env,
                Some(TargetModel::Text(target)),
            )
            &&& sound && spec == fd && (spelled_number(target) matches Ok(n) && 3 <= n
                <= 0x7fff_ffff) ==> answer == on(Transport::Fd, Some(TargetModel::Text(target)))
        }),
{
    reveal_strlit("stdin");
    reveal_strlit("env");
    reveal_strlit("fd");
    if name_check(secret, "secret"@) is Ok && !secret.contains('=') {
        law_direct_binding_forms(secret, target);
        law_environment_bindings(Some(TargetModel::Text(target)), "<cli>"@, secret);
        law_descriptor_bindings(Some(TargetModel::Text(target)), "<cli>"@, secret);
        assert("stdin"@ =~= seq!['s', 't', 'd', 'i', 'n']);
        assert("env"@ =~= seq!['e', 'n', 'v']);
        assert("fd"@ =~= seq!['f', 'd']);
        assert(secret + seq!['='] + "stdin"@ =~= secret + seq!['=', 's', 't', 'd', 'i', 'n']);
        assert(secret + seq!['='] + ("env"@ + seq![':'] + target) =~= secret + seq![
            '=',
            'e',
            'n',
            'v',
            ':',
        ] + target);
        assert(secret + seq!['='] + ("fd"@ + seq![':'] + target) =~= secret + seq![
            '=',
            'f',
            'd',
            ':',
        ] + target);
    }
}

/// What a direct binding yields says how it was written: no other text is accepted.
pub proof fn law_no_other_direct_bindings(spec: Seq<char>)
    ensures
        cli_binding(spec) matches Ok((secret, binding)) ==> {
            &&& name_check(secret, "secret"@) is Ok
            &&& !secret.contains('=')
            &&& match binding.transport {
                Transport::Stdin => binding.target is None && spec == secret + seq![
                    '=',
                    's',
                    't',
                    'd',
                    'i',
                    'n',
                ],
                Transport::Env => {
                    &&& binding.target matches Some(TargetModel::Text(name))
                    &&& spec == secret + seq!['=', 'e', 'n', 'v', ':'] + name
                    &&& name.len() > 0
                    &&& !name.contains('\0')
                    &&& !name.contains('=')
                },
                Transport::Fd => {
                    &&& binding.target matches Some(TargetModel::Text(number))
                    &&& spec == secret + seq!['=', 'f', 'd', ':'] + number
                    &&& spelled_number(number) matches Ok(n)
                    &&& 3 <= n <= 0x7fff_ffff
                },
            }
        },
        !spec.contains('=') ==> cli_binding(spec) == Err::<(Seq<char>, BindingModel), ErrorModel>(
            Fault::BindingSyntax { spec },
        ),
{
    reveal_strlit("stdin");
    reveal_strlit("env");
    reveal_strlit("fd");
    law_parts_make_up_the_text(spec, '=');
    if let Ok((secret, binding)) = cli_binding(spec) {
        let delivery = parted(spec, '=')->Some_0.1;
        law_parts_make_up_the_text(delivery, ':');
        match binding.transport {
            Transport::Stdin => {
                assert(spec =~= secret + seq!['=', 's', 't', 'd', 'i', 'n']);
            },
            Transport::Env => {
                law_environment_bindings(binding.target, "<cli>"@, secret);
                let name = parted(delivery, ':')->Some_0.1;
                assert(spec =~= secret + seq!['=', 'e', 'n', 'v', ':'] + name);
            },
            Transport::Fd => {
                law_descriptor_bindings(binding.target, "<cli>"@, secret);
                let number = parted(delivery, ':')->Some_0.1;
                assert(spec =~= secret + seq!['=', 'f', 'd', ':'] + number);
            },
        }
    }
}

/// Of a direct binding with an equals sign a bad name is refused first; then `env` and `fd` without
/// a target, and every transport that there is not, `stdin` with a target among them.
pub proof fn law_refused_direct_bindings(secret: Seq<char>, delivery: Seq<char>)
    requires
        !secret.contains('='),
    ensures
        ({
            let spec = secret + seq!['='] + delivery;
            let answer = cli_binding(spec);
            let named = name_check(secret, "secret"@);
            &&& named matches Err(fault) ==> answer == Err::<(Seq<char>, BindingModel), ErrorModel>(
                fault,
            )
            &&& named is Ok && delivery == seq!['e', 'n', 'v'] ==> answer == Err::<
                (Seq<char>, BindingModel),
                ErrorModel,
            >(Fault::EnvNameMissing)
            &&& named is Ok && delivery == seq!['f', 'd'] ==> answer == Err::<
                (Seq<char>, BindingModel),
                ErrorModel,
            >(Fault::FdNumberMissing)
            &&& named is Ok && !delivery.contains(':') && delivery != seq!['e', 'n', 'v']
                && delivery != seq!['f', 'd'] && delivery != seq!['s', 't', 'd', 'i', 'n']
                ==> answer == Err::<(Seq<char>, BindingModel), ErrorModel>(
                Fault::BindingTransport { spec },
            )
            &&& forall|transport: Seq<char>, target: Seq<char>|
                named is Ok && delivery == #[trigger] (transport + seq![':'] + target)
                    && !transport.contains(':') && transport != seq!['e', 'n', 'v'] && transport
                    != seq!['f', 'd'] ==> answer == Err::<(Seq<char>, BindingModel), ErrorModel>(
                    Fault::BindingTransport { spec },
                )
        }),
{
    reveal_strlit("stdin");
    reveal_strlit("env");
    reveal_strlit("fd");
    let spec = secret + seq!['='] + delivery;
    lemma_parted_at(secret, '=', delivery);
    law_parts_make_up_the_text(delivery, ':');
    assert("stdin"@ =~= seq!['s', 't', 'd', 'i', 'n']);
    assert("env"@ =~= seq!['e', 'n', 'v']);
    assert("fd"@ =~= seq!['f', 'd']);
    assert forall|transport: Seq<char>, target: Seq<char>|
        name_check(secret, "secret"@) is Ok && delivery == #[trigger] (transport + seq![':']
            + target) && !transport.contains(':') && transport != seq!['e', 'n', 'v'] && transport
            != seq!['f', 'd'] implies cli_binding(spec) == Err::<
        (Seq<char>, BindingModel),
        ErrorModel,
    >(Fault::BindingTransport { spec }) by {
        lemma_parted_at(transport, ':', target);
    }
}

} // verus!
