//! The command line: what each command does, and what it prints.

use vstd::prelude::*;

use crate::broker::{run, Request, RunOutcome, RunResult};
use crate::broker::{OutcomeModel, ResultModel};
use crate::clock::remaining_between;
use crate::clock::remaining_text;
use crate::clock::unix_time;
use crate::error::{outcome, success};
use crate::error::{Error, ErrorModel, Fault};
use crate::fingerprint::VerificationStatus;
use crate::manifest::{
    binding_check, cli_binding, law_accepted_manifests, law_direct_bindings_are_valid,
    law_manifests_are_judged_by_what_they_say, manifest_check, BindingModel, ManifestModel,
};
use crate::manifest::{parse_cli_binding, Binding, Manifest, ProfileManifest, MANIFEST_VERSION};
use crate::name_map::NameMap;
use crate::name_map::{contents, law_order_is_determined, lemma_entry_in_contents};
use crate::names::{name_check, plural_ending};
use crate::names::{plural, validate_name};
use crate::render::RenderFormat;
use crate::session::ProfileStatus;
use crate::text::{decimal, joined, signed_decimal, texts};
use crate::text::{copy_texts, join, push_decimal, push_signed, same_text};
use crate::vault::{ProfileSummary, SecretSummary};

verus! {

broadcast use vstd::string::group_string_axioms;

/// Where the value of a secret comes from.
#[derive(Debug, Clone, Copy, PartialEq, Eq, Structural)]
pub enum ValueSource {
    /// A hidden prompt.
    Prompt,
    /// A file, byte for byte.
    File,
}

/// Where a value comes from, if that is said.
pub open spec fn chosen_source(prompt: bool, from_file: bool) -> Result<ValueSource, ErrorModel> {
    if prompt {
        Ok(ValueSource::Prompt)
    } else if from_file {
        Ok(ValueSource::File)
    } else {
        Err(Fault::ValueSourceMissing)
    }
}

/// Where a value comes from: one of the two must be chosen, and not both.
pub fn value_source(prompt: bool, from_file: bool) -> (r: Result<ValueSource, Error>)
    requires
        !(prompt && from_file),
    ensures
        outcome(r) == chosen_source(prompt, from_file),
{
    if prompt {
        Ok(ValueSource::Prompt)
    } else if from_file {
        Ok(ValueSource::File)
    } else {
        Err(Fault::ValueSourceMissing)
    }
}

/// Checks a value that was typed.
pub fn check_value(value: &str) -> (r: Result<(), Error>)
    ensures
        outcome(r) == if value@.len() == 0 {
            Err(ErrorModel::ValueEmpty)
        } else {
            Ok(())
        },
{
    if value.is_empty() {
        Err(Fault::ValueEmpty)
    } else {
        Ok(())
    }
}

/// Where rendered text goes.
#[derive(Debug, Clone, Copy, PartialEq, Eq, Structural)]
pub enum Destination {
    /// A file that only its owner can read.
    File,
    /// Standard output.
    Stdout,
}

/// Where rendered text goes, if that is said.
pub open spec fn chosen_destination(to_file: bool, to_stdout: bool) -> Result<
    Destination,
    ErrorModel,
> {
    if to_file {
        Ok(Destination::File)
    } else if to_stdout {
        Ok(Destination::Stdout)
    } else {
        Err(Fault::OutputMissing)
    }
}

/// The commands on profiles.
#[derive(Debug)]
pub enum ProfileCommand {
    Create { name: String, ttl_seconds: i64 },
    List,
    Delete { name: String },
    Render { name: String, format: RenderFormat, to_file: bool, to_stdout: bool },
    Export { name: String },
    Import { as_name: Option<String> },
}

/// The commands on secrets.
#[derive(Debug)]
pub enum SecretCommand {
    Store { profile: String, name: String, prompt: bool, from_file: bool },
    List { profile: String },
    Delete { profile: String, name: String },
    Print { profile: String, name: String },
    Fingerprint { profile: String, name: String, prompt: bool, from_file: bool },
    Verify { profile: String, name: String, fingerprint: String },
}

/// One step of a command. `S` is `String` in code and `Seq<char>` in contracts.
#[allow(inconsistent_fields)]
#[derive(Debug)]
pub enum CommandStep<S> {
    /// Ask for the vault password and open the vault.
    OpenVault,
    /// Read a value; `label` says in a prompt what for.
    ReadValue { source: ValueSource, label: S },
    /// Make a profile.
    CreateProfile { name: S, ttl_seconds: i64 },
    /// Delete a profile with its secrets.
    DeleteProfile { name: S },
    /// Print the table of profiles.
    ShowProfiles,
    /// Store the value that was read.
    StoreSecret { profile: S, name: S },
    /// Print the table of the secrets of a profile.
    ShowSecrets { profile: S },
    /// Delete a secret.
    DeleteSecret { profile: S, name: S },
    /// Print a secret.
    PrintSecret { profile: S, name: S },
    /// Render a profile.
    RenderProfile { name: S, format: RenderFormat, destination: Destination },
    /// Write a profile to a bundle.
    ExportProfile { name: S },
    /// Take in the profile of a bundle.
    ImportProfile { as_name: Option<S> },
    /// Print the fingerprint of the value that was read.
    PrintFingerprint { profile: S, name: S },
    /// Have the broker compare a secret with a fingerprint.
    VerifyFingerprint { profile: S, name: S, fingerprint: S },
    /// Print a line.
    Say { text: S },
}

/// A step as contracts speak of it.
pub type StepModel = CommandStep<Seq<char>>;

impl View for CommandStep<String> {
    type V = CommandStep<Seq<char>>;

    open spec fn view(&self) -> CommandStep<Seq<char>> {
        match *self {
            CommandStep::OpenVault => CommandStep::OpenVault,
            CommandStep::ReadValue { source, label } => CommandStep::ReadValue {
                source,
                label: label@,
            },
            CommandStep::CreateProfile { name, ttl_seconds } => CommandStep::CreateProfile {
                name: name@,
                ttl_seconds,
            },
            CommandStep::DeleteProfile { name } => CommandStep::DeleteProfile { name: name@ },
            CommandStep::ShowProfiles => CommandStep::ShowProfiles,
            CommandStep::StoreSecret { profile, name } => CommandStep::StoreSecret {
                profile: profile@,
                name: name@,
            },
            CommandStep::ShowSecrets { profile } => CommandStep::ShowSecrets { profile: profile@ },
            CommandStep::DeleteSecret { profile, name } => CommandStep::DeleteSecret {
                profile: profile@,
                name: name@,
            },
            CommandStep::PrintSecret { profile, name } => CommandStep::PrintSecret {
                profile: profile@,
                name: name@,
            },
            CommandStep::RenderProfile { name, format, destination } => {
                CommandStep::RenderProfile { name: name@, format, destination }
            },
            CommandStep::ExportProfile { name } => CommandStep::ExportProfile { name: name@ },
            CommandStep::ImportProfile { as_name } => CommandStep::ImportProfile {
                as_name: match as_name {
                    Some(name) => Some(name@),
                    None => None,
                },
            },
            CommandStep::PrintFingerprint { profile, name } => CommandStep::PrintFingerprint {
                profile: profile@,
                name: name@,
            },
            CommandStep::VerifyFingerprint { profile, name, fingerprint } => {
                CommandStep::VerifyFingerprint {
                    profile: profile@,
                    name: name@,
                    fingerprint: fingerprint@,
                }
            },
            CommandStep::Say { text } => CommandStep::Say { text: text@ },
        }
    }
}

/// What a row of steps says.
pub open spec fn step_models(steps: Seq<CommandStep<String>>) -> Seq<StepModel> {
    Seq::new(steps.len(), |i: int| steps[i]@)
}

fn one_step(first: CommandStep<String>) -> (r: Vec<CommandStep<String>>)
    ensures
        step_models(r@) == seq![first@],
{
    let mut steps: Vec<CommandStep<String>> = Vec::new();
    steps.push(first);
    assert(step_models(steps@) =~= seq![first@]);
    steps
}

fn two_steps(
    first: CommandStep<String>,
    second: CommandStep<String>,
) -> (r: Vec<CommandStep<String>>)
    ensures
        step_models(r@) == seq![first@, second@],
{
    let mut steps: Vec<CommandStep<String>> = Vec::new();
    steps.push(first);
    steps.push(second);
    assert(step_models(steps@) =~= seq![first@, second@]);
    steps
}

fn three_steps(
    first: CommandStep<String>,
    second: CommandStep<String>,
    third: CommandStep<String>,
) -> (r: Vec<CommandStep<String>>)
    ensures
        step_models(r@) == seq![first@, second@, third@],
{
    let mut steps: Vec<CommandStep<String>> = Vec::new();
    steps.push(first);
    steps.push(second);
    steps.push(third);
    assert(step_models(steps@) =~= seq![first@, second@, third@]);
    steps
}

fn four_steps(
    first: CommandStep<String>,
    second: CommandStep<String>,
    third: CommandStep<String>,
    fourth: CommandStep<String>,
) -> (r: Vec<CommandStep<String>>)
    ensures
        step_models(r@) == seq![first@, second@, third@, fourth@],
{
    let mut steps: Vec<CommandStep<String>> = Vec::new();
    steps.push(first);
    steps.push(second);
    steps.push(third);
    steps.push(fourth);
    assert(step_models(steps@) =~= seq![first@, second@, third@, fourth@]);
    steps
}

/// A line with a name in it, between two texts.
pub open spec fn line_about(before: Seq<char>, name: Seq<char>, after: Seq<char>) -> Seq<char> {
    before + name + after
}

/// The full name of a secret.
pub open spec fn full_name(profile: Seq<char>, name: Seq<char>) -> Seq<char> {
    profile + "/"@ + name
}

fn sentence(before: &str, name: &str, after: &str) -> (r: String)
    ensures
        r@ == line_about(before@, name@, after@),
{
    let mut text: String = before.to_owned();
    text.append(name);
    text.append(after);
    text
}

fn secret_name(profile: &str, name: &str) -> (r: String)
    ensures
        r@ == full_name(profile@, name@),
{
    let mut text: String = profile.to_owned();
    text.append("/");
    text.append(name);
    text
}

/// Whether a profile can be made with this name and this lifetime.
pub open spec fn new_profile_check(name: Seq<char>, ttl_seconds: i64) -> Result<(), ErrorModel> {
    match name_check(name, "profile"@) {
        Err(fault) => Err(fault),
        Ok(()) => if ttl_seconds <= 0 {
            Err(Fault::ProfileLifetime)
        } else {
            Ok(())
        },
    }
}

/// Checks the name and the lifetime of a new profile.
pub fn check_new_profile(name: &str, ttl_seconds: i64) -> (r: Result<(), Error>)
    ensures
        outcome(r) == new_profile_check(name@, ttl_seconds),
{
    match validate_name(name, "profile") {
        Err(error) => Err(error),
        Ok(()) => {
            if ttl_seconds <= 0 {
                return Err(Fault::ProfileLifetime);
            }
            Ok(())
        },
    }
}

/// The steps of a command on profiles; an error if its arguments are not acceptable.
pub open spec fn profile_steps(command: ProfileCommand) -> Result<Seq<StepModel>, ErrorModel> {
    match command {
        ProfileCommand::Create { name, ttl_seconds } => match new_profile_check(
            name@,
            ttl_seconds,
        ) {
            Err(fault) => Err(fault),
            Ok(()) => Ok(
                seq![
                    CommandStep::OpenVault,
                    CommandStep::CreateProfile { name: name@, ttl_seconds },
                    CommandStep::Say { text: line_about("Created profile '"@, name@, "'."@) },
                ],
            ),
        },
        ProfileCommand::List => Ok(seq![CommandStep::OpenVault, CommandStep::ShowProfiles]),
        ProfileCommand::Delete { name } => match name_check(name@, "profile"@) {
            Err(fault) => Err(fault),
            Ok(()) => Ok(
                seq![
                    CommandStep::OpenVault,
                    CommandStep::DeleteProfile { name: name@ },
                    CommandStep::Say { text: line_about("Deleted profile '"@, name@, "'."@) },
                ],
            ),
        },
        ProfileCommand::Render { name, format, to_file, to_stdout } => match name_check(
            name@,
            "profile"@,
        ) {
            Err(fault) => Err(fault),
            Ok(()) => match chosen_destination(to_file, to_stdout) {
                Err(fault) => Err(fault),
                Ok(destination) => Ok(
                    seq![
                        CommandStep::OpenVault,
                        CommandStep::RenderProfile { name: name@, format, destination },
                    ],
                ),
            },
        },
        ProfileCommand::Export { name } => match name_check(name@, "profile"@) {
            Err(fault) => Err(fault),
            Ok(()) => Ok(
                seq![CommandStep::OpenVault, CommandStep::ExportProfile { name: name@ }],
            ),
        },
        ProfileCommand::Import { as_name } => Ok(
            seq![
                CommandStep::ImportProfile {
                    as_name: match as_name {
                        Some(name) => Some(name@),
                        None => None,
                    },
                },
            ],
        ),
    }
}

/// The steps of a command on profiles.
#[verifier::rlimit(30)]
pub fn profile_command(command: ProfileCommand) -> (r: Result<Vec<CommandStep<String>>, Error>)
    ensures
        match r {
            Ok(steps) => profile_steps(command) == success(step_models(steps@)),
            Err(error) => profile_steps(command) matches Err(fault) && fault == error@,
        },
{
    match command {
        ProfileCommand::Create { name, ttl_seconds } => {
            match check_new_profile(name.as_str(), ttl_seconds) {
                Err(error) => {
                    return Err(error);
                },
                Ok(()) => {},
            }
            let text = sentence("Created profile '", name.as_str(), "'.");
            Ok(
                three_steps(
                    CommandStep::OpenVault,
                    CommandStep::CreateProfile { name, ttl_seconds },
                    CommandStep::Say { text },
                ),
            )
        },
        ProfileCommand::List => {
            Ok(two_steps(CommandStep::OpenVault, CommandStep::ShowProfiles))
        },
        ProfileCommand::Delete { name } => {
            match validate_name(name.as_str(), "profile") {
                Err(error) => {
                    return Err(error);
                },
                Ok(()) => {},
            }
            let text = sentence("Deleted profile '", name.as_str(), "'.");
            Ok(
                three_steps(
                    CommandStep::OpenVault,
                    CommandStep::DeleteProfile { name },
                    CommandStep::Say { text },
                ),
            )
        },
        ProfileCommand::Render { name, format, to_file, to_stdout } => {
            match validate_name(name.as_str(), "profile") {
                Err(error) => {
                    return Err(error);
                },
                Ok(()) => {},
            }
            let destination = if to_file {
                Destination::File
            } else if to_stdout {
                Destination::Stdout
            } else {
                return Err(Fault::OutputMissing);
            };
            Ok(
                two_steps(
                    CommandStep::OpenVault,
                    CommandStep::RenderProfile { name, format, destination },
                ),
            )
        },
        ProfileCommand::Export { name } => {
            match validate_name(name.as_str(), "profile") {
                Err(error) => {
                    return Err(error);
                },
                Ok(()) => {},
            }
            Ok(two_steps(CommandStep::OpenVault, CommandStep::ExportProfile { name }))
        },
        ProfileCommand::Import { as_name } => {
            Ok(one_step(CommandStep::ImportProfile { as_name }))
        },
    }
}

/// Whether these may name a profile and one of its secrets.
pub open spec fn names_check(profile: Seq<char>, name: Seq<char>) -> Result<(), ErrorModel> {
    match name_check(profile, "profile"@) {
        Err(fault) => Err(fault),
        Ok(()) => name_check(name, "secret"@),
    }
}

fn check_names(profile: &str, name: &str) -> (r: Result<(), Error>)
    ensures
        outcome(r) == names_check(profile@, name@),
{
    match validate_name(profile, "profile") {
        Err(error) => Err(error),
        Ok(()) => validate_name(name, "secret"),
    }
}

/// The steps of a command on secrets; an error if its arguments are not acceptable.
pub open spec fn secret_steps(command: SecretCommand) -> Result<Seq<StepModel>, ErrorModel> {
    match command {
        SecretCommand::Store { profile, name, prompt, from_file } => match names_check(
            profile@,
            name@,
        ) {
            Err(fault) => Err(fault),
            Ok(()) => match chosen_source(prompt, from_file) {
                Err(fault) => Err(fault),
                Ok(source) => Ok(
                    seq![
                        CommandStep::ReadValue {
                            source,
                            label: "Value for "@ + full_name(profile@, name@),
                        },
                        CommandStep::OpenVault,
                        CommandStep::StoreSecret { profile: profile@, name: name@ },
                        CommandStep::Say {
                            text: line_about(
                                "Stored secret '"@,
                                full_name(profile@, name@),
                                "'."@,
                            ),
                        },
                    ],
                ),
            },
        },
        SecretCommand::List { profile } => match name_check(profile@, "profile"@) {
            Err(fault) => Err(fault),
            Ok(()) => Ok(
                seq![CommandStep::OpenVault, CommandStep::ShowSecrets { profile: profile@ }],
            ),
        },
        SecretCommand::Delete { profile, name } => match names_check(profile@, name@) {
            Err(fault) => Err(fault),
            Ok(()) => Ok(
                seq![
                    CommandStep::OpenVault,
                    CommandStep::DeleteSecret { profile: profile@, name: name@ },
                    CommandStep::Say {
                        text: line_about("Deleted secret '"@, full_name(profile@, name@), "'."@),
                    },
                ],
            ),
        },
        SecretCommand::Print { profile, name } => match names_check(profile@, name@) {
            Err(fault) => Err(fault),
            Ok(()) => Ok(
                seq![
                    CommandStep::OpenVault,
                    CommandStep::PrintSecret { profile: profile@, name: name@ },
                ],
            ),
        },
        SecretCommand::Fingerprint { profile, name, prompt, from_file } => match names_check(
            profile@,
            name@,
        ) {
            Err(fault) => Err(fault),
            Ok(()) => match chosen_source(prompt, from_file) {
                Err(fault) => Err(fault),
                Ok(source) => Ok(
                    seq![
                        CommandStep::ReadValue {
                            source,
                            label: "Expected value for "@ + full_name(profile@, name@),
                        },
                        CommandStep::OpenVault,
                        CommandStep::PrintFingerprint { profile: profile@, name: name@ },
                    ],
                ),
            },
        },
        SecretCommand::Verify { profile, name, fingerprint } => match names_check(
            profile@,
            name@,
        ) {
            Err(fault) => Err(fault),
            Ok(()) => Ok(
                seq![
                    CommandStep::VerifyFingerprint {
                        profile: profile@,
                        name: name@,
                        fingerprint: fingerprint@,
                    },
                ],
            ),
        },
    }
}

/// Whether a command asks for both sources of a value at once.
pub open spec fn both_sources(command: SecretCommand) -> bool {
    match command {
        SecretCommand::Store { prompt, from_file, .. } => prompt && from_file,
        SecretCommand::Fingerprint { prompt, from_file, .. } => prompt && from_file,
        _ => false,
    }
}

/// The steps of a command on secrets.
#[verifier::rlimit(30)]
pub fn secret_command(command: SecretCommand) -> (r: Result<Vec<CommandStep<String>>, Error>)
    requires
        !both_sources(command),
    ensures
        match r {
            Ok(steps) => secret_steps(command) == success(step_models(steps@)),
            Err(error) => secret_steps(command) matches Err(fault) && fault == error@,
        },
{
    match command {
        SecretCommand::Store { profile, name, prompt, from_file } => {
            match check_names(profile.as_str(), name.as_str()) {
                Err(error) => {
                    return Err(error);
                },
                Ok(()) => {},
            }
            let source = match value_source(prompt, from_file) {
                Err(error) => {
                    return Err(error);
                },
                Ok(source) => source,
            };
            let full = secret_name(profile.as_str(), name.as_str());
            let mut label: String = "Value for ".to_owned();
            label.append(full.as_str());
            let text = sentence("Stored secret '", full.as_str(), "'.");
            Ok(
                four_steps(
                    CommandStep::ReadValue { source, label },
                    CommandStep::OpenVault,
                    CommandStep::StoreSecret { profile, name },
                    CommandStep::Say { text },
                ),
            )
        },
        SecretCommand::List { profile } => {
            match validate_name(profile.as_str(), "profile") {
                Err(error) => {
                    return Err(error);
                },
                Ok(()) => {},
            }
            Ok(two_steps(CommandStep::OpenVault, CommandStep::ShowSecrets { profile }))
        },
        SecretCommand::Delete { profile, name } => {
            match check_names(profile.as_str(), name.as_str()) {
                Err(error) => {
                    return Err(error);
                },
                Ok(()) => {},
            }
            let full = secret_name(profile.as_str(), name.as_str());
            let text = sentence("Deleted secret '", full.as_str(), "'.");
            Ok(
                three_steps(
                    CommandStep::OpenVault,
                    CommandStep::DeleteSecret { profile, name },
                    CommandStep::Say { text },
                ),
            )
        },
        SecretCommand::Print { profile, name } => {
            match check_names(profile.as_str(), name.as_str()) {
                Err(error) => {
                    return Err(error);
                },
                Ok(()) => {},
            }
            Ok(two_steps(CommandStep::OpenVault, CommandStep::PrintSecret { profile, name }))
        },
        SecretCommand::Fingerprint { profile, name, prompt, from_file } => {
            match check_names(profile.as_str(), name.as_str()) {
                Err(error) => {
                    return Err(error);
                },
                Ok(()) => {},
            }
            let source = match value_source(prompt, from_file) {
                Err(error) => {
                    return Err(error);
                },
                Ok(source) => source,
            };
            let full = secret_name(profile.as_str(), name.as_str());
            let mut label: String = "Expected value for ".to_owned();
            label.append(full.as_str());
            Ok(
                three_steps(
                    CommandStep::ReadValue { source, label },
                    CommandStep::OpenVault,
                    CommandStep::PrintFingerprint { profile, name },
                ),
            )
        },
        SecretCommand::Verify { profile, name, fingerprint } => {
            match check_names(profile.as_str(), name.as_str()) {
                Err(error) => {
                    return Err(error);
                },
                Ok(()) => {},
            }
            Ok(one_step(CommandStep::VerifyFingerprint { profile, name, fingerprint }))
        },
    }
}

/// The line that says where a profile was rendered to.
pub fn rendered_line(name: &str, path: &str) -> (r: String)
    ensures
        r@ == "Rendered profile '"@ + name@ + "' to "@ + path@ + "."@,
{
    let mut text: String = "Rendered profile '".to_owned();
    text.append(name);
    text.append("' to ");
    text.append(path);
    text.append(".");
    text
}

/// The line that says where a profile was exported to.
pub fn exported_line(name: &str, path: &str) -> (r: String)
    ensures
        r@ == "Exported encrypted profile '"@ + name@ + "' to "@ + path@ + "."@,
{
    let mut text: String = "Exported encrypted profile '".to_owned();
    text.append(name);
    text.append("' to ");
    text.append(path);
    text.append(".");
    text
}

/// The line that says under which name a profile was imported.
pub fn imported_line(name: &str) -> (r: String)
    ensures
        r@ == line_about("Imported encrypted profile as '"@, name@, "'."@),
{
    sentence("Imported encrypted profile as '", name, "'.")
}

/// A row of the table of profiles.
pub open spec fn profile_row(profile: ProfileSummary) -> Seq<char> {
    profile.name@ + "\t"@ + signed_decimal(profile.secret_count as int) + "\t"@ + signed_decimal(
        profile.ttl_seconds as int,
    ) + "\n"@
}

/// The rows of the table of profiles.
pub open spec fn profile_rows(profiles: Seq<ProfileSummary>) -> Seq<char>
    decreases profiles.len(),
{
    if profiles.len() == 0 {
        Seq::empty()
    } else {
        profile_rows(profiles.drop_last()) + profile_row(profiles.last())
    }
}

/// The table of profiles.
pub fn profile_table(profiles: &Vec<ProfileSummary>) -> (r: String)
    ensures
        r@ == if profiles@.len() == 0 {
            "No profiles found.\n"@
        } else {
            "PROFILE\tSECRETS\tTTL_SECONDS\n"@ + profile_rows(profiles@)
        },
{
    if profiles.len() == 0 {
        return "No profiles found.\n".to_owned();
    }
    let mut table: String = "PROFILE\tSECRETS\tTTL_SECONDS\n".to_owned();
    let ghost head = table@;
    let mut index: usize = 0;
    assert(profiles@.take(0) =~= Seq::empty());
    assert(head + Seq::<char>::empty() =~= head);
    while index < profiles.len()
        invariant
            index <= profiles.len(),
            table@ == head + profile_rows(profiles@.take(index as int)),
        decreases profiles.len() - index,
    {
        let ghost before = table@;
        assert(profiles@.take(index + 1).drop_last() =~= profiles@.take(index as int));
        table.append(profiles[index].name.as_str());
        table.append("\t");
        push_signed(&mut table, profiles[index].secret_count);
        table.append("\t");
        push_signed(&mut table, profiles[index].ttl_seconds);
        table.append("\n");
        assert(table@ =~= before + profile_row(profiles@[index as int]));
        assert(table@ =~= head + profile_rows(profiles@.take(index + 1)));
        index += 1;
    }
    assert(profiles@.take(index as int) =~= profiles@);
    table
}

/// A row of the table of secrets.
pub open spec fn secret_row(profile: Seq<char>, secret: SecretSummary) -> Seq<char> {
    profile + "\t"@ + secret.name@ + "\t"@ + decimal(secret.byte_len as nat) + "\n"@
}

/// The rows of the table of secrets.
pub open spec fn secret_rows(profile: Seq<char>, secrets: Seq<SecretSummary>) -> Seq<char>
    decreases secrets.len(),
{
    if secrets.len() == 0 {
        Seq::empty()
    } else {
        secret_rows(profile, secrets.drop_last()) + secret_row(profile, secrets.last())
    }
}

/// The table of the secrets of a profile.
pub fn secret_table(profile: &str, secrets: &Vec<SecretSummary>) -> (r: String)
    ensures
        r@ == if secrets@.len() == 0 {
            line_about("No secrets found in profile '"@, profile@, "'.\n"@)
        } else {
            "PROFILE\tSECRET\tBYTES\n"@ + secret_rows(profile@, secrets@)
        },
{
    if secrets.len() == 0 {
        return sentence("No secrets found in profile '", profile, "'.\n");
    }
    let mut table: String = "PROFILE\tSECRET\tBYTES\n".to_owned();
    let ghost head = table@;
    let mut index: usize = 0;
    assert(secrets@.take(0) =~= Seq::empty());
    assert(head + Seq::<char>::empty() =~= head);
    while index < secrets.len()
        invariant
            index <= secrets.len(),
            table@ == head + secret_rows(profile@, secrets@.take(index as int)),
        decreases secrets.len() - index,
    {
        let ghost before = table@;
        assert(secrets@.take(index + 1).drop_last() =~= secrets@.take(index as int));
        table.append(profile);
        table.append("\t");
        table.append(secrets[index].name.as_str());
        table.append("\t");
        push_decimal(&mut table, secrets[index].byte_len as u64);
        table.append("\n");
        assert(table@ =~= before + secret_row(profile@, secrets@[index as int]));
        assert(table@ =~= head + secret_rows(profile@, secrets@.take(index + 1)));
        index += 1;
    }
    assert(secrets@.take(index as int) =~= secrets@);
    table
}

/// A row of the table of unlocked profiles, at the time `now`.
pub open spec fn status_row(profile: ProfileStatus, now: i64) -> Seq<char> {
    profile.name@ + "\tunlocked\t"@ + if profile.zero_trust {
        "zero-trust"@
    } else {
        "standard"@
    } + "\t"@ + remaining_text(profile.expires_at, now) + "\n"@
}

/// The rows of the table of unlocked profiles, one for each time.
pub open spec fn status_rows(profiles: Seq<ProfileStatus>, times: Seq<i64>) -> Seq<char>
    decreases times.len(),
{
    if times.len() == 0 {
        Seq::empty()
    } else {
        status_rows(profiles, times.drop_last()) + status_row(
            profiles[times.len() - 1],
            times.last(),
        )
    }
}

/// The table of unlocked profiles, as far as there are times for its rows.
pub open spec fn status_text(profiles: Seq<ProfileStatus>, times: Seq<i64>) -> Seq<char> {
    if profiles.len() == 0 {
        "No profiles are unlocked.\n"@
    } else {
        "PROFILE\tSTATUS\tAUTH\tEXPIRES\n"@ + status_rows(profiles, times)
    }
}

/// The table of unlocked profiles, as far as there are times for its rows.
pub fn status_table_at(profiles: &Vec<ProfileStatus>, times: &Vec<i64>) -> (r: String)
    requires
        times@.len() <= profiles@.len(),
    ensures
        r@ == status_text(profiles@, times@),
{
    if profiles.len() == 0 {
        return "No profiles are unlocked.\n".to_owned();
    }
    let mut table: String = "PROFILE\tSTATUS\tAUTH\tEXPIRES\n".to_owned();
    let ghost head = table@;
    let mut index: usize = 0;
    assert(head + Seq::<char>::empty() =~= head);
    while index < times.len()
        invariant
            times.len() <= profiles.len(),
            index <= times.len(),
            table@ == head + status_rows(profiles@, times@.take(index as int)),
        decreases times.len() - index,
    {
        let ghost before = table@;
        assert(times@.take(index + 1).drop_last() =~= times@.take(index as int));
        let profile = &profiles[index];
        table.append(profile.name.as_str());
        table.append("\tunlocked\t");
        if profile.zero_trust {
            table.append("zero-trust");
        } else {
            table.append("standard");
        }
        table.append("\t");
        table.append(remaining_between(profile.expires_at, times[index]).as_str());
        table.append("\n");
        assert(table@ =~= before + status_row(profiles@[index as int], times@[index as int]));
        assert(table@ =~= head + status_rows(profiles@, times@.take(index + 1)));
        index += 1;
    }
    assert(times@.take(index as int) =~= times@);
    table
}

/// A table, or the first rows of one and the error that stopped it.
pub struct StatusReport {
    pub table: String,
    pub failure: Option<Error>,
}

/// The table of unlocked profiles. The clock is read for each row; where it fails, the rows before
/// are shown all the same.
pub fn status_table(profiles: &Vec<ProfileStatus>) -> (r: StatusReport)
    ensures
        exists|times: Seq<i64>|
            {
                &&& times.len() <= profiles@.len()
                &&& r.table@ == #[trigger] status_text(profiles@, times)
                &&& r.failure is None <==> times.len() == profiles@.len()
            },
        r.failure matches Some(error) ==> error@ == ErrorModel::ClockBeforeEpoch,
{
    let mut times: Vec<i64> = Vec::new();
    let mut index: usize = 0;
    while index < profiles.len()
        invariant
            index <= profiles.len(),
            times.len() == index,
        decreases profiles.len() - index,
    {
        match unix_time() {
            Ok(now) => {
                times.push(now);
            },
            Err(error) => {
                let table = status_table_at(profiles, &times);
                assert(table@ == status_text(profiles@, times@));
                return StatusReport { table, failure: Some(error) };
            },
        }
        index += 1;
    }
    let table = status_table_at(profiles, &times);
    assert(table@ == status_text(profiles@, times@));
    StatusReport { table, failure: None }
}

/// The first fault among the names of profiles, from the place `from` on.
pub open spec fn profile_names_check(names: Seq<Seq<char>>, from: int) -> Result<(), ErrorModel>
    decreases names.len() - from,
{
    if from < 0 || from >= names.len() {
        Ok(())
    } else {
        match name_check(names[from], "profile"@) {
            Err(fault) => Err(fault),
            Ok(()) => profile_names_check(names, from + 1),
        }
    }
}

/// Checks the names of profiles, one after the other.
pub fn check_profile_names(names: &Vec<String>) -> (r: Result<(), Error>)
    ensures
        outcome(r) == profile_names_check(texts(names@), 0),
{
    let mut index: usize = 0;
    while index < names.len()
        invariant
            index <= names.len(),
            profile_names_check(texts(names@), 0) == profile_names_check(
                texts(names@),
                index as int,
            ),
        decreases names.len() - index,
    {
        match validate_name(names[index].as_str(), "profile") {
            Err(error) => {
                return Err(error);
            },
            Ok(()) => {},
        }
        index += 1;
    }
    Ok(())
}

/// A line about some profiles: the noun with its ending, and the names.
pub open spec fn profiles_line(before: Seq<char>, names: Seq<Seq<char>>) -> Seq<char> {
    before + " profile"@ + plural_ending(names.len()) + ": "@ + joined(names, ", "@) + "."@
}

fn about_profiles(before: &str, names: &Vec<String>) -> (r: String)
    ensures
        r@ == profiles_line(before@, texts(names@)),
{
    let mut text: String = before.to_owned();
    text.append(" profile");
    text.append(plural(names.len()));
    text.append(": ");
    text.append(join(names, ", ").as_str());
    text.append(".");
    text
}

/// The line that says which profiles were unlocked.
pub fn unlocked_line(names: &Vec<String>, zero_trust: bool) -> (r: String)
    ensures
        r@ == profiles_line(
            if zero_trust {
                "Unlocked zero-trust"@
            } else {
                "Unlocked"@
            },
            texts(names@),
        ),
{
    if zero_trust {
        about_profiles("Unlocked zero-trust", names)
    } else {
        about_profiles("Unlocked", names)
    }
}

/// The line that says which profiles were locked.
pub fn locked_line(names: &Vec<String>) -> (r: String)
    ensures
        r@ == if names@.len() == 0 {
            "Locked all profiles."@
        } else {
            profiles_line("Locked"@, texts(names@))
        },
{
    if names.len() == 0 {
        "Locked all profiles.".to_owned()
    } else {
        about_profiles("Locked", names)
    }
}

/// The bindings of a row of direct bindings, by the names of the secrets; an error for the first
/// that is malformed or of a secret that is bound already.
pub open spec fn direct_bindings(profile: Seq<char>, specs: Seq<Seq<char>>) -> Result<
    Map<Seq<char>, BindingModel>,
    ErrorModel,
>
    decreases specs.len(),
{
    if specs.len() == 0 {
        Ok(Map::empty())
    } else {
        match direct_bindings(profile, specs.drop_last()) {
            Err(fault) => Err(fault),
            Ok(bindings) => match cli_binding(specs.last()) {
                Err(fault) => Err(fault),
                Ok((name, binding)) => if bindings.dom().contains(name) {
                    Err(Fault::SecretBoundTwice { profile, name })
                } else {
                    Ok(bindings.insert(name, binding))
                },
            },
        }
    }
}

/// What the bindings of a profile say.
pub open spec fn binding_models(entries: Seq<(Seq<char>, Binding)>) -> Map<
    Seq<char>,
    BindingModel,
> {
    contents(entries).map_values(|binding: Binding| binding@)
}

/// The manifest with one profile and these direct bindings.
pub open spec fn direct(manifest: Manifest, profile: Seq<char>, specs: Seq<Seq<char>>) -> bool {
    &&& manifest.version == MANIFEST_VERSION
    &&& manifest.profiles@.len() == 1
    &&& manifest.profiles@[0].0 == profile
    &&& direct_bindings(profile, specs) == success(
        binding_models(manifest.profiles@[0].1.secrets@),
    )
}

/// What is wrong with a profile and its direct bindings.
pub open spec fn direct_fault(profile: Seq<char>, specs: Seq<Seq<char>>) -> Option<ErrorModel> {
    match name_check(profile, "profile"@) {
        Err(fault) => Some(fault),
        Ok(()) => match direct_bindings(profile, specs) {
            Err(fault) => Some(fault),
            Ok(_) => None,
        },
    }
}

proof fn lemma_direct_refusal(profile: Seq<char>, specs: Seq<Seq<char>>, count: int)
    requires
        0 <= count <= specs.len(),
        direct_bindings(profile, specs.take(count)) is Err,
    ensures
        direct_bindings(profile, specs) == direct_bindings(profile, specs.take(count)),
    decreases specs.len(),
{
    if count == specs.len() {
        assert(specs.take(count) == specs);
    } else {
        assert(specs.drop_last().take(count) == specs.take(count));
        lemma_direct_refusal(profile, specs.drop_last(), count);
    }
}

/// The manifest that a profile and direct bindings stand for.
pub fn direct_manifest(profile: String, specs: &Vec<String>) -> (r: Result<Manifest, Error>)
    ensures
        match r {
            Ok(manifest) => {
                &&& direct_fault(profile@, texts(specs@)) is None
                &&& direct(manifest, profile@, texts(specs@))
                &&& manifest.profiles@[0].1.secrets.ordered()
            },
            Err(error) => direct_fault(profile@, texts(specs@)) == Some(error@),
        },
{
    match validate_name(profile.as_str(), "profile") {
        Err(error) => {
            return Err(error);
        },
        Ok(()) => {},
    }
    let ghost all = texts(specs@);
    let ghost owner = profile@;
    let mut secrets: NameMap<Binding> = NameMap::new();
    let mut index: usize = 0;
    assert(all.take(0) =~= Seq::empty());
    assert(binding_models(secrets@) =~= Map::empty());
    while index < specs.len()
        invariant
            all == texts(specs@),
            owner == profile@,
            name_check(owner, "profile"@) is Ok,
            index <= specs.len(),
            direct_bindings(owner, all.take(index as int)) == success(binding_models(secrets@)),
        decreases specs.len() - index,
    {
        proof {
            assert(all.take(index + 1).drop_last() =~= all.take(index as int));
            if direct_bindings(owner, all.take(index + 1)) is Err {
                lemma_direct_refusal(owner, all, index + 1);
            }
        }
        let (name, binding) = match parse_cli_binding(specs[index].as_str()) {
            Err(error) => {
                return Err(error);
            },
            Ok(parsed) => parsed,
        };
        let ghost before = secrets@;
        let ghost said = binding@;
        let ghost key = name@;
        if secrets.get(name.as_str()).is_some() {
            return Err(Fault::SecretBoundTwice { profile, name });
        }
        secrets.insert(name, binding);
        assert(binding_models(secrets@) =~= binding_models(before).insert(key, said));
        index += 1;
    }
    assert(all.take(index as int) =~= all);
    proof {
        use_type_invariant(&secrets);
    }
    let only = ProfileManifest { secrets };
    let mut profiles: NameMap<ProfileManifest> = NameMap::new();
    profiles.insert(profile, only);
    proof {
        let wanted = seq![(owner, only)];
        assert(contents(wanted) =~= contents(profiles@)) by {
            assert(wanted[0].0 == owner);
        }
        law_order_is_determined(profiles@, wanted);
    }
    Ok(Manifest { version: MANIFEST_VERSION, profiles })
}

proof fn lemma_direct_bindings_valid(
    profile: Seq<char>,
    specs: Seq<Seq<char>>,
    name: Seq<char>,
    owner: Seq<char>,
)
    requires
        direct_bindings(profile, specs) is Ok,
        direct_bindings(profile, specs)->Ok_0.dom().contains(name),
    ensures
        name_check(name, "secret"@) is Ok,
        binding_check(direct_bindings(profile, specs)->Ok_0[name], owner, name) is Ok,
    decreases specs.len(),
{
    let last = cli_binding(specs.last())->Ok_0;
    if last.0 == name {
        law_direct_bindings_are_valid(specs.last(), owner);
    } else {
        lemma_direct_bindings_valid(profile, specs.drop_last(), name, owner);
    }
}

proof fn lemma_direct_bindings_count(profile: Seq<char>, specs: Seq<Seq<char>>)
    requires
        direct_bindings(profile, specs) is Ok,
    ensures
        direct_bindings(profile, specs)->Ok_0.dom().finite(),
        direct_bindings(profile, specs)->Ok_0.dom().len() == specs.len(),
    decreases specs.len(),
{
    if specs.len() > 0 {
        lemma_direct_bindings_count(profile, specs.drop_last());
    }
}

/// The manifest of at least one direct binding is valid: a run accepts it.
pub proof fn law_direct_manifests_are_valid(
    manifest: Manifest,
    profile: Seq<char>,
    specs: Seq<Seq<char>>,
)
    requires
        specs.len() > 0,
        direct_fault(profile, specs) is None,
        direct(manifest, profile, specs),
        manifest.profiles@[0].1.secrets.ordered(),
    ensures
        manifest_check(manifest) is Ok,
{
    let entries = manifest.profiles@[0].1.secrets@;
    let bindings = direct_bindings(profile, specs)->Ok_0;
    lemma_direct_bindings_count(profile, specs);
    if entries.len() == 0 {
        assert(binding_models(entries).dom() =~= Set::empty());
    }
    assert forall|j: int| 0 <= j < entries.len() implies name_check(
        (#[trigger] entries[j]).0,
        "secret"@,
    ) is Ok && binding_check(entries[j].1@, profile, entries[j].0) is Ok by {
        lemma_entry_in_contents(entries, j);
        assert(bindings.dom().contains(entries[j].0));
        assert(bindings[entries[j].0] == entries[j].1@);
        lemma_direct_bindings_valid(profile, specs, entries[j].0, profile);
    }
    law_accepted_manifests(manifest);
}

/// Where the manifest of a run comes from.
#[derive(Debug)]
pub enum ManifestSource {
    /// The file that was named.
    File,
    /// Direct bindings.
    Direct(Manifest),
}

/// The manifest of a run: a file alone, or a profile together with at least one direct binding.
pub fn manifest_source(file: bool, profile: Option<String>, bindings: &Vec<String>) -> (r: Result<
    ManifestSource,
    Error,
>)
    ensures
        if file {
            if profile is None && bindings@.len() == 0 {
                r matches Ok(ManifestSource::File)
            } else {
                r matches Err(error) && error@ == ErrorModel::ManifestCombined
            }
        } else if profile is None || bindings@.len() == 0 {
            r matches Err(error) && error@ == ErrorModel::BindingsMissing
        } else {
            match r {
                Ok(ManifestSource::File) => false,
                Ok(ManifestSource::Direct(manifest)) => {
                    &&& direct_fault(profile->Some_0@, texts(bindings@)) is None
                    &&& direct(manifest, profile->Some_0@, texts(bindings@))
                    &&& manifest_check(manifest) is Ok
                },
                Err(error) => direct_fault(profile->Some_0@, texts(bindings@)) == Some(error@),
            }
        },
{
    if file {
        if profile.is_none() && bindings.len() == 0 {
            Ok(ManifestSource::File)
        } else {
            Err(Fault::ManifestCombined)
        }
    } else {
        match profile {
            Some(profile) => {
                if bindings.len() == 0 {
                    return Err(Fault::BindingsMissing);
                }
                let ghost owner = profile@;
                match direct_manifest(profile, bindings) {
                    Ok(manifest) => {
                        proof {
                            law_direct_manifests_are_valid(manifest, owner, texts(bindings@));
                        }
                        Ok(ManifestSource::Direct(manifest))
                    },
                    Err(error) => Err(error),
                }
            },
            None => Err(Fault::BindingsMissing),
        }
    }
}

/// What is shown before the password of a run is asked for: the profiles that ask for it, and the
/// command.
pub open spec fn authorization_notice(profiles: Seq<Seq<char>>, command: Seq<Seq<char>>) -> Seq<
    char,
> {
    profiles_line("Zero-trust authorization required for"@, profiles) + "\nCommand: "@ + joined(
        command,
        " "@,
    ) + "\n"@
}

/// What a run is about: its manifest, its command and the place where that runs.
#[verifier::ext_equal]
pub struct RunModel {
    pub manifest: ManifestModel,
    pub command: Seq<Seq<char>>,
    pub cwd: Seq<char>,
}

/// A request to run a command: what it is about, and the password that comes with it.
pub struct RunRequestModel {
    pub run: RunModel,
    pub password: Option<Seq<char>>,
}

/// What a request to the broker says of a run.
pub open spec fn run_request(request: Request) -> Option<RunRequestModel> {
    match request {
        Request::Run { manifest, command, cwd, password } => Some(
            RunRequestModel {
                run: RunModel { manifest: manifest@, command: texts(command@), cwd: cwd@ },
                password: match password {
                    Some(password) => Some(password@),
                    None => None,
                },
            },
        ),
        _ => None,
    }
}

/// What is wrong with a run before anything is asked of the broker.
pub open spec fn run_fault(manifest: Manifest, command: Seq<Seq<char>>) -> Option<ErrorModel> {
    if command.len() == 0 {
        Some(Fault::CommandMissing)
    } else {
        match manifest_check(manifest) {
            Err(fault) => Some(fault),
            Ok(()) => None,
        }
    }
}

/// A run that was asked for without a password.
#[derive(Debug)]
pub struct PendingRun {
    manifest: Manifest,
    command: Vec<String>,
    cwd: String,
}

impl View for PendingRun {
    type V = RunModel;

    closed spec fn view(&self) -> RunModel {
        RunModel { manifest: self.manifest@, command: texts(self.command@), cwd: self.cwd@ }
    }
}

/// A run for which the broker wants the password.
#[derive(Debug)]
pub struct AskedRun {
    manifest: Manifest,
    command: Vec<String>,
    cwd: String,
}

impl View for AskedRun {
    type V = RunModel;

    closed spec fn view(&self) -> RunModel {
        RunModel { manifest: self.manifest@, command: texts(self.command@), cwd: self.cwd@ }
    }
}

/// Begins a run: the first request brings no password.
pub fn begin_run(manifest: Manifest, command: Vec<String>, cwd: String) -> (r: Result<
    (PendingRun, Request),
    Error,
>)
    ensures
        match r {
            Ok((pending, request)) => {
                let about = RunModel {
                    manifest: manifest@,
                    command: texts(command@),
                    cwd: cwd@,
                };
                &&& run_fault(manifest, texts(command@)) is None
                &&& pending@ == about
                &&& run_request(request) == Some(RunRequestModel { run: about, password: None })
            },
            Err(error) => run_fault(manifest, texts(command@)) == Some(error@),
        },
{
    let copy = manifest.clone();
    proof {
        law_manifests_are_judged_by_what_they_say(manifest, copy);
    }
    let words = copy_texts(&command);
    assert(texts(words@).len() == texts(command@).len());
    match run(copy, words, cwd.clone(), None) {
        Err(error) => Err(error),
        Ok(request) => Ok((PendingRun { manifest, command, cwd }, request)),
    }
}

/// What came of the first request of a run.
#[derive(Debug)]
pub enum FirstAnswer {
    /// The command ran.
    Finished(RunResult),
    /// Show the notice and ask for the password.
    Ask { notice: String, run: AskedRun },
}

/// What came of the first request of a run.
pub enum FirstAnswerModel {
    Finished(ResultModel),
    Ask { notice: Seq<char>, run: RunModel },
}

impl View for FirstAnswer {
    type V = FirstAnswerModel;

    open spec fn view(&self) -> FirstAnswerModel {
        match *self {
            FirstAnswer::Finished(result) => FirstAnswerModel::Finished(result@),
            FirstAnswer::Ask { notice, run } => FirstAnswerModel::Ask { notice: notice@, run: run@ },
        }
    }
}

/// How a run goes on after its first request: it is over, or the password is asked for.
pub open spec fn first_answer(run: RunModel, outcome: OutcomeModel) -> FirstAnswerModel {
    match outcome {
        OutcomeModel::Completed(result) => FirstAnswerModel::Finished(result),
        OutcomeModel::PasswordRequired { profiles } => FirstAnswerModel::Ask {
            notice: authorization_notice(profiles, run.command),
            run,
        },
    }
}

impl PendingRun {
    /// Goes on after the first request was answered.
    pub fn answer(self, outcome: RunOutcome) -> (r: FirstAnswer)
        ensures
            r@ == first_answer(self@, outcome@),
    {
        match outcome {
            RunOutcome::Completed(result) => FirstAnswer::Finished(result),
            RunOutcome::PasswordRequired { profiles } => {
                let mut notice = about_profiles(
                    "Zero-trust authorization required for",
                    &profiles,
                );
                notice.append("\nCommand: ");
                notice.append(join(&self.command, " ").as_str());
                notice.append("\n");
                FirstAnswer::Ask {
                    notice,
                    run: AskedRun {
                        manifest: self.manifest,
                        command: self.command,
                        cwd: self.cwd,
                    },
                }
            },
        }
    }
}

impl AskedRun {
    /// The second and last request of a run: the same run, with the password.
    pub fn authorize(self, password: String) -> (r: Request)
        ensures
            run_request(r) == Some(RunRequestModel { run: self@, password: Some(password@) }),
    {
        Request::Run {
            manifest: self.manifest,
            command: self.command,
            cwd: self.cwd,
            password: Some(password),
        }
    }
}

/// How a run ends after its second request.
pub open spec fn second_answer(outcome: OutcomeModel) -> Result<ResultModel, ErrorModel> {
    match outcome {
        OutcomeModel::Completed(result) => Ok(result),
        OutcomeModel::PasswordRequired { .. } => Err(Fault::RunNotAuthorized),
    }
}

/// Ends a run after its second request was answered; it is not asked for the password again.
pub fn finish_authorized(outcome: RunOutcome) -> (r: Result<RunResult, Error>)
    ensures
        match r {
            Ok(result) => second_answer(outcome@) == success(result@),
            Err(error) => second_answer(outcome@) matches Err(fault) && fault == error@,
        },
{
    match outcome {
        RunOutcome::Completed(result) => Ok(result),
        RunOutcome::PasswordRequired { .. } => Err(Fault::RunNotAuthorized),
    }
}

/// Everything that a run asks, shows and ends with.
pub struct RunHistory {
    /// What was asked of the broker, in order.
    pub requests: Seq<RunRequestModel>,
    /// What was shown before the password was asked for, if it was.
    pub notice: Option<Seq<char>>,
    /// What the run ended with.
    pub result: Result<ResultModel, ErrorModel>,
}

/// The history of a run, given what the broker answers to its first request, the password that is
/// typed if it is asked for, and what the broker answers to the second request if there is one.
pub open spec fn run_history(
    run: RunModel,
    first: OutcomeModel,
    password: Seq<char>,
    second: OutcomeModel,
) -> RunHistory {
    let opening = RunRequestModel { run, password: None };
    match first_answer(run, first) {
        FirstAnswerModel::Finished(result) => RunHistory {
            requests: seq![opening],
            notice: None,
            result: Ok(result),
        },
        FirstAnswerModel::Ask { notice, run: asked } => RunHistory {
            requests: seq![opening, RunRequestModel { run: asked, password: Some(password) }],
            notice: Some(notice),
            result: second_answer(second),
        },
    }
}

/// A run is asked for without a password first. The password is asked for exactly if the broker
/// wants it, after the profiles that want it and the command were shown; then the same run, with
/// the same manifest and the same command, is asked for once more, with the password. A third
/// request never comes: where the broker wants the password again, the run fails.
pub proof fn law_runs_are_asked_for_at_most_twice(
    run: RunModel,
    first: OutcomeModel,
    password: Seq<char>,
    second: OutcomeModel,
)
    ensures
        ({
            let history = run_history(run, first, password, second);
            &&& history.requests[0] == (RunRequestModel { run, password: None })
            &&& match first {
                OutcomeModel::Completed(result) => {
                    &&& history.requests.len() == 1
                    &&& history.notice is None
                    &&& history.result == success(result)
                },
                OutcomeModel::PasswordRequired { profiles } => {
                    &&& history.requests.len() == 2
                    &&& history.notice == Some(authorization_notice(profiles, run.command))
                    &&& history.requests[1] == (RunRequestModel {
                        run,
                        password: Some(password),
                    })
                    &&& match second {
                        OutcomeModel::Completed(result) => history.result == success(result),
                        OutcomeModel::PasswordRequired { .. } => history.result matches Err(fault)
                            && fault == ErrorModel::RunNotAuthorized,
                    }
                },
            }
        }),
{
}

/// The exit code of a comparison that could not be made.
pub const VERIFICATION_ERROR_CODE: i32 = 2;

/// The word for what came of a comparison.
pub open spec fn status_word(status: VerificationStatus) -> Seq<char> {
    match status {
        VerificationStatus::Match => "match"@,
        VerificationStatus::Mismatch => "mismatch"@,
        VerificationStatus::Stale => "stale"@,
        VerificationStatus::Missing => "missing"@,
    }
}

/// The exit code for what came of a comparison.
pub open spec fn status_code(status: VerificationStatus) -> i32 {
    match status {
        VerificationStatus::Match => 0,
        VerificationStatus::Mismatch => 1,
        VerificationStatus::Stale => 3,
        VerificationStatus::Missing => 4,
    }
}

/// The word and the exit code for what came of a comparison.
pub fn verification_report(status: VerificationStatus) -> (r: (&'static str, i32))
    ensures
        r.0@ == status_word(status),
        r.1 == status_code(status),
{
    match status {
        VerificationStatus::Match => ("match", 0),
        VerificationStatus::Mismatch => ("mismatch", 1),
        VerificationStatus::Stale => ("stale", 3),
        VerificationStatus::Missing => ("missing", 4),
    }
}

/// The exit code tells what came of a comparison: no two results share one, and none of them is the
/// code of a comparison that could not be made.
pub proof fn law_exit_codes_tell_results_apart(left: VerificationStatus, right: VerificationStatus)
    ensures
        status_code(left) == status_code(right) <==> left == right,
        status_code(left) != VERIFICATION_ERROR_CODE,
{
}

/// What is shown before the fingerprint key is rotated.
pub open spec fn rotation_warning_text() -> Seq<char> {
    "Rotating the fingerprint key permanently invalidates all existing fingerprints.\nType 'rotate' to continue: "@
}

/// What is shown before the fingerprint key is rotated.
pub fn rotation_warning() -> (r: &'static str)
    ensures
        r@ == rotation_warning_text(),
        r@
            == "Rotating the fingerprint key permanently invalidates all existing fingerprints.\nType 'rotate' to continue: "@,
{
    "Rotating the fingerprint key permanently invalidates all existing fingerprints.\nType 'rotate' to continue: "
}

/// Whether a typed line, with or without its line ending, is the word that confirms a rotation.
pub open spec fn confirms_rotation(line: Seq<char>) -> bool {
    line == "rotate"@ || line == "rotate\n"@ || line == "rotate\r\n"@
}

/// Checks that a rotation was confirmed by typing the word for it.
pub fn check_rotation(line: &str) -> (r: Result<(), Error>)
    ensures
        outcome(r) == if confirms_rotation(line@) {
            Ok(())
        } else {
            Err(ErrorModel::RotationCancelled)
        },
{
    if same_text(line, "rotate") || same_text(line, "rotate\n") || same_text(line, "rotate\r\n") {
        Ok(())
    } else {
        Err(Fault::RotationCancelled)
    }
}

/// Checks before any other command that there is a vault.
pub fn check_vault_exists(present: bool) -> (r: Result<(), Error>)
    ensures
        outcome(r) == if present {
            Ok(())
        } else {
            Err(ErrorModel::VaultNotInitialized)
        },
{
    if present {
        Ok(())
    } else {
        Err(Fault::VaultNotInitialized)
    }
}

/// Checks before a vault is made that there is none.
pub fn check_no_vault(present: bool, path: &str) -> (r: Result<(), Error>)
    ensures
        outcome(r) == if present {
            Err(Fault::VaultExists { path: path@ })
        } else {
            Ok(())
        },
{
    if present {
        Err(Fault::VaultExists { path: path.to_owned() })
    } else {
        Ok(())
    }
}

/// Checks before an import that there is a bundle.
pub fn check_bundle_exists(present: bool, path: &str) -> (r: Result<(), Error>)
    ensures
        outcome(r) == if present {
            Ok(())
        } else {
            Err(Fault::BundleAbsent { path: path@ })
        },
{
    if present {
        Ok(())
    } else {
        Err(Fault::BundleAbsent { path: path.to_owned() })
    }
}

/// Checks that the broker was started as its clients start it.
pub fn check_foreground(foreground: bool) -> (r: Result<(), Error>)
    ensures
        outcome(r) == if foreground {
            Ok(())
        } else {
            Err(ErrorModel::BrokerInternal)
        },
{
    if foreground {
        Ok(())
    } else {
        Err(Fault::BrokerInternal)
    }
}

/// The vault is opened before anything is changed in it or shown of it.
pub open spec fn opens_first(steps: Seq<StepModel>) -> bool {
    forall|i: int|
        0 <= i < steps.len() ==> match #[trigger] steps[i] {
            CommandStep::OpenVault => true,
            CommandStep::ReadValue { .. } => true,
            CommandStep::VerifyFingerprint { .. } => true,
            CommandStep::ImportProfile { .. } => true,
            _ => exists|j: int| 0 <= j < i && #[trigger] steps[j] == StepModel::OpenVault,
        }
}

proof fn lemma_opens_at_once(steps: Seq<StepModel>)
    requires
        steps.len() > 0,
        steps[0] == StepModel::OpenVault,
    ensures
        opens_first(steps),
{
}

/// Every command on profiles opens the vault before it changes or shows anything. (An import opens
/// the bundle and then the vault itself.)
pub proof fn law_profile_commands_open_the_vault_first(command: ProfileCommand)
    ensures
        profile_steps(command) matches Ok(steps) ==> opens_first(steps),
{
    if let Ok(steps) = profile_steps(command) {
        if command is Import {
            assert(steps.len() == 1 && steps[0] is ImportProfile);
        } else {
            lemma_opens_at_once(steps);
        }
    }
}

/// Every command on secrets opens the vault before it changes or shows anything. (A comparison with
/// a fingerprint needs no vault.)
pub proof fn law_secret_commands_open_the_vault_first(command: SecretCommand)
    ensures
        secret_steps(command) matches Ok(steps) ==> opens_first(steps),
{
    if let Ok(steps) = secret_steps(command) {
        match command {
            SecretCommand::Verify { .. } => {
                assert(steps.len() == 1 && steps[0] is VerifyFingerprint);
            },
            SecretCommand::Store { .. } | SecretCommand::Fingerprint { .. } => {
                assert(steps[0] is ReadValue);
                assert(steps[1] == StepModel::OpenVault);
            },
            _ => {
                lemma_opens_at_once(steps);
            },
        }
    }
}

/// What a step of a command says is what it holds, for every kind of step.
pub proof fn law_command_steps_say_what_they_hold(
    name: String,
    other: String,
    third: String,
    ttl_seconds: i64,
    source: ValueSource,
    format: RenderFormat,
    destination: Destination,
    steps: Seq<CommandStep<String>>,
)
    ensures
        CommandStep::<String>::OpenVault@ == StepModel::OpenVault,
        (CommandStep::ReadValue { source, label: name })@ == (StepModel::ReadValue {
            source,
            label: name@,
        }),
        (CommandStep::CreateProfile { name, ttl_seconds })@ == (StepModel::CreateProfile {
            name: name@,
            ttl_seconds,
        }),
        (CommandStep::DeleteProfile { name })@ == (StepModel::DeleteProfile { name: name@ }),
        CommandStep::<String>::ShowProfiles@ == StepModel::ShowProfiles,
        (CommandStep::StoreSecret { profile: other, name })@ == (StepModel::StoreSecret {
            profile: other@,
            name: name@,
        }),
        (CommandStep::ShowSecrets { profile: other })@ == (StepModel::ShowSecrets {
            profile: other@,
        }),
        (CommandStep::DeleteSecret { profile: other, name })@ == (StepModel::DeleteSecret {
            profile: other@,
            name: name@,
        }),
        (CommandStep::PrintSecret { profile: other, name })@ == (StepModel::PrintSecret {
            profile: other@,
            name: name@,
        }),
        (CommandStep::RenderProfile { name, format, destination })@
            == (StepModel::RenderProfile { name: name@, format, destination }),
        (CommandStep::ExportProfile { name })@ == (StepModel::ExportProfile { name: name@ }),
        (CommandStep::ImportProfile { as_name: Some(name) })@ == (StepModel::ImportProfile {
            as_name: Some(name@),
        }),
        (CommandStep::ImportProfile::<String> { as_name: None })@ == (StepModel::ImportProfile {
            as_name: None,
        }),
        (CommandStep::PrintFingerprint { profile: other, name })@
            == (StepModel::PrintFingerprint { profile: other@, name: name@ }),
        (CommandStep::VerifyFingerprint { profile: other, name, fingerprint: third })@
            == (StepModel::VerifyFingerprint {
            profile: other@,
            name: name@,
            fingerprint: third@,
        }),
        (CommandStep::Say { text: name })@ == (StepModel::Say { text: name@ }),
        step_models(steps).len() == steps.len(),
        forall|i: int| 0 <= i < steps.len() ==> #[trigger] step_models(steps)[i] == steps[i]@,
{
}

/// A profile is made exactly if its name is sound and its lifetime is positive. Then the vault is
/// opened, one profile is made in it, with the name and the lifetime of the command, and that is
/// said.
pub proof fn law_create_makes_the_profile_that_was_asked_for(name: String, ttl_seconds: i64)
    ensures
        ({
            let answer = profile_steps(ProfileCommand::Create { name, ttl_seconds });
            let named = name_check(name@, "profile"@);
            &&& answer is Ok <==> named is Ok && ttl_seconds > 0
            &&& named matches Err(fault) ==> answer == Err::<Seq<StepModel>, ErrorModel>(fault)
            &&& named is Ok && ttl_seconds <= 0 ==> answer == Err::<Seq<StepModel>, ErrorModel>(Fault::ProfileLifetime)
            &&& answer matches Ok(steps) ==> {
                &&& steps.len() == 3
                &&& steps[0] is OpenVault
                &&& steps[1] == (StepModel::CreateProfile { name: name@, ttl_seconds })
                &&& steps[2] == (StepModel::Say { text: "Created profile '"@ + name@ + "'."@ })
                &&& forall|i: int|
                    0 <= i < steps.len() && #[trigger] steps[i] is CreateProfile ==> i == 1
            }
        }),
{
}

/// The profiles are listed from the vault, and nothing is changed.
pub proof fn law_list_shows_the_profiles()
    ensures
        profile_steps(ProfileCommand::List) matches Ok(steps) && steps.len() == 2
            && steps[0] is OpenVault && steps[1] is ShowProfiles,
{
}

/// A profile is deleted exactly if its name is sound: the vault is opened, the profile of that name
/// is deleted and no other, and that is said.
pub proof fn law_delete_deletes_the_profile_that_was_named(name: String)
    ensures
        ({
            let answer = profile_steps(ProfileCommand::Delete { name });
            let named = name_check(name@, "profile"@);
            &&& answer is Ok <==> named is Ok
            &&& named matches Err(fault) ==> answer == Err::<Seq<StepModel>, ErrorModel>(fault)
            &&& answer matches Ok(steps) ==> {
                &&& steps.len() == 3
                &&& steps[0] is OpenVault
                &&& steps[1] == (StepModel::DeleteProfile { name: name@ })
                &&& steps[2] == (StepModel::Say { text: "Deleted profile '"@ + name@ + "'."@ })
            }
        }),
{
}

/// A profile is rendered exactly if its name is sound and somewhere to write to was chosen; it is
/// rendered in the format of the command, to a file if one was named and else to standard output.
pub proof fn law_render_renders_as_was_asked(
    name: String,
    format: RenderFormat,
    to_file: bool,
    to_stdout: bool,
)
    ensures
        ({
            let answer = profile_steps(ProfileCommand::Render { name, format, to_file, to_stdout });
            let named = name_check(name@, "profile"@);
            &&& answer is Ok <==> named is Ok && (to_file || to_stdout)
            &&& named matches Err(fault) ==> answer == Err::<Seq<StepModel>, ErrorModel>(fault)
            &&& named is Ok && !to_file && !to_stdout ==> answer == Err::<Seq<StepModel>, ErrorModel>(Fault::OutputMissing)
            &&& answer matches Ok(steps) ==> {
                &&& steps.len() == 2
                &&& steps[0] is OpenVault
                &&& to_file ==> steps[1] == (StepModel::RenderProfile {
                    name: name@,
                    format,
                    destination: Destination::File,
                })
                &&& !to_file ==> steps[1] == (StepModel::RenderProfile {
                    name: name@,
                    format,
                    destination: Destination::Stdout,
                })
            }
        }),
{
}

/// A profile is exported exactly if its name is sound, and then the one of that name; an import
/// takes the bundle in under the name that was given, if one was.
pub proof fn law_export_and_import_bear_their_names(name: String)
    ensures
        ({
            let answer = profile_steps(ProfileCommand::Export { name });
            let named = name_check(name@, "profile"@);
            let renamed = profile_steps(ProfileCommand::Import { as_name: Some(name) });
            let kept = profile_steps(ProfileCommand::Import { as_name: None });
            &&& answer is Ok <==> named is Ok
            &&& named matches Err(fault) ==> answer == Err::<Seq<StepModel>, ErrorModel>(fault)
            &&& answer matches Ok(steps) ==> {
                &&& steps.len() == 2
                &&& steps[0] is OpenVault
                &&& steps[1] == (StepModel::ExportProfile { name: name@ })
            }
            &&& renamed matches Ok(steps) && steps.len() == 1 && steps[0] == (
            StepModel::ImportProfile { as_name: Some(name@) })
            &&& kept matches Ok(steps) && steps.len() == 1 && steps[0] == (
            StepModel::ImportProfile { as_name: None })
        }),
{
}

/// What the arguments of a command on one secret are refused for: the name of the profile, and then
/// that of the secret.
pub proof fn law_names_are_checked_in_turn(profile: Seq<char>, name: Seq<char>)
    ensures
        ({
            let owner = name_check(profile, "profile"@);
            let own = name_check(name, "secret"@);
            &&& names_check(profile, name) is Ok <==> owner is Ok && own is Ok
            &&& owner is Err ==> names_check(profile, name) == owner
            &&& owner is Ok ==> names_check(profile, name) == own
        }),
{
}

/// A secret is stored, and a fingerprint is made, exactly if the names are sound and a source of
/// the value was chosen: a prompt, which names the secret, or a file. Then the value is read, the
/// vault is opened, and the secret of those names in that profile is stored, which is said, or the
/// fingerprint for those names is printed.
pub proof fn law_values_are_read_for_the_secret_that_was_named(
    profile: String,
    name: String,
    prompt: bool,
    from_file: bool,
)
    requires
        !(prompt && from_file),
    ensures
        ({
            let store = secret_steps(SecretCommand::Store { profile, name, prompt, from_file });
            let print = secret_steps(
                SecretCommand::Fingerprint { profile, name, prompt, from_file },
            );
            let owner = name_check(profile@, "profile"@);
            let own = name_check(name@, "secret"@);
            let source = if prompt {
                ValueSource::Prompt
            } else {
                ValueSource::File
            };
            let full = profile@ + "/"@ + name@;
            &&& store is Ok <==> owner is Ok && own is Ok && (prompt || from_file)
            &&& print is Ok <==> owner is Ok && own is Ok && (prompt || from_file)
            &&& owner matches Err(fault) ==> store == Err::<Seq<StepModel>, ErrorModel>(fault) && print
                == Err::<Seq<StepModel>, ErrorModel>(fault)
            &&& owner is Ok && own is Err ==> store == Err::<Seq<StepModel>, ErrorModel>(own->Err_0)
                && print == Err::<Seq<StepModel>, ErrorModel>(own->Err_0)
            &&& owner is Ok && own is Ok && !prompt && !from_file ==> store
                == Err::<Seq<StepModel>, ErrorModel>(Fault::ValueSourceMissing) && print
                == Err::<Seq<StepModel>, ErrorModel>(Fault::ValueSourceMissing)
            &&& store matches Ok(steps) ==> {
                &&& steps.len() == 4
                &&& steps[0] == (StepModel::ReadValue { source, label: "Value for "@ + full })
                &&& steps[1] is OpenVault
                &&& steps[2] == (StepModel::StoreSecret { profile: profile@, name: name@ })
                &&& steps[3] == (StepModel::Say { text: "Stored secret '"@ + full + "'."@ })
            }
            &&& print matches Ok(steps) ==> {
                &&& steps.len() == 3
                &&& steps[0] == (StepModel::ReadValue {
                    source,
                    label: "Expected value for "@ + full,
                })
                &&& steps[1] is OpenVault
                &&& steps[2] == (StepModel::PrintFingerprint { profile: profile@, name: name@ })
            }
        }),
{
}

/// The commands that list, delete, print and compare bear the names that they were given, and the
/// fingerprint; they are refused exactly if a name is not sound. Only the deletion changes
/// anything, and it is said.
pub proof fn law_secret_commands_bear_their_names(
    profile: String,
    name: String,
    fingerprint: String,
)
    ensures
        ({
            let list = secret_steps(SecretCommand::List { profile });
            let delete = secret_steps(SecretCommand::Delete { profile, name });
            let print = secret_steps(SecretCommand::Print { profile, name });
            let compare = secret_steps(SecretCommand::Verify { profile, name, fingerprint });
            let owner = name_check(profile@, "profile"@);
            let sound = owner is Ok && name_check(name@, "secret"@) is Ok;
            let fault = if owner is Err {
                owner->Err_0
            } else {
                name_check(name@, "secret"@)->Err_0
            };
            &&& list is Ok <==> owner is Ok
            &&& owner is Err ==> list == Err::<Seq<StepModel>, ErrorModel>(owner->Err_0)
            &&& delete is Ok <==> sound
            &&& print is Ok <==> sound
            &&& compare is Ok <==> sound
            &&& !sound ==> delete == Err::<Seq<StepModel>, ErrorModel>(fault)
            &&& !sound ==> print == Err::<Seq<StepModel>, ErrorModel>(fault)
            &&& !sound ==> compare == Err::<Seq<StepModel>, ErrorModel>(fault)
            &&& list matches Ok(steps) ==> steps.len() == 2 && steps[0] is OpenVault && steps[1]
                == (StepModel::ShowSecrets { profile: profile@ })
            &&& delete matches Ok(steps) ==> {
                &&& steps.len() == 3
                &&& steps[0] is OpenVault
                &&& steps[1] == (StepModel::DeleteSecret { profile: profile@, name: name@ })
                &&& steps[2] == (StepModel::Say {
                    text: "Deleted secret '"@ + (profile@ + "/"@ + name@) + "'."@,
                })
            }
            &&& print matches Ok(steps) ==> steps.len() == 2 && steps[0] is OpenVault && steps[1]
                == (StepModel::PrintSecret { profile: profile@, name: name@ })
            &&& compare matches Ok(steps) ==> steps.len() == 1 && steps[0] == (
            StepModel::VerifyFingerprint {
                profile: profile@,
                name: name@,
                fingerprint: fingerprint@,
            })
        }),
{
}

/// A new profile is accepted exactly if its name is sound and its lifetime is positive.
pub proof fn law_new_profiles_need_a_lifetime(name: Seq<char>, ttl_seconds: i64)
    ensures
        new_profile_check(name, ttl_seconds) is Ok <==> name_check(name, "profile"@) is Ok
            && ttl_seconds > 0,
        name_check(name, "profile"@) is Err ==> new_profile_check(name, ttl_seconds) == name_check(
            name,
            "profile"@,
        ),
        name_check(name, "profile"@) is Ok && ttl_seconds <= 0 ==> new_profile_check(
            name,
            ttl_seconds,
        ) == Err::<(), ErrorModel>(Fault::ProfileLifetime),
{
}

/// A value comes from the source that was chosen, and a rendered text goes where that was chosen,
/// to the file where both were; where nothing was chosen, that is the error.
pub proof fn law_choices_are_kept(first: bool, second: bool)
    ensures
        first ==> chosen_source(first, second) == success(ValueSource::Prompt),
        !first && second ==> chosen_source(first, second) == success(ValueSource::File),
        !first && !second ==> chosen_source(first, second) == Err::<ValueSource, ErrorModel>(
            Fault::ValueSourceMissing,
        ),
        first ==> chosen_destination(first, second) == success(Destination::File),
        !first && second ==> chosen_destination(first, second) == success(Destination::Stdout),
        !first && !second ==> chosen_destination(first, second) == Err::<Destination, ErrorModel>(
            Fault::OutputMissing,
        ),
{
}

/// The table of profiles has a row for each of them, in order: its name, the number of its secrets
/// and its lifetime, parted by tabs.
pub proof fn law_profile_tables_have_a_row_for_each(
    left: Seq<ProfileSummary>,
    right: Seq<ProfileSummary>,
)
    ensures
        left.len() == 0 ==> profile_rows(left) == Seq::<char>::empty(),
        left.len() == 1 ==> profile_rows(left) == left[0].name@ + seq!['\t'] + signed_decimal(
            left[0].secret_count as int,
        ) + seq!['\t'] + signed_decimal(left[0].ttl_seconds as int) + seq!['\n'],
        profile_rows(left + right) == profile_rows(left) + profile_rows(right),
    decreases right.len(),
{
    reveal_strlit("\t");
    reveal_strlit("\n");
    assert("\t"@ =~= seq!['\t']);
    assert("\n"@ =~= seq!['\n']);
    if left.len() == 1 {
        assert(profile_rows(left.drop_last()) =~= Seq::<char>::empty());
        assert(profile_rows(left) =~= profile_row(left[0]));
    }
    if right.len() == 0 {
        assert(left + right =~= left);
        assert(profile_rows(left) + profile_rows(right) =~= profile_rows(left));
    } else {
        assert((left + right).drop_last() =~= left + right.drop_last());
        law_profile_tables_have_a_row_for_each(left, right.drop_last());
        assert(profile_rows(left + right) =~= profile_rows(left) + profile_rows(right));
    }
}

/// The table of secrets has a row for each of them, in order: the name of the profile, its own name
/// and the number of its bytes, parted by tabs.
pub proof fn law_secret_tables_have_a_row_for_each(
    profile: Seq<char>,
    left: Seq<SecretSummary>,
    right: Seq<SecretSummary>,
)
    ensures
        left.len() == 0 ==> secret_rows(profile, left) == Seq::<char>::empty(),
        left.len() == 1 ==> secret_rows(profile, left) == profile + seq!['\t'] + left[0].name@
            + seq!['\t'] + decimal(left[0].byte_len as nat) + seq!['\n'],
        secret_rows(profile, left + right) == secret_rows(profile, left) + secret_rows(
            profile,
            right,
        ),
    decreases right.len(),
{
    reveal_strlit("\t");
    reveal_strlit("\n");
    assert("\t"@ =~= seq!['\t']);
    assert("\n"@ =~= seq!['\n']);
    if left.len() == 1 {
        assert(secret_rows(profile, left.drop_last()) =~= Seq::<char>::empty());
        assert(secret_rows(profile, left) =~= secret_row(profile, left[0]));
    }
    if right.len() == 0 {
        assert(left + right =~= left);
        assert(secret_rows(profile, left) + secret_rows(profile, right) =~= secret_rows(
            profile,
            left,
        ));
    } else {
        assert((left + right).drop_last() =~= left + right.drop_last());
        law_secret_tables_have_a_row_for_each(profile, left, right.drop_last());
        assert(secret_rows(profile, left + right) =~= secret_rows(profile, left) + secret_rows(
            profile,
            right,
        ));
    }
}

/// The table of unlocked profiles has a row for each of them, in order, as far as there are times:
/// its name, that it is unlocked, how, and the time that is left of it then.
pub proof fn law_status_tables_have_a_row_for_each(
    profiles: Seq<ProfileStatus>,
    times: Seq<i64>,
    now: i64,
)
    requires
        times.len() < profiles.len(),
    ensures
        ({
            let profile = profiles[times.len() as int];
            let manner = if profile.zero_trust {
                "zero-trust"@
            } else {
                "standard"@
            };
            &&& status_text(profiles, Seq::empty()) == "PROFILE\tSTATUS\tAUTH\tEXPIRES\n"@
            &&& status_text(profiles, times.push(now)) == status_text(profiles, times)
                + profile.name@ + "\tunlocked\t"@ + manner + seq!['\t'] + remaining_text(
                profile.expires_at,
                now,
            ) + seq!['\n']
            &&& status_text(Seq::empty(), times) == "No profiles are unlocked.\n"@
        }),
{
    reveal_strlit("\t");
    reveal_strlit("\n");
    assert("\t"@ =~= seq!['\t']);
    assert("\n"@ =~= seq!['\n']);
    let more = times.push(now);
    assert(more.drop_last() =~= times);
    assert(status_rows(profiles, Seq::empty()) =~= Seq::<char>::empty());
    assert(status_text(profiles, Seq::empty()) =~= "PROFILE\tSTATUS\tAUTH\tEXPIRES\n"@);
    let profile = profiles[times.len() as int];
    let manner = if profile.zero_trust {
        "zero-trust"@
    } else {
        "standard"@
    };
    assert(status_text(profiles, more) =~= status_text(profiles, times) + profile.name@
        + "\tunlocked\t"@ + manner + seq!['\t'] + remaining_text(profile.expires_at, now) + seq![
        '\n',
    ]);
}

/// The names of profiles are accepted exactly if each of them is sound; otherwise the first that is
/// not is the error.
pub proof fn law_profile_names_are_checked_one_by_one(names: Seq<Seq<char>>, index: int)
    ensures
        profile_names_check(names, 0) is Ok <==> forall|i: int|
            0 <= i < names.len() ==> name_check(#[trigger] names[i], "profile"@) is Ok,
        0 <= index < names.len() && name_check(names[index], "profile"@) is Err && (forall|i: int|
            0 <= i < index ==> name_check(#[trigger] names[i], "profile"@) is Ok)
            ==> profile_names_check(names, 0) == name_check(names[index], "profile"@),
{
    lemma_profile_names(names, 0);
    if 0 <= index < names.len() && forall|i: int|
        0 <= i < index ==> name_check(#[trigger] names[i], "profile"@) is Ok {
        lemma_profile_names_from(names, index);
    }
}

proof fn lemma_profile_names(names: Seq<Seq<char>>, from: int)
    requires
        0 <= from <= names.len(),
    ensures
        profile_names_check(names, from) is Ok <==> forall|i: int|
            from <= i < names.len() ==> name_check(#[trigger] names[i], "profile"@) is Ok,
    decreases names.len() - from,
{
    if from < names.len() {
        lemma_profile_names(names, from + 1);
        assert(name_check(names[from], "profile"@) is Ok || profile_names_check(
            names,
            from,
        ) is Err);
    }
}

proof fn lemma_profile_names_from(names: Seq<Seq<char>>, index: int)
    requires
        0 <= index < names.len(),
        forall|i: int| 0 <= i < index ==> name_check(#[trigger] names[i], "profile"@) is Ok,
    ensures
        profile_names_check(names, 0) == profile_names_check(names, index),
    decreases index,
{
    if index > 0 {
        lemma_profile_names_from(names, index - 1);
        assert(name_check(names[index - 1], "profile"@) is Ok);
    }
}

/// A line about profiles names all of them, in order and parted by commas, after a noun that fits
/// their number; the notice before a password names those that ask for it, and the whole command.
pub proof fn law_lines_name_every_profile(
    before: Seq<char>,
    names: Seq<Seq<char>>,
    command: Seq<Seq<char>>,
)
    ensures
        names.len() == 1 ==> profiles_line(before, names) == before + " profile: "@ + names[0]
            + seq!['.'],
        names.len() != 1 ==> profiles_line(before, names) == before + " profiles: "@ + joined(
            names,
            seq![',', ' '],
        ) + seq!['.'],
        authorization_notice(names, command) == profiles_line(
            "Zero-trust authorization required for"@,
            names,
        ) + "\nCommand: "@ + joined(command, seq![' ']) + seq!['\n'],
{
    reveal_strlit(" profile");
    reveal_strlit(" profile: ");
    reveal_strlit(" profiles: ");
    reveal_strlit("s");
    reveal_strlit("");
    reveal_strlit(": ");
    reveal_strlit(", ");
    reveal_strlit(".");
    reveal_strlit(" ");
    reveal_strlit("\n");
    assert(", "@ =~= seq![',', ' ']);
    assert(" "@ =~= seq![' ']);
    assert("\n"@ =~= seq!['\n']);
    assert("."@ =~= seq!['.']);
    assert(" profile"@ + ""@ + ": "@ =~= " profile: "@);
    assert(" profile"@ + "s"@ + ": "@ =~= " profiles: "@);
    if names.len() == 1 {
        assert(profiles_line(before, names) =~= before + " profile: "@ + names[0] + seq!['.']);
    } else {
        assert(profiles_line(before, names) =~= before + " profiles: "@ + joined(
            names,
            seq![',', ' '],
        ) + seq!['.']);
    }
}

/// The bindings of a row of direct bindings are those that each of them stands for, under the name
/// of its secret, and no others. There are such exactly if each of them is well formed and no two
/// of them are of one secret.
pub proof fn law_direct_bindings_are_taken_one_by_one(
    profile: Seq<char>,
    specs: Seq<Seq<char>>,
    index: int,
    name: Seq<char>,
)
    ensures
        direct_bindings(profile, specs) is Ok <==> {
            &&& forall|i: int| 0 <= i < specs.len() ==> cli_binding(#[trigger] specs[i]) is Ok
            &&& forall|i: int, j: int|
                0 <= i < j < specs.len() ==> cli_binding(#[trigger] specs[i])->Ok_0.0
                    != cli_binding(#[trigger] specs[j])->Ok_0.0
        },
        direct_bindings(profile, specs) matches Ok(bindings) ==> {
            &&& bindings.dom().contains(name) <==> exists|i: int|
                0 <= i < specs.len() && cli_binding(#[trigger] specs[i])->Ok_0.0 == name
            &&& 0 <= index < specs.len() ==> {
                let (secret, binding) = cli_binding(specs[index])->Ok_0;
                bindings.dom().contains(secret) && bindings[secret] == binding
            }
        },
    decreases specs.len(),
{
    if specs.len() > 0 {
        let less = specs.drop_last();
        let end = specs.len() - 1;
        let last = cli_binding(specs.last());
        law_direct_bindings_are_taken_one_by_one(profile, less, index, name);
        assert(specs[end] == specs.last());
        assert forall|i: int| 0 <= i < less.len() implies less[i] == specs[i] by {}
        if direct_bindings(profile, less) is Ok && last is Ok {
            law_direct_bindings_are_taken_one_by_one(profile, less, index, last->Ok_0.0);
        }
        if direct_bindings(profile, specs) is Ok {
            assert forall|i: int| 0 <= i < specs.len() implies cli_binding(
                #[trigger] specs[i],
            ) is Ok by {
                if i < end {
                    assert(cli_binding(less[i]) is Ok);
                }
            }
            assert forall|i: int, j: int| 0 <= i < j < specs.len() implies cli_binding(
                #[trigger] specs[i],
            )->Ok_0.0 != cli_binding(#[trigger] specs[j])->Ok_0.0 by {
                if j < end {
                    assert(cli_binding(less[i])->Ok_0.0 != cli_binding(less[j])->Ok_0.0);
                } else if cli_binding(specs[i])->Ok_0.0 == last->Ok_0.0 {
                    assert(cli_binding(less[i])->Ok_0.0 == last->Ok_0.0);
                }
            }
            if exists|i: int|
                0 <= i < specs.len() && cli_binding(#[trigger] specs[i])->Ok_0.0 == name {
                let i = choose|i: int|
                    0 <= i < specs.len() && cli_binding(#[trigger] specs[i])->Ok_0.0 == name;
                if i < end {
                    assert(cli_binding(less[i])->Ok_0.0 == name);
                }
            }
            if exists|i: int|
                0 <= i < less.len() && cli_binding(#[trigger] less[i])->Ok_0.0 == name {
                let i = choose|i: int|
                    0 <= i < less.len() && cli_binding(#[trigger] less[i])->Ok_0.0 == name;
                assert(cli_binding(specs[i])->Ok_0.0 == name);
            }
            if 0 <= index < end {
                assert(cli_binding(less[index])->Ok_0.0 == cli_binding(specs[index])->Ok_0.0);
                assert(cli_binding(specs[index])->Ok_0.0 != cli_binding(specs[end])->Ok_0.0);
            }
        } else if forall|i: int|
            0 <= i < specs.len() ==> cli_binding(#[trigger] specs[i]) is Ok {
            assert(cli_binding(specs[end]) is Ok);
            assert forall|i: int| 0 <= i < less.len() implies cli_binding(
                #[trigger] less[i],
            ) is Ok by {
                assert(cli_binding(specs[i]) is Ok);
            }
            if direct_bindings(profile, less) is Ok {
                let i = choose|i: int|
                    0 <= i < less.len() && cli_binding(#[trigger] less[i])->Ok_0.0
                        == last->Ok_0.0;
                assert(cli_binding(specs[i])->Ok_0.0 == cli_binding(specs[end])->Ok_0.0);
            } else {
                let (i, j) = choose|i: int, j: int|
                    0 <= i < j < less.len() && cli_binding(#[trigger] less[i])->Ok_0.0
                        == cli_binding(#[trigger] less[j])->Ok_0.0;
                assert(cli_binding(specs[i])->Ok_0.0 == cli_binding(specs[j])->Ok_0.0);
            }
        }
    }
}

/// What a row of direct bindings is refused for: where all before it are good, a malformed one for
/// itself, and a second one of a secret for that.
pub proof fn law_refused_rows_of_bindings(
    profile: Seq<char>,
    specs: Seq<Seq<char>>,
    spec: Seq<char>,
)
    requires
        direct_bindings(profile, specs) is Ok,
    ensures
        ({
            let bindings = direct_bindings(profile, specs)->Ok_0;
            let answer = direct_bindings(profile, specs.push(spec));
            &&& cli_binding(spec) matches Err(fault) ==> answer == Err::<
                Map<Seq<char>, BindingModel>,
                ErrorModel,
            >(fault)
            &&& cli_binding(spec) matches Ok((name, binding)) ==> {
                &&& bindings.dom().contains(name) ==> answer == Err::<
                    Map<Seq<char>, BindingModel>,
                    ErrorModel,
                >(Fault::SecretBoundTwice { profile, name })
                &&& !bindings.dom().contains(name) ==> answer == success(
                    bindings.insert(name, binding),
                )
            }
        }),
{
    assert(specs.push(spec).drop_last() =~= specs);
}

/// The manifest of direct bindings has version 1 and the one profile that was named, and binds in
/// it each of the secrets as the direct binding of it says, and nothing else.
pub proof fn law_direct_manifests_bind_what_was_written(
    manifest: Manifest,
    profile: Seq<char>,
    specs: Seq<Seq<char>>,
    index: int,
    j: int,
)
    requires
        direct(manifest, profile, specs),
        manifest.profiles@[0].1.secrets.ordered(),
    ensures
        manifest.version == 1,
        manifest.profiles@.len() == 1,
        manifest.profiles@[0].0 == profile,
        ({
            let secrets = manifest.profiles@[0].1.secrets@;
            &&& 0 <= index < specs.len() ==> exists|k: int|
                0 <= k < secrets.len() && cli_binding(specs[index]) == success(
                    ((#[trigger] secrets[k]).0, secrets[k].1@),
                )
            &&& 0 <= j < secrets.len() ==> exists|i: int|
                0 <= i < specs.len() && cli_binding(#[trigger] specs[i]) == success(
                    (secrets[j].0, secrets[j].1@),
                )
        }),
{
    let secrets = manifest.profiles@[0].1.secrets@;
    let bindings = direct_bindings(profile, specs)->Ok_0;
    assert(bindings == binding_models(secrets));
    if 0 <= index < specs.len() {
        law_direct_bindings_are_taken_one_by_one(profile, specs, index, Seq::empty());
        let (secret, binding) = cli_binding(specs[index])->Ok_0;
        assert(contents(secrets).dom().contains(secret));
        let k = choose|k: int| 0 <= k < secrets.len() && (#[trigger] secrets[k]).0 == secret;
        lemma_entry_in_contents(secrets, k);
        assert(cli_binding(specs[index]) is Ok);
        assert(cli_binding(specs[index]) == success((secrets[k].0, secrets[k].1@)));
    }
    if 0 <= j < secrets.len() {
        lemma_entry_in_contents(secrets, j);
        law_direct_bindings_are_taken_one_by_one(profile, specs, 0, secrets[j].0);
        assert(bindings.dom().contains(secrets[j].0));
        let i = choose|i: int|
            0 <= i < specs.len() && cli_binding(#[trigger] specs[i])->Ok_0.0 == secrets[j].0;
        law_direct_bindings_are_taken_one_by_one(profile, specs, i, secrets[j].0);
        assert(cli_binding(specs[i]) is Ok);
        assert(cli_binding(specs[i]) == success((secrets[j].0, secrets[j].1@)));
    }
}

/// What is wrong with a profile and its direct bindings: the name of the profile first, and then
/// the bindings.
pub proof fn law_direct_faults(profile: Seq<char>, specs: Seq<Seq<char>>)
    ensures
        ({
            let named = name_check(profile, "profile"@);
            let bindings = direct_bindings(profile, specs);
            &&& direct_fault(profile, specs) is None <==> named is Ok && bindings is Ok
            &&& named matches Err(fault) ==> direct_fault(profile, specs) == Some(fault)
            &&& named is Ok && bindings is Err ==> direct_fault(profile, specs) == Some(
                bindings->Err_0,
            )
        }),
{
}

/// A request to run a command says what it holds: its manifest, the words of the command, the place
/// and the password. A run is refused before it is asked for exactly if there is no command or the
/// manifest is not accepted.
pub proof fn law_run_requests_say_what_they_hold(
    manifest: Manifest,
    command: Vec<String>,
    cwd: String,
    password: Option<String>,
)
    ensures
        run_request(Request::Run { manifest, command, cwd, password }) matches Some(said) && {
            &&& said.run.manifest == manifest@
            &&& said.run.command.len() == command@.len()
            &&& forall|i: int|
                0 <= i < command@.len() ==> #[trigger] said.run.command[i] == command@[i]@
            &&& said.run.cwd == cwd@
            &&& password is None <==> said.password is None
            &&& password matches Some(given) ==> said.password == Some(given@)
        },
        ({
            let fault = run_fault(manifest, texts(command@));
            &&& fault is None <==> command@.len() > 0 && manifest_check(manifest) is Ok
            &&& command@.len() == 0 ==> fault == Some(ErrorModel::CommandMissing)
            &&& command@.len() > 0 && manifest_check(manifest) is Err ==> fault == Some(
                manifest_check(manifest)->Err_0,
            )
        }),
{
}

/// How a run goes on: a result ends it at once, at the first request and at the second; the first
/// time that the password is wanted it is asked for, and the second time the run fails.
pub proof fn law_answers_end_a_run_or_ask(
    run: RunModel,
    result: ResultModel,
    profiles: Seq<Seq<char>>,
)
    ensures
        first_answer(run, OutcomeModel::Completed(result)) == FirstAnswerModel::Finished(result),
        first_answer(run, OutcomeModel::PasswordRequired { profiles }) == (FirstAnswerModel::Ask {
            notice: authorization_notice(profiles, run.command),
            run,
        }),
        second_answer(OutcomeModel::Completed(result)) == success(result),
        second_answer(OutcomeModel::PasswordRequired { profiles }) == Err::<
            ResultModel,
            ErrorModel,
        >(Fault::RunNotAuthorized),
        forall|made: RunResult| #[trigger]
            FirstAnswer::Finished(made)@ == FirstAnswerModel::Finished(made@),
        forall|notice: String, asked: AskedRun| #[trigger]
            (FirstAnswer::Ask { notice, run: asked })@ == (FirstAnswerModel::Ask {
                notice: notice@,
                run: asked@,
            }),
{
}

/// The word and the exit code for what came of a comparison: 0 for a match and only for that, 1 for
/// a mismatch, 3 for a stale fingerprint and 4 for a secret that is missing; a comparison that
/// could not be made ends with 2.
pub proof fn law_comparisons_are_reported(status: VerificationStatus)
    ensures
        status_code(status) == 0 <==> status == VerificationStatus::Match,
        status_code(status) == 1 <==> status == VerificationStatus::Mismatch,
        status_code(status) == 3 <==> status == VerificationStatus::Stale,
        status_code(status) == 4 <==> status == VerificationStatus::Missing,
        VERIFICATION_ERROR_CODE == 2,
        status_word(status) == seq!['m', 'a', 't', 'c', 'h'] <==> status
            == VerificationStatus::Match,
        status_word(status) == seq!['m', 'i', 's', 'm', 'a', 't', 'c', 'h'] <==> status
            == VerificationStatus::Mismatch,
        status_word(status) == seq!['s', 't', 'a', 'l', 'e'] <==> status
            == VerificationStatus::Stale,
        status_word(status) == seq!['m', 'i', 's', 's', 'i', 'n', 'g'] <==> status
            == VerificationStatus::Missing,
{
    reveal_strlit("match");
    reveal_strlit("mismatch");
    reveal_strlit("stale");
    reveal_strlit("missing");
    assert("match"@ =~= seq!['m', 'a', 't', 'c', 'h']);
    assert("mismatch"@ =~= seq!['m', 'i', 's', 'm', 'a', 't', 'c', 'h']);
    assert("stale"@ =~= seq!['s', 't', 'a', 'l', 'e']);
    assert("missing"@ =~= seq!['m', 'i', 's', 's', 'i', 'n', 'g']);
    assert("match"@[0] != "stale"@[0]);
    assert("stale"@[0] != "match"@[0]);
    assert("stale"@.len() == 5 && "match"@.len() == 5 && "mismatch"@.len() == 8 && "missing"@.len()
        == 7);
}

/// A rotation is confirmed by the word `rotate` alone, with a line ending after it or without.
pub proof fn law_rotations_are_confirmed_by_the_word(line: Seq<char>)
    ensures
        ({
            let word = seq!['r', 'o', 't', 'a', 't', 'e'];
            confirms_rotation(line) <==> line == word || line == word + seq!['\n'] || line == word
                + seq!['\r', '\n']
        }),
{
    reveal_strlit("rotate");
    reveal_strlit("rotate\n");
    reveal_strlit("rotate\r\n");
    let word = seq!['r', 'o', 't', 'a', 't', 'e'];
    assert("rotate"@ =~= word);
    assert("rotate\n"@ =~= word + seq!['\n']);
    assert("rotate\r\n"@ =~= word + seq!['\r', '\n']);
}

} // verus!
