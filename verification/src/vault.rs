//! What the vault stores, and what its answers mean.

use vstd::prelude::*;

use crate::error::{outcome, success};
use crate::error::{Error, ErrorModel, Fault};
use crate::fingerprint::{key_sized, FingerprintKey, KeyModel, KEY_ID_LENGTH, KEY_LENGTH};
use crate::name_map::{
    contents, in_order, law_order_is_determined, lemma_contents_push, lemma_entry_in_contents,
    lemma_one_place, names,
};
use crate::names::{name_check, validate_name};
use crate::secret::SecretBytes;
use crate::text::same_text;

verus! {

broadcast use vstd::string::group_string_axioms;

/// A profile, without its secrets.
#[derive(Debug)]
pub struct ProfileSummary {
    pub name: String,
    pub ttl_seconds: i64,
    pub secret_count: i64,
}

/// A secret, without its value.
#[derive(Debug)]
pub struct SecretSummary {
    pub name: String,
    pub byte_len: usize,
}

/// A secret with its value.
#[derive(Debug)]
pub struct VaultSecret {
    pub name: String,
    pub value: SecretBytes,
}

/// Whether a password may protect a vault.
pub open spec fn password_check(password: Seq<char>) -> Result<(), ErrorModel> {
    if password.len() == 0 {
        Err(Fault::PasswordEmpty)
    } else {
        Ok(())
    }
}

/// Checks a password before a vault is made or opened with it.
pub fn check_password(password: &str) -> (r: Result<(), Error>)
    ensures
        outcome(r) == password_check(password@),
{
    if password.is_empty() {
        Err(Fault::PasswordEmpty)
    } else {
        Ok(())
    }
}

/// Checks that a new password was typed twice alike.
pub fn check_confirmation(password: &str, confirmation: &str) -> (r: Result<(), Error>)
    ensures
        outcome(r) == if password@ == confirmation@ {
            Ok(())
        } else {
            Err(ErrorModel::PasswordsDiffer)
        },
{
    if same_text(password, confirmation) {
        Ok(())
    } else {
        Err(Fault::PasswordsDiffer)
    }
}

/// The fingerprint key that the vault's metadata holds: the key and its id, if there are any.
pub fn fingerprint_key(stored: Option<(Vec<u8>, Vec<u8>)>) -> (r: Result<FingerprintKey, Error>)
    ensures
        match stored {
            None => r matches Err(error) && error@ == ErrorModel::KeyMissing,
            Some((key, key_id)) => {
                let model = KeyModel { key: key@, key_id: key_id@ };
                if key_sized(model) {
                    r matches Ok(made) && made@ == model
                } else {
                    r matches Err(error) && error@ == ErrorModel::KeyMetadata
                }
            },
        },
        stored matches Some((key, key_id)) ==> (r is Ok <==> key@.len() == 32 && key_id@.len()
            == 16),
        r matches Ok(made) ==> stored is Some && made@.key == stored->Some_0.0@ && made@.key_id
            == stored->Some_0.1@,
{
    match stored {
        None => Err(Fault::KeyMissing),
        Some((key, key_id)) => {
            if key.len() != KEY_LENGTH || key_id.len() != KEY_ID_LENGTH {
                return Err(Fault::KeyMetadata);
            }
            FingerprintKey::from_parts(key, key_id)
        },
    }
}

/// Whether a new fingerprint key was recorded: exactly one row of metadata took it.
pub fn rotation_recorded(rows: usize) -> (r: Result<(), Error>)
    ensures
        outcome(r) == if rows == 1 {
            Ok(())
        } else {
            Err(ErrorModel::KeyMissing)
        },
{
    if rows == 1 {
        Ok(())
    } else {
        Err(Fault::KeyMissing)
    }
}

/// Whether a profile was deleted: some row bore its name.
pub fn profile_deleted(name: &str, rows: usize) -> (r: Result<(), Error>)
    ensures
        outcome(r) == if rows == 0 {
            Err(Fault::ProfileMissing { name: name@ })
        } else {
            Ok(())
        },
{
    if rows == 0 {
        Err(Fault::ProfileMissing { name: name.to_owned() })
    } else {
        Ok(())
    }
}

/// Whether a secret was deleted: some row bore its name.
pub fn secret_deleted(profile: &str, name: &str, rows: usize) -> (r: Result<(), Error>)
    ensures
        outcome(r) == if rows == 0 {
            Err(Fault::SecretMissing { profile: profile@, name: name@ })
        } else {
            Ok(())
        },
{
    if rows == 0 {
        Err(Fault::SecretMissing { profile: profile.to_owned(), name: name.to_owned() })
    } else {
        Ok(())
    }
}

/// What the vault found under the name of a profile.
pub fn profile_found<T>(name: &str, found: Option<T>) -> (r: Result<T, Error>)
    ensures
        match found {
            Some(value) => r matches Ok(same) && same == value,
            None => r matches Err(error) && error@ == (Fault::ProfileMissing { name: name@ }),
        },
{
    match found {
        Some(value) => Ok(value),
        None => Err(Fault::ProfileMissing { name: name.to_owned() }),
    }
}

/// What the vault found under the names of a profile and a secret.
pub fn secret_found<T>(profile: &str, name: &str, found: Option<T>) -> (r: Result<T, Error>)
    ensures
        match found {
            Some(value) => r matches Ok(same) && same == value,
            None => r matches Err(error) && error@ == (Fault::SecretMissing {
                profile: profile@,
                name: name@,
            }),
        },
{
    match found {
        Some(value) => Ok(value),
        None => Err(Fault::SecretMissing { profile: profile.to_owned(), name: name.to_owned() }),
    }
}

/// A change to the profiles of a vault.
#[derive(Debug)]
pub enum VaultWrite {
    /// Makes a profile without secrets; there must be none of that name.
    CreateProfile { name: String, ttl_seconds: i64 },
    /// Stores a secret in a profile, or replaces its value.
    PutSecret { profile: String, name: String, value: SecretBytes },
}

/// What a change says.
pub enum WriteModel {
    CreateProfile { name: Seq<char>, ttl_seconds: i64 },
    PutSecret { profile: Seq<char>, name: Seq<char>, value: Seq<u8> },
}

impl View for VaultWrite {
    type V = WriteModel;

    open spec fn view(&self) -> WriteModel {
        match *self {
            VaultWrite::CreateProfile { name, ttl_seconds } => WriteModel::CreateProfile {
                name: name@,
                ttl_seconds,
            },
            VaultWrite::PutSecret { profile, name, value } => WriteModel::PutSecret {
                profile: profile@,
                name: name@,
                value: value@,
            },
        }
    }
}

/// A profile as a vault stores it.
#[verifier::ext_equal]
pub struct StoredProfile {
    pub ttl_seconds: i64,
    pub secrets: Map<Seq<char>, Seq<u8>>,
}

/// What a vault holds: its profiles by their names, and its fingerprint key.
#[verifier::ext_equal]
pub struct VaultModel {
    pub profiles: Map<Seq<char>, StoredProfile>,
    pub key: KeyModel,
}

/// A vault that was just made.
pub open spec fn new_vault(key: KeyModel) -> VaultModel {
    VaultModel { profiles: Map::empty(), key }
}

/// A vault with a profile added or put in its place.
pub open spec fn with_profile(
    vault: VaultModel,
    name: Seq<char>,
    profile: StoredProfile,
) -> VaultModel {
    VaultModel { profiles: vault.profiles.insert(name, profile), key: vault.key }
}

/// The vault after a change; a change that fails leaves nothing behind.
pub open spec fn written(vault: VaultModel, write: WriteModel) -> Option<VaultModel> {
    match write {
        WriteModel::CreateProfile { name, ttl_seconds } => if vault.profiles.dom().contains(name) {
            None
        } else {
            Some(with_profile(vault, name, StoredProfile { ttl_seconds, secrets: Map::empty() }))
        },
        WriteModel::PutSecret { profile, name, value } => if vault.profiles.dom().contains(
            profile,
        ) {
            let stored = vault.profiles[profile];
            Some(
                with_profile(
                    vault,
                    profile,
                    StoredProfile {
                        ttl_seconds: stored.ttl_seconds,
                        secrets: stored.secrets.insert(name, value),
                    },
                ),
            )
        } else {
            None
        },
    }
}

/// The vault after changes made one after the other.
pub open spec fn written_all(vault: VaultModel, writes: Seq<WriteModel>) -> Option<VaultModel>
    decreases writes.len(),
{
    if writes.len() == 0 {
        Some(vault)
    } else {
        match written_all(vault, writes.drop_last()) {
            Some(so_far) => written(so_far, writes.last()),
            None => None,
        }
    }
}

/// The profiles of a list, with their lifetimes.
pub open spec fn listed_profiles(listed: Seq<ProfileSummary>) -> Seq<(Seq<char>, i64)> {
    Seq::new(listed.len(), |i: int| (listed[i].name@, listed[i].ttl_seconds))
}

/// Whether a list tells of the profiles of a vault, in the order of their names.
pub open spec fn lists(vault: VaultModel, listed: Seq<ProfileSummary>) -> bool {
    &&& in_order(listed_profiles(listed))
    &&& contents(listed_profiles(listed)) == vault.profiles.map_values(
        |profile: StoredProfile| profile.ttl_seconds,
    )
}

/// The secrets of a list, with their values.
pub open spec fn listed_secrets(secrets: Seq<VaultSecret>) -> Seq<(Seq<char>, Seq<u8>)> {
    Seq::new(secrets.len(), |i: int| (secrets[i].name@, secrets[i].value@))
}

/// Whether this is what a vault holds under the name of a profile: its lifetime, and its secrets in
/// the order of their names.
pub open spec fn reads(
    vault: VaultModel,
    name: Seq<char>,
    ttl_seconds: i64,
    secrets: Seq<VaultSecret>,
) -> bool {
    &&& vault.profiles.dom().contains(name)
    &&& vault.profiles[name].ttl_seconds == ttl_seconds
    &&& in_order(listed_secrets(secrets))
    &&& contents(listed_secrets(secrets)) == vault.profiles[name].secrets
}

/// What a list of secrets says of each name; of two under one name the last counts.
pub open spec fn secret_map(secrets: Seq<VaultSecret>) -> Map<Seq<char>, Seq<u8>>
    decreases secrets.len(),
{
    if secrets.len() == 0 {
        Map::empty()
    } else {
        secret_map(secrets.drop_last()).insert(secrets.last().name@, secrets.last().value@)
    }
}

/// The changes that store a profile.
pub open spec fn profile_write_models(
    name: Seq<char>,
    ttl_seconds: i64,
    secrets: Seq<VaultSecret>,
) -> Seq<WriteModel> {
    seq![WriteModel::CreateProfile { name, ttl_seconds }] + Seq::new(
        secrets.len(),
        |i: int|
            WriteModel::PutSecret {
                profile: name,
                name: secrets[i].name@,
                value: secrets[i].value@,
            },
    )
}

/// What a row of changes says.
pub open spec fn write_models(writes: Seq<VaultWrite>) -> Seq<WriteModel> {
    Seq::new(writes.len(), |i: int| writes[i]@)
}

/// The changes that store a profile.
fn profile_writes(name: &str, ttl_seconds: i64, secrets: &Vec<VaultSecret>) -> (r: Vec<
    VaultWrite,
>)
    ensures
        write_models(r@) == profile_write_models(name@, ttl_seconds, secrets@),
{
    let mut writes: Vec<VaultWrite> = Vec::new();
    writes.push(VaultWrite::CreateProfile { name: name.to_owned(), ttl_seconds });
    let mut index: usize = 0;
    while index < secrets.len()
        invariant
            index <= secrets.len(),
            writes.len() == index + 1,
            writes@[0]@ == (WriteModel::CreateProfile { name: name@, ttl_seconds }),
            forall|i: int|
                0 < i <= index ==> (#[trigger] writes@[i])@ == (WriteModel::PutSecret {
                    profile: name@,
                    name: secrets@[i - 1].name@,
                    value: secrets@[i - 1].value@,
                }),
        decreases secrets.len() - index,
    {
        writes.push(
            VaultWrite::PutSecret {
                profile: name.to_owned(),
                name: secrets[index].name.clone(),
                value: secrets[index].value.duplicate(),
            },
        );
        index += 1;
    }
    assert(write_models(writes@) =~= profile_write_models(name@, ttl_seconds, secrets@));
    writes
}

/// The changes that export a profile to a new bundle.
pub fn export_profile(name: &str, ttl_seconds: i64, secrets: &Vec<VaultSecret>) -> (r: Vec<
    VaultWrite,
>)
    ensures
        write_models(r@) == profile_write_models(name@, ttl_seconds, secrets@),
{
    profile_writes(name, ttl_seconds, secrets)
}

/// An import: the profile of the bundle that it reads, and the name that it stores it under.
#[derive(Debug)]
pub struct Import {
    pub source: String,
    pub target: String,
}

/// Which profile of a bundle is imported, and under which name: a bundle holds one profile, which
/// keeps its name unless another is given.
pub open spec fn import_choice(listed: Seq<ProfileSummary>, as_name: Option<Seq<char>>) -> Result<
    (Seq<char>, Seq<char>),
    ErrorModel,
> {
    if listed.len() != 1 {
        Err(Fault::BundleShape)
    } else {
        let target = match as_name {
            Some(name) => name,
            None => listed[0].name@,
        };
        match name_check(target, "profile"@) {
            Err(fault) => Err(fault),
            Ok(()) => Ok((listed[0].name@, target)),
        }
    }
}

/// Begins an import from a bundle that holds these profiles.
pub fn import_profile(listed: &Vec<ProfileSummary>, as_name: Option<String>) -> (r: Result<
    Import,
    Error,
>)
    ensures
        ({
            let choice = import_choice(
                listed@,
                match as_name {
                    Some(name) => Some(name@),
                    None => None,
                },
            );
            match r {
                Ok(import) => choice == success((import.source@, import.target@)),
                Err(error) => choice matches Err(fault) && fault == error@,
            }
        }),
{
    if listed.len() != 1 {
        return Err(Fault::BundleShape);
    }
    let source = listed[0].name.clone();
    let target = match as_name {
        Some(name) => name,
        None => source.clone(),
    };
    match validate_name(target.as_str(), "profile") {
        Ok(()) => Ok(Import { source, target }),
        Err(error) => Err(error),
    }
}

impl Import {
    /// The changes that store what was read from the bundle.
    pub fn writes(&self, ttl_seconds: i64, secrets: &Vec<VaultSecret>) -> (r: Vec<VaultWrite>)
        ensures
            write_models(r@) == profile_write_models(self.target@, ttl_seconds, secrets@),
    {
        profile_writes(self.target.as_str(), ttl_seconds, secrets)
    }
}

proof fn lemma_profile_written(
    vault: VaultModel,
    name: Seq<char>,
    ttl_seconds: i64,
    secrets: Seq<VaultSecret>,
)
    requires
        !vault.profiles.dom().contains(name),
    ensures
        written_all(vault, profile_write_models(name, ttl_seconds, secrets)) == Some(
            with_profile(
                vault,
                name,
                StoredProfile { ttl_seconds, secrets: secret_map(secrets) },
            ),
        ),
    decreases secrets.len(),
{
    let writes = profile_write_models(name, ttl_seconds, secrets);
    if secrets.len() == 0 {
        assert(writes.drop_last() =~= Seq::<WriteModel>::empty());
        assert(written_all(vault, writes.drop_last()) == Some(vault));
        assert(writes.last() == (WriteModel::CreateProfile { name, ttl_seconds }));
    } else {
        let less = secrets.drop_last();
        assert(writes.drop_last() =~= profile_write_models(name, ttl_seconds, less));
        lemma_profile_written(vault, name, ttl_seconds, less);
        let before = with_profile(
            vault,
            name,
            StoredProfile { ttl_seconds, secrets: secret_map(less) },
        );
        let after = with_profile(
            vault,
            name,
            StoredProfile { ttl_seconds, secrets: secret_map(secrets) },
        );
        assert(written(before, writes.last())->Some_0 =~= after);
    }
}

/// A vault that a profile is imported into holds it afterwards with the lifetime and the secrets
/// that were read from the bundle, and its other profiles and its fingerprint key unchanged; where
/// the name is taken, the import fails.
pub proof fn law_import_stores_the_profile(
    vault: VaultModel,
    name: Seq<char>,
    ttl_seconds: i64,
    secrets: Seq<VaultSecret>,
)
    ensures
        written_all(vault, profile_write_models(name, ttl_seconds, secrets))
            == if vault.profiles.dom().contains(name) {
            None
        } else {
            Some(
                VaultModel {
                    profiles: vault.profiles.insert(
                        name,
                        StoredProfile { ttl_seconds, secrets: secret_map(secrets) },
                    ),
                    key: vault.key,
                },
            )
        },
{
    if vault.profiles.dom().contains(name) {
        lemma_taken_name_fails(vault, name, ttl_seconds, secrets);
    } else {
        lemma_profile_written(vault, name, ttl_seconds, secrets);
    }
}

proof fn lemma_taken_name_fails(
    vault: VaultModel,
    name: Seq<char>,
    ttl_seconds: i64,
    secrets: Seq<VaultSecret>,
)
    requires
        vault.profiles.dom().contains(name),
    ensures
        written_all(vault, profile_write_models(name, ttl_seconds, secrets)) is None,
    decreases secrets.len(),
{
    let writes = profile_write_models(name, ttl_seconds, secrets);
    if secrets.len() == 0 {
        assert(writes.drop_last() =~= Seq::<WriteModel>::empty());
        assert(written_all(vault, writes.drop_last()) == Some(vault));
        assert(writes.last() == (WriteModel::CreateProfile { name, ttl_seconds }));
    } else {
        assert(writes.drop_last() =~= profile_write_models(name, ttl_seconds, secrets.drop_last()));
        lemma_taken_name_fails(vault, name, ttl_seconds, secrets.drop_last());
    }
}

proof fn lemma_listed_secrets(secrets: Seq<VaultSecret>)
    requires
        in_order(listed_secrets(secrets)),
    ensures
        contents(listed_secrets(secrets)) == secret_map(secrets),
    decreases secrets.len(),
{
    let entries = listed_secrets(secrets);
    if secrets.len() == 0 {
        assert(contents(entries) =~= Map::empty());
    } else {
        let less = secrets.drop_last();
        let last = secrets.last();
        assert(entries =~= listed_secrets(less).push((last.name@, last.value@)));
        lemma_contents_push(listed_secrets(less), last.name@, last.value@);
        lemma_listed_secrets(less);
    }
}

proof fn lemma_one_listed(vault: VaultModel, listed: Seq<ProfileSummary>, name: Seq<char>)
    requires
        lists(vault, listed),
        vault.profiles.dom() == set![name],
    ensures
        listed.len() == 1,
        listed[0].name@ == name,
{
    let entries = listed_profiles(listed);
    let told = contents(entries);
    assert(told.dom() =~= set![name]);
    assert(told.dom().contains(name));
    assert(names(entries, name));
    assert forall|i: int| 0 <= i < entries.len() implies entries[i].0 == name by {
        lemma_entry_in_contents(entries, i);
    }
    if entries.len() > 1 {
        lemma_one_place(entries, 0, 1);
    }
}

/// Export, then import. A profile is read from one vault, exported to a new bundle and imported
/// from there into another vault that has no profile of the chosen name: its own name, or the one
/// given. The import finds the profile and succeeds; what is read back from the other vault has the
/// same lifetime and the same secrets, byte for byte; the other profiles and the fingerprint key of
/// that vault are unchanged, and the bundle has a key of its own.
pub proof fn law_export_then_import(
    source: VaultModel,
    name: Seq<char>,
    ttl_seconds: i64,
    secrets: Seq<VaultSecret>,
    bundle_key: KeyModel,
    listed: Seq<ProfileSummary>,
    bundle_ttl: i64,
    bundle_secrets: Seq<VaultSecret>,
    vault: VaultModel,
    as_name: Option<Seq<char>>,
    back_ttl: i64,
    back: Seq<VaultSecret>,
)
    requires
        reads(source, name, ttl_seconds, secrets),
        ({
            let bundle = written_all(
                new_vault(bundle_key),
                profile_write_models(name, ttl_seconds, secrets),
            )->Some_0;
            lists(bundle, listed) && reads(bundle, name, bundle_ttl, bundle_secrets)
        }),
        ({
            let target = match as_name {
                Some(given) => given,
                None => name,
            };
            name_check(target, "profile"@) is Ok && !vault.profiles.dom().contains(target)
        }),
    ensures
        ({
            let target = match as_name {
                Some(given) => given,
                None => name,
            };
            let bundle = written_all(
                new_vault(bundle_key),
                profile_write_models(name, ttl_seconds, secrets),
            );
            let imported = written_all(
                vault,
                profile_write_models(target, bundle_ttl, bundle_secrets),
            );
            &&& bundle is Some
            &&& bundle->Some_0.key == bundle_key
            &&& bundle->Some_0.profiles.dom() == set![name]
            &&& import_choice(listed, as_name) == success((name, target))
            &&& imported is Some
            &&& imported->Some_0.key == vault.key
            &&& imported->Some_0.profiles == vault.profiles.insert(
                target,
                source.profiles[name],
            )
            &&& reads(imported->Some_0, target, back_ttl, back) ==> {
                &&& back_ttl == ttl_seconds
                &&& listed_secrets(back) == listed_secrets(secrets)
            }
        }),
{
    let target = match as_name {
        Some(given) => given,
        None => name,
    };
    lemma_profile_written(new_vault(bundle_key), name, ttl_seconds, secrets);
    lemma_profile_written(vault, target, bundle_ttl, bundle_secrets);
    lemma_listed_secrets(secrets);
    lemma_listed_secrets(bundle_secrets);
    let bundle = written_all(
        new_vault(bundle_key),
        profile_write_models(name, ttl_seconds, secrets),
    )->Some_0;
    assert(bundle.profiles.dom() =~= set![name]);
    lemma_one_listed(bundle, listed, name);
    let imported = written_all(
        vault,
        profile_write_models(target, bundle_ttl, bundle_secrets),
    )->Some_0;
    assert(source.profiles[name] =~= imported.profiles[target]);
    if reads(imported, target, back_ttl, back) {
        law_order_is_determined(listed_secrets(back), listed_secrets(secrets));
    }
}

/// A password may protect a vault exactly if it is not empty.
pub proof fn law_passwords_are_not_empty(password: Seq<char>)
    ensures
        password.len() > 0 ==> password_check(password) is Ok,
        password.len() == 0 ==> password_check(password) == Err::<(), ErrorModel>(
            Fault::PasswordEmpty,
        ),
{
}

/// A list of secrets holds under each name the bytes of the secret that bears it, the last one
/// where several do, and nothing under any other name.
pub proof fn law_secrets_are_held_by_name(secrets: Seq<VaultSecret>, index: int, name: Seq<char>)
    ensures
        secret_map(secrets).dom().contains(name) <==> exists|i: int|
            0 <= i < secrets.len() && (#[trigger] secrets[i]).name@ == name,
        0 <= index < secrets.len() && (forall|i: int|
            index < i < secrets.len() ==> (#[trigger] secrets[i]).name@ != secrets[index].name@)
            ==> {
            &&& secret_map(secrets).dom().contains(secrets[index].name@)
            &&& secret_map(secrets)[secrets[index].name@] == secrets[index].value@
        },
    decreases secrets.len(),
{
    if secrets.len() > 0 {
        let less = secrets.drop_last();
        law_secrets_are_held_by_name(less, index, name);
        if exists|i: int| 0 <= i < secrets.len() && (#[trigger] secrets[i]).name@ == name {
            let i = choose|i: int| 0 <= i < secrets.len() && (#[trigger] secrets[i]).name@ == name;
            if i < less.len() {
                assert(less[i].name@ == name);
            }
        }
        if exists|i: int| 0 <= i < less.len() && (#[trigger] less[i]).name@ == name {
            let i = choose|i: int| 0 <= i < less.len() && (#[trigger] less[i]).name@ == name;
            assert(secrets[i].name@ == name);
        }
        assert(secrets[secrets.len() - 1] == secrets.last());
        if 0 <= index < less.len() && forall|i: int|
            index < i < secrets.len() ==> (#[trigger] secrets[i]).name@ != secrets[index].name@ {
            assert(secrets[secrets.len() - 1].name@ != secrets[index].name@);
            assert forall|i: int| index < i < less.len() implies (#[trigger] less[i]).name@
                != less[index].name@ by {
                assert(less[i] == secrets[i]);
            }
        }
    }
}

/// A profile is stored by making it under its name with its lifetime, and then storing each of its
/// secrets in it, with its name and its bytes and in its place; nothing else is changed.
pub proof fn law_profiles_are_stored_as_they_are(
    name: Seq<char>,
    ttl_seconds: i64,
    secrets: Seq<VaultSecret>,
)
    ensures
        ({
            let writes = profile_write_models(name, ttl_seconds, secrets);
            &&& writes.len() == secrets.len() + 1
            &&& writes[0] == (WriteModel::CreateProfile { name, ttl_seconds })
            &&& forall|i: int|
                0 <= i < secrets.len() ==> #[trigger] writes[i + 1] == (WriteModel::PutSecret {
                    profile: name,
                    name: secrets[i].name@,
                    value: secrets[i].value@,
                })
        }),
{
}

/// What a change says is what it holds.
pub proof fn law_changes_say_what_they_hold(
    profile: String,
    name: String,
    ttl_seconds: i64,
    value: SecretBytes,
    writes: Seq<VaultWrite>,
)
    ensures
        (VaultWrite::CreateProfile { name, ttl_seconds })@ == (WriteModel::CreateProfile {
            name: name@,
            ttl_seconds,
        }),
        (VaultWrite::PutSecret { profile, name, value })@ == (WriteModel::PutSecret {
            profile: profile@,
            name: name@,
            value: value@,
        }),
        write_models(writes).len() == writes.len(),
        forall|i: int| 0 <= i < writes.len() ==> #[trigger] write_models(writes)[i] == writes[i]@,
{
}

/// An import takes the one profile of its bundle, whose name it reads it by, and stores it under
/// the name that was given or else under its own. It is refused exactly if the bundle holds no
/// profile or several, or if the name that it is to be stored under is no good name.
pub proof fn law_imports_take_the_one_profile(
    listed: Seq<ProfileSummary>,
    as_name: Option<Seq<char>>,
)
    ensures
        ({
            let choice = import_choice(listed, as_name);
            &&& listed.len() != 1 ==> choice == Err::<(Seq<char>, Seq<char>), ErrorModel>(
                Fault::BundleShape,
            )
            &&& listed.len() == 1 ==> {
                &&& as_name matches Some(given) ==> choice is Ok == (name_check(
                    given,
                    "profile"@,
                ) is Ok)
                &&& as_name is None ==> choice is Ok == (name_check(
                    listed[0].name@,
                    "profile"@,
                ) is Ok)
            }
            &&& choice matches Ok((source, target)) ==> {
                &&& source == listed[0].name@
                &&& as_name matches Some(given) ==> target == given
                &&& as_name is None ==> target == source
            }
        }),
{
}

} // verus!
