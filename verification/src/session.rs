//! The profiles that the broker holds unlocked.

use vstd::prelude::*;

use crate::clock::{add_saturating, saturating_sum};
use crate::error::{outcome, success};
use crate::error::{Error, ErrorModel, Fault};
use crate::fingerprint::{check_token, verify_token, FingerprintKey, VerificationStatus};
use crate::fingerprint::{issued, tag_of, token_fields, verdict, KeyModel};
use crate::manifest::{Binding, BindingModel, Manifest, ProfileManifest};
use crate::name_map::NameMap;
use crate::name_map::{contents, in_order, lemma_entry_in_contents, names};
use crate::names::{name_check, validate_name};
use crate::secret::SecretBytes;
use crate::text::texts;
use crate::vault::{law_secrets_are_held_by_name, secret_map, VaultSecret};

verus! {

broadcast use vstd::string::group_string_axioms;

/// A profile that is held unlocked: until when, whether each run asks for the password again, and
/// its secrets.
#[derive(Debug)]
pub struct ActiveProfile {
    pub expires_at: i64,
    pub zero_trust: bool,
    pub secrets: NameMap<SecretBytes>,
}

/// What an unlocked profile holds.
#[verifier::ext_equal]
pub struct ProfileModel {
    pub expires_at: i64,
    pub zero_trust: bool,
    pub secrets: Map<Seq<char>, Seq<u8>>,
}

/// The values of secrets by their names.
pub open spec fn secret_values(entries: Seq<(Seq<char>, SecretBytes)>) -> Map<
    Seq<char>,
    Seq<u8>,
> {
    contents(entries).map_values(|secret: SecretBytes| secret@)
}

impl View for ActiveProfile {
    type V = ProfileModel;

    open spec fn view(&self) -> ProfileModel {
        ProfileModel {
            expires_at: self.expires_at,
            zero_trust: self.zero_trust,
            secrets: secret_values(self.secrets@),
        }
    }
}

/// The unlocked profiles by their names, and the fingerprint key while there is any of them.
#[verifier::ext_equal]
pub struct SessionModel {
    pub profiles: Map<Seq<char>, ProfileModel>,
    pub key: Option<KeyModel>,
}

/// A fingerprint key is held exactly while a profile is unlocked.
pub open spec fn session_valid(session: SessionModel) -> bool {
    session.key is Some <==> session.profiles != Map::<Seq<char>, ProfileModel>::empty()
}

/// A session with these profiles, which keeps the key only if there is any of them.
pub open spec fn session_of(
    profiles: Map<Seq<char>, ProfileModel>,
    key: Option<KeyModel>,
) -> SessionModel {
    SessionModel {
        profiles,
        key: if profiles == Map::<Seq<char>, ProfileModel>::empty() {
            None
        } else {
            key
        },
    }
}

/// The profiles that have not expired.
pub open spec fn unexpired(profiles: Map<Seq<char>, ProfileModel>, now: i64) -> Map<
    Seq<char>,
    ProfileModel,
> {
    Map::new(
        |name: Seq<char>| profiles.dom().contains(name) && profiles[name].expires_at > now,
        |name: Seq<char>| profiles[name],
    )
}

/// The session without the profiles that have expired.
pub open spec fn purged(session: SessionModel, now: i64) -> SessionModel {
    session_of(unexpired(session.profiles, now), session.key)
}

/// The profiles whose names are not among `names`.
pub open spec fn without(
    profiles: Map<Seq<char>, ProfileModel>,
    names: Seq<Seq<char>>,
) -> Map<Seq<char>, ProfileModel> {
    Map::new(
        |name: Seq<char>| profiles.dom().contains(name) && !names.contains(name),
        |name: Seq<char>| profiles[name],
    )
}

/// The session after profiles were locked: those named, or all of them if none is named.
pub open spec fn locked(session: SessionModel, names: Seq<Seq<char>>) -> SessionModel {
    if names.len() == 0 {
        SessionModel { profiles: Map::empty(), key: None }
    } else {
        session_of(without(session.profiles, names), session.key)
    }
}

/// A profile as it was read from the vault.
#[derive(Debug)]
pub struct LoadedProfile {
    pub name: String,
    pub ttl_seconds: i64,
    pub secrets: Vec<VaultSecret>,
}

/// How a profile is held that was just read from the vault. One that is held already and asks for
/// the password at each run goes on doing so.
pub open spec fn activated(
    held: Map<Seq<char>, ProfileModel>,
    now: i64,
    profile: LoadedProfile,
    ttl_override: Option<i64>,
    zero_trust: bool,
) -> ProfileModel {
    let ttl = match ttl_override {
        Some(seconds) => seconds,
        None => profile.ttl_seconds,
    };
    ProfileModel {
        expires_at: saturating_sum(now, ttl),
        zero_trust: zero_trust || (held.dom().contains(profile.name@)
            && held[profile.name@].zero_trust),
        secrets: secret_map(profile.secrets@),
    }
}

/// The held profiles, with those that were just read from the vault added or put in their place.
pub open spec fn with_loaded(
    held: Map<Seq<char>, ProfileModel>,
    now: i64,
    loaded: Seq<LoadedProfile>,
    ttl_override: Option<i64>,
    zero_trust: bool,
) -> Map<Seq<char>, ProfileModel>
    decreases loaded.len(),
{
    if loaded.len() == 0 {
        held
    } else {
        with_loaded(held, now, loaded.drop_last(), ttl_override, zero_trust).insert(
            loaded.last().name@,
            activated(held, now, loaded.last(), ttl_override, zero_trust),
        )
    }
}

/// The session after profiles were read from the vault together with its fingerprint key.
pub open spec fn unlocked(
    session: SessionModel,
    now: i64,
    loaded: Seq<LoadedProfile>,
    ttl_override: Option<i64>,
    zero_trust: bool,
    key: KeyModel,
) -> SessionModel {
    session_of(
        with_loaded(purged(session, now).profiles, now, loaded, ttl_override, zero_trust),
        Some(key),
    )
}

/// The session after the vault was given a new fingerprint key.
pub open spec fn rekeyed(session: SessionModel, key: KeyModel) -> SessionModel {
    session_of(session.profiles, Some(key))
}

/// What is told of an unlocked profile.
#[derive(Debug)]
pub struct ProfileStatus {
    pub name: String,
    pub expires_at: i64,
    pub zero_trust: bool,
}

/// What is told of an unlocked profile.
pub struct StatusModel {
    pub expires_at: i64,
    pub zero_trust: bool,
}

/// The statuses with their names.
pub open spec fn status_entries(statuses: Seq<ProfileStatus>) -> Seq<(Seq<char>, StatusModel)> {
    Seq::new(
        statuses.len(),
        |i: int|
            (
                statuses[i].name@,
                StatusModel {
                    expires_at: statuses[i].expires_at,
                    zero_trust: statuses[i].zero_trust,
                },
            ),
    )
}

/// What a session tells of its profiles.
pub open spec fn statuses(session: SessionModel) -> Map<Seq<char>, StatusModel> {
    session.profiles.map_values(
        |profile: ProfileModel|
            StatusModel { expires_at: profile.expires_at, zero_trust: profile.zero_trust },
    )
}

/// The profiles of a manifest, from the place `from` on, that ask for the password; an error if one
/// of them is not held.
pub open spec fn protected_profiles(
    session: SessionModel,
    profiles: Seq<(Seq<char>, ProfileManifest)>,
    from: int,
) -> Result<Seq<Seq<char>>, ErrorModel>
    decreases profiles.len() - from,
{
    if from < 0 || from >= profiles.len() {
        Ok(Seq::empty())
    } else {
        let name = profiles[from].0;
        if !session.profiles.dom().contains(name) {
            Err(Fault::ProfileLocked { profile: name })
        } else {
            match protected_profiles(session, profiles, from + 1) {
                Err(fault) => Err(fault),
                Ok(rest) => if session.profiles[name].zero_trust {
                    Ok(seq![name] + rest)
                } else {
                    Ok(rest)
                },
            }
        }
    }
}

/// A secret on its way to a command.
#[derive(Debug)]
pub struct Delivery {
    pub binding: Binding,
    pub value: SecretBytes,
}

/// A secret on its way to a command.
pub struct DeliveryModel {
    pub binding: BindingModel,
    pub value: Seq<u8>,
}

impl View for Delivery {
    type V = DeliveryModel;

    open spec fn view(&self) -> DeliveryModel {
        DeliveryModel { binding: self.binding@, value: self.value@ }
    }
}

/// What a row of deliveries says.
pub open spec fn delivery_models(deliveries: Seq<Delivery>) -> Seq<DeliveryModel> {
    Seq::new(deliveries.len(), |i: int| deliveries[i]@)
}

/// The deliveries of one profile, from the place `from` on; an error if it has no such secret.
pub open spec fn profile_deliveries(
    profile: Seq<char>,
    held: ProfileModel,
    secrets: Seq<(Seq<char>, Binding)>,
    from: int,
) -> Result<Seq<DeliveryModel>, ErrorModel>
    decreases secrets.len() - from,
{
    if from < 0 || from >= secrets.len() {
        Ok(Seq::empty())
    } else {
        let (name, binding) = secrets[from];
        if !held.secrets.dom().contains(name) {
            Err(Fault::SecretMissing { profile, name })
        } else {
            match profile_deliveries(profile, held, secrets, from + 1) {
                Err(fault) => Err(fault),
                Ok(rest) => Ok(
                    seq![DeliveryModel { binding: binding@, value: held.secrets[name] }] + rest,
                ),
            }
        }
    }
}

/// The deliveries of the profiles of a manifest, from the place `from` on, in the order of the
/// names; an error if a profile is not held or has no such secret.
pub open spec fn deliveries_of(
    session: SessionModel,
    profiles: Seq<(Seq<char>, ProfileManifest)>,
    from: int,
) -> Result<Seq<DeliveryModel>, ErrorModel>
    decreases profiles.len() - from,
{
    if from < 0 || from >= profiles.len() {
        Ok(Seq::empty())
    } else {
        let (name, manifest) = profiles[from];
        if !session.profiles.dom().contains(name) {
            Err(Fault::ProfileLocked { profile: name })
        } else {
            match profile_deliveries(name, session.profiles[name], manifest.secrets@, 0) {
                Err(fault) => Err(fault),
                Ok(first) => match deliveries_of(session, profiles, from + 1) {
                    Err(fault) => Err(fault),
                    Ok(rest) => Ok(first + rest),
                },
            }
        }
    }
}

/// What a session answers when a secret is to be compared with a fingerprint: first the names and
/// the token are checked, then the profile must be held, then the secret must be there, and then
/// the token decides.
pub open spec fn fingerprint_answer(
    session: SessionModel,
    profile: Seq<char>,
    secret: Seq<char>,
    token: Seq<char>,
) -> Result<VerificationStatus, ErrorModel> {
    if name_check(profile, "profile"@) is Err {
        Err(name_check(profile, "profile"@)->Err_0)
    } else if name_check(secret, "secret"@) is Err {
        Err(name_check(secret, "secret"@)->Err_0)
    } else if token_fields(token) is Err {
        Err(token_fields(token)->Err_0)
    } else if !session.profiles.dom().contains(profile) {
        Err(Fault::ProfileLocked { profile })
    } else if !session.profiles[profile].secrets.dom().contains(secret) {
        Ok(VerificationStatus::Missing)
    } else {
        verdict(
            session.key->Some_0,
            profile,
            secret,
            session.profiles[profile].secrets[secret],
            token,
        )
    }
}

/// The profiles that are held unlocked, and the fingerprint key while there is any of them.
#[derive(Debug)]
pub struct SessionState {
    profiles: NameMap<ActiveProfile>,
    key: Option<FingerprintKey>,
}

/// The profiles that a map holds.
pub open spec fn profile_models(entries: Seq<(Seq<char>, ActiveProfile)>) -> Map<
    Seq<char>,
    ProfileModel,
> {
    contents(entries).map_values(|profile: ActiveProfile| profile@)
}

impl View for SessionState {
    type V = SessionModel;

    closed spec fn view(&self) -> SessionModel {
        SessionModel {
            profiles: profile_models(self.profiles@),
            key: match self.key {
                Some(key) => Some(key@),
                None => None,
            },
        }
    }
}

proof fn lemma_none_held(entries: Seq<(Seq<char>, ActiveProfile)>)
    ensures
        entries.len() == 0 <==> profile_models(entries) == Map::<Seq<char>, ProfileModel>::empty(),
{
    if entries.len() == 0 {
        assert(profile_models(entries) =~= Map::<Seq<char>, ProfileModel>::empty());
    } else {
        assert(names(entries, entries[0].0));
        assert(profile_models(entries).dom().contains(entries[0].0));
    }
}

/// Takes out the profiles that have expired.
fn purge_expired(profiles: &mut NameMap<ActiveProfile>, now: i64)
    ensures
        profile_models(final(profiles)@) == unexpired(profile_models(old(profiles)@), now),
{
    let ghost before = profile_models(profiles@);
    let mut index: usize = 0;
    while index < profiles.len()
        invariant
            index <= profiles@.len(),
            unexpired(profile_models(profiles@), now) == unexpired(before, now),
            forall|i: int| 0 <= i < index ==> (#[trigger] profiles@[i]).1.expires_at > now,
        decreases profiles@.len() - index,
    {
        proof {
            use_type_invariant(&*profiles);
            lemma_entry_in_contents(profiles@, index as int);
        }
        if profiles.value_at(index).expires_at > now {
            index += 1;
        } else {
            let ghost held = profile_models(profiles@);
            let ghost name = profiles@[index as int].0;
            profiles.remove_at(index);
            proof {
                assert(held[name].expires_at <= now);
                assert(profile_models(profiles@) =~= held.remove(name));
                assert(unexpired(held.remove(name), now) =~= unexpired(held, now));
            }
        }
    }
    proof {
        let held = profile_models(profiles@);
        assert forall|name: Seq<char>| held.dom().contains(name) implies held[name].expires_at
            > now by {
            let i = crate::name_map::place_of(profiles@, name);
            assert(names(profiles@, name));
            assert(profiles@[i].1.expires_at > now);
        }
        assert(unexpired(held, now) =~= held);
    }
}

/// The secrets of a profile by their names.
fn collect_secrets(secrets: &Vec<VaultSecret>) -> (r: NameMap<SecretBytes>)
    ensures
        secret_values(r@) == secret_map(secrets@),
{
    let mut map: NameMap<SecretBytes> = NameMap::new();
    let mut index: usize = 0;
    assert(secret_values(map@) =~= secret_map(secrets@.take(0)));
    while index < secrets.len()
        invariant
            index <= secrets.len(),
            secret_values(map@) == secret_map(secrets@.take(index as int)),
        decreases secrets.len() - index,
    {
        let ghost before = map@;
        map.insert(secrets[index].name.clone(), secrets[index].value.duplicate());
        index += 1;
        proof {
            assert(secrets@.take(index as int).drop_last() == secrets@.take(index - 1));
            assert(secret_values(map@) =~= secret_values(before).insert(
                secrets@[index - 1].name@,
                secrets@[index - 1].value@,
            ));
        }
    }
    assert(secrets@.take(index as int) == secrets@);
    map
}

proof fn lemma_with_loaded_flag(
    held: Map<Seq<char>, ProfileModel>,
    now: i64,
    loaded: Seq<LoadedProfile>,
    ttl_override: Option<i64>,
    zero_trust: bool,
    name: Seq<char>,
)
    ensures
        ({
            let so_far = with_loaded(held, now, loaded, ttl_override, zero_trust);
            &&& held.dom().contains(name) ==> so_far.dom().contains(name)
            &&& (zero_trust || (so_far.dom().contains(name) && so_far[name].zero_trust)) == (
            zero_trust || (held.dom().contains(name) && held[name].zero_trust))
        }),
    decreases loaded.len(),
{
    if loaded.len() > 0 {
        lemma_with_loaded_flag(held, now, loaded.drop_last(), ttl_override, zero_trust, name);
    }
}

impl SessionState {
    /// A fingerprint key is held exactly while a profile is unlocked.
    #[verifier::type_invariant]
    pub open spec fn valid(&self) -> bool {
        session_valid(self@)
    }

    /// A session that holds nothing.
    pub fn new() -> (r: Self)
        ensures
            r@ == (SessionModel { profiles: Map::empty(), key: None }),
    {
        let profiles: NameMap<ActiveProfile> = NameMap::new();
        proof {
            lemma_none_held(profiles@);
        }
        SessionState { profiles, key: None }
    }

    /// Puts a session together from its profiles and a key, which is kept only if there is any
    /// profile.
    fn assemble(profiles: NameMap<ActiveProfile>, key: Option<FingerprintKey>) -> (r: Self)
        requires
            key is Some || profiles@.len() == 0,
        ensures
            r@ == session_of(
                profile_models(profiles@),
                match key {
                    Some(key) => Some(key@),
                    None => None,
                },
            ),
    {
        proof {
            lemma_none_held(profiles@);
        }
        if profiles.is_empty() {
            SessionState { profiles, key: None }
        } else {
            SessionState { profiles, key }
        }
    }

    /// Takes everything out of a session.
    fn take(&mut self) -> (r: (NameMap<ActiveProfile>, Option<FingerprintKey>))
        ensures
            final(self)@ == (SessionModel { profiles: Map::empty(), key: None }),
            profile_models(r.0@) == old(self)@.profiles,
            old(self)@.key == match r.1 {
                Some(key) => Some(key@),
                None => None,
            },
            r.1 is Some || r.0@.len() == 0,
    {
        proof {
            use_type_invariant(&*self);
            lemma_none_held(self.profiles@);
        }
        let mut taken = SessionState::new();
        std::mem::swap(self, &mut taken);
        (taken.profiles, taken.key)
    }

    /// Takes out the profiles that have expired, and the key with the last of them.
    pub fn purge_expired(&mut self, now: i64)
        ensures
            final(self)@ == purged(old(self)@, now),
    {
        let (mut profiles, key) = self.take();
        let ghost before = profile_models(profiles@);
        proof {
            lemma_none_held(profiles@);
        }
        purge_expired(&mut profiles, now);
        proof {
            lemma_none_held(profiles@);
            if before == Map::<Seq<char>, ProfileModel>::empty() {
                assert(unexpired(before, now) =~= before);
            }
        }
        *self = SessionState::assemble(profiles, key);
    }

    /// Takes in profiles that were read from the vault, together with its fingerprint key.
    pub fn unlock_profiles(
        &mut self,
        now: i64,
        loaded: &Vec<LoadedProfile>,
        ttl_override: Option<i64>,
        zero_trust: bool,
        key: FingerprintKey,
    )
        ensures
            final(self)@ == unlocked(old(self)@, now, loaded@, ttl_override, zero_trust, key@),
    {
        self.purge_expired(now);
        let (mut profiles, _previous) = self.take();
        let ghost held = profile_models(profiles@);
        let mut index: usize = 0;
        assert(loaded@.take(0) == Seq::<LoadedProfile>::empty());
        while index < loaded.len()
            invariant
                index <= loaded.len(),
                profile_models(profiles@) == with_loaded(
                    held,
                    now,
                    loaded@.take(index as int),
                    ttl_override,
                    zero_trust,
                ),
            decreases loaded.len() - index,
        {
            let profile = &loaded[index];
            let ghost so_far = loaded@.take(index as int);
            let ghost before = profiles@;
            let sticky: bool = match profiles.get(profile.name.as_str()) {
                Some(existing) => existing.zero_trust,
                None => false,
            };
            let ttl: i64 = match ttl_override {
                Some(seconds) => seconds,
                None => profile.ttl_seconds,
            };
            let active = ActiveProfile {
                expires_at: add_saturating(now, ttl),
                zero_trust: zero_trust || sticky,
                secrets: collect_secrets(&profile.secrets),
            };
            let ghost model = active@;
            profiles.insert(profile.name.clone(), active);
            index += 1;
            proof {
                lemma_with_loaded_flag(
                    held,
                    now,
                    so_far,
                    ttl_override,
                    zero_trust,
                    profile.name@,
                );
                assert(loaded@.take(index as int).drop_last() == so_far);
                assert(profile_models(profiles@) =~= profile_models(before).insert(
                    profile.name@,
                    model,
                ));
            }
        }
        assert(loaded@.take(index as int) == loaded@);
        *self = SessionState::assemble(profiles, Some(key));
    }

    /// Locks the named profiles, or all of them if none is named.
    pub fn lock_profiles(&mut self, names: &Vec<String>)
        ensures
            final(self)@ == locked(old(self)@, texts(names@)),
    {
        let (mut profiles, key) = self.take();
        if names.len() == 0 {
            return;
        }
        let ghost before = profile_models(profiles@);
        let ghost all = texts(names@);
        let mut index: usize = 0;
        assert(without(before, all.take(0)) =~= before);
        proof {
            lemma_none_held(profiles@);
        }
        while index < names.len()
            invariant
                index <= names.len(),
                all == texts(names@),
                profile_models(profiles@) == without(before, all.take(index as int)),
            decreases names.len() - index,
        {
            let ghost held = profile_models(profiles@);
            profiles.remove(names[index].as_str());
            index += 1;
            proof {
                let name = names@[index - 1]@;
                assert(profile_models(profiles@) =~= held.remove(name));
                assert(all.take(index as int) == all.take(index - 1).push(name));
                assert forall|other: Seq<char>|
                    all.take(index as int).contains(other) == (all.take(index - 1).contains(other)
                        || other == name) by {
                    let more = all.take(index as int);
                    let less = all.take(index - 1);
                    if less.contains(other) {
                        let i = choose|i: int| 0 <= i < less.len() && less[i] == other;
                        assert(more[i] == other);
                    }
                    if other == name {
                        assert(more[index - 1] == other);
                    }
                    if more.contains(other) {
                        let i = choose|i: int| 0 <= i < more.len() && more[i] == other;
                        if i < index - 1 {
                            assert(less[i] == other);
                        }
                    }
                }
                assert(held.remove(name) =~= without(before, all.take(index as int)));
            }
        }
        proof {
            assert(all.take(index as int) == all);
            lemma_none_held(profiles@);
            if before == Map::<Seq<char>, ProfileModel>::empty() {
                assert(without(before, all) =~= before);
            }
        }
        *self = SessionState::assemble(profiles, key);
    }

    /// Tells of the profiles that have not expired, in the order of their names.
    pub fn status_profiles(&mut self, now: i64) -> (r: Vec<ProfileStatus>)
        ensures
            final(self)@ == purged(old(self)@, now),
            in_order(status_entries(r@)),
            contents(status_entries(r@)) == statuses(purged(old(self)@, now)),
            forall|i: int|
                0 <= i < r@.len() ==> {
                    let told = #[trigger] r@[i];
                    let before = old(self)@.profiles;
                    &&& before.dom().contains(told.name@)
                    &&& told.expires_at == before[told.name@].expires_at
                    &&& told.expires_at > now
                    &&& told.zero_trust == before[told.name@].zero_trust
                },
            forall|name: Seq<char>|
                #![trigger old(self)@.profiles.dom().contains(name)]
                old(self)@.profiles.dom().contains(name) && old(self)@.profiles[name].expires_at
                    > now ==> exists|i: int| 0 <= i < r@.len() && (#[trigger] r@[i]).name@ == name,
    {
        let ghost before = self@.profiles;
        self.purge_expired(now);
        let ghost entries = self.profiles@;
        proof {
            use_type_invariant(&self.profiles);
        }
        let mut out: Vec<ProfileStatus> = Vec::new();
        let mut index: usize = 0;
        while index < self.profiles.len()
            invariant
                entries == self.profiles@,
                index <= entries.len(),
                out.len() == index,
                forall|i: int|
                    0 <= i < index ==> {
                        &&& (#[trigger] out@[i]).name@ == entries[i].0
                        &&& out@[i].expires_at == entries[i].1.expires_at
                        &&& out@[i].zero_trust == entries[i].1.zero_trust
                    },
            decreases entries.len() - index,
        {
            let profile = self.profiles.value_at(index);
            out.push(
                ProfileStatus {
                    name: self.profiles.name_at(index).to_owned(),
                    expires_at: profile.expires_at,
                    zero_trust: profile.zero_trust,
                },
            );
            index += 1;
        }
        proof {
            let told = status_entries(out@);
            assert forall|i: int, j: int| 0 <= i < j < told.len() implies crate::text::text_before(
                (#[trigger] told[i]).0,
                (#[trigger] told[j]).0,
            ) by {
                assert(told[i].0 == entries[i].0 && told[j].0 == entries[j].0);
            }
            let left = contents(told);
            let right = statuses(self@);
            assert forall|name: Seq<char>| left.dom().contains(name) == right.dom().contains(
                name,
            ) by {
                if names(told, name) {
                    let i = crate::name_map::place_of(told, name);
                    assert(entries[i].0 == name);
                }
                if names(entries, name) {
                    let i = crate::name_map::place_of(entries, name);
                    assert(told[i].0 == name);
                }
            }
            assert forall|name: Seq<char>| left.dom().contains(name) implies left[name]
                == right[name] by {
                let i = crate::name_map::place_of(told, name);
                assert(names(told, name));
                assert(entries[i].0 == name);
                lemma_entry_in_contents(told, i);
                lemma_entry_in_contents(entries, i);
            }
            assert(left =~= right);
            assert forall|i: int| 0 <= i < out@.len() implies ({
                let one = #[trigger] out@[i];
                &&& before.dom().contains(one.name@)
                &&& one.expires_at == before[one.name@].expires_at
                &&& one.expires_at > now
                &&& one.zero_trust == before[one.name@].zero_trust
            }) by {
                let name = entries[i].0;
                assert(out@[i].name@ == name);
                lemma_entry_in_contents(entries, i);
                assert(self@.profiles.dom().contains(name));
                assert(self@.profiles[name] == entries[i].1@);
                assert(before[name] == self@.profiles[name]);
            }
            assert forall|name: Seq<char>|
                #![trigger before.dom().contains(name)]
                before.dom().contains(name) && before[name].expires_at > now implies exists|i: int|
                0 <= i < out@.len() && (#[trigger] out@[i]).name@ == name by {
                assert(self@.profiles.dom().contains(name));
                let i = crate::name_map::place_of(entries, name);
                assert(names(entries, name));
                assert(out@[i].name@ == name);
            }
        }
        out
    }

    /// The profiles of a manifest that ask for the password before a run; an error if one of its
    /// profiles is not held.
    pub fn protected_profiles(&self, manifest: &Manifest) -> (r: Result<Vec<String>, Error>)
        ensures
            match r {
                Ok(names) => protected_profiles(self@, manifest.profiles@, 0) == success(
                    texts(names@),
                ),
                Err(error) => protected_profiles(self@, manifest.profiles@, 0) matches Err(fault)
                    && fault == error@,
            },
    {
        let ghost entries = manifest.profiles@;
        let mut protected: Vec<String> = Vec::new();
        let mut index: usize = 0;
        assert(texts(protected@) =~= Seq::<Seq<char>>::empty());
        while index < manifest.profiles.len()
            invariant
                entries == manifest.profiles@,
                index <= entries.len(),
                protected_profiles(self@, entries, 0) == match protected_profiles(
                    self@,
                    entries,
                    index as int,
                ) {
                    Ok(rest) => Ok(texts(protected@) + rest),
                    Err(fault) => Err(fault),
                },
            decreases entries.len() - index,
        {
            let name = manifest.profiles.name_at(index);
            match self.profiles.get(name) {
                None => {
                    return Err(Fault::ProfileLocked { profile: name.to_owned() });
                },
                Some(profile) => {
                    if profile.zero_trust {
                        let ghost before = texts(protected@);
                        protected.push(name.to_owned());
                        proof {
                            let rest = protected_profiles(self@, entries, index + 1);
                            assert(texts(protected@) =~= before.push(name@));
                            if let Ok(rest) = rest {
                                assert(before + (seq![name@] + rest) =~= texts(protected@) + rest);
                            }
                        }
                    }
                },
            }
            index += 1;
        }
        assert(texts(protected@) + Seq::<Seq<char>>::empty() =~= texts(protected@));
        Ok(protected)
    }

    /// The secrets that a manifest asks for, in the order of the names; an error if a profile is
    /// not held or has no such secret.
    pub fn collect_deliveries(&self, manifest: &Manifest) -> (r: Result<Vec<Delivery>, Error>)
        ensures
            match r {
                Ok(deliveries) => deliveries_of(self@, manifest.profiles@, 0) == success(
                    delivery_models(deliveries@),
                ),
                Err(error) => deliveries_of(self@, manifest.profiles@, 0) matches Err(fault)
                    && fault == error@,
            },
    {
        let ghost entries = manifest.profiles@;
        let mut out: Vec<Delivery> = Vec::new();
        let mut index: usize = 0;
        assert(delivery_models(out@) =~= Seq::<DeliveryModel>::empty());
        while index < manifest.profiles.len()
            invariant
                entries == manifest.profiles@,
                index <= entries.len(),
                deliveries_of(self@, entries, 0) == match deliveries_of(
                    self@,
                    entries,
                    index as int,
                ) {
                    Ok(rest) => Ok(delivery_models(out@) + rest),
                    Err(fault) => Err(fault),
                },
            decreases entries.len() - index,
        {
            let name = manifest.profiles.name_at(index);
            match self.profiles.get(name) {
                None => {
                    return Err(Fault::ProfileLocked { profile: name.to_owned() });
                },
                Some(profile) => {
                    let ghost before = delivery_models(out@);
                    let bindings = manifest.profiles.value_at(index);
                    match push_deliveries(&mut out, name, profile, bindings) {
                        Err(error) => {
                            return Err(error);
                        },
                        Ok(()) => {},
                    }
                    proof {
                        let first = profile_deliveries(
                            name@,
                            self@.profiles[name@],
                            entries[index as int].1.secrets@,
                            0,
                        )->Ok_0;
                        if let Ok(rest) = deliveries_of(self@, entries, index + 1) {
                            assert(before + (first + rest) =~= delivery_models(out@) + rest);
                        }
                    }
                },
            }
            index += 1;
        }
        assert(delivery_models(out@) + Seq::<DeliveryModel>::empty() =~= delivery_models(out@));
        Ok(out)
    }

    /// Compares a secret with a fingerprint. The session keeps what it holds, but for what has
    /// expired.
    pub fn verify_fingerprint(
        &mut self,
        now: i64,
        profile: &str,
        secret: &str,
        token: &str,
    ) -> (r: Result<VerificationStatus, Error>)
        ensures
            final(self)@ == purged(old(self)@, now),
            outcome(r) == fingerprint_answer(purged(old(self)@, now), profile@, secret@, token@),
    {
        self.purge_expired(now);
        match validate_name(profile, "profile") {
            Err(error) => {
                return Err(error);
            },
            Ok(()) => {},
        }
        match validate_name(secret, "secret") {
            Err(error) => {
                return Err(error);
            },
            Ok(()) => {},
        }
        match check_token(token) {
            Err(error) => {
                return Err(error);
            },
            Ok(()) => {},
        }
        proof {
            use_type_invariant(&*self);
        }
        match self.profiles.get(profile) {
            None => Err(Fault::ProfileLocked { profile: profile.to_owned() }),
            Some(active) => match active.secrets.get(secret) {
                None => Ok(VerificationStatus::Missing),
                Some(value) => {
                    assert(self@.profiles.dom().contains(profile@));
                    assert(self@.key is Some);
                    match &self.key {
                        Some(key) => verify_token(key, profile, secret, value.expose(), token),
                        None => Err(Fault::KeyMissing),
                    }
                },
            },
        }
    }

    /// Takes the new fingerprint key of the vault in place of the old one.
    pub fn replace_key(&mut self, key: FingerprintKey)
        ensures
            final(self)@ == rekeyed(old(self)@, key@),
    {
        let (profiles, _previous) = self.take();
        *self = SessionState::assemble(profiles, Some(key));
    }
}

/// Appends the deliveries of one profile.
fn push_deliveries(
    out: &mut Vec<Delivery>,
    profile: &str,
    held: &ActiveProfile,
    manifest: &ProfileManifest,
) -> (r: Result<(), Error>)
    ensures
        match r {
            Ok(()) => {
                &&& profile_deliveries(profile@, held@, manifest.secrets@, 0) is Ok
                &&& delivery_models(final(out)@) == delivery_models(old(out)@)
                    + profile_deliveries(profile@, held@, manifest.secrets@, 0)->Ok_0
            },
            Err(error) => profile_deliveries(profile@, held@, manifest.secrets@, 0) matches Err(
                fault,
            ) && fault == error@,
        },
{
    let ghost before = delivery_models(out@);
    let ghost entries = manifest.secrets@;
    let ghost whole = profile_deliveries(profile@, held@, entries, 0);
    let mut index: usize = 0;
    while index < manifest.secrets.len()
        invariant
            entries == manifest.secrets@,
            index <= entries.len(),
            whole == profile_deliveries(profile@, held@, entries, 0),
            match profile_deliveries(profile@, held@, entries, index as int) {
                Ok(rest) => whole is Ok && before + whole->Ok_0 == delivery_models(out@) + rest,
                Err(fault) => whole matches Err(same) && same == fault,
            },
        decreases entries.len() - index,
    {
        let name = manifest.secrets.name_at(index);
        let binding = manifest.secrets.value_at(index);
        match held.secrets.get(name) {
            None => {
                return Err(
                    Fault::SecretMissing { profile: profile.to_owned(), name: name.to_owned() },
                );
            },
            Some(value) => {
                let ghost so_far = delivery_models(out@);
                out.push(Delivery { binding: binding.clone(), value: value.duplicate() });
                proof {
                    let one = DeliveryModel { binding: binding@, value: held@.secrets[name@] };
                    assert(delivery_models(out@) =~= so_far.push(one));
                    if let Ok(rest) = profile_deliveries(profile@, held@, entries, index + 1) {
                        assert(so_far + (seq![one] + rest) =~= delivery_models(out@) + rest);
                    }
                }
            },
        }
        index += 1;
    }
    assert(delivery_models(out@) + Seq::<DeliveryModel>::empty() =~= delivery_models(out@));
    Ok(())
}

/// Everything that happens to a session keeps it valid: the fingerprint key is held exactly while a
/// profile is unlocked, so that it goes with the last of them.
pub proof fn law_sessions_stay_valid(
    session: SessionModel,
    now: i64,
    names: Seq<Seq<char>>,
    loaded: Seq<LoadedProfile>,
    ttl_override: Option<i64>,
    zero_trust: bool,
    key: KeyModel,
)
    requires
        session_valid(session),
    ensures
        session_valid(purged(session, now)),
        session_valid(locked(session, names)),
        session_valid(unlocked(session, now, loaded, ttl_override, zero_trust, key)),
        session_valid(rekeyed(session, key)),
{
    let none = Map::<Seq<char>, ProfileModel>::empty();
    if session.profiles == none {
        assert(unexpired(session.profiles, now) =~= none);
        assert(without(session.profiles, names) =~= none);
    }
}

/// Taking out what has expired leaves exactly the profiles that expire later, each as it was, and
/// doing it again changes nothing.
pub proof fn law_purge_takes_out_what_expired(session: SessionModel, now: i64)
    ensures
        forall|name: Seq<char>|
            #[trigger] purged(session, now).profiles.dom().contains(name)
                <==> session.profiles.dom().contains(name) && session.profiles[name].expires_at
                > now,
        forall|name: Seq<char>|
            purged(session, now).profiles.dom().contains(name) ==> (#[trigger] purged(
                session,
                now,
            ).profiles[name]) == session.profiles[name],
        purged(purged(session, now), now) == purged(session, now),
{
    let once = unexpired(session.profiles, now);
    assert(unexpired(once, now) =~= once);
}

/// Locking takes out the named profiles and leaves every other as it was; where none is named, it
/// takes out all of them and the key.
pub proof fn law_lock_takes_out_what_is_named(
    session: SessionModel,
    names: Seq<Seq<char>>,
    name: Seq<char>,
)
    ensures
        names.len() == 0 ==> locked(session, names) == (SessionModel {
            profiles: Map::empty(),
            key: None,
        }),
        names.contains(name) ==> !locked(session, names).profiles.dom().contains(name),
        names.len() > 0 && !names.contains(name) ==> {
            &&& locked(session, names).profiles.dom().contains(name)
                == session.profiles.dom().contains(name)
            &&& session.profiles.dom().contains(name) ==> locked(session, names).profiles[name]
                == session.profiles[name]
        },
{
}

/// A profile that is not among those read from the vault.
pub open spec fn not_loaded(loaded: Seq<LoadedProfile>, name: Seq<char>) -> bool {
    forall|i: int| 0 <= i < loaded.len() ==> (#[trigger] loaded[i]).name@ != name
}

proof fn lemma_with_loaded_elsewhere(
    held: Map<Seq<char>, ProfileModel>,
    now: i64,
    loaded: Seq<LoadedProfile>,
    ttl_override: Option<i64>,
    zero_trust: bool,
    name: Seq<char>,
)
    requires
        not_loaded(loaded, name),
    ensures
        ({
            let after = with_loaded(held, now, loaded, ttl_override, zero_trust);
            &&& after.dom().contains(name) == held.dom().contains(name)
            &&& held.dom().contains(name) ==> after[name] == held[name]
        }),
    decreases loaded.len(),
{
    if loaded.len() > 0 {
        let less = loaded.drop_last();
        assert forall|i: int| 0 <= i < less.len() implies (#[trigger] less[i]).name@ != name by {
            assert(less[i] == loaded[i]);
        }
        assert(loaded[loaded.len() - 1].name@ != name);
        lemma_with_loaded_elsewhere(held, now, less, ttl_override, zero_trust, name);
    }
}

proof fn lemma_with_loaded_at(
    held: Map<Seq<char>, ProfileModel>,
    now: i64,
    loaded: Seq<LoadedProfile>,
    ttl_override: Option<i64>,
    zero_trust: bool,
    index: int,
)
    requires
        0 <= index < loaded.len(),
        not_loaded(loaded.skip(index + 1), loaded[index].name@),
    ensures
        ({
            let after = with_loaded(held, now, loaded, ttl_override, zero_trust);
            let profile = loaded[index];
            &&& after.dom().contains(profile.name@)
            &&& after[profile.name@] == activated(held, now, profile, ttl_override, zero_trust)
        }),
    decreases loaded.len(),
{
    if index < loaded.len() - 1 {
        let less = loaded.drop_last();
        let rest = loaded.skip(index + 1);
        assert(rest[rest.len() - 1] == loaded[loaded.len() - 1]);
        assert(rest[rest.len() - 1].name@ != loaded[index].name@);
        assert forall|i: int| 0 <= i < less.skip(index + 1).len() implies (
        #[trigger] less.skip(index + 1)[i]).name@ != less[index].name@ by {
            assert(less.skip(index + 1)[i] == rest[i]);
        }
        lemma_with_loaded_at(held, now, less, ttl_override, zero_trust, index);
    }
}

/// After an unlock each profile that was read from the vault is held with the secrets that were
/// read, until its own lifetime or the one given for this session is over; of two under one name
/// the last counts. It asks for the password at each run if that was asked for, or if it was held
/// already and asked for it before.
pub proof fn law_unlock_holds_what_was_loaded(
    session: SessionModel,
    now: i64,
    loaded: Seq<LoadedProfile>,
    ttl_override: Option<i64>,
    zero_trust: bool,
    key: KeyModel,
    index: int,
)
    requires
        0 <= index < loaded.len(),
        not_loaded(loaded.skip(index + 1), loaded[index].name@),
    ensures
        ({
            let after = unlocked(session, now, loaded, ttl_override, zero_trust, key);
            let before = purged(session, now);
            let name = loaded[index].name@;
            let ttl = match ttl_override {
                Some(seconds) => seconds,
                None => loaded[index].ttl_seconds,
            };
            &&& after.key == Some(key)
            &&& after.profiles.dom().contains(name)
            &&& after.profiles[name].secrets == secret_map(loaded[index].secrets@)
            &&& after.profiles[name].expires_at == saturating_sum(now, ttl)
            &&& after.profiles[name].zero_trust <==> zero_trust || (before.profiles.dom().contains(
                name,
            ) && before.profiles[name].zero_trust)
        }),
{
    let held = purged(session, now).profiles;
    lemma_with_loaded_at(held, now, loaded, ttl_override, zero_trust, index);
    let after = with_loaded(held, now, loaded, ttl_override, zero_trust);
    assert(after.dom().contains(loaded[index].name@));
    assert(after != Map::<Seq<char>, ProfileModel>::empty());
}

/// An unlock leaves every other profile that has not expired as it was.
pub proof fn law_unlock_leaves_others(
    session: SessionModel,
    now: i64,
    loaded: Seq<LoadedProfile>,
    ttl_override: Option<i64>,
    zero_trust: bool,
    key: KeyModel,
    name: Seq<char>,
)
    requires
        not_loaded(loaded, name),
    ensures
        ({
            let after = unlocked(session, now, loaded, ttl_override, zero_trust, key);
            let before = purged(session, now);
            &&& after.profiles.dom().contains(name) == before.profiles.dom().contains(name)
            &&& before.profiles.dom().contains(name) ==> after.profiles[name]
                == before.profiles[name]
        }),
{
    lemma_with_loaded_elsewhere(
        purged(session, now).profiles,
        now,
        loaded,
        ttl_override,
        zero_trust,
        name,
    );
}

/// A profile that asks for the password at each run goes on asking when it is unlocked again
/// without that being asked for; only locking it or letting it expire ends it.
pub proof fn law_zero_trust_persists(
    session: SessionModel,
    now: i64,
    loaded: Seq<LoadedProfile>,
    ttl_override: Option<i64>,
    zero_trust: bool,
    key: KeyModel,
    name: Seq<char>,
)
    requires
        purged(session, now).profiles.dom().contains(name),
        session.profiles[name].zero_trust,
    ensures
        ({
            let after = unlocked(session, now, loaded, ttl_override, zero_trust, key);
            after.profiles.dom().contains(name) && after.profiles[name].zero_trust
        }),
    decreases loaded.len(),
{
    let held = purged(session, now).profiles;
    if loaded.len() > 0 {
        law_zero_trust_persists(
            session,
            now,
            loaded.drop_last(),
            ttl_override,
            zero_trust,
            key,
            name,
        );
    }
}

/// An unlocked profile is held until its lifetime is over, and not longer: at a later time it is
/// there exactly if that time is before the end of its lifetime.
pub proof fn law_unlocks_are_bounded(
    session: SessionModel,
    now: i64,
    loaded: Seq<LoadedProfile>,
    ttl_override: Option<i64>,
    zero_trust: bool,
    key: KeyModel,
    index: int,
    later: i64,
)
    requires
        0 <= index < loaded.len(),
        not_loaded(loaded.skip(index + 1), loaded[index].name@),
    ensures
        ({
            let ttl = match ttl_override {
                Some(seconds) => seconds,
                None => loaded[index].ttl_seconds,
            };
            let after = unlocked(session, now, loaded, ttl_override, zero_trust, key);
            purged(after, later).profiles.dom().contains(loaded[index].name@) <==> later
                < saturating_sum(now, ttl)
        }),
{
    law_unlock_holds_what_was_loaded(
        session,
        now,
        loaded,
        ttl_override,
        zero_trust,
        key,
        index,
    );
}

proof fn lemma_protected_profiles_need_all(
    session: SessionModel,
    profiles: Seq<(Seq<char>, ProfileManifest)>,
    from: int,
)
    requires
        0 <= from <= profiles.len(),
    ensures
        protected_profiles(session, profiles, from) is Ok <==> forall|i: int|
            from <= i < profiles.len() ==> session.profiles.dom().contains(
                (#[trigger] profiles[i]).0,
            ),
        protected_profiles(session, profiles, from) matches Err(fault) ==> exists|i: int|
            from <= i < profiles.len() && !session.profiles.dom().contains(
                (#[trigger] profiles[i]).0,
            ) && fault == (Fault::ProfileLocked { profile: profiles[i].0 }),
    decreases profiles.len() - from,
{
    if from < profiles.len() {
        lemma_protected_profiles_need_all(session, profiles, from + 1);
        assert(session.profiles.dom().contains(profiles[from].0) || protected_profiles(
            session,
            profiles,
            from,
        ) is Err);
    }
}

/// A run is refused if one of the profiles of its manifest is not held: because it was never
/// unlocked, was locked or has expired. The error names such a profile.
pub proof fn law_locked_profiles_refuse_runs(session: SessionModel, manifest: Manifest)
    ensures
        ({
            let answer = protected_profiles(session, manifest.profiles@, 0);
            &&& answer is Ok <==> forall|i: int|
                0 <= i < manifest.profiles@.len() ==> session.profiles.dom().contains(
                    (#[trigger] manifest.profiles@[i]).0,
                )
            &&& answer matches Err(fault) ==> exists|i: int|
                0 <= i < manifest.profiles@.len() && !session.profiles.dom().contains(
                    (#[trigger] manifest.profiles@[i]).0,
                ) && fault == (Fault::ProfileLocked { profile: manifest.profiles@[i].0 })
        }),
{
    lemma_protected_profiles_need_all(session, manifest.profiles@, 0);
}

proof fn lemma_protected_profiles_are_those(
    session: SessionModel,
    profiles: Seq<(Seq<char>, ProfileManifest)>,
    from: int,
    name: Seq<char>,
)
    requires
        0 <= from <= profiles.len(),
        protected_profiles(session, profiles, from) is Ok,
    ensures
        protected_profiles(session, profiles, from)->Ok_0.contains(name) <==> exists|i: int|
            from <= i < profiles.len() && (#[trigger] profiles[i]).0 == name
                && session.profiles[name].zero_trust,
    decreases profiles.len() - from,
{
    if from < profiles.len() {
        lemma_protected_profiles_are_those(session, profiles, from + 1, name);
        let rest = protected_profiles(session, profiles, from + 1)->Ok_0;
        let whole = protected_profiles(session, profiles, from)->Ok_0;
        let first = profiles[from].0;
        if session.profiles[first].zero_trust {
            assert(whole == seq![first] + rest);
            assert(whole[0] == first);
            if rest.contains(name) {
                let k = choose|k: int| 0 <= k < rest.len() && rest[k] == name;
                assert(whole[k + 1] == name);
            }
            if whole.contains(name) {
                let k = choose|k: int| 0 <= k < whole.len() && whole[k] == name;
                if k > 0 {
                    assert(rest[k - 1] == name);
                } else {
                    assert(profiles[from].0 == name);
                }
            }
        }
    } else {
        assert(!Seq::<Seq<char>>::empty().contains(name));
    }
}

/// The profiles that ask for the password before a run are those of the manifest that were
/// unlocked that way.
pub proof fn law_protected_profiles_are_zero_trust(
    session: SessionModel,
    manifest: Manifest,
    name: Seq<char>,
)
    requires
        protected_profiles(session, manifest.profiles@, 0) is Ok,
    ensures
        protected_profiles(session, manifest.profiles@, 0)->Ok_0.contains(name) <==> names(
            manifest.profiles@,
            name,
        ) && session.profiles[name].zero_trust,
{
    lemma_protected_profiles_are_those(session, manifest.profiles@, 0, name);
}

/// A place in a manifest: a profile and one of its bindings.
pub open spec fn bound_at(
    profiles: Seq<(Seq<char>, ProfileManifest)>,
    i: int,
    j: int,
) -> bool {
    0 <= i < profiles.len() && 0 <= j < profiles[i].1.secrets@.len()
}

/// What the binding at a place asks for: the value that is held under its names, to be delivered as
/// it says.
pub open spec fn asked_for(
    session: SessionModel,
    profiles: Seq<(Seq<char>, ProfileManifest)>,
    i: int,
    j: int,
) -> DeliveryModel {
    let (name, binding) = profiles[i].1.secrets@[j];
    DeliveryModel {
        binding: binding@,
        value: session.profiles[profiles[i].0].secrets[name],
    }
}

/// A delivery that some binding asks for, in one of the profiles from the place `from` on.
pub open spec fn asked_for_somewhere(
    session: SessionModel,
    profiles: Seq<(Seq<char>, ProfileManifest)>,
    from: int,
    delivery: DeliveryModel,
) -> bool {
    exists|i: int, j: int|
        from <= i && #[trigger] bound_at(profiles, i, j) && delivery == asked_for(
            session,
            profiles,
            i,
            j,
        )
}

/// How many bindings the profiles of a manifest have, from the place `from` on.
pub open spec fn binding_count(
    profiles: Seq<(Seq<char>, ProfileManifest)>,
    from: int,
) -> nat
    decreases profiles.len() - from,
{
    if from < 0 || from >= profiles.len() {
        0
    } else {
        profiles[from].1.secrets@.len() + binding_count(profiles, from + 1)
    }
}

proof fn lemma_profile_deliveries(
    profile: Seq<char>,
    held: ProfileModel,
    secrets: Seq<(Seq<char>, Binding)>,
    from: int,
)
    requires
        0 <= from <= secrets.len(),
        profile_deliveries(profile, held, secrets, from) is Ok,
    ensures
        ({
            let out = profile_deliveries(profile, held, secrets, from)->Ok_0;
            &&& out.len() == secrets.len() - from
            &&& forall|k: int|
                0 <= k < out.len() ==> #[trigger] out[k] == (DeliveryModel {
                    binding: secrets[from + k].1@,
                    value: held.secrets[secrets[from + k].0],
                })
        }),
    decreases secrets.len() - from,
{
    if from < secrets.len() {
        lemma_profile_deliveries(profile, held, secrets, from + 1);
        let out = profile_deliveries(profile, held, secrets, from)->Ok_0;
        let rest = profile_deliveries(profile, held, secrets, from + 1)->Ok_0;
        assert forall|k: int| 0 <= k < out.len() implies #[trigger] out[k] == (DeliveryModel {
            binding: secrets[from + k].1@,
            value: held.secrets[secrets[from + k].0],
        }) by {
            if k > 0 {
                assert(out[k] == rest[k - 1]);
            }
        }
    }
}

#[verifier::rlimit(30)]
proof fn lemma_deliveries_of(
    session: SessionModel,
    profiles: Seq<(Seq<char>, ProfileManifest)>,
    from: int,
)
    requires
        0 <= from <= profiles.len(),
        deliveries_of(session, profiles, from) is Ok,
    ensures
        deliveries_of(session, profiles, from)->Ok_0.len() == binding_count(profiles, from),
        forall|i: int, j: int|
            from <= i && #[trigger] bound_at(profiles, i, j) ==> deliveries_of(
                session,
                profiles,
                from,
            )->Ok_0.contains(asked_for(session, profiles, i, j)),
        forall|k: int|
            0 <= k < binding_count(profiles, from) ==> asked_for_somewhere(
                session,
                profiles,
                from,
                #[trigger] deliveries_of(session, profiles, from)->Ok_0[k],
            ),
    decreases profiles.len() - from,
{
    if from < profiles.len() {
        lemma_deliveries_of(session, profiles, from + 1);
        let (name, manifest) = profiles[from];
        let held = session.profiles[name];
        lemma_profile_deliveries(name, held, manifest.secrets@, 0);
        let first = profile_deliveries(name, held, manifest.secrets@, 0)->Ok_0;
        let rest = deliveries_of(session, profiles, from + 1)->Ok_0;
        let out = deliveries_of(session, profiles, from)->Ok_0;
        assert(out == first + rest);
        assert forall|i: int, j: int| from <= i && #[trigger] bound_at(
            profiles,
            i,
            j,
        ) implies out.contains(asked_for(session, profiles, i, j)) by {
            let wanted = asked_for(session, profiles, i, j);
            if i == from {
                assert(first[j] == wanted);
                assert(out[j] == wanted);
            } else {
                assert(rest.contains(wanted));
                let k = choose|k: int| 0 <= k < rest.len() && rest[k] == wanted;
                assert(out[first.len() + k] == wanted);
            }
        }
        assert forall|k: int| 0 <= k < binding_count(profiles, from) implies asked_for_somewhere(
            session,
            profiles,
            from,
            #[trigger] out[k],
        ) by {
            if k < first.len() {
                assert(bound_at(profiles, from, k));
                assert(out[k] == first[k]);
                assert(out[k] == asked_for(session, profiles, from, k));
            } else {
                let m = k - first.len();
                assert(out[k] == rest[m]);
                assert(0 <= m < binding_count(profiles, from + 1));
                assert(asked_for_somewhere(session, profiles, from + 1, rest[m]));
            }
        }
    }
}

/// A run delivers the values that are held under the names in its manifest, unchanged, one for
/// each binding and nothing else.
pub proof fn law_deliveries_are_what_was_asked_for(session: SessionModel, manifest: Manifest)
    requires
        deliveries_of(session, manifest.profiles@, 0) is Ok,
    ensures
        ({
            let out = deliveries_of(session, manifest.profiles@, 0)->Ok_0;
            &&& out.len() == binding_count(manifest.profiles@, 0)
            &&& forall|i: int, j: int| #[trigger]
                bound_at(manifest.profiles@, i, j) ==> out.contains(
                    asked_for(session, manifest.profiles@, i, j),
                )
            &&& forall|k: int|
                0 <= k < out.len() ==> asked_for_somewhere(
                    session,
                    manifest.profiles@,
                    0,
                    #[trigger] out[k],
                )
        }),
{
    lemma_deliveries_of(session, manifest.profiles@, 0);
}

/// Whether a binding asks for a secret that is held.
pub open spec fn available(
    session: SessionModel,
    profiles: Seq<(Seq<char>, ProfileManifest)>,
    i: int,
    j: int,
) -> bool {
    &&& session.profiles.dom().contains(profiles[i].0)
    &&& session.profiles[profiles[i].0].secrets.dom().contains(profiles[i].1.secrets@[j].0)
}

proof fn lemma_profile_deliveries_exist(
    profile: Seq<char>,
    held: ProfileModel,
    secrets: Seq<(Seq<char>, Binding)>,
    from: int,
)
    requires
        0 <= from <= secrets.len(),
    ensures
        profile_deliveries(profile, held, secrets, from) is Ok <==> forall|j: int|
            from <= j < secrets.len() ==> held.secrets.dom().contains((#[trigger] secrets[j]).0),
    decreases secrets.len() - from,
{
    if from < secrets.len() {
        lemma_profile_deliveries_exist(profile, held, secrets, from + 1);
        assert(held.secrets.dom().contains(secrets[from].0) || profile_deliveries(
            profile,
            held,
            secrets,
            from,
        ) is Err);
    }
}

proof fn lemma_deliveries_exist(
    session: SessionModel,
    profiles: Seq<(Seq<char>, ProfileManifest)>,
    from: int,
)
    requires
        0 <= from <= profiles.len(),
        forall|i: int|
            from <= i < profiles.len() ==> session.profiles.dom().contains(
                (#[trigger] profiles[i]).0,
            ),
        forall|i: int, j: int|
            from <= i && #[trigger] bound_at(profiles, i, j) ==> available(
                session,
                profiles,
                i,
                j,
            ),
    ensures
        deliveries_of(session, profiles, from) is Ok,
    decreases profiles.len() - from,
{
    if from < profiles.len() {
        lemma_deliveries_exist(session, profiles, from + 1);
        let (name, manifest) = profiles[from];
        let secrets = manifest.secrets@;
        assert(session.profiles.dom().contains(profiles[from].0));
        assert forall|j: int| 0 <= j < secrets.len() implies session.profiles[name]
            .secrets.dom().contains((#[trigger] secrets[j]).0) by {
            assert(bound_at(profiles, from, j));
        }
        lemma_profile_deliveries_exist(name, session.profiles[name], secrets, 0);
    }
}

/// Where every profile of a manifest is held and every secret that it binds is there, the secrets
/// are handed out.
pub proof fn law_held_secrets_are_handed_out(session: SessionModel, manifest: Manifest)
    requires
        forall|i: int|
            0 <= i < manifest.profiles@.len() ==> session.profiles.dom().contains(
                (#[trigger] manifest.profiles@[i]).0,
            ),
        forall|i: int, j: int| #[trigger]
            bound_at(manifest.profiles@, i, j) ==> available(session, manifest.profiles@, i, j),
    ensures
        deliveries_of(session, manifest.profiles@, 0) is Ok,
{
    lemma_deliveries_exist(session, manifest.profiles@, 0);
}

/// Rotating the fingerprint key changes no profile and no secret and locks nothing; afterwards only
/// the new key is held.
pub proof fn law_rotation_keeps_profiles(session: SessionModel, key: KeyModel)
    requires
        session_valid(session),
    ensures
        rekeyed(session, key).profiles == session.profiles,
        rekeyed(session, key).key == if session.key is Some {
            Some(key)
        } else {
            None
        },
{
}

/// After a rotation every fingerprint of the old key is stale for a secret that is held, whether it
/// matched before or not.
pub proof fn law_rotation_makes_fingerprints_stale(
    session: SessionModel,
    key: KeyModel,
    token: Seq<char>,
    old_key: KeyModel,
    profile: Seq<char>,
    secret: Seq<char>,
    value: Seq<u8>,
    other_profile: Seq<char>,
    other_secret: Seq<char>,
)
    requires
        issued(token, old_key, profile, secret, value),
        old_key.key_id != key.key_id,
        name_check(other_profile, "profile"@) is Ok,
        name_check(other_secret, "secret"@) is Ok,
        session.profiles.dom().contains(other_profile),
        session.profiles[other_profile].secrets.dom().contains(other_secret),
    ensures
        fingerprint_answer(rekeyed(session, key), other_profile, other_secret, token) == success(
            VerificationStatus::Stale,
        ),
{
    assert(session.profiles != Map::<Seq<char>, ProfileModel>::empty());
}

/// Whether a profile asks for the password at each run, and how long it is held, makes no
/// difference to the comparison with a fingerprint.
pub proof fn law_verification_needs_no_password(
    left: SessionModel,
    right: SessionModel,
    profile: Seq<char>,
    secret: Seq<char>,
    token: Seq<char>,
)
    requires
        left.key == right.key,
        left.profiles.dom().contains(profile) == right.profiles.dom().contains(profile),
        left.profiles[profile].secrets == right.profiles[profile].secrets,
    ensures
        fingerprint_answer(left, profile, secret, token) == fingerprint_answer(
            right,
            profile,
            secret,
            token,
        ),
{
}

/// The order in which the comparison with a fingerprint is decided: bad input, then a profile that
/// is not held, then a secret that is not there, then another key generation, then the tag. A
/// profile that is not held is refused whatever the token says.
pub proof fn law_fingerprint_precedence(
    session: SessionModel,
    profile: Seq<char>,
    secret: Seq<char>,
    token: Seq<char>,
)
    ensures
        ({
            let answer = fingerprint_answer(session, profile, secret, token);
            let good_input = name_check(profile, "profile"@) is Ok && name_check(
                secret,
                "secret"@,
            ) is Ok && token_fields(token) is Ok;
            let held = session.profiles.dom().contains(profile);
            let present = held && session.profiles[profile].secrets.dom().contains(secret);
            let current = token_fields(token)->Ok_0.0 == session.key->Some_0.key_id;
            let same = token_fields(token)->Ok_0.1 == tag_of(
                session.key->Some_0,
                profile,
                secret,
                session.profiles[profile].secrets[secret],
            );
            &&& answer is Ok <==> good_input && held
            &&& good_input && !held ==> answer == Err::<VerificationStatus, ErrorModel>(
                Fault::ProfileLocked { profile },
            )
            &&& answer is Ok ==> answer->Ok_0 == if !present {
                VerificationStatus::Missing
            } else if !current {
                VerificationStatus::Stale
            } else if same {
                VerificationStatus::Match
            } else {
                VerificationStatus::Mismatch
            }
        }),
{
}

/// A fingerprint that was made of an expected value says `Missing` until the named secret is
/// stored, and `Match` as soon as a profile is held in which the secret has exactly those bytes.
pub proof fn law_fingerprint_follows_the_secret(
    session: SessionModel,
    key: KeyModel,
    token: Seq<char>,
    profile: Seq<char>,
    secret: Seq<char>,
    value: Seq<u8>,
)
    requires
        issued(token, key, profile, secret, value),
        session.key == Some(key),
        name_check(profile, "profile"@) is Ok,
        name_check(secret, "secret"@) is Ok,
        session.profiles.dom().contains(profile),
    ensures
        ({
            let secrets = session.profiles[profile].secrets;
            let answer = fingerprint_answer(session, profile, secret, token);
            &&& !secrets.dom().contains(secret) ==> answer == success(VerificationStatus::Missing)
            &&& secrets.dom().contains(secret) && secrets[secret] == value ==> answer == success(
                VerificationStatus::Match,
            )
        }),
{
}

/// A profile that was unlocked is held for exactly its lifetime: the one given for this session, or
/// else its own. As integers, the time at which it expires is the time of the unlock and that many
/// seconds more, or the last time there is where that is beyond it; it is held at every time before
/// that, and gone from then on.
pub proof fn law_unlocks_last_for_the_lifetime(
    session: SessionModel,
    now: i64,
    loaded: Seq<LoadedProfile>,
    ttl_override: Option<i64>,
    zero_trust: bool,
    key: KeyModel,
    index: int,
    later: i64,
)
    requires
        0 <= index < loaded.len(),
        forall|i: int|
            index < i < loaded.len() ==> (#[trigger] loaded[i]).name@ != loaded[index].name@,
    ensures
        ({
            let after = unlocked(session, now, loaded, ttl_override, zero_trust, key);
            let name = loaded[index].name@;
            let ttl = if ttl_override is Some {
                ttl_override->Some_0 as int
            } else {
                loaded[index].ttl_seconds as int
            };
            let held = purged(after, later).profiles.dom().contains(name);
            &&& after.profiles.dom().contains(name)
            &&& i64::MIN <= now + ttl <= i64::MAX ==> {
                &&& after.profiles[name].expires_at - now == ttl
                &&& held <==> later - now < ttl
            }
            &&& now + ttl > i64::MAX ==> {
                &&& after.profiles[name].expires_at == i64::MAX
                &&& held <==> later < i64::MAX
            }
            &&& now + ttl < i64::MIN ==> {
                &&& after.profiles[name].expires_at == i64::MIN
                &&& !held
            }
        }),
{
    assert(not_loaded(loaded.skip(index + 1), loaded[index].name@)) by {
        let rest = loaded.skip(index + 1);
        assert forall|i: int| 0 <= i < rest.len() implies (#[trigger] rest[i]).name@
            != loaded[index].name@ by {
            assert(rest[i] == loaded[index + 1 + i]);
        }
    }
    law_unlock_holds_what_was_loaded(session, now, loaded, ttl_override, zero_trust, key, index);
    law_unlocks_are_bounded(session, now, loaded, ttl_override, zero_trust, key, index, later);
}

/// A profile that was unlocked holds exactly the secrets that were read from the vault, each under
/// its name and with its bytes. It asks for the password before each run exactly if that was asked
/// for, or if it was held already, had not expired and asked for it then. The key is the one that
/// was read with it.
pub proof fn law_unlocks_hold_what_was_read(
    session: SessionModel,
    now: i64,
    loaded: Seq<LoadedProfile>,
    ttl_override: Option<i64>,
    zero_trust: bool,
    key: KeyModel,
    index: int,
    place: int,
    other: Seq<char>,
)
    requires
        0 <= index < loaded.len(),
        forall|i: int|
            index < i < loaded.len() ==> (#[trigger] loaded[i]).name@ != loaded[index].name@,
    ensures
        ({
            let after = unlocked(session, now, loaded, ttl_override, zero_trust, key);
            let name = loaded[index].name@;
            let read = loaded[index].secrets@;
            let held = after.profiles[name];
            &&& after.key == Some(key)
            &&& after.profiles.dom().contains(name)
            &&& held.zero_trust <==> zero_trust || (session.profiles.dom().contains(name)
                && session.profiles[name].expires_at > now && session.profiles[name].zero_trust)
            &&& held.secrets.dom().contains(other) <==> exists|i: int|
                0 <= i < read.len() && (#[trigger] read[i]).name@ == other
            &&& 0 <= place < read.len() && (forall|i: int|
                place < i < read.len() ==> (#[trigger] read[i]).name@ != read[place].name@)
                ==> held.secrets.dom().contains(read[place].name@)
                && held.secrets[read[place].name@] == read[place].value@
        }),
{
    assert(not_loaded(loaded.skip(index + 1), loaded[index].name@)) by {
        let rest = loaded.skip(index + 1);
        assert forall|i: int| 0 <= i < rest.len() implies (#[trigger] rest[i]).name@
            != loaded[index].name@ by {
            assert(rest[i] == loaded[index + 1 + i]);
        }
    }
    law_unlock_holds_what_was_loaded(session, now, loaded, ttl_override, zero_trust, key, index);
    law_secrets_are_held_by_name(loaded[index].secrets@, place, other);
}

/// An unlock changes no other profile: it is held afterwards exactly if it was held before and has
/// not expired, with the same secrets, as long and in the same way.
pub proof fn law_unlocks_touch_no_other_profile(
    session: SessionModel,
    now: i64,
    loaded: Seq<LoadedProfile>,
    ttl_override: Option<i64>,
    zero_trust: bool,
    key: KeyModel,
    name: Seq<char>,
)
    requires
        forall|i: int| 0 <= i < loaded.len() ==> (#[trigger] loaded[i]).name@ != name,
    ensures
        ({
            let after = unlocked(session, now, loaded, ttl_override, zero_trust, key);
            &&& after.profiles.dom().contains(name) <==> session.profiles.dom().contains(name)
                && session.profiles[name].expires_at > now
            &&& after.profiles.dom().contains(name) ==> after.profiles[name]
                == session.profiles[name]
        }),
{
    law_unlock_leaves_others(session, now, loaded, ttl_override, zero_trust, key, name);
}

/// The fingerprint key stays as it was while any profile is left, and goes with the last one, when
/// profiles expire and when they are locked; a new key takes its place only while one is held.
pub proof fn law_the_key_goes_with_the_last_profile(
    session: SessionModel,
    now: i64,
    names: Seq<Seq<char>>,
    key: KeyModel,
    name: Seq<char>,
)
    ensures
        session.profiles.dom().contains(name) && session.profiles[name].expires_at > now ==> purged(
            session,
            now,
        ).key == session.key,
        (forall|other: Seq<char>| #[trigger]
            session.profiles.dom().contains(other) ==> session.profiles[other].expires_at <= now)
            ==> purged(session, now).key is None,
        names.len() > 0 && session.profiles.dom().contains(name) && !names.contains(name)
            ==> locked(session, names).key == session.key,
        (forall|other: Seq<char>| #[trigger]
            session.profiles.dom().contains(other) ==> names.len() == 0 || names.contains(other))
            ==> locked(session, names).key is None,
        rekeyed(session, key).profiles == session.profiles,
        session.profiles.dom().contains(name) ==> rekeyed(session, key).key == Some(key),
        (forall|other: Seq<char>| !(#[trigger] session.profiles.dom().contains(other)))
            ==> rekeyed(session, key).key is None,
{
    let none = Map::<Seq<char>, ProfileModel>::empty();
    if session.profiles.dom().contains(name) && session.profiles[name].expires_at > now {
        assert(unexpired(session.profiles, now).dom().contains(name));
    }
    if forall|other: Seq<char>| #[trigger]
        session.profiles.dom().contains(other) ==> session.profiles[other].expires_at <= now {
        assert(unexpired(session.profiles, now) =~= none);
    }
    if session.profiles.dom().contains(name) && !names.contains(name) {
        assert(without(session.profiles, names).dom().contains(name));
    }
    if forall|other: Seq<char>| #[trigger]
        session.profiles.dom().contains(other) ==> names.len() == 0 || names.contains(other) {
        if names.len() > 0 {
            assert(without(session.profiles, names) =~= none);
        }
    }
    if forall|other: Seq<char>| !(#[trigger] session.profiles.dom().contains(other)) {
        assert(session.profiles =~= none);
    }
}

/// Locking takes out exactly the profiles that are named, or all of them where none is named, and
/// leaves every other one as it was.
pub proof fn law_locking_takes_out_what_is_named(
    session: SessionModel,
    names: Seq<Seq<char>>,
    name: Seq<char>,
)
    ensures
        locked(session, names).profiles.dom().contains(name) <==> session.profiles.dom().contains(
            name,
        ) && names.len() > 0 && !names.contains(name),
        locked(session, names).profiles.dom().contains(name) ==> locked(
            session,
            names,
        ).profiles[name] == session.profiles[name],
{
    law_lock_takes_out_what_is_named(session, names, name);
}

proof fn lemma_first_locked_profile(
    session: SessionModel,
    profiles: Seq<(Seq<char>, ProfileManifest)>,
    from: int,
    index: int,
)
    requires
        0 <= from <= index < profiles.len(),
        forall|i: int|
            from <= i < index ==> session.profiles.dom().contains((#[trigger] profiles[i]).0),
        !session.profiles.dom().contains(profiles[index].0),
    ensures
        protected_profiles(session, profiles, from) == Err::<Seq<Seq<char>>, ErrorModel>(
            Fault::ProfileLocked { profile: profiles[index].0 },
        ),
    decreases index - from,
{
    if from < index {
        assert(session.profiles.dom().contains(profiles[from].0));
        lemma_first_locked_profile(session, profiles, from + 1, index);
    }
}

proof fn lemma_protected_in_order(
    session: SessionModel,
    profiles: Seq<(Seq<char>, ProfileManifest)>,
    from: int,
)
    requires
        0 <= from <= profiles.len(),
        in_order(profiles),
        protected_profiles(session, profiles, from) is Ok,
    ensures
        forall|k: int, l: int|
            0 <= k < l < protected_profiles(session, profiles, from)->Ok_0.len()
                ==> crate::text::text_before(
                #[trigger] protected_profiles(session, profiles, from)->Ok_0[k],
                #[trigger] protected_profiles(session, profiles, from)->Ok_0[l],
            ),
    decreases profiles.len() - from,
{
    if from < profiles.len() {
        lemma_protected_in_order(session, profiles, from + 1);
        let rest = protected_profiles(session, profiles, from + 1)->Ok_0;
        let whole = protected_profiles(session, profiles, from)->Ok_0;
        let first = profiles[from].0;
        assert forall|k: int, l: int| 0 <= k < l < whole.len() implies crate::text::text_before(
            #[trigger] whole[k],
            #[trigger] whole[l],
        ) by {
            if session.profiles[first].zero_trust {
                assert(whole[l] == rest[l - 1]);
                if k > 0 {
                    assert(whole[k] == rest[k - 1]);
                } else {
                    lemma_protected_profiles_are_those(session, profiles, from + 1, rest[l - 1]);
                    assert(rest.contains(rest[l - 1]));
                    let i = choose|i: int|
                        from + 1 <= i < profiles.len() && (#[trigger] profiles[i]).0 == rest[l - 1];
                    assert(crate::text::text_before(profiles[from].0, profiles[i].0));
                }
            } else {
                assert(whole[k] == rest[k] && whole[l] == rest[l]);
            }
        }
    }
}

/// The profiles that ask for the password before a run are exactly those of the manifest that are
/// held and ask for it, each once and in the order of the names; where a profile of the manifest is
/// not held, the run is refused for the first such profile.
pub proof fn law_the_password_is_asked_for_by_those_that_want_it(
    session: SessionModel,
    manifest: Manifest,
    name: Seq<char>,
    index: int,
)
    requires
        in_order(manifest.profiles@),
    ensures
        ({
            let profiles = manifest.profiles@;
            let answer = protected_profiles(session, profiles, 0);
            &&& answer matches Ok(asking) ==> {
                &&& asking.contains(name) <==> session.profiles[name].zero_trust && exists|i: int|
                    0 <= i < profiles.len() && (#[trigger] profiles[i]).0 == name
                &&& forall|k: int, l: int|
                    0 <= k < l < asking.len() ==> crate::text::text_before(
                        #[trigger] asking[k],
                        #[trigger] asking[l],
                    )
            }
            &&& (forall|i: int|
                0 <= i < profiles.len() ==> session.profiles.dom().contains(
                    (#[trigger] profiles[i]).0,
                )) ==> answer is Ok
            &&& 0 <= index < profiles.len() && !session.profiles.dom().contains(profiles[index].0)
                && (forall|i: int|
                0 <= i < index ==> session.profiles.dom().contains((#[trigger] profiles[i]).0))
                ==> answer == Err::<Seq<Seq<char>>, ErrorModel>(
                Fault::ProfileLocked { profile: profiles[index].0 },
            )
        }),
{
    let profiles = manifest.profiles@;
    law_locked_profiles_refuse_runs(session, manifest);
    if protected_profiles(session, profiles, 0) is Ok {
        lemma_protected_profiles_are_those(session, profiles, 0, name);
        lemma_protected_in_order(session, profiles, 0);
    }
    if 0 <= index < profiles.len() && !session.profiles.dom().contains(profiles[index].0) && forall|
        i: int,
    |
        0 <= i < index ==> session.profiles.dom().contains((#[trigger] profiles[i]).0) {
        lemma_first_locked_profile(session, profiles, 0, index);
    }
}

/// A run delivers for each binding of its manifest the bytes that are held under the names of its
/// profile and its secret, as the binding says, and nothing for which there is no such binding.
pub proof fn law_deliveries_bear_what_is_held(
    session: SessionModel,
    manifest: Manifest,
    i: int,
    j: int,
    k: int,
)
    requires
        deliveries_of(session, manifest.profiles@, 0) is Ok,
    ensures
        ({
            let out = deliveries_of(session, manifest.profiles@, 0)->Ok_0;
            let profiles = manifest.profiles@;
            &&& 0 <= i < profiles.len() && 0 <= j < profiles[i].1.secrets@.len() ==> exists|m: int|
                0 <= m < out.len() && (#[trigger] out[m]).binding == profiles[i].1.secrets@[j].1@
                    && out[m].value
                    == session.profiles[profiles[i].0].secrets[profiles[i].1.secrets@[j].0]
            &&& 0 <= k < out.len() ==> exists|a: int, b: int|
                0 <= a < profiles.len() && 0 <= b < profiles[a].1.secrets@.len() && out[k].binding
                    == (#[trigger] profiles[a].1.secrets@[b]).1@ && out[k].value
                    == session.profiles[profiles[a].0].secrets[profiles[a].1.secrets@[b].0]
        }),
{
    let profiles = manifest.profiles@;
    let out = deliveries_of(session, profiles, 0)->Ok_0;
    law_deliveries_are_what_was_asked_for(session, manifest);
    if bound_at(profiles, i, j) {
        let wanted = asked_for(session, profiles, i, j);
        assert(out.contains(wanted));
        let m = choose|m: int| 0 <= m < out.len() && out[m] == wanted;
        assert(out[m].binding == wanted.binding);
    }
    if 0 <= k < out.len() {
        assert(asked_for_somewhere(session, profiles, 0, out[k]));
        let (a, b) = choose|a: int, b: int|
            0 <= a && #[trigger] bound_at(profiles, a, b) && out[k] == asked_for(
                session,
                profiles,
                a,
                b,
            );
        assert(profiles[a].1.secrets@[b].1@ == out[k].binding);
    }
}

/// The number of bindings of a manifest is the sum over its profiles.
pub proof fn law_bindings_are_counted_by_profile(
    profiles: Seq<(Seq<char>, ProfileManifest)>,
    from: int,
)
    ensures
        0 <= from < profiles.len() ==> binding_count(profiles, from)
            == profiles[from].1.secrets@.len() + binding_count(profiles, from + 1),
        from == profiles.len() ==> binding_count(profiles, from) == 0,
{
}

proof fn lemma_profile_deliveries_fault(
    profile: Seq<char>,
    held: ProfileModel,
    secrets: Seq<(Seq<char>, Binding)>,
    from: int,
)
    requires
        0 <= from <= secrets.len(),
    ensures
        profile_deliveries(profile, held, secrets, from) matches Err(fault) ==> exists|j: int|
            from <= j < secrets.len() && !held.secrets.dom().contains((#[trigger] secrets[j]).0)
                && fault == (Fault::SecretMissing { profile, name: secrets[j].0 }),
    decreases secrets.len() - from,
{
    if from < secrets.len() {
        lemma_profile_deliveries_fault(profile, held, secrets, from + 1);
    }
}

proof fn lemma_deliveries_fault(
    session: SessionModel,
    profiles: Seq<(Seq<char>, ProfileManifest)>,
    from: int,
)
    requires
        0 <= from <= profiles.len(),
    ensures
        deliveries_of(session, profiles, from) matches Err(fault) ==> {
            ||| exists|i: int|
                from <= i < profiles.len() && !session.profiles.dom().contains(
                    (#[trigger] profiles[i]).0,
                ) && fault == (Fault::ProfileLocked { profile: profiles[i].0 })
            ||| exists|i: int, j: int|
                from <= i && #[trigger] bound_at(profiles, i, j)
                    && session.profiles.dom().contains(profiles[i].0)
                    && !session.profiles[profiles[i].0].secrets.dom().contains(
                    profiles[i].1.secrets@[j].0,
                ) && fault == (Fault::SecretMissing {
                    profile: profiles[i].0,
                    name: profiles[i].1.secrets@[j].0,
                })
        },
    decreases profiles.len() - from,
{
    if from < profiles.len() {
        lemma_deliveries_fault(session, profiles, from + 1);
        let (name, manifest) = profiles[from];
        let secrets = manifest.secrets@;
        if session.profiles.dom().contains(name) {
            let held = session.profiles[name];
            lemma_profile_deliveries_fault(name, held, secrets, 0);
            if let Err(fault) = profile_deliveries(name, held, secrets, 0) {
                let j = choose|j: int|
                    0 <= j < secrets.len() && !held.secrets.dom().contains((#[trigger] secrets[j]).0)
                        && fault == (Fault::SecretMissing { profile: name, name: secrets[j].0 });
                assert(bound_at(profiles, from, j));
            }
        } else {
            assert(!session.profiles.dom().contains(profiles[from].0));
        }
    }
}

/// The secrets of a run are handed out exactly if every profile of its manifest is held and every
/// secret that it binds is in its profile; otherwise the error names a profile that is not held, or
/// a secret that is not there together with its profile.
pub proof fn law_secrets_are_handed_out_if_they_are_there(
    session: SessionModel,
    manifest: Manifest,
)
    ensures
        ({
            let profiles = manifest.profiles@;
            let answer = deliveries_of(session, profiles, 0);
            &&& answer is Ok <==> {
                &&& forall|i: int|
                    0 <= i < profiles.len() ==> session.profiles.dom().contains(
                        (#[trigger] profiles[i]).0,
                    )
                &&& forall|i: int, j: int|
                    0 <= i < profiles.len() && 0 <= j < profiles[i].1.secrets@.len()
                        ==> session.profiles[profiles[i].0].secrets.dom().contains(
                        (#[trigger] profiles[i].1.secrets@[j]).0,
                    )
            }
            &&& answer matches Err(fault) ==> {
                ||| exists|i: int|
                    0 <= i < profiles.len() && !session.profiles.dom().contains(
                        (#[trigger] profiles[i]).0,
                    ) && fault == (Fault::ProfileLocked { profile: profiles[i].0 })
                ||| exists|i: int, j: int|
                    0 <= i < profiles.len() && 0 <= j < profiles[i].1.secrets@.len()
                        && session.profiles.dom().contains(profiles[i].0)
                        && !session.profiles[profiles[i].0].secrets.dom().contains(
                        (#[trigger] profiles[i].1.secrets@[j]).0,
                    ) && fault == (Fault::SecretMissing {
                        profile: profiles[i].0,
                        name: profiles[i].1.secrets@[j].0,
                    })
            }
        }),
{
    let profiles = manifest.profiles@;
    lemma_deliveries_fault(session, profiles, 0);
    let all_held = forall|i: int|
        0 <= i < profiles.len() ==> session.profiles.dom().contains((#[trigger] profiles[i]).0);
    let all_there = forall|i: int, j: int|
        0 <= i < profiles.len() && 0 <= j < profiles[i].1.secrets@.len()
            ==> session.profiles[profiles[i].0].secrets.dom().contains(
            (#[trigger] profiles[i].1.secrets@[j]).0,
        );
    if all_held && all_there {
        assert forall|i: int, j: int| #[trigger] bound_at(profiles, i, j) implies available(
            session,
            profiles,
            i,
            j,
        ) by {
            assert(session.profiles[profiles[i].0].secrets.dom().contains(
                profiles[i].1.secrets@[j].0,
            ));
        }
        lemma_deliveries_exist(session, profiles, 0);
    }
    if deliveries_of(session, profiles, 0) is Ok {
        lemma_deliveries_need_all(session, profiles, 0);
    }
    if let Err(fault) = deliveries_of(session, profiles, 0) {
        if exists|i: int, j: int|
            0 <= i && #[trigger] bound_at(profiles, i, j) && session.profiles.dom().contains(
                profiles[i].0,
            ) && !session.profiles[profiles[i].0].secrets.dom().contains(
                profiles[i].1.secrets@[j].0,
            ) && fault == (Fault::SecretMissing {
                profile: profiles[i].0,
                name: profiles[i].1.secrets@[j].0,
            }) {
            let (i, j) = choose|i: int, j: int|
                0 <= i && #[trigger] bound_at(profiles, i, j) && session.profiles.dom().contains(
                    profiles[i].0,
                ) && !session.profiles[profiles[i].0].secrets.dom().contains(
                    profiles[i].1.secrets@[j].0,
                ) && fault == (Fault::SecretMissing {
                    profile: profiles[i].0,
                    name: profiles[i].1.secrets@[j].0,
                });
            assert(!session.profiles[profiles[i].0].secrets.dom().contains(
                profiles[i].1.secrets@[j].0,
            ));
        }
    }
}

proof fn lemma_deliveries_need_all(
    session: SessionModel,
    profiles: Seq<(Seq<char>, ProfileManifest)>,
    from: int,
)
    requires
        0 <= from <= profiles.len(),
        deliveries_of(session, profiles, from) is Ok,
    ensures
        forall|i: int|
            from <= i < profiles.len() ==> session.profiles.dom().contains(
                (#[trigger] profiles[i]).0,
            ),
        forall|i: int, j: int|
            from <= i < profiles.len() && 0 <= j < profiles[i].1.secrets@.len()
                ==> session.profiles[profiles[i].0].secrets.dom().contains(
                (#[trigger] profiles[i].1.secrets@[j]).0,
            ),
    decreases profiles.len() - from,
{
    if from < profiles.len() {
        lemma_deliveries_need_all(session, profiles, from + 1);
        let (name, manifest) = profiles[from];
        lemma_profile_deliveries_exist(name, session.profiles[name], manifest.secrets@, 0);
    }
}

/// What is told of a profile is what is held of it, and a delivery says what it holds.
pub proof fn law_statuses_say_what_they_hold(told: Seq<ProfileStatus>, delivery: Delivery)
    ensures
        status_entries(told).len() == told.len(),
        forall|i: int|
            0 <= i < told.len() ==> {
                let (name, status) = #[trigger] status_entries(told)[i];
                &&& name == told[i].name@
                &&& status.expires_at == told[i].expires_at
                &&& status.zero_trust == told[i].zero_trust
            },
        delivery@.binding == delivery.binding@,
        delivery@.value == delivery.value@,
{
}

proof fn lemma_profile_deliveries_from(
    profile: Seq<char>,
    held: ProfileModel,
    secrets: Seq<(Seq<char>, Binding)>,
    from: int,
    j: int,
)
    requires
        0 <= from <= j < secrets.len(),
        forall|k: int| from <= k < j ==> held.secrets.dom().contains((#[trigger] secrets[k]).0),
        !held.secrets.dom().contains(secrets[j].0),
    ensures
        profile_deliveries(profile, held, secrets, from) == Err::<Seq<DeliveryModel>, ErrorModel>(
            Fault::SecretMissing { profile, name: secrets[j].0 },
        ),
    decreases j - from,
{
    if from < j {
        assert(held.secrets.dom().contains(secrets[from].0));
        lemma_profile_deliveries_from(profile, held, secrets, from + 1, j);
    }
}

/// What a run is refused for whose secrets are not all there: in the order of the profiles and of
/// their secrets, the first profile that is not held or the first secret that is not in its
/// profile.
pub proof fn law_the_first_missing_secret_is_named(
    session: SessionModel,
    profiles: Seq<(Seq<char>, ProfileManifest)>,
    from: int,
    i: int,
    j: int,
)
    requires
        0 <= from <= i < profiles.len(),
        forall|k: int|
            from <= k < i ==> session.profiles.dom().contains((#[trigger] profiles[k]).0),
        forall|k: int, l: int|
            from <= k < i && 0 <= l < profiles[k].1.secrets@.len()
                ==> session.profiles[profiles[k].0].secrets.dom().contains(
                (#[trigger] profiles[k].1.secrets@[l]).0,
            ),
    ensures
        ({
            let answer = deliveries_of(session, profiles, from);
            let (name, bindings) = profiles[i];
            let secrets = bindings.secrets@;
            let held = session.profiles[name].secrets;
            &&& !session.profiles.dom().contains(name) ==> answer == Err::<
                Seq<DeliveryModel>,
                ErrorModel,
            >(Fault::ProfileLocked { profile: name })
            &&& session.profiles.dom().contains(name) && 0 <= j < secrets.len()
                && !held.dom().contains(secrets[j].0) && (forall|k: int|
                0 <= k < j ==> held.dom().contains((#[trigger] secrets[k]).0)) ==> answer == Err::<
                Seq<DeliveryModel>,
                ErrorModel,
            >(Fault::SecretMissing { profile: name, name: secrets[j].0 })
        }),
    decreases i - from,
{
    let (name, bindings) = profiles[i];
    let secrets = bindings.secrets@;
    if from < i {
        let (first, own) = profiles[from];
        assert(session.profiles.dom().contains(profiles[from].0));
        assert forall|l: int| 0 <= l < own.secrets@.len() implies session.profiles[first]
            .secrets.dom().contains((#[trigger] own.secrets@[l]).0) by {
            assert(session.profiles[profiles[from].0].secrets.dom().contains(
                profiles[from].1.secrets@[l].0,
            ));
        }
        lemma_profile_deliveries_exist(first, session.profiles[first], own.secrets@, 0);
        law_the_first_missing_secret_is_named(session, profiles, from + 1, i, j);
    } else if session.profiles.dom().contains(name) && 0 <= j < secrets.len()
        && !session.profiles[name].secrets.dom().contains(secrets[j].0) && forall|k: int|
        0 <= k < j ==> session.profiles[name].secrets.dom().contains((#[trigger] secrets[k]).0) {
        lemma_profile_deliveries_from(name, session.profiles[name], secrets, 0, j);
    }
}

/// What the comparison with a fingerprint is refused for: a profile name that is no good name, then
/// such a secret name, then a fingerprint that is not well formed, then a profile that is not held.
pub proof fn law_refused_comparisons(
    session: SessionModel,
    profile: Seq<char>,
    secret: Seq<char>,
    token: Seq<char>,
)
    ensures
        ({
            let answer = fingerprint_answer(session, profile, secret, token);
            let owner = name_check(profile, "profile"@);
            let own = name_check(secret, "secret"@);
            let fields = token_fields(token);
            let refused = |fault: ErrorModel| Err::<VerificationStatus, ErrorModel>(fault);
            &&& owner is Err ==> answer == refused(owner->Err_0)
            &&& owner is Ok && own is Err ==> answer == refused(own->Err_0)
            &&& owner is Ok && own is Ok && fields is Err ==> answer == refused(fields->Err_0)
            &&& owner is Ok && own is Ok && fields is Ok && !session.profiles.dom().contains(
                profile,
            ) ==> answer == refused(Fault::ProfileLocked { profile })
        }),
{
}

} // verus!
