//! Credentials with the password in the keychain of the system.

use crate::config::clone_opt;
use crate::config_io::{
    file_error, password_in, plaintext_app_password, strip_credential_password, stripped,
    stripping_takes_one_password,
};
use crate::credentials::{
    credential_in, credentials_readable, entry_of, lookup_view, overridden, secret_view,
    CredentialStore, EnvConfigStore, Secret, SecretModel,
};
use crate::error::{CoreError, Result};
use crate::text::{debug_quoted, debug_text, opt_view, same_text};
use crate::toml_tree::{branch, has_key, toml_parsed, toml_written, well_nested, TomlMap};
use vstd::prelude::*;

verus! {

/// The view of what a keychain answers.
pub open spec fn answer_view(r: std::result::Result<Option<String>, String>) -> std::result::Result<
    Option<Seq<char>>,
    Seq<char>,
> {
    match r {
        Ok(s) => Ok(opt_view(s)),
        Err(e) => Err(e@),
    }
}

/// The error of a keychain that did not do as it was told.
pub open spec fn failure(r: std::result::Result<(), String>) -> Option<Seq<char>> {
    match r {
        Ok(_) => None,
        Err(e) => Some(e@),
    }
}

/// A keychain: secrets by service and account.
pub trait KeyringBackend: Send + Sync {
    /// True of the answers that a lookup can have: of all of them, where an
    /// implementation does not say otherwise.
    open spec fn answers(
        &self,
        service: Seq<char>,
        account: Seq<char>,
        r: std::result::Result<Option<Seq<char>>, Seq<char>>,
    ) -> bool {
        true
    }

    /// True of the outcomes that storing a secret can have, likewise.
    open spec fn stores(
        &self,
        service: Seq<char>,
        account: Seq<char>,
        secret: Seq<char>,
        after: &Self,
        failed: Option<Seq<char>>,
    ) -> bool {
        true
    }

    /// True of the outcomes that removing a secret can have, likewise.
    open spec fn removes(
        &self,
        service: Seq<char>,
        account: Seq<char>,
        after: &Self,
        failed: Option<Seq<char>>,
    ) -> bool {
        true
    }

    /// The secret of an account, if there is one.
    fn get(&self, service: &str, account: &str) -> (r: std::result::Result<Option<String>, String>)
        ensures
            self.answers(service@, account@, answer_view(r)),
    ;

    /// Stores the secret of an account, in place of the one that it had.
    fn set(&mut self, service: &str, account: &str, secret: &str) -> (r: std::result::Result<
        (),
        String,
    >)
        ensures
            old(self).stores(service@, account@, secret@, final(self), failure(r)),
    ;

    /// Removes the secret of an account. To remove none is no error.
    fn delete(&mut self, service: &str, account: &str) -> (r: std::result::Result<(), String>)
        ensures
            old(self).removes(service@, account@, final(self), failure(r)),
    ;
}

// ---- a keychain in memory ---------------------------------------------------

/// A secret with its service and account.
pub struct KeyringEntry<S = String> {
    pub service: S,
    pub account: S,
    pub secret: S,
}

impl View for KeyringEntry<String> {
    type V = KeyringEntry<Seq<char>>;

    open spec fn view(&self) -> KeyringEntry<Seq<char>> {
        KeyringEntry { service: self.service@, account: self.account@, secret: self.secret@ }
    }
}

/// True of the entry of an account.
spec fn is_for(e: KeyringEntry, service: Seq<char>, account: Seq<char>) -> bool {
    e.service@ == service && e.account@ == account
}

/// The secret of an account in a list of entries.
spec fn found(entries: Seq<KeyringEntry>, service: Seq<char>, account: Seq<char>) -> Option<
    Seq<char>,
>
    decreases entries.len(),
{
    if entries.len() == 0 {
        None
    } else if is_for(entries.last(), service, account) {
        Some(entries.last().secret@)
    } else {
        found(entries.drop_last(), service, account)
    }
}

/// A keychain that forgets everything with the process.
pub struct MemoryKeyring {
    entries: Vec<KeyringEntry>,
}

impl MemoryKeyring {
    /// The secret of an account, if there is one.
    pub closed spec fn secret_at(self, service: Seq<char>, account: Seq<char>) -> Option<Seq<char>> {
        found(self.entries@, service, account)
    }

    /// A keychain without secrets.
    pub fn new() -> (r: Self)
        ensures
            forall|s: Seq<char>, a: Seq<char>| #[trigger] r.secret_at(s, a) is None,
    {
        MemoryKeyring { entries: Vec::new() }
    }

    /// Removes the secret of an account.
    fn forget(&mut self, service: &str, account: &str)
        ensures
            forall|s: Seq<char>, a: Seq<char>| #[trigger]
                final(self).secret_at(s, a) == (if s == service@ && a == account@ {
                    None
                } else {
                    old(self).secret_at(s, a)
                }),
    {
        let mut kept: Vec<KeyringEntry> = Vec::new();
        let mut i: usize = 0;
        while i < self.entries.len()
            invariant
                i <= self.entries@.len(),
                self.entries@ == old(self).entries@,
                forall|s: Seq<char>, a: Seq<char>| #[trigger]
                    found(kept@, s, a) == (if s == service@ && a == account@ {
                        None
                    } else {
                        found(self.entries@.take(i as int), s, a)
                    }),
            decreases self.entries.len() - i,
        {
            let e = &self.entries[i];
            let ghost seen = self.entries@.take(i as int);
            let ghost before = kept@;
            proof {
                assert(self.entries@.take(i + 1) =~= seen.push(*e));
                assert(seen.push(*e).drop_last() =~= seen);
                assert(seen.push(*e).last() == *e);
            }
            if !(same_text(e.service.as_str(), service) && same_text(e.account.as_str(), account)) {
                let copy = KeyringEntry {
                    service: e.service.clone(),
                    account: e.account.clone(),
                    secret: e.secret.clone(),
                };
                kept.push(copy);
                assert(kept@.drop_last() =~= before);
                assert(kept@.last() == copy);
            }
            proof {
                assert forall|s: Seq<char>, a: Seq<char>| #[trigger]
                    found(kept@, s, a) == (if s == service@ && a == account@ {
                        None
                    } else {
                        found(self.entries@.take(i + 1), s, a)
                    }) by {
                    assert(found(before, s, a) == (if s == service@ && a == account@ {
                        None
                    } else {
                        found(seen, s, a)
                    }));
                }
            }
            i += 1;
        }
        assert(self.entries@.take(i as int) =~= self.entries@);
        self.entries = kept;
    }
}

impl Default for MemoryKeyring {
    fn default() -> (r: Self)
        ensures
            forall|s: Seq<char>, a: Seq<char>| #[trigger] r.secret_at(s, a) is None,
    {
        MemoryKeyring::new()
    }
}

impl KeyringBackend for MemoryKeyring {
    open spec fn answers(
        &self,
        service: Seq<char>,
        account: Seq<char>,
        r: std::result::Result<Option<Seq<char>>, Seq<char>>,
    ) -> bool {
        r == Ok::<Option<Seq<char>>, Seq<char>>(self.secret_at(service, account))
    }

    open spec fn stores(
        &self,
        service: Seq<char>,
        account: Seq<char>,
        secret: Seq<char>,
        after: &Self,
        failed: Option<Seq<char>>,
    ) -> bool {
        &&& failed is None
        &&& forall|s: Seq<char>, a: Seq<char>| #[trigger]
            after.secret_at(s, a) == (if s == service && a == account {
                Some(secret)
            } else {
                self.secret_at(s, a)
            })
    }

    open spec fn removes(
        &self,
        service: Seq<char>,
        account: Seq<char>,
        after: &Self,
        failed: Option<Seq<char>>,
    ) -> bool {
        &&& failed is None
        &&& forall|s: Seq<char>, a: Seq<char>| #[trigger]
            after.secret_at(s, a) == (if s == service && a == account {
                None
            } else {
                self.secret_at(s, a)
            })
    }

    fn get(&self, service: &str, account: &str) -> (r: std::result::Result<Option<String>, String>) {
        let mut i: usize = self.entries.len();
        assert(self.entries@.take(i as int) =~= self.entries@);
        while i > 0
            invariant
                i <= self.entries@.len(),
                found(self.entries@, service@, account@) == found(
                    self.entries@.take(i as int),
                    service@,
                    account@,
                ),
            decreases i,
        {
            let e = &self.entries[i - 1];
            let ghost seen = self.entries@.take(i as int);
            proof {
                assert(seen.last() == *e);
                assert(seen.drop_last() =~= self.entries@.take(i - 1));
            }
            if same_text(e.service.as_str(), service) && same_text(e.account.as_str(), account) {
                let secret = Some(e.secret.clone());
                assert(opt_view(secret) == self.secret_at(service@, account@));
                return Ok(secret);
            }
            i -= 1;
        }
        Ok(None)
    }

    fn set(&mut self, service: &str, account: &str, secret: &str) -> (r: std::result::Result<
        (),
        String,
    >) {
        self.forget(service, account);
        let entry = KeyringEntry {
            service: service.to_owned(),
            account: account.to_owned(),
            secret: secret.to_owned(),
        };
        let ghost forgotten = *self;
        let ghost before = self.entries@;
        self.entries.push(entry);
        proof {
            assert(self.entries@.drop_last() =~= before);
            assert(self.entries@.last() == entry);
            assert forall|s: Seq<char>, a: Seq<char>| #[trigger]
                self.secret_at(s, a) == (if s == service@ && a == account@ {
                    Some(secret@)
                } else {
                    old(self).secret_at(s, a)
                }) by {
                assert(forgotten.secret_at(s, a) == found(before, s, a));
            }
        }
        Ok(())
    }

    fn delete(&mut self, service: &str, account: &str) -> (r: std::result::Result<(), String>) {
        self.forget(service, account);
        Ok(())
    }
}

// ---- how a credential is resolved -------------------------------------------

/// The credential that the sources come to. The password is that of the
/// environment, else that of the keychain, else that of the configuration file, where
/// an empty one counts as none; without a password there is no credential. The user
/// name is that of the environment, else that of the file, else empty. A keychain
/// that cannot be read is an error.
pub open spec fn resolved(
    env_username: Option<Seq<char>>,
    env_app_password: Option<Seq<char>>,
    keychain: std::result::Result<Option<Seq<char>>, Seq<char>>,
    fallback: Option<SecretModel>,
) -> std::result::Result<Option<SecretModel>, CoreError<Seq<char>>> {
    match keychain {
        Err(e) => Err(CoreError::Config(e)),
        Ok(stored) => {
            let password = match (env_app_password, stored, fallback) {
                (Some(p), _, _) => Some(p),
                (None, Some(p), _) => Some(p),
                (None, None, Some(f)) => if f.app_password.len() > 0 {
                    Some(f.app_password)
                } else {
                    None
                },
                (None, None, None) => None,
            };
            let username = match (env_username, fallback) {
                (Some(u), _) => u,
                (None, Some(f)) => f.username,
                (None, None) => seq![],
            };
            match password {
                Some(app_password) => Ok(Some(SecretModel { username, app_password })),
                None => Ok(None),
            }
        },
    }
}

/// The credential that the sources come to.
pub fn resolve(
    env_username: &Option<String>,
    env_app_password: &Option<String>,
    keychain: std::result::Result<Option<String>, String>,
    fallback: Option<Secret>,
) -> (r: Result<Option<Secret>>)
    ensures
        lookup_view(r) == resolved(
            opt_view(*env_username),
            opt_view(*env_app_password),
            answer_view(keychain),
            secret_view(fallback),
        ),
{
    let stored = match keychain {
        Ok(s) => s,
        Err(e) => return Err(CoreError::Config(e)),
    };
    let password = match env_app_password {
        Some(p) => Some(p.clone()),
        None => match stored {
            Some(p) => Some(p),
            None => match &fallback {
                Some(f) => if f.app_password.as_str().is_empty() {
                    None
                } else {
                    Some(f.app_password.clone())
                },
                None => None,
            },
        },
    };
    match password {
        Some(app_password) => {
            let username = match env_username {
                Some(u) => u.clone(),
                None => match &fallback {
                    Some(f) => f.username.clone(),
                    None => String::new(),
                },
            };
            assert(opt_view(*env_username) is None && secret_view(fallback) is None ==> username@
                =~= seq![]);
            Ok(Some(Secret { username, app_password }))
        },
        None => Ok(None),
    }
}

/// A credential store over a keychain, with overrides from the environment and the
/// configuration file to fall back on.
pub struct KeyringCredentialStore<B> {
    service: String,
    backend: B,
    env_username: Option<String>,
    env_app_password: Option<String>,
    fallback: Option<EnvConfigStore>,
}

impl<B> KeyringCredentialStore<B> {
    /// The service under which the passwords stand.
    pub closed spec fn service(self) -> Seq<char> {
        self.service@
    }

    /// The keychain.
    pub closed spec fn keychain(self) -> B {
        self.backend
    }

    /// The user name that the environment overrides with.
    pub closed spec fn env_username(self) -> Option<Seq<char>> {
        opt_view(self.env_username)
    }

    /// The password that the environment overrides with.
    pub closed spec fn env_app_password(self) -> Option<Seq<char>> {
        opt_view(self.env_app_password)
    }

    /// The store to fall back on.
    pub closed spec fn fallback(self) -> Option<EnvConfigStore> {
        self.fallback
    }

    /// The credential of `id` to fall back on.
    pub open spec fn fallback_of(self, id: Seq<char>) -> Option<SecretModel> {
        match self.fallback() {
            Some(f) => f.secret_of(id),
            None => None,
        }
    }

    /// True if the stores agree on everything but the keychain.
    pub open spec fn differs_in_keychain(self, other: Self) -> bool {
        &&& self.service() == other.service()
        &&& self.env_username() == other.env_username()
        &&& self.env_app_password() == other.env_app_password()
        &&& self.fallback() == other.fallback()
    }
}

impl<B: KeyringBackend> KeyringCredentialStore<B> {
    /// A store over the given sources.
    pub fn new(
        service: &str,
        backend: B,
        env_username: Option<String>,
        env_app_password: Option<String>,
        fallback: Option<EnvConfigStore>,
    ) -> (r: Self)
        ensures
            r.service() == service@,
            r.keychain() == backend,
            r.env_username() == opt_view(env_username),
            r.env_app_password() == opt_view(env_app_password),
            r.fallback() == fallback,
    {
        KeyringCredentialStore {
            service: service.to_owned(),
            backend,
            env_username,
            env_app_password,
            fallback,
        }
    }

    /// The keychain, to read.
    pub fn backend(&self) -> (r: &B)
        ensures
            *r == self.keychain(),
    {
        &self.backend
    }

    /// Takes the configuration file in anew; `raw` is its text. A file that is
    /// missing or cannot be read leaves nothing to fall back on.
    pub fn refresh_fallback_from_file(&mut self, raw: Option<&str>)
        ensures
            final(self).service() == old(self).service(),
            final(self).keychain() == old(self).keychain(),
            final(self).env_username() == old(self).env_username(),
            final(self).env_app_password() == old(self).env_app_password(),
            match raw {
                Some(text) => match toml_parsed(text@) {
                    Ok(doc) => if credentials_readable(doc) {
                        &&& final(self).fallback() is Some
                        &&& forall|id: Seq<char>| #[trigger]
                            final(self).fallback_of(id) == overridden(
                                credential_in(doc, id),
                                old(self).env_username(),
                                old(self).env_app_password(),
                            )
                    } else {
                        final(self).fallback() is None
                    },
                    Err(_) => final(self).fallback() is None,
                },
                None => final(self).fallback() is None,
            },
    {
        self.fallback = match raw {
            Some(text) => match EnvConfigStore::from_toml_str(
                text,
                clone_opt(&self.env_username),
                clone_opt(&self.env_app_password),
            ) {
                Ok(store) => Some(store),
                Err(_) => None,
            },
            None => None,
        };
        proof {
            if let Some(text) = raw {
                if let Ok(doc) = toml_parsed(text@) {
                    if let Some(f) = self.fallback() {
                        assert forall|id: Seq<char>| #[trigger]
                            self.fallback_of(id) == overridden(
                                credential_in(doc, id),
                                old(self).env_username(),
                                old(self).env_app_password(),
                            ) by {
                            assert(entry_of(f.entries(), id) == credential_in(doc, id));
                        }
                    }
                }
            }
        }
    }

    /// The credential of `id` to fall back on.
    fn fallback_secret(&self, id: &str) -> (r: Option<Secret>)
        ensures
            secret_view(r) == self.fallback_of(id@),
    {
        match &self.fallback {
            Some(store) => match store.get(id) {
                Ok(s) => s,
                Err(_) => None,
            },
            None => None,
        }
    }

    /// Stores the password of `destination_id` in the keychain.
    pub fn set_password(&mut self, destination_id: &str, app_password: &str) -> (r:
        std::result::Result<(), String>)
        ensures
            final(self).differs_in_keychain(*old(self)),
            old(self).keychain().stores(
                old(self).service(),
                destination_id@,
                app_password@,
                &final(self).keychain(),
                failure(r),
            ),
    {
        self.backend.set(self.service.as_str(), destination_id, app_password)
    }

    /// Removes the password of `destination_id` from the keychain.
    pub fn delete_password(&mut self, destination_id: &str) -> (r: std::result::Result<(), String>)
        ensures
            final(self).differs_in_keychain(*old(self)),
            old(self).keychain().removes(
                old(self).service(),
                destination_id@,
                &final(self).keychain(),
                failure(r),
            ),
    {
        self.backend.delete(self.service.as_str(), destination_id)
    }

    /// True of what `has_password` can say of `id`.
    pub open spec fn may_have(self, id: Seq<char>, r: bool) -> bool {
        if self.env_app_password() is Some {
            r
        } else {
            exists|k: std::result::Result<Option<Seq<char>>, Seq<char>>| #[trigger]
                self.keychain().answers(self.service(), id, k) && r == offers_password(
                    k,
                    self.fallback_of(id),
                )
        }
    }

    /// True if some source has a password for `destination_id`. A keychain that
    /// cannot be read has none.
    pub fn has_password(&self, destination_id: &str) -> (r: bool)
        ensures
            self.may_have(destination_id@, r),
    {
        if self.env_app_password.is_some() {
            return true;
        }
        let stored = self.backend.get(self.service.as_str(), destination_id);
        assert(self.keychain().answers(self.service(), destination_id@, answer_view(stored)));
        let fallback = self.fallback_secret(destination_id);
        has_one(&stored, &fallback)
    }
}

/// True if the keychain or the configuration file has a password.
pub open spec fn offers_password(
    keychain: std::result::Result<Option<Seq<char>>, Seq<char>>,
    fallback: Option<SecretModel>,
) -> bool {
    ||| keychain matches Ok(Some(_))
    ||| fallback matches Some(f) && f.app_password.len() > 0
}

/// True if the keychain or the configuration file has a password.
pub fn has_one(
    keychain: &std::result::Result<Option<String>, String>,
    fallback: &Option<Secret>,
) -> (r: bool)
    ensures
        r == offers_password(answer_view(*keychain), secret_view(*fallback)),
{
    let stored = match keychain {
        Ok(s) => s.is_some(),
        Err(_) => false,
    };
    stored || match fallback {
        Some(f) => !f.app_password.as_str().is_empty(),
        None => false,
    }
}

impl<B: KeyringBackend> CredentialStore for KeyringCredentialStore<B> {
    open spec fn answers(
        &self,
        id: Seq<char>,
        r: std::result::Result<Option<SecretModel>, CoreError<Seq<char>>>,
    ) -> bool {
        exists|k: std::result::Result<Option<Seq<char>>, Seq<char>>| #[trigger]
            self.keychain().answers(self.service(), id, k) && r == resolved(
                self.env_username(),
                self.env_app_password(),
                k,
                self.fallback_of(id),
            )
    }

    fn get(&self, destination_id: &str) -> (r: Result<Option<Secret>>) {
        let fallback = self.fallback_secret(destination_id);
        let stored = self.backend.get(self.service.as_str(), destination_id);
        assert(self.keychain().answers(self.service(), destination_id@, answer_view(stored)));
        resolve(&self.env_username, &self.env_app_password, stored, fallback)
    }
}

// ---- from the configuration file into the keychain --------------------------

/// The error where the configuration file holds no password to move.
pub open spec fn nothing_to_move(id: Seq<char>) -> Seq<char> {
    "no plaintext password for "@ + debug_quoted(id) + " in config"@
}

/// The password of `id` that stands in the text of a configuration file.
pub open spec fn plaintext_in(raw: Seq<char>, id: Seq<char>) -> Option<Seq<char>> {
    match toml_parsed(raw) {
        Ok(doc) => password_in(doc, id),
        Err(_) => None,
    }
}

/// What moving a password comes to, once the keychain has taken it or not: the text
/// of the configuration file without it.
pub open spec fn moved(
    path: Seq<char>,
    raw: Seq<char>,
    id: Seq<char>,
    failed: Option<Seq<char>>,
) -> std::result::Result<Seq<char>, Seq<char>> {
    match (failed, toml_parsed(raw)) {
        (Some(e), _) => Err(e),
        (None, Err(t)) => Err(file_error("parse "@, path, t)),
        (None, Ok(doc)) => match toml_written(stripped(doc, id)) {
            Ok(t) => Ok(t),
            Err(t) => Err(file_error("serialize "@, path, t)),
        },
    }
}

/// The view of a text or an error.
pub open spec fn text_view(r: std::result::Result<String, String>) -> std::result::Result<
    Seq<char>,
    Seq<char>,
> {
    match r {
        Ok(t) => Ok(t@),
        Err(e) => Err(e@),
    }
}

/// What moving a password comes to, once the keychain has taken it or not.
pub fn finish_move(path: &str, raw: &str, id: &str, stored: std::result::Result<(), String>) -> (r:
    std::result::Result<String, String>)
    ensures
        text_view(r) == moved(path@, raw@, id@, failure(stored)),
{
    match stored {
        Ok(_) => strip_credential_password(path, raw, id),
        Err(e) => Err(e),
    }
}

impl<B: KeyringBackend> KeyringCredentialStore<B> {
    /// True of what moving the password that stands in the file can come to: the
    /// keychain was told to store it, and the rest went by its answer.
    pub open spec fn moves(
        self,
        after: B,
        path: Seq<char>,
        raw: Seq<char>,
        id: Seq<char>,
        r: std::result::Result<Seq<char>, Seq<char>>,
    ) -> bool {
        exists|failed: Option<Seq<char>>|
            {
                &&& #[trigger] self.keychain().stores(
                    self.service(),
                    id,
                    plaintext_in(raw, id)->0,
                    &after,
                    failed,
                )
                &&& r == moved(path, raw, id, failed)
            }
    }
}

proof fn lemma_moves<B: KeyringBackend>(
    creds: KeyringCredentialStore<B>,
    after: B,
    path: Seq<char>,
    raw: Seq<char>,
    id: Seq<char>,
    failed: Option<Seq<char>>,
)
    requires
        creds.keychain().stores(creds.service(), id, plaintext_in(raw, id)->0, &after, failed),
    ensures
        creds.moves(after, path, raw, id, moved(path, raw, id, failed)),
{
}

/// Moves the password of `destination_id` from the configuration file into the
/// keychain; the result is the new text of the file. The keychain comes first, so
/// that a failure never loses the only copy. Once the file is written the fallback
/// is to be refreshed from it.
pub fn migrate_plaintext_credentials<B: KeyringBackend>(
    creds: &mut KeyringCredentialStore<B>,
    config_path: &str,
    raw: &str,
    destination_id: &str,
) -> (r: std::result::Result<String, String>)
    ensures
        final(creds).differs_in_keychain(*old(creds)),
        plaintext_in(raw@, destination_id@) is None ==> {
            &&& final(creds).keychain() == old(creds).keychain()
            &&& text_view(r) == Err::<Seq<char>, Seq<char>>(nothing_to_move(destination_id@))
        },
        plaintext_in(raw@, destination_id@) is Some ==> old(creds).moves(
            final(creds).keychain(),
            config_path@,
            raw@,
            destination_id@,
            text_view(r),
        ),
{
    let password = match plaintext_app_password(raw, destination_id) {
        Some(p) => p,
        None => {
            let mut s = "no plaintext password for ".to_owned();
            s.append(debug_text(destination_id).as_str());
            s.append(" in config");
            return Err(s);
        },
    };
    assert(plaintext_in(raw@, destination_id@) == Some(password@));
    let stored = creds.set_password(destination_id, password.as_str());
    let ghost failed = failure(stored);
    let r = finish_move(config_path, raw, destination_id, stored);
    proof {
        assert(old(creds).keychain().stores(
            old(creds).service(),
            destination_id@,
            password@,
            &creds.keychain(),
            failed,
        ));
        assert(text_view(r) == moved(config_path@, raw@, destination_id@, failed));
        lemma_moves(*old(creds), creds.keychain(), config_path@, raw@, destination_id@, failed);
    }
    r
}

// ---- laws -------------------------------------------------------------------

/// The environment comes before the keychain, and the keychain before the
/// configuration file; a keychain that cannot be read is an error in any case.
pub proof fn sources_have_an_order(
    env_username: Option<Seq<char>>,
    env_app_password: Option<Seq<char>>,
    stored: Option<Seq<char>>,
    fallback: Option<SecretModel>,
    error: Seq<char>,
)
    ensures
        ({
            let r = resolved(env_username, env_app_password, Ok(stored), fallback);
            &&& r is Ok
            &&& env_app_password is Some ==> r->Ok_0 is Some && (r->Ok_0->0).app_password
                == env_app_password->0
            &&& env_app_password is None && stored is Some ==> r->Ok_0 is Some && (
            r->Ok_0->0).app_password == stored->0
            &&& env_app_password is None && stored is None ==> (r->Ok_0 is Some <==> fallback is Some
                && fallback->0.app_password.len() > 0)
        }),
        resolved(env_username, env_app_password, Err(error), fallback) == Err::<
            Option<SecretModel>,
            CoreError<Seq<char>>,
        >(CoreError::Config(error)),
{
}

/// A destination is said to have a password exactly if its credential resolves: for a
/// keychain that can be read and answers alike both times, `has_password` and `get`
/// agree. A password comes from the environment, the keychain, or an entry of the
/// configuration file whose password is not empty.
pub proof fn a_password_is_had_if_it_resolves<B: KeyringBackend>(
    store: KeyringCredentialStore<B>,
    id: Seq<char>,
    stored: Option<Seq<char>>,
    has: bool,
    found: std::result::Result<Option<SecretModel>, CoreError<Seq<char>>>,
)
    requires
        forall|k: std::result::Result<Option<Seq<char>>, Seq<char>>| #[trigger]
            store.keychain().answers(store.service(), id, k) ==> k == Ok::<
                Option<Seq<char>>,
                Seq<char>,
            >(stored),
        store.may_have(id, has),
        store.answers(id, found),
    ensures
        found is Ok,
        has <==> found->Ok_0 is Some,
        has <==> store.env_app_password() is Some || stored is Some || (store.fallback_of(id)
            matches Some(f) && f.app_password.len() > 0),
{
}

/// What is stored in a keychain in memory is what it answers, and the secrets of
/// other accounts are as they were.
pub proof fn a_stored_secret_is_answered(
    before: MemoryKeyring,
    after: MemoryKeyring,
    service: Seq<char>,
    account: Seq<char>,
    secret: Seq<char>,
    failed: Option<Seq<char>>,
    answer: std::result::Result<Option<Seq<char>>, Seq<char>>,
    other: Seq<char>,
)
    requires
        before.stores(service, account, secret, &after, failed),
        after.answers(service, account, answer),
    ensures
        answer == Ok::<Option<Seq<char>>, Seq<char>>(Some(secret)),
        other != account ==> after.secret_at(service, other) == before.secret_at(service, other),
{
    assert(after.secret_at(service, account) == Some(secret));
    assert(other != account ==> after.secret_at(service, other) == before.secret_at(service, other));
}

/// What is removed from a keychain in memory is no longer answered, and removing it
/// again changes nothing.
pub proof fn a_removed_secret_is_gone(
    before: MemoryKeyring,
    after: MemoryKeyring,
    again: MemoryKeyring,
    service: Seq<char>,
    account: Seq<char>,
    failed: Option<Seq<char>>,
    answer: std::result::Result<Option<Seq<char>>, Seq<char>>,
    s: Seq<char>,
    a: Seq<char>,
)
    requires
        before.removes(service, account, &after, failed),
        after.removes(service, account, &again, failed),
        after.answers(service, account, answer),
    ensures
        answer == Ok::<Option<Seq<char>>, Seq<char>>(None),
        again.secret_at(s, a) == after.secret_at(s, a),
{
    assert(after.secret_at(service, account) is None);
    assert(again.secret_at(s, a) == if s == service && a == account {
        None
    } else {
        after.secret_at(s, a)
    });
}

/// Revocation takes effect at once: when the password has left the configuration
/// file and the keychain has none, the destination has no credential, whatever the
/// file held before.
pub proof fn a_revoked_password_does_not_return(
    doc: TomlMap,
    id: Seq<char>,
    env_username: Option<Seq<char>>,
)
    requires
        well_nested(doc),
        credentials_readable(stripped(doc, id)),
    ensures
        resolved(
            env_username,
            None,
            Ok(None),
            overridden(credential_in(stripped(doc, id), id), env_username, None),
        ) == Ok::<Option<SecretModel>, CoreError<Seq<char>>>(None),
{
    stripping_takes_one_password(doc, id, id, "app_password"@);
    let rest = stripped(doc, id);
    let creds = branch(rest, "credentials"@);
    if has_key(rest, "credentials"@) && has_key(creds, id) {
        assert(!has_key(branch(creds, id), "app_password"@));
    }
}

/// A moved password still resolves: the keychain supplies it, and the user name
/// that stayed in the configuration file goes with it.
pub proof fn a_moved_password_still_resolves(doc: TomlMap, id: Seq<char>, password: Seq<char>)
    requires
        well_nested(doc),
        credentials_readable(doc),
        credential_in(doc, id) is Some,
    ensures
        resolved(None, None, Ok(Some(password)), credential_in(stripped(doc, id), id)) == Ok::<
            Option<SecretModel>,
            CoreError<Seq<char>>,
        >(Some(SecretModel { username: credential_in(doc, id)->0.username, app_password: password })),
{
    stripping_takes_one_password(doc, id, id, "username"@);
    reveal_strlit("username");
    reveal_strlit("app_password");
    assert("username"@.len() != "app_password"@.len());
}

} // verus!
