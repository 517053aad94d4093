//! Credentials of cloud destinations.

use crate::error::{CoreError, Result};
use crate::text::{
    debug_quoted, debug_text, opt_view, same_text, text_lt, text_lt_is_total, views,
};
use crate::toml_tree::{
    branch, has_key, is_table, text_at_root, toml_content, toml_get, toml_keys, toml_parse,
    toml_parsed, toml_text, TomlMap,
};
use vstd::prelude::*;
use zeroize::Zeroize;

verus! {

/// A resolved credential. It has no `Debug`, so that no log can show it;
/// `redacted` writes it without the password. When it is dropped it is wiped from
/// memory.
#[derive(PartialEq, Eq)]
pub struct Secret {
    pub username: String,
    pub app_password: String,
}

/// A resolved credential.
pub struct SecretModel {
    pub username: Seq<char>,
    pub app_password: Seq<char>,
}

/// `zeroize::Zeroize::zeroize` on a `String`: its bytes are overwritten, and it is then
/// empty. That the bytes in memory are gone is not said.
#[verifier::external_body]
fn wipe(s: &mut String)
    ensures
        final(s)@.len() == 0,
    opens_invariants none
    no_unwind
{
    s.zeroize();
}

impl Drop for Secret {
    fn drop(&mut self)
        opens_invariants none
        no_unwind
    {
        wipe(&mut self.username);
        wipe(&mut self.app_password);
    }
}

impl zeroize::ZeroizeOnDrop for Secret {}

impl View for Secret {
    type V = SecretModel;

    open spec fn view(&self) -> SecretModel {
        SecretModel { username: self.username@, app_password: self.app_password@ }
    }
}

impl Clone for Secret {
    fn clone(&self) -> (r: Self)
        ensures
            r@ == self@,
    {
        Secret { username: self.username.clone(), app_password: self.app_password.clone() }
    }
}

impl Secret {
    /// The credential as it may be logged: the user name, and a mark in place of
    /// the password.
    pub fn redacted(&self) -> (r: String)
        ensures
            r@ == "Secret { username: "@ + debug_quoted(self.username@)
                + ", app_password: \"[redacted]\" }"@,
    {
        let mut s = "Secret { username: ".to_owned();
        s.append(debug_text(self.username.as_str()).as_str());
        s.append(", app_password: \"[redacted]\" }");
        s
    }
}

/// The view of an optional credential.
pub open spec fn secret_view(s: Option<Secret>) -> Option<SecretModel> {
    match s {
        Some(s) => Some(s@),
        None => None,
    }
}

/// The view of the outcome of a lookup.
pub open spec fn lookup_view(r: Result<Option<Secret>>) -> std::result::Result<
    Option<SecretModel>,
    CoreError<Seq<char>>,
> {
    match r {
        Ok(s) => Ok(secret_view(s)),
        Err(e) => Err(e@),
    }
}

/// Looks a credential up by the id of its destination.
pub trait CredentialStore: Send + Sync {
    /// True of the outcomes that a lookup of `id` can have.
    spec fn answers(
        &self,
        id: Seq<char>,
        r: std::result::Result<Option<SecretModel>, CoreError<Seq<char>>>,
    ) -> bool;

    /// The credential of `destination_id`, if there is one.
    fn get(&self, destination_id: &str) -> (r: Result<Option<Secret>>)
        ensures
            self.answers(destination_id@, lookup_view(r)),
    ;
}

/// The credential that stands under `id` in a list; the first one counts.
pub open spec fn entry_of(entries: Seq<(String, Secret)>, id: Seq<char>) -> Option<
    SecretModel,
>
    decreases entries.len(),
{
    if entries.len() == 0 {
        None
    } else if entries[0].0@ == id {
        Some(entries[0].1@)
    } else {
        entry_of(entries.skip(1), id)
    }
}

/// The credential `base` with what the environment overrides: an override that
/// is there wins over the entry, and a field that neither has is empty. Without
/// an override the entry stands as it is.
pub open spec fn overridden(
    base: Option<SecretModel>,
    env_username: Option<Seq<char>>,
    env_app_password: Option<Seq<char>>,
) -> Option<SecretModel> {
    if env_username is None && env_app_password is None {
        base
    } else {
        Some(
            SecretModel {
                username: match (env_username, base) {
                    (Some(u), _) => u,
                    (None, Some(b)) => b.username,
                    (None, None) => seq![],
                },
                app_password: match (env_app_password, base) {
                    (Some(p), _) => p,
                    (None, Some(b)) => b.app_password,
                    (None, None) => seq![],
                },
            },
        )
    }
}

/// True of an entry that can be read: a table with a user name, and with a password
/// that is a string if it has one.
pub open spec fn entry_readable(entry: TomlMap) -> bool {
    &&& is_table(entry)
    &&& has_key(entry, "username"@)
    &&& text_at_root(branch(entry, "username"@)) is Some
    &&& has_key(entry, "app_password"@) ==> text_at_root(branch(entry, "app_password"@)) is Some
}

/// What is wrong with an entry that cannot be read.
pub open spec fn entry_fault(entry: TomlMap) -> Seq<char> {
    if !is_table(entry) {
        "invalid type: expected a table of credentials"@
    } else if !has_key(entry, "username"@) {
        "missing field `username`"@
    } else if text_at_root(branch(entry, "username"@)) is None {
        "invalid type for `username`: expected a string"@
    } else {
        "invalid type for `app_password`: expected a string"@
    }
}

/// True of what is wrong with the credentials of a document: they are no table, or
/// the first entry in the order of the ids that cannot be read is at fault.
pub open spec fn credentials_fault(doc: TomlMap, fault: Seq<char>) -> bool {
    let creds = branch(doc, "credentials"@);
    &&& has_key(doc, "credentials"@)
    &&& if !is_table(creds) {
        fault == "invalid type for `credentials`: expected a table"@
    } else {
        exists|id: Seq<char>|
            {
                &&& #[trigger] has_key(creds, id)
                &&& !entry_readable(branch(creds, id))
                &&& fault == entry_fault(branch(creds, id))
                &&& forall|other: Seq<char>| #[trigger]
                    has_key(creds, other) && text_lt(other, id) ==> entry_readable(
                        branch(creds, other),
                    )
            }
    }
}

/// The credential of an entry. A missing password is empty.
pub open spec fn entry_secret(entry: TomlMap) -> SecretModel {
    SecretModel {
        username: text_at_root(branch(entry, "username"@))->0,
        app_password: if has_key(entry, "app_password"@) {
            text_at_root(branch(entry, "app_password"@))->0
        } else {
            seq![]
        },
    }
}

/// True of a document whose credentials can be read: it has none, or a table of
/// entries that can be read.
pub open spec fn credentials_readable(doc: TomlMap) -> bool {
    has_key(doc, "credentials"@) ==> {
        let creds = branch(doc, "credentials"@);
        &&& is_table(creds)
        &&& forall|id: Seq<char>| #[trigger]
            has_key(creds, id) ==> entry_readable(branch(creds, id))
    }
}

/// The credential of `id` in a document.
pub open spec fn credential_in(doc: TomlMap, id: Seq<char>) -> Option<SecretModel> {
    if has_key(doc, "credentials"@) && has_key(branch(doc, "credentials"@), id) {
        Some(entry_secret(branch(branch(doc, "credentials"@), id)))
    } else {
        None
    }
}

proof fn lemma_entry_of_push(
    entries: Seq<(String, Secret)>,
    entry: (String, Secret),
    id: Seq<char>,
)
    ensures
        entry_of(entries.push(entry), id) == (if entry_of(entries, id) is Some {
            entry_of(entries, id)
        } else if entry.0@ == id {
            Some(entry.1@)
        } else {
            None
        }),
    decreases entries.len(),
{
    let all = entries.push(entry);
    if entries.len() == 0 {
        assert(all[0] == entry);
        assert(all.skip(1).len() == 0);
        assert(entry_of(all.skip(1), id) is None);
    } else {
        assert(all[0] == entries[0]);
        assert(all.skip(1) =~= entries.skip(1).push(entry));
        lemma_entry_of_push(entries.skip(1), entry, id);
    }
}

/// Reads one entry; the error says what is wrong with it.
fn read_entry(entry: &toml::Value) -> (r: Result<Secret>)
    ensures
        match r {
            Ok(s) => entry_readable(toml_content(*entry)) && s@ == entry_secret(
                toml_content(*entry),
            ),
            Err(e) => !entry_readable(toml_content(*entry)) && e@ == CoreError::Config(
                entry_fault(toml_content(*entry)),
            ),
        },
{
    if toml_keys(entry).is_none() {
        return Err(CoreError::Config("invalid type: expected a table of credentials".to_owned()));
    }
    let username = match toml_get(entry, "username") {
        Some(v) => match toml_text(&v) {
            Some(t) => t,
            None => return Err(
                CoreError::Config("invalid type for `username`: expected a string".to_owned()),
            ),
        },
        None => return Err(CoreError::Config("missing field `username`".to_owned())),
    };
    let app_password = match toml_get(entry, "app_password") {
        Some(v) => match toml_text(&v) {
            Some(t) => t,
            None => return Err(
                CoreError::Config("invalid type for `app_password`: expected a string".to_owned()),
            ),
        },
        None => String::new(),
    };
    assert(!has_key(toml_content(*entry), "app_password"@) ==> app_password@ =~= seq![]);
    Ok(Secret { username, app_password })
}

/// A credential store over the `[credentials.<id>]` tables of a configuration,
/// with overrides from the environment, which the caller hands in.
pub struct EnvConfigStore {
    entries: Vec<(String, Secret)>,
    env_username: Option<String>,
    env_app_password: Option<String>,
}

impl EnvConfigStore {
    /// The entries of the configuration.
    pub closed spec fn entries(self) -> Seq<(String, Secret)> {
        self.entries@
    }

    /// The user name that the environment overrides with.
    pub closed spec fn env_username(self) -> Option<Seq<char>> {
        opt_view(self.env_username)
    }

    /// The password that the environment overrides with.
    pub closed spec fn env_app_password(self) -> Option<Seq<char>> {
        opt_view(self.env_app_password)
    }

    /// The credential of `id`.
    pub open spec fn secret_of(self, id: Seq<char>) -> Option<SecretModel> {
        overridden(entry_of(self.entries(), id), self.env_username(), self.env_app_password())
    }

    /// A store with the given entries.
    pub fn with_entries(
        entries: Vec<(String, Secret)>,
        env_username: Option<String>,
        env_app_password: Option<String>,
    ) -> (r: Self)
        ensures
            r.entries() == entries@,
            r.env_username() == opt_view(env_username),
            r.env_app_password() == opt_view(env_app_password),
    {
        EnvConfigStore { entries, env_username, env_app_password }
    }

    /// A store over the credentials of a document, which the toml crate has read.
    pub fn from_document(
        doc: &toml::Value,
        env_username: Option<String>,
        env_app_password: Option<String>,
    ) -> (r: Result<Self>)
        ensures
            match r {
                Ok(s) => {
                    &&& credentials_readable(toml_content(*doc))
                    &&& forall|id: Seq<char>| #[trigger]
                        entry_of(s.entries(), id) == credential_in(toml_content(*doc), id)
                    &&& s.env_username() == opt_view(env_username)
                    &&& s.env_app_password() == opt_view(env_app_password)
                },
                Err(e) => !credentials_readable(toml_content(*doc)) && exists|fault: Seq<char>|
                    #[trigger]
                    credentials_fault(toml_content(*doc), fault) && e@ == CoreError::Config(fault),
            },
    {
        let ghost m = toml_content(*doc);
        let creds = match toml_get(doc, "credentials") {
            Some(c) => c,
            None => {
                let s = EnvConfigStore::empty(env_username, env_app_password);
                return Ok(s);
            },
        };
        let ghost c = toml_content(creds);
        let keys = match toml_keys(&creds) {
            Some(k) => k,
            None => {
                assert(credentials_fault(m, "invalid type for `credentials`: expected a table"@));
                return Err(
                    CoreError::Config(
                        "invalid type for `credentials`: expected a table".to_owned(),
                    ),
                );
            },
        };
        let mut entries: Vec<(String, Secret)> = Vec::new();
        let mut i: usize = 0;
        while i < keys.len()
            invariant
                i <= keys@.len(),
                c == toml_content(creds),
                m == toml_content(*doc),
                c == branch(m, "credentials"@),
                has_key(m, "credentials"@),
                is_table(c),
                forall|k: Seq<char>| #[trigger] views(keys@).contains(k) <==> has_key(c, k),
                forall|a: int, b: int|
                    0 <= a < b < keys@.len() ==> text_lt(
                        (#[trigger] keys@[a])@,
                        (#[trigger] keys@[b])@,
                    ),
                forall|j: int| 0 <= j < i ==> entry_readable(branch(c, (#[trigger] keys@[j])@)),
                forall|id: Seq<char>| #[trigger]
                    entry_of(entries@, id) == (if views(keys@).take(i as int).contains(id) {
                        Some(entry_secret(branch(c, id)))
                    } else {
                        None
                    }),
            decreases keys.len() - i,
        {
            let ghost k = keys@[i as int]@;
            let ghost before = entries@;
            let ghost seen = views(keys@).take(i as int);
            let ghost now = views(keys@).take(i + 1);
            proof {
                assert(views(keys@)[i as int] == k);
                assert(views(keys@).contains(k));
                assert(now =~= seen.push(k));
            }
            let entry = match toml_get(&creds, keys[i].as_str()) {
                Some(e) => e,
                None => return Err(CoreError::Config("unreadable credentials".to_owned())),
            };
            match read_entry(&entry) {
                Ok(secret) => {
                    entries.push((keys[i].clone(), secret));
                    proof {
                        let pushed = entries@[entries@.len() - 1];
                        assert(entries@ =~= before.push(pushed));
                        assert forall|id: Seq<char>| #[trigger] entry_of(entries@, id) == (
                        if now.contains(id) {
                            Some(entry_secret(branch(c, id)))
                        } else {
                            None
                        }) by {
                            lemma_entry_of_push(before, pushed, id);
                            assert(entry_of(before, id) == (if seen.contains(id) {
                                Some(entry_secret(branch(c, id)))
                            } else {
                                None
                            }));
                            if seen.contains(id) {
                                let j = choose|j: int| 0 <= j < seen.len() && seen[j] == id;
                                assert(now[j] == id);
                            }
                            if id == k {
                                assert(now[i as int] == id);
                            }
                            if now.contains(id) && id != k {
                                let j = choose|j: int| 0 <= j < now.len() && now[j] == id;
                                assert(seen[j] == id);
                            }
                        }
                    }
                },
                Err(e) => {
                    proof {
                        assert(has_key(c, k));
                        assert forall|other: Seq<char>| #[trigger]
                            has_key(c, other) && text_lt(other, k) implies entry_readable(
                            branch(c, other),
                        ) by {
                            assert(views(keys@).contains(other));
                            let j = choose|j: int|
                                0 <= j < views(keys@).len() && views(keys@)[j] == other;
                            assert(keys@[j]@ == other);
                            text_lt_is_total(other, k);
                        }
                        assert(credentials_fault(m, entry_fault(branch(c, k))));
                    }
                    return Err(e);
                },
            }
            i += 1;
        }
        proof {
            assert(views(keys@).take(i as int) =~= views(keys@));
            assert forall|id: Seq<char>| #[trigger] has_key(c, id) implies entry_readable(
                branch(c, id),
            ) by {
                assert(views(keys@).contains(id));
                let j = choose|j: int| 0 <= j < views(keys@).len() && views(keys@)[j] == id;
                assert(keys@[j]@ == id);
            }
            assert forall|id: Seq<char>| #[trigger] entry_of(entries@, id) == credential_in(m, id) by {
                assert(views(keys@).contains(id) <==> has_key(c, id));
            }
        }
        Ok(EnvConfigStore { entries, env_username, env_app_password })
    }

    /// A store over the `[credentials.<id>]` tables of a configuration text.
    pub fn from_toml_str(
        s: &str,
        env_username: Option<String>,
        env_app_password: Option<String>,
    ) -> (r: Result<Self>)
        ensures
            match (toml_parsed(s@), r) {
                (Ok(doc), Ok(store)) => {
                    &&& credentials_readable(doc)
                    &&& forall|id: Seq<char>| #[trigger]
                        entry_of(store.entries(), id) == credential_in(doc, id)
                    &&& store.env_username() == opt_view(env_username)
                    &&& store.env_app_password() == opt_view(env_app_password)
                },
                (Ok(doc), Err(e)) => !credentials_readable(doc) && exists|fault: Seq<char>|
                    #[trigger]
                    credentials_fault(doc, fault) && e@ == CoreError::Config(fault),
                (Err(t), Err(e)) => e@ == CoreError::Config(t),
                (Err(_), Ok(_)) => false,
            },
    {
        match toml_parse(s) {
            Ok(doc) => EnvConfigStore::from_document(&doc, env_username, env_app_password),
            Err(e) => Err(CoreError::Config(e)),
        }
    }

    /// A store without entries: only the environment can give a credential.
    pub fn empty(env_username: Option<String>, env_app_password: Option<String>) -> (r: Self)
        ensures
            r.entries() == Seq::<(String, Secret)>::empty(),
            r.env_username() == opt_view(env_username),
            r.env_app_password() == opt_view(env_app_password),
    {
        EnvConfigStore { entries: Vec::new(), env_username, env_app_password }
    }

    /// The entry of `id`.
    fn entry(&self, id: &str) -> (r: Option<Secret>)
        ensures
            secret_view(r) == entry_of(self.entries(), id@),
    {
        let mut i: usize = 0;
        assert(self.entries@.skip(0) =~= self.entries@);
        while i < self.entries.len()
            invariant
                i <= self.entries@.len(),
                entry_of(self.entries(), id@) == entry_of(self.entries@.skip(i as int), id@),
            decreases self.entries.len() - i,
        {
            assert(self.entries@.skip(i as int).skip(1) =~= self.entries@.skip(i + 1));
            if same_text(self.entries[i].0.as_str(), id) {
                return Some(self.entries[i].1.clone());
            }
            i += 1;
        }
        None
    }
}

impl CredentialStore for EnvConfigStore {
    open spec fn answers(
        &self,
        id: Seq<char>,
        r: std::result::Result<Option<SecretModel>, CoreError<Seq<char>>>,
    ) -> bool {
        r == Ok::<Option<SecretModel>, CoreError<Seq<char>>>(self.secret_of(id))
    }

    fn get(&self, destination_id: &str) -> (r: Result<Option<Secret>>)
        ensures
            r is Ok,
            secret_view(r->Ok_0) == self.secret_of(destination_id@),
    {
        let base = self.entry(destination_id);
        if self.env_username.is_none() && self.env_app_password.is_none() {
            return Ok(base);
        }
        let username = match &self.env_username {
            Some(u) => u.clone(),
            None => match &base {
                Some(b) => b.username.clone(),
                None => String::new(),
            },
        };
        let app_password = match &self.env_app_password {
            Some(p) => p.clone(),
            None => match &base {
                Some(b) => b.app_password.clone(),
                None => String::new(),
            },
        };
        let secret = Secret { username, app_password };
        assert(secret_view(Some(secret)) == self.secret_of(destination_id@));
        Ok(Some(secret))
    }
}

/// An override from the environment wins over every entry.
pub proof fn environment_wins(
    base: Option<SecretModel>,
    env_username: Option<Seq<char>>,
    env_app_password: Option<Seq<char>>,
)
    ensures
        env_username is Some ==> overridden(base, env_username, env_app_password) is Some
            && overridden(base, env_username, env_app_password)->0.username == env_username->0,
        env_app_password is Some ==> overridden(base, env_username, env_app_password) is Some
            && overridden(base, env_username, env_app_password)->0.app_password
            == env_app_password->0,
        overridden(base, None, None) == base,
{
}

} // verus!
