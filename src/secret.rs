use vstd::prelude::*;

use crate::clock::{get_current_time, new_uuid, UUID};

verus! {

pub type SecretID = UUID;

/// What kind of credential a secret holds.
#[derive(Debug, Clone, Copy, PartialEq, Eq, Structural)]
pub enum SecretCategory {
    Password,
    Note,
    Document,
}

/// A stored secret. The sensitive fields are ciphertext produced by the client;
/// the library stores and returns them but never reads them.
#[derive(Debug, Clone, PartialEq, Eq)]
pub struct Secret {
    id: SecretID,
    date_created: u64,
    date_modified: u64,
    category: SecretCategory,
    name: String,
    username: Option<Vec<u8>>,
    password: Option<Vec<u8>>,
    url: Option<String>,
    notes: Option<Vec<u8>>,
}

/// The material that recovers a secret's own symmetric key: the key wrapped
/// under a derived key, the wrap's iv, and the nonce of each encrypted field.
#[derive(Debug, Clone, PartialEq, Eq, Default)]
pub struct SecretDecryptionMaterial {
    pub encrypted_decryption_key: Vec<u8>,
    pub iv: Vec<u8>,
    pub username_decryption_nonce: Option<Vec<u8>>,
    pub password_decryption_nonce: Option<Vec<u8>>,
    pub notes_decryption_nonce: Option<Vec<u8>>,
}

/// The mathematical model of a secret.
pub ghost struct SecretView {
    pub id: SecretID,
    pub date_created: u64,
    pub date_modified: u64,
    pub category: SecretCategory,
    pub name: Seq<char>,
    pub username: Option<Seq<u8>>,
    pub password: Option<Seq<u8>>,
    pub url: Option<Seq<char>>,
    pub notes: Option<Seq<u8>>,
}

pub open spec fn bytes_view(b: Option<Vec<u8>>) -> Option<Seq<u8>> {
    match b {
        Some(v) => Some(v@),
        None => None,
    }
}

impl View for Secret {
    type V = SecretView;

    closed spec fn view(&self) -> SecretView {
        SecretView {
            id: self.id,
            date_created: self.date_created,
            date_modified: self.date_modified,
            category: self.category,
            name: self.name@,
            username: bytes_view(self.username),
            password: bytes_view(self.password),
            url: match self.url {
                Some(u) => Some(u@),
                None => None,
            },
            notes: bytes_view(self.notes),
        }
    }
}

impl Secret {
    /// A new secret with a fresh id, both dates set to now and no content yet.
    pub fn new(category: SecretCategory, name: String) -> (r: Secret)
        ensures
            r@.category == category,
            r@.name == name@,
            r@.date_created == r@.date_modified,
            r@.username is None,
            r@.password is None,
            r@.url is None,
            r@.notes is None,
    {
        let now = get_current_time();
        Secret::with_id(new_uuid(), category, name, now)
    }

    /// A new secret with the given id, created at `now`, with no content yet.
    pub fn with_id(id: SecretID, category: SecretCategory, name: String, now: u64) -> (r: Secret)
        ensures
            r@.id == id,
            r@.category == category,
            r@.name == name@,
            r@.date_created == now,
            r@.date_modified == now,
            r@.username is None,
            r@.password is None,
            r@.url is None,
            r@.notes is None,
    {
        Secret {
            id,
            date_created: now,
            date_modified: now,
            category,
            name,
            username: None,
            password: None,
            url: None,
            notes: None,
        }
    }

    pub fn id(&self) -> (r: &SecretID)
        ensures
            *r == self@.id,
    {
        &self.id
    }

    pub fn date_created(&self) -> (r: &u64)
        ensures
            *r == self@.date_created,
    {
        &self.date_created
    }

    pub fn date_modified(&self) -> (r: &u64)
        ensures
            *r == self@.date_modified,
    {
        &self.date_modified
    }

    pub fn category(&self) -> (r: SecretCategory)
        ensures
            r == self@.category,
    {
        self.category
    }

    pub fn name(&self) -> (r: &String)
        ensures
            r@ == self@.name,
    {
        &self.name
    }

    pub fn username(&self) -> (r: &Option<Vec<u8>>)
        ensures
            bytes_view(*r) == self@.username,
    {
        &self.username
    }

    pub fn password(&self) -> (r: &Option<Vec<u8>>)
        ensures
            bytes_view(*r) == self@.password,
    {
        &self.password
    }

    pub fn url(&self) -> (r: &Option<String>)
        ensures
            r.is_some() == self@.url.is_some(),
            r.is_some() ==> r.unwrap()@ == self@.url.unwrap(),
    {
        &self.url
    }

    pub fn notes(&self) -> (r: &Option<Vec<u8>>)
        ensures
            bytes_view(*r) == self@.notes,
    {
        &self.notes
    }

    /// Replaces the encrypted username; the id and the dates stay.
    pub fn set_username(&mut self, username: Vec<u8>)
        ensures
            final(self)@ == (SecretView { username: Some(username@), ..old(self)@ }),
    {
        self.username = Some(username);
    }

    /// Replaces the encrypted password; the id and the dates stay.
    pub fn set_password(&mut self, password: Vec<u8>)
        ensures
            final(self)@ == (SecretView { password: Some(password@), ..old(self)@ }),
    {
        self.password = Some(password);
    }

    /// Replaces the encrypted notes; the id and the dates stay.
    pub fn set_notes(&mut self, notes: Vec<u8>)
        ensures
            final(self)@ == (SecretView { notes: Some(notes@), ..old(self)@ }),
    {
        self.notes = Some(notes);
    }

    /// Replaces the url; the id and the dates stay.
    pub fn set_url(&mut self, url: String)
        ensures
            final(self)@ == (SecretView { url: Some(url@), ..old(self)@ }),
    {
        self.url = Some(url);
    }

    /// Renames the secret; the id and the dates stay.
    pub fn set_name(&mut self, name: String)
        ensures
            final(self)@ == (SecretView { name: name@, ..old(self)@ }),
    {
        self.name = name;
    }
}

} // verus!
