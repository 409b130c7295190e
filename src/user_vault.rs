use vstd::prelude::*;

use std::collections::BTreeMap;

use crate::clock::{get_current_time, later_of, new_uuid, spec_later_of, UUID};
use crate::error::{id_text, SmartVaultErr};
use crate::secret::{Secret, SecretDecryptionMaterial, SecretID};

verus! {

broadcast use vstd::std_specs::btree::group_btree_axioms;

pub type UserVaultID = UUID;

/// The secret store of one user: the secrets, and for each of them the material
/// that recovers its key (the key box). Both maps always hold the same ids.
#[derive(Debug, Clone)]
pub struct UserVault {
    id: UserVaultID,
    date_created: u64,
    date_modified: u64,
    secrets: BTreeMap<SecretID, Secret>,
    key_box: BTreeMap<SecretID, SecretDecryptionMaterial>,
}

/// The mathematical model of a secret store.
pub ghost struct UserVaultView {
    pub id: UserVaultID,
    pub date_created: u64,
    pub date_modified: u64,
    pub secrets: Map<SecretID, Secret>,
    pub key_box: Map<SecretID, SecretDecryptionMaterial>,
}

impl View for UserVault {
    type V = UserVaultView;

    closed spec fn view(&self) -> UserVaultView {
        UserVaultView {
            id: self.id,
            date_created: self.date_created,
            date_modified: self.date_modified,
            secrets: self.secrets@,
            key_box: self.key_box@,
        }
    }
}

/// Relies on std's `BTreeMap::get_mut`: a mutable borrow of the value stored
/// under `k`, if any; the map keeps its keys and takes back the value as the
/// borrow leaves it.
#[verifier::external_body]
fn secret_slot<'a>(m: &'a mut BTreeMap<SecretID, Secret>, k: &SecretID) -> (r: Option<&'a mut Secret>)
    ensures
        match r {
            Some(v) => {
                &&& old(m)@.contains_key(*k)
                &&& *v == old(m)@[*k]
                &&& final(m)@ == old(m)@.insert(*k, *final(v))
            },
            None => !old(m)@.contains_key(*k) && final(m)@ == old(m)@,
        },
{
    m.get_mut(k)
}

impl UserVaultView {
    /// Both maps hold the same ids, and the store was not modified before it was created.
    pub open spec fn wf(self) -> bool {
        &&& self.secrets.dom() == self.key_box.dom()
        &&& self.date_created <= self.date_modified
    }

    /// The store after a successful mutation at `now`: as `mutated`, with the
    /// modification date set to `now` unless it was already later.
    pub open spec fn mutated_at(
        self,
        next: UserVaultView,
        now: u64,
        secrets: Map<SecretID, Secret>,
        key_box: Map<SecretID, SecretDecryptionMaterial>,
    ) -> bool {
        &&& self.mutated(next, secrets, key_box)
        &&& next.date_modified == spec_later_of(now, self.date_modified)
    }

    /// The store after a successful mutation: same id and creation date, a
    /// modification date that did not move backwards, and the given maps.
    pub open spec fn mutated(
        self,
        next: UserVaultView,
        secrets: Map<SecretID, Secret>,
        key_box: Map<SecretID, SecretDecryptionMaterial>,
    ) -> bool {
        &&& next.id == self.id
        &&& next.date_created == self.date_created
        &&& next.date_modified >= self.date_modified
        &&& next.secrets == secrets
        &&& next.key_box == key_box
    }
}

/// A well-formed store has a key-box entry for every secret and a secret for
/// every key-box entry, so both hold as many entries.
pub proof fn lemma_key_box_mirrors_secrets(v: UserVault)
    requires
        v.wf(),
    ensures
        v@.secrets.len() == v@.key_box.len(),
        forall|id: SecretID| v@.secrets.contains_key(id) <==> v@.key_box.contains_key(id),
{
}

impl UserVault {
    pub open spec fn wf(&self) -> bool {
        self@.wf()
    }

    /// An empty store with a fresh id, created now.
    pub fn new() -> (r: UserVault)
        ensures
            r.wf(),
            r@.date_created == r@.date_modified,
            r@.secrets.is_empty(),
            r@.key_box.is_empty(),
    {
        let now = get_current_time();
        UserVault::with_id(new_uuid(), now)
    }

    /// An empty store with the given id, created at `now`.
    pub fn with_id(id: UserVaultID, now: u64) -> (r: UserVault)
        ensures
            r.wf(),
            r@.id == id,
            r@.date_created == now,
            r@.date_modified == now,
            r@.secrets.is_empty(),
            r@.key_box.is_empty(),
    {
        UserVault {
            id,
            date_created: now,
            date_modified: now,
            secrets: BTreeMap::new(),
            key_box: BTreeMap::new(),
        }
    }

    pub fn id(&self) -> (r: &UUID)
        ensures
            *r == self@.id,
    {
        &self.id
    }

    pub fn date_created(&self) -> (r: &u64)
        ensures
            *r == self@.date_created,
    {
        &self.date_created
    }

    pub fn date_modified(&self) -> (r: &u64)
        ensures
            *r == self@.date_modified,
    {
        &self.date_modified
    }

    pub fn secrets(&self) -> (r: &BTreeMap<UUID, Secret>)
        ensures
            r@ == self@.secrets,
    {
        &self.secrets
    }

    pub fn key_box(&self) -> (r: &BTreeMap<UUID, SecretDecryptionMaterial>)
        ensures
            r@ == self@.key_box,
    {
        &self.key_box
    }

    /// The secret stored under `secret_id`.
    pub fn get_secret(&self, secret_id: &UUID) -> (r: Result<&Secret, SmartVaultErr>)
        ensures
            r is Ok <==> self@.secrets.contains_key(*secret_id),
            match r {
                Ok(s) => *s == self@.secrets[*secret_id],
                Err(e) => (e matches SmartVaultErr::SecretDoesNotExist(t) && id_text(*secret_id, t)),
            },
    {
        match self.secrets.get(secret_id) {
            Some(s) => Ok(s),
            None => Err(SmartVaultErr::SecretDoesNotExist(secret_id.to_string())),
        }
    }

    /// A mutable borrow of the secret stored under `secret_id`. What the caller
    /// writes through it becomes the stored secret; the key box is not touched.
    pub fn get_secret_mut(&mut self, secret_id: &UUID) -> (r: Result<&mut Secret, SmartVaultErr>)
        ensures
            r is Ok <==> old(self)@.secrets.contains_key(*secret_id),
            match r {
                Ok(s) => {
                    &&& *s == old(self)@.secrets[*secret_id]
                    &&& final(self)@ == (UserVaultView {
                        secrets: old(self)@.secrets.insert(*secret_id, *final(s)),
                        ..old(self)@
                    })
                },
                Err(e) => (e matches SmartVaultErr::SecretDoesNotExist(t) && id_text(*secret_id, t)) && final(self)@ == old(self)@,
            },
    {
        match secret_slot(&mut self.secrets, secret_id) {
            Some(s) => Ok(s),
            None => Err(SmartVaultErr::SecretDoesNotExist(secret_id.to_string())),
        }
    }

    /// Adds a secret together with the material that recovers its key.
    /// Fails, leaving the store unchanged, when the id is already present.
    /// The modification date becomes `now`, unless it is already later.
    pub fn add_secret_at(&mut self, secret: Secret, decryption_material: SecretDecryptionMaterial, now: u64) -> (r:
        Result<(), SmartVaultErr>)
        requires
            old(self).wf(),
        ensures
            final(self).wf(),
            r is Ok <==> !old(self)@.secrets.contains_key(secret@.id),
            match r {
                Ok(_) => old(self)@.mutated_at(
                    final(self)@,
                    now,
                    old(self)@.secrets.insert(secret@.id, secret),
                    old(self)@.key_box.insert(secret@.id, decryption_material),
                ),
                Err(e) => (e matches SmartVaultErr::SecretDoesAlreadyExist(t) && id_text(secret@.id, t)) && final(self)@ == old(self)@,
            },
    {
        let id = *secret.id();
        if self.secrets.contains_key(&id) {
            return Err(SmartVaultErr::SecretDoesAlreadyExist(id.to_string()));
        }
        self.secrets.insert(id, secret);
        self.key_box.insert(id, decryption_material);
        self.date_modified = later_of(now, self.date_modified);
        Ok(())
    }

    /// Adds a secret together with the material that recovers its key.
    /// Fails, leaving the store unchanged, when the id is already present.
    pub fn add_secret(&mut self, secret: Secret, decryption_material: SecretDecryptionMaterial) -> (r:
        Result<(), SmartVaultErr>)
        requires
            old(self).wf(),
        ensures
            final(self).wf(),
            r is Ok <==> !old(self)@.secrets.contains_key(secret@.id),
            match r {
                Ok(_) => old(self)@.mutated(
                    final(self)@,
                    old(self)@.secrets.insert(secret@.id, secret),
                    old(self)@.key_box.insert(secret@.id, decryption_material),
                ),
                Err(e) => (e matches SmartVaultErr::SecretDoesAlreadyExist(t) && id_text(secret@.id, t)) && final(self)@ == old(self)@,
            },
    {
        let now = get_current_time();
        self.add_secret_at(secret, decryption_material, now)
    }

    /// Removes a secret and its key-box entry together.
    /// Fails, leaving the store unchanged, when the id is absent.
    /// The modification date becomes `now`, unless it is already later.
    pub fn remove_secret_at(&mut self, secret_id: &UUID, now: u64) -> (r: Result<(), SmartVaultErr>)
        requires
            old(self).wf(),
        ensures
            final(self).wf(),
            r is Ok <==> old(self)@.secrets.contains_key(*secret_id),
            match r {
                Ok(_) => old(self)@.mutated_at(
                    final(self)@,
                    now,
                    old(self)@.secrets.remove(*secret_id),
                    old(self)@.key_box.remove(*secret_id),
                ),
                Err(e) => (e matches SmartVaultErr::SecretDoesNotExist(t) && id_text(*secret_id, t)) && final(self)@ == old(self)@,
            },
    {
        if !self.secrets.contains_key(secret_id) {
            return Err(SmartVaultErr::SecretDoesNotExist(secret_id.to_string()));
        }
        self.secrets.remove(secret_id);
        self.key_box.remove(secret_id);
        self.date_modified = later_of(now, self.date_modified);
        Ok(())
    }

    /// Removes a secret and its key-box entry together.
    /// Fails, leaving the store unchanged, when the id is absent.
    pub fn remove_secret(&mut self, secret_id: &UUID) -> (r: Result<(), SmartVaultErr>)
        requires
            old(self).wf(),
        ensures
            final(self).wf(),
            r is Ok <==> old(self)@.secrets.contains_key(*secret_id),
            match r {
                Ok(_) => old(self)@.mutated(
                    final(self)@,
                    old(self)@.secrets.remove(*secret_id),
                    old(self)@.key_box.remove(*secret_id),
                ),
                Err(e) => (e matches SmartVaultErr::SecretDoesNotExist(t) && id_text(*secret_id, t)) && final(self)@ == old(self)@,
            },
    {
        let now = get_current_time();
        self.remove_secret_at(secret_id, now)
    }

    /// Replaces a stored secret by one with the same id. Its key-box entry is
    /// left as it is: re-keying is a separate operation.
    /// The modification date becomes `now`, unless it is already later.
    pub fn update_secret_at(&mut self, secret: Secret, now: u64) -> (r: Result<(), SmartVaultErr>)
        requires
            old(self).wf(),
        ensures
            final(self).wf(),
            r is Ok <==> old(self)@.secrets.contains_key(secret@.id),
            match r {
                Ok(_) => old(self)@.mutated_at(
                    final(self)@,
                    now,
                    old(self)@.secrets.insert(secret@.id, secret),
                    old(self)@.key_box,
                ),
                Err(e) => (e matches SmartVaultErr::SecretDoesNotExist(t) && id_text(secret@.id, t)) && final(self)@ == old(self)@,
            },
    {
        let id = *secret.id();
        if !self.secrets.contains_key(&id) {
            return Err(SmartVaultErr::SecretDoesNotExist(id.to_string()));
        }
        self.secrets.insert(id, secret);
        assert(self.secrets@.dom() =~= self.key_box@.dom());
        self.date_modified = later_of(now, self.date_modified);
        Ok(())
    }

    /// Replaces a stored secret by one with the same id. Its key-box entry is
    /// left as it is: re-keying is a separate operation.
    pub fn update_secret(&mut self, secret: Secret) -> (r: Result<(), SmartVaultErr>)
        requires
            old(self).wf(),
        ensures
            final(self).wf(),
            r is Ok <==> old(self)@.secrets.contains_key(secret@.id),
            match r {
                Ok(_) => old(self)@.mutated(
                    final(self)@,
                    old(self)@.secrets.insert(secret@.id, secret),
                    old(self)@.key_box,
                ),
                Err(e) => (e matches SmartVaultErr::SecretDoesNotExist(t) && id_text(secret@.id, t)) && final(self)@ == old(self)@,
            },
    {
        let now = get_current_time();
        self.update_secret_at(secret, now)
    }
}

} // verus!
