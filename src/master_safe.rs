use vstd::prelude::*;

use crate::error::{id_text, SmartVaultErr};
use crate::identity::{same_identity, UserID};
use crate::secret::{Secret, SecretDecryptionMaterial, SecretID};
use crate::user_vault::UserVault;

verus! {

/// The identity that an entry of the registry belongs to, if any does.
pub open spec fn has_entry(s: Seq<(UserID, UserVault)>, u: Seq<u8>) -> bool {
    exists|i: int| 0 <= i < s.len() && (#[trigger] s[i]).0@ == u
}

/// The registry's entries read as a map from identity to secret store.
pub open spec fn entries_map(s: Seq<(UserID, UserVault)>) -> Map<Seq<u8>, UserVault> {
    Map::new(
        |u: Seq<u8>| has_entry(s, u),
        |u: Seq<u8>| s[choose|i: int| 0 <= i < s.len() && (#[trigger] s[i]).0@ == u].1,
    )
}

/// No identity holds two entries.
pub open spec fn keys_unique(s: Seq<(UserID, UserVault)>) -> bool {
    forall|i: int, j: int| 0 <= i < j < s.len() ==> (#[trigger] s[i]).0@ != (#[trigger] s[j]).0@
}

/// The secrets of `u`'s store, empty when `u` has none yet.
pub open spec fn secrets_of(m: Map<Seq<u8>, UserVault>, u: Seq<u8>) -> Map<SecretID, Secret> {
    if m.contains_key(u) {
        m[u]@.secrets
    } else {
        Map::empty()
    }
}

/// The key box of `u`'s store, empty when `u` has none yet.
pub open spec fn key_box_of(m: Map<Seq<u8>, UserVault>, u: Seq<u8>) -> Map<
    SecretID,
    SecretDecryptionMaterial,
> {
    if m.contains_key(u) {
        m[u]@.key_box
    } else {
        Map::empty()
    }
}

/// The vault registry: at most one secret store per identity, created on first use.
#[derive(Debug, Clone)]
pub struct MasterSafe {
    user_safes: Vec<(UserID, UserVault)>,
}

impl View for MasterSafe {
    type V = Map<Seq<u8>, UserVault>;

    closed spec fn view(&self) -> Map<Seq<u8>, UserVault> {
        entries_map(self.user_safes@)
    }
}

proof fn lemma_lookup(s: Seq<(UserID, UserVault)>, i: int)
    requires
        keys_unique(s),
        0 <= i < s.len(),
    ensures
        entries_map(s).contains_key(s[i].0@),
        entries_map(s)[s[i].0@] == s[i].1,
{
    let u = s[i].0@;
    assert(has_entry(s, u));
    let j = choose|j: int| 0 <= j < s.len() && (#[trigger] s[j]).0@ == u;
    if j != i {
        if j < i {
            assert(s[j].0@ != s[i].0@);
        } else {
            assert(s[i].0@ != s[j].0@);
        }
    }
}

proof fn lemma_update(s: Seq<(UserID, UserVault)>, i: int, v: UserVault)
    requires
        keys_unique(s),
        0 <= i < s.len(),
    ensures
        keys_unique(s.update(i, (s[i].0, v))),
        entries_map(s.update(i, (s[i].0, v))) == entries_map(s).insert(s[i].0@, v),
{
    let t = s.update(i, (s[i].0, v));
    let u = s[i].0@;
    assert(keys_unique(t)) by {
        assert forall|a: int, b: int| 0 <= a < b < t.len() implies (#[trigger] t[a]).0@ != (
        #[trigger] t[b]).0@ by {
            assert(s[a].0@ != s[b].0@);
        }
    }
    assert forall|w: Seq<u8>| has_entry(t, w) == entries_map(s).insert(u, v).contains_key(w) by {
        if has_entry(s, w) {
            let k = choose|k: int| 0 <= k < s.len() && (#[trigger] s[k]).0@ == w;
            assert(t[k].0@ == w);
        }
        if has_entry(t, w) {
            let k = choose|k: int| 0 <= k < t.len() && (#[trigger] t[k]).0@ == w;
            assert(s[k].0@ == w);
        }
    }
    assert forall|w: Seq<u8>| #[trigger] has_entry(t, w) implies entries_map(t)[w] == entries_map(
        s,
    ).insert(u, v)[w] by {
        let k = choose|k: int| 0 <= k < t.len() && (#[trigger] t[k]).0@ == w;
        lemma_lookup(t, k);
        if w != u {
            assert(k != i);
            lemma_lookup(s, k);
        }
    }
    assert(entries_map(t) =~= entries_map(s).insert(u, v));
}

proof fn lemma_push(s: Seq<(UserID, UserVault)>, e: (UserID, UserVault))
    requires
        keys_unique(s),
        !has_entry(s, e.0@),
    ensures
        keys_unique(s.push(e)),
        entries_map(s.push(e)) == entries_map(s).insert(e.0@, e.1),
{
    let t = s.push(e);
    let u = e.0@;
    assert(keys_unique(t)) by {
        assert forall|a: int, b: int| 0 <= a < b < t.len() implies (#[trigger] t[a]).0@ != (
        #[trigger] t[b]).0@ by {
            if b == s.len() {
                assert(s[a] == t[a]);
            } else {
                assert(s[a].0@ != s[b].0@);
            }
        }
    }
    assert forall|w: Seq<u8>| has_entry(t, w) == entries_map(s).insert(u, e.1).contains_key(w) by {
        if has_entry(s, w) {
            let k = choose|k: int| 0 <= k < s.len() && (#[trigger] s[k]).0@ == w;
            assert(t[k].0@ == w);
        }
        if has_entry(t, w) && w != u {
            let k = choose|k: int| 0 <= k < t.len() && (#[trigger] t[k]).0@ == w;
            assert(s[k].0@ == w);
        }
        if w == u {
            assert(t[s.len() as int].0@ == w);
        }
    }
    assert forall|w: Seq<u8>| #[trigger] has_entry(t, w) implies entries_map(t)[w] == entries_map(
        s,
    ).insert(u, e.1)[w] by {
        let k = choose|k: int| 0 <= k < t.len() && (#[trigger] t[k]).0@ == w;
        lemma_lookup(t, k);
        if w != u {
            assert(k != s.len());
            assert(s[k] == t[k]);
            lemma_lookup(s, k);
        }
    }
    assert(entries_map(t) =~= entries_map(s).insert(u, e.1));
}

impl MasterSafe {
    /// The registry holds each identity once, and each store is well formed.
    pub closed spec fn wf(&self) -> bool {
        &&& keys_unique(self.user_safes@)
        &&& forall|i: int| 0 <= i < self.user_safes@.len() ==> (#[trigger] self.user_safes@[i]).1.wf()
    }

    /// An empty registry.
    pub fn new() -> (r: MasterSafe)
        ensures
            r.wf(),
            r@ == Map::<Seq<u8>, UserVault>::empty(),
    {
        let r = MasterSafe { user_safes: Vec::new() };
        assert(r@ =~= Map::<Seq<u8>, UserVault>::empty());
        r
    }

    fn find_user(&self, user: &UserID) -> (r: Option<usize>)
        ensures
            match r {
                Some(i) => i < self.user_safes@.len() && self.user_safes@[i as int].0@ == user@,
                None => !has_entry(self.user_safes@, user@),
            },
    {
        let mut i: usize = 0;
        while i < self.user_safes.len()
            invariant
                i <= self.user_safes@.len(),
                forall|j: int| 0 <= j < i ==> (#[trigger] self.user_safes@[j]).0@ != user@,
            decreases self.user_safes@.len() - i,
        {
            if same_identity(&self.user_safes[i].0, user) {
                return Some(i);
            }
            i = i + 1;
        }
        None
    }

    /// The secret store of `user`, or `None` when none was opened for it yet.
    pub fn get_user_safe(&self, user: &UserID) -> (r: Option<&UserVault>)
        requires
            self.wf(),
        ensures
            r is Some <==> self@.contains_key(user@),
            match r {
                Some(v) => *v == self@[user@] && v.wf(),
                None => true,
            },
    {
        match self.find_user(user) {
            Some(i) => {
                proof {
                    lemma_lookup(self.user_safes@, i as int);
                }
                Some(&self.user_safes[i].1)
            },
            None => None,
        }
    }

    /// All identities and their stores.
    pub fn get_all_user_safes(&self) -> (r: &Vec<(UserID, UserVault)>)
        requires
            self.wf(),
        ensures
            entries_map(r@) == self@,
            keys_unique(r@),
    {
        &self.user_safes
    }

    /// Ensures `user_id` has a store: an empty one is opened only when it has none.
    /// Returns the index of its entry.
    fn open_entry(&mut self, user_id: UserID) -> (r: usize)
        requires
            old(self).wf(),
        ensures
            final(self).wf(),
            r < final(self).user_safes@.len(),
            final(self).user_safes@[r as int].0@ == user_id@,
            old(self)@.contains_key(user_id@) ==> final(self)@ == old(self)@,
            !old(self)@.contains_key(user_id@) ==> {
                let v = final(self)@[user_id@];
                &&& final(self)@ == old(self)@.insert(user_id@, v)
                &&& v@.secrets.is_empty()
                &&& v@.key_box.is_empty()
                &&& v@.date_created == v@.date_modified
            },
    {
        match self.find_user(&user_id) {
            Some(i) => {
                proof {
                    lemma_lookup(self.user_safes@, i as int);
                }
                i
            },
            None => {
                let ghost old_entries = self.user_safes@;
                let vault = UserVault::new();
                let ghost key = user_id@;
                self.user_safes.push((user_id, vault));
                proof {
                    lemma_push(old_entries, (self.user_safes@.last().0, vault));
                    assert(self.user_safes@[old_entries.len() as int].0@ == key);
                }
                self.user_safes.len() - 1
            },
        }
    }

    /// The store of `user_id`, opened empty when it has none. An existing store
    /// is never replaced.
    pub fn open_new_user_safe(&mut self, user_id: UserID) -> (r: &UserVault)
        requires
            old(self).wf(),
        ensures
            final(self).wf(),
            final(self)@.contains_key(user_id@),
            *r == final(self)@[user_id@],
            old(self)@.contains_key(user_id@) ==> final(self)@ == old(self)@,
            !old(self)@.contains_key(user_id@) ==> {
                &&& final(self)@ == old(self)@.insert(user_id@, *r)
                &&& r@.secrets.is_empty()
                &&& r@.key_box.is_empty()
                &&& r@.date_created == r@.date_modified
            },
    {
        let i = self.open_entry(user_id);
        proof {
            lemma_lookup(self.user_safes@, i as int);
        }
        &self.user_safes[i].1
    }

    /// Inserts a secret and its decryption material into `user_id`'s store,
    /// opening the store first when it has none.
    pub fn add_user_secret(
        &mut self,
        user_id: UserID,
        secret: Secret,
        decryption_material: SecretDecryptionMaterial,
    ) -> (r: Result<(), SmartVaultErr>)
        requires
            old(self).wf(),
        ensures
            final(self).wf(),
            r is Ok <==> !secrets_of(old(self)@, user_id@).contains_key(secret@.id),
            match r {
                Ok(_) => {
                    &&& final(self)@.contains_key(user_id@)
                    &&& final(self)@.remove(user_id@) == old(self)@.remove(user_id@)
                    &&& final(self)@[user_id@]@.secrets == secrets_of(old(self)@, user_id@).insert(
                        secret@.id,
                        secret,
                    )
                    &&& final(self)@[user_id@]@.key_box == key_box_of(old(self)@, user_id@).insert(
                        secret@.id,
                        decryption_material,
                    )
                },
                Err(e) => (e matches SmartVaultErr::SecretDoesAlreadyExist(t) && id_text(secret@.id, t)) && final(self)@ == old(self)@,
            },
    {
        let ghost u = user_id@;
        match self.find_user(&user_id) {
            Some(i) => {
                proof {
                    lemma_lookup(self.user_safes@, i as int);
                }
                let id = *secret.id();
                if self.user_safes[i].1.secrets().contains_key(&id) {
                    return Err(SmartVaultErr::SecretDoesAlreadyExist(id.to_string()));
                }
                let ghost old_entries = self.user_safes@;
                let (key, mut vault) = self.user_safes.remove(i);
                let res = vault.add_secret(secret, decryption_material);
                self.user_safes.insert(i, (key, vault));
                proof {
                    assert(self.user_safes@ =~= old_entries.update(i as int, (old_entries[i as int].0, vault)));
                    lemma_update(old_entries, i as int, vault);
                    assert(old(self)@.insert(u, vault).remove(u) =~= old(self)@.remove(u));
                }
                res
            },
            None => {
                let ghost old_entries = self.user_safes@;
                let mut vault = UserVault::new();
                let res = vault.add_secret(secret, decryption_material);
                proof {
                    assert(res is Ok);
                }
                self.user_safes.push((user_id, vault));
                proof {
                    lemma_push(old_entries, (self.user_safes@.last().0, vault));
                    assert(self.user_safes@.last().0@ == u);
                    assert(old(self)@.insert(u, vault).remove(u) =~= old(self)@.remove(u));
                }
                res
            },
        }
    }

    /// Replaces a secret in `user_id`'s store by one with the same id; its
    /// key-box entry stays. Fails, changing nothing, when the store does not hold it.
    pub fn update_user_secret(&mut self, user_id: &UserID, secret: Secret) -> (r: Result<(), SmartVaultErr>)
        requires
            old(self).wf(),
        ensures
            final(self).wf(),
            r is Ok <==> secrets_of(old(self)@, user_id@).contains_key(secret@.id),
            match r {
                Ok(_) => {
                    &&& final(self)@.dom() == old(self)@.dom()
                    &&& final(self)@.remove(user_id@) == old(self)@.remove(user_id@)
                    &&& final(self)@[user_id@]@.secrets == old(self)@[user_id@]@.secrets.insert(secret@.id, secret)
                    &&& final(self)@[user_id@]@.key_box == old(self)@[user_id@]@.key_box
                },
                Err(e) => (e matches SmartVaultErr::SecretDoesNotExist(t) && id_text(secret@.id, t))
                    && final(self)@ == old(self)@,
            },
    {
        let id = *secret.id();
        let i = match self.find_user(user_id) {
            Some(i) => i,
            None => {
                return Err(SmartVaultErr::SecretDoesNotExist(id.to_string()));
            },
        };
        proof {
            lemma_lookup(self.user_safes@, i as int);
        }
        if !self.user_safes[i].1.secrets().contains_key(&id) {
            return Err(SmartVaultErr::SecretDoesNotExist(id.to_string()));
        }
        let ghost u = user_id@;
        let ghost old_entries = self.user_safes@;
        let (key, mut vault) = self.user_safes.remove(i);
        let res = vault.update_secret(secret);
        self.user_safes.insert(i, (key, vault));
        proof {
            assert(self.user_safes@ =~= old_entries.update(i as int, (old_entries[i as int].0, vault)));
            lemma_update(old_entries, i as int, vault);
            assert(old(self)@.insert(u, vault).remove(u) =~= old(self)@.remove(u));
            assert(old(self)@.insert(u, vault).dom() =~= old(self)@.dom());
        }
        res
    }

    /// Removes a secret and its key-box entry from `user_id`'s store. Fails,
    /// changing nothing, when the store does not hold it.
    pub fn remove_user_secret(&mut self, user_id: &UserID, secret_id: SecretID) -> (r: Result<
        (),
        SmartVaultErr,
    >)
        requires
            old(self).wf(),
        ensures
            final(self).wf(),
            r is Ok <==> secrets_of(old(self)@, user_id@).contains_key(secret_id),
            match r {
                Ok(_) => {
                    &&& final(self)@.dom() == old(self)@.dom()
                    &&& final(self)@.remove(user_id@) == old(self)@.remove(user_id@)
                    &&& final(self)@[user_id@]@.secrets == old(self)@[user_id@]@.secrets.remove(secret_id)
                    &&& final(self)@[user_id@]@.key_box == old(self)@[user_id@]@.key_box.remove(secret_id)
                },
                Err(e) => (e matches SmartVaultErr::SecretDoesNotExist(t) && id_text(secret_id, t))
                    && final(self)@ == old(self)@,
            },
    {
        let i = match self.find_user(user_id) {
            Some(i) => i,
            None => {
                return Err(SmartVaultErr::SecretDoesNotExist(secret_id.to_string()));
            },
        };
        proof {
            lemma_lookup(self.user_safes@, i as int);
        }
        if !self.user_safes[i].1.secrets().contains_key(&secret_id) {
            return Err(SmartVaultErr::SecretDoesNotExist(secret_id.to_string()));
        }
        let ghost u = user_id@;
        let ghost old_entries = self.user_safes@;
        let (key, mut vault) = self.user_safes.remove(i);
        let res = vault.remove_secret(&secret_id);
        self.user_safes.insert(i, (key, vault));
        proof {
            assert(self.user_safes@ =~= old_entries.update(i as int, (old_entries[i as int].0, vault)));
            lemma_update(old_entries, i as int, vault);
            assert(old(self)@.insert(u, vault).remove(u) =~= old(self)@.remove(u));
            assert(old(self)@.insert(u, vault).dom() =~= old(self)@.dom());
        }
        res
    }
}

} // verus!
