use vstd::prelude::*;

use std::collections::BTreeMap;

use crate::clock::{get_current_time, later_of, new_uuid, spec_later_of, UUID};
use crate::error::{id_text, SmartVaultErr};
use crate::identity::{is_listed, listed, same_identity, UserID};
use crate::master_safe::{secrets_of, MasterSafe};
use crate::secret::{SecretDecryptionMaterial, SecretID};

verus! {

broadcast use vstd::std_specs::btree::group_btree_axioms;

pub type TestamentID = UUID;

/// The inactivity threshold of a new testament: 180 days, in nanoseconds.
pub const DEFAULT_INACTIVITY_THRESHOLD: u64 = 15_552_000_000_000_000;

/// A testament is writable by its owner while active; once released it is read
/// by its beneficiaries and never becomes active again.
#[derive(Debug, Clone, Copy, PartialEq, Eq, Structural)]
pub enum TestamentState {
    Active,
    Released,
}

/// Release after inactivity: the testament is due once `threshold` nanoseconds
/// have passed since the owner's last recorded activity.
#[derive(Debug, Clone, Copy, PartialEq, Eq, Structural)]
pub struct ReleaseCondition {
    pub threshold: u64,
    pub last_owner_activity: u64,
}

/// A testament: the beneficiaries, and a key box that holds the keys of chosen
/// secrets re-wrapped under the testament's own derivation path.
#[derive(Debug, Clone)]
pub struct Testament {
    pub id: TestamentID,
    pub owner: UserID,
    pub date_created: u64,
    pub date_modified: u64,
    pub name: String,
    pub beneficiaries: Vec<UserID>,
    pub key_box: BTreeMap<SecretID, SecretDecryptionMaterial>,
    pub condition: ReleaseCondition,
    pub state: TestamentState,
}

/// Whether the inactivity condition of an active testament is met at `now`.
pub open spec fn due(t: Testament, now: u64) -> bool {
    &&& t.state is Active
    &&& now as int >= t.condition.last_owner_activity as int + t.condition.threshold as int
}

/// A testament after the monitor looked at it at `now`.
pub open spec fn after_check(t: Testament, now: u64) -> Testament {
    if due(t, now) {
        Testament { state: TestamentState::Released, date_modified: spec_later_of(t.date_modified, now), ..t }
    } else {
        t
    }
}

/// The ids of the testaments that the monitor releases at `now`, in order.
pub open spec fn released_ids(s: Seq<Testament>, now: u64) -> Seq<TestamentID>
    decreases s.len(),
{
    if s.len() == 0 {
        Seq::empty()
    } else {
        let before = released_ids(s.drop_last(), now);
        if due(s.last(), now) {
            before.push(s.last().id)
        } else {
            before
        }
    }
}

/// A testament after an owner's write at `now`: the owner's activity and the
/// modification date move forward, never backwards.
pub open spec fn touched(t: Testament, now: u64) -> Testament {
    Testament {
        date_modified: spec_later_of(t.date_modified, now),
        condition: ReleaseCondition {
            last_owner_activity: spec_later_of(t.condition.last_owner_activity, now),
            ..t.condition
        },
        ..t
    }
}

/// A testament after `owner` was active at `now`: an active testament of
/// theirs has its last recorded activity moved forward; any other is unchanged.
pub open spec fn after_activity(t: Testament, owner: Seq<u8>, now: u64) -> Testament {
    if t.owner@ == owner && t.state is Active {
        Testament {
            condition: ReleaseCondition {
                last_owner_activity: spec_later_of(t.condition.last_owner_activity, now),
                ..t.condition
            },
            ..t
        }
    } else {
        t
    }
}

/// The ids of the testaments of `s` that `owner` owns, in order.
pub open spec fn owned_ids(s: Seq<Testament>, owner: Seq<u8>) -> Seq<TestamentID>
    decreases s.len(),
{
    if s.len() == 0 {
        Seq::empty()
    } else {
        let before = owned_ids(s.drop_last(), owner);
        if s.last().owner@ == owner {
            before.push(s.last().id)
        } else {
            before
        }
    }
}

/// Whether some testament of `s` has the id `id`.
pub open spec fn has_testament(s: Seq<Testament>, id: TestamentID) -> bool {
    exists|i: int| 0 <= i < s.len() && (#[trigger] s[i]).id == id
}

/// The position of the testament with id `id` in `s`.
pub open spec fn position(s: Seq<Testament>, id: TestamentID) -> int {
    choose|i: int| 0 <= i < s.len() && (#[trigger] s[i]).id == id
}

/// The error of an owner's write on the testament with id `id`, if the write is refused.
pub open spec fn write_refusal(s: Seq<Testament>, caller: Seq<u8>, id: TestamentID) -> Option<
    SmartVaultErr,
> {
    if !has_testament(s, id) {
        Some(SmartVaultErr::TestamentDoesNotExist(arbitrary()))
    } else if s[position(s, id)].owner@ != caller {
        Some(SmartVaultErr::NotOwner)
    } else if s[position(s, id)].state is Released {
        Some(SmartVaultErr::TestamentNotActive)
    } else {
        None
    }
}

/// Whether `e` is the error that `expected` names; a missing testament is named
/// by the text of its id.
pub open spec fn same_kind(e: SmartVaultErr, expected: SmartVaultErr, id: TestamentID) -> bool {
    match expected {
        SmartVaultErr::TestamentDoesNotExist(_) => e is TestamentDoesNotExist && id_text(
            id,
            e->TestamentDoesNotExist_0,
        ),
        _ => e == expected,
    }
}

/// Release is final: the monitor leaves a released testament exactly as it is.
pub proof fn lemma_released_is_final(t: Testament, now: u64)
    requires
        t.state is Released,
    ensures
        after_check(t, now) == t,
{
}

/// The monitor moves a testament only from active to released: what it leaves
/// active was active and is unchanged.
pub proof fn lemma_check_never_reactivates(t: Testament, now: u64)
    ensures
        t.state is Released ==> after_check(t, now).state is Released,
        after_check(t, now).state is Active ==> after_check(t, now) == t,
{
}

/// A second run of the monitor at the same time changes nothing and releases
/// nothing.
pub proof fn lemma_evaluate_idempotent(s: Seq<Testament>, checked: Seq<Testament>, now: u64)
    requires
        checked.len() == s.len(),
        forall|i: int| 0 <= i < s.len() ==> checked[i] == after_check(#[trigger] s[i], now),
    ensures
        forall|i: int| 0 <= i < s.len() ==> after_check(#[trigger] checked[i], now) == checked[i],
        released_ids(checked, now).len() == 0,
    decreases s.len(),
{
    assert forall|i: int| 0 <= i < s.len() implies after_check(#[trigger] checked[i], now)
        == checked[i] by {
        assert(checked[i] == after_check(s[i], now));
    }
    if s.len() > 0 {
        lemma_evaluate_idempotent(s.drop_last(), checked.drop_last(), now);
        assert(checked.last() == after_check(s.last(), now));
    }
}

/// The testaments of all owners, in the order they were created.
pub struct TestamentEngine {
    testaments: Vec<Testament>,
}

impl View for TestamentEngine {
    type V = Seq<Testament>;

    closed spec fn view(&self) -> Seq<Testament> {
        self.testaments@
    }
}

impl TestamentEngine {
    /// Ids are unique, and no testament was modified before it was created.
    pub open spec fn wf(&self) -> bool {
        &&& forall|i: int, j: int|
            0 <= i < j < self@.len() ==> (#[trigger] self@[i]).id != (#[trigger] self@[j]).id
        &&& forall|i: int|
            0 <= i < self@.len() ==> (#[trigger] self@[i]).date_created
                <= self@[i].date_modified
    }

    proof fn lemma_position(&self, i: int)
        requires
            self.wf(),
            0 <= i < self@.len(),
        ensures
            has_testament(self@, self@[i].id),
            position(self@, self@[i].id) == i,
    {
        let id = self@[i].id;
        assert(has_testament(self@, id));
        let j = position(self@, id);
        if j < i {
            assert(self@[j].id != self@[i].id);
        } else if i < j {
            assert(self@[i].id != self@[j].id);
        }
    }

    pub fn new() -> (r: TestamentEngine)
        ensures
            r.wf(),
            r@ == Seq::<Testament>::empty(),
    {
        TestamentEngine { testaments: Vec::new() }
    }

    fn find(&self, id: TestamentID) -> (r: Option<usize>)
        requires
            self.wf(),
        ensures
            r is Some <==> has_testament(self@, id),
            match r {
                Some(i) => i < self@.len() && self@[i as int].id == id && position(self@, id) == i,
                None => true,
            },
    {
        let mut i: usize = 0;
        while i < self.testaments.len()
            invariant
                self.wf(),
                i <= self@.len(),
                forall|j: int| 0 <= j < i ==> (#[trigger] self@[j]).id != id,
            decreases self@.len() - i,
        {
            if self.testaments[i].id == id {
                proof {
                    self.lemma_position(i as int);
                }
                return Some(i);
            }
            i = i + 1;
        }
        None
    }

    /// The testament with id `id`.
    pub fn get_testament(&self, id: TestamentID) -> (r: Option<&Testament>)
        requires
            self.wf(),
        ensures
            r is Some <==> has_testament(self@, id),
            match r {
                Some(t) => *t == self@[position(self@, id)],
                None => true,
            },
    {
        match self.find(id) {
            Some(i) => Some(&self.testaments[i]),
            None => None,
        }
    }

    /// The ids of the testaments that `owner` owns, in the order they were created.
    pub fn testaments_of(&self, owner: &UserID) -> (r: Vec<TestamentID>)
        ensures
            r@ == owned_ids(self@, owner@),
    {
        let mut ids: Vec<TestamentID> = Vec::new();
        let mut i: usize = 0;
        while i < self.testaments.len()
            invariant
                i <= self@.len(),
                ids@ == owned_ids(self@.take(i as int), owner@),
            decreases self@.len() - i,
        {
            proof {
                assert(self@.take(i + 1).drop_last() =~= self@.take(i as int));
                assert(self@.take(i + 1).last() == self@[i as int]);
            }
            if same_identity(&self.testaments[i].owner, owner) {
                ids.push(self.testaments[i].id);
            }
            i = i + 1;
        }
        proof {
            assert(self@.take(self@.len() as int) =~= self@);
        }
        ids
    }

    /// Records a new active testament with the given id, owned by `owner`, with no
    /// beneficiaries, an empty key box and the default inactivity threshold.
    pub fn insert_testament(&mut self, id: TestamentID, owner: UserID, name: String, now: u64) -> (r:
        Result<(), SmartVaultErr>)
        requires
            old(self).wf(),
        ensures
            final(self).wf(),
            r is Ok <==> !has_testament(old(self)@, id),
            match r {
                Ok(_) => {
                    let t = final(self)@.last();
                    &&& final(self)@.drop_last() == old(self)@
                    &&& final(self)@.len() == old(self)@.len() + 1
                    &&& t.id == id
                    &&& t.owner@ == owner@
                    &&& t.name@ == name@
                    &&& t.date_created == now
                    &&& t.date_modified == now
                    &&& t.beneficiaries@.len() == 0
                    &&& t.key_box@.is_empty()
                    &&& t.condition == (ReleaseCondition {
                        threshold: DEFAULT_INACTIVITY_THRESHOLD,
                        last_owner_activity: now,
                    })
                    &&& t.state is Active
                },
                Err(e) => e matches SmartVaultErr::TestamentAlreadyExists(t) && id_text(id, t) && final(self)@
                    == old(self)@,
            },
    {
        if self.find(id).is_some() {
            return Err(SmartVaultErr::TestamentAlreadyExists(id.to_string()));
        }
        let t = Testament {
            id,
            owner,
            date_created: now,
            date_modified: now,
            name,
            beneficiaries: Vec::new(),
            key_box: BTreeMap::new(),
            condition: ReleaseCondition { threshold: DEFAULT_INACTIVITY_THRESHOLD, last_owner_activity: now },
            state: TestamentState::Active,
        };
        let ghost before = self@;
        self.testaments.push(t);
        proof {
            assert(self@.drop_last() =~= before);
            assert forall|i: int, j: int| 0 <= i < j < self@.len() implies (#[trigger] self@[i]).id
                != (#[trigger] self@[j]).id by {
                if j == before.len() {
                    assert(self@[i] == before[i]);
                } else {
                    assert(before[i].id != before[j].id);
                }
            }
        }
        Ok(())
    }

    /// Creates a new active testament of `owner` with a fresh id, now.
    pub fn create_testament(&mut self, owner: UserID, name: String) -> (r: Result<TestamentID, SmartVaultErr>)
        requires
            old(self).wf(),
        ensures
            final(self).wf(),
            match r {
                Ok(id) => {
                    &&& !has_testament(old(self)@, id)
                    &&& final(self)@.drop_last() == old(self)@
                    &&& final(self)@.len() == old(self)@.len() + 1
                    &&& final(self)@.last().id == id
                    &&& final(self)@.last().owner@ == owner@
                    &&& final(self)@.last().state is Active
                },
                Err(e) => e is TestamentAlreadyExists && final(self)@ == old(self)@,
            },
    {
        let id = new_uuid();
        let now = get_current_time();
        match self.insert_testament(id, owner, name, now) {
            Ok(_) => Ok(id),
            Err(e) => Err(e),
        }
    }

    /// The position of the testament that the owner `caller` may write, or the
    /// error that refuses the write.
    fn writable(&self, caller: &UserID, id: TestamentID) -> (r: Result<usize, SmartVaultErr>)
        requires
            self.wf(),
        ensures
            match r {
                Ok(i) => write_refusal(self@, caller@, id) is None && i == position(self@, id) && i
                    < self@.len(),
                Err(e) => write_refusal(self@, caller@, id) is Some && same_kind(e, write_refusal(self@, caller@, id).unwrap(), id),
            },
    {
        match self.find(id) {
            None => Err(SmartVaultErr::TestamentDoesNotExist(id.to_string())),
            Some(i) => {
                if !same_identity(&self.testaments[i].owner, caller) {
                    Err(SmartVaultErr::NotOwner)
                } else if self.testaments[i].state == TestamentState::Released {
                    Err(SmartVaultErr::TestamentNotActive)
                } else {
                    Ok(i)
                }
            },
        }
    }

    /// The owner edits the name, the beneficiaries and the inactivity threshold of
    /// an active testament; this counts as activity of the owner.
    pub fn update_testament(
        &mut self,
        caller: &UserID,
        id: TestamentID,
        name: String,
        beneficiaries: Vec<UserID>,
        threshold: u64,
        now: u64,
    ) -> (r: Result<(), SmartVaultErr>)
        requires
            old(self).wf(),
        ensures
            final(self).wf(),
            r is Ok <==> write_refusal(old(self)@, caller@, id) is None,
            match r {
                Ok(_) => {
                    let i = position(old(self)@, id);
                    let t = touched(old(self)@[i], now);
                    final(self)@ == old(self)@.update(
                        i,
                        Testament {
                            name,
                            beneficiaries,
                            condition: ReleaseCondition { threshold, ..t.condition },
                            ..t
                        },
                    )
                },
                Err(e) => same_kind(e, write_refusal(old(self)@, caller@, id).unwrap(), id) && final(self)@
                    == old(self)@,
            },
    {
        let i = self.writable(caller, id)?;
        let ghost before = self@;
        let cur = &mut self.testaments[i];
        cur.name = name;
        cur.beneficiaries = beneficiaries;
        cur.condition.threshold = threshold;
        cur.condition.last_owner_activity = later_of(cur.condition.last_owner_activity, now);
        cur.date_modified = later_of(cur.date_modified, now);
        proof {
            assert forall|a: int, b: int| 0 <= a < b < self@.len() implies (#[trigger] self@[a]).id
                != (#[trigger] self@[b]).id by {
                assert(before[a].id != before[b].id);
            }
        }
        Ok(())
    }

    /// The owner puts the key of one of their secrets into an active testament,
    /// re-wrapped under the testament's own derivation path. The secret must be in
    /// the owner's store; this counts as activity of the owner.
    pub fn add_secret_to_keybox(
        &mut self,
        vaults: &MasterSafe,
        caller: &UserID,
        id: TestamentID,
        secret_id: SecretID,
        testament_material: SecretDecryptionMaterial,
        now: u64,
    ) -> (r: Result<(), SmartVaultErr>)
        requires
            old(self).wf(),
            vaults.wf(),
        ensures
            final(self).wf(),
            r is Ok <==> write_refusal(old(self)@, caller@, id) is None && secrets_of(
                vaults@,
                caller@,
            ).contains_key(secret_id),
            match r {
                Ok(_) => {
                    let i = position(old(self)@, id);
                    let t = touched(old(self)@[i], now);
                    &&& final(self)@.len() == old(self)@.len()
                    &&& forall|j: int| 0 <= j < old(self)@.len() && j != i ==> final(self)@[j] == old(self)@[j]
                    &&& final(self)@[i].key_box@ == t.key_box@.insert(secret_id, testament_material)
                    &&& final(self)@[i] == (Testament { key_box: final(self)@[i].key_box, ..t })
                },
                Err(e) => final(self)@ == old(self)@ && if write_refusal(old(self)@, caller@, id) is Some {
                    same_kind(e, write_refusal(old(self)@, caller@, id).unwrap(), id)
                } else {
                    e matches SmartVaultErr::SecretDoesNotExist(t) && id_text(secret_id, t)
                },
            },
    {
        let i = self.writable(caller, id)?;
        let known = match vaults.get_user_safe(caller) {
            Some(v) => v.secrets().contains_key(&secret_id),
            None => false,
        };
        if !known {
            return Err(SmartVaultErr::SecretDoesNotExist(secret_id.to_string()));
        }
        let ghost before = self@;
        let cur = &mut self.testaments[i];
        cur.key_box.insert(secret_id, testament_material);
        cur.condition.last_owner_activity = later_of(cur.condition.last_owner_activity, now);
        cur.date_modified = later_of(cur.date_modified, now);
        proof {
            assert forall|a: int, b: int| 0 <= a < b < self@.len() implies (#[trigger] self@[a]).id
                != (#[trigger] self@[b]).id by {
                assert(before[a].id != before[b].id);
            }
        }
        Ok(())
    }

    /// A beneficiary reads the key box of a released testament.
    pub fn get_for_beneficiary(&self, caller: &UserID, id: TestamentID) -> (r: Result<
        BTreeMap<SecretID, SecretDecryptionMaterial>,
        SmartVaultErr,
    >)
        requires
            self.wf(),
        ensures
            !has_testament(self@, id) ==> (r matches Err(SmartVaultErr::TestamentDoesNotExist(t)) && id_text(id, t)),
            has_testament(self@, id) ==> {
                let t = self@[position(self@, id)];
                if t.state is Active {
                    r == Err::<BTreeMap<SecretID, SecretDecryptionMaterial>, SmartVaultErr>(
                        SmartVaultErr::NotReleased,
                    )
                } else if !listed(t.beneficiaries@, caller@) {
                    r == Err::<BTreeMap<SecretID, SecretDecryptionMaterial>, SmartVaultErr>(
                        SmartVaultErr::NotABeneficiary,
                    )
                } else {
                    r matches Ok(k) && k@ == t.key_box@
                }
            },
    {
        match self.find(id) {
            None => Err(SmartVaultErr::TestamentDoesNotExist(id.to_string())),
            Some(i) => {
                let t = &self.testaments[i];
                if t.state == TestamentState::Active {
                    Err(SmartVaultErr::NotReleased)
                } else if !is_listed(&t.beneficiaries, caller) {
                    Err(SmartVaultErr::NotABeneficiary)
                } else {
                    Ok(t.key_box.clone())
                }
            },
        }
    }

    /// Records that `owner` was active at `now`, which postpones the release of
    /// each of their active testaments. Released testaments are left as they are.
    pub fn record_owner_activity(&mut self, owner: &UserID, now: u64)
        requires
            old(self).wf(),
        ensures
            final(self).wf(),
            final(self)@.len() == old(self)@.len(),
            forall|i: int|
                0 <= i < old(self)@.len() ==> final(self)@[i] == after_activity(
                    #[trigger] old(self)@[i],
                    owner@,
                    now,
                ),
    {
        let ghost before = self@;
        let mut i: usize = 0;
        while i < self.testaments.len()
            invariant
                self.wf(),
                i <= self@.len(),
                self@.len() == before.len(),
                forall|j: int| 0 <= j < i ==> self@[j] == after_activity(before[j], owner@, now),
                forall|j: int| i <= j < self@.len() ==> self@[j] == before[j],
            decreases self@.len() - i,
        {
            let ghost prev = self@;
            if same_identity(&self.testaments[i].owner, owner) && self.testaments[i].state
                == TestamentState::Active {
                let cur = &mut self.testaments[i];
                cur.condition.last_owner_activity = later_of(cur.condition.last_owner_activity, now);
            }
            proof {
                assert forall|a: int, b: int| 0 <= a < b < self@.len() implies (#[trigger] self@[a]).id
                    != (#[trigger] self@[b]).id by {
                    assert(prev[a].id != prev[b].id);
                }
            }
            i = i + 1;
        }
    }

    /// The monitor's run at `now`: every active testament whose owner has been
    /// inactive for its threshold is released. Returns the released ids in order.
    pub fn evaluate_all_at(&mut self, now: u64) -> (r: Vec<TestamentID>)
        requires
            old(self).wf(),
        ensures
            final(self).wf(),
            final(self)@.len() == old(self)@.len(),
            forall|i: int| 0 <= i < old(self)@.len() ==> final(self)@[i] == after_check(old(self)@[i], now),
            r@ == released_ids(old(self)@, now),
    {
        let ghost before = self@;
        let mut released: Vec<TestamentID> = Vec::new();
        let mut i: usize = 0;
        while i < self.testaments.len()
            invariant
                self.wf(),
                i <= self@.len(),
                self@.len() == before.len(),
                forall|j: int| 0 <= j < i ==> self@[j] == after_check(before[j], now),
                forall|j: int| i <= j < self@.len() ==> self@[j] == before[j],
                released@ == released_ids(before.take(i as int), now),
            decreases self@.len() - i,
        {
            let ghost prev = self@;
            let t = &self.testaments[i];
            let is_due = t.state == TestamentState::Active && now as u128 >= t.condition.last_owner_activity as u128
                + t.condition.threshold as u128;
            if is_due {
                let cur = &mut self.testaments[i];
                cur.state = TestamentState::Released;
                cur.date_modified = later_of(cur.date_modified, now);
                released.push(cur.id);
            }
            proof {
                assert(before.take(i + 1).drop_last() =~= before.take(i as int));
                assert(before.take(i + 1).last() == before[i as int]);
                assert forall|a: int, b: int| 0 <= a < b < self@.len() implies (#[trigger] self@[a]).id
                    != (#[trigger] self@[b]).id by {
                    assert(prev[a].id != prev[b].id);
                }
            }
            i = i + 1;
        }
        proof {
            assert(before.take(before.len() as int) =~= before);
        }
        released
    }

    /// The monitor's run at the current time.
    pub fn evaluate_all(&mut self) -> (r: Vec<TestamentID>)
        requires
            old(self).wf(),
        ensures
            final(self).wf(),
            final(self)@.len() == old(self)@.len(),
            exists|now: u64|
                {
                    &&& forall|i: int| 0 <= i < old(self)@.len() ==> final(self)@[i] == after_check(
                        #[trigger] old(self)@[i],
                        now,
                    )
                    &&& r@ == released_ids(old(self)@, now)
                },
    {
        let now = get_current_time();
        self.evaluate_all_at(now)
    }
}

} // verus!
