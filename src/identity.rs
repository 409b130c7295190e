use vstd::prelude::*;

verus! {

/// An authenticated principal, as the bytes that the platform gives for it.
pub type UserID = Vec<u8>;

/// Whether two identities are the same principal.
pub fn same_identity(a: &UserID, b: &UserID) -> (r: bool)
    ensures
        r == (a@ == b@),
{
    if a.len() != b.len() {
        return false;
    }
    let mut i: usize = 0;
    while i < a.len()
        invariant
            a.len() == b.len(),
            i <= a.len(),
            a@.take(i as int) == b@.take(i as int),
        decreases a.len() - i,
    {
        if a[i] != b[i] {
            assert(a@[i as int] != b@[i as int]);
            return false;
        }
        assert(a@.take(i + 1) =~= a@.take(i as int).push(a@[i as int]));
        assert(b@.take(i + 1) =~= b@.take(i as int).push(b@[i as int]));
        i = i + 1;
    }
    assert(a@ =~= a@.take(a.len() as int));
    assert(b@ =~= b@.take(b.len() as int));
    true
}

/// Whether `who` is one of the identities in `list`.
pub open spec fn listed(list: Seq<UserID>, who: Seq<u8>) -> bool {
    exists|i: int| 0 <= i < list.len() && (#[trigger] list[i])@ == who
}

/// Whether `who` is one of the identities in `list`.
pub fn is_listed(list: &Vec<UserID>, who: &UserID) -> (r: bool)
    ensures
        r == listed(list@, who@),
{
    let mut i: usize = 0;
    while i < list.len()
        invariant
            i <= list.len(),
            forall|j: int| 0 <= j < i ==> (#[trigger] list@[j])@ != who@,
        decreases list.len() - i,
    {
        if same_identity(&list[i], who) {
            return true;
        }
        i = i + 1;
    }
    false
}

} // verus!
