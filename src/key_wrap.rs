use vstd::prelude::*;

use crate::identity::UserID;
use crate::testament::TestamentID;

verus! {

/// Whose derived key a secret's key is wrapped under: the owner's personal path,
/// or a testament's own path. The two families of paths never meet.
#[derive(Debug, Clone)]
pub enum WrapTarget {
    Owner(UserID),
    Testament(TestamentID),
}

/// The first byte of an owner's derivation path.
pub const OWNER_PATH_TAG: u8 = 1;

/// The first byte of a testament's derivation path.
pub const TESTAMENT_PATH_TAG: u8 = 2;

/// The `n` low bytes of `v`, least significant first.
pub open spec fn le_bytes(v: nat, n: nat) -> Seq<u8>
    decreases n,
{
    if n == 0 {
        Seq::empty()
    } else {
        seq![(v % 256) as u8] + le_bytes(v / 256, (n - 1) as nat)
    }
}

/// The number read from bytes given least significant first.
pub open spec fn le_value(s: Seq<u8>) -> nat
    decreases s.len(),
{
    if s.len() == 0 {
        0
    } else {
        s[0] as nat + 256 * le_value(s.drop_first())
    }
}

/// How many values `n` bytes can hold.
pub open spec fn byte_span(n: nat) -> nat
    decreases n,
{
    if n == 0 {
        1
    } else {
        256 * byte_span((n - 1) as nat)
    }
}

/// The derivation path of a wrap target: a tag byte that names the family,
/// then the owner's identity bytes or the testament id's sixteen bytes.
pub open spec fn spec_derivation_path(target: WrapTarget) -> Seq<u8> {
    match target {
        WrapTarget::Owner(u) => seq![OWNER_PATH_TAG] + u@,
        WrapTarget::Testament(id) => seq![TESTAMENT_PATH_TAG] + le_bytes(id as nat, 16),
    }
}

/// Whether two wrap targets designate the same owner or the same testament.
pub open spec fn same_target(a: WrapTarget, b: WrapTarget) -> bool {
    match (a, b) {
        (WrapTarget::Owner(x), WrapTarget::Owner(y)) => x@ == y@,
        (WrapTarget::Testament(x), WrapTarget::Testament(y)) => x == y,
        _ => false,
    }
}

proof fn lemma_le_round_trip(v: nat, n: nat)
    requires
        v < byte_span(n),
    ensures
        le_value(le_bytes(v, n)) == v,
    decreases n,
{
    if n > 0 {
        let p = byte_span((n - 1) as nat);
        assert(v / 256 < p) by (nonlinear_arith)
            requires
                v < 256 * p,
        ;
        lemma_le_round_trip(v / 256, (n - 1) as nat);
        let s = le_bytes(v, n);
        assert(s.drop_first() =~= le_bytes(v / 256, (n - 1) as nat));
        assert(v == (v % 256) + 256 * (v / 256)) by (nonlinear_arith);
    }
}

/// The derivation path of a target. Paths of different targets differ: in
/// particular no testament's path is ever an owner's path.
pub fn derivation_path(target: &WrapTarget) -> (r: Vec<u8>)
    ensures
        r@ == spec_derivation_path(*target),
{
    match target {
        WrapTarget::Owner(u) => {
            let mut out: Vec<u8> = Vec::new();
            out.push(OWNER_PATH_TAG);
            let mut i: usize = 0;
            while i < u.len()
                invariant
                    i <= u@.len(),
                    out@ == seq![OWNER_PATH_TAG] + u@.take(i as int),
                decreases u@.len() - i,
            {
                out.push(u[i]);
                assert(u@.take(i + 1) =~= u@.take(i as int).push(u@[i as int]));
                i = i + 1;
            }
            assert(u@.take(u@.len() as int) =~= u@);
            out
        },
        WrapTarget::Testament(id) => {
            let mut out: Vec<u8> = Vec::new();
            out.push(TESTAMENT_PATH_TAG);
            let mut rest: u128 = *id;
            let mut k: usize = 0;
            while k < 16
                invariant
                    k <= 16,
                    out@ + le_bytes(rest as nat, (16 - k) as nat) == seq![TESTAMENT_PATH_TAG]
                        + le_bytes(*id as nat, 16),
                decreases 16 - k,
            {
                let ghost before = out@;
                let ghost tail = le_bytes((rest / 256) as nat, (16 - k - 1) as nat);
                out.push((rest % 256) as u8);
                assert(le_bytes(rest as nat, (16 - k) as nat) == seq![(rest % 256) as u8] + tail);
                assert(out@ + tail =~= before + (seq![(rest % 256) as u8] + tail));
                rest = rest / 256;
                k = k + 1;
            }
            assert(out@ + le_bytes(rest as nat, 0) =~= out@);
            out
        },
    }
}

/// Derivation paths name their targets: two targets share a path only when
/// they are the same owner or the same testament. So an owner's personal path
/// and a testament's path are never the same.
pub proof fn lemma_paths_distinct(a: WrapTarget, b: WrapTarget)
    requires
        spec_derivation_path(a) == spec_derivation_path(b),
    ensures
        same_target(a, b),
{
    let pa = spec_derivation_path(a);
    let pb = spec_derivation_path(b);
    assert(pa[0] == pb[0]);
    match (a, b) {
        (WrapTarget::Owner(x), WrapTarget::Owner(y)) => {
            assert(x@ =~= pa.drop_first());
            assert(y@ =~= pb.drop_first());
        },
        (WrapTarget::Testament(x), WrapTarget::Testament(y)) => {
            reveal_with_fuel(byte_span, 17);
            assert(byte_span(16) == 0x1_0000_0000_0000_0000_0000_0000_0000_0000);
            assert(le_bytes(x as nat, 16) =~= pa.drop_first());
            assert(le_bytes(y as nat, 16) =~= pb.drop_first());
            lemma_le_round_trip(x as nat, 16);
            lemma_le_round_trip(y as nat, 16);
        },
        _ => {},
    }
}

} // verus!
