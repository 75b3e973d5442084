//! Key namespacing.
//!
//! Three disjoint namespaces share one flat key space:
//!
//! - balances, under the length-prefixed namespace `"balance"`,
//!   followed by the canonical account identifier;
//! - allowances, under the length-prefixed namespace `"allowance"`,
//!   followed by the length-prefixed owner identifier and then the
//!   spender identifier;
//! - the well-known metadata keys `"name"`, `"symbol"`, `"decimals"`
//!   and `"total_supply"`, stored raw.
//!
//! A length-prefixed segment opens with two big-endian bytes holding
//! the segment's length, so namespaced keys always begin with a zero
//! byte (every namespace here is shorter than 256 bytes) while the
//! well-known keys begin with a letter: the namespaces can never
//! collide with each other or with the metadata keys, which the
//! lemmas below prove.
use vstd::prelude::*;

verus! {

/// The namespace of balance entries: the bytes of `"balance"`.
pub open spec fn balance_ns() -> Seq<u8> {
    seq![98u8, 97u8, 108u8, 97u8, 110u8, 99u8, 101u8]
}

/// The namespace of allowance entries: the bytes of `"allowance"`.
pub open spec fn allowance_ns() -> Seq<u8> {
    seq![97u8, 108u8, 108u8, 111u8, 119u8, 97u8, 110u8, 99u8, 101u8]
}

/// A segment opened by two big-endian bytes holding its length.
pub open spec fn length_prefixed(seg: Seq<u8>) -> Seq<u8>
    recommends
        seg.len() < 65536,
{
    seq![(seg.len() / 256) as u8, (seg.len() % 256) as u8] + seg
}

/// The key of an account's balance.
pub open spec fn spec_balance_key(addr: Seq<u8>) -> Seq<u8> {
    length_prefixed(balance_ns()) + addr
}

/// The key of the allowance granted by `owner` to `spender`.
pub open spec fn spec_allowance_key(owner: Seq<u8>, spender: Seq<u8>) -> Seq<u8> {
    length_prefixed(allowance_ns()) + length_prefixed(owner) + spender
}

/// The well-known key of the token name: the bytes of `"name"`.
pub open spec fn spec_key_name() -> Seq<u8> {
    seq![110u8, 97u8, 109u8, 101u8]
}

/// The well-known key of the ticker symbol: the bytes of `"symbol"`.
pub open spec fn spec_key_symbol() -> Seq<u8> {
    seq![115u8, 121u8, 109u8, 98u8, 111u8, 108u8]
}

/// The well-known key of the decimal places: the bytes of `"decimals"`.
pub open spec fn spec_key_decimals() -> Seq<u8> {
    seq![100u8, 101u8, 99u8, 105u8, 109u8, 97u8, 108u8, 115u8]
}

/// The well-known key of the total supply: the bytes of `"total_supply"`.
pub open spec fn spec_key_total_supply() -> Seq<u8> {
    seq![116u8, 111u8, 116u8, 97u8, 108u8, 95u8, 115u8, 117u8, 112u8, 112u8, 108u8, 121u8]
}

/// Builds the balance key of `addr`.
pub fn balance_key(addr: &[u8]) -> (r: Vec<u8>)
    ensures
        r@ == spec_balance_key(addr@),
{
    let mut v: Vec<u8> = Vec::new();
    v.push(0u8);
    v.push(7u8);
    v.push(98u8);
    v.push(97u8);
    v.push(108u8);
    v.push(97u8);
    v.push(110u8);
    v.push(99u8);
    v.push(101u8);
    proof {
        assert(v@ =~= length_prefixed(balance_ns()));
    }
    push_all(&mut v, addr);
    proof {
        assert(v@ =~= spec_balance_key(addr@));
    }
    v
}

/// Builds the allowance key of the pair (`owner`, `spender`).
pub fn allowance_key(owner: &[u8], spender: &[u8]) -> (r: Vec<u8>)
    requires
        owner@.len() < 65536,
    ensures
        r@ == spec_allowance_key(owner@, spender@),
{
    let mut v: Vec<u8> = Vec::new();
    v.push(0u8);
    v.push(9u8);
    v.push(97u8);
    v.push(108u8);
    v.push(108u8);
    v.push(111u8);
    v.push(119u8);
    v.push(97u8);
    v.push(110u8);
    v.push(99u8);
    v.push(101u8);
    proof {
        assert(v@ =~= length_prefixed(allowance_ns()));
    }
    v.push((owner.len() / 256) as u8);
    v.push((owner.len() % 256) as u8);
    push_all(&mut v, owner);
    proof {
        assert(v@ =~= length_prefixed(allowance_ns()) + length_prefixed(owner@));
    }
    push_all(&mut v, spender);
    proof {
        assert(v@ =~= spec_allowance_key(owner@, spender@));
    }
    v
}

/// Builds the well-known key of the token name.
pub fn key_name() -> (r: Vec<u8>)
    ensures
        r@ == spec_key_name(),
{
    let mut v: Vec<u8> = Vec::new();
    v.push(110u8);
    v.push(97u8);
    v.push(109u8);
    v.push(101u8);
    proof {
        assert(v@ =~= spec_key_name());
    }
    v
}

/// Builds the well-known key of the ticker symbol.
pub fn key_symbol() -> (r: Vec<u8>)
    ensures
        r@ == spec_key_symbol(),
{
    let mut v: Vec<u8> = Vec::new();
    v.push(115u8);
    v.push(121u8);
    v.push(109u8);
    v.push(98u8);
    v.push(111u8);
    v.push(108u8);
    proof {
        assert(v@ =~= spec_key_symbol());
    }
    v
}

/// Builds the well-known key of the decimal places.
pub fn key_decimals() -> (r: Vec<u8>)
    ensures
        r@ == spec_key_decimals(),
{
    let mut v: Vec<u8> = Vec::new();
    v.push(100u8);
    v.push(101u8);
    v.push(99u8);
    v.push(105u8);
    v.push(109u8);
    v.push(97u8);
    v.push(108u8);
    v.push(115u8);
    proof {
        assert(v@ =~= spec_key_decimals());
    }
    v
}

/// Builds the well-known key of the total supply.
pub fn key_total_supply() -> (r: Vec<u8>)
    ensures
        r@ == spec_key_total_supply(),
{
    let mut v: Vec<u8> = Vec::new();
    v.push(116u8);
    v.push(111u8);
    v.push(116u8);
    v.push(97u8);
    v.push(108u8);
    v.push(95u8);
    v.push(115u8);
    v.push(117u8);
    v.push(112u8);
    v.push(112u8);
    v.push(108u8);
    v.push(121u8);
    proof {
        assert(v@ =~= spec_key_total_supply());
    }
    v
}

/// Appends every byte of `tail` to `v`.
fn push_all(v: &mut Vec<u8>, tail: &[u8])
    ensures
        final(v)@ == old(v)@ + tail@,
{
    let ghost base = v@;
    for i in 0..tail.len()
        invariant
            v@ == base + tail@.take(i as int),
    {
        v.push(tail[i]);
        proof {
            assert(v@ =~= base + tail@.take(i as int + 1));
        }
    }
    proof {
        assert(v@ =~= base + tail@);
    }
}

/// Two accounts with the same balance key are the same account.
pub proof fn lemma_balance_key_injective(a1: Seq<u8>, a2: Seq<u8>)
    ensures
        spec_balance_key(a1) == spec_balance_key(a2) ==> a1 == a2,
{
    if spec_balance_key(a1) == spec_balance_key(a2) {
        assert(spec_balance_key(a1).len() == 9 + a1.len());
        assert(spec_balance_key(a2).len() == 9 + a2.len());
        assert forall|i: int| 0 <= i < a1.len() implies a1[i] == a2[i] by {
            assert(spec_balance_key(a1)[9 + i] == a1[i]);
            assert(spec_balance_key(a2)[9 + i] == a2[i]);
        }
        assert(a1 =~= a2);
    }
}

/// Two owner/spender pairs with the same allowance key are the same pair.
pub proof fn lemma_allowance_key_injective(o1: Seq<u8>, s1: Seq<u8>, o2: Seq<u8>, s2: Seq<u8>)
    requires
        o1.len() < 65536,
        o2.len() < 65536,
    ensures
        spec_allowance_key(o1, s1) == spec_allowance_key(o2, s2) ==> o1 == o2 && s1 == s2,
{
    if spec_allowance_key(o1, s1) == spec_allowance_key(o2, s2) {
        let k1 = spec_allowance_key(o1, s1);
        let k2 = spec_allowance_key(o2, s2);
        assert((length_prefixed(allowance_ns()) + length_prefixed(o1)).len() == 13 + o1.len());
        assert((length_prefixed(allowance_ns()) + length_prefixed(o2)).len() == 13 + o2.len());
        assert(k1.len() == 13 + o1.len() + s1.len());
        assert(k2.len() == 13 + o2.len() + s2.len());
        assert(k1[11] == (o1.len() / 256) as u8 && k1[12] == (o1.len() % 256) as u8);
        assert(k2[11] == (o2.len() / 256) as u8 && k2[12] == (o2.len() % 256) as u8);
        assert(o1.len() == 256 * (o1.len() / 256) + o1.len() % 256);
        assert(o2.len() == 256 * (o2.len() / 256) + o2.len() % 256);
        assert(o1.len() == o2.len());
        assert forall|i: int| 0 <= i < o1.len() implies o1[i] == o2[i] by {
            assert(k1[13 + i] == o1[i]);
            assert(k2[13 + i] == o2[i]);
        }
        assert(o1 =~= o2);
        assert(s1.len() == s2.len());
        assert forall|i: int| 0 <= i < s1.len() implies s1[i] == s2[i] by {
            assert(k1[13 + o1.len() + i] == s1[i]);
            assert(k2[13 + o2.len() + i] == s2[i]);
        }
        assert(s1 =~= s2);
    }
}

/// No balance key is an allowance key or a well-known metadata key,
/// no allowance key is a well-known metadata key, and the well-known
/// metadata keys are pairwise distinct.
pub proof fn lemma_namespaces_disjoint(addr: Seq<u8>, owner: Seq<u8>, spender: Seq<u8>)
    ensures
        spec_balance_key(addr) != spec_allowance_key(owner, spender),
        spec_balance_key(addr) != spec_key_name(),
        spec_balance_key(addr) != spec_key_symbol(),
        spec_balance_key(addr) != spec_key_decimals(),
        spec_balance_key(addr) != spec_key_total_supply(),
        spec_allowance_key(owner, spender) != spec_key_name(),
        spec_allowance_key(owner, spender) != spec_key_symbol(),
        spec_allowance_key(owner, spender) != spec_key_decimals(),
        spec_allowance_key(owner, spender) != spec_key_total_supply(),
        spec_key_name() != spec_key_symbol(),
        spec_key_name() != spec_key_decimals(),
        spec_key_name() != spec_key_total_supply(),
        spec_key_symbol() != spec_key_decimals(),
        spec_key_symbol() != spec_key_total_supply(),
        spec_key_decimals() != spec_key_total_supply(),
{
    assert(spec_balance_key(addr)[1] == 7u8);
    assert(spec_allowance_key(owner, spender)[1] == 9u8);
    assert(spec_balance_key(addr)[0] == 0u8);
    assert(spec_allowance_key(owner, spender)[0] == 0u8);
    assert(spec_key_name()[0] == 110u8);
    assert(spec_key_symbol()[0] == 115u8);
    assert(spec_key_decimals()[0] == 100u8);
    assert(spec_key_total_supply()[0] == 116u8);
}

} // verus!
