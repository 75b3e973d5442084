//! The ledger-wide laws.
//!
//! Each public lemma here states one law of the ledger over the same
//! spec functions the operations' contracts use: conservation of the
//! total supply across genesis and transfers, exactness and the no-op
//! guarantee of failing transfers, replacement semantics of approvals,
//! allowance consumption, zero defaults, and the amount codec's round
//! trip.
use vstd::prelude::*;

use crate::codec::lemma_u128_be_bytes_round_trip;
use crate::codec::spec_u128_to_be_bytes;
use crate::contract::spec_allowance_of;
use crate::contract::spec_approve;
use crate::contract::spec_balance_of;
use crate::contract::spec_decode;
use crate::contract::spec_transfer;
use crate::contract::spec_transfer_from;
use crate::contract::genesis_total;
use crate::contract::genesis_writes;
use crate::contract::stored_amount;
use crate::contract::wrap_add;
use crate::keys::lemma_balance_key_injective;
use crate::keys::lemma_namespaces_disjoint;
use crate::keys::spec_allowance_key;
use crate::keys::spec_balance_key;
use crate::keys::spec_key_decimals;
use crate::keys::spec_key_name;
use crate::keys::spec_key_symbol;
use crate::keys::spec_key_total_supply;
use crate::state::Error;
use crate::state::dec_val;
use crate::state::lemma_dec_val_non_negative;
use crate::state::valid_amount;

verus! {

/// The balance of `a` read as a plain integer, zero when the entry is
/// absent or corrupted.
pub open spec fn bal_val(m: Map<Seq<u8>, Seq<u8>>, a: Seq<u8>) -> int {
    match spec_balance_of(m, a) {
        Some(v) => v as int,
        None => 0,
    }
}

/// The sum of the balances of `addrs`.
pub open spec fn sum_balances(m: Map<Seq<u8>, Seq<u8>>, addrs: Seq<Seq<u8>>) -> int
    decreases addrs.len(),
{
    if addrs.len() == 0 {
        0
    } else {
        sum_balances(m, addrs.drop_last()) + bal_val(m, addrs.last())
    }
}

/// Whether `addrs` lists every account that has a balance entry in the
/// store.
pub open spec fn covers(m: Map<Seq<u8>, Seq<u8>>, addrs: Seq<Seq<u8>>) -> bool {
    forall|a: Seq<u8>| #[trigger] m.dom().contains(spec_balance_key(a)) ==> addrs.contains(a)
}

/// Whether every listed account's balance entry decodes.
pub open spec fn all_balances_decode(m: Map<Seq<u8>, Seq<u8>>, addrs: Seq<Seq<u8>>) -> bool {
    forall|i: int| 0 <= i < addrs.len() ==> spec_balance_of(m, #[trigger] addrs[i]) is Some
}

/// Conservation: `addrs` lists each account once, covers every balance
/// entry, every such entry decodes, and the balances add up to the
/// stored total supply.
pub open spec fn conserved(m: Map<Seq<u8>, Seq<u8>>, addrs: Seq<Seq<u8>>) -> bool {
    &&& addrs.no_duplicates()
    &&& covers(m, addrs)
    &&& all_balances_decode(m, addrs)
    &&& stored_amount(m, spec_key_total_supply()) matches Some(t)
    &&& sum_balances(m, addrs) == stored_amount(m, spec_key_total_supply()).unwrap()
}

/// Two stores that agree on the balances of `addrs` give them the same
/// sum.
proof fn lemma_sum_same_on(m1: Map<Seq<u8>, Seq<u8>>, m2: Map<Seq<u8>, Seq<u8>>, addrs: Seq<Seq<u8>>)
    requires
        forall|i: int| 0 <= i < addrs.len() ==> spec_balance_of(m1, #[trigger] addrs[i])
            == spec_balance_of(m2, addrs[i]),
    ensures
        sum_balances(m1, addrs) == sum_balances(m2, addrs),
    decreases addrs.len(),
{
    if addrs.len() > 0 {
        lemma_sum_same_on(m1, m2, addrs.drop_last());
    }
}

/// A sum of balances is never negative.
proof fn lemma_sum_non_negative(m: Map<Seq<u8>, Seq<u8>>, addrs: Seq<Seq<u8>>)
    ensures
        sum_balances(m, addrs) >= 0,
    decreases addrs.len(),
{
    if addrs.len() > 0 {
        lemma_sum_non_negative(m, addrs.drop_last());
    }
}

/// A listed account's balance never exceeds the sum.
proof fn lemma_member_le_sum(m: Map<Seq<u8>, Seq<u8>>, addrs: Seq<Seq<u8>>, a: Seq<u8>)
    requires
        addrs.contains(a),
    ensures
        bal_val(m, a) <= sum_balances(m, addrs),
    decreases addrs.len(),
{
    let i = choose|i: int| 0 <= i < addrs.len() && addrs[i] == a;
    let rest = addrs.drop_last();
    lemma_sum_non_negative(m, rest);
    if addrs.last() != a {
        assert(rest[i] == a);
        lemma_member_le_sum(m, rest, a);
    }
}

/// Two different listed accounts' balances never exceed the sum
/// together.
proof fn lemma_two_members_le_sum(
    m: Map<Seq<u8>, Seq<u8>>,
    addrs: Seq<Seq<u8>>,
    f: Seq<u8>,
    t: Seq<u8>,
)
    requires
        addrs.contains(f),
        addrs.contains(t),
        f != t,
    ensures
        bal_val(m, f) + bal_val(m, t) <= sum_balances(m, addrs),
    decreases addrs.len(),
{
    let fi = choose|i: int| 0 <= i < addrs.len() && addrs[i] == f;
    let ti = choose|i: int| 0 <= i < addrs.len() && addrs[i] == t;
    let rest = addrs.drop_last();
    if addrs.last() == f {
        assert(rest[ti] == t);
        lemma_member_le_sum(m, rest, t);
    } else if addrs.last() == t {
        assert(rest[fi] == f);
        lemma_member_le_sum(m, rest, f);
    } else {
        assert(rest[fi] == f);
        assert(rest[ti] == t);
        lemma_two_members_le_sum(m, rest, f, t);
    }
}

/// Writing the balance of a listed account moves the sum by exactly
/// the difference between the new and the old value.
proof fn lemma_sum_update(m: Map<Seq<u8>, Seq<u8>>, addrs: Seq<Seq<u8>>, a: Seq<u8>, v: u128)
    requires
        addrs.no_duplicates(),
        addrs.contains(a),
    ensures
        sum_balances(m.insert(spec_balance_key(a), spec_u128_to_be_bytes(v)), addrs)
            == sum_balances(m, addrs) - bal_val(m, a) + v,
    decreases addrs.len(),
{
    lemma_u128_be_bytes_round_trip(v);
    let m2 = m.insert(spec_balance_key(a), spec_u128_to_be_bytes(v));
    let i0 = choose|i: int| 0 <= i < addrs.len() && addrs[i] == a;
    let l = addrs.last();
    let rest = addrs.drop_last();
    if l == a {
        assert(!rest.contains(a)) by {
            if rest.contains(a) {
                let j = choose|j: int| 0 <= j < rest.len() && rest[j] == a;
                assert(addrs[j] == a && addrs[addrs.len() - 1] == a);
            }
        }
        assert forall|i: int| 0 <= i < rest.len() implies spec_balance_of(
            m,
            #[trigger] rest[i],
        ) == spec_balance_of(m2, rest[i]) by {
            assert(rest[i] != a);
            lemma_balance_key_injective(rest[i], a);
        }
        lemma_sum_same_on(m, m2, rest);
        assert(bal_val(m2, a) == v);
    } else {
        assert(rest[i0] == a);
        lemma_sum_update(m, rest, a, v);
        lemma_balance_key_injective(l, a);
        assert(bal_val(m2, l) == bal_val(m, l));
    }
}

/// Balances and allowances are never negative: whatever decodes from
/// the store is a 128-bit unsigned amount.
pub proof fn lemma_non_negative(m: Map<Seq<u8>, Seq<u8>>, a: Seq<u8>, o: Seq<u8>, s: Seq<u8>)
    ensures
        spec_balance_of(m, a) matches Some(v) ==> v >= 0,
        spec_allowance_of(m, o, s) matches Some(w) ==> w >= 0,
{
}

/// Transfer correctness: with enough funds and no recipient overflow,
/// a transfer moves exactly `x` from `f` to `t` and touches no other
/// balance, no allowance, and not the total supply.
pub proof fn lemma_transfer_correct(m: Map<Seq<u8>, Seq<u8>>, f: Seq<u8>, t: Seq<u8>, x: u128)
    requires
        f != t,
        spec_balance_of(m, f) is Some,
        spec_balance_of(m, t) is Some,
        x <= spec_balance_of(m, f).unwrap(),
        spec_balance_of(m, t).unwrap() + x <= u128::MAX,
    ensures
        spec_transfer(m, f, t, x).1 == Ok::<(), Error>(()),
        ({
            let m2 = spec_transfer(m, f, t, x).0;
            &&& spec_balance_of(m2, f) == Some((spec_balance_of(m, f).unwrap() - x) as u128)
            &&& spec_balance_of(m2, t) == Some((spec_balance_of(m, t).unwrap() + x) as u128)
            &&& forall|a: Seq<u8>| a != f && a != t ==> #[trigger] spec_balance_of(m2, a)
                == spec_balance_of(m, a)
            &&& forall|o: Seq<u8>, s: Seq<u8>|
                #[trigger] spec_allowance_of(m2, o, s) == spec_allowance_of(m, o, s)
            &&& stored_amount(m2, spec_key_total_supply()) == stored_amount(
                m,
                spec_key_total_supply(),
            )
        }),
{
    let fb = spec_balance_of(m, f).unwrap();
    let tb = spec_balance_of(m, t).unwrap();
    let m1 = m.insert(spec_balance_key(f), spec_u128_to_be_bytes((fb - x) as u128));
    lemma_u128_be_bytes_round_trip((fb - x) as u128);
    lemma_balance_key_injective(f, t);
    assert(spec_balance_key(f) != spec_balance_key(t));
    assert(spec_balance_of(m1, t) == spec_balance_of(m, t));
    assert(wrap_add(tb, x) == (tb + x) as u128);
    lemma_u128_be_bytes_round_trip((tb + x) as u128);
    let m2 = spec_transfer(m, f, t, x).0;
    assert forall|a: Seq<u8>| a != f && a != t implies #[trigger] spec_balance_of(m2, a)
        == spec_balance_of(m, a) by {
        lemma_balance_key_injective(a, f);
        lemma_balance_key_injective(a, t);
    }
    assert forall|o: Seq<u8>, s: Seq<u8>| #[trigger] spec_allowance_of(m2, o, s)
        == spec_allowance_of(m, o, s) by {
        lemma_namespaces_disjoint(f, o, s);
        lemma_namespaces_disjoint(t, o, s);
    }
    lemma_namespaces_disjoint(f, f, f);
    lemma_namespaces_disjoint(t, t, t);
}

/// A transfer without sufficient funds fails with the two figures and
/// is a no-op.
pub proof fn lemma_transfer_insufficient(m: Map<Seq<u8>, Seq<u8>>, f: Seq<u8>, t: Seq<u8>, x: u128)
    requires
        spec_balance_of(m, f) is Some,
        spec_balance_of(m, f).unwrap() < x,
    ensures
        spec_transfer(m, f, t, x) == (
            m,
            Err::<(), Error>(
                Error::InsufficientFunds { balance: spec_balance_of(m, f).unwrap(), required: x },
            ),
        ),
{
}

/// Approving replaces: after two grants to the same pair the allowance
/// is the second amount, not the sum; other pairs, balances and the
/// total supply stay untouched.
pub proof fn lemma_approve_overwrites(
    m: Map<Seq<u8>, Seq<u8>>,
    o: Seq<u8>,
    s: Seq<u8>,
    a: u128,
    b: u128,
)
    requires
        o.len() < 65536,
    ensures
        spec_allowance_of(spec_approve(spec_approve(m, o, s, a), o, s, b), o, s) == Some(b),
        ({
            let m2 = spec_approve(spec_approve(m, o, s, a), o, s, b);
            &&& forall|o2: Seq<u8>, s2: Seq<u8>| o2.len() < 65536 && (o2, s2) != (o, s)
                ==> #[trigger] spec_allowance_of(m2, o2, s2) == spec_allowance_of(m, o2, s2)
            &&& forall|a2: Seq<u8>| #[trigger] spec_balance_of(m2, a2) == spec_balance_of(m, a2)
            &&& stored_amount(m2, spec_key_total_supply()) == stored_amount(
                m,
                spec_key_total_supply(),
            )
        }),
{
    lemma_u128_be_bytes_round_trip(b);
    let m2 = spec_approve(spec_approve(m, o, s, a), o, s, b);
    assert forall|o2: Seq<u8>, s2: Seq<u8>| o2.len() < 65536 && (o2, s2) != (o, s)
        implies #[trigger] spec_allowance_of(m2, o2, s2) == spec_allowance_of(m, o2, s2) by {
        crate::keys::lemma_allowance_key_injective(o2, s2, o, s);
    }
    assert forall|a2: Seq<u8>| #[trigger] spec_balance_of(m2, a2) == spec_balance_of(m, a2) by {
        lemma_namespaces_disjoint(a2, o, s);
    }
    lemma_namespaces_disjoint(o, o, s);
}

/// Allowance consumption: with enough allowance and funds and no
/// recipient overflow, a delegated transfer decrements the allowance
/// by exactly `x` and moves the balances as a direct transfer would;
/// with too small an allowance it fails with the two figures and is a
/// no-op.
pub proof fn lemma_transfer_from_correct(
    m: Map<Seq<u8>, Seq<u8>>,
    spender: Seq<u8>,
    owner: Seq<u8>,
    recipient: Seq<u8>,
    x: u128,
)
    requires
        owner != recipient,
        owner.len() < 65536,
        spec_allowance_of(m, owner, spender) is Some,
        spec_balance_of(m, owner) is Some,
        spec_balance_of(m, recipient) is Some,
        x <= spec_balance_of(m, owner).unwrap(),
        spec_balance_of(m, recipient).unwrap() + x <= u128::MAX,
    ensures
        spec_allowance_of(m, owner, spender).unwrap() < x ==> spec_transfer_from(
            m,
            spender,
            owner,
            recipient,
            x,
        ) == (
            m,
            Err::<(), Error>(
                Error::InsufficientAllowance {
                    allowance: spec_allowance_of(m, owner, spender).unwrap(),
                    required: x,
                },
            ),
        ),
        spec_allowance_of(m, owner, spender).unwrap() >= x ==> ({
            let m2 = spec_transfer_from(m, spender, owner, recipient, x).0;
            &&& spec_transfer_from(m, spender, owner, recipient, x).1 == Ok::<(), Error>(())
            &&& spec_allowance_of(m2, owner, spender) == Some(
                (spec_allowance_of(m, owner, spender).unwrap() - x) as u128,
            )
            &&& spec_balance_of(m2, owner) == Some((spec_balance_of(m, owner).unwrap() - x) as u128)
            &&& spec_balance_of(m2, recipient) == Some(
                (spec_balance_of(m, recipient).unwrap() + x) as u128,
            )
            &&& forall|a: Seq<u8>| a != owner && a != recipient ==> #[trigger] spec_balance_of(
                m2,
                a,
            ) == spec_balance_of(m, a)
            &&& forall|o2: Seq<u8>, s2: Seq<u8>| o2.len() < 65536 && (o2, s2) != (owner, spender)
                ==> #[trigger] spec_allowance_of(m2, o2, s2) == spec_allowance_of(m, o2, s2)
            &&& stored_amount(m2, spec_key_total_supply()) == stored_amount(
                m,
                spec_key_total_supply(),
            )
        }),
{
    let al = spec_allowance_of(m, owner, spender).unwrap();
    if al >= x {
        let m1 = m.insert(
            spec_allowance_key(owner, spender),
            spec_u128_to_be_bytes((al - x) as u128),
        );
        lemma_u128_be_bytes_round_trip((al - x) as u128);
        assert forall|a: Seq<u8>| true implies #[trigger] spec_balance_of(m1, a)
            == spec_balance_of(m, a) by {
            lemma_namespaces_disjoint(a, owner, spender);
        }
        lemma_transfer_correct(m1, owner, recipient, x);
        let m2 = spec_transfer_from(m, spender, owner, recipient, x).0;
        assert(spec_allowance_of(m2, owner, spender) == spec_allowance_of(m1, owner, spender));
        lemma_namespaces_disjoint(owner, owner, spender);
        assert forall|o2: Seq<u8>, s2: Seq<u8>| o2.len() < 65536 && (o2, s2) != (owner, spender)
            implies #[trigger] spec_allowance_of(m2, o2, s2) == spec_allowance_of(m, o2, s2) by {
            crate::keys::lemma_allowance_key_injective(o2, s2, owner, spender);
            assert(spec_allowance_of(m1, o2, s2) == spec_allowance_of(m, o2, s2));
            assert(spec_allowance_of(m2, o2, s2) == spec_allowance_of(m1, o2, s2));
        }
    }
}

/// Reads of never-written keys default to zero, for balances and for
/// allowances alike.
pub proof fn lemma_default_reads(m: Map<Seq<u8>, Seq<u8>>, a: Seq<u8>, o: Seq<u8>, s: Seq<u8>)
    requires
        !m.dom().contains(spec_balance_key(a)),
        !m.dom().contains(spec_allowance_key(o, s)),
    ensures
        spec_balance_of(m, a) == Some(0u128),
        spec_allowance_of(m, o, s) == Some(0u128),
{
}

/// The codec round trip: every 128-bit amount decodes from its own
/// encoding, and anything that is not exactly 16 bytes is corrupted
/// data.
pub proof fn lemma_codec_round_trip(x: u128, s: Seq<u8>)
    ensures
        spec_decode(spec_u128_to_be_bytes(x)) == Ok::<u128, Error>(x),
        s.len() != 16 ==> spec_decode(s) == Err::<u128, Error>(Error::CorruptedData),
{
    lemma_u128_be_bytes_round_trip(x);
}

/// A transfer that succeeds conserves the total: the listed accounts'
/// balances still add up to the unchanged stored total supply.
pub proof fn lemma_transfer_preserves_conservation(
    m: Map<Seq<u8>, Seq<u8>>,
    addrs: Seq<Seq<u8>>,
    f: Seq<u8>,
    t: Seq<u8>,
    x: u128,
)
    requires
        conserved(m, addrs),
        addrs.contains(f),
        addrs.contains(t),
        spec_transfer(m, f, t, x).1 is Ok,
    ensures
        conserved(spec_transfer(m, f, t, x).0, addrs),
        stored_amount(spec_transfer(m, f, t, x).0, spec_key_total_supply()) == stored_amount(
            m,
            spec_key_total_supply(),
        ),
{
    let fb = spec_balance_of(m, f).unwrap();
    let m1 = m.insert(spec_balance_key(f), spec_u128_to_be_bytes((fb - x) as u128));
    let tb = spec_balance_of(m1, t).unwrap();
    let m2 = spec_transfer(m, f, t, x).0;
    lemma_u128_be_bytes_round_trip((fb - x) as u128);

    // The recipient's increment cannot wrap: both balances fit under
    // the conserved total.
    if f == t {
        assert(tb == (fb - x) as u128);
        assert(tb + x <= u128::MAX);
    } else {
        lemma_balance_key_injective(f, t);
        assert(tb == spec_balance_of(m, t).unwrap());
        lemma_two_members_le_sum(m, addrs, f, t);
        assert(fb + tb <= sum_balances(m, addrs));
        assert(tb + x <= u128::MAX);
    }
    assert(wrap_add(tb, x) == (tb + x) as u128);
    lemma_u128_be_bytes_round_trip((tb + x) as u128);

    // The sum moves by -x at the sender and +x at the recipient.
    lemma_sum_update(m, addrs, f, (fb - x) as u128);
    assert(bal_val(m1, t) == tb);
    lemma_sum_update(m1, addrs, t, (tb + x) as u128);
    assert(sum_balances(m2, addrs) == sum_balances(m, addrs));

    // Coverage: the two touched keys belong to listed accounts.
    assert forall|a: Seq<u8>| #[trigger] m2.dom().contains(spec_balance_key(a)) implies
        addrs.contains(a) by {
        if spec_balance_key(a) == spec_balance_key(f) {
            lemma_balance_key_injective(a, f);
        } else if spec_balance_key(a) == spec_balance_key(t) {
            lemma_balance_key_injective(a, t);
        }
    }

    // Every listed balance still decodes.
    assert forall|i: int| 0 <= i < addrs.len() implies spec_balance_of(
        m2,
        #[trigger] addrs[i],
    ) is Some by {
        lemma_balance_key_injective(addrs[i], f);
        lemma_balance_key_injective(addrs[i], t);
    }

    // The total supply key sits outside the balance namespace.
    lemma_namespaces_disjoint(f, f, f);
    lemma_namespaces_disjoint(t, t, t);
}

/// An approval never touches a balance or the total supply, so it
/// conserves the total.
pub proof fn lemma_approve_preserves_conservation(
    m: Map<Seq<u8>, Seq<u8>>,
    addrs: Seq<Seq<u8>>,
    o: Seq<u8>,
    s: Seq<u8>,
    x: u128,
)
    requires
        conserved(m, addrs),
    ensures
        conserved(spec_approve(m, o, s, x), addrs),
{
    let m2 = spec_approve(m, o, s, x);
    assert forall|a: Seq<u8>| true implies #[trigger] spec_balance_of(m2, a) == spec_balance_of(
        m,
        a,
    ) by {
        lemma_namespaces_disjoint(a, o, s);
    }
    assert forall|i: int| 0 <= i < addrs.len() implies spec_balance_of(
        m2,
        #[trigger] addrs[i],
    ) is Some by {
        assert(spec_balance_of(m2, addrs[i]) == spec_balance_of(m, addrs[i]));
    }
    lemma_sum_same_on(m, m2, addrs);
    assert forall|a: Seq<u8>| #[trigger] m2.dom().contains(spec_balance_key(a)) implies
        addrs.contains(a) by {
        lemma_namespaces_disjoint(a, o, s);
    }
    lemma_namespaces_disjoint(o, o, s);
}

/// A delegated transfer that succeeds conserves the total as well: the
/// allowance write sits outside the balance namespace and the balance
/// moves cancel out.
pub proof fn lemma_transfer_from_preserves_conservation(
    m: Map<Seq<u8>, Seq<u8>>,
    addrs: Seq<Seq<u8>>,
    spender: Seq<u8>,
    owner: Seq<u8>,
    recipient: Seq<u8>,
    x: u128,
)
    requires
        conserved(m, addrs),
        addrs.contains(owner),
        addrs.contains(recipient),
        spec_transfer_from(m, spender, owner, recipient, x).1 is Ok,
    ensures
        conserved(spec_transfer_from(m, spender, owner, recipient, x).0, addrs),
{
    let al = spec_allowance_of(m, owner, spender).unwrap();
    lemma_approve_preserves_conservation(m, addrs, owner, spender, (al - x) as u128);
    let m1 = spec_approve(m, owner, spender, (al - x) as u128);
    lemma_transfer_preserves_conservation(m1, addrs, owner, recipient, x);
}

/// The genesis rows' running total as an unbounded integer.
pub open spec fn genesis_total_int(rows: Seq<(Seq<u8>, Seq<u8>)>, k: int) -> int
    decreases k,
{
    if k <= 0 {
        0
    } else {
        genesis_total_int(rows, k - 1) + dec_val(rows[k - 1].1)
    }
}

/// The genesis rows' accounts, in order.
pub open spec fn addresses_of(rows: Seq<(Seq<u8>, Seq<u8>)>) -> Seq<Seq<u8>> {
    rows.map_values(|p: (Seq<u8>, Seq<u8>)| p.0)
}

/// Whether every genesis row's amount is a valid numeral.
pub open spec fn all_rows_valid(rows: Seq<(Seq<u8>, Seq<u8>)>) -> bool {
    forall|i: int| 0 <= i < rows.len() ==> valid_amount((#[trigger] rows[i]).1)
}

/// The store a successful initialization leaves behind when it starts
/// from an empty store.
pub open spec fn spec_genesis_state(
    rows: Seq<(Seq<u8>, Seq<u8>)>,
    nameb: Seq<u8>,
    symb: Seq<u8>,
    dec: u8,
) -> Map<Seq<u8>, Seq<u8>> {
    genesis_writes(Map::empty(), rows, rows.len() as int).insert(spec_key_name(), nameb).insert(
        spec_key_symbol(),
        symb,
    ).insert(spec_key_decimals(), seq![dec]).insert(
        spec_key_total_supply(),
        spec_u128_to_be_bytes(genesis_total(rows, rows.len() as int)),
    )
}

/// Every key the genesis writes add is the balance key of some row.
proof fn lemma_genesis_writes_dom(
    m0: Map<Seq<u8>, Seq<u8>>,
    rows: Seq<(Seq<u8>, Seq<u8>)>,
    k: int,
    key: Seq<u8>,
)
    requires
        0 <= k <= rows.len(),
        genesis_writes(m0, rows, k).dom().contains(key),
        !m0.dom().contains(key),
    ensures
        exists|j: int| 0 <= j < k && key == #[trigger] spec_balance_key(rows[j].0),
    decreases k,
{
    if k > 0 {
        if key == spec_balance_key(rows[k - 1].0) {
            assert(0 <= k - 1 < k && key == spec_balance_key(rows[k - 1].0));
        } else {
            lemma_genesis_writes_dom(m0, rows, k - 1, key);
        }
    }
}

/// After the genesis writes each row's account holds exactly the
/// row's amount.
proof fn lemma_genesis_balances(rows: Seq<(Seq<u8>, Seq<u8>)>, k: int, j: int)
    requires
        all_rows_valid(rows),
        addresses_of(rows).no_duplicates(),
        0 <= j < k <= rows.len(),
    ensures
        spec_balance_of(genesis_writes(Map::empty(), rows, k), rows[j].0) == Some(
            dec_val(rows[j].1) as u128,
        ),
    decreases k,
{
    lemma_dec_val_non_negative(rows[j].1);
    if j == k - 1 {
        lemma_u128_be_bytes_round_trip(dec_val(rows[j].1) as u128);
    } else {
        lemma_genesis_balances(rows, k - 1, j);
        assert(addresses_of(rows)[j] == rows[j].0);
        assert(addresses_of(rows)[k - 1] == rows[k - 1].0);
        assert(rows[j].0 != rows[k - 1].0);
        lemma_balance_key_injective(rows[j].0, rows[k - 1].0);
    }
}

/// Accounts without a balance entry contribute nothing to the sum.
proof fn lemma_sum_balances_absent(m: Map<Seq<u8>, Seq<u8>>, addrs: Seq<Seq<u8>>)
    requires
        forall|i: int| 0 <= i < addrs.len() ==> !m.dom().contains(
            spec_balance_key(#[trigger] addrs[i]),
        ),
    ensures
        sum_balances(m, addrs) == 0,
    decreases addrs.len(),
{
    if addrs.len() > 0 {
        lemma_sum_balances_absent(m, addrs.drop_last());
    }
}

/// The genesis writes leave the rows' accounts summing to the running
/// total, with no earlier entry overwritten.
proof fn lemma_genesis_sum(rows: Seq<(Seq<u8>, Seq<u8>)>, k: int)
    requires
        all_rows_valid(rows),
        addresses_of(rows).no_duplicates(),
        0 <= k <= rows.len(),
    ensures
        sum_balances(genesis_writes(Map::empty(), rows, k), addresses_of(rows))
            == genesis_total_int(rows, k),
    decreases k,
{
    let addrs = addresses_of(rows);
    if k == 0 {
        lemma_sum_balances_absent(Map::empty(), addrs);
    } else {
        lemma_genesis_sum(rows, k - 1);
        let a = rows[k - 1].0;
        let prev = genesis_writes(Map::empty(), rows, k - 1);
        assert(addrs[k - 1] == a);
        assert(addrs.contains(a));
        assert(valid_amount(rows[k - 1].1));
        lemma_dec_val_non_negative(rows[k - 1].1);
        let v = dec_val(rows[k - 1].1) as u128;
        lemma_sum_update(prev, addrs, a, v);
        assert(!prev.dom().contains(spec_balance_key(a))) by {
            if prev.dom().contains(spec_balance_key(a)) {
                lemma_genesis_writes_dom(Map::empty(), rows, k - 1, spec_balance_key(a));
                let j = choose|j: int|
                    0 <= j < k - 1 && spec_balance_key(a) == spec_balance_key(rows[j].0);
                lemma_balance_key_injective(a, rows[j].0);
                assert(addrs[j] == addrs[k - 1]);
            }
        }
        assert(bal_val(prev, a) == 0);
    }
}

/// A running total over valid rows never goes negative.
proof fn lemma_genesis_total_int_non_negative(rows: Seq<(Seq<u8>, Seq<u8>)>, k: int)
    requires
        all_rows_valid(rows),
        0 <= k <= rows.len(),
    ensures
        genesis_total_int(rows, k) >= 0,
    decreases k,
{
    if k > 0 {
        lemma_genesis_total_int_non_negative(rows, k - 1);
        lemma_dec_val_non_negative(rows[k - 1].1);
    }
}

/// A prefix of the running total never exceeds the whole.
proof fn lemma_genesis_total_int_prefix(rows: Seq<(Seq<u8>, Seq<u8>)>, k: int)
    requires
        all_rows_valid(rows),
        0 <= k <= rows.len(),
    ensures
        genesis_total_int(rows, k) <= genesis_total_int(rows, rows.len() as int),
    decreases rows.len() - k,
{
    if k < rows.len() {
        lemma_dec_val_non_negative(rows[k].1);
        lemma_genesis_total_int_prefix(rows, k + 1);
    }
}

/// When the true total fits in 128 bits, the wrapping accumulation
/// never wraps.
proof fn lemma_genesis_total_no_wrap(rows: Seq<(Seq<u8>, Seq<u8>)>, k: int)
    requires
        all_rows_valid(rows),
        genesis_total_int(rows, rows.len() as int) <= u128::MAX,
        0 <= k <= rows.len(),
    ensures
        genesis_total(rows, k) == genesis_total_int(rows, k),
    decreases k,
{
    if k > 0 {
        lemma_genesis_total_no_wrap(rows, k - 1);
        lemma_dec_val_non_negative(rows[k - 1].1);
        lemma_genesis_total_int_non_negative(rows, k - 1);
        lemma_genesis_total_int_prefix(rows, k);
    }
}

/// Conservation holds from genesis: initializing an empty store with
/// rows whose accounts are distinct and whose true total fits in 128
/// bits leaves every account holding its row's amount and the stored
/// total supply equal to the sum of all balances.
pub proof fn lemma_genesis_conserved(
    rows: Seq<(Seq<u8>, Seq<u8>)>,
    nameb: Seq<u8>,
    symb: Seq<u8>,
    dec: u8,
)
    requires
        all_rows_valid(rows),
        addresses_of(rows).no_duplicates(),
        genesis_total_int(rows, rows.len() as int) <= u128::MAX,
    ensures
        conserved(spec_genesis_state(rows, nameb, symb, dec), addresses_of(rows)),
        stored_amount(spec_genesis_state(rows, nameb, symb, dec), spec_key_total_supply()) == Some(
            genesis_total(rows, rows.len() as int),
        ),
        forall|j: int| 0 <= j < rows.len() ==> spec_balance_of(
            spec_genesis_state(rows, nameb, symb, dec),
            (#[trigger] rows[j]).0,
        ) == Some(dec_val(rows[j].1) as u128),
{
    let n = rows.len() as int;
    let addrs = addresses_of(rows);
    let mg = genesis_writes(Map::empty(), rows, n);
    let mfull = spec_genesis_state(rows, nameb, symb, dec);
    lemma_genesis_sum(rows, n);
    lemma_genesis_total_no_wrap(rows, n);
    lemma_u128_be_bytes_round_trip(genesis_total(rows, n));
    assert forall|a: Seq<u8>| true implies #[trigger] spec_balance_of(mfull, a)
        == spec_balance_of(mg, a) by {
        lemma_namespaces_disjoint(a, a, a);
    }
    assert forall|i: int| 0 <= i < addrs.len() implies spec_balance_of(mg, #[trigger] addrs[i])
        == spec_balance_of(mfull, addrs[i]) by {
        lemma_namespaces_disjoint(addrs[i], addrs[i], addrs[i]);
    }
    lemma_sum_same_on(mg, mfull, addrs);
    assert forall|j: int| 0 <= j < n implies spec_balance_of(mfull, (#[trigger] rows[j]).0)
        == Some(dec_val(rows[j].1) as u128) by {
        lemma_genesis_balances(rows, n, j);
    }
    assert forall|i: int| 0 <= i < addrs.len() implies spec_balance_of(
        mfull,
        #[trigger] addrs[i],
    ) is Some by {
        assert(addrs[i] == rows[i].0);
        assert(spec_balance_of(mfull, rows[i].0) == Some(dec_val(rows[i].1) as u128));
    }
    assert forall|a: Seq<u8>| #[trigger] mfull.dom().contains(spec_balance_key(a)) implies
        addrs.contains(a) by {
        lemma_namespaces_disjoint(a, a, a);
        lemma_genesis_writes_dom(Map::empty(), rows, n, spec_balance_key(a));
        let j = choose|j: int| 0 <= j < n && spec_balance_key(a) == spec_balance_key(rows[j].0);
        lemma_balance_key_injective(a, rows[j].0);
        assert(addrs[j] == a);
    }
}

} // verus!
