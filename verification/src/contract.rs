//! The ledger operations.
//!
//! Four state transitions (initialize, transfer, approve,
//! transfer-from) and two read-only queries, each specified against a
//! map model of the store.  The host wraps every call in one
//! transaction: on an error the host discards all writes, so a partial
//! write that precedes an error (initialization rows before a bad one,
//! the balance write before a corrupted recipient entry, the allowance
//! write before an insufficient balance) never becomes visible there.
use vstd::prelude::*;
use vstd::string::StringSliceAdditionalSpecFns;

use crate::codec::spec_u128_from_be_bytes;
use crate::codec::spec_u128_to_be_bytes;
use crate::codec::u128_from_be_bytes;
use crate::codec::u128_to_be_bytes;
use crate::keys::allowance_key;
use crate::keys::balance_key;
use crate::keys::key_decimals;
use crate::keys::key_name;
use crate::keys::key_symbol;
use crate::keys::key_total_supply;
use crate::keys::spec_allowance_key;
use crate::keys::spec_balance_key;
use crate::keys::spec_key_decimals;
use crate::keys::spec_key_name;
use crate::keys::spec_key_symbol;
use crate::keys::spec_key_total_supply;
use crate::msg::AllowanceResponse;
use crate::msg::BalanceResponse;
use crate::msg::HandleMsg;
use crate::msg::InitMsg;
use crate::msg::InitialBalance;
use crate::msg::QueryAnswer;
use crate::msg::QueryMsg;
use crate::state::Amount;
use crate::state::CanonicalAddr;
use crate::state::Error;
use crate::state::Response;
use crate::state::dec_digits;
use crate::state::dec_val;
use crate::state::valid_amount;

verus! {

/// Addition of two amounts, wrapping modulo 2^128 as the unchecked
/// native addition would.
pub open spec fn wrap_add(x: u128, y: u128) -> u128 {
    if x + y > u128::MAX {
        (x + y - 0x1_0000_0000_0000_0000_0000_0000_0000_0000) as u128
    } else {
        (x + y) as u128
    }
}

/// Whether `r` is a success whose response carries the status line
/// `log` and no data.
pub open spec fn spec_ok_response(r: Result<Response, Error>, log: Seq<char>) -> bool {
    &&& r matches Ok(resp)
    &&& resp.log matches Some(l)
    &&& l@ == log
    &&& resp.data is None
}

/// Whether `r` is a success carrying the empty response.
pub open spec fn spec_ok_default(r: Result<Response, Error>) -> bool {
    &&& r matches Ok(resp)
    &&& resp.log is None
    &&& resp.data is None
}

/// The amount stored under `k`: zero if the key is absent, its decoded
/// value if it holds exactly 16 bytes, and nothing (corruption) else.
pub open spec fn stored_amount(m: Map<Seq<u8>, Seq<u8>>, k: Seq<u8>) -> Option<u128> {
    if !m.dom().contains(k) {
        Some(0u128)
    } else if m[k].len() == 16 {
        Some(spec_u128_from_be_bytes(m[k]))
    } else {
        None
    }
}

/// The balance of `addr`, if its entry is not corrupted.
pub open spec fn spec_balance_of(m: Map<Seq<u8>, Seq<u8>>, addr: Seq<u8>) -> Option<u128> {
    stored_amount(m, spec_balance_key(addr))
}

/// The allowance of the pair (`owner`, `spender`), if its entry is not
/// corrupted.
pub open spec fn spec_allowance_of(
    m: Map<Seq<u8>, Seq<u8>>,
    owner: Seq<u8>,
    spender: Seq<u8>,
) -> Option<u128> {
    stored_amount(m, spec_allowance_key(owner, spender))
}

/// What decoding a stored value yields: its amount, or the corruption
/// error.
pub open spec fn spec_decode(data: Seq<u8>) -> Result<u128, Error> {
    if data.len() == 16 {
        Ok(spec_u128_from_be_bytes(data))
    } else {
        Err(Error::CorruptedData)
    }
}

/// What reading the amount under `k` yields: zero for an absent key,
/// the decoded value, or the corruption error.
pub open spec fn spec_read(m: Map<Seq<u8>, Seq<u8>>, k: Seq<u8>) -> Result<u128, Error> {
    match stored_amount(m, k) {
        Some(v) => Ok(v),
        None => Err(Error::CorruptedData),
    }
}

/// The store and the result after moving `x` from `from` to `to`:
/// corruption aborts untouched (sender) or after the sender's
/// decrement (recipient); insufficient funds abort untouched; on
/// success the sender's balance drops by `x` and the recipient's rises
/// by `x`, the latter wrapping unchecked.
pub open spec fn spec_transfer(
    m: Map<Seq<u8>, Seq<u8>>,
    from: Seq<u8>,
    to: Seq<u8>,
    x: u128,
) -> (Map<Seq<u8>, Seq<u8>>, Result<(), Error>) {
    match spec_balance_of(m, from) {
        None => (m, Err(Error::CorruptedData)),
        Some(fb) => if fb < x {
            (m, Err(Error::InsufficientFunds { balance: fb, required: x }))
        } else {
            let m1 = m.insert(spec_balance_key(from), spec_u128_to_be_bytes((fb - x) as u128));
            match spec_balance_of(m1, to) {
                None => (m1, Err(Error::CorruptedData)),
                Some(tb) => (
                    m1.insert(spec_balance_key(to), spec_u128_to_be_bytes(wrap_add(tb, x))),
                    Ok(()),
                ),
            }
        },
    }
}

/// The store after `owner` grants `spender` an allowance of `x`: the
/// grant replaces any earlier allowance outright.
pub open spec fn spec_approve(
    m: Map<Seq<u8>, Seq<u8>>,
    owner: Seq<u8>,
    spender: Seq<u8>,
    x: u128,
) -> Map<Seq<u8>, Seq<u8>> {
    m.insert(spec_allowance_key(owner, spender), spec_u128_to_be_bytes(x))
}

/// The store and the result after `spender` moves `x` from `owner` to
/// `recipient` on the strength of an allowance.  The allowance is
/// consumed before the balances move; if the balance transfer then
/// fails, the consumed allowance stays consumed at this level and the
/// host's transaction discards it.
pub open spec fn spec_transfer_from(
    m: Map<Seq<u8>, Seq<u8>>,
    spender: Seq<u8>,
    owner: Seq<u8>,
    recipient: Seq<u8>,
    x: u128,
) -> (Map<Seq<u8>, Seq<u8>>, Result<(), Error>) {
    match spec_allowance_of(m, owner, spender) {
        None => (m, Err(Error::CorruptedData)),
        Some(al) => if al < x {
            (m, Err(Error::InsufficientAllowance { allowance: al, required: x }))
        } else {
            let m1 = m.insert(
                spec_allowance_key(owner, spender),
                spec_u128_to_be_bytes((al - x) as u128),
            );
            spec_transfer(m1, owner, recipient, x)
        },
    }
}

/// The genesis rows as pairs of canonical address bytes and numeral
/// bytes.
pub open spec fn rows_view(bs: Seq<InitialBalance>) -> Seq<(Seq<u8>, Seq<u8>)> {
    bs.map_values(|b: InitialBalance| (b.address@, b.amount@))
}

/// The store after writing the first `k` genesis balances.
pub open spec fn genesis_writes(
    m: Map<Seq<u8>, Seq<u8>>,
    rows: Seq<(Seq<u8>, Seq<u8>)>,
    k: int,
) -> Map<Seq<u8>, Seq<u8>>
    decreases k,
{
    if k <= 0 {
        m
    } else {
        genesis_writes(m, rows, k - 1).insert(
            spec_balance_key(rows[k - 1].0),
            spec_u128_to_be_bytes(dec_val(rows[k - 1].1) as u128),
        )
    }
}

/// The running total of the first `k` genesis balances, accumulated
/// with unchecked (wrapping) addition.
pub open spec fn genesis_total(rows: Seq<(Seq<u8>, Seq<u8>)>, k: int) -> u128
    decreases k,
{
    if k <= 0 {
        0u128
    } else {
        wrap_add(genesis_total(rows, k - 1), dec_val(rows[k - 1].1) as u128)
    }
}

/// The index of the first genesis row whose amount is not a valid
/// numeral, or the row count if all parse.
pub open spec fn first_invalid_row(rows: Seq<(Seq<u8>, Seq<u8>)>) -> int
    decreases rows.len(),
{
    if rows.len() == 0 {
        0
    } else if !valid_amount(rows[0].1) {
        0
    } else {
        1 + first_invalid_row(rows.drop_first())
    }
}

/// Pins `first_invalid_row` down: if the rows before `i` parse, and
/// row `i` (when there is one) does not, the first invalid row is `i`.
proof fn lemma_first_invalid_row(rows: Seq<(Seq<u8>, Seq<u8>)>, i: int)
    requires
        0 <= i <= rows.len(),
        forall|j: int| 0 <= j < i ==> valid_amount(#[trigger] rows[j].1),
        i < rows.len() ==> !valid_amount(rows[i].1),
    ensures
        first_invalid_row(rows) == i,
    decreases rows.len(),
{
    if rows.len() > 0 && i > 0 {
        assert(valid_amount(rows[0].1));
        lemma_first_invalid_row(rows.drop_first(), i - 1);
    }
}

/// Whether `s` can serve as the token name: 3 to 30 bytes.
pub open spec fn spec_valid_name(s: Seq<u8>) -> bool {
    3 <= s.len() <= 30
}

/// Whether `s` can serve as the ticker symbol: 3 to 6 bytes, each an
/// uppercase ASCII letter.
pub open spec fn spec_valid_symbol(s: Seq<u8>) -> bool {
    3 <= s.len() <= 6 && forall|i: int| 0 <= i < s.len() ==> 65 <= #[trigger] s[i] <= 90
}

/// Checks the token name's length.
pub fn is_valid_name(name: &str) -> (r: bool)
    ensures
        r == spec_valid_name(name.spec_bytes()),
{
    let n = name.as_bytes().len();
    3 <= n && n <= 30
}

/// Checks the ticker symbol: 3 to 6 uppercase ASCII letters.
pub fn is_valid_symbol(symbol: &str) -> (r: bool)
    ensures
        r == spec_valid_symbol(symbol.spec_bytes()),
{
    let bytes = symbol.as_bytes();
    let n = bytes.len();
    if n < 3 || n > 6 {
        return false;
    }
    for i in 0..n
        invariant
            forall|j: int| 0 <= j < i ==> 65 <= #[trigger] bytes@[j] <= 90,
    {
        if bytes[i] < 65 || bytes[i] > 90 {
            return false;
        }
    }
    true
}

/// Reads a 128-bit amount out of a stored value, which must be exactly
/// 16 bytes; anything else is corrupted data.
pub fn bytes_to_u128(data: &[u8]) -> (r: Result<u128, Error>)
    ensures
        r == spec_decode(data@),
{
    if data.len() == 16 {
        Ok(u128_from_be_bytes(data))
    } else {
        Err(Error::CorruptedData)
    }
}

/// Reads the amount stored under `key`: zero if the key is absent,
/// corrupted data if the value is not exactly 16 bytes.
pub fn read_u128(store: &crate::store::Store, key: &[u8]) -> (r: Result<u128, Error>)
    ensures
        r == spec_read(store@, key@),
{
    match store.get(key) {
        Some(data) => bytes_to_u128(data.as_slice()),
        None => Ok(0u128),
    }
}

/// Reads `owner`'s balance.
pub fn read_balance(store: &crate::store::Store, owner: &CanonicalAddr) -> (r: Result<u128, Error>)
    ensures
        r == spec_read(store@, spec_balance_key(owner@)),
{
    let k = balance_key(owner.as_bytes());
    read_u128(store, k.as_slice())
}

/// Reads the allowance granted by `owner` to `spender`.
pub fn read_allowance(
    store: &crate::store::Store,
    owner: &CanonicalAddr,
    spender: &CanonicalAddr,
) -> (r: Result<u128, Error>)
    requires
        owner@.len() < 65536,
    ensures
        r == spec_read(store@, spec_allowance_key(owner@, spender@)),
{
    let k = allowance_key(owner.as_bytes(), spender.as_bytes());
    read_u128(store, k.as_slice())
}

/// Overwrites the allowance granted by `owner` to `spender`.
pub fn write_allowance(
    store: &mut crate::store::Store,
    owner: &CanonicalAddr,
    spender: &CanonicalAddr,
    amount: u128,
)
    requires
        owner@.len() < 65536,
    ensures
        final(store)@ == old(store)@.insert(
            spec_allowance_key(owner@, spender@),
            spec_u128_to_be_bytes(amount),
        ),
{
    let k = allowance_key(owner.as_bytes(), spender.as_bytes());
    let enc = u128_to_be_bytes(amount);
    store.set(k.as_slice(), enc.as_slice());
}

/// Moves `amount` from `from` to `to`: fails with insufficient funds
/// (and no change) if `from` holds less, decrements `from`, then
/// increments `to` without an overflow check, as `spec_transfer` says.
pub fn perform_transfer(
    store: &mut crate::store::Store,
    from: &CanonicalAddr,
    to: &CanonicalAddr,
    amount: u128,
) -> (r: Result<(), Error>)
    ensures
        ({
            let o = spec_transfer(old(store)@, from@, to@, amount);
            final(store)@ == o.0 && r == o.1
        }),
{
    let fk = balance_key(from.as_bytes());
    let from_balance = match read_u128(store, fk.as_slice()) {
        Ok(v) => v,
        Err(e) => {
            return Err(e);
        },
    };
    if from_balance < amount {
        return Err(Error::InsufficientFunds { balance: from_balance, required: amount });
    }
    let enc = u128_to_be_bytes(from_balance - amount);
    store.set(fk.as_slice(), enc.as_slice());
    let tk = balance_key(to.as_bytes());
    let to_balance = match read_u128(store, tk.as_slice()) {
        Ok(v) => v,
        Err(e) => {
            return Err(e);
        },
    };
    let enc2 = u128_to_be_bytes(to_balance.wrapping_add(amount));
    store.set(tk.as_slice(), enc2.as_slice());
    Ok(())
}

/// Transfers `amount` (a numeral, parsed here) from the signing
/// `sender` to `recipient`.
pub fn try_transfer(
    store: &mut crate::store::Store,
    sender: &CanonicalAddr,
    recipient: &CanonicalAddr,
    amount: &Amount,
) -> (r: Result<Response, Error>)
    ensures
        !valid_amount(amount@) ==> r == Err::<Response, Error>(Error::ParseErr) && final(store)@
            == old(store)@,
        valid_amount(amount@) ==> ({
            let o = spec_transfer(old(store)@, sender@, recipient@, dec_val(amount@) as u128);
            &&& final(store)@ == o.0
            &&& (o.1 matches Err(e) ==> r == Err::<Response, Error>(e))
            &&& (o.1 is Ok ==> spec_ok_response(r, "transfer successful"@))
        }),
{
    let amount_raw = match amount.parse() {
        Ok(v) => v,
        Err(e) => {
            return Err(e);
        },
    };
    match perform_transfer(store, sender, recipient, amount_raw) {
        Ok(_) => Ok(Response { log: Some("transfer successful".to_owned()), data: None }),
        Err(e) => Err(e),
    }
}

/// Grants `spender` an allowance out of the signing `owner`'s balance,
/// replacing any earlier allowance between the two.
pub fn try_approve(
    store: &mut crate::store::Store,
    owner: &CanonicalAddr,
    spender: &CanonicalAddr,
    amount: &Amount,
) -> (r: Result<Response, Error>)
    requires
        owner@.len() < 65536,
    ensures
        !valid_amount(amount@) ==> r == Err::<Response, Error>(Error::ParseErr) && final(store)@
            == old(store)@,
        valid_amount(amount@) ==> final(store)@ == spec_approve(
            old(store)@,
            owner@,
            spender@,
            dec_val(amount@) as u128,
        ) && spec_ok_response(r, "approve successful"@),
{
    let amount_raw = match amount.parse() {
        Ok(v) => v,
        Err(e) => {
            return Err(e);
        },
    };
    write_allowance(store, owner, spender, amount_raw);
    Ok(Response { log: Some("approve successful".to_owned()), data: None })
}

/// Transfers `amount` from `owner` to `recipient` on the strength of
/// the allowance `owner` granted to the signing `spender`; the
/// allowance is consumed first.
pub fn try_transfer_from(
    store: &mut crate::store::Store,
    spender: &CanonicalAddr,
    owner: &CanonicalAddr,
    recipient: &CanonicalAddr,
    amount: &Amount,
) -> (r: Result<Response, Error>)
    requires
        owner@.len() < 65536,
    ensures
        !valid_amount(amount@) ==> r == Err::<Response, Error>(Error::ParseErr) && final(store)@
            == old(store)@,
        valid_amount(amount@) ==> ({
            let o = spec_transfer_from(
                old(store)@,
                spender@,
                owner@,
                recipient@,
                dec_val(amount@) as u128,
            );
            &&& final(store)@ == o.0
            &&& (o.1 matches Err(e) ==> r == Err::<Response, Error>(e))
            &&& (o.1 is Ok ==> spec_ok_response(r, "transfer from successful"@))
        }),
{
    let amount_raw = match amount.parse() {
        Ok(v) => v,
        Err(e) => {
            return Err(e);
        },
    };
    let mut allowance = match read_allowance(store, owner, spender) {
        Ok(v) => v,
        Err(e) => {
            return Err(e);
        },
    };
    if allowance < amount_raw {
        return Err(Error::InsufficientAllowance { allowance, required: amount_raw });
    }
    allowance = allowance - amount_raw;
    write_allowance(store, owner, spender, allowance);
    match perform_transfer(store, owner, recipient, amount_raw) {
        Ok(_) => Ok(Response { log: Some("transfer from successful".to_owned()), data: None }),
        Err(e) => Err(e),
    }
}

/// Writes the genesis balances (accumulating the total supply with
/// unchecked addition), validates the metadata, and persists the
/// metadata and the total supply.  The balance writes precede the
/// metadata validation, so a failing validation leaves them for the
/// host's transaction to discard.
pub fn init(store: &mut crate::store::Store, msg: &InitMsg) -> (r: Result<Response, Error>)
    ensures
        ({
            let m = old(store)@;
            let rows = rows_view(msg.initial_balances@);
            let j = first_invalid_row(rows);
            let n = rows.len() as int;
            &&& (j < n ==> r == Err::<Response, Error>(Error::ParseErr) && final(store)@
                == genesis_writes(m, rows, j))
            &&& (j == n ==> ({
                let m1 = genesis_writes(m, rows, n);
                &&& (!spec_valid_name(vstd::utf8::encode_utf8(msg.name@)) ==> r == Err::<Response, Error>(
                    Error::InvalidName,
                ) && final(store)@ == m1)
                &&& (spec_valid_name(vstd::utf8::encode_utf8(msg.name@)) && !spec_valid_symbol(
                    vstd::utf8::encode_utf8(msg.symbol@),
                ) ==> r == Err::<Response, Error>(Error::InvalidSymbol) && final(store)@ == m1)
                &&& (spec_valid_name(vstd::utf8::encode_utf8(msg.name@)) && spec_valid_symbol(
                    vstd::utf8::encode_utf8(msg.symbol@),
                ) && msg.decimals > 18 ==> r == Err::<Response, Error>(Error::InvalidDecimals)
                    && final(store)@ == m1)
                &&& (spec_valid_name(vstd::utf8::encode_utf8(msg.name@)) && spec_valid_symbol(
                    vstd::utf8::encode_utf8(msg.symbol@),
                ) && msg.decimals <= 18 ==> spec_ok_default(r) && final(store)@ == m1.insert(spec_key_name(), vstd::utf8::encode_utf8(msg.name@))
                    .insert(spec_key_symbol(), vstd::utf8::encode_utf8(msg.symbol@)).insert(
                    spec_key_decimals(),
                    seq![msg.decimals],
                ).insert(
                    spec_key_total_supply(),
                    spec_u128_to_be_bytes(genesis_total(rows, n)),
                ))
            }))
        }),
{
    let ghost rows = rows_view(msg.initial_balances@);
    let mut total: u128 = 0;
    let n = msg.initial_balances.len();
    for i in 0..n
        invariant
            store@ == genesis_writes(old(store)@, rows, i as int),
            total == genesis_total(rows, i as int),
            forall|j: int| 0 <= j < i ==> valid_amount(#[trigger] rows[j].1),
    {
        let row = &msg.initial_balances[i];
        let amount_raw = match row.amount.parse() {
            Ok(v) => v,
            Err(e) => {
                proof {
                    lemma_first_invalid_row(rows, i as int);
                }
                return Err(e);
            },
        };
        let k = balance_key(row.address.as_bytes());
        let enc = u128_to_be_bytes(amount_raw);
        store.set(k.as_slice(), enc.as_slice());
        total = total.wrapping_add(amount_raw);
    }
    proof {
        lemma_first_invalid_row(rows, n as int);
    }
    if !is_valid_name(msg.name.as_str()) {
        return Err(Error::InvalidName);
    }
    if !is_valid_symbol(msg.symbol.as_str()) {
        return Err(Error::InvalidSymbol);
    }
    if msg.decimals > 18 {
        return Err(Error::InvalidDecimals);
    }
    let kn = key_name();
    store.set(kn.as_slice(), msg.name.as_str().as_bytes());
    let ks = key_symbol();
    store.set(ks.as_slice(), msg.symbol.as_str().as_bytes());
    let kd = key_decimals();
    let mut dv: Vec<u8> = Vec::new();
    dv.push(msg.decimals);
    store.set(kd.as_slice(), dv.as_slice());
    proof {
        assert(dv@ =~= seq![msg.decimals]);
    }
    let kt = key_total_supply();
    let enc = u128_to_be_bytes(total);
    store.set(kt.as_slice(), enc.as_slice());
    Ok(Response::default())
}

/// Dispatches a state-changing request on behalf of `signer`.
pub fn handle(
    store: &mut crate::store::Store,
    signer: &CanonicalAddr,
    msg: &HandleMsg,
) -> (r: Result<Response, Error>)
    requires
        msg matches HandleMsg::Approve { .. } ==> signer@.len() < 65536,
        msg matches HandleMsg::TransferFrom { owner, .. } ==> owner@.len() < 65536,
    ensures
        msg matches HandleMsg::Approve { spender, amount } ==> ({
            &&& (!valid_amount(amount@) ==> r == Err::<Response, Error>(Error::ParseErr) && final(store)@ == old(store)@)
            &&& (valid_amount(amount@) ==> final(store)@ == spec_approve(
                old(store)@,
                signer@,
                spender@,
                dec_val(amount@) as u128,
            ) && spec_ok_response(r, "approve successful"@))
        }),
        msg matches HandleMsg::Transfer { recipient, amount } ==> ({
            &&& (!valid_amount(amount@) ==> r == Err::<Response, Error>(Error::ParseErr) && final(store)@ == old(store)@)
            &&& (valid_amount(amount@) ==> ({
                let o = spec_transfer(old(store)@, signer@, recipient@, dec_val(amount@) as u128);
                &&& final(store)@ == o.0
                &&& (o.1 matches Err(e) ==> r == Err::<Response, Error>(e))
                &&& (o.1 is Ok ==> spec_ok_response(r, "transfer successful"@))
            }))
        }),
        msg matches HandleMsg::TransferFrom { owner, recipient, amount } ==> ({
            &&& (!valid_amount(amount@) ==> r == Err::<Response, Error>(Error::ParseErr) && final(store)@ == old(store)@)
            &&& (valid_amount(amount@) ==> ({
                let o = spec_transfer_from(
                    old(store)@,
                    signer@,
                    owner@,
                    recipient@,
                    dec_val(amount@) as u128,
                );
                &&& final(store)@ == o.0
                &&& (o.1 matches Err(e) ==> r == Err::<Response, Error>(e))
                &&& (o.1 is Ok ==> spec_ok_response(r, "transfer from successful"@))
            }))
        }),
{
    match msg {
        HandleMsg::Approve { spender, amount } => try_approve(store, signer, spender, amount),
        HandleMsg::Transfer { recipient, amount } => try_transfer(
            store,
            signer,
            recipient,
            amount,
        ),
        HandleMsg::TransferFrom { owner, recipient, amount } => try_transfer_from(
            store,
            signer,
            owner,
            recipient,
            amount,
        ),
    }
}

/// Answers a read-only request: the balance or allowance as a decimal
/// numeral, zero for a never-written key, corrupted data if the stored
/// entry is malformed.
pub fn query(store: &crate::store::Store, msg: &QueryMsg) -> (r: Result<QueryAnswer, Error>)
    requires
        msg matches QueryMsg::Allowance { owner, .. } ==> owner@.len() < 65536,
    ensures
        msg matches QueryMsg::Balance { address } ==> (match spec_balance_of(store@, address@) {
            Some(v) => r matches Ok(a) && a matches QueryAnswer::Balance(b) && b.balance@
                == dec_digits(v as int),
            None => r == Err::<QueryAnswer, Error>(Error::CorruptedData),
        }),
        msg matches QueryMsg::Allowance { owner, spender } ==> (match spec_allowance_of(
            store@,
            owner@,
            spender@,
        ) {
            Some(v) => r matches Ok(a) && a matches QueryAnswer::Allowance(al) && al.allowance@
                == dec_digits(v as int),
            None => r == Err::<QueryAnswer, Error>(Error::CorruptedData),
        }),
{
    match msg {
        QueryMsg::Balance { address } => {
            let balance = match read_balance(store, address) {
                Ok(v) => v,
                Err(e) => {
                    return Err(e);
                },
            };
            Ok(QueryAnswer::Balance(BalanceResponse { balance: Amount::from_u128(balance) }))
        },
        QueryMsg::Allowance { owner, spender } => {
            let allowance = match read_allowance(store, owner, spender) {
                Ok(v) => v,
                Err(e) => {
                    return Err(e);
                },
            };
            Ok(
                QueryAnswer::Allowance(
                    AllowanceResponse { allowance: Amount::from_u128(allowance) },
                ),
            )
        },
    }
}

} // verus!
