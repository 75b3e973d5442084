use erc20::codec::u128_to_be_bytes;
use erc20::contract::bytes_to_u128;
use erc20::contract::handle;
use erc20::contract::init;
use erc20::contract::is_valid_name;
use erc20::contract::is_valid_symbol;
use erc20::contract::query;
use erc20::contract::read_allowance;
use erc20::contract::read_balance;
use erc20::contract::read_u128;
use erc20::keys::balance_key;
use erc20::keys::key_decimals;
use erc20::keys::key_name;
use erc20::keys::key_symbol;
use erc20::keys::key_total_supply;
use erc20::msg::AllowanceResponse;
use erc20::msg::BalanceResponse;
use erc20::msg::HandleMsg;
use erc20::msg::InitMsg;
use erc20::msg::InitialBalance;
use erc20::msg::QueryAnswer;
use erc20::msg::QueryMsg;
use erc20::state::Amount;
use erc20::state::CanonicalAddr;
use erc20::state::Error;
use erc20::state::Response;
use erc20::store::Store;

fn addr(s: &str) -> CanonicalAddr {
    CanonicalAddr::new(s.as_bytes().to_vec())
}

fn init_msg() -> InitMsg {
    InitMsg {
        decimals: 5,
        name: "Ash token".to_string(),
        symbol: "ASH".to_string(),
        initial_balances: vec![
            InitialBalance {
                address: addr("addr0000"),
                amount: Amount::new("11"),
            },
            InitialBalance {
                address: addr("addr1111"),
                amount: Amount::new("22"),
            },
            InitialBalance {
                address: addr("addr4321"),
                amount: Amount::new("33"),
            },
        ],
    }
}

fn get_balance(store: &Store, s: &str) -> u128 {
    read_balance(store, &addr(s)).unwrap()
}

fn get_allowance(store: &Store, owner: &str, spender: &str) -> u128 {
    read_allowance(store, &addr(owner), &addr(spender)).unwrap()
}

#[test]
fn proper_initialization() {
    let mut store = Store::new();
    let res = init(&mut store, &init_msg()).unwrap();
    assert_eq!(res, Response::default());

    // it worked, let's query the store
    let name = store.get(&key_name()).expect("no name data stored");
    assert_eq!(name, b"Ash token".to_vec());
    let symbol = store.get(&key_symbol()).expect("no symbol data stored");
    assert_eq!(symbol, b"ASH".to_vec());
    let decimals = store.get(&key_decimals()).expect("no decimals data stored");
    assert_eq!(decimals, vec![5u8]);
    assert_eq!(read_u128(&store, &key_total_supply()), Ok(66));
    assert_eq!(get_balance(&store, "addr0000"), 11);
    assert_eq!(get_balance(&store, "addr1111"), 22);
    assert_eq!(get_balance(&store, "addr4321"), 33);
}

#[test]
fn init_rejects_bad_metadata() {
    let mut msg = init_msg();
    msg.name = "A".to_string();
    assert_eq!(init(&mut Store::new(), &msg), Err(Error::InvalidName));

    let mut msg = init_msg();
    msg.symbol = "ash".to_string();
    assert_eq!(init(&mut Store::new(), &msg), Err(Error::InvalidSymbol));

    let mut msg = init_msg();
    msg.symbol = "ASHLONGG".to_string();
    assert_eq!(init(&mut Store::new(), &msg), Err(Error::InvalidSymbol));

    let mut msg = init_msg();
    msg.decimals = 19;
    assert_eq!(init(&mut Store::new(), &msg), Err(Error::InvalidDecimals));
}

#[test]
fn init_rejects_bad_amounts() {
    let mut msg = init_msg();
    msg.initial_balances[1].amount = Amount::new("2x");
    assert_eq!(init(&mut Store::new(), &msg), Err(Error::ParseErr));
}

#[test]
fn init_total_supply_wraps_unchecked() {
    // Two halves of 2^128 add up past the 128-bit range: the ledger
    // accumulates the total without an overflow check, so it wraps to
    // zero while both balances stay intact.
    let half = "170141183460469231731687303715884105728"; // 2^127
    let mut store = Store::new();
    let msg = InitMsg {
        decimals: 0,
        name: "Ash token".to_string(),
        symbol: "ASH".to_string(),
        initial_balances: vec![
            InitialBalance {
                address: addr("addr0000"),
                amount: Amount::new(half),
            },
            InitialBalance {
                address: addr("addr1111"),
                amount: Amount::new(half),
            },
        ],
    };
    init(&mut store, &msg).unwrap();
    assert_eq!(read_u128(&store, &key_total_supply()), Ok(0));
    assert_eq!(get_balance(&store, "addr0000"), 1u128 << 127);
}

#[test]
fn init_duplicate_address_keeps_last_write() {
    // A repeated genesis account keeps only its last balance, while
    // the total still counts both rows.
    let mut store = Store::new();
    let msg = InitMsg {
        decimals: 0,
        name: "Ash token".to_string(),
        symbol: "ASH".to_string(),
        initial_balances: vec![
            InitialBalance {
                address: addr("addr0000"),
                amount: Amount::new("5"),
            },
            InitialBalance {
                address: addr("addr0000"),
                amount: Amount::new("7"),
            },
        ],
    };
    init(&mut store, &msg).unwrap();
    assert_eq!(get_balance(&store, "addr0000"), 7);
    assert_eq!(read_u128(&store, &key_total_supply()), Ok(12));
}

#[test]
fn transfer_moves_exactly_the_amount() {
    let mut store = Store::new();
    init(&mut store, &init_msg()).unwrap();
    let res = handle(
        &mut store,
        &addr("addr0000"),
        &HandleMsg::Transfer {
            recipient: addr("addr1111"),
            amount: Amount::new("5"),
        },
    )
    .unwrap();
    assert_eq!(res.log, Some("transfer successful".to_string()));
    assert_eq!(res.data, None);
    assert_eq!(get_balance(&store, "addr0000"), 6);
    assert_eq!(get_balance(&store, "addr1111"), 27);
    assert_eq!(get_balance(&store, "addr4321"), 33);
    assert_eq!(read_u128(&store, &key_total_supply()), Ok(66));
}

#[test]
fn transfer_insufficient_funds_is_a_no_op() {
    let mut store = Store::new();
    init(&mut store, &init_msg()).unwrap();
    let res = handle(
        &mut store,
        &addr("addr0000"),
        &HandleMsg::Transfer {
            recipient: addr("addr1111"),
            amount: Amount::new("12"),
        },
    );
    assert_eq!(
        res,
        Err(Error::InsufficientFunds {
            balance: 11,
            required: 12
        })
    );
    assert_eq!(get_balance(&store, "addr0000"), 11);
    assert_eq!(get_balance(&store, "addr1111"), 22);
    assert_eq!(get_balance(&store, "addr4321"), 33);
}

#[test]
fn transfer_to_unknown_recipient_creates_it() {
    let mut store = Store::new();
    init(&mut store, &init_msg()).unwrap();
    handle(
        &mut store,
        &addr("addr4321"),
        &HandleMsg::Transfer {
            recipient: addr("addr9999"),
            amount: Amount::new("33"),
        },
    )
    .unwrap();
    assert_eq!(get_balance(&store, "addr4321"), 0);
    assert_eq!(get_balance(&store, "addr9999"), 33);
}

#[test]
fn approve_overwrites_earlier_allowance() {
    let mut store = Store::new();
    init(&mut store, &init_msg()).unwrap();
    let owner = addr("addr1111");
    let spender = addr("addr4321");
    let res = handle(
        &mut store,
        &owner,
        &HandleMsg::Approve {
            spender: spender.clone(),
            amount: Amount::new("10"),
        },
    )
    .unwrap();
    assert_eq!(res.log, Some("approve successful".to_string()));
    assert_eq!(get_allowance(&store, "addr1111", "addr4321"), 10);
    handle(
        &mut store,
        &owner,
        &HandleMsg::Approve {
            spender: spender.clone(),
            amount: Amount::new("4"),
        },
    )
    .unwrap();
    assert_eq!(get_allowance(&store, "addr1111", "addr4321"), 4);
}

#[test]
fn transfer_from_consumes_the_allowance() {
    // The concrete scenario from genesis: initialize, transfer,
    // approve, spend the whole allowance, then fail on the next spend.
    let mut store = Store::new();
    init(&mut store, &init_msg()).unwrap();
    handle(
        &mut store,
        &addr("addr0000"),
        &HandleMsg::Transfer {
            recipient: addr("addr1111"),
            amount: Amount::new("5"),
        },
    )
    .unwrap();
    assert_eq!(get_balance(&store, "addr0000"), 6);
    assert_eq!(get_balance(&store, "addr1111"), 27);
    handle(
        &mut store,
        &addr("addr1111"),
        &HandleMsg::Approve {
            spender: addr("addr4321"),
            amount: Amount::new("10"),
        },
    )
    .unwrap();
    let res = handle(
        &mut store,
        &addr("addr4321"),
        &HandleMsg::TransferFrom {
            owner: addr("addr1111"),
            recipient: addr("addr4321"),
            amount: Amount::new("10"),
        },
    )
    .unwrap();
    assert_eq!(res.log, Some("transfer from successful".to_string()));
    assert_eq!(get_allowance(&store, "addr1111", "addr4321"), 0);
    assert_eq!(get_balance(&store, "addr1111"), 17);
    assert_eq!(get_balance(&store, "addr4321"), 43);
    let res = handle(
        &mut store,
        &addr("addr4321"),
        &HandleMsg::TransferFrom {
            owner: addr("addr1111"),
            recipient: addr("addr4321"),
            amount: Amount::new("1"),
        },
    );
    assert_eq!(
        res,
        Err(Error::InsufficientAllowance {
            allowance: 0,
            required: 1
        })
    );
    assert_eq!(get_balance(&store, "addr1111"), 17);
    assert_eq!(get_balance(&store, "addr4321"), 43);
}

#[test]
fn never_written_keys_read_as_zero() {
    let store = Store::new();
    assert_eq!(get_balance(&store, "addr0000"), 0);
    assert_eq!(get_allowance(&store, "addr0000", "addr1111"), 0);
    let ans = query(
        &store,
        &QueryMsg::Balance {
            address: addr("addr0000"),
        },
    )
    .unwrap();
    assert_eq!(
        ans,
        QueryAnswer::Balance(BalanceResponse {
            balance: Amount::new("0")
        })
    );
}

#[test]
fn queries_report_decimal_numerals() {
    let mut store = Store::new();
    init(&mut store, &init_msg()).unwrap();
    handle(
        &mut store,
        &addr("addr1111"),
        &HandleMsg::Approve {
            spender: addr("addr4321"),
            amount: Amount::new("10"),
        },
    )
    .unwrap();
    let ans = query(
        &store,
        &QueryMsg::Balance {
            address: addr("addr1111"),
        },
    )
    .unwrap();
    assert_eq!(
        ans,
        QueryAnswer::Balance(BalanceResponse {
            balance: Amount::new("22")
        })
    );
    let ans = query(
        &store,
        &QueryMsg::Allowance {
            owner: addr("addr1111"),
            spender: addr("addr4321"),
        },
    )
    .unwrap();
    assert_eq!(
        ans,
        QueryAnswer::Allowance(AllowanceResponse {
            allowance: Amount::new("10")
        })
    );
}

#[test]
fn corrupted_entries_are_reported() {
    let mut store = Store::new();
    store.set(&balance_key("addr0000".as_bytes()), &[1, 2, 3]);
    assert_eq!(
        read_balance(&store, &addr("addr0000")),
        Err(Error::CorruptedData)
    );
    let res = handle(
        &mut store,
        &addr("addr0000"),
        &HandleMsg::Transfer {
            recipient: addr("addr1111"),
            amount: Amount::new("1"),
        },
    );
    assert_eq!(res, Err(Error::CorruptedData));
}

#[test]
fn amount_parsing_rejects_malformed_numerals() {
    assert_eq!(Amount::new("").parse(), Err(Error::ParseErr));
    assert_eq!(Amount::new("12a3").parse(), Err(Error::ParseErr));
    assert_eq!(Amount::new("+5").parse(), Err(Error::ParseErr));
    assert_eq!(Amount::new(" 5").parse(), Err(Error::ParseErr));
    // One past the largest 128-bit value.
    assert_eq!(
        Amount::new("340282366920938463463374607431768211456").parse(),
        Err(Error::ParseErr)
    );
    assert_eq!(
        Amount::new("340282366920938463463374607431768211455").parse(),
        Ok(u128::MAX)
    );
    assert_eq!(Amount::new("0").parse(), Ok(0));
    assert_eq!(Amount::new("007").parse(), Ok(7));
}

#[test]
fn amount_formatting_is_canonical() {
    assert_eq!(Amount::from_u128(0), Amount::new("0"));
    assert_eq!(Amount::from_u128(66), Amount::new("66"));
    assert_eq!(Amount::from_u128(12345), Amount::new("12345"));
    assert_eq!(
        Amount::from_u128(u128::MAX),
        Amount::new("340282366920938463463374607431768211455")
    );
    assert_eq!(Amount::from_u128(1000).parse(), Ok(1000));
}

#[test]
fn codec_round_trips_and_rejects_wrong_lengths() {
    for x in [0u128, 1, 66, 255, 256, 1u128 << 64, u128::MAX] {
        let enc = u128_to_be_bytes(x);
        assert_eq!(enc.len(), 16);
        assert_eq!(bytes_to_u128(&enc), Ok(x));
    }
    let enc = u128_to_be_bytes(66);
    assert_eq!(enc[14], 0);
    assert_eq!(enc[15], 66);
    assert_eq!(bytes_to_u128(&[]), Err(Error::CorruptedData));
    assert_eq!(bytes_to_u128(&[0; 15]), Err(Error::CorruptedData));
    assert_eq!(bytes_to_u128(&[0; 17]), Err(Error::CorruptedData));
}

#[test]
fn name_and_symbol_validation() {
    assert!(is_valid_name("abc"));
    assert!(is_valid_name("Ash token"));
    assert!(!is_valid_name("ab"));
    assert!(!is_valid_name("a234567890123456789012345678901"));
    assert!(is_valid_symbol("ASH"));
    assert!(is_valid_symbol("ABCDEF"));
    assert!(!is_valid_symbol("AB"));
    assert!(!is_valid_symbol("ABCDEFG"));
    assert!(!is_valid_symbol("AsH"));
    assert!(!is_valid_symbol("A5H"));
}

#[test]
fn init_with_no_balances_gives_zero_supply() {
    let mut store = Store::new();
    let msg = InitMsg {
        decimals: 18,
        name: "Ash token".to_string(),
        symbol: "ASH".to_string(),
        initial_balances: vec![],
    };
    init(&mut store, &msg).unwrap();
    assert_eq!(read_u128(&store, &key_total_supply()), Ok(0));
    assert_eq!(get_balance(&store, "addr0000"), 0);
}

#[test]
fn transfer_to_self_keeps_the_balance() {
    let mut store = Store::new();
    init(&mut store, &init_msg()).unwrap();
    handle(
        &mut store,
        &addr("addr0000"),
        &HandleMsg::Transfer {
            recipient: addr("addr0000"),
            amount: Amount::new("5"),
        },
    )
    .unwrap();
    assert_eq!(get_balance(&store, "addr0000"), 11);
    assert_eq!(read_u128(&store, &key_total_supply()), Ok(66));
}
