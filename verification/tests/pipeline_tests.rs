use uni_listen::abi::SwapError;
use uni_listen::address::Address;
use uni_listen::chain::{Block, Transaction, Uint256};
use uni_listen::filter::{filter_uni_txns, uniswap_router_address};
use uni_listen::pipeline::{process_block, process_blocks, process_transaction};
use uni_listen::tokens::{TokenMetadata, TokenResolver};

fn weth() -> [u8; 20] {
    [0x11; 20]
}

fn token() -> [u8; 20] {
    [0x22; 20]
}

fn word(v: u128) -> Vec<u8> {
    let mut w = vec![0u8; 16];
    w.extend_from_slice(&v.to_be_bytes());
    w
}

fn address_word(a: [u8; 20]) -> Vec<u8> {
    let mut w = vec![0u8; 12];
    w.extend_from_slice(&a);
    w
}

/// Calldata of a `swapExactETHForTokens` call with the given minimum-out
/// bound word and path.
fn native_calldata(amount: Vec<u8>, path: &[[u8; 20]]) -> Vec<u8> {
    let mut data = vec![0x7f, 0xf3, 0x6a, 0xb5];
    data.extend_from_slice(&amount);
    data.extend_from_slice(&word(0x80));
    data.extend_from_slice(&address_word([0x33; 20]));
    data.extend_from_slice(&word(1_700_000_000));
    data.extend_from_slice(&word(path.len() as u128));
    for a in path {
        data.extend_from_slice(&address_word(*a));
    }
    data
}

/// A 32-byte word holding 2^130.
fn word_2_pow_130() -> Vec<u8> {
    let mut w = vec![0u8; 32];
    w[15] = 0x04;
    w
}

fn swap_txn(hash_byte: u8, value: u128, out_min: Vec<u8>) -> Transaction {
    Transaction {
        hash: vec![hash_byte; 32],
        to: Some(uniswap_router_address()),
        value: Uint256::from_u128(value),
        input: native_calldata(out_min, &[weth(), token()]),
    }
}

fn resolver_with_token() -> TokenResolver {
    let mut resolver = TokenResolver::new();
    resolver.insert(
        Address { bytes: token() },
        TokenMetadata { symbol: "TOKEN".to_string(), decimals: 6 },
    );
    resolver
}

#[test]
fn filter_keeps_exactly_router_calls_with_known_selectors() {
    let router = uniswap_router_address();
    let keep = swap_txn(1, 10, word(100));
    let wrong_recipient = Transaction {
        hash: vec![2; 32],
        to: Some(Address { bytes: [0x44; 20] }),
        value: Uint256::from_u128(10),
        input: native_calldata(word(100), &[weth(), token()]),
    };
    let contract_creation = Transaction {
        hash: vec![3; 32],
        to: None,
        value: Uint256::from_u128(10),
        input: native_calldata(word(100), &[weth(), token()]),
    };
    let unknown_selector = Transaction {
        hash: vec![4; 32],
        to: Some(router),
        value: Uint256::from_u128(10),
        input: vec![0xde, 0xad, 0xbe, 0xef, 0x00],
    };
    let short_input = Transaction {
        hash: vec![5; 32],
        to: Some(router),
        value: Uint256::from_u128(10),
        input: vec![0x7f, 0xf3],
    };
    let block = Block {
        hash: vec![0xbb; 32],
        number: 1,
        transactions: vec![
            wrong_recipient,
            keep,
            contract_creation,
            unknown_selector,
            short_input,
        ],
    };
    let kept = filter_uni_txns(&block, &router);
    assert_eq!(kept.len(), 1);
    assert_eq!(kept[0].hash, vec![1; 32]);
}

#[test]
fn unrecognized_selector_is_reported_as_such() {
    let resolver = TokenResolver::new();
    let t = Transaction {
        hash: vec![7; 32],
        to: Some(uniswap_router_address()),
        value: Uint256::from_u128(0),
        input: vec![0xde, 0xad, 0xbe, 0xef],
    };
    let r = process_transaction(&t, &resolver);
    assert_eq!(r.unwrap_err(), SwapError::UnrecognizedSelector);
}

#[test]
fn process_block_reports_line_and_errors_per_transaction() {
    let router = uniswap_router_address();
    let resolver = resolver_with_token();
    let good = swap_txn(1, 5_000_000_000_000_000_000, word(1_500_000));
    let overflowing = swap_txn(2, 10, word_2_pow_130());
    let mut malformed = swap_txn(3, 10, word(100));
    malformed.input.truncate(60);
    let block = Block {
        hash: vec![0xbb; 32],
        number: 1,
        transactions: vec![good, overflowing, malformed],
    };
    let reports = process_block(&block, &router, &resolver);
    assert_eq!(reports.len(), 3);
    assert_eq!(reports[0].hash, vec![1; 32]);
    assert_eq!(reports[0].outcome.as_ref().unwrap().as_str(), "Swap 5 ETH for 1.5 TOKEN");
    assert_eq!(reports[1].hash, vec![2; 32]);
    assert_eq!(*reports[1].outcome.as_ref().unwrap_err(), SwapError::AmountOverflow);
    assert_eq!(reports[2].hash, vec![3; 32]);
    assert_eq!(*reports[2].outcome.as_ref().unwrap_err(), SwapError::MalformedCalldata);
}

#[test]
fn overflowing_transaction_is_absent_and_siblings_still_appear() {
    let router = uniswap_router_address();
    let resolver = resolver_with_token();
    let sibling_before = swap_txn(1, 1_000_000_000_000_000_000, word(2_000_000));
    let overflowing = swap_txn(2, 10, word_2_pow_130());
    let sibling_after = swap_txn(3, 2_000_000_000_000_000_000, word(500_000));
    let block = Block {
        hash: vec![0xbb; 32],
        number: 1,
        transactions: vec![sibling_before, overflowing, sibling_after],
    };
    let lines = process_blocks(&vec![block], &router, &resolver);
    assert_eq!(
        lines,
        vec![
            "Swap 1 ETH for 2 TOKEN".to_string(),
            "Swap 2 ETH for 0.5 TOKEN".to_string(),
        ]
    );
}

#[test]
fn blocks_are_emitted_strictly_in_order() {
    let router = uniswap_router_address();
    let resolver = resolver_with_token();
    let block_n = Block {
        hash: vec![0xaa; 32],
        number: 7,
        transactions: vec![
            swap_txn(1, 1_000_000_000_000_000_000, word(1_000_000)),
            swap_txn(2, 2_000_000_000_000_000_000, word(2_000_000)),
        ],
    };
    let block_n1 = Block {
        hash: vec![0xbb; 32],
        number: 8,
        transactions: vec![swap_txn(3, 3_000_000_000_000_000_000, word(3_000_000))],
    };
    let lines = process_blocks(&vec![block_n, block_n1], &router, &resolver);
    assert_eq!(
        lines,
        vec![
            "Swap 1 ETH for 1 TOKEN".to_string(),
            "Swap 2 ETH for 2 TOKEN".to_string(),
            "Swap 3 ETH for 3 TOKEN".to_string(),
        ]
    );
}

#[test]
fn an_empty_block_yields_no_lines() {
    let router = uniswap_router_address();
    let resolver = resolver_with_token();
    let block = Block { hash: vec![0xbb; 32], number: 1, transactions: vec![] };
    assert!(process_blocks(&vec![block], &router, &resolver).is_empty());
    let reports = process_block(
        &Block { hash: vec![0xcc; 32], number: 2, transactions: vec![] },
        &router,
        &resolver,
    );
    assert!(reports.is_empty());
}

#[test]
fn unknown_token_falls_back_to_address_and_raw_amount() {
    let router = uniswap_router_address();
    let resolver = TokenResolver::new();
    let block = Block {
        hash: vec![0xbb; 32],
        number: 1,
        transactions: vec![swap_txn(1, 5_000_000_000_000_000_000, word(100))],
    };
    let lines = process_blocks(&vec![block], &router, &resolver);
    assert_eq!(
        lines,
        vec!["Swap 5 ETH for 100 0x2222222222222222222222222222222222222222".to_string()]
    );
}

#[test]
fn filter_agrees_with_the_predicate_on_generated_combinations() {
    // A spread of (to, selector, input length) combinations, driven by a
    // small deterministic generator.
    let router = uniswap_router_address();
    let selectors: Vec<[u8; 4]> = vec![
        [0x7f, 0xf3, 0x6a, 0xb5],
        [0xfb, 0x3b, 0xdb, 0x41],
        [0x18, 0xcb, 0xaf, 0xe5],
        [0x4a, 0x25, 0xd9, 0x4a],
        [0x38, 0xed, 0x17, 0x39],
        [0x88, 0x03, 0xdb, 0xee],
        [0x00, 0x00, 0x00, 0x00],
        [0x7f, 0xf3, 0x6a, 0xb6],
        [0xff, 0xff, 0xff, 0xff],
    ];
    let mut state: u64 = 0x1234_5678_9abc_def0;
    let mut step = || {
        state = state.wrapping_mul(6364136223846793005).wrapping_add(1442695040888963407);
        (state >> 33) as usize
    };
    let mut transactions = Vec::new();
    let mut expected_kept = Vec::new();
    for hash_byte in 0u8..100 {
        let to = match step() % 3 {
            0 => None,
            1 => Some(router),
            _ => Some(Address { bytes: [step() as u8; 20] }),
        };
        let sel = selectors[step() % selectors.len()];
        let input: Vec<u8> = match step() % 3 {
            0 => sel[..step() % 4].to_vec(),
            _ => {
                let mut data = sel.to_vec();
                data.extend_from_slice(&vec![0u8; step() % 40]);
                data
            }
        };
        let recognized = input.len() >= 4
            && selectors[..6].iter().any(|s| s[..] == input[..4]);
        let kept = to == Some(router) && recognized;
        if kept {
            expected_kept.push(hash_byte);
        }
        transactions.push(Transaction {
            hash: vec![hash_byte; 32],
            to,
            value: Uint256::from_u128(0),
            input,
        });
    }
    let block = Block { hash: vec![0xbb; 32], number: 1, transactions };
    let kept = filter_uni_txns(&block, &router);
    let kept_hashes: Vec<u8> = kept.iter().map(|t| t.hash[0]).collect();
    assert_eq!(kept_hashes, expected_kept);
}

#[test]
fn router_address_has_the_well_known_form() {
    let router = uniswap_router_address();
    assert_eq!(router.hex_string(), "0x7a250d5630b4cf539739df2c5dacb4c659f2488d");
}
