//! Selection of the router-bound swap calls out of a block.
//!
//! A transaction is a candidate exactly when its recipient is the router
//! and the first 4 bytes of its calldata are a recognized selector; a
//! transaction without a recipient (contract creation) or with less than a
//! selector of calldata is never one. The filter is a pure predicate over
//! the block: same block and router, same candidates, in block order.
use vstd::prelude::*;
use crate::address::Address;
use crate::chain::Block;
use crate::chain::Transaction;
use crate::chain::TransactionView;
use crate::methods::classify;
use crate::methods::spec_classify;

verus! {

/// The address of the Uniswap V2 router this listener watches,
/// `0x7a250d5630b4cf539739df2c5dacb4c659f2488d`.
pub open spec fn spec_uniswap_router_address() -> Seq<u8> {
    seq![
        0x7au8,
        0x25u8,
        0x0du8,
        0x56u8,
        0x30u8,
        0xb4u8,
        0xcfu8,
        0x53u8,
        0x97u8,
        0x39u8,
        0xdfu8,
        0x2cu8,
        0x5du8,
        0xacu8,
        0xb4u8,
        0xc6u8,
        0x59u8,
        0xf2u8,
        0x48u8,
        0x8du8,
    ]
}

/// The well-known router address as a value.
pub fn uniswap_router_address() -> (a: Address)
    ensures
        a@ == spec_uniswap_router_address(),
{
    let a = Address {
        bytes: [
            0x7a,
            0x25,
            0x0d,
            0x56,
            0x30,
            0xb4,
            0xcf,
            0x53,
            0x97,
            0x39,
            0xdf,
            0x2c,
            0x5d,
            0xac,
            0xb4,
            0xc6,
            0x59,
            0xf2,
            0x48,
            0x8d,
        ],
    };
    proof {
        assert(a@ =~= spec_uniswap_router_address());
    }
    a
}

/// Whether the filter keeps `t`: addressed to the router, selector
/// recognized.
pub open spec fn spec_is_candidate(t: TransactionView, router: Seq<u8>) -> bool {
    t.to == Some(router) && spec_classify(t.input) is Some
}

/// The subset of `ts` that the filter keeps, in order.
pub open spec fn spec_filter_candidates(ts: Seq<TransactionView>, router: Seq<u8>) -> Seq<
    TransactionView,
> {
    ts.filter(|t: TransactionView| spec_is_candidate(t, router))
}

/// The views of a transaction list.
pub open spec fn txn_views(ts: Seq<Transaction>) -> Seq<TransactionView> {
    ts.map_values(|t: Transaction| t@)
}

/// The filter keeps one more transaction exactly when the candidate
/// predicate holds of it.
proof fn lemma_filter_candidates_push(ts: Seq<TransactionView>, t: TransactionView, router: Seq<u8>)
    ensures
        spec_filter_candidates(ts.push(t), router) == if spec_is_candidate(t, router) {
            spec_filter_candidates(ts, router).push(t)
        } else {
            spec_filter_candidates(ts, router)
        },
{
    broadcast use Seq::lemma_filter_push;

}

/// Decides whether the filter keeps `t`: `to` equals the router address
/// and the first 4 bytes of the calldata are one of the six selectors.
pub fn is_candidate(t: &Transaction, router: &Address) -> (r: bool)
    ensures
        r == spec_is_candidate(t@, router@),
{
    match &t.to {
        None => false,
        Some(a) => {
            if !(*a == *router) {
                return false;
            }
            classify(t.input.as_slice()).is_some()
        },
    }
}

/// Keeps exactly the transactions of the block that are addressed to the
/// router with a recognized selector, in block order.
pub fn filter_uni_txns(block: &Block, router: &Address) -> (r: Vec<Transaction>)
    ensures
        txn_views(r@) == spec_filter_candidates(block@.transactions, router@),
{
    let ghost tviews = block@.transactions;
    let mut out: Vec<Transaction> = Vec::new();
    let mut i: usize = 0;
    proof {
        assert(txn_views(out@) =~= spec_filter_candidates(tviews.take(0), router@));
    }
    while i < block.transactions.len()
        invariant
            i <= block.transactions@.len(),
            tviews == block@.transactions,
            txn_views(out@) == spec_filter_candidates(tviews.take(i as int), router@),
        decreases block.transactions@.len() - i,
    {
        let t = &block.transactions[i];
        proof {
            assert(tviews.take(i + 1) =~= tviews.take(i as int).push(tviews[i as int]));
            assert(t@ == tviews[i as int]);
            lemma_filter_candidates_push(tviews.take(i as int), tviews[i as int], router@);
        }
        if is_candidate(t, router) {
            let ghost before = out@;
            out.push(t.clone());
            proof {
                assert(txn_views(out@) =~= txn_views(before).push(tviews[i as int]));
                assert(spec_filter_candidates(tviews.take(i + 1), router@)
                    == spec_filter_candidates(tviews.take(i as int), router@).push(
                    tviews[i as int],
                ));
            }
        } else {
            proof {
                assert(spec_filter_candidates(tviews.take(i + 1), router@)
                    == spec_filter_candidates(tviews.take(i as int), router@));
            }
        }
        i = i + 1;
    }
    proof {
        assert(tviews.take(tviews.len() as int) =~= tviews);
    }
    out
}

} // verus!
