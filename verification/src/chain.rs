//! Chain data as the pipeline consumes it: 256-bit amounts, transactions
//! and blocks, each with its mathematical view.
//!
//! A block here carries only what the swap pipeline reads — hash, number
//! and transactions — and a transaction carries hash, recipient, paid
//! native value and raw calldata. The chain-facing layer fills these from
//! whatever transport it uses; nothing in this crate performs I/O.
use vstd::prelude::*;
use crate::address::Address;

verus! {

/// An unsigned 256-bit integer, as chain amounts are encoded, split into
/// high and low 128-bit halves.
#[derive(Clone, Copy, Debug)]
pub struct Uint256 {
    pub hi: u128,
    pub lo: u128,
}

impl Uint256 {
    /// The numeric value.
    pub open spec fn as_nat(self) -> nat {
        self.hi as nat * 0x100000000000000000000000000000000 + self.lo as nat
    }

    /// A value from the low 128 bits alone.
    pub fn from_u128(lo: u128) -> (r: Uint256)
        ensures
            r.as_nat() == lo as nat,
    {
        Uint256 { hi: 0, lo }
    }
}

/// A transaction as read from a block: hash, optional recipient (`None`
/// for contract creation), paid native value, and raw calldata.
pub struct Transaction {
    pub hash: Vec<u8>,
    pub to: Option<Address>,
    pub value: Uint256,
    pub input: Vec<u8>,
}

/// The mathematical content of a [`Transaction`].
pub ghost struct TransactionView {
    pub hash: Seq<u8>,
    pub to: Option<Seq<u8>>,
    pub value: nat,
    pub input: Seq<u8>,
}

impl View for Transaction {
    type V = TransactionView;

    open spec fn view(&self) -> TransactionView {
        TransactionView {
            hash: self.hash@,
            to: match self.to {
                Some(a) => Some(a@),
                None => None,
            },
            value: self.value.as_nat(),
            input: self.input@,
        }
    }
}

/// A copy of a byte vector.
pub fn copy_bytes(v: &Vec<u8>) -> (r: Vec<u8>)
    ensures
        r@ == v@,
{
    let mut r: Vec<u8> = Vec::new();
    let mut i: usize = 0;
    while i < v.len()
        invariant
            i <= v@.len(),
            r@ == v@.take(i as int),
        decreases v@.len() - i,
    {
        r.push(v[i]);
        proof {
            assert(v@.take(i + 1) =~= v@.take(i as int).push(v@[i as int]));
        }
        i = i + 1;
    }
    proof {
        assert(v@.take(v@.len() as int) =~= v@);
    }
    r
}

impl Clone for Transaction {
    /// A copy with the same view.
    fn clone(&self) -> (r: Self)
        ensures
            r@ == self@,
    {
        Transaction {
            hash: copy_bytes(&self.hash),
            to: self.to,
            value: self.value,
            input: copy_bytes(&self.input),
        }
    }
}

/// A block as read from the chain: hash, height, and its transactions.
pub struct Block {
    pub hash: Vec<u8>,
    pub number: u64,
    pub transactions: Vec<Transaction>,
}

/// The mathematical content of a [`Block`].
pub ghost struct BlockView {
    pub hash: Seq<u8>,
    pub number: nat,
    pub transactions: Seq<TransactionView>,
}

impl View for Block {
    type V = BlockView;

    open spec fn view(&self) -> BlockView {
        BlockView {
            hash: self.hash@,
            number: self.number as nat,
            transactions: self.transactions@.map_values(|t: Transaction| t@),
        }
    }
}

} // verus!
