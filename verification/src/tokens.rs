//! The token metadata table: symbol and decimal count per token address.
//!
//! The table is built once from an externally fetched token list and then
//! only read. Keys are the 20 raw address bytes; a hex-string key from a
//! token list is brought to that form by [`crate::address::Address::parse_hex`],
//! which ignores letter case, so insertion and lookup cannot disagree on
//! the case of a key. A missing entry is not a failure of the pipeline: the
//! formatter falls back to the raw address and amount.
use vstd::prelude::*;
use crate::abi::SwapError;
use crate::address::Address;

verus! {

/// What the pipeline knows about a token: its display symbol and how many
/// decimal places scale its smallest unit.
#[derive(Debug)]
pub struct TokenMetadata {
    pub symbol: String,
    pub decimals: u8,
}

/// The mathematical content of a [`TokenMetadata`].
pub ghost struct TokenMetaView {
    pub symbol: Seq<char>,
    pub decimals: u8,
}

impl View for TokenMetadata {
    type V = TokenMetaView;

    open spec fn view(&self) -> TokenMetaView {
        TokenMetaView { symbol: self.symbol@, decimals: self.decimals }
    }
}

impl Clone for TokenMetadata {
    /// A copy with the same view.
    fn clone(&self) -> (r: Self)
        ensures
            r@ == self@,
    {
        TokenMetadata { symbol: self.symbol.clone(), decimals: self.decimals }
    }
}

/// One row of the table.
struct TokenEntry {
    address: Address,
    meta: TokenMetadata,
}

/// The map that a row list denotes; a later row for the same address wins,
/// as with repeated inserts into any map.
spec fn table_of(entries: Seq<TokenEntry>) -> Map<Seq<u8>, TokenMetaView>
    decreases entries.len(),
{
    if entries.len() == 0 {
        Map::empty()
    } else {
        table_of(entries.drop_last()).insert(entries.last().address@, entries.last().meta@)
    }
}

/// Rows whose address never occurs are absent from the table.
proof fn lemma_table_absent(entries: Seq<TokenEntry>, key: Seq<u8>)
    requires
        forall|i: int| 0 <= i < entries.len() ==> entries[i].address@ != key,
    ensures
        !table_of(entries).contains_key(key),
    decreases entries.len(),
{
    if entries.len() > 0 {
        lemma_table_absent(entries.drop_last(), key);
    }
}

/// The last row for an address decides its metadata in the table.
proof fn lemma_table_found(entries: Seq<TokenEntry>, i: int, key: Seq<u8>)
    requires
        0 <= i < entries.len(),
        entries[i].address@ == key,
        forall|j: int| i < j < entries.len() ==> entries[j].address@ != key,
    ensures
        table_of(entries).contains_key(key),
        table_of(entries)[key] == entries[i].meta@,
    decreases entries.len(),
{
    if i == entries.len() - 1 {
    } else {
        lemma_table_found(entries.drop_last(), i, key);
    }
}

/// The address-keyed token metadata table.
pub struct TokenResolver {
    entries: Vec<TokenEntry>,
}

impl View for TokenResolver {
    type V = Map<Seq<u8>, TokenMetaView>;

    closed spec fn view(&self) -> Map<Seq<u8>, TokenMetaView> {
        table_of(self.entries@)
    }
}

impl TokenResolver {
    /// An empty table.
    pub fn new() -> (r: TokenResolver)
        ensures
            r@ == Map::<Seq<u8>, TokenMetaView>::empty(),
    {
        TokenResolver { entries: Vec::new() }
    }

    /// Records metadata for an address; a repeated insertion for the same
    /// address replaces the earlier one.
    pub fn insert(&mut self, address: Address, meta: TokenMetadata)
        ensures
            final(self)@ == old(self)@.insert(address@, meta@),
    {
        self.entries.push(TokenEntry { address, meta });
        proof {
            assert(self.entries@.drop_last() =~= old(self).entries@);
        }
    }

    /// The metadata on file for `address`, or `None` when there is none.
    pub fn lookup(&self, address: &Address) -> (r: Option<TokenMetadata>)
        ensures
            match r {
                Some(m) => self@.contains_key(address@) && m@ == self@[address@],
                None => !self@.contains_key(address@),
            },
    {
        let mut i: usize = self.entries.len();
        while i > 0
            invariant
                i <= self.entries@.len(),
                forall|j: int| i <= j < self.entries@.len() ==> self.entries@[j].address@
                    != address@,
            decreases i,
        {
            i = i - 1;
            if self.entries[i].address == *address {
                proof {
                    lemma_table_found(self.entries@, i as int, address@);
                }
                return Some(self.entries[i].meta.clone());
            }
        }
        proof {
            lemma_table_absent(self.entries@, address@);
        }
        None
    }

    /// The metadata on file for `address`, or `MissingTokenMetadata` when
    /// there is none — the one non-fatal error of the taxonomy, answered
    /// by fallback formatting rather than by skipping the transaction.
    pub fn resolve(&self, address: &Address) -> (r: Result<TokenMetadata, SwapError>)
        ensures
            match r {
                Ok(m) => self@.contains_key(address@) && m@ == self@[address@],
                Err(e) => e == SwapError::MissingTokenMetadata && !self@.contains_key(address@),
            },
    {
        match self.lookup(address) {
            Some(m) => Ok(m),
            None => Err(SwapError::MissingTokenMetadata),
        }
    }
}

} // verus!
