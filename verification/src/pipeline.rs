//! Per-block processing: filter, classify, decode and format each
//! transaction, and sequence whole blocks.
//!
//! Every error is scoped to its one transaction: a malformed or
//! overflowing swap call yields a report with its error and no display
//! line, and the remaining transactions of the block are unaffected.
//! Blocks are processed strictly one after the other, so every line of a
//! block precedes every line of any later block in the combined output.
use vstd::prelude::*;
use vstd::seq_lib::lemma_flatten_concat;
use crate::abi::SwapError;
use crate::abi::decode_swap;
use crate::abi::spec_decode;
use crate::address::Address;
use crate::chain::Block;
use crate::chain::BlockView;
use crate::chain::Transaction;
use crate::chain::TransactionView;
use crate::chain::copy_bytes;
use crate::filter::filter_uni_txns;
use crate::filter::is_candidate;
use crate::filter::spec_filter_candidates;
use crate::filter::spec_is_candidate;
use crate::filter::txn_views;
use crate::format::format_swap;
use crate::format::spec_swap_line;
use crate::methods::classify;
use crate::methods::spec_classify;
use crate::tokens::TokenMetaView;
use crate::tokens::TokenResolver;

verus! {

/// The outcome of one transaction of a block: the display line of its
/// swap, or the reason it was skipped.
pub struct TxnReport {
    pub hash: Vec<u8>,
    pub outcome: Result<String, SwapError>,
}

/// The mathematical content of a [`TxnReport`].
pub ghost struct TxnReportView {
    pub hash: Seq<u8>,
    pub outcome: Result<Seq<char>, SwapError>,
}

impl View for TxnReport {
    type V = TxnReportView;

    open spec fn view(&self) -> TxnReportView {
        TxnReportView {
            hash: self.hash@,
            outcome: match self.outcome {
                Ok(ref s) => Ok(s@),
                Err(e) => Err(e),
            },
        }
    }
}

/// `Ok` lines taken to their views, errors kept.
pub open spec fn line_result_view(r: Result<String, SwapError>) -> Result<Seq<char>, SwapError> {
    match r {
        Ok(s) => Ok(s@),
        Err(e) => Err(e),
    }
}

/// What one transaction yields: `UnrecognizedSelector` when no method
/// matches, the decoder's error when its calldata is bad, and otherwise
/// the formatted line of its swap.
pub open spec fn spec_process(t: TransactionView, table: Map<Seq<u8>, TokenMetaView>) -> Result<
    Seq<char>,
    SwapError,
> {
    match spec_classify(t.input) {
        None => Err(SwapError::UnrecognizedSelector),
        Some(m) => match spec_decode(m, t.input, t.value) {
            Err(e) => Err(e),
            Ok(s) => Ok(spec_swap_line(s, table)),
        },
    }
}

/// The report of one transaction: its hash and its outcome.
pub open spec fn spec_report(t: TransactionView, table: Map<Seq<u8>, TokenMetaView>)
    -> TxnReportView {
    TxnReportView { hash: t.hash, outcome: spec_process(t, table) }
}

/// The reports of a transaction list, in order.
pub open spec fn reports_of(ts: Seq<TransactionView>, table: Map<Seq<u8>, TokenMetaView>) -> Seq<
    TxnReportView,
> {
    ts.map_values(|t: TransactionView| spec_report(t, table))
}

/// The views of a report list.
pub open spec fn report_views(rs: Seq<TxnReport>) -> Seq<TxnReportView> {
    rs.map_values(|r: TxnReport| r@)
}

/// The display lines one transaction contributes to the block's output:
/// its formatted swap when it is a candidate and decodes, nothing
/// otherwise.
pub open spec fn spec_txn_lines(
    t: TransactionView,
    router: Seq<u8>,
    table: Map<Seq<u8>, TokenMetaView>,
) -> Seq<Seq<char>> {
    if spec_is_candidate(t, router) {
        match spec_process(t, table) {
            Ok(line) => seq![line],
            Err(_) => seq![],
        }
    } else {
        seq![]
    }
}

/// The per-transaction line contributions of a transaction list.
pub open spec fn txn_lines_seq(
    ts: Seq<TransactionView>,
    router: Seq<u8>,
    table: Map<Seq<u8>, TokenMetaView>,
) -> Seq<Seq<Seq<char>>> {
    ts.map_values(|t: TransactionView| spec_txn_lines(t, router, table))
}

/// The lines a transaction list contributes, in order.
pub open spec fn lines_of(
    ts: Seq<TransactionView>,
    router: Seq<u8>,
    table: Map<Seq<u8>, TokenMetaView>,
) -> Seq<Seq<char>> {
    txn_lines_seq(ts, router, table).flatten()
}

/// The display lines of one block.
pub open spec fn spec_block_lines(
    b: BlockView,
    router: Seq<u8>,
    table: Map<Seq<u8>, TokenMetaView>,
) -> Seq<Seq<char>> {
    lines_of(b.transactions, router, table)
}

/// The per-block line contributions of a run of blocks.
pub open spec fn block_lines_seq(
    bs: Seq<BlockView>,
    router: Seq<u8>,
    table: Map<Seq<u8>, TokenMetaView>,
) -> Seq<Seq<Seq<char>>> {
    bs.map_values(|b: BlockView| spec_block_lines(b, router, table))
}

/// The combined output of a run of blocks, block by block.
pub open spec fn spec_blocks_lines(
    bs: Seq<BlockView>,
    router: Seq<u8>,
    table: Map<Seq<u8>, TokenMetaView>,
) -> Seq<Seq<char>> {
    block_lines_seq(bs, router, table).flatten()
}

/// The views of a block list.
pub open spec fn block_views(bs: Seq<Block>) -> Seq<BlockView> {
    bs.map_values(|b: Block| b@)
}

/// The views of the emitted lines.
pub open spec fn line_views(ls: Seq<String>) -> Seq<Seq<char>> {
    ls.map_values(|l: String| l@)
}

/// Classifies, decodes and formats one transaction against the metadata
/// table. Succeeds with the display line exactly when the selector is
/// recognized and the calldata decodes with amounts in range; otherwise
/// the error names why this transaction is skipped.
pub fn process_transaction(t: &Transaction, resolver: &TokenResolver) -> (r: Result<
    String,
    SwapError,
>)
    ensures
        line_result_view(r) == spec_process(t@, resolver@),
{
    match classify(t.input.as_slice()) {
        None => Err(SwapError::UnrecognizedSelector),
        Some(m) => match decode_swap(m, &t.input, t.value) {
            Err(e) => Err(e),
            Ok(s) => Ok(format_swap(&s, resolver)),
        },
    }
}

/// Processes one block: keeps the transactions addressed to the router
/// with a recognized selector and reports, per candidate and in block
/// order, its display line or the reason it was skipped. No transaction's
/// failure touches any other's report.
pub fn process_block(block: &Block, router: &Address, resolver: &TokenResolver) -> (r: Vec<
    TxnReport,
>)
    ensures
        report_views(r@) == reports_of(
            spec_filter_candidates(block@.transactions, router@),
            resolver@,
        ),
{
    let candidates = filter_uni_txns(block, router);
    let ghost cviews = txn_views(candidates@);
    let mut out: Vec<TxnReport> = Vec::new();
    let mut i: usize = 0;
    proof {
        assert(report_views(out@) =~= reports_of(cviews.take(0), resolver@));
    }
    while i < candidates.len()
        invariant
            i <= candidates@.len(),
            cviews == txn_views(candidates@),
            cviews.len() == candidates@.len(),
            report_views(out@) == reports_of(cviews.take(i as int), resolver@),
        decreases candidates@.len() - i,
    {
        let t = &candidates[i];
        let ghost before = out@;
        let report = TxnReport {
            hash: copy_bytes(&t.hash),
            outcome: process_transaction(t, resolver),
        };
        proof {
            assert(t@ == cviews[i as int]);
            assert(report@ == spec_report(cviews[i as int], resolver@));
        }
        out.push(report);
        proof {
            assert(report_views(out@) =~= report_views(before).push(
                spec_report(cviews[i as int], resolver@),
            ));
            assert(reports_of(cviews.take(i + 1), resolver@) =~= reports_of(
                cviews.take(i as int),
                resolver@,
            ).push(spec_report(cviews[i as int], resolver@)));
        }
        i = i + 1;
    }
    proof {
        assert(cviews.take(cviews.len() as int) =~= cviews);
    }
    out
}

/// One more transaction contributes exactly its own lines.
proof fn lemma_lines_push(
    ts: Seq<TransactionView>,
    t: TransactionView,
    router: Seq<u8>,
    table: Map<Seq<u8>, TokenMetaView>,
)
    ensures
        lines_of(ts.push(t), router, table) == lines_of(ts, router, table) + spec_txn_lines(
            t,
            router,
            table,
        ),
{
    broadcast use Seq::lemma_flatten_push;

    assert(txn_lines_seq(ts.push(t), router, table) =~= txn_lines_seq(ts, router, table).push(
        spec_txn_lines(t, router, table),
    ));
    assert(txn_lines_seq(ts, router, table).push(spec_txn_lines(t, router, table)).flatten()
        =~= txn_lines_seq(ts, router, table).flatten() + spec_txn_lines(t, router, table));
}

/// Appends the display lines of one block to the output, in block order.
fn append_block_lines(
    out: &mut Vec<String>,
    block: &Block,
    router: &Address,
    resolver: &TokenResolver,
)
    ensures
        line_views(final(out)@) == line_views(old(out)@) + spec_block_lines(
            block@,
            router@,
            resolver@,
        ),
{
    let ghost tviews = block@.transactions;
    let ghost start = out@;
    let mut i: usize = 0;
    proof {
        assert(line_views(out@) =~= line_views(start) + lines_of(
            tviews.take(0),
            router@,
            resolver@,
        ));
    }
    while i < block.transactions.len()
        invariant
            i <= block.transactions@.len(),
            tviews == block@.transactions,
            start.len() <= out@.len(),
            line_views(out@) == line_views(start) + lines_of(
                tviews.take(i as int),
                router@,
                resolver@,
            ),
        decreases block.transactions@.len() - i,
    {
        let t = &block.transactions[i];
        proof {
            assert(t@ == tviews[i as int]);
            assert(tviews.take(i + 1) =~= tviews.take(i as int).push(tviews[i as int]));
            lemma_lines_push(tviews.take(i as int), tviews[i as int], router@, resolver@);
        }
        if is_candidate(t, router) {
            match process_transaction(t, resolver) {
                Ok(line) => {
                    let ghost lv = line@;
                    let ghost before = out@;
                    out.push(line);
                    proof {
                        assert(line_views(out@) =~= line_views(before).push(lv));
                        assert(spec_txn_lines(tviews[i as int], router@, resolver@) =~= seq![lv]);
                        assert(line_views(out@) =~= line_views(start) + lines_of(
                            tviews.take(i + 1),
                            router@,
                            resolver@,
                        ));
                    }
                },
                Err(_) => {
                    proof {
                        assert(spec_txn_lines(tviews[i as int], router@, resolver@)
                            =~= Seq::<Seq<char>>::empty());
                        assert(line_views(out@) =~= line_views(start) + lines_of(
                            tviews.take(i + 1),
                            router@,
                            resolver@,
                        ));
                    }
                },
            }
        } else {
            proof {
                assert(spec_txn_lines(tviews[i as int], router@, resolver@)
                    =~= Seq::<Seq<char>>::empty());
                assert(line_views(out@) =~= line_views(start) + lines_of(
                    tviews.take(i + 1),
                    router@,
                    resolver@,
                ));
            }
        }
        i = i + 1;
    }
    proof {
        assert(tviews.take(tviews.len() as int) =~= tviews);
    }
}

/// Processes a run of blocks strictly in order and collects every display
/// line: the whole output of block `i` stands before any line of block
/// `i + 1`.
pub fn process_blocks(blocks: &Vec<Block>, router: &Address, resolver: &TokenResolver) -> (r: Vec<
    String,
>)
    ensures
        line_views(r@) == spec_blocks_lines(block_views(blocks@), router@, resolver@),
{
    let ghost bviews = block_views(blocks@);
    let mut out: Vec<String> = Vec::new();
    let mut i: usize = 0;
    proof {
        assert(line_views(out@) =~= spec_blocks_lines(bviews.take(0), router@, resolver@));
    }
    while i < blocks.len()
        invariant
            i <= blocks@.len(),
            bviews == block_views(blocks@),
            bviews.len() == blocks@.len(),
            line_views(out@) == spec_blocks_lines(bviews.take(i as int), router@, resolver@),
        decreases blocks@.len() - i,
    {
        proof {
            broadcast use Seq::lemma_flatten_push;

            assert(bviews[i as int] == blocks@[i as int]@);
            assert(bviews.take(i + 1) =~= bviews.take(i as int).push(bviews[i as int]));
            assert(block_lines_seq(bviews.take(i + 1), router@, resolver@) =~= block_lines_seq(
                bviews.take(i as int),
                router@,
                resolver@,
            ).push(spec_block_lines(bviews[i as int], router@, resolver@)));
            assert(block_lines_seq(bviews.take(i as int), router@, resolver@).push(
                spec_block_lines(bviews[i as int], router@, resolver@),
            ).flatten() =~= block_lines_seq(bviews.take(i as int), router@, resolver@).flatten()
                + spec_block_lines(bviews[i as int], router@, resolver@));
        }
        append_block_lines(&mut out, &blocks[i], router, resolver);
        i = i + 1;
    }
    proof {
        assert(bviews.take(bviews.len() as int) =~= bviews);
    }
    out
}

/// Law: the combined output respects block order. Splitting a run of
/// blocks anywhere splits the output at the matching point, so every line
/// of the blocks before the split is emitted strictly before any line of
/// the blocks after it.
pub proof fn lemma_output_respects_block_order(
    bs: Seq<BlockView>,
    router: Seq<u8>,
    table: Map<Seq<u8>, TokenMetaView>,
    i: int,
)
    requires
        0 <= i <= bs.len(),
    ensures
        spec_blocks_lines(bs, router, table) == spec_blocks_lines(bs.take(i), router, table)
            + spec_blocks_lines(bs.skip(i), router, table),
{
    assert(block_lines_seq(bs, router, table) =~= block_lines_seq(bs.take(i), router, table)
        + block_lines_seq(bs.skip(i), router, table));
    lemma_flatten_concat(
        block_lines_seq(bs.take(i), router, table),
        block_lines_seq(bs.skip(i), router, table),
    );
}

/// Law: a transaction whose processing fails — or that the filter never
/// kept — is absent from the output, and its neighbours are untouched:
/// the lines of any surroundings are exactly what they are without it.
pub proof fn lemma_failed_transaction_isolated(
    pre: Seq<TransactionView>,
    t: TransactionView,
    post: Seq<TransactionView>,
    router: Seq<u8>,
    table: Map<Seq<u8>, TokenMetaView>,
)
    requires
        spec_process(t, table) is Err || !spec_is_candidate(t, router),
    ensures
        lines_of(pre + seq![t] + post, router, table) == lines_of(pre, router, table) + lines_of(
            post,
            router,
            table,
        ),
{
    let m1 = txn_lines_seq(pre, router, table);
    let mt = txn_lines_seq(seq![t], router, table);
    let m2 = txn_lines_seq(post, router, table);
    assert(txn_lines_seq(pre + seq![t] + post, router, table) =~= (m1 + mt) + m2);
    lemma_flatten_concat(m1 + mt, m2);
    lemma_flatten_concat(m1, mt);
    assert(spec_txn_lines(t, router, table) =~= Seq::<Seq<char>>::empty());
    assert(mt =~= seq![spec_txn_lines(t, router, table)]);
    mt.lemma_flatten_one_element();
    assert(mt.flatten() =~= Seq::<Seq<char>>::empty());
    assert(lines_of(pre + seq![t] + post, router, table) =~= lines_of(pre, router, table)
        + lines_of(post, router, table));
}

} // verus!
