//! What a pipeline writes to the ledger: each transfer as one adjustment,
//! and the watermark only once everything before it is applied.
use vstd::prelude::*;
use crate::address::{canonical_address, is_address_text};
use crate::ledger::{
    balance_of, lemma_holder_idempotent, lemma_transfer_moves_amount, transferred, watermarks_kept,
    Ledger, LedgerError, LedgerView, MAX_ROWS,
};
use crate::transfer::{Transfer, TransferView};

verus! {

/// Whether the sender and receiver of `t` are addresses that can both be
/// given a holder id.
pub open spec fn holders_fit(v: LedgerView, t: TransferView) -> bool {
    let from = canonical_address(t.from);
    let to = canonical_address(t.to);
    &&& is_address_text(t.from)
    &&& is_address_text(t.to)
    &&& (v.knows_address(from) || v.holders.len() < MAX_ROWS)
    &&& (v.with_holder(from).knows_address(to) || v.with_holder(from).holders.len() < MAX_ROWS)
}

/// The ledger after transfer `t` of token `token`: both parties become
/// holders, known by their canonical addresses, and the amount moves
/// between them. A transfer to oneself leaves the balances as they are.
pub open spec fn apply_one(v: LedgerView, token: int, t: TransferView) -> LedgerView {
    if t.from == t.to {
        v
    } else {
        let from = canonical_address(t.from);
        let to = canonical_address(t.to);
        let w = v.with_holder(from).with_holder(to);
        LedgerView {
            balances: transferred(w.balances, w.holder_id(from), w.holder_id(to), token, t.amount),
            ..w
        }
    }
}

/// Whether every transfer of `ts`, applied in order from `v`, succeeds.
pub open spec fn all_fit(v: LedgerView, token: int, ts: Seq<TransferView>) -> bool
    decreases ts.len(),
{
    if ts.len() == 0 {
        true
    } else {
        all_fit(v, token, ts.drop_last()) && (ts.last().from == ts.last().to || holders_fit(
            apply_all(v, token, ts.drop_last()),
            ts.last(),
        ))
    }
}

/// A run of transfers that all succeed starts with runs that all succeed.
proof fn lemma_all_fit_prefix(v: LedgerView, token: int, ts: Seq<TransferView>, k: int)
    requires
        all_fit(v, token, ts),
        0 <= k <= ts.len(),
    ensures
        all_fit(v, token, ts.subrange(0, k)),
    decreases ts.len(),
{
    if k < ts.len() {
        assert(ts.drop_last().subrange(0, k) =~= ts.subrange(0, k));
        lemma_all_fit_prefix(v, token, ts.drop_last(), k);
    } else {
        assert(ts.subrange(0, k) =~= ts);
    }
}

/// The ledger after the transfers `ts` of token `token`, in order.
pub open spec fn apply_all(v: LedgerView, token: int, ts: Seq<TransferView>) -> LedgerView
    decreases ts.len(),
{
    if ts.len() == 0 {
        v
    } else {
        apply_one(apply_all(v, token, ts.drop_last()), token, ts.last())
    }
}

/// Applies one transfer of token `token_id`: sender and receiver are looked
/// up or added as holders, then the amount moves between them.
pub fn apply_transfer_log(ledger: &mut Ledger, token_id: i32, t: &Transfer) -> (r: Result<
    (),
    LedgerError,
>)
    requires
        old(ledger).well_formed(),
    ensures
        final(ledger).well_formed(),
        !old(ledger)@.has_token(token_id as int) ==> r == Err::<(), LedgerError>(
            LedgerError::UnknownToken,
        ) && final(ledger)@ == old(ledger)@,
        old(ledger)@.has_token(token_id as int) ==> (r is Ok <==> (t@.from == t@.to || holders_fit(
            old(ledger)@,
            t@,
        ))),
        final(ledger)@.tokens == old(ledger)@.tokens,
        forall|t: int| #[trigger] final(ledger).token_total(t) == old(ledger).token_total(t),
        r is Ok ==> final(ledger)@ == apply_one(old(ledger)@, token_id as int, t@),
{
    if token_id < 1 || (token_id as usize) > ledger.token_count() {
        return Err(LedgerError::UnknownToken);
    }
    if t.is_self_transfer() {
        return Ok(());
    }
    let from_id = match ledger.get_or_create_holder(t.from.as_str()) {
        Ok(id) => id,
        Err(e) => {
            return Err(e);
        },
    };
    let ghost v1 = ledger@;
    proof {
        ledger.lemma_wf();
    }
    let to_id = match ledger.get_or_create_holder(t.to.as_str()) {
        Ok(id) => id,
        Err(e) => {
            return Err(e);
        },
    };
    let ghost v2 = ledger@;
    proof {
        ledger.lemma_wf();
        // The sender's id survives the receiver's insertion.
        let from = canonical_address(t@.from);
        assert(v2.holders[from_id - 1] == from);
        let j = choose|j: int| 0 <= j < v2.holders.len() && #[trigger] v2.holders[j] == from;
        assert(j == from_id - 1);
    }
    let r = ledger.apply_transfer(from_id, to_id, token_id, &t.amount);
    assert(r is Ok);
    r
}

/// Applies the logs of one window in order and only then commits
/// `window_end` as the watermark. On a failure the watermark stays where it
/// was, so the window is scanned again.
pub fn apply_window(ledger: &mut Ledger, token_id: i32, transfers: &Vec<Transfer>, window_end: i64) -> (r:
    Result<(), LedgerError>)
    requires
        old(ledger).well_formed(),
    ensures
        final(ledger).well_formed(),
        !old(ledger)@.has_token(token_id as int) ==> r == Err::<(), LedgerError>(
            LedgerError::UnknownToken,
        ),
        old(ledger)@.has_token(token_id as int) ==> (r is Ok <==> all_fit(
            old(ledger)@,
            token_id as int,
            transfers@.map_values(|t: Transfer| t@),
        )),
        r is Err ==> final(ledger)@.tokens == old(ledger)@.tokens,
        r is Ok ==> final(ledger)@ == apply_all(
            old(ledger)@,
            token_id as int,
            transfers@.map_values(|t: Transfer| t@),
        ).with_watermark(token_id as int, window_end as int),
        watermarks_kept(old(ledger)@, final(ledger)@),
        forall|t: int| #[trigger] final(ledger).token_total(t) == old(ledger).token_total(t),
{
    let ghost ts = transfers@.map_values(|t: Transfer| t@);
    let mut i: usize = 0;
    while i < transfers.len()
        invariant
            i <= transfers@.len(),
            ts == transfers@.map_values(|t: Transfer| t@),
            ledger.well_formed(),
            ledger@ == apply_all(old(ledger)@, token_id as int, ts.subrange(0, i as int)),
            all_fit(old(ledger)@, token_id as int, ts.subrange(0, i as int)),
            ledger@.tokens == old(ledger)@.tokens,
            forall|t: int| #[trigger] ledger.token_total(t) == old(ledger).token_total(t),
        decreases transfers@.len() - i,
    {
        proof {
            assert(ts.subrange(0, i + 1).drop_last() =~= ts.subrange(0, i as int));
        }
        match apply_transfer_log(ledger, token_id, &transfers[i]) {
            Ok(()) => {},
            Err(e) => {
                proof {
                    if all_fit(old(ledger)@, token_id as int, ts) {
                        lemma_all_fit_prefix(old(ledger)@, token_id as int, ts, i + 1);
                    }
                }
                return Err(e);
            },
        }
        i = i + 1;
    }
    assert(ts.subrange(0, i as int) =~= ts);
    ledger.advance_watermark(token_id, window_end)
}

/// The block to commit for a log of the live subscription: its block number,
/// or nothing for a log not yet in a block, which is skipped.
pub fn live_block(block_number: Option<u64>) -> (r: Option<i64>)
    ensures
        r matches Some(b) ==> block_number == Some(b as u64) && b >= 0,
        r is None <==> (block_number is None || block_number->0 > i64::MAX),
{
    match block_number {
        Some(b) => {
            if b <= i64::MAX as u64 {
                Some(b as i64)
            } else {
                None
            }
        },
        None => None,
    }
}

/// Applies one log of the live subscription, then commits its block as the
/// watermark: the balance changes before the watermark does, so a restart
/// never skips a log whose effect was not applied.
pub fn apply_live_log(ledger: &mut Ledger, token_id: i32, t: &Transfer, block: i64) -> (r: Result<
    (),
    LedgerError,
>)
    requires
        old(ledger).well_formed(),
    ensures
        final(ledger).well_formed(),
        !old(ledger)@.has_token(token_id as int) ==> r == Err::<(), LedgerError>(
            LedgerError::UnknownToken,
        ),
        old(ledger)@.has_token(token_id as int) ==> (r is Ok <==> (t@.from == t@.to || holders_fit(
            old(ledger)@,
            t@,
        ))),
        r is Err ==> final(ledger)@.tokens == old(ledger)@.tokens,
        r is Ok ==> final(ledger)@ == apply_one(old(ledger)@, token_id as int, t@).with_watermark(
            token_id as int,
            block as int,
        ),
        watermarks_kept(old(ledger)@, final(ledger)@),
        forall|t: int| #[trigger] final(ledger).token_total(t) == old(ledger).token_total(t),
{
    match apply_transfer_log(ledger, token_id, t) {
        Ok(()) => ledger.advance_watermark(token_id, block),
        Err(e) => Err(e),
    }
}

/// A log whose sender is its receiver changes no balance and no holder,
/// and the watermark can still be committed past it.
pub proof fn lemma_self_transfer_log(v: LedgerView, token: int, t: TransferView, block: int)
    requires
        v.has_token(token),
        t.from == t.to,
    ensures
        apply_one(v, token, t) == v,
        holders_fit(v, t) || t.from == t.to,
        apply_one(v, token, t).with_watermark(token, block).balances == v.balances,
        apply_one(v, token, t).with_watermark(token, block).tokens[token - 1].watermark == if block
            > v.tokens[token - 1].watermark {
            block
        } else {
            v.tokens[token - 1].watermark
        },
{
}

/// A window whose every log is a transfer to oneself succeeds, changes no
/// balance and no holder, and still moves the watermark to its end.
pub proof fn lemma_self_transfer_window(v: LedgerView, token: int, ts: Seq<TransferView>, end: int)
    requires
        v.has_token(token),
        forall|i: int| 0 <= i < ts.len() ==> (#[trigger] ts[i]).from == ts[i].to,
    ensures
        all_fit(v, token, ts),
        apply_all(v, token, ts) == v,
        apply_all(v, token, ts).with_watermark(token, end).balances == v.balances,
        apply_all(v, token, ts).with_watermark(token, end).holders == v.holders,
        apply_all(v, token, ts).with_watermark(token, end).tokens[token - 1].watermark == if end
            > v.tokens[token - 1].watermark {
            end
        } else {
            v.tokens[token - 1].watermark
        },
    decreases ts.len(),
{
    if ts.len() > 0 {
        let u = ts.drop_last();
        assert forall|i: int| 0 <= i < u.len() implies (#[trigger] u[i]).from == u[i].to by {
            assert(u[i] == ts[i]);
        }
        lemma_self_transfer_window(v, token, u, end);
        assert(ts.last() == ts[ts.len() - 1]);
    }
}

/// A transfer between two different addresses takes exactly its amount from
/// the sender's balance and gives exactly that amount to the receiver's;
/// sender and receiver are the holders of the two addresses.
pub proof fn lemma_transfer_log_moves_amount(v: LedgerView, token: int, t: TransferView)
    requires
        v.wf(),
        holders_fit(v, t),
        canonical_address(t.from) != canonical_address(t.to),
    ensures
        ({
            let w = apply_one(v, token, t);
            let f = w.holder_id(canonical_address(t.from));
            let g = w.holder_id(canonical_address(t.to));
            &&& f != g
            &&& w.holders[f - 1] == canonical_address(t.from)
            &&& w.holders[g - 1] == canonical_address(t.to)
            &&& w.balance(f, token) == balance_of(v.balances, f, token) - t.amount
            &&& w.balance(g, token) == balance_of(v.balances, g, token) + t.amount
        }),
{
    let cf = canonical_address(t.from);
    let ct = canonical_address(t.to);
    lemma_holder_idempotent(v, cf);
    let v1 = v.with_holder(cf);
    lemma_holder_idempotent(v1, ct);
    let w2 = v1.with_holder(ct);
    assert(w2.knows_address(cf)) by {
        let i = choose|i: int| 0 <= i < v1.holders.len() && #[trigger] v1.holders[i] == cf;
        assert(w2.holders[i] == cf);
    }
    let fi = choose|i: int| 0 <= i < w2.holders.len() && #[trigger] w2.holders[i] == cf;
    let gi = choose|i: int| 0 <= i < w2.holders.len() && #[trigger] w2.holders[i] == ct;
    assert(fi != gi);
    lemma_transfer_moves_amount(w2.balances, fi + 1, gi + 1, token, t.amount);
}

} // verus!
