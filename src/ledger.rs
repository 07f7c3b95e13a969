//! The balance ledger: tracked tokens with their watermarks, holders, and one
//! exact balance per (holder, token) pair.
//!
//! Row ids are handed out in order from 1, as a serial column would.
use vstd::prelude::*;
use crate::address::{canonical_address, is_address_text, normalize_address};
use crate::amount::Amount;

verus! {

/// The most rows of one kind that ids of type `i32` can number.
pub const MAX_ROWS: usize = 2147483646;

#[derive(Clone, Copy, Debug, PartialEq, Eq, Structural)]
pub enum LedgerError {
    /// The contract address is not 40 hexadecimal digits.
    InvalidAddress,
    /// A token with this contract address is already tracked.
    DuplicateToken,
    /// No token has this id.
    UnknownToken,
    /// No holder has this id.
    UnknownHolder,
    /// No id is left for another row.
    Full,
}

/// A tracked token contract.
#[derive(Debug)]
pub struct Token {
    pub id: i32,
    /// The contract address, as 40 lower-case hexadecimal digits.
    pub contract_addr: String,
    /// The last block whose transfers are applied; -1 before the first.
    pub last_checked_block: i64,
    pub symbol: String,
    pub decimals: i16,
}

pub struct TokenView {
    pub contract: Seq<char>,
    pub watermark: int,
    pub symbol: Seq<char>,
    pub decimals: int,
}

impl View for Token {
    type V = TokenView;

    open spec fn view(&self) -> TokenView {
        TokenView {
            contract: self.contract_addr@,
            watermark: self.last_checked_block as int,
            symbol: self.symbol@,
            decimals: self.decimals as int,
        }
    }
}

impl Token {
    /// A copy of the token.
    pub fn duplicate(&self) -> (r: Token)
        ensures
            r@ == self@,
            r.id == self.id,
    {
        Token {
            id: self.id,
            contract_addr: self.contract_addr.clone(),
            last_checked_block: self.last_checked_block,
            symbol: self.symbol.clone(),
            decimals: self.decimals,
        }
    }

    fn with_watermark(&self, watermark: i64) -> (r: Token)
        ensures
            r@ == (TokenView { watermark: watermark as int, ..self@ }),
            r.id == self.id,
    {
        Token {
            id: self.id,
            contract_addr: self.contract_addr.clone(),
            last_checked_block: watermark,
            symbol: self.symbol.clone(),
            decimals: self.decimals,
        }
    }
}

/// A holder of tokens, known by address: 40 lower-case hexadecimal digits.
#[derive(Debug)]
pub struct Holder {
    pub id: i32,
    pub holder_addr: String,
}

struct BalanceRow {
    holder_id: i32,
    token_id: i32,
    amount: Amount,
}

impl BalanceRow {
    spec fn key(&self) -> (int, int) {
        (self.holder_id as int, self.token_id as int)
    }
}

/// The ledger as a mathematical value. The token with id `i` is
/// `tokens[i - 1]`, the holder with id `i` has address `holders[i - 1]`, and
/// `balances` maps (holder id, token id) to the balance of each row.
pub struct LedgerView {
    pub tokens: Seq<TokenView>,
    pub holders: Seq<Seq<char>>,
    pub balances: Map<(int, int), int>,
}

/// The balance of a holder in a token; a pair without a row holds zero.
pub open spec fn balance_of(m: Map<(int, int), int>, holder: int, token: int) -> int {
    if m.contains_key((holder, token)) {
        m[(holder, token)]
    } else {
        0
    }
}

impl LedgerView {
    pub open spec fn wf(self) -> bool {
        &&& self.tokens.len() <= MAX_ROWS
        &&& self.holders.len() <= MAX_ROWS
        &&& forall|i: int, j: int|
            0 <= i < j < self.holders.len() ==> #[trigger] self.holders[i] != #[trigger] self.holders[j]
        &&& forall|i: int, j: int|
            0 <= i < j < self.tokens.len() ==> #[trigger] self.tokens[i].contract
                != #[trigger] self.tokens[j].contract
    }

    pub open spec fn has_token(self, id: int) -> bool {
        1 <= id <= self.tokens.len()
    }

    pub open spec fn has_holder(self, id: int) -> bool {
        1 <= id <= self.holders.len()
    }

    pub open spec fn tracks_contract(self, contract: Seq<char>) -> bool {
        exists|i: int| 0 <= i < self.tokens.len() && #[trigger] self.tokens[i].contract == contract
    }

    pub open spec fn knows_address(self, addr: Seq<char>) -> bool {
        exists|i: int| 0 <= i < self.holders.len() && #[trigger] self.holders[i] == addr
    }

    /// The id of the holder with address `addr`, where there is one.
    pub open spec fn holder_id(self, addr: Seq<char>) -> int {
        (choose|i: int| 0 <= i < self.holders.len() && #[trigger] self.holders[i] == addr) + 1
    }

    /// The ledger once `addr` is known as a holder.
    pub open spec fn with_holder(self, addr: Seq<char>) -> LedgerView {
        if self.knows_address(addr) {
            self
        } else {
            LedgerView { holders: self.holders.push(addr), ..self }
        }
    }

    /// The ledger once token `id` has committed block `block`: a watermark
    /// never moves backward.
    pub open spec fn with_watermark(self, id: int, block: int) -> LedgerView {
        let t = self.tokens[id - 1];
        let w = if block > t.watermark { block } else { t.watermark };
        LedgerView { tokens: self.tokens.update(id - 1, TokenView { watermark: w, ..t }), ..self }
    }

    pub open spec fn balance(self, holder: int, token: int) -> int {
        balance_of(self.balances, holder, token)
    }
}

/// Every token present before is present after, at the same id, with the
/// same contract, and with a watermark no lower.
pub open spec fn watermarks_kept(before: LedgerView, after: LedgerView) -> bool {
    &&& before.tokens.len() <= after.tokens.len()
    &&& forall|i: int|
        0 <= i < before.tokens.len() ==> {
            &&& (#[trigger] after.tokens[i]).contract == before.tokens[i].contract
            &&& after.tokens[i].watermark >= before.tokens[i].watermark
        }
}

/// The balances and the tracked tokens and holders.
pub struct Ledger {
    tokens: Vec<Token>,
    holders: Vec<Holder>,
    balances: Vec<BalanceRow>,
}

impl View for Ledger {
    type V = LedgerView;

    closed spec fn view(&self) -> LedgerView {
        LedgerView {
            tokens: self.tokens@.map_values(|t: Token| t@),
            holders: self.holders@.map_values(|h: Holder| h.holder_addr@),
            balances: rows_map(self.balances@),
        }
    }
}

spec fn rows_map(rows: Seq<BalanceRow>) -> Map<(int, int), int>
    decreases rows.len(),
{
    if rows.len() == 0 {
        Map::empty()
    } else {
        rows_map(rows.drop_last()).insert(rows.last().key(), rows.last().amount@)
    }
}

spec fn unique_keys(rows: Seq<BalanceRow>) -> bool {
    forall|i: int, j: int| 0 <= i < j < rows.len() ==> #[trigger] rows[i].key() != #[trigger] rows[j].key()
}

/// The row at `i` gives the balance of its key.
proof fn lemma_rows_lookup(rows: Seq<BalanceRow>, i: int)
    requires
        unique_keys(rows),
        0 <= i < rows.len(),
    ensures
        rows_map(rows).contains_key(rows[i].key()),
        rows_map(rows)[rows[i].key()] == rows[i].amount@,
    decreases rows.len(),
{
    if i < rows.len() - 1 {
        let u = rows.drop_last();
        assert(u[i] == rows[i]);
        assert(rows[i].key() != rows[rows.len() - 1].key());
        lemma_rows_lookup(u, i);
    }
}

/// A key that no row has is not in the map.
proof fn lemma_rows_absent(rows: Seq<BalanceRow>, key: (int, int))
    requires
        forall|i: int| 0 <= i < rows.len() ==> #[trigger] rows[i].key() != key,
    ensures
        !rows_map(rows).contains_key(key),
    decreases rows.len(),
{
    if rows.len() > 0 {
        let u = rows.drop_last();
        assert forall|i: int| 0 <= i < u.len() implies #[trigger] u[i].key() != key by {
            assert(u[i] == rows[i]);
        }
        lemma_rows_absent(u, key);
    }
}

/// Replacing the row at `i` by one with the same key sets that key's balance.
proof fn lemma_rows_update(rows: Seq<BalanceRow>, i: int, row: BalanceRow)
    requires
        unique_keys(rows),
        0 <= i < rows.len(),
        row.key() == rows[i].key(),
    ensures
        unique_keys(rows.update(i, row)),
        rows_map(rows.update(i, row)) == rows_map(rows).insert(row.key(), row.amount@),
    decreases rows.len(),
{
    let t = rows.update(i, row);
    assert forall|a: int, b: int| 0 <= a < b < t.len() implies #[trigger] t[a].key() != #[trigger] t[b].key() by {
        assert(rows[a].key() != rows[b].key());
    }
    let n = rows.len();
    if i == n - 1 {
        assert(t.drop_last() =~= rows.drop_last());
        assert(rows_map(t) =~= rows_map(rows).insert(row.key(), row.amount@));
    } else {
        let u = rows.drop_last();
        assert(t.drop_last() =~= u.update(i, row));
        assert(u[i] == rows[i]);
        assert forall|a: int, b: int| 0 <= a < b < u.len() implies #[trigger] u[a].key() != #[trigger] u[b].key() by {
            assert(u[a] == rows[a] && u[b] == rows[b]);
        }
        lemma_rows_update(u, i, row);
        assert(rows[i].key() != rows[n - 1].key());
        assert(t.last() == rows.last());
        assert(rows_map(t) =~= rows_map(rows).insert(row.key(), row.amount@));
    }
}

/// The balances after `amount` moved from `from` to `to` in `token`; a
/// transfer to oneself changes nothing.
pub open spec fn transferred(
    m: Map<(int, int), int>,
    from: int,
    to: int,
    token: int,
    amount: int,
) -> Map<(int, int), int> {
    if from == to {
        m
    } else {
        m.insert((from, token), balance_of(m, from, token) - amount).insert(
            (to, token),
            balance_of(m, to, token) + amount,
        )
    }
}

/// What a row adds to the total of `token`.
spec fn row_share(row: BalanceRow, token: int) -> int {
    if row.token_id == token {
        row.amount@
    } else {
        0
    }
}

/// The sum of the rows of `token`.
spec fn rows_total(rows: Seq<BalanceRow>, token: int) -> int
    decreases rows.len(),
{
    if rows.len() == 0 {
        0
    } else {
        rows_total(rows.drop_last(), token) + row_share(rows.last(), token)
    }
}

proof fn lemma_rows_total_update(rows: Seq<BalanceRow>, i: int, row: BalanceRow, token: int)
    requires
        0 <= i < rows.len(),
    ensures
        rows_total(rows.update(i, row), token) == rows_total(rows, token) - row_share(rows[i], token)
            + row_share(row, token),
    decreases rows.len(),
{
    let t = rows.update(i, row);
    if i == rows.len() - 1 {
        assert(t.drop_last() =~= rows.drop_last());
    } else {
        let u = rows.drop_last();
        assert(t.drop_last() =~= u.update(i, row));
        assert(u[i] == rows[i]);
        lemma_rows_total_update(u, i, row, token);
    }
}

/// A transfer to oneself leaves every balance as it was.
pub proof fn lemma_self_transfer_unchanged(m: Map<(int, int), int>, holder: int, token: int, amount: int)
    ensures
        transferred(m, holder, holder, token, amount) == m,
{
}

/// A transfer between two holders takes exactly `amount` from the sender's
/// balance, gives exactly `amount` to the receiver's, and leaves every other
/// balance as it was.
pub proof fn lemma_transfer_moves_amount(
    m: Map<(int, int), int>,
    from: int,
    to: int,
    token: int,
    amount: int,
)
    requires
        from != to,
    ensures
        balance_of(transferred(m, from, to, token, amount), from, token) == balance_of(m, from, token)
            - amount,
        balance_of(transferred(m, from, to, token, amount), to, token) == balance_of(m, to, token)
            + amount,
        forall|h: int, t: int|
            (h, t) != (from, token) && (h, t) != (to, token) ==> #[trigger] balance_of(
                transferred(m, from, to, token, amount),
                h,
                t,
            ) == balance_of(m, h, t),
{
}

/// Looking up or adding a holder twice is the same as doing it once: the
/// second call finds the row the first one made, and the address has exactly
/// one row.
pub proof fn lemma_holder_idempotent(v: LedgerView, addr: Seq<char>)
    requires
        v.wf(),
        v.knows_address(addr) || v.holders.len() < MAX_ROWS,
    ensures
        v.with_holder(addr).with_holder(addr) == v.with_holder(addr),
        v.with_holder(addr).wf(),
        v.with_holder(addr).knows_address(addr),
        v.with_holder(addr).holders[v.with_holder(addr).holder_id(addr) - 1] == addr,
        forall|i: int, j: int|
            0 <= i < v.with_holder(addr).holders.len() && 0 <= j < v.with_holder(addr).holders.len()
                && #[trigger] v.with_holder(addr).holders[i] == addr && #[trigger] v.with_holder(
                addr,
            ).holders[j] == addr ==> i == j,
{
    let w = v.with_holder(addr);
    if !v.knows_address(addr) {
        assert(w.holders[v.holders.len() as int] == addr);
        assert forall|i: int, j: int| 0 <= i < j < w.holders.len() implies #[trigger] w.holders[i]
            != #[trigger] w.holders[j] by {
            if j == v.holders.len() {
                assert(v.holders[i] == w.holders[i]);
            } else {
                assert(v.holders[i] != v.holders[j]);
            }
        }
    }
    assert(w.knows_address(addr));
    assert forall|i: int, j: int|
        0 <= i < w.holders.len() && 0 <= j < w.holders.len() && #[trigger] w.holders[i] == addr
            && #[trigger] w.holders[j] == addr implies i == j by {
        if i < j {
            assert(w.holders[i] != w.holders[j]);
        } else if j < i {
            assert(w.holders[j] != w.holders[i]);
        }
    }
}

/// Two texts of one address, whatever their letter case, name one holder:
/// looking up the second after the first adds nothing and finds the same id.
pub proof fn lemma_same_address_same_holder(v: LedgerView, a: Seq<char>, b: Seq<char>)
    requires
        v.wf(),
        canonical_address(a) == canonical_address(b),
        v.knows_address(canonical_address(a)) || v.holders.len() < MAX_ROWS,
    ensures
        v.with_holder(canonical_address(a)).with_holder(canonical_address(b)) == v.with_holder(
            canonical_address(a),
        ),
        v.with_holder(canonical_address(a)).holder_id(canonical_address(b)) == v.with_holder(
            canonical_address(a),
        ).holder_id(canonical_address(a)),
{
    lemma_holder_idempotent(v, canonical_address(a));
}

/// Watermarks never move backward over a run of ledger operations: what
/// holds of each step holds of the whole run.
pub proof fn lemma_watermarks_kept_chain(a: LedgerView, b: LedgerView, c: LedgerView)
    requires
        watermarks_kept(a, b),
        watermarks_kept(b, c),
    ensures
        watermarks_kept(a, c),
{
    assert forall|i: int| 0 <= i < a.tokens.len() implies {
        &&& (#[trigger] c.tokens[i]).contract == a.tokens[i].contract
        &&& c.tokens[i].watermark >= a.tokens[i].watermark
    } by {
        assert(b.tokens[i].watermark >= a.tokens[i].watermark);
    }
}

/// Committing a block never lowers a watermark; it raises the token's to
/// the block when the block is past it.
pub proof fn lemma_commit_keeps_watermarks(v: LedgerView, token: int, block: int)
    requires
        v.has_token(token),
    ensures
        watermarks_kept(v, v.with_watermark(token, block)),
        v.with_watermark(token, block).tokens[token - 1].watermark == if block > v.tokens[token
            - 1].watermark {
            block
        } else {
            v.tokens[token - 1].watermark
        },
{
}

impl Ledger {
    /// Ids follow positions, and no two rows share a key.
    pub closed spec fn well_formed(&self) -> bool {
        &&& self@.wf()
        &&& forall|i: int| 0 <= i < self.tokens@.len() ==> #[trigger] self.tokens@[i].id == i + 1
        &&& forall|i: int| 0 <= i < self.holders@.len() ==> #[trigger] self.holders@[i].id == i + 1
        &&& unique_keys(self.balances@)
    }

    /// The sum of the balances of token `token` over all holders. Each
    /// transfer takes from one holder what it gives another, so it is zero
    /// for every token, mints and burns included: they are transfers from or
    /// to the zero address, which is a holder like any other.
    pub closed spec fn token_total(&self, token: int) -> int {
        rows_total(self.balances@, token)
    }

    /// The view of a well-formed ledger is well formed.
    pub proof fn lemma_wf(&self)
        requires
            self.well_formed(),
        ensures
            self@.wf(),
    {
    }

    /// An empty ledger.
    pub fn new() -> (l: Ledger)
        ensures
            l.well_formed(),
            l@.tokens.len() == 0,
            l@.holders.len() == 0,
            l@.balances == Map::<(int, int), int>::empty(),
            forall|t: int| #[trigger] l.token_total(t) == 0,
    {
        let l = Ledger { tokens: Vec::new(), holders: Vec::new(), balances: Vec::new() };
        assert(l@.tokens =~= Seq::<TokenView>::empty());
        assert(l@.holders =~= Seq::<Seq<char>>::empty());
        l
    }

    pub fn token_count(&self) -> (r: usize)
        requires
            self.well_formed(),
        ensures
            r == self@.tokens.len(),
    {
        self.tokens.len()
    }

    pub fn holder_count(&self) -> (r: usize)
        requires
            self.well_formed(),
        ensures
            r == self@.holders.len(),
    {
        self.holders.len()
    }

    /// A copy of the token with id `id`, if there is one.
    pub fn token(&self, id: i32) -> (r: Option<Token>)
        requires
            self.well_formed(),
        ensures
            r is Some <==> self@.has_token(id as int),
            r matches Some(t) ==> t@ == self@.tokens[id - 1] && t.id == id,
    {
        if 1 <= id && (id as usize) <= self.tokens.len() {
            let t = self.tokens[(id - 1) as usize].duplicate();
            Some(t)
        } else {
            None
        }
    }

    /// Copies of all tokens, in order of id.
    pub fn tokens(&self) -> (r: Vec<Token>)
        requires
            self.well_formed(),
        ensures
            r@.map_values(|t: Token| t@) == self@.tokens,
            forall|i: int| 0 <= i < r@.len() ==> #[trigger] r@[i].id == i + 1,
    {
        let mut r: Vec<Token> = Vec::new();
        let mut i: usize = 0;
        while i < self.tokens.len()
            invariant
                i <= self.tokens@.len(),
                r@.len() == i,
                forall|k: int| 0 <= k < i ==> #[trigger] r@[k]@ == self.tokens@[k]@,
                forall|k: int| 0 <= k < i ==> #[trigger] r@[k].id == k + 1,
                forall|k: int| 0 <= k < self.tokens@.len() ==> #[trigger] self.tokens@[k].id == k + 1,
            decreases self.tokens@.len() - i,
        {
            r.push(self.tokens[i].duplicate());
            i = i + 1;
        }
        assert(r@.map_values(|t: Token| t@) =~= self@.tokens);
        r
    }

    /// Starts tracking the contract at `contract_addr`, stored in canonical
    /// form, with `start_watermark` as its watermark.
    pub fn register_token(
        &mut self,
        contract_addr: &str,
        start_watermark: i64,
        symbol: &str,
        decimals: i16,
    ) -> (r: Result<Token, LedgerError>)
        requires
            old(self).well_formed(),
        ensures
            final(self).well_formed(),
            !is_address_text(contract_addr@) ==> r == Err::<Token, LedgerError>(
                LedgerError::InvalidAddress,
            ),
            is_address_text(contract_addr@) && old(self)@.tracks_contract(
                canonical_address(contract_addr@),
            ) ==> r == Err::<Token, LedgerError>(LedgerError::DuplicateToken),
            is_address_text(contract_addr@) && !old(self)@.tracks_contract(
                canonical_address(contract_addr@),
            ) && old(self)@.tokens.len() >= MAX_ROWS ==> r == Err::<Token, LedgerError>(
                LedgerError::Full,
            ),
            r is Err ==> final(self)@ == old(self)@,
            watermarks_kept(old(self)@, final(self)@),
            forall|t: int| #[trigger] final(self).token_total(t) == old(self).token_total(t),
            is_address_text(contract_addr@) && !old(self)@.tracks_contract(
                canonical_address(contract_addr@),
            ) && old(self)@.tokens.len() < MAX_ROWS ==> r is Ok,
            r matches Ok(t) ==> {
                &&& t.id == old(self)@.tokens.len() + 1
                &&& t@ == (TokenView {
                    contract: canonical_address(contract_addr@),
                    watermark: start_watermark as int,
                    symbol: symbol@,
                    decimals: decimals as int,
                })
                &&& final(self)@ == (LedgerView { tokens: old(self)@.tokens.push(t@), ..old(self)@ })
            },
    {
        let canonical = match normalize_address(contract_addr) {
            Some(c) => c,
            None => {
                return Err(LedgerError::InvalidAddress);
            },
        };
        let mut i: usize = 0;
        while i < self.tokens.len()
            invariant
                i <= self.tokens@.len(),
                self@ == old(self)@,
                self.well_formed(),
                is_address_text(contract_addr@),
                canonical@ == canonical_address(contract_addr@),
                forall|k: int| 0 <= k < i ==> #[trigger] self@.tokens[k].contract != canonical@,
            decreases self.tokens@.len() - i,
        {
            if self.tokens[i].contract_addr == canonical {
                assert(self@.tokens[i as int].contract == canonical@);
                return Err(LedgerError::DuplicateToken);
            }
            i = i + 1;
        }
        if self.tokens.len() >= MAX_ROWS {
            return Err(LedgerError::Full);
        }
        let id = (self.tokens.len() + 1) as i32;
        let token = Token {
            id,
            contract_addr: canonical,
            last_checked_block: start_watermark,
            symbol: symbol.to_owned(),
            decimals,
        };
        let copy = token.duplicate();
        self.tokens.push(token);
        assert(self@.tokens =~= old(self)@.tokens.push(copy@));
        Ok(copy)
    }

    /// Commits `block` as the watermark of token `token_id`, unless the
    /// watermark is already past it.
    pub fn advance_watermark(&mut self, token_id: i32, block: i64) -> (r: Result<(), LedgerError>)
        requires
            old(self).well_formed(),
        ensures
            final(self).well_formed(),
            r is Ok <==> old(self)@.has_token(token_id as int),
            r is Err ==> r == Err::<(), LedgerError>(LedgerError::UnknownToken) && final(self)@
                == old(self)@,
            forall|t: int| #[trigger] final(self).token_total(t) == old(self).token_total(t),
            r is Ok ==> final(self)@ == old(self)@.with_watermark(token_id as int, block as int),
            watermarks_kept(old(self)@, final(self)@),
    {
        if token_id < 1 || (token_id as usize) > self.tokens.len() {
            return Err(LedgerError::UnknownToken);
        }
        let k = (token_id - 1) as usize;
        if block > self.tokens[k].last_checked_block {
            let t = self.tokens[k].with_watermark(block);
            self.tokens.set(k, t);
        }
        assert(self@.tokens =~= old(self)@.with_watermark(token_id as int, block as int).tokens);
        Ok(())
    }

    /// The id of the holder with address `addr`, added if it is new.
    /// Holders are known by the canonical form of their address, so the
    /// same address in another letter case finds the same holder.
    pub fn get_or_create_holder(&mut self, addr: &str) -> (r: Result<i32, LedgerError>)
        requires
            old(self).well_formed(),
        ensures
            final(self).well_formed(),
            !is_address_text(addr@) ==> r == Err::<i32, LedgerError>(LedgerError::InvalidAddress),
            is_address_text(addr@) ==> (r is Err <==> !old(self)@.knows_address(
                canonical_address(addr@),
            ) && old(self)@.holders.len() >= MAX_ROWS),
            is_address_text(addr@) && r is Err ==> r == Err::<i32, LedgerError>(LedgerError::Full),
            r is Err ==> final(self)@ == old(self)@,
            final(self)@.tokens == old(self)@.tokens,
            forall|t: int| #[trigger] final(self).token_total(t) == old(self).token_total(t),
            r matches Ok(id) ==> {
                &&& 1 <= id <= final(self)@.holders.len()
                &&& final(self)@ == old(self)@.with_holder(canonical_address(addr@))
                &&& id == final(self)@.holder_id(canonical_address(addr@))
                &&& final(self)@.holders[id - 1] == canonical_address(addr@)
            },
    {
        let key: String = match normalize_address(addr) {
            Some(k) => k,
            None => {
                return Err(LedgerError::InvalidAddress);
            },
        };
        let ghost c = canonical_address(addr@);
        let mut i: usize = 0;
        while i < self.holders.len()
            invariant
                i <= self.holders@.len(),
                self@ == old(self)@,
                self.well_formed(),
                key@ == c,
                c == canonical_address(addr@),
                is_address_text(addr@),
                forall|k: int| 0 <= k < i ==> #[trigger] self@.holders[k] != c,
            decreases self.holders@.len() - i,
        {
            if self.holders[i].holder_addr == key {
                proof {
                    let v = self@;
                    assert(v.holders[i as int] == c);
                    assert(v.knows_address(c));
                    let j = choose|j: int| 0 <= j < v.holders.len() && #[trigger] v.holders[j] == c;
                    assert(j == i);
                }
                return Ok(self.holders[i].id);
            }
            i = i + 1;
        }
        if self.holders.len() >= MAX_ROWS {
            return Err(LedgerError::Full);
        }
        let id = (self.holders.len() + 1) as i32;
        self.holders.push(Holder { id, holder_addr: key });
        proof {
            let v = self@;
            assert(v.holders =~= old(self)@.holders.push(c));
            assert(v.holders[id - 1] == c);
            let j = choose|j: int| 0 <= j < v.holders.len() && #[trigger] v.holders[j] == c;
            assert(j == id - 1);
        }
        Ok(id)
    }
}

impl Ledger {
    /// The index of the row of `(holder, token)`, if there is one.
    fn find_row(&self, holder: i32, token: i32) -> (r: Option<usize>)
        requires
            self.well_formed(),
        ensures
            r matches Some(i) ==> i < self.balances@.len() && self.balances@[i as int].key() == (
                holder as int,
                token as int,
            ),
            r is None ==> forall|i: int|
                0 <= i < self.balances@.len() ==> #[trigger] self.balances@[i].key() != (
                    holder as int,
                    token as int,
                ),
    {
        let mut i: usize = 0;
        while i < self.balances.len()
            invariant
                i <= self.balances@.len(),
                forall|k: int|
                    0 <= k < i ==> #[trigger] self.balances@[k].key() != (holder as int, token as int),
            decreases self.balances@.len() - i,
        {
            if self.balances[i].holder_id == holder && self.balances[i].token_id == token {
                return Some(i);
            }
            i = i + 1;
        }
        None
    }

    /// Adds `delta` to the balance of `(holder, token)`, or subtracts it
    /// where `subtract`, creating the row at zero first if there is none.
    fn adjust_balance(&mut self, holder: i32, token: i32, delta: &Amount, subtract: bool)
        requires
            old(self).well_formed(),
        ensures
            final(self).well_formed(),
            final(self)@ == (LedgerView {
                balances: old(self)@.balances.insert(
                    (holder as int, token as int),
                    if subtract {
                        old(self)@.balance(holder as int, token as int) - delta@
                    } else {
                        old(self)@.balance(holder as int, token as int) + delta@
                    },
                ),
                ..old(self)@
            }),
            forall|t: int|
                #[trigger] final(self).token_total(t) == old(self).token_total(t) + if t == token {
                    if subtract {
                        -delta@
                    } else {
                        delta@
                    }
                } else {
                    0
                },
    {
        let ghost key = (holder as int, token as int);
        match self.find_row(holder, token) {
            Some(i) => {
                proof {
                    lemma_rows_lookup(self.balances@, i as int);
                }
                let amount = if subtract {
                    self.balances[i].amount.sub(delta)
                } else {
                    self.balances[i].amount.add(delta)
                };
                let row = BalanceRow { holder_id: holder, token_id: token, amount };
                proof {
                    lemma_rows_update(self.balances@, i as int, row);
                    assert forall|t: int| #[trigger] rows_total(self.balances@.update(i as int, row), t)
                        == rows_total(self.balances@, t) + if t == token {
                        if subtract {
                            -delta@
                        } else {
                            delta@
                        }
                    } else {
                        0
                    } by {
                        lemma_rows_total_update(self.balances@, i as int, row, t);
                    }
                }
                self.balances.set(i, row);
            },
            None => {
                proof {
                    lemma_rows_absent(self.balances@, key);
                }
                let amount = if subtract {
                    Amount::zero().sub(delta)
                } else {
                    Amount::zero().add(delta)
                };
                let row = BalanceRow { holder_id: holder, token_id: token, amount };
                let ghost before = self.balances@;
                self.balances.push(row);
                proof {
                    assert(self.balances@.drop_last() == before);
                    assert forall|t: int| #[trigger] rows_total(self.balances@, t) == rows_total(before, t)
                        + row_share(row, t) by {}
                    assert forall|a: int, b: int|
                        0 <= a < b < self.balances@.len() implies #[trigger] self.balances@[a].key()
                        != #[trigger] self.balances@[b].key() by {
                        if b < before.len() {
                            assert(before[a].key() != before[b].key());
                        }
                    }
                }
            },
        }
        assert(self@.balances =~= old(self)@.balances.insert(
            key,
            if subtract {
                old(self)@.balance(holder as int, token as int) - delta@
            } else {
                old(self)@.balance(holder as int, token as int) + delta@
            },
        ));
        assert(self@.tokens == old(self)@.tokens);
        assert(self@.holders == old(self)@.holders);
    }

    /// Moves `amount` of token `token_id` from holder `from_id` to holder
    /// `to_id` as one adjustment: the sender's row goes down and the
    /// receiver's goes up, each created at zero if it is missing. A transfer
    /// to oneself changes nothing.
    pub fn apply_transfer(&mut self, from_id: i32, to_id: i32, token_id: i32, amount: &Amount) -> (r:
        Result<(), LedgerError>)
        requires
            old(self).well_formed(),
        ensures
            final(self).well_formed(),
            from_id == to_id ==> r is Ok,
            from_id != to_id && !old(self)@.has_token(token_id as int) ==> r == Err::<
                (),
                LedgerError,
            >(LedgerError::UnknownToken),
            from_id != to_id && old(self)@.has_token(token_id as int) && !(old(self)@.has_holder(
                from_id as int,
            ) && old(self)@.has_holder(to_id as int)) ==> r == Err::<(), LedgerError>(
                LedgerError::UnknownHolder,
            ),
            from_id != to_id && old(self)@.has_token(token_id as int) && old(self)@.has_holder(
                from_id as int,
            ) && old(self)@.has_holder(to_id as int) ==> r is Ok,
            r is Err ==> final(self)@ == old(self)@,
            final(self)@.tokens == old(self)@.tokens,
            forall|t: int| #[trigger] final(self).token_total(t) == old(self).token_total(t),
            r is Ok ==> final(self)@ == (LedgerView {
                balances: transferred(
                    old(self)@.balances,
                    from_id as int,
                    to_id as int,
                    token_id as int,
                    amount@,
                ),
                ..old(self)@
            }),
    {
        if from_id == to_id {
            return Ok(());
        }
        if token_id < 1 || (token_id as usize) > self.tokens.len() {
            return Err(LedgerError::UnknownToken);
        }
        if from_id < 1 || (from_id as usize) > self.holders.len() || to_id < 1 || (to_id as usize)
            > self.holders.len() {
            return Err(LedgerError::UnknownHolder);
        }
        self.adjust_balance(from_id, token_id, amount, true);
        self.adjust_balance(to_id, token_id, amount, false);
        assert(self@.balances =~= transferred(
            old(self)@.balances,
            from_id as int,
            to_id as int,
            token_id as int,
            amount@,
        ));
        Ok(())
    }

    /// The balance of holder `holder_id` in token `token_id`, as decimal text;
    /// `0` where no transfer touched the pair.
    pub fn balance(&self, holder_id: i32, token_id: i32) -> (r: String)
        requires
            self.well_formed(),
        ensures
            r@ == crate::amount::int_text(self@.balance(holder_id as int, token_id as int)),
    {
        match self.find_row(holder_id, token_id) {
            Some(i) => {
                proof {
                    lemma_rows_lookup(self.balances@, i as int);
                }
                self.balances[i].amount.to_text()
            },
            None => {
                proof {
                    lemma_rows_absent(self.balances@, (holder_id as int, token_id as int));
                }
                Amount::zero().to_text()
            },
        }
    }
}

} // verus!
