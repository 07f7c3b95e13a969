//! The supervisor's bookkeeping: which tokens have a running pipeline, how
//! new contracts are admitted, and how an empty ledger is seeded.
use vstd::prelude::*;
use crate::address::{canonical_address, is_address_text};
use crate::ledger::{Ledger, LedgerError, LedgerView, Token, TokenView};

verus! {

proof fn lemma_push_unique(s: Seq<i32>, v: i32)
    requires
        s.no_duplicates(),
        !s.contains(v),
    ensures
        s.push(v).no_duplicates(),
        forall|x: i32| s.push(v).contains(x) <==> (s.contains(x) || x == v),
{
    let t = s.push(v);
    assert forall|x: i32| t.contains(x) <==> (s.contains(x) || x == v) by {
        if t.contains(x) {
            let k = choose|k: int| 0 <= k < t.len() && t[k] == x;
            if k < s.len() {
                assert(s[k] == x);
            }
        }
        if s.contains(x) {
            let k = choose|k: int| 0 <= k < s.len() && s[k] == x;
            assert(t[k] == x);
        }
        if x == v {
            assert(t[s.len() as int] == x);
        }
    }
    assert forall|a: int, b: int| 0 <= a < t.len() && 0 <= b < t.len() && a != b implies t[a] != t[b] by {
        if a < s.len() && b < s.len() {
        } else if a < s.len() {
            assert(s.contains(s[a]));
        } else if b < s.len() {
            assert(s.contains(s[b]));
        }
    }
}

proof fn lemma_remove_unique(s: Seq<i32>, i: int)
    requires
        s.no_duplicates(),
        0 <= i < s.len(),
    ensures
        s.remove(i).no_duplicates(),
        forall|x: i32| s.remove(i).contains(x) <==> (s.contains(x) && x != s[i]),
{
    let t = s.remove(i);
    assert forall|x: i32| t.contains(x) <==> (s.contains(x) && x != s[i]) by {
        if t.contains(x) {
            let k = choose|k: int| 0 <= k < t.len() && t[k] == x;
            if k < i {
                assert(s[k] == x);
            } else {
                assert(s[k + 1] == x);
            }
        }
        if s.contains(x) && x != s[i] {
            let k = choose|k: int| 0 <= k < s.len() && s[k] == x;
            if k < i {
                assert(t[k] == x);
            } else {
                assert(k != i);
                assert(t[k - 1] == x);
            }
        }
    }
    assert forall|a: int, b: int| 0 <= a < t.len() && 0 <= b < t.len() && a != b implies t[a] != t[b] by {
        let a2 = if a < i { a } else { a + 1 };
        let b2 = if b < i { b } else { b + 1 };
        assert(t[a] == s[a2] && t[b] == s[b2]);
    }
}

/// The tokens whose pipelines are running.
pub struct Supervisor {
    running: Vec<i32>,
}

impl View for Supervisor {
    type V = Set<i32>;

    closed spec fn view(&self) -> Set<i32> {
        Set::new(|id: i32| self.running@.contains(id))
    }
}

impl Supervisor {
    /// No id is listed twice.
    pub closed spec fn well_formed(&self) -> bool {
        self.running@.no_duplicates()
    }

    /// A supervisor with no pipeline running.
    pub fn new() -> (s: Supervisor)
        ensures
            s.well_formed(),
            s@ == Set::<i32>::empty(),
    {
        let s = Supervisor { running: Vec::new() };
        assert(s@ =~= Set::<i32>::empty());
        s
    }

    pub fn is_running(&self, token_id: i32) -> (r: bool)
        ensures
            r == self@.contains(token_id),
    {
        let mut i: usize = 0;
        while i < self.running.len()
            invariant
                i <= self.running@.len(),
                forall|k: int| 0 <= k < i ==> #[trigger] self.running@[k] != token_id,
            decreases self.running@.len() - i,
        {
            if self.running[i] == token_id {
                return true;
            }
            i = i + 1;
        }
        false
    }

    pub fn running_count(&self) -> (r: usize)
        requires
            self.well_formed(),
        ensures
            r == self@.len(),
    {
        proof {
            self.running@.unique_seq_to_set();
            assert(self@ =~= self.running@.to_set());
        }
        self.running.len()
    }

    /// Accepts token `token_id`: its pipeline is to be started unless one is
    /// already running, so that no token ever has two.
    pub fn accept(&mut self, token_id: i32) -> (start: bool)
        requires
            old(self).well_formed(),
        ensures
            final(self).well_formed(),
            start == !old(self)@.contains(token_id),
            final(self)@ == old(self)@.insert(token_id),
    {
        if self.is_running(token_id) {
            assert(old(self)@.insert(token_id) =~= old(self)@);
            return false;
        }
        proof {
            lemma_push_unique(self.running@, token_id);
        }
        self.running.push(token_id);
        assert(self@ =~= old(self)@.insert(token_id));
        true
    }

    /// Records that the pipeline of token `token_id` ended, by failure or
    /// by the end of its subscription. Other pipelines are not touched.
    pub fn finish(&mut self, token_id: i32) -> (was_running: bool)
        requires
            old(self).well_formed(),
        ensures
            final(self).well_formed(),
            was_running == old(self)@.contains(token_id),
            final(self)@ == old(self)@.remove(token_id),
    {
        let mut i: usize = 0;
        while i < self.running.len()
            invariant
                i <= self.running@.len(),
                self.running@ == old(self).running@,
                self.well_formed(),
                forall|k: int| 0 <= k < i ==> #[trigger] self.running@[k] != token_id,
            decreases self.running@.len() - i,
        {
            if self.running[i] == token_id {
                proof {
                    lemma_remove_unique(self.running@, i as int);
                }
                self.running.remove(i);
                assert(self@ =~= old(self)@.remove(token_id));
                return true;
            }
            i = i + 1;
        }
        assert(old(self)@.remove(token_id) =~= old(self)@);
        false
    }
}

/// The watermark of a contract registered to be scanned from genesis.
pub const GENESIS_WATERMARK: i64 = -1;

/// The decimals a newly registered token is given.
pub const PLACEHOLDER_DECIMALS: i16 = 6;

/// The symbol a newly registered token is given.
pub fn placeholder_symbol() -> (r: &'static str)
    ensures
        r@ == "TEST"@,
{
    "TEST"
}

impl Ledger {
    /// Tracks the contract at `contract_addr` from the genesis block, with a
    /// placeholder symbol and decimals.
    pub fn add_token_by_contract(&mut self, contract_addr: &str) -> (r: Result<Token, LedgerError>)
        requires
            old(self).well_formed(),
        ensures
            final(self).well_formed(),
            !is_address_text(contract_addr@) ==> r == Err::<Token, LedgerError>(
                LedgerError::InvalidAddress,
            ),
            is_address_text(contract_addr@) && old(self)@.tracks_contract(
                canonical_address(contract_addr@),
            ) ==> r == Err::<Token, LedgerError>(LedgerError::DuplicateToken),
            r is Err ==> final(self)@ == old(self)@,
            r matches Ok(t) ==> {
                &&& t.id == old(self)@.tokens.len() + 1
                &&& t@ == (TokenView {
                    contract: canonical_address(contract_addr@),
                    watermark: -1,
                    symbol: "TEST"@,
                    decimals: 6,
                })
                &&& final(self)@ == (LedgerView { tokens: old(self)@.tokens.push(t@), ..old(self)@ })
            },
            is_address_text(contract_addr@) && !old(self)@.tracks_contract(
                canonical_address(contract_addr@),
            ) && old(self)@.tokens.len() < crate::ledger::MAX_ROWS ==> r is Ok,
    {
        self.register_token(contract_addr, GENESIS_WATERMARK, placeholder_symbol(), PLACEHOLDER_DECIMALS)
    }
}

/// The contracts an empty ledger starts with.
pub open spec fn starter_list() -> Seq<Seq<char>> {
    seq![
        "50327c6c5a14DCaDE707ABad2E27eB517df87AB5"@,
        "582d872A1B094FC48F5DE31D3B73F2D9bE47def1"@,
        "2AF5D2aD76741191D15Dfe7bF6aC92d4Bd912Ca3"@,
        "c5f0f7b66764F6ec8C8Dff7BA683102295E16409"@,
    ]
}

/// Each starter is a well-formed address, and no two name the same one.
proof fn lemma_starters_valid()
    ensures
        forall|i: int| 0 <= i < 4 ==> is_address_text(#[trigger] starter_list()[i]),
        forall|i: int, j: int|
            0 <= i < j < 4 ==> canonical_address(#[trigger] starter_list()[i]) != canonical_address(
                #[trigger] starter_list()[j],
            ),
{
    reveal_strlit("50327c6c5a14DCaDE707ABad2E27eB517df87AB5");
    reveal_strlit("582d872A1B094FC48F5DE31D3B73F2D9bE47def1");
    reveal_strlit("2AF5D2aD76741191D15Dfe7bF6aC92d4Bd912Ca3");
    reveal_strlit("c5f0f7b66764F6ec8C8Dff7BA683102295E16409");
    let l = starter_list();
    assert forall|i: int| 0 <= i < 4 implies is_address_text(#[trigger] l[i]) by {
        let d = crate::address::address_digits(l[i]);
        assert(d == l[i]);
        assert forall|k: int| 0 <= k < 40 implies crate::address::is_hex_char(#[trigger] d[k]) by {
        }
    }
    assert(canonical_address(l[0])[1] != canonical_address(l[1])[1]);
    assert(canonical_address(l[0])[0] != canonical_address(l[2])[0]);
    assert(canonical_address(l[0])[0] != canonical_address(l[3])[0]);
    assert(canonical_address(l[1])[0] != canonical_address(l[2])[0]);
    assert(canonical_address(l[1])[0] != canonical_address(l[3])[0]);
    assert(canonical_address(l[2])[0] != canonical_address(l[3])[0]);
}

/// The addresses of the contracts an empty ledger starts with.
pub fn starter_contracts() -> (r: Vec<&'static str>)
    ensures
        r@.len() == 4,
        forall|i: int| 0 <= i < 4 ==> #[trigger] r@[i]@ == starter_list()[i],
{
    vec![
        "50327c6c5a14DCaDE707ABad2E27eB517df87AB5",
        "582d872A1B094FC48F5DE31D3B73F2D9bE47def1",
        "2AF5D2aD76741191D15Dfe7bF6aC92d4Bd912Ca3",
        "c5f0f7b66764F6ec8C8Dff7BA683102295E16409",
    ]
}

/// The token a starter contract is seeded as.
pub open spec fn starter_token(i: int) -> TokenView {
    TokenView {
        contract: canonical_address(starter_list()[i]),
        watermark: GENESIS_WATERMARK as int,
        symbol: "TEST"@,
        decimals: PLACEHOLDER_DECIMALS as int,
    }
}

/// Seeds the ledger with the starter contracts, in order, each scanned from
/// genesis with the placeholder symbol and decimals, and returns how many
/// were added. It stops at the first refusal and returns it.
pub fn add_start_tokens(ledger: &mut Ledger) -> (r: Result<i64, LedgerError>)
    requires
        old(ledger).well_formed(),
    ensures
        final(ledger).well_formed(),
        r matches Ok(n) ==> n == 4,
        r is Ok ==> final(ledger)@ == (LedgerView {
            tokens: old(ledger)@.tokens + Seq::new(4, |i: int| starter_token(i)),
            ..old(ledger)@
        }),
        r is Err ==> final(ledger)@.tokens.len() < old(ledger)@.tokens.len() + 4,
        old(ledger)@.tokens.len() == 0 ==> r is Ok,
{
    proof {
        lemma_starters_valid();
    }
    let addresses = starter_contracts();
    let mut i: usize = 0;
    while i < addresses.len()
        invariant
            i <= 4,
            addresses@.len() == 4,
            forall|k: int| 0 <= k < 4 ==> #[trigger] addresses@[k]@ == starter_list()[k],
            ledger.well_formed(),
            ledger@ == (LedgerView {
                tokens: old(ledger)@.tokens + Seq::new(i as nat, |k: int| starter_token(k)),
                ..old(ledger)@
            }),
            forall|k: int| 0 <= k < 4 ==> is_address_text(#[trigger] starter_list()[k]),
            forall|a: int, b: int|
                0 <= a < b < 4 ==> canonical_address(#[trigger] starter_list()[a]) != canonical_address(
                    #[trigger] starter_list()[b],
                ),
        decreases 4 - i,
    {
        let ghost before = ledger@;
        match ledger.add_token_by_contract(addresses[i]) {
            Ok(_) => {
                assert(ledger@.tokens =~= old(ledger)@.tokens + Seq::new(
                    (i + 1) as nat,
                    |k: int| starter_token(k),
                ));
            },
            Err(e) => {
                proof {
                    if old(ledger)@.tokens.len() == 0 {
                        let c = canonical_address(starter_list()[i as int]);
                        if before.tracks_contract(c) {
                            let k = choose|k: int| 0 <= k < before.tokens.len() && #[trigger] before.tokens[k].contract == c;
                            assert(before.tokens[k] == starter_token(k));
                        }
                    }
                }
                return Err(e);
            },
        }
        i = i + 1;
    }
    Ok(4)
}

/// Registers a new contract and admits its pipeline. A contract already
/// tracked is refused with `DuplicateToken`, and then neither the ledger
/// nor the running pipelines change.
pub fn register_contract(ledger: &mut Ledger, supervisor: &mut Supervisor, contract_addr: &str) -> (r:
    Result<Token, LedgerError>)
    requires
        old(ledger).well_formed(),
        old(supervisor).well_formed(),
    ensures
        final(ledger).well_formed(),
        final(supervisor).well_formed(),
        !is_address_text(contract_addr@) ==> r == Err::<Token, LedgerError>(
            LedgerError::InvalidAddress,
        ),
        is_address_text(contract_addr@) && old(ledger)@.tracks_contract(
            canonical_address(contract_addr@),
        ) ==> r == Err::<Token, LedgerError>(LedgerError::DuplicateToken),
        r is Err ==> final(ledger)@ == old(ledger)@ && final(supervisor)@ == old(supervisor)@,
        r matches Ok(t) ==> {
            &&& t.id == old(ledger)@.tokens.len() + 1
            &&& t@ == (TokenView {
                contract: canonical_address(contract_addr@),
                watermark: GENESIS_WATERMARK as int,
                symbol: "TEST"@,
                decimals: PLACEHOLDER_DECIMALS as int,
            })
            &&& final(ledger)@ == (LedgerView { tokens: old(ledger)@.tokens.push(t@), ..old(ledger)@ })
            &&& final(supervisor)@ == old(supervisor)@.insert(t.id)
        },
        is_address_text(contract_addr@) && !old(ledger)@.tracks_contract(
            canonical_address(contract_addr@),
        ) && old(ledger)@.tokens.len() < crate::ledger::MAX_ROWS ==> r is Ok,
{
    match ledger.add_token_by_contract(contract_addr) {
        Ok(token) => {
            supervisor.accept(token.id);
            Ok(token)
        },
        Err(e) => Err(e),
    }
}

} // verus!
