use token_holders::amount::Amount;
use token_holders::ingest::{apply_live_log, apply_window, live_block};
use token_holders::ledger::{Ledger, LedgerError};
use token_holders::scanner::{ScanAction, ScanEvent, ScanPhase, Scanner};
use token_holders::supervisor::{
    add_start_tokens, placeholder_symbol, register_contract, starter_contracts, Supervisor, GENESIS_WATERMARK,
    PLACEHOLDER_DECIMALS,
};
use token_holders::transfer::{decode_transfer, Transfer};

const C: &str = "c5f0f7b66764F6ec8C8Dff7BA683102295E16409";
const A: &str = "AAAAAAAAAAAAAAAAAAAAAAAAAAAAAAAAAAAAAAAA";
const B: &str = "BBBBBBBBBBBBBBBBBBBBBBBBBBBBBBBBBBBBBBBB";

fn transfer(from: &str, to: &str, amount: &str) -> Transfer {
    Transfer { from: from.to_string(), to: to.to_string(), amount: Amount::parse(amount).unwrap() }
}

fn word(addr_byte: u8) -> Vec<u8> {
    let mut t = vec![0u8; 32];
    for b in t.iter_mut().skip(12) {
        *b = addr_byte;
    }
    t
}

fn holder(l: &mut Ledger, addr: &str) -> i32 {
    l.get_or_create_holder(addr).unwrap()
}

#[test]
fn registered_contract_backfills_to_done() {
    let mut ledger = Ledger::new();
    let token = ledger.add_token_by_contract(C).unwrap();
    assert_eq!(token.last_checked_block, -1);
    let mut scan = Scanner::start(token.last_checked_block, 1_000_000);
    assert_eq!(scan.action(), ScanAction::FetchLogs { from: 0, to: 1_000_000 });
    let topics_ab = vec![vec![0u8; 32], word(0xaa), word(0xbb)];
    let topics_bb = vec![vec![0u8; 32], word(0xbb), word(0xbb)];
    let logs = vec![
        decode_transfer(&topics_ab, &vec![60]).unwrap(),
        decode_transfer(&topics_ab, &vec![40]).unwrap(),
        decode_transfer(&topics_bb, &vec![5]).unwrap(),
    ];
    apply_window(&mut ledger, token.id, &logs, 1_000_000).unwrap();
    scan = scan.on_event(ScanEvent::WindowApplied { logs: 3 });
    assert_eq!(scan.watermark(), 1_000_000);
    assert_eq!(scan.from(), 1_000_001);
    assert_eq!(scan.action(), ScanAction::FetchHead);
    scan = scan.on_event(ScanEvent::Head { height: 50 });
    assert_eq!(scan.phase(), ScanPhase::Done);
    assert_eq!(scan.action(), ScanAction::Follow { from_block: 1_000_001 });
    let a = holder(&mut ledger, A);
    let b = holder(&mut ledger, B);
    assert_eq!(ledger.balance(a, token.id), "-100");
    assert_eq!(ledger.balance(b, token.id), "100");
    assert_eq!(ledger.token(token.id).unwrap().last_checked_block, 1_000_000);
}

#[test]
fn small_head_clamps_the_first_window() {
    let mut ledger = Ledger::new();
    let token = ledger.add_token_by_contract(C).unwrap();
    let mut scan = Scanner::start(-1, 50);
    assert_eq!(scan.action(), ScanAction::FetchLogs { from: 0, to: 50 });
    let logs = vec![transfer(A, B, "100")];
    apply_window(&mut ledger, token.id, &logs, 50).unwrap();
    scan = scan.on_event(ScanEvent::WindowApplied { logs: 1 });
    scan = scan.on_event(ScanEvent::Head { height: 50 });
    assert_eq!(scan.action(), ScanAction::Follow { from_block: 51 });
    assert_eq!(ledger.token(token.id).unwrap().last_checked_block, 50);
}

#[test]
fn two_transfers_back_and_forth() {
    let mut ledger = Ledger::new();
    let token = ledger.add_token_by_contract(C).unwrap();
    let logs = vec![transfer(A, B, "50"), transfer(B, A, "20")];
    apply_window(&mut ledger, token.id, &logs, 10).unwrap();
    let a = holder(&mut ledger, A);
    let b = holder(&mut ledger, B);
    assert_eq!(ledger.balance(a, token.id), "-30");
    assert_eq!(ledger.balance(b, token.id), "30");
}

#[test]
fn duplicate_registration_is_refused() {
    let mut ledger = Ledger::new();
    let mut sup = Supervisor::new();
    let token = register_contract(&mut ledger, &mut sup, C).unwrap();
    assert!(sup.is_running(token.id));
    let again = register_contract(&mut ledger, &mut sup, "0xC5F0F7B66764F6EC8C8DFF7BA683102295E16409");
    assert_eq!(again.unwrap_err(), LedgerError::DuplicateToken);
    assert_eq!(sup.running_count(), 1);
    assert_eq!(ledger.token_count(), 1);
    assert!(!sup.accept(token.id));
    assert_eq!(sup.running_count(), 1);
}

#[test]
fn invalid_address_is_refused() {
    let mut ledger = Ledger::new();
    let mut sup = Supervisor::new();
    assert_eq!(register_contract(&mut ledger, &mut sup, "not an address").unwrap_err(), LedgerError::InvalidAddress);
    assert_eq!(sup.running_count(), 0);
}

#[test]
fn finished_pipeline_leaves_siblings() {
    let mut sup = Supervisor::new();
    assert!(sup.accept(1));
    assert!(sup.accept(2));
    assert!(sup.finish(1));
    assert!(!sup.finish(1));
    assert!(sup.is_running(2));
    assert!(!sup.is_running(1));
    assert!(sup.accept(1));
}

#[test]
fn self_transfer_changes_nothing_and_watermark_moves() {
    let mut ledger = Ledger::new();
    let token = ledger.add_token_by_contract(C).unwrap();
    let a = holder(&mut ledger, A);
    ledger.apply_transfer(a, a, token.id, &Amount::parse("7").unwrap()).unwrap();
    assert_eq!(ledger.balance(a, token.id), "0");
    apply_live_log(&mut ledger, token.id, &transfer(B, B, "9"), 12).unwrap();
    assert_eq!(ledger.holder_count(), 1);
    assert_eq!(ledger.token(token.id).unwrap().last_checked_block, 12);
}

#[test]
fn transfer_moves_exact_amount() {
    let mut ledger = Ledger::new();
    let token = ledger.add_token_by_contract(C).unwrap();
    let a = holder(&mut ledger, A);
    let b = holder(&mut ledger, B);
    let amount = Amount::parse("340282366920938463463374607431768211457").unwrap();
    ledger.apply_transfer(a, b, token.id, &amount).unwrap();
    assert_eq!(ledger.balance(a, token.id), "-340282366920938463463374607431768211457");
    assert_eq!(ledger.balance(b, token.id), "340282366920938463463374607431768211457");
    assert_eq!(ledger.apply_transfer(a, b, 9, &amount).unwrap_err(), LedgerError::UnknownToken);
    assert_eq!(ledger.apply_transfer(a, 9, token.id, &amount).unwrap_err(), LedgerError::UnknownHolder);
}

#[test]
fn get_or_create_holder_is_idempotent() {
    let mut ledger = Ledger::new();
    let first = ledger.get_or_create_holder(A).unwrap();
    let second = ledger.get_or_create_holder(A).unwrap();
    assert_eq!(first, second);
    assert_eq!(ledger.holder_count(), 1);
    let other = ledger.get_or_create_holder(B).unwrap();
    assert_ne!(other, first);
    assert_eq!(ledger.holder_count(), 2);
}

#[test]
fn holder_address_case_does_not_matter() {
    let mut ledger = Ledger::new();
    let upper = ledger.get_or_create_holder(A).unwrap();
    let lower = ledger.get_or_create_holder("0xaaaaaaaaaaaaaaaaaaaaaaaaaaaaaaaaaaaaaaaa").unwrap();
    assert_eq!(upper, lower);
    assert_eq!(ledger.holder_count(), 1);
    assert_eq!(ledger.get_or_create_holder("not an address").unwrap_err(), LedgerError::InvalidAddress);
}

#[test]
fn window_of_self_transfers_still_commits() {
    let mut ledger = Ledger::new();
    let token = ledger.add_token_by_contract(C).unwrap();
    let logs = vec![transfer(A, A, "5"), transfer(B, B, "7")];
    apply_window(&mut ledger, token.id, &logs, 900).unwrap();
    assert_eq!(ledger.holder_count(), 0);
    assert_eq!(ledger.token(token.id).unwrap().last_checked_block, 900);
}

#[test]
fn watermark_never_moves_backward() {
    let mut ledger = Ledger::new();
    let token = ledger.add_token_by_contract(C).unwrap();
    ledger.advance_watermark(token.id, 100).unwrap();
    ledger.advance_watermark(token.id, 40).unwrap();
    assert_eq!(ledger.token(token.id).unwrap().last_checked_block, 100);
    assert_eq!(ledger.advance_watermark(5, 1).unwrap_err(), LedgerError::UnknownToken);
}

#[test]
fn live_logs_apply_then_commit() {
    let mut ledger = Ledger::new();
    let token = ledger.add_token_by_contract(C).unwrap();
    assert_eq!(live_block(Some(77)), Some(77));
    assert_eq!(live_block(None), None);
    assert_eq!(live_block(Some(u64::MAX)), None);
    apply_live_log(&mut ledger, token.id, &transfer(A, B, "5"), 77).unwrap();
    assert_eq!(ledger.token(token.id).unwrap().last_checked_block, 77);
    assert_eq!(apply_live_log(&mut ledger, 3, &transfer(A, B, "5"), 78).unwrap_err(), LedgerError::UnknownToken);
}

#[test]
fn empty_ledger_is_seeded() {
    let mut ledger = Ledger::new();
    assert_eq!(add_start_tokens(&mut ledger).unwrap(), 4);
    let tokens = ledger.tokens();
    assert_eq!(tokens.len(), 4);
    assert_eq!(tokens[0].contract_addr, "50327c6c5a14dcade707abad2e27eb517df87ab5");
    assert_eq!(tokens[3].id, 4);
    assert_eq!(starter_contracts().len(), 4);
    assert_eq!(add_start_tokens(&mut ledger).unwrap_err(), LedgerError::DuplicateToken);
}

#[test]
fn registration_defaults() {
    let mut ledger = Ledger::new();
    let token = ledger.add_token_by_contract("0x582d872A1B094FC48F5DE31D3B73F2D9bE47def1").unwrap();
    assert_eq!(token.id, 1);
    assert_eq!(token.contract_addr, "582d872a1b094fc48f5de31d3b73f2d9be47def1");
    assert_eq!(token.symbol, placeholder_symbol());
    assert_eq!(token.symbol, "TEST");
    assert_eq!(token.decimals, PLACEHOLDER_DECIMALS);
    assert_eq!(token.last_checked_block, GENESIS_WATERMARK);
    let copy = ledger.token(1).unwrap().duplicate();
    assert_eq!(copy.contract_addr, token.contract_addr);
    assert!(ledger.token(2).is_none());
    let t = ledger.register_token(A, 41, "AAA", 18).unwrap();
    assert_eq!(t.id, 2);
    assert_eq!(t.last_checked_block, 41);
    assert_eq!(ledger.tokens()[1].symbol, "AAA");
}
