use liquid_swap::arith::DECIMAL_ONE;
use liquid_swap::coins::Coin;
use liquid_swap::contract::{
    execute_add, execute_claim, execute_receive, execute_remove, execute_set_swap_fee, instantiate,
    query_claimable_of, query_config, query_order_book, query_order_info_of, query_status,
};
use liquid_swap::error::{ContractError, PaymentFailure};
use liquid_swap::msg::TransferMsg;
use liquid_swap::state::State;

const OWNER: u64 = 1;
const TOKEN: u64 = 2;
const MANAGER: u64 = 3;
const ALICE: u64 = 10;
const BOB: u64 = 11;
const CAROL: u64 = 12;

fn ubond(amount: u128) -> Coin {
    Coin { denom: "ubond".to_string(), amount }
}

fn fresh() -> State {
    instantiate(&Vec::new(), OWNER, "ubond".to_string(), TOKEN, MANAGER).unwrap()
}

fn fresh_no_fee() -> State {
    let mut s = fresh();
    execute_set_swap_fee(&mut s, OWNER, &Vec::new(), 0).unwrap();
    s
}

fn deposit(s: &mut State, who: u64, amount: u128) -> Vec<TransferMsg> {
    execute_add(s, who, &vec![ubond(amount)], 5).unwrap()
}

#[test]
fn instantiate_sets_defaults() {
    let s = fresh();
    let c = query_config(&s);
    assert_eq!(c.owner, OWNER);
    assert_eq!(c.bond_denom, "ubond");
    assert_eq!(c.liquid_token_addr, TOKEN);
    assert_eq!(c.staking_manager_addr, MANAGER);
    assert_eq!(c.swap_fee, 100);
    assert_eq!(s.pool, 0);
    assert_eq!(s.supply.issued, 0);
    assert_eq!(s.supply.claims, 0);
}

#[test]
fn instantiate_rejects_payment() {
    let r = instantiate(&vec![ubond(5)], OWNER, "ubond".to_string(), TOKEN, MANAGER);
    assert!(matches!(r, Err(ContractError::Payment(PaymentFailure::NonPayable))));
}

#[test]
fn first_deposit_mints_one_to_one() {
    let mut s = fresh();
    let msgs = deposit(&mut s, ALICE, 1000);
    assert!(msgs.is_empty());
    assert_eq!(s.supply.issued, 1000);
    assert_eq!(s.pool, 1000);
    let oi = query_order_info_of(&s, s.pool, ALICE).unwrap();
    assert_eq!(oi.issued, 1000);
    assert_eq!(oi.node_id, 1);
    assert_eq!(oi.height, 5);
}

#[test]
fn second_deposit_at_ratio_one() {
    let mut s = fresh();
    deposit(&mut s, ALICE, 1000);
    deposit(&mut s, BOB, 1000);
    assert_eq!(s.supply.issued, 2000);
    assert_eq!(s.pool, 2000);
    let oi = query_order_info_of(&s, s.pool, BOB).unwrap();
    assert_eq!(oi.issued, 1000);
    assert_eq!(oi.node_id, 2);
}

#[test]
fn concrete_conversion_scenario() {
    // Pool empty; A deposits 1000, B deposits 1000; a conversion of 500
    // target units at ratio one and fee zero partially fills A's node.
    let mut s = fresh_no_fee();
    deposit(&mut s, ALICE, 1000);
    deposit(&mut s, BOB, 1000);
    let msgs = execute_receive(&mut s, TOKEN, &Vec::new(), CAROL, 500, DECIMAL_ONE).unwrap();
    assert_eq!(msgs, vec![TransferMsg::Native { to: CAROL, amount: 500 }]);
    assert_eq!(query_claimable_of(&s, ALICE).balance, 500);
    assert_eq!(query_claimable_of(&s, BOB).balance, 0);
    let book = query_order_book(&s);
    assert_eq!(book.length, 2);
    assert_eq!(book.queue[0].owner, ALICE);
    assert_eq!(book.queue[0].last_deposit, 500);
    assert_eq!(book.queue[0].value, 500);
    assert_eq!(book.queue[1].owner, BOB);
    assert_eq!(book.queue[1].value, 1000);
    assert_eq!(s.pool, 1500);
    assert_eq!(s.supply.issued, 1500);
    assert_eq!(s.supply.claims, 500);
}

#[test]
fn deposit_merge_moves_node_to_tail() {
    let mut s = fresh();
    deposit(&mut s, ALICE, 400);
    deposit(&mut s, BOB, 500);
    deposit(&mut s, ALICE, 600);
    let book = query_order_book(&s);
    assert_eq!(book.length, 2);
    assert_eq!(book.queue[0].owner, BOB);
    assert_eq!(book.queue[1].owner, ALICE);
    assert_eq!(book.queue[1].value, 1000);
    assert_eq!(book.queue[1].last_deposit, 1000);
    assert_eq!(book.queue[1].id, 3);
    let oi = query_order_info_of(&s, s.pool, ALICE).unwrap();
    assert_eq!(oi.node_id, 3);
}

#[test]
fn deposit_withdraw_round_trip() {
    let mut s = fresh();
    deposit(&mut s, ALICE, 1000);
    let msgs = execute_remove(&mut s, ALICE, &Vec::new()).unwrap();
    assert_eq!(msgs, vec![TransferMsg::Native { to: ALICE, amount: 1000 }]);
    assert_eq!(s.pool, 0);
    assert_eq!(s.supply.issued, 0);
    assert_eq!(query_order_book(&s).length, 0);
}

#[test]
fn orphan_rescue_returns_prior_balance() {
    let mut s = fresh();
    s.pool = 777;
    let msgs = deposit(&mut s, ALICE, 100);
    assert_eq!(msgs, vec![TransferMsg::Native { to: OWNER, amount: 777 }]);
    assert_eq!(s.pool, 100);
    assert_eq!(s.supply.issued, 100);
}

#[test]
fn claim_with_nothing_fails_unchanged() {
    let mut s = fresh();
    deposit(&mut s, ALICE, 1000);
    let r = execute_claim(&mut s, ALICE, &Vec::new());
    assert!(matches!(r, Err(ContractError::NothingToClaim)));
    assert_eq!(s.pool, 1000);
    assert_eq!(s.supply.issued, 1000);
    assert_eq!(query_claimable_of(&s, ALICE).balance, 0);
    assert_eq!(query_order_book(&s).length, 1);
}

#[test]
fn claim_pays_out_and_resets() {
    let mut s = fresh_no_fee();
    deposit(&mut s, ALICE, 1000);
    deposit(&mut s, BOB, 1000);
    execute_receive(&mut s, TOKEN, &Vec::new(), CAROL, 500, DECIMAL_ONE).unwrap();
    let msgs = execute_claim(&mut s, ALICE, &Vec::new()).unwrap();
    assert_eq!(msgs, vec![TransferMsg::Token { to: ALICE, amount: 500 }]);
    assert_eq!(query_claimable_of(&s, ALICE).balance, 0);
    assert_eq!(s.supply.claims, 0);
}

#[test]
fn claim_more_than_reserved_overflows() {
    let mut s = fresh();
    s.claimable.set_amount(ALICE, 10);
    let r = execute_claim(&mut s, ALICE, &Vec::new());
    assert!(matches!(r, Err(ContractError::Overflow)));
    assert_eq!(query_claimable_of(&s, ALICE).balance, 10);
}

#[test]
fn set_fee_requires_owner() {
    let mut s = fresh();
    let r = execute_set_swap_fee(&mut s, ALICE, &Vec::new(), 0);
    assert!(matches!(r, Err(ContractError::Unauthorized)));
    execute_set_swap_fee(&mut s, OWNER, &Vec::new(), 25).unwrap();
    assert_eq!(query_config(&s).swap_fee, 25);
}

#[test]
fn receive_requires_token_contract() {
    let mut s = fresh();
    deposit(&mut s, ALICE, 1000);
    let r = execute_receive(&mut s, ALICE, &Vec::new(), ALICE, 100, DECIMAL_ONE);
    assert!(matches!(r, Err(ContractError::Unauthorized)));
}

#[test]
fn payment_validation() {
    let mut s = fresh();
    let r = execute_add(&mut s, ALICE, &Vec::new(), 5);
    assert!(matches!(r, Err(ContractError::Payment(PaymentFailure::NoFunds))));
    let r = execute_add(&mut s, ALICE, &vec![ubond(0)], 5);
    assert!(matches!(r, Err(ContractError::Payment(PaymentFailure::NoFunds))));
    let wrong = Coin { denom: "uother".to_string(), amount: 5 };
    let r = execute_add(&mut s, ALICE, &vec![wrong], 5);
    assert!(matches!(r, Err(ContractError::Payment(PaymentFailure::MissingDenom))));
    let r = execute_add(&mut s, ALICE, &vec![ubond(5), ubond(6)], 5);
    assert!(matches!(r, Err(ContractError::Payment(PaymentFailure::MultipleDenoms))));
    let r = execute_remove(&mut s, ALICE, &vec![ubond(5)]);
    assert!(matches!(r, Err(ContractError::Payment(PaymentFailure::NonPayable))));
}

#[test]
fn remove_without_position_fails() {
    let mut s = fresh();
    deposit(&mut s, ALICE, 1000);
    let r = execute_remove(&mut s, BOB, &Vec::new());
    assert!(matches!(r, Err(ContractError::NothingToRemove)));
}

#[test]
fn conversion_without_liquidity_fails() {
    let mut s = fresh();
    let r = execute_receive(&mut s, TOKEN, &Vec::new(), CAROL, 100, DECIMAL_ONE);
    assert!(matches!(r, Err(ContractError::InsufficientLiquidity)));
}

#[test]
fn conversion_of_nothing_fails() {
    let mut s = fresh();
    deposit(&mut s, ALICE, 1000);
    let r = execute_receive(&mut s, TOKEN, &Vec::new(), CAROL, 100, 0);
    assert!(matches!(r, Err(ContractError::GainNothingWhenSwap)));
}

#[test]
fn empty_queue_with_supply_is_an_invariant_violation() {
    let mut s = fresh_no_fee();
    s.supply.issued = 1000;
    s.pool = 1000;
    let r = execute_receive(&mut s, TOKEN, &Vec::new(), CAROL, 500, DECIMAL_ONE);
    assert!(matches!(r, Err(ContractError::QueueExhausted)));
}

#[test]
fn vanishing_mint_fails() {
    let mut s = fresh();
    s.supply.issued = 1;
    s.pool = 100_000_000_000_000_000_000;
    let r = execute_add(&mut s, ALICE, &vec![ubond(5)], 5);
    assert!(matches!(r, Err(ContractError::NothingToAdd)));
}

#[test]
fn withdraw_with_zero_supply_divides_by_zero() {
    let mut s = fresh();
    deposit(&mut s, ALICE, 100);
    s.supply.issued = 0;
    let r = execute_remove(&mut s, ALICE, &Vec::new());
    assert!(matches!(r, Err(ContractError::DivideByZero)));
}

#[test]
fn status_ratio_is_exact() {
    let mut s = fresh();
    deposit(&mut s, ALICE, 3);
    let st = query_status(&s, 1).unwrap();
    assert_eq!(st.issued, 3);
    assert_eq!(st.balance, 1);
    assert_eq!(st.ratio, 333_333_333_333_333_333);
}

#[test]
fn order_info_converts_at_bank_ratio() {
    let mut s = fresh();
    deposit(&mut s, ALICE, 1000);
    let oi = query_order_info_of(&s, 2000, ALICE).unwrap();
    assert_eq!(oi.issued, 1000);
    assert_eq!(oi.native, 2000);
    let none = query_order_info_of(&s, 2000, BOB).unwrap();
    assert_eq!(none.node_id, 0);
    assert_eq!(none.issued, 0);
    assert_eq!(none.native, 0);
}

#[test]
fn conversion_consumes_nodes_in_insertion_order() {
    let mut s = fresh_no_fee();
    deposit(&mut s, ALICE, 100);
    deposit(&mut s, BOB, 200);
    deposit(&mut s, CAROL, 300);
    execute_receive(&mut s, TOKEN, &Vec::new(), CAROL, 250, DECIMAL_ONE).unwrap();
    let book = query_order_book(&s);
    assert_eq!(book.length, 2);
    assert_eq!(book.queue[0].owner, BOB);
    assert_eq!(book.queue[0].last_deposit, 50);
    assert_eq!(book.queue[1].owner, CAROL);
    assert_eq!(book.queue[1].value, 300);
    assert_eq!(query_claimable_of(&s, ALICE).balance, 100);
    assert_eq!(query_claimable_of(&s, BOB).balance, 150);
    assert_eq!(query_order_info_of(&s, s.pool, ALICE).unwrap().node_id, 0);
    assert_eq!(s.supply.issued, 350);
    assert_eq!(s.pool, 350);
}

#[test]
fn conversion_fee_reduces_payout() {
    // Default fee is 100 basis points: converting 10000 seeks 9900 base.
    let mut s = fresh();
    deposit(&mut s, ALICE, 20000);
    let msgs = execute_receive(&mut s, TOKEN, &Vec::new(), CAROL, 10000, DECIMAL_ONE).unwrap();
    assert_eq!(msgs, vec![TransferMsg::Native { to: CAROL, amount: 9900 }]);
    assert_eq!(s.pool, 10100);
    assert_eq!(s.supply.issued, 10100);
    assert_eq!(s.supply.claims, 10000);
    assert_eq!(query_claimable_of(&s, ALICE).balance, 10000);
}

#[test]
fn conversion_accrues_rewards_on_depreciated_pool() {
    // With 1000 shares against a pool of only 500, the ratio is 2: the
    // engine burns two shares per base unit and the matched node earns a
    // reward for the gap between its share value and its principal.
    let mut s = fresh_no_fee();
    deposit(&mut s, ALICE, 1000);
    s.pool = 500;
    let msgs = execute_receive(&mut s, TOKEN, &Vec::new(), CAROL, 100, DECIMAL_ONE).unwrap();
    assert_eq!(msgs, vec![TransferMsg::Native { to: CAROL, amount: 100 }]);
    assert_eq!(query_claimable_of(&s, ALICE).balance, 100);
    assert_eq!(s.unclaimed.amount_of(ALICE), 100);
    assert_eq!(s.pool, 300);
    assert_eq!(s.supply.issued, 800);
    assert_eq!(s.supply.claims, 100);
    let book = query_order_book(&s);
    assert_eq!(book.queue[0].value, 900);
    assert_eq!(book.queue[0].last_deposit, 900);
}

#[test]
fn claim_crystallizes_node_rewards() {
    // A node whose share value at the current ratio exceeds its principal
    // has the gap harvested on settlement: the node holds 300 shares worth
    // 150 base at ratio 1/2 against a principal of 100, so 50 base is paid
    // and its 25-share equivalent is burned from node and supply.
    let mut s = fresh();
    deposit(&mut s, ALICE, 1000);
    s.queue.update_value(1, 300, 100);
    s.supply.issued = 500;
    s.pool = 1000;
    s.supply.claims = 60;
    s.claimable.set_amount(ALICE, 50);
    let msgs = execute_claim(&mut s, ALICE, &Vec::new()).unwrap();
    assert_eq!(
        msgs,
        vec![
            TransferMsg::Native { to: ALICE, amount: 50 },
            TransferMsg::Token { to: ALICE, amount: 50 },
        ]
    );
    assert_eq!(s.supply.claims, 10);
    assert_eq!(s.supply.issued, 475);
    assert_eq!(s.pool, 950);
    assert_eq!(query_claimable_of(&s, ALICE).balance, 0);
    assert_eq!(s.unclaimed.amount_of(ALICE), 0);
    let book = query_order_book(&s);
    assert_eq!(book.queue[0].value, 275);
    assert_eq!(book.queue[0].last_deposit, 100);
}

#[test]
fn claim_fails_when_node_is_under_water() {
    // A node worth less than its principal at the current ratio makes the
    // reward subtraction underflow; the whole settlement aborts.
    let mut s = fresh();
    deposit(&mut s, ALICE, 1000);
    s.pool = 2000;
    s.supply.claims = 5;
    s.claimable.set_amount(ALICE, 5);
    let r = execute_claim(&mut s, ALICE, &Vec::new());
    assert!(matches!(r, Err(ContractError::Overflow)));
    assert_eq!(query_claimable_of(&s, ALICE).balance, 5);
    assert_eq!(s.pool, 2000);
}

#[test]
fn order_book_header_tracks_queue() {
    let mut s = fresh();
    deposit(&mut s, ALICE, 10);
    deposit(&mut s, BOB, 20);
    let book = query_order_book(&s);
    assert_eq!(book.head_id, 1);
    assert_eq!(book.tail_id, 2);
    assert_eq!(book.length, 2);
    assert_eq!(book.queue.len(), 2);
}
