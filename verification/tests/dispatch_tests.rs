use liquid_swap::arith::DECIMAL_ONE;
use liquid_swap::coins::Coin;
use liquid_swap::contract::{execute, instantiate, query};
use liquid_swap::msg::{ExecuteMsg, QueryAnswer, QueryMsg, TransferMsg};
use liquid_swap::state::State;

fn fresh() -> State {
    instantiate(&Vec::new(), 1, "ubond".to_string(), 2, 3).unwrap()
}

fn pay(amount: u128) -> Vec<Coin> {
    vec![Coin { denom: "ubond".to_string(), amount }]
}

#[test]
fn execute_routes_messages() {
    let mut s = fresh();
    execute(&mut s, 1, &Vec::new(), 7, DECIMAL_ONE, ExecuteMsg::SetSwapFee { swap_fee: 0 })
        .unwrap();
    execute(&mut s, 10, &pay(1000), 7, DECIMAL_ONE, ExecuteMsg::Add).unwrap();
    let msgs = execute(
        &mut s,
        2,
        &Vec::new(),
        7,
        DECIMAL_ONE,
        ExecuteMsg::Receive { sender: 12, amount: 400 },
    )
    .unwrap();
    assert_eq!(msgs, vec![TransferMsg::Native { to: 12, amount: 400 }]);
    let msgs = execute(&mut s, 10, &Vec::new(), 7, DECIMAL_ONE, ExecuteMsg::Claim).unwrap();
    assert_eq!(msgs, vec![TransferMsg::Token { to: 10, amount: 400 }]);
    let msgs = execute(&mut s, 10, &Vec::new(), 7, DECIMAL_ONE, ExecuteMsg::Remove).unwrap();
    assert_eq!(msgs, vec![TransferMsg::Native { to: 10, amount: 600 }]);
}

#[test]
fn query_routes_messages() {
    let mut s = fresh();
    execute(&mut s, 10, &pay(1000), 7, DECIMAL_ONE, ExecuteMsg::Add).unwrap();
    match query(&s, 1000, QueryMsg::ClaimableOf { address: 10 }).unwrap() {
        QueryAnswer::Claimable(b) => assert_eq!(b.balance, 0),
        _ => panic!("wrong answer variant"),
    }
    match query(&s, 1000, QueryMsg::ConfigInfo).unwrap() {
        QueryAnswer::Config(c) => assert_eq!(c.swap_fee, 100),
        _ => panic!("wrong answer variant"),
    }
    match query(&s, 1000, QueryMsg::StatusInfo).unwrap() {
        QueryAnswer::Status(st) => {
            assert_eq!(st.issued, 1000);
            assert_eq!(st.ratio, DECIMAL_ONE);
        },
        _ => panic!("wrong answer variant"),
    }
    match query(&s, 1000, QueryMsg::OrderBook).unwrap() {
        QueryAnswer::Book(b) => assert_eq!(b.length, 1),
        _ => panic!("wrong answer variant"),
    }
    match query(&s, 1000, QueryMsg::OrderInfoOf { address: 10 }).unwrap() {
        QueryAnswer::OrderInfo(oi) => assert_eq!(oi.issued, 1000),
        _ => panic!("wrong answer variant"),
    }
}
