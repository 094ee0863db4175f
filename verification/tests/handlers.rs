use astranode_nft::contract::{
    execute, execute_buy, execute_mint, execute_update_price, instantiate, query, query_all_nfts,
    query_nft,
};
use astranode_nft::error::ContractError;
use astranode_nft::host::{Coin, MessageInfo, Response};
use astranode_nft::msg::{ExecuteMsg, InstantiateMsg, QueryAnswer, QueryMsg};
use astranode_nft::state::Registry;

fn coins(denom: &str, amount: u128) -> Vec<Coin> {
    vec![Coin { denom: denom.to_string(), amount }]
}

fn info(sender: &str, funds: Vec<Coin>) -> MessageInfo {
    MessageInfo { sender: sender.to_string(), funds }
}

fn mint(state: &mut Registry, token_id: &str, owner: &str, uri: &str, price: u128) -> Response {
    execute_mint(
        state,
        token_id.to_string(),
        owner.to_string(),
        true,
        uri.to_string(),
        price,
    )
    .expect("mint should succeed for a valid owner")
}

fn attrs(r: &Response) -> Vec<(String, String)> {
    r.attributes
        .iter()
        .map(|a| (a.key.clone(), a.value.clone()))
        .collect()
}

#[test]
fn instantiate_sets_config() {
    let mut state = Registry::new();
    let r = instantiate(
        &mut state,
        InstantiateMsg { name: "Astra Registry".to_string(), symbol: "ASTRA".to_string() },
    );
    assert_eq!(attrs(&r), vec![("method".to_string(), "instantiate".to_string())]);
    assert!(r.messages.is_empty());
    let config = state.config.as_ref().expect("config must be set");
    assert_eq!(config.name, "Astra Registry");
    assert_eq!(config.symbol, "ASTRA");
}

#[test]
fn mint_then_get_returns_minted_fields() {
    let mut state = Registry::new();
    let r = mint(&mut state, "t1", "alice", "ipfs://meta1", 100);
    assert_eq!(
        attrs(&r),
        vec![
            ("action".to_string(), "mint".to_string()),
            ("token_id".to_string(), "t1".to_string()),
        ]
    );
    assert!(r.messages.is_empty());
    let nft = query_nft(&state, "t1".to_string()).expect("minted token must be found");
    assert_eq!(nft.token_id, "t1");
    assert_eq!(nft.owner, "alice");
    assert_eq!(nft.token_uri, "ipfs://meta1");
    assert_eq!(nft.price, 100);
}

#[test]
fn mint_same_id_twice_overwrites_entirely() {
    let mut state = Registry::new();
    mint(&mut state, "t1", "alice", "uri-one", 100);
    mint(&mut state, "t1", "bob", "uri-two", 7);
    let nft = query_nft(&state, "t1".to_string()).unwrap();
    assert_eq!(nft.owner, "bob");
    assert_eq!(nft.token_uri, "uri-two");
    assert_eq!(nft.price, 7);
    let all = query_all_nfts(&state);
    assert_eq!(all.nfts.len(), 1);
}

#[test]
fn mint_rejects_invalid_owner_address() {
    let mut state = Registry::new();
    let r = execute_mint(
        &mut state,
        "t1".to_string(),
        "not an address".to_string(),
        false,
        "uri".to_string(),
        5,
    );
    assert_eq!(r.unwrap_err(), ContractError::InvalidAddress);
    assert!(query_all_nfts(&state).nfts.is_empty());
}

#[test]
fn mint_accepts_zero_price() {
    let mut state = Registry::new();
    mint(&mut state, "free", "alice", "uri", 0);
    assert_eq!(query_nft(&state, "free".to_string()).unwrap().price, 0);
}

#[test]
fn buy_below_price_fails_insufficient_funds() {
    let mut state = Registry::new();
    mint(&mut state, "t1", "alice", "uri", 100);
    let r = execute_buy(&mut state, info("bob", coins("uastra", 99)), "t1".to_string());
    assert_eq!(r.unwrap_err(), ContractError::InsufficientFunds);
    let nft = query_nft(&state, "t1".to_string()).unwrap();
    assert_eq!(nft.owner, "alice");
    assert_eq!(nft.price, 100);
}

#[test]
fn buy_exact_price_transfers_price_to_previous_owner() {
    let mut state = Registry::new();
    mint(&mut state, "t1", "alice", "uri", 100);
    let r = execute_buy(&mut state, info("bob", coins("uastra", 100)), "t1".to_string()).unwrap();
    assert_eq!(r.messages.len(), 1);
    assert_eq!(r.messages[0].to_address, "alice");
    assert_eq!(r.messages[0].denom, "uastra");
    assert_eq!(r.messages[0].amount, 100);
    assert_eq!(
        attrs(&r),
        vec![
            ("action".to_string(), "buy".to_string()),
            ("token_id".to_string(), "t1".to_string()),
            ("new_owner".to_string(), "bob".to_string()),
        ]
    );
    let nft = query_nft(&state, "t1".to_string()).unwrap();
    assert_eq!(nft.owner, "bob");
    assert_eq!(nft.token_uri, "uri");
    assert_eq!(nft.price, 100);
}

#[test]
fn buy_overpayment_still_transfers_only_price() {
    let mut state = Registry::new();
    mint(&mut state, "t1", "alice", "uri", 100);
    let r = execute_buy(&mut state, info("bob", coins("uastra", 150)), "t1".to_string()).unwrap();
    assert_eq!(r.messages.len(), 1);
    assert_eq!(r.messages[0].amount, 100);
    assert_eq!(query_nft(&state, "t1".to_string()).unwrap().owner, "bob");
}

#[test]
fn buy_wrong_denomination_fails_no_funds_sent() {
    let mut state = Registry::new();
    mint(&mut state, "t1", "alice", "uri", 100);
    let r = execute_buy(&mut state, info("bob", coins("uatom", 1000)), "t1".to_string());
    assert_eq!(r.unwrap_err(), ContractError::NoFundsSent);
    assert_eq!(query_nft(&state, "t1".to_string()).unwrap().owner, "alice");
}

#[test]
fn buy_no_funds_at_all_fails_no_funds_sent() {
    let mut state = Registry::new();
    mint(&mut state, "t1", "alice", "uri", 100);
    let r = execute_buy(&mut state, info("bob", vec![]), "t1".to_string());
    assert_eq!(r.unwrap_err(), ContractError::NoFundsSent);
}

#[test]
fn buy_scans_past_other_denominations() {
    let mut state = Registry::new();
    mint(&mut state, "t1", "alice", "uri", 100);
    let funds = vec![
        Coin { denom: "uatom".to_string(), amount: 5 },
        Coin { denom: "uastra".to_string(), amount: 100 },
    ];
    let r = execute_buy(&mut state, info("bob", funds), "t1".to_string()).unwrap();
    assert_eq!(r.messages[0].amount, 100);
    assert_eq!(query_nft(&state, "t1".to_string()).unwrap().owner, "bob");
}

#[test]
fn buy_uses_first_coin_of_accepted_denomination() {
    let mut state = Registry::new();
    mint(&mut state, "t1", "alice", "uri", 100);
    let funds = vec![
        Coin { denom: "uastra".to_string(), amount: 1 },
        Coin { denom: "uastra".to_string(), amount: 1000 },
    ];
    let r = execute_buy(&mut state, info("bob", funds), "t1".to_string());
    assert_eq!(r.unwrap_err(), ContractError::InsufficientFunds);
}

#[test]
fn buy_zero_price_with_no_payment_coin_still_needs_denomination() {
    let mut state = Registry::new();
    mint(&mut state, "free", "alice", "uri", 0);
    let r = execute_buy(&mut state, info("bob", vec![]), "free".to_string());
    assert_eq!(r.unwrap_err(), ContractError::NoFundsSent);
    let r = execute_buy(&mut state, info("bob", coins("uastra", 0)), "free".to_string()).unwrap();
    assert_eq!(r.messages[0].amount, 0);
    assert_eq!(query_nft(&state, "free".to_string()).unwrap().owner, "bob");
}

#[test]
fn buy_largest_price_exactly_covered() {
    let mut state = Registry::new();
    mint(&mut state, "t1", "alice", "uri", u128::MAX);
    let r = execute_buy(&mut state, info("bob", coins("uastra", u128::MAX)), "t1".to_string())
        .unwrap();
    assert_eq!(r.messages[0].amount, u128::MAX);
    assert_eq!(query_nft(&state, "t1".to_string()).unwrap().owner, "bob");
}

#[test]
fn update_price_by_non_owner_fails_not_owner() {
    let mut state = Registry::new();
    mint(&mut state, "t1", "alice", "uri", 100);
    let r = execute_update_price(&mut state, info("bob", vec![]), "t1".to_string(), 1);
    assert_eq!(r.unwrap_err(), ContractError::NotOwner);
    assert_eq!(query_nft(&state, "t1".to_string()).unwrap().price, 100);
}

#[test]
fn update_price_by_owner_reflected_immediately() {
    let mut state = Registry::new();
    mint(&mut state, "t1", "alice", "uri", 100);
    let r = execute_update_price(&mut state, info("alice", vec![]), "t1".to_string(), 250)
        .unwrap();
    assert_eq!(
        attrs(&r),
        vec![
            ("action".to_string(), "update_price".to_string()),
            ("token_id".to_string(), "t1".to_string()),
        ]
    );
    assert!(r.messages.is_empty());
    let nft = query_nft(&state, "t1".to_string()).unwrap();
    assert_eq!(nft.price, 250);
    assert_eq!(nft.owner, "alice");
    assert_eq!(nft.token_uri, "uri");
}

#[test]
fn update_price_to_zero_succeeds() {
    let mut state = Registry::new();
    mint(&mut state, "t1", "alice", "uri", 100);
    execute_update_price(&mut state, info("alice", vec![]), "t1".to_string(), 0).unwrap();
    assert_eq!(query_nft(&state, "t1".to_string()).unwrap().price, 0);
}

#[test]
fn unknown_token_fails_not_found_everywhere() {
    let mut state = Registry::new();
    mint(&mut state, "t1", "alice", "uri", 100);
    let r = execute_buy(&mut state, info("bob", coins("uastra", 100)), "nope".to_string());
    assert_eq!(r.unwrap_err(), ContractError::NotFound);
    let r = execute_update_price(&mut state, info("alice", vec![]), "nope".to_string(), 1);
    assert_eq!(r.unwrap_err(), ContractError::NotFound);
    let r = query_nft(&state, "nope".to_string());
    assert_eq!(r.unwrap_err(), ContractError::NotFound);
}

#[test]
fn all_nfts_ascending_and_counts_every_mint() {
    let mut state = Registry::new();
    assert!(query_all_nfts(&state).nfts.is_empty());
    mint(&mut state, "t3", "carol", "u3", 3);
    mint(&mut state, "t1", "alice", "u1", 1);
    mint(&mut state, "t10", "dave", "u10", 10);
    mint(&mut state, "t2", "bob", "u2", 2);
    let all = query_all_nfts(&state);
    let ids: Vec<&str> = all.nfts.iter().map(|n| n.token_id.as_str()).collect();
    // ascending lexicographic order: "t10" sorts between "t1" and "t2"
    assert_eq!(ids, vec!["t1", "t10", "t2", "t3"]);
    assert_eq!(all.nfts.len(), 4);
    assert_eq!(all.nfts[0].owner, "alice");
    assert_eq!(all.nfts[1].price, 10);
}

#[test]
fn execute_dispatches_all_three_commands() {
    let mut state = Registry::new();
    let r = execute(
        &mut state,
        info("anyone", vec![]),
        ExecuteMsg::Mint {
            token_id: "t1".to_string(),
            owner: "alice".to_string(),
            token_uri: "uri".to_string(),
            price: 40,
        },
        true,
    )
    .unwrap();
    assert_eq!(attrs(&r)[0], ("action".to_string(), "mint".to_string()));
    let r = execute(
        &mut state,
        info("bob", coins("uastra", 40)),
        ExecuteMsg::Buy { token_id: "t1".to_string() },
        true,
    )
    .unwrap();
    assert_eq!(r.messages[0].to_address, "alice");
    let r = execute(
        &mut state,
        info("bob", vec![]),
        ExecuteMsg::UpdatePrice { token_id: "t1".to_string(), new_price: 9 },
        true,
    )
    .unwrap();
    assert_eq!(attrs(&r)[0], ("action".to_string(), "update_price".to_string()));
    assert_eq!(query_nft(&state, "t1".to_string()).unwrap().price, 9);
}

#[test]
fn query_dispatches_both_queries() {
    let mut state = Registry::new();
    mint(&mut state, "t1", "alice", "uri", 100);
    match query(&state, QueryMsg::GetNft { token_id: "t1".to_string() }).unwrap() {
        QueryAnswer::Nft(nft) => assert_eq!(nft.owner, "alice"),
        other => panic!("unexpected answer: {:?}", other),
    }
    match query(&state, QueryMsg::GetAllNfts {}).unwrap() {
        QueryAnswer::AllNfts(all) => assert_eq!(all.nfts.len(), 1),
        other => panic!("unexpected answer: {:?}", other),
    }
    let r = query(&state, QueryMsg::GetNft { token_id: "nope".to_string() });
    assert_eq!(r.unwrap_err(), ContractError::NotFound);
}

#[test]
fn full_scenario_mint_buy_reprice() {
    let mut state = Registry::new();
    mint(&mut state, "t1", "A", "uri", 100);
    let all = query_all_nfts(&state);
    assert_eq!(all.nfts.len(), 1);
    assert_eq!(all.nfts[0].owner, "A");
    assert_eq!(all.nfts[0].price, 100);

    let r = execute_buy(&mut state, info("B", coins("uastra", 150)), "t1".to_string()).unwrap();
    // A receives exactly 100; the 50 excess stays in the contract balance.
    assert_eq!(r.messages[0].to_address, "A");
    assert_eq!(r.messages[0].amount, 100);
    assert_eq!(query_nft(&state, "t1".to_string()).unwrap().owner, "B");

    execute_update_price(&mut state, info("B", vec![]), "t1".to_string(), 0).unwrap();
    let r = execute_update_price(&mut state, info("A", vec![]), "t1".to_string(), 5);
    assert_eq!(r.unwrap_err(), ContractError::NotOwner);
    assert_eq!(query_nft(&state, "t1".to_string()).unwrap().price, 0);
    // buys and reprices never create or destroy a token
    assert_eq!(query_all_nfts(&state).nfts.len(), 1);
}

#[test]
fn error_messages_match_reported_text() {
    assert_eq!(ContractError::NoFundsSent.message(), "No uastra sent");
    assert_eq!(ContractError::InsufficientFunds.message(), "Insufficient funds");
    assert_eq!(ContractError::NotOwner.message(), "Not the owner");
    assert_eq!(ContractError::NotFound.message(), "Token not found");
    assert_eq!(ContractError::InvalidAddress.message(), "Invalid owner address");
}
