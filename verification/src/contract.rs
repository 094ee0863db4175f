//! The command and query handlers.
//!
//! Each handler is a total function from the current state and the
//! transaction context to the next state and a result. The host runs one
//! handler per transaction, atomically: on an error the host discards every
//! write, which the handlers mirror by leaving the state untouched on every
//! error path.

use vstd::prelude::*;
use vstd::string::StringExecFns;

use crate::error::ContractError;
use crate::host::{
    attribute, find_payment, first_payment, payment_denom, uastra, Attribute, BankTransfer, Coin,
    MessageInfo, Response,
};
use crate::keys::{key_lt, lemma_key_lt_ne, lemma_key_lt_total, lemma_key_lt_transitive, str_lt};
use crate::msg::{
    AllNftsResponse, ExecuteMsg, InstantiateMsg, NftInfoResponse, QueryAnswer, QueryMsg,
};
use crate::state::{
    lemma_entries_of_insert, lemma_entries_of_update, lemma_map_of_contains,
    lemma_map_of_insert, lemma_map_of_len, lemma_map_of_update, lemma_sorted_distinct,
    lemma_sorted_insert, lemma_sorted_update_same_key, Config, Entry, NftData, NftDataView,
    Registry,
};

verus! {

/// A successful instantiation's result: one diagnostic attribute, no
/// transfer.
pub open spec fn instantiate_resp(r: Response) -> bool {
    &&& r.messages@.len() == 0
    &&& r.attributes@.len() == 1
    &&& r.attributes@[0].key@ == "method"@
    &&& r.attributes@[0].value@ == "instantiate"@
}

/// A successful mint's result: audit attributes, no transfer.
pub open spec fn mint_resp(r: Response, token_id: Seq<char>) -> bool {
    &&& r.messages@.len() == 0
    &&& r.attributes@.len() == 2
    &&& r.attributes@[0].key@ == "action"@
    &&& r.attributes@[0].value@ == "mint"@
    &&& r.attributes@[1].key@ == "token_id"@
    &&& r.attributes@[1].value@ == token_id
}

/// A successful buy's result: exactly the asking price moves to the previous
/// owner, and the attributes name the token and its new owner.
pub open spec fn buy_resp(
    r: Response,
    token_id: Seq<char>,
    prev_owner: Seq<char>,
    price: u128,
    buyer: Seq<char>,
) -> bool {
    &&& r.messages@.len() == 1
    &&& r.messages@[0].to_address@ == prev_owner
    &&& r.messages@[0].denom@ == payment_denom()
    &&& r.messages@[0].amount == price
    &&& r.attributes@.len() == 3
    &&& r.attributes@[0].key@ == "action"@
    &&& r.attributes@[0].value@ == "buy"@
    &&& r.attributes@[1].key@ == "token_id"@
    &&& r.attributes@[1].value@ == token_id
    &&& r.attributes@[2].key@ == "new_owner"@
    &&& r.attributes@[2].value@ == buyer
}

/// A successful reprice's result: audit attributes, no transfer.
pub open spec fn update_price_resp(r: Response, token_id: Seq<char>) -> bool {
    &&& r.messages@.len() == 0
    &&& r.attributes@.len() == 2
    &&& r.attributes@[0].key@ == "action"@
    &&& r.attributes@[0].value@ == "update_price"@
    &&& r.attributes@[1].key@ == "token_id"@
    &&& r.attributes@[1].value@ == token_id
}

/// Everything mint does: rejected owners leave the state untouched; a valid
/// owner's record lands in the map under its identifier, replacing any prior
/// record there.
pub open spec fn mint_post(
    pre: Registry,
    post: Registry,
    r: Result<Response, ContractError>,
    token_id: Seq<char>,
    owner: Seq<char>,
    owner_valid: bool,
    token_uri: Seq<char>,
    price: u128,
) -> bool {
    &&& post.config == pre.config
    &&& if !owner_valid {
        (r matches Err(e) && e == ContractError::InvalidAddress) && post == pre
    } else {
        &&& post.nft_map() == pre.nft_map().insert(
            token_id,
            NftDataView { owner, token_uri, price },
        )
        &&& r matches Ok(resp) && mint_resp(resp, token_id)
    }
}

/// Everything buy does: an unknown token, missing payment denomination or
/// short payment fails with the matching error and an untouched state; an
/// adequate payment makes the sender the owner, leaves the metadata and the
/// price as they were, and queues a transfer of exactly the price to the
/// previous owner.
pub open spec fn buy_post(
    pre: Registry,
    post: Registry,
    r: Result<Response, ContractError>,
    token_id: Seq<char>,
    sender: Seq<char>,
    funds: Seq<Coin>,
) -> bool {
    &&& post.config == pre.config
    &&& if !pre.nft_map().contains_key(token_id) {
        (r matches Err(e) && e == ContractError::NotFound) && post == pre
    } else {
        let rec = pre.nft_map()[token_id];
        match first_payment(funds) {
            None => (r matches Err(e) && e == ContractError::NoFundsSent) && post == pre,
            Some(amount) => if amount < rec.price {
                (r matches Err(e) && e == ContractError::InsufficientFunds) && post == pre
            } else {
                &&& post.nft_map() == pre.nft_map().insert(
                    token_id,
                    NftDataView { owner: sender, token_uri: rec.token_uri, price: rec.price },
                )
                &&& r matches Ok(resp) && buy_resp(resp, token_id, rec.owner, rec.price, sender)
            },
        }
    }
}

/// Everything a reprice does: an unknown token or a sender other than the
/// owner fails with the matching error and an untouched state; the owner may
/// set any price, zero included, with owner and metadata unchanged.
pub open spec fn update_price_post(
    pre: Registry,
    post: Registry,
    r: Result<Response, ContractError>,
    token_id: Seq<char>,
    sender: Seq<char>,
    new_price: u128,
) -> bool {
    &&& post.config == pre.config
    &&& if !pre.nft_map().contains_key(token_id) {
        (r matches Err(e) && e == ContractError::NotFound) && post == pre
    } else {
        let rec = pre.nft_map()[token_id];
        if rec.owner != sender {
            (r matches Err(e) && e == ContractError::NotOwner) && post == pre
        } else {
            &&& post.nft_map() == pre.nft_map().insert(
                token_id,
                NftDataView { owner: rec.owner, token_uri: rec.token_uri, price: new_price },
            )
            &&& r matches Ok(resp) && update_price_resp(resp, token_id)
        }
    }
}

/// Writes the registry configuration. The host invokes this exactly once per
/// deployment; version bookkeeping and storage failures live below this core.
pub fn instantiate(state: &mut Registry, msg: InstantiateMsg) -> (r: Response)
    requires
        old(state).wf(),
    ensures
        final(state).wf(),
        final(state).nfts == old(state).nfts,
        final(state).config matches Some(c) && c.name@ == msg.name@ && c.symbol@ == msg.symbol@,
        instantiate_resp(r),
{
    state.config = Some(Config { name: msg.name, symbol: msg.symbol });
    let mut attributes: Vec<Attribute> = Vec::new();
    attributes.push(attribute("method", String::from_str("instantiate")));
    Response { messages: Vec::new(), attributes }
}

/// Creates or replaces the record under `token_id`. Any caller may mint;
/// `owner_valid` is the host's address-validation verdict for `owner`, which
/// the adapter obtains from the host runtime before calling in.
pub fn execute_mint(
    state: &mut Registry,
    token_id: String,
    owner: String,
    owner_valid: bool,
    token_uri: String,
    price: u128,
) -> (r: Result<Response, ContractError>)
    requires
        old(state).wf(),
    ensures
        final(state).wf(),
        mint_post(
            *old(state),
            *final(state),
            r,
            token_id@,
            owner@,
            owner_valid,
            token_uri@,
            price,
        ),
{
    if !owner_valid {
        return Err(ContractError::InvalidAddress);
    }
    let ghost pre = *state;
    let ghost dv = NftDataView { owner: owner@, token_uri: token_uri@, price };
    // First position whose key is not below `token_id`: where the new record
    // belongs in store order.
    let mut i: usize = 0;
    while i < state.nfts.len() && str_lt(state.nfts[i].token_id.as_str(), token_id.as_str())
        invariant
            i <= state.nfts@.len(),
            *state == pre,
            forall|j: int| 0 <= j < i ==> key_lt((#[trigger] state.nfts@[j]).token_id@, token_id@),
        decreases state.nfts@.len() - i,
    {
        i += 1;
    }
    let replaces = i < state.nfts.len() && state.nfts[i].token_id == token_id;
    let attr_value = token_id.clone();
    let entry = Entry { token_id, data: NftData { owner, token_uri, price } };
    let ghost e = entry;
    proof {
        lemma_sorted_distinct(pre.entries());
        assert(forall|j: int|
            0 <= j < pre.entries().len() ==> (#[trigger] pre.entries()[j]) == (
                pre.nfts@[j].token_id@,
                pre.nfts@[j].data@,
            ));
    }
    if replaces {
        state.nfts[i] = entry;
        proof {
            lemma_entries_of_update(pre.nfts@, i as int, e);
            assert(pre.entries()[i as int].0 == e.token_id@);
            assert(state.entries() =~= pre.entries().update(i as int, (e.token_id@, dv)));
            lemma_sorted_update_same_key(pre.entries(), i as int, dv);
            lemma_map_of_update(pre.entries(), i as int, dv);
        }
    } else {
        proof {
            if (i as int) < pre.nfts@.len() {
                lemma_key_lt_total(e.token_id@, pre.nfts@[i as int].token_id@);
            }
            assert forall|j: int| i <= j < pre.entries().len() implies key_lt(
                e.token_id@,
                (#[trigger] pre.entries()[j]).0,
            ) by {
                if j > i {
                    lemma_key_lt_transitive(
                        e.token_id@,
                        pre.entries()[i as int].0,
                        pre.entries()[j].0,
                    );
                }
            }
            assert forall|j: int| 0 <= j < pre.entries().len() implies (
            #[trigger] pre.entries()[j]).0 != e.token_id@ by {
                if j < i {
                    lemma_key_lt_ne(pre.entries()[j].0, e.token_id@);
                } else {
                    lemma_key_lt_ne(e.token_id@, pre.entries()[j].0);
                }
            }
        }
        state.nfts.insert(i, entry);
        proof {
            lemma_entries_of_insert(pre.nfts@, i as int, e);
            assert(state.entries() =~= pre.entries().insert(i as int, (e.token_id@, dv)));
            lemma_sorted_insert(pre.entries(), i as int, e.token_id@, dv);
            lemma_map_of_insert(pre.entries(), i as int, e.token_id@, dv);
        }
    }
    let mut attributes: Vec<Attribute> = Vec::new();
    attributes.push(attribute("action", String::from_str("mint")));
    attributes.push(attribute("token_id", attr_value));
    Ok(Response { messages: Vec::new(), attributes })
}

/// Purchases `token_id`. The first attached coin of the accepted
/// denomination must cover the asking price; exactly the price moves to the
/// previous owner, and any excess stays in the contract's balance.
pub fn execute_buy(state: &mut Registry, info: MessageInfo, token_id: String) -> (r: Result<
    Response,
    ContractError,
>)
    requires
        old(state).wf(),
    ensures
        final(state).wf(),
        buy_post(*old(state), *final(state), r, token_id@, info.sender@, info.funds@),
{
    let found = state.find(&token_id);
    proof {
        state.lemma_find_result(found, token_id@);
    }
    let i = match found {
        None => {
            return Err(ContractError::NotFound);
        },
        Some(i) => i,
    };
    let amount = match find_payment(&info.funds) {
        None => {
            return Err(ContractError::NoFundsSent);
        },
        Some(a) => a,
    };
    let ghost pre = *state;
    proof {
        assert(pre.entries()[i as int] == (pre.nfts@[i as int].token_id@, pre.nfts@[i as int].data@));
    }
    if amount < state.nfts[i].data.price {
        return Err(ContractError::InsufficientFunds);
    }
    let prev_owner = state.nfts[i].data.owner.clone();
    let price = state.nfts[i].data.price;
    let entry = Entry {
        token_id: state.nfts[i].token_id.clone(),
        data: NftData {
            owner: info.sender.clone(),
            token_uri: state.nfts[i].data.token_uri.clone(),
            price,
        },
    };
    let ghost e = entry;
    let ghost dv = NftDataView {
        owner: info.sender@,
        token_uri: pre.nft_map()[token_id@].token_uri,
        price: pre.nft_map()[token_id@].price,
    };
    state.nfts[i] = entry;
    proof {
        assert(e.data@ == dv);
        lemma_entries_of_update(pre.nfts@, i as int, e);
        assert(pre.entries()[i as int].0 == e.token_id@);
        assert(state.entries() =~= pre.entries().update(i as int, (e.token_id@, dv)));
        lemma_sorted_update_same_key(pre.entries(), i as int, dv);
        lemma_sorted_distinct(pre.entries());
        lemma_map_of_update(pre.entries(), i as int, dv);
    }
    let mut messages: Vec<BankTransfer> = Vec::new();
    messages.push(BankTransfer { to_address: prev_owner, denom: uastra(), amount: price });
    let mut attributes: Vec<Attribute> = Vec::new();
    attributes.push(attribute("action", String::from_str("buy")));
    attributes.push(attribute("token_id", token_id));
    attributes.push(attribute("new_owner", info.sender));
    Ok(Response { messages, attributes })
}

/// Sets a new asking price, any value including zero; only the owner may.
pub fn execute_update_price(
    state: &mut Registry,
    info: MessageInfo,
    token_id: String,
    new_price: u128,
) -> (r: Result<Response, ContractError>)
    requires
        old(state).wf(),
    ensures
        final(state).wf(),
        update_price_post(*old(state), *final(state), r, token_id@, info.sender@, new_price),
{
    let found = state.find(&token_id);
    proof {
        state.lemma_find_result(found, token_id@);
    }
    let i = match found {
        None => {
            return Err(ContractError::NotFound);
        },
        Some(i) => i,
    };
    let ghost pre = *state;
    proof {
        assert(pre.entries()[i as int] == (pre.nfts@[i as int].token_id@, pre.nfts@[i as int].data@));
    }
    if state.nfts[i].data.owner != info.sender {
        return Err(ContractError::NotOwner);
    }
    let entry = Entry {
        token_id: state.nfts[i].token_id.clone(),
        data: NftData {
            owner: state.nfts[i].data.owner.clone(),
            token_uri: state.nfts[i].data.token_uri.clone(),
            price: new_price,
        },
    };
    let ghost e = entry;
    let ghost dv = NftDataView {
        owner: pre.nft_map()[token_id@].owner,
        token_uri: pre.nft_map()[token_id@].token_uri,
        price: new_price,
    };
    state.nfts[i] = entry;
    proof {
        assert(e.data@ == dv);
        lemma_entries_of_update(pre.nfts@, i as int, e);
        assert(pre.entries()[i as int].0 == e.token_id@);
        assert(state.entries() =~= pre.entries().update(i as int, (e.token_id@, dv)));
        lemma_sorted_update_same_key(pre.entries(), i as int, dv);
        lemma_sorted_distinct(pre.entries());
        lemma_map_of_update(pre.entries(), i as int, dv);
    }
    let mut attributes: Vec<Attribute> = Vec::new();
    attributes.push(attribute("action", String::from_str("update_price")));
    attributes.push(attribute("token_id", token_id));
    Ok(Response { messages: Vec::new(), attributes })
}

/// `resp` reports the token the map holds under `token_id`.
pub open spec fn reported_nft(resp: NftInfoResponse, s: Registry, token_id: Seq<char>) -> bool {
    &&& s.nft_map().contains_key(token_id)
    &&& resp.token_id@ == token_id
    &&& resp.owner@ == s.nft_map()[token_id].owner
    &&& resp.token_uri@ == s.nft_map()[token_id].token_uri
    &&& resp.price == s.nft_map()[token_id].price
}

/// `resp` reports one stored pair.
pub open spec fn reports_entry(r: NftInfoResponse, e: (Seq<char>, NftDataView)) -> bool {
    &&& r.token_id@ == e.0
    &&& r.owner@ == e.1.owner
    &&& r.token_uri@ == e.1.token_uri
    &&& r.price == e.1.price
}

/// `list` reports the whole store: every record exactly once, in ascending
/// token-identifier order, as many as the map holds.
pub open spec fn reported_all(list: AllNftsResponse, s: Registry) -> bool {
    &&& list.nfts@.len() == s.entries().len()
    &&& list.nfts@.len() == s.nft_map().len()
    &&& forall|i: int|
        0 <= i < list.nfts@.len() ==> reports_entry(#[trigger] list.nfts@[i], s.entries()[i])
    &&& forall|i: int, j: int|
        0 <= i < j < list.nfts@.len() ==> key_lt(
            (#[trigger] list.nfts@[i]).token_id@,
            (#[trigger] list.nfts@[j]).token_id@,
        )
    &&& forall|k: Seq<char>|
        #[trigger] s.nft_map().contains_key(k) ==> exists|i: int|
            0 <= i < list.nfts@.len() && (#[trigger] list.nfts@[i]).token_id@ == k
}

/// Looks one token up.
pub fn query_nft(state: &Registry, token_id: String) -> (r: Result<NftInfoResponse, ContractError>)
    requires
        state.wf(),
    ensures
        match r {
            Ok(resp) => reported_nft(resp, *state, token_id@),
            Err(e) => e == ContractError::NotFound && !state.nft_map().contains_key(token_id@),
        },
{
    let found = state.find(&token_id);
    proof {
        state.lemma_find_result(found, token_id@);
    }
    match found {
        None => Err(ContractError::NotFound),
        Some(i) => {
            assert(state.entries()[i as int] == (
                state.nfts@[i as int].token_id@,
                state.nfts@[i as int].data@,
            ));
            Ok(
                NftInfoResponse {
                    token_id,
                    owner: state.nfts[i].data.owner.clone(),
                    token_uri: state.nfts[i].data.token_uri.clone(),
                    price: state.nfts[i].data.price,
                },
            )
        },
    }
}

/// Lists every record, in ascending token-identifier order. Each call
/// re-reads the whole store; there is no pagination.
pub fn query_all_nfts(state: &Registry) -> (r: AllNftsResponse)
    requires
        state.wf(),
    ensures
        reported_all(r, *state),
{
    let mut nfts: Vec<NftInfoResponse> = Vec::new();
    let mut i: usize = 0;
    while i < state.nfts.len()
        invariant
            i <= state.nfts@.len(),
            nfts@.len() == i,
            forall|j: int| 0 <= j < i ==> reports_entry(#[trigger] nfts@[j], state.entries()[j]),
        decreases state.nfts@.len() - i,
    {
        proof {
            assert(state.entries()[i as int] == (
                state.nfts@[i as int].token_id@,
                state.nfts@[i as int].data@,
            ));
        }
        nfts.push(
            NftInfoResponse {
                token_id: state.nfts[i].token_id.clone(),
                owner: state.nfts[i].data.owner.clone(),
                token_uri: state.nfts[i].data.token_uri.clone(),
                price: state.nfts[i].data.price,
            },
        );
        i += 1;
    }
    proof {
        lemma_sorted_distinct(state.entries());
        lemma_map_of_len(state.entries());
        assert forall|a: int, b: int| 0 <= a < b < nfts@.len() implies key_lt(
            (#[trigger] nfts@[a]).token_id@,
            (#[trigger] nfts@[b]).token_id@,
        ) by {
            assert(nfts@[a].token_id@ == state.entries()[a].0);
            assert(nfts@[b].token_id@ == state.entries()[b].0);
        }
        assert forall|k: Seq<char>| #[trigger]
            state.nft_map().contains_key(k) implies exists|a: int|
            0 <= a < nfts@.len() && (#[trigger] nfts@[a]).token_id@ == k by {
            lemma_map_of_contains(state.entries(), k);
            let a = choose|a: int|
                0 <= a < state.entries().len() && (#[trigger] state.entries()[a]).0 == k;
            assert(nfts@[a].token_id@ == k);
        }
    }
    AllNftsResponse { nfts }
}

/// Answers one query. Queries mutate nothing.
pub fn query(state: &Registry, msg: QueryMsg) -> (r: Result<QueryAnswer, ContractError>)
    requires
        state.wf(),
    ensures
        match msg {
            QueryMsg::GetNft { token_id } => match r {
                Ok(a) => a matches QueryAnswer::Nft(resp) && reported_nft(
                    resp,
                    *state,
                    token_id@,
                ),
                Err(e) => e == ContractError::NotFound && !state.nft_map().contains_key(
                    token_id@,
                ),
            },
            QueryMsg::GetAllNfts {  } => r matches Ok(a) && a matches QueryAnswer::AllNfts(list)
                && reported_all(list, *state),
        },
{
    match msg {
        QueryMsg::GetNft { token_id } => match query_nft(state, token_id) {
            Ok(resp) => Ok(QueryAnswer::Nft(resp)),
            Err(e) => Err(e),
        },
        QueryMsg::GetAllNfts {  } => Ok(QueryAnswer::AllNfts(query_all_nfts(state))),
    }
}

/// Applies one mutating command. `mint_owner_valid` is the host's
/// address-validation verdict for the owner a mint names; the other commands
/// ignore it.
pub fn execute(
    state: &mut Registry,
    info: MessageInfo,
    msg: ExecuteMsg,
    mint_owner_valid: bool,
) -> (r: Result<Response, ContractError>)
    requires
        old(state).wf(),
    ensures
        final(state).wf(),
        match msg {
            ExecuteMsg::Mint { token_id, owner, token_uri, price } => mint_post(
                *old(state),
                *final(state),
                r,
                token_id@,
                owner@,
                mint_owner_valid,
                token_uri@,
                price,
            ),
            ExecuteMsg::Buy { token_id } => buy_post(
                *old(state),
                *final(state),
                r,
                token_id@,
                info.sender@,
                info.funds@,
            ),
            ExecuteMsg::UpdatePrice { token_id, new_price } => update_price_post(
                *old(state),
                *final(state),
                r,
                token_id@,
                info.sender@,
                new_price,
            ),
        },
{
    match msg {
        ExecuteMsg::Mint { token_id, owner, token_uri, price } => execute_mint(
            state,
            token_id,
            owner,
            mint_owner_valid,
            token_uri,
            price,
        ),
        ExecuteMsg::Buy { token_id } => execute_buy(state, info, token_id),
        ExecuteMsg::UpdatePrice { token_id, new_price } => execute_update_price(
            state,
            info,
            token_id,
            new_price,
        ),
    }
}

/// Law: after a successful mint, the store holds exactly the minted fields
/// under the minted identifier, so the single-token query reports them.
pub proof fn lemma_mint_then_get(
    pre: Registry,
    post: Registry,
    r: Result<Response, ContractError>,
    token_id: Seq<char>,
    owner: Seq<char>,
    token_uri: Seq<char>,
    price: u128,
)
    requires
        mint_post(pre, post, r, token_id, owner, true, token_uri, price),
    ensures
        post.nft_map().contains_key(token_id),
        post.nft_map()[token_id] == (NftDataView { owner, token_uri, price }),
{
}

/// Law: minting the same identifier twice overwrites the prior record
/// entirely; the store ends as if only the second mint had happened.
pub proof fn lemma_mint_overwrites(
    s0: Registry,
    s1: Registry,
    s2: Registry,
    r1: Result<Response, ContractError>,
    r2: Result<Response, ContractError>,
    token_id: Seq<char>,
    owner1: Seq<char>,
    token_uri1: Seq<char>,
    price1: u128,
    owner2: Seq<char>,
    token_uri2: Seq<char>,
    price2: u128,
)
    requires
        mint_post(s0, s1, r1, token_id, owner1, true, token_uri1, price1),
        mint_post(s1, s2, r2, token_id, owner2, true, token_uri2, price2),
    ensures
        s2.nft_map() == s0.nft_map().insert(
            token_id,
            NftDataView { owner: owner2, token_uri: token_uri2, price: price2 },
        ),
{
    assert(s2.nft_map() =~= s0.nft_map().insert(
        token_id,
        NftDataView { owner: owner2, token_uri: token_uri2, price: price2 },
    ));
}

/// Law: a mint extends the set of stored identifiers by exactly the minted
/// one; every other token is untouched.
pub proof fn lemma_mint_adds_token(
    pre: Registry,
    post: Registry,
    r: Result<Response, ContractError>,
    token_id: Seq<char>,
    owner: Seq<char>,
    token_uri: Seq<char>,
    price: u128,
)
    requires
        mint_post(pre, post, r, token_id, owner, true, token_uri, price),
    ensures
        post.nft_map().dom() == pre.nft_map().dom().insert(token_id),
        forall|k: Seq<char>|
            k != token_id ==> #[trigger] post.nft_map().contains_key(k) == pre.nft_map()
                .contains_key(k),
        forall|k: Seq<char>|
            k != token_id && pre.nft_map().contains_key(k) ==> #[trigger] post.nft_map()[k]
                == pre.nft_map()[k],
{
    assert(post.nft_map().dom() =~= pre.nft_map().dom().insert(token_id));
}

/// Law: a completed buy neither creates nor destroys a token — it only
/// rewrites the bought record's owner. A failed buy changes nothing at all.
pub proof fn lemma_buy_preserves_tokens(
    pre: Registry,
    post: Registry,
    r: Result<Response, ContractError>,
    token_id: Seq<char>,
    sender: Seq<char>,
    funds: Seq<Coin>,
)
    requires
        buy_post(pre, post, r, token_id, sender, funds),
    ensures
        post.nft_map().dom() == pre.nft_map().dom(),
        forall|k: Seq<char>|
            k != token_id && pre.nft_map().contains_key(k) ==> #[trigger] post.nft_map()[k]
                == pre.nft_map()[k],
{
    assert(post.nft_map().dom() =~= pre.nft_map().dom());
}

/// Law: a reprice neither creates nor destroys a token — it only rewrites
/// the repriced record's price. A failed reprice changes nothing at all.
pub proof fn lemma_update_price_preserves_tokens(
    pre: Registry,
    post: Registry,
    r: Result<Response, ContractError>,
    token_id: Seq<char>,
    sender: Seq<char>,
    new_price: u128,
)
    requires
        update_price_post(pre, post, r, token_id, sender, new_price),
    ensures
        post.nft_map().dom() == pre.nft_map().dom(),
        forall|k: Seq<char>|
            k != token_id && pre.nft_map().contains_key(k) ==> #[trigger] post.nft_map()[k]
                == pre.nft_map()[k],
{
    assert(post.nft_map().dom() =~= pre.nft_map().dom());
}

} // verus!
