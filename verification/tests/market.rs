use brand_ledger::currency::Currency;
use brand_ledger::market::Error as MarketError;
use brand_ledger::market::Event as MarketEvent;
use brand_ledger::market::Marketplace;
use brand_ledger::registry::BrandRegistry;
use brand_ledger::scheduler::Scheduler;
use brand_ledger::token::TokenLedger;

const RATE: u64 = 2;

fn world() -> (Currency, BrandRegistry, Marketplace) {
    let mut currency = Currency::new();
    currency.endow(1, 10_000);
    currency.endow(5, 10_000);
    let mut registry = BrandRegistry::new();
    registry.create_brand(1, b"acme".to_vec()).unwrap();
    (currency, registry, Marketplace::new(RATE))
}

fn mint_sample(
    market: &mut Marketplace,
    currency: &mut Currency,
    registry: &BrandRegistry,
    id: u128,
    price: u64,
) {
    market
        .mint_nft(
            currency,
            registry,
            1,
            b"art".to_vec(),
            Some(b"fine".to_vec()),
            b"ipfs://a".to_vec(),
            77,
            price,
            1,
            3,
            id,
            0,
        )
        .unwrap();
}

#[test]
fn mint_reserves_exact_deposit() {
    let (mut currency, registry, mut market) = world();
    mint_sample(&mut market, &mut currency, &registry, 42, 10);
    // title 3 + description 4 + media 8 + 48 bytes of overhead, at rate 2
    let expected = RATE * (3 + 4 + 8 + 48);
    let nft = market.token_by_id(42).unwrap();
    assert_eq!(nft.deposit, expected);
    assert_eq!(nft.owner, 1);
    assert_eq!(nft.creator, 1);
    assert_eq!(nft.price, 10);
    assert_eq!(currency.reserved_balance(1), expected);
    assert_eq!(currency.free_balance(1), 10_000 - expected);
}

#[test]
fn mint_requires_brand_and_fresh_id() {
    let (mut currency, registry, mut market) = world();
    let r = market.mint_nft(
        &mut currency,
        &registry,
        5,
        b"art".to_vec(),
        None,
        b"m".to_vec(),
        0,
        0,
        1,
        0,
        42,
        0,
    );
    assert_eq!(r, Err(MarketError::BrandNotExist));
    mint_sample(&mut market, &mut currency, &registry, 42, 10);
    let r = market.mint_nft(
        &mut currency,
        &registry,
        1,
        b"other".to_vec(),
        None,
        b"m".to_vec(),
        0,
        0,
        1,
        0,
        42,
        0,
    );
    assert_eq!(r, Err(MarketError::DuplicateNFT));
}

// Editing a title from one length to another moves the reserved deposit
// by exactly the per-byte rate times the size difference, and the final
// reserve depends only on the final content size.
#[test]
fn edit_deposit_round_trip() {
    let (mut currency, registry, mut market) = world();
    mint_sample(&mut market, &mut currency, &registry, 42, 10);
    let before = currency.reserved_balance(1);

    // title grows from 3 to 8 bytes, everything else kept the same size
    market
        .edit_nft(
            &mut currency,
            &registry,
            1,
            42,
            b"artworks".to_vec(),
            Some(b"fine".to_vec()),
            b"ipfs://a".to_vec(),
            77,
        )
        .unwrap();
    assert_eq!(currency.reserved_balance(1), before + RATE * 5);
    assert_eq!(market.token_by_id(42).unwrap().deposit, RATE * (8 + 4 + 8 + 48));

    // a second edit back to a 3-byte title restores the original reserve
    market
        .edit_nft(
            &mut currency,
            &registry,
            1,
            42,
            b"art".to_vec(),
            Some(b"fine".to_vec()),
            b"ipfs://a".to_vec(),
            77,
        )
        .unwrap();
    assert_eq!(currency.reserved_balance(1), before);
    assert_eq!(currency.free_balance(1), 10_000 - before);
}

#[test]
fn edit_requires_ownership() {
    let (mut currency, mut registry, mut market) = world();
    registry.create_brand(5, b"other".to_vec()).unwrap();
    mint_sample(&mut market, &mut currency, &registry, 42, 10);
    let r = market.edit_nft(
        &mut currency,
        &registry,
        5,
        42,
        b"x".to_vec(),
        None,
        b"m".to_vec(),
        0,
    );
    assert_eq!(r, Err(MarketError::NotOwner));
    let r = market.edit_nft(
        &mut currency,
        &registry,
        1,
        43,
        b"x".to_vec(),
        None,
        b"m".to_vec(),
        0,
    );
    assert_eq!(r, Err(MarketError::NoNFT));
}

#[test]
fn collections_create_edit_destroy() {
    let (mut currency, registry, mut market) = world();
    market
        .create_collection(&mut currency, &registry, 1, b"set".to_vec(), None, 1, 9, 0)
        .unwrap();
    // title 3 + description 0 + 16 bytes of overhead, at rate 2
    assert_eq!(market.collection_by_id(9).unwrap().deposit, RATE * (3 + 16));
    let r = market.create_collection(&mut currency, &registry, 1, b"set2".to_vec(), None, 1, 9, 0);
    assert_eq!(r, Err(MarketError::DuplicateCollection));

    market
        .edit_collection(
            &mut currency,
            &registry,
            1,
            9,
            Some(b"sets".to_vec()),
            Some(b"xy".to_vec()),
        )
        .unwrap();
    assert_eq!(market.collection_by_id(9).unwrap().deposit, RATE * (4 + 2 + 16));
    assert_eq!(market.collection_by_id(9).unwrap().title, b"sets".to_vec());

    // an asset inside the collection blocks destruction
    mint_sample(&mut market, &mut currency, &registry, 42, 10);
    market
        .edit_nft(
            &mut currency,
            &registry,
            1,
            42,
            b"art".to_vec(),
            Some(b"fine".to_vec()),
            b"ipfs://a".to_vec(),
            9,
        )
        .unwrap();
    let r = market.destroy_collection(&mut currency, &registry, 1, 9);
    assert_eq!(r, Err(MarketError::TokenInCollection));

    market.burn_nft(&mut currency, &registry, 1, 42).unwrap();
    let reserved = currency.reserved_balance(1);
    market.destroy_collection(&mut currency, &registry, 1, 9).unwrap();
    assert!(market.collection_by_id(9).is_none());
    assert_eq!(currency.reserved_balance(1), reserved - RATE * (4 + 2 + 16));
    let r = market.destroy_collection(&mut currency, &registry, 1, 9);
    assert_eq!(r, Err(MarketError::NoCollection));
}

#[test]
fn buy_pays_owner_and_releases_deposit_once() {
    let (mut currency, registry, mut market) = world();
    mint_sample(&mut market, &mut currency, &registry, 42, 10);
    let deposit = market.token_by_id(42).unwrap().deposit;

    assert_eq!(market.buy_nft(&mut currency, 9, 43), Err(MarketError::NoNFT));
    assert_eq!(market.buy_nft(&mut currency, 1, 42), Err(MarketError::TransferToSelf));

    assert!(market.buy_nft(&mut currency, 5, 42).is_ok());
    let nft = market.token_by_id(42).unwrap();
    assert_eq!(nft.owner, 5);
    assert_eq!(nft.price, 0);
    assert_eq!(nft.deposit, 0);
    assert_eq!(currency.free_balance(5), 10_000 - 10);
    // the seller got the price and the whole deposit back, exactly once
    assert_eq!(currency.free_balance(1), 10_000 + 10);
    assert_eq!(currency.reserved_balance(1), 0);

    // the sale reported itself, then the ownership change
    let n = market.events.len();
    assert_eq!(
        &market.events[n - 2..],
        &[
            MarketEvent::Bought { seller: 1, buyer: 5, nft: 42, price: 10 },
            MarketEvent::Transferred { from: 1, to: 5, nft: 42 },
        ]
    );

    // an unlisted asset cannot be bought or re-priced
    assert_eq!(market.buy_nft(&mut currency, 1, 42), Err(MarketError::NotSelling));
    assert_eq!(market.set_nft_price(5, 42, 25), Err(MarketError::NotSelling));
}

#[test]
fn set_price_changes_listed_assets_only() {
    let (mut currency, registry, mut market) = world();
    mint_sample(&mut market, &mut currency, &registry, 42, 10);
    assert_eq!(market.set_nft_price(5, 42, 25), Err(MarketError::NotOwner));
    assert!(market.set_nft_price(1, 42, 25).is_ok());
    assert_eq!(market.token_by_id(42).unwrap().price, 25);
    assert_eq!(
        market.events.last(),
        Some(&MarketEvent::PriceSet { nft: 42, price: Some(25) })
    );
}

// An asset priced at 10 and still held by its issuing brand: a buyer with
// less than 10 in credit from that brand fails with InsufficientBalance
// and ownership does not change.
#[test]
fn redeem_needs_enough_credit() {
    let (mut currency, registry, mut market) = world();
    let mut ledger = TokenLedger::new();
    ledger.create_new_token(&mut currency, &registry, 1, b"PTS".to_vec(), 100, 12).unwrap();
    mint_sample(&mut market, &mut currency, &registry, 42, 10);

    ledger.earn(5, 7, 1, 0).unwrap();
    let r = market.redeem_nft(&mut ledger, 5, 42, 0);
    assert_eq!(r, Err(MarketError::InsufficientBalance));
    assert_eq!(market.token_by_id(42).unwrap().owner, 1);
    assert_eq!(ledger.cal_sum_balance(1, 5), 7);

    ledger.earn(5, 3, 1, 0).unwrap();
    assert!(market.redeem_nft(&mut ledger, 5, 42, 0).is_ok());
    let nft = market.token_by_id(42).unwrap();
    assert_eq!(nft.owner, 5);
    assert_eq!(nft.price, 0);
    assert_eq!(ledger.cal_sum_balance(1, 5), 0);
    // the spent credit returned to the brand pool
    assert_eq!(ledger.brand_token_by_id(1).unwrap().amount, 100);
}

#[test]
fn redeem_is_for_primary_market_only() {
    let (mut currency, registry, mut market) = world();
    let mut ledger = TokenLedger::new();
    ledger.create_new_token(&mut currency, &registry, 1, b"PTS".to_vec(), 100, 12).unwrap();
    mint_sample(&mut market, &mut currency, &registry, 42, 10);
    // a listed asset that has already left its issuing brand
    let mut resold = market.token_by_id(42).unwrap().clone();
    resold.id = 43;
    resold.owner = 5;
    resold.price = 10;
    market.tokens.push((43, resold));
    ledger.earn(8, 50, 1, 0).unwrap();
    // owner 5 is not the creator: credit redemption is refused
    let r = market.redeem_nft(&mut ledger, 8, 43, 0);
    assert_eq!(r, Err(MarketError::Invalid));
}

#[test]
fn renew_pays_exact_fee_to_creator() {
    let (mut currency, registry, mut market) = world();
    mint_sample(&mut market, &mut currency, &registry, 42, 10);
    market.buy_nft(&mut currency, 5, 42).unwrap();
    let free_creator = currency.free_balance(1);
    let free_owner = currency.free_balance(5);

    assert_eq!(
        market.renew_nft(&mut currency, 5, 2, 4, 42, 99),
        Err(MarketError::NotPayExactAmount)
    );
    assert_eq!(market.renew_nft(&mut currency, 1, 2, 3, 42, 99), Err(MarketError::NotOwner));
    assert!(market.renew_nft(&mut currency, 5, 2, 3, 42, 99).is_ok());
    let nft = market.token_by_id(42).unwrap();
    assert_eq!(nft.expire, 2);
    assert_eq!(nft.renew_time, 99);
    assert_eq!(currency.free_balance(1), free_creator + 3);
    assert_eq!(currency.free_balance(5), free_owner - 3);
}

// One month of lifetime plus the seven-day grace period, in seconds.
const OVERDUE_AT: u64 = 2592000 + 604800 + 1;

#[test]
fn sweep_returns_overdue_assets() {
    let (mut currency, registry, mut market) = world();
    mint_sample(&mut market, &mut currency, &registry, 42, 10);
    mint_sample(&mut market, &mut currency, &registry, 43, 10);
    market.buy_nft(&mut currency, 5, 42).unwrap();
    market.buy_nft(&mut currency, 5, 43).unwrap();

    // not yet overdue: nothing happens
    let events_before = market.events.len();
    market.check_expire_nft(2592000).unwrap();
    assert_eq!(market.events.len(), events_before);
    assert_eq!(market.token_by_id(42).unwrap().owner, 5);

    market.check_expire_nft(OVERDUE_AT).unwrap();
    assert_eq!(market.token_by_id(42).unwrap().owner, 1);
    assert_eq!(market.token_by_id(43).unwrap().owner, 1);
    assert_eq!(market.events.len(), events_before + 2);
    assert_eq!(
        market.events[events_before..],
        [
            MarketEvent::ReturnedOverdueNFT { nft_id: 42 },
            MarketEvent::ReturnedOverdueNFT { nft_id: 43 },
        ]
    );
}

// Running the sweep twice in a row: the second run is a no-op, with no
// state change and no duplicate events.
#[test]
fn sweep_twice_is_a_no_op() {
    let (mut currency, registry, mut market) = world();
    mint_sample(&mut market, &mut currency, &registry, 42, 10);
    market.buy_nft(&mut currency, 5, 42).unwrap();

    market.check_expire_nft(OVERDUE_AT).unwrap();
    let owners: Vec<u64> = market.get_nfts().iter().map(|n| n.owner).collect();
    let events = market.events.len();

    market.check_expire_nft(OVERDUE_AT).unwrap();
    let owners_again: Vec<u64> = market.get_nfts().iter().map(|n| n.owner).collect();
    assert_eq!(owners, owners_again);
    assert_eq!(market.events.len(), events);
}

#[test]
fn sweep_spares_assets_still_with_their_brand() {
    let (mut currency, registry, mut market) = world();
    mint_sample(&mut market, &mut currency, &registry, 42, 10);
    market.check_expire_nft(OVERDUE_AT).unwrap();
    assert_eq!(market.token_by_id(42).unwrap().owner, 1);
    assert!(market.events.iter().all(|e| !matches!(e, MarketEvent::ReturnedOverdueNFT { .. })));
}

#[test]
fn scheduler_runs_the_sweep_on_schedule() {
    assert!(Scheduler::offchain_due(0));
    assert!(!Scheduler::offchain_due(1));
    assert!(Scheduler::offchain_due(288000));

    let (mut currency, registry, mut market) = world();
    mint_sample(&mut market, &mut currency, &registry, 42, 10);
    market.buy_nft(&mut currency, 5, 42).unwrap();

    let mut scheduler = Scheduler::new(600);
    assert!(scheduler.submit_number_unsigned(&mut market, 144000, OVERDUE_AT).is_ok());
    assert_eq!(scheduler.next_unsigned_at, 144600);
    assert_eq!(market.token_by_id(42).unwrap().owner, 1);
}

#[test]
fn burn_requires_brand_and_ownership() {
    let (mut currency, mut registry, mut market) = world();
    mint_sample(&mut market, &mut currency, &registry, 42, 10);
    assert_eq!(
        market.burn_nft(&mut currency, &registry, 5, 42),
        Err(MarketError::BrandNotExist)
    );
    registry.create_brand(5, b"other".to_vec()).unwrap();
    assert_eq!(market.burn_nft(&mut currency, &registry, 5, 42), Err(MarketError::NotOwner));
    let reserved = currency.reserved_balance(1);
    let deposit = market.token_by_id(42).unwrap().deposit;
    market.burn_nft(&mut currency, &registry, 1, 42).unwrap();
    assert!(market.token_by_id(42).is_none());
    assert_eq!(currency.reserved_balance(1), reserved - deposit);
}
