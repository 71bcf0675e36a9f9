use brand_ledger::currency::Currency;
use brand_ledger::ids::gen_id;
use brand_ledger::ids::id_from_bytes;
use brand_ledger::registry::BrandRegistry;
use brand_ledger::registry::Error as RegistryError;
use brand_ledger::token::Amount;
use brand_ledger::token::Error as TokenError;
use brand_ledger::token::Event as TokenEvent;
use brand_ledger::token::TokenLedger;

fn world_with_brand(brand: u64, funds: u64) -> (Currency, BrandRegistry) {
    let mut currency = Currency::new();
    currency.endow(brand, funds);
    let mut registry = BrandRegistry::new();
    registry.create_brand(brand, b"acme".to_vec()).unwrap();
    (currency, registry)
}

#[test]
fn create_brand_and_look_it_up() {
    let mut registry = BrandRegistry::new();
    assert!(registry.create_brand(7, b"acme".to_vec()).is_ok());
    let brand = registry.brand_by_id(7).unwrap();
    assert_eq!(brand.name, b"acme".to_vec());
    assert!(registry.brand_by_id(8).is_none());
}

#[test]
fn duplicate_brand_name_is_refused() {
    let mut registry = BrandRegistry::new();
    registry.create_brand(1, b"acme".to_vec()).unwrap();
    let r = registry.create_brand(2, b"acme".to_vec());
    assert_eq!(r, Err(RegistryError::BrandNameExisted));
    assert!(registry.brand_by_id(2).is_none());
}

#[test]
fn remove_brand_requires_one() {
    let mut registry = BrandRegistry::new();
    assert_eq!(registry.remove_brand(3), Err(RegistryError::ThisUserNotCreatedBrandBefore));
    registry.create_brand(3, b"zenith".to_vec()).unwrap();
    assert!(registry.remove_brand(3).is_ok());
    assert!(registry.brand_by_id(3).is_none());
}

#[test]
fn currency_reserve_and_transfer() {
    let mut currency = Currency::new();
    currency.endow(1, 100);
    currency.endow(2, 50);
    assert!(currency.reserve(1, 60));
    assert_eq!(currency.free_balance(1), 40);
    assert_eq!(currency.reserved_balance(1), 60);
    assert!(!currency.reserve(1, 41));
    currency.unreserve(1, 1000);
    assert_eq!(currency.free_balance(1), 100);
    assert_eq!(currency.reserved_balance(1), 0);
    assert!(currency.transfer(1, 2, 30));
    assert_eq!(currency.free_balance(1), 70);
    assert_eq!(currency.free_balance(2), 80);
    assert!(!currency.transfer(1, 2, 71));
}

#[test]
fn create_token_requires_brand_and_funds() {
    let mut currency = Currency::new();
    let registry = BrandRegistry::new();
    let mut ledger = TokenLedger::new();
    let r = ledger.create_new_token(&mut currency, &registry, 1, b"PTS".to_vec(), 100, 12);
    assert_eq!(r, Err(TokenError::BrandNotExist));

    let (mut currency, registry) = world_with_brand(1, 40);
    let r = ledger.create_new_token(&mut currency, &registry, 1, b"PTS".to_vec(), 100, 12);
    assert_eq!(r, Err(TokenError::InsufficientBalance));
    assert!(ledger.brand_token_by_id(1).is_none());
}

#[test]
fn create_token_stakes_and_registers() {
    let (mut currency, registry) = world_with_brand(1, 500);
    let mut ledger = TokenLedger::new();
    assert!(ledger.create_new_token(&mut currency, &registry, 1, b"PTS".to_vec(), 100, 12).is_ok());
    let token = ledger.brand_token_by_id(1).unwrap();
    assert_eq!(token.amount, 100);
    assert_eq!(token.staked, 100);
    assert_eq!(token.default_lifetime, 12);
    assert_eq!(token.symbol, b"PTS".to_vec());
    assert_eq!(currency.free_balance(1), 400);
    assert_eq!(currency.reserved_balance(1), 100);
    let r = ledger.create_new_token(&mut currency, &registry, 1, b"PTS".to_vec(), 10, 1);
    assert_eq!(r, Err(TokenError::AlreadyCreatedToken));
}

#[test]
fn mint_and_burn_move_stake_and_pool_together() {
    let (mut currency, registry) = world_with_brand(1, 500);
    let mut ledger = TokenLedger::new();
    ledger.create_new_token(&mut currency, &registry, 1, b"PTS".to_vec(), 100, 12).unwrap();
    assert!(ledger.mint(&mut currency, 1, 50).is_ok());
    let token = ledger.brand_token_by_id(1).unwrap();
    assert_eq!((token.amount, token.staked), (150, 150));
    assert_eq!(currency.reserved_balance(1), 150);

    assert_eq!(ledger.burn(&mut currency, 1, 200), Err(TokenError::InsufficientAmount));
    assert!(ledger.burn(&mut currency, 1, 150).is_ok());
    let token = ledger.brand_token_by_id(1).unwrap();
    assert_eq!((token.amount, token.staked), (0, 0));
    assert_eq!(currency.reserved_balance(1), 0);
    assert_eq!(currency.free_balance(1), 500);

    assert_eq!(ledger.mint(&mut currency, 9, 5), Err(TokenError::BrandTokenNotFound));
    assert_eq!(ledger.burn(&mut currency, 9, 5), Err(TokenError::BrandTokenNotFound));
}

#[test]
fn earn_moves_pool_into_credit() {
    let (mut currency, registry) = world_with_brand(1, 500);
    let mut ledger = TokenLedger::new();
    ledger.create_new_token(&mut currency, &registry, 1, b"PTS".to_vec(), 100, 12).unwrap();
    assert_eq!(ledger.earn(5, 200, 1, 0), Err(TokenError::InsufficientAmount));
    assert_eq!(ledger.earn(5, 10, 9, 0), Err(TokenError::BrandTokenNotFound));
    assert!(ledger.earn(5, 40, 1, 7).is_ok());
    assert_eq!(ledger.brand_token_by_id(1).unwrap().amount, 60);
    assert_eq!(ledger.brand_token_by_id(1).unwrap().staked, 100);
    let book = ledger.utxo(1, 5).unwrap();
    assert_eq!(book.len(), 1);
    assert_eq!(book[0], Amount { amount: 40, issued_date: 7 });
    assert_eq!(ledger.cal_sum_balance(1, 5), 40);
    assert_eq!(
        ledger.events.last(),
        Some(&TokenEvent::Earned { amount: 40, issued_date: 7 })
    );
}

// Brand B creates a token with stake 100; B earns 40 to holder H; a spend
// of 50 fails for insufficient balance; a spend of 40 clears the entries
// and returns the brand pool to 100.
#[test]
fn earn_and_spend_round_trip() {
    let (mut currency, registry) = world_with_brand(1, 500);
    let mut ledger = TokenLedger::new();
    ledger.create_new_token(&mut currency, &registry, 1, b"PTS".to_vec(), 100, 12).unwrap();
    ledger.earn(5, 40, 1, 0).unwrap();
    assert_eq!(ledger.brand_token_by_id(1).unwrap().amount, 60);

    assert_eq!(ledger.do_transfer(5, 1, 1, 50, 0), Err(TokenError::InsufficientBalance));
    assert_eq!(ledger.brand_token_by_id(1).unwrap().amount, 60);
    assert_eq!(ledger.cal_sum_balance(1, 5), 40);

    assert!(ledger.do_transfer(5, 1, 1, 40, 0).is_ok());
    assert_eq!(ledger.brand_token_by_id(1).unwrap().amount, 100);
    assert_eq!(ledger.brand_token_by_id(1).unwrap().staked, 100);
    assert_eq!(ledger.cal_sum_balance(1, 5), 0);
    assert_eq!(ledger.utxo(1, 5).unwrap().len(), 0);
}

// Entries of 5, 5, 5 issued at three times; spending 7 consumes the first
// entirely and the second in part, leaving (3, 5).
#[test]
fn spend_consumes_oldest_first() {
    let (mut currency, registry) = world_with_brand(1, 500);
    let mut ledger = TokenLedger::new();
    ledger.create_new_token(&mut currency, &registry, 1, b"PTS".to_vec(), 100, 12).unwrap();
    ledger.earn(5, 5, 1, 10).unwrap();
    ledger.earn(5, 5, 1, 20).unwrap();
    ledger.earn(5, 5, 1, 30).unwrap();

    assert!(ledger.do_transfer(5, 1, 1, 7, 30).is_ok());
    let book = ledger.utxo(1, 5).unwrap();
    assert_eq!(book.len(), 2);
    assert_eq!(book[0], Amount { amount: 3, issued_date: 20 });
    assert_eq!(book[1], Amount { amount: 5, issued_date: 30 });
    assert_eq!(ledger.brand_token_by_id(1).unwrap().amount, 100 - 15 + 7);
}

// An entry older than the token lifetime is reclaimed to the brand and
// never counted toward a spend: the spend fails even though the raw sum
// would have covered it.
#[test]
fn expired_credit_is_not_spendable() {
    let (mut currency, registry) = world_with_brand(1, 500);
    let mut ledger = TokenLedger::new();
    // one-month lifetime: 2592000 seconds
    ledger.create_new_token(&mut currency, &registry, 1, b"PTS".to_vec(), 100, 1).unwrap();
    ledger.earn(5, 10, 1, 0).unwrap();
    let now = 2592000;
    ledger.earn(5, 5, 1, now).unwrap();

    // raw sum is 15, spendable only 5
    assert_eq!(ledger.cal_sum_balance(1, 5), 15);
    assert_eq!(ledger.do_transfer(5, 1, 1, 8, now), Err(TokenError::InsufficientBalance));
    // the failed spend left everything in place
    assert_eq!(ledger.cal_sum_balance(1, 5), 15);
    assert_eq!(ledger.brand_token_by_id(1).unwrap().amount, 85);

    // a spend within the live credit reclaims the expired entry too
    assert!(ledger.do_transfer(5, 1, 1, 5, now).is_ok());
    assert_eq!(ledger.brand_token_by_id(1).unwrap().amount, 100);
    assert_eq!(ledger.utxo(1, 5).unwrap().len(), 0);
}

#[test]
fn spend_against_tokenless_brand_is_not_supported() {
    let mut ledger = TokenLedger::new();
    assert_eq!(ledger.do_transfer(5, 2, 2, 0, 0), Err(TokenError::NotSupportedYet));
}

#[test]
fn balance_conversions_are_exact() {
    assert_eq!(brand_ledger::market::u8_to_balance(7), 7u64);
    assert_eq!(brand_ledger::market::u32_to_balance(70_000), 70_000u64);
    assert_eq!(brand_ledger::market::balance_to_u8(255), 255u8);
    assert_eq!(brand_ledger::market::balance_to_u32(70_000), 70_000u32);
    assert_eq!(brand_ledger::token::u32_to_balance(9), 9u64);
}

#[test]
fn byte_helpers_compare_and_copy() {
    let a = b"acme".to_vec();
    let b = b"acme".to_vec();
    let c = b"acm".to_vec();
    assert!(brand_ledger::bytes_equal(&a, &b));
    assert!(!brand_ledger::bytes_equal(&a, &c));
    assert_eq!(brand_ledger::bytes_clone(&a), a);
}

#[test]
fn identifiers_read_little_endian() {
    let mut bytes = [0u8; 16];
    bytes[0] = 1;
    assert_eq!(id_from_bytes(&bytes), 1);
    let mut bytes = [0u8; 16];
    bytes[1] = 1;
    assert_eq!(id_from_bytes(&bytes), 256);
    bytes[15] = 2;
    assert_eq!(id_from_bytes(&bytes), 256 + (2u128 << 120));
}

#[test]
fn generated_ids_hash_the_payload() {
    let entropy = vec![9u8; 32];
    let id = gen_id(&entropy, 3, 70);
    let mut payload = entropy.clone();
    payload.extend_from_slice(&3u32.to_le_bytes());
    payload.extend_from_slice(&70u64.to_le_bytes());
    assert_eq!(id, sp_crypto_hashing::blake2_128(&payload));
    // a different entropy gives a different identifier
    let other = gen_id(&vec![8u8; 32], 3, 70);
    assert_ne!(id, other);
}
