use exchange_bot::money::{Amount8Decimals, Price4Decimals};
use exchange_bot::signing::{
    bitrue_order_params, bitrue_signature, build_query, generate_echostr, lbank_order_params, lbank_signature,
    push_query_param, BitrueClient, LBankClient,
};
use exchange_bot::types::{Direction, Exchange, PendingLimitOrder, PendingMarketOrder, PendingOrder};
use hmac::Mac;

fn market(direction: Direction) -> PendingOrder {
    PendingOrder::Market(PendingMarketOrder {
        exchange: Exchange::Bitrue,
        direction,
        amount: Amount8Decimals::from_units(150000000),
        expected_return: Amount8Decimals::from_units(0),
    })
}

fn limit(direction: Direction) -> PendingOrder {
    PendingOrder::Limit(PendingLimitOrder {
        exchange: Exchange::LBank,
        direction,
        amount: Amount8Decimals::from_units(200000000),
        price: Price4Decimals::from_units(12500),
    })
}

fn hmac_hex(key: &[u8], msg: &[u8]) -> String {
    let mut mac = hmac::Hmac::<sha2::Sha256>::new_from_slice(key).unwrap();
    mac.update(msg);
    hex::encode(mac.finalize().into_bytes())
}

#[test]
fn query_params_join() {
    let mut q = String::new();
    push_query_param(&mut q, "a", "1");
    assert_eq!(q, "a=1");
    push_query_param(&mut q, "b", "x y");
    assert_eq!(q, "a=1&b=x y");
    let params = vec![("k".to_string(), "v".to_string()), ("z".to_string(), "".to_string())];
    assert_eq!(build_query(&params), "k=v&z=");
    assert_eq!(build_query(&Vec::new()), "");
}

#[test]
fn bitrue_params_in_key_order() {
    let q = build_query(&bitrue_order_params(&market(Direction::Sell), 1700000000123));
    assert_eq!(q, "quantity=1.5&side=SELL&symbol=chatusdt&timestamp=1700000000123&type=MARKET");
    let q = build_query(&bitrue_order_params(&limit(Direction::Buy), 5));
    assert_eq!(q, "price=1.25&quantity=2&side=BUY&symbol=chatusdt&timestamp=5&type=LIMIT");
}

#[test]
fn lbank_params_in_key_order() {
    let q = build_query(&lbank_order_params(&market(Direction::Buy), "KEY", "00ff", 7));
    assert_eq!(q, "amount=1.5&api_key=KEY&echostr=00ff&signature_method=HmacSHA256&symbol=chat_usdt&timestamp=7&type=buy_market");
    let q = build_query(&lbank_order_params(&limit(Direction::Sell), "KEY", "00ff", 7));
    assert_eq!(
        q,
        "amount=2&api_key=KEY&echostr=00ff&price=1.25&signature_method=HmacSHA256&symbol=chat_usdt&timestamp=7&type=sell_maker"
    );
}

#[test]
fn bitrue_signature_is_hmac_sha256_hex() {
    let sig = bitrue_signature("key", "The quick brown fox jumps over the lazy dog");
    assert_eq!(sig, "f7bc83f430538424b13298e6aa6fb143ef4d59a14946175997479dbc2d1a3cd8");
}

#[test]
fn lbank_signature_signs_upper_md5() {
    let query = "The quick brown fox jumps over the lazy dog";
    let upper = "9E107D9D372BB6826BD81D3542A419D6";
    assert_eq!(format!("{:X}", md5::compute(query.as_bytes())), upper);
    assert_eq!(lbank_signature("secret", query), hmac_hex(b"secret", upper.as_bytes()));
}

#[test]
fn signed_queries_end_with_signature() {
    let client = BitrueClient::new("api".to_string(), "sec".to_string());
    let q = client.signed_order_query(&market(Direction::Buy), 9);
    let base = "quantity=1.5&side=BUY&symbol=chatusdt&timestamp=9&type=MARKET";
    assert_eq!(q, format!("{base}&signature={}", hmac_hex(b"sec", base.as_bytes())));

    let client = LBankClient::new("api".to_string(), "sec".to_string());
    let q = client.signed_order_query(&market(Direction::Sell), "ab", 9);
    let base = "amount=1.5&api_key=api&echostr=ab&signature_method=HmacSHA256&symbol=chat_usdt&timestamp=9&type=sell_market";
    let digest = format!("{:X}", md5::compute(base.as_bytes()));
    assert_eq!(q, format!("{base}&sign={}", hmac_hex(b"sec", digest.as_bytes())));
}

#[test]
fn echostr_is_sixteen_random_bytes_in_hex() {
    let a = generate_echostr();
    assert_eq!(a.len(), 32);
    assert!(a.chars().all(|c| c.is_ascii_digit() || ('a'..='f').contains(&c)));
    assert_ne!(a, generate_echostr());
}
