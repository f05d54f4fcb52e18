//! Signed order requests of the venues' REST interfaces: the canonical query
//! of an order's parameters, in key order, and its signature.

use vstd::prelude::*;
use vstd::utf8::encode_utf8;

use crate::money::{decimal_string, decimal_text, format_decimal};
use crate::types::{Direction, PendingOrder};

verus! {

/// A hexadecimal digit, in lower or upper case.
pub open spec fn hex_digit(n: nat, upper: bool) -> char {
    if n < 10 {
        crate::money::digit_char(n)
    } else if n == 10 {
        if upper { 'A' } else { 'a' }
    } else if n == 11 {
        if upper { 'B' } else { 'b' }
    } else if n == 12 {
        if upper { 'C' } else { 'c' }
    } else if n == 13 {
        if upper { 'D' } else { 'd' }
    } else if n == 14 {
        if upper { 'E' } else { 'e' }
    } else {
        if upper { 'F' } else { 'f' }
    }
}

/// Two hexadecimal digits per byte, high half first.
pub open spec fn hex_text(b: Seq<u8>, upper: bool) -> Seq<char>
    decreases b.len(),
{
    if b.len() == 0 {
        Seq::empty()
    } else {
        hex_text(b.drop_last(), upper) + seq![hex_digit(b.last() as nat / 16, upper), hex_digit(b.last() as nat % 16, upper)]
    }
}

/// The HMAC-SHA256 tag of `message` under `key`.
pub uninterp spec fn hmac_sha256_of(key: Seq<u8>, message: Seq<u8>) -> Seq<u8>;

/// The MD5 digest of `data`.
pub uninterp spec fn md5_of(data: Seq<u8>) -> Seq<u8>;

/// Relies on hex::encode: two lowercase digits per byte, high half first.
#[verifier::external_body]
fn hex_lower(b: &[u8]) -> (r: String)
    ensures
        r@ == hex_text(b@, false),
{
    hex::encode(b)
}

/// Relies on hex::encode_upper: two uppercase digits per byte, high half first.
#[verifier::external_body]
fn hex_upper(b: &[u8]) -> (r: String)
    ensures
        r@ == hex_text(b@, true),
{
    hex::encode_upper(b)
}

/// Relies on hmac's `Hmac<sha2::Sha256>`: `new_from_slice` takes a key of any
/// length, and the 32-byte tag depends on key and message alone.
#[verifier::external_body]
fn hmac_sha256(key: &[u8], message: &[u8]) -> (r: Vec<u8>)
    ensures
        r@ == hmac_sha256_of(key@, message@),
        r@.len() == 32,
{
    let mut mac = <hmac::Hmac<sha2::Sha256> as hmac::Mac>::new_from_slice(key).unwrap();
    hmac::Mac::update(&mut mac, message);
    hmac::Mac::finalize(mac).into_bytes().to_vec()
}

/// Relies on md5::compute: the 16-byte digest depends on the data alone.
#[verifier::external_body]
fn md5_digest(data: &[u8]) -> (r: Vec<u8>)
    ensures
        r@ == md5_of(data@),
        r@.len() == 16,
{
    md5::compute(data).0.to_vec()
}

/// Relies on rand::random for sixteen random bytes.
#[verifier::external_body]
fn random_bytes16() -> (r: Vec<u8>)
    ensures
        r@.len() == 16,
{
    rand::random::<[u8; 16]>().to_vec()
}

/// `key=value`.
pub open spec fn param_text(p: (Seq<char>, Seq<char>)) -> Seq<char> {
    p.0 + seq!['='] + p.1
}

/// The parameters as `key=value` pairs joined by `&`, in the order given.
pub open spec fn query_text(params: Seq<(Seq<char>, Seq<char>)>) -> Seq<char>
    decreases params.len(),
{
    if params.len() == 0 {
        Seq::empty()
    } else if params.len() == 1 {
        param_text(params[0])
    } else {
        query_text(params.drop_last()) + seq!['&'] + param_text(params.last())
    }
}

/// Appends `key=value` to a query, after a `&` when the query is not empty.
pub fn push_query_param(q: &mut String, key: &str, value: &str)
    ensures
        old(q)@.len() == 0 ==> final(q)@ == key@ + seq!['='] + value@,
        old(q)@.len() > 0 ==> final(q)@ == old(q)@ + seq!['&'] + key@ + seq!['='] + value@,
{
    proof {
        reveal_strlit("&");
        reveal_strlit("=");
    }
    let empty = q.unicode_len() == 0;
    if !empty {
        q.append("&");
    }
    q.append(key);
    q.append("=");
    q.append(value);
}

/// The canonical query of the parameters, which must have non-empty keys.
pub fn build_query(params: &Vec<(String, String)>) -> (r: String)
    requires
        forall|i: int| 0 <= i < params@.len() ==> (#[trigger] params@[i]).0@.len() > 0,
    ensures
        r@ == query_text(pair_views(params@)),
{
    let mut q = String::new();
    let mut i: usize = 0;
    while i < params.len()
        invariant
            i <= params@.len(),
            forall|j: int| 0 <= j < params@.len() ==> (#[trigger] params@[j]).0@.len() > 0,
            q@ == query_text(pair_views(params@.take(i as int))),
            i > 0 ==> q@.len() > 0,
            i == 0 ==> q@.len() == 0,
        decreases params@.len() - i,
    {
        let p = &params[i];
        proof {
            let t = pair_views(params@.take(i + 1));
            assert(t.drop_last() =~= pair_views(params@.take(i as int)));
            assert(t.last() == (params@[i as int].0@, params@[i as int].1@));
            assert(params@[i as int].0@.len() > 0);
        }
        push_query_param(&mut q, p.0.as_str(), p.1.as_str());
        proof {
            if i == 0 {
                assert(pair_views(params@.take(1))[0] == (params@[0].0@, params@[0].1@));
            }
        }
        i = i + 1;
    }
    assert(params@.take(params@.len() as int) =~= params@);
    q
}

fn param(key: &str, value: String) -> (r: (String, String))
    ensures
        r.0@ == key@,
        r.1@ == value@,
{
    (String::from_str(key), value)
}

pub open spec fn pair_views(params: Seq<(String, String)>) -> Seq<(Seq<char>, Seq<char>)> {
    params.map_values(|p: (String, String)| (p.0@, p.1@))
}

/// The parameters of a Bitrue order request, in key order.
pub open spec fn bitrue_params(order: PendingOrder, timestamp_ms: nat) -> Seq<(Seq<char>, Seq<char>)> {
    let quantity = ("quantity"@, format_decimal(order.spec_amount()@, 8));
    let side = ("side"@, if order.spec_direction() == Direction::Buy { "BUY"@ } else { "SELL"@ });
    let symbol = ("symbol"@, "chatusdt"@);
    let timestamp = ("timestamp"@, decimal_string(timestamp_ms));
    match order {
        PendingOrder::Limit(o) => seq![
            ("price"@, format_decimal(o.price@, 4)),
            quantity,
            side,
            symbol,
            timestamp,
            ("type"@, "LIMIT"@),
        ],
        PendingOrder::Market(_) => seq![quantity, side, symbol, timestamp, ("type"@, "MARKET"@)],
    }
}

/// The LBank order type: maker for limit orders, market for market orders.
pub open spec fn lbank_type(order: PendingOrder) -> Seq<char> {
    match order {
        PendingOrder::Limit(o) => if o.direction == Direction::Buy { "buy_maker"@ } else { "sell_maker"@ },
        PendingOrder::Market(o) => if o.direction == Direction::Buy { "buy_market"@ } else { "sell_market"@ },
    }
}

/// The parameters of an LBank order request, in key order.
pub open spec fn lbank_params(order: PendingOrder, api_key: Seq<char>, echostr: Seq<char>, timestamp_ms: nat) -> Seq<(Seq<char>, Seq<char>)> {
    let head = seq![
        ("amount"@, format_decimal(order.spec_amount()@, 8)),
        ("api_key"@, api_key),
        ("echostr"@, echostr),
    ];
    let tail = seq![
        ("signature_method"@, "HmacSHA256"@),
        ("symbol"@, "chat_usdt"@),
        ("timestamp"@, decimal_string(timestamp_ms)),
        ("type"@, lbank_type(order)),
    ];
    match order {
        PendingOrder::Limit(o) => head + seq![("price"@, format_decimal(o.price@, 4))] + tail,
        PendingOrder::Market(_) => head + tail,
    }
}


/// Every key is non-empty.
pub open spec fn keys_nonempty(params: Seq<(String, String)>) -> bool {
    forall|i: int| 0 <= i < params.len() ==> (#[trigger] params[i]).0@.len() > 0
}

proof fn lemma_key_literals()
    ensures
        "amount"@.len() > 0,
        "api_key"@.len() > 0,
        "echostr"@.len() > 0,
        "price"@.len() > 0,
        "quantity"@.len() > 0,
        "side"@.len() > 0,
        "signature_method"@.len() > 0,
        "symbol"@.len() > 0,
        "timestamp"@.len() > 0,
        "type"@.len() > 0,
{
    reveal_strlit("amount");
    reveal_strlit("api_key");
    reveal_strlit("echostr");
    reveal_strlit("price");
    reveal_strlit("quantity");
    reveal_strlit("side");
    reveal_strlit("signature_method");
    reveal_strlit("symbol");
    reveal_strlit("timestamp");
    reveal_strlit("type");
}

/// The parameters of a Bitrue order request, in key order.
pub fn bitrue_order_params(order: &PendingOrder, timestamp_ms: u128) -> (r: Vec<(String, String)>)
    ensures
        pair_views(r@) == bitrue_params(*order, timestamp_ms as nat),
        keys_nonempty(r@),
{
    proof {
        lemma_key_literals();
    }
    let mut params: Vec<(String, String)> = Vec::new();
    if let PendingOrder::Limit(o) = order {
        params.push(param("price", o.price.to_string()));
    }
    params.push(param("quantity", order.amount().to_string()));
    let side = if order.direction().is_buy() {
        "BUY"
    } else {
        "SELL"
    };
    params.push(param("side", String::from_str(side)));
    params.push(param("symbol", String::from_str("chatusdt")));
    params.push(param("timestamp", decimal_text(timestamp_ms)));
    let kind = match order {
        PendingOrder::Limit(_) => "LIMIT",
        PendingOrder::Market(_) => "MARKET",
    };
    params.push(param("type", String::from_str(kind)));
    assert(pair_views(params@) =~= bitrue_params(*order, timestamp_ms as nat));
    params
}

/// The parameters of an LBank order request, in key order.
pub fn lbank_order_params(order: &PendingOrder, api_key: &str, echostr: &str, timestamp_ms: u128) -> (r: Vec<(String, String)>)
    ensures
        pair_views(r@) == lbank_params(*order, api_key@, echostr@, timestamp_ms as nat),
        keys_nonempty(r@),
{
    proof {
        lemma_key_literals();
    }
    let mut params: Vec<(String, String)> = Vec::new();
    params.push(param("amount", order.amount().to_string()));
    params.push(param("api_key", String::from_str(api_key)));
    params.push(param("echostr", String::from_str(echostr)));
    if let PendingOrder::Limit(o) = order {
        params.push(param("price", o.price.to_string()));
    }
    params.push(param("signature_method", String::from_str("HmacSHA256")));
    params.push(param("symbol", String::from_str("chat_usdt")));
    params.push(param("timestamp", decimal_text(timestamp_ms)));
    let kind = match order {
        PendingOrder::Limit(o) => if o.direction.is_buy() {
            "buy_maker"
        } else {
            "sell_maker"
        },
        PendingOrder::Market(o) => if o.direction.is_buy() {
            "buy_market"
        } else {
            "sell_market"
        },
    };
    params.push(param("type", String::from_str(kind)));
    assert(pair_views(params@) =~= lbank_params(*order, api_key@, echostr@, timestamp_ms as nat));
    params
}

/// Sixteen random bytes in lowercase hex, the nonce of an LBank request.
pub fn generate_echostr() -> (r: String)
    ensures
        exists|b: Seq<u8>| b.len() == 16 && r@ == hex_text(b, false),
{
    let bytes = random_bytes16();
    hex_lower(bytes.as_slice())
}

/// The Bitrue signature of a query: HMAC-SHA256 under the secret, in
/// lowercase hex.
pub fn bitrue_signature(secret_key: &str, query: &str) -> (r: String)
    ensures
        r@ == hex_text(hmac_sha256_of(encode_utf8(secret_key@), encode_utf8(query@)), false),
{
    let tag = hmac_sha256(secret_key.as_bytes(), query.as_bytes());
    hex_lower(tag.as_slice())
}

/// The LBank signature of a query: the MD5 digest of the query in uppercase
/// hex, then HMAC-SHA256 of that text under the secret, in lowercase hex.
pub fn lbank_signature(secret_key: &str, query: &str) -> (r: String)
    ensures
        r@ == hex_text(
            hmac_sha256_of(encode_utf8(secret_key@), encode_utf8(hex_text(md5_of(encode_utf8(query@)), true))),
            false,
        ),
{
    let digest = md5_digest(query.as_bytes());
    let digest_text = hex_upper(digest.as_slice());
    let tag = hmac_sha256(secret_key.as_bytes(), digest_text.as_str().as_bytes());
    hex_lower(tag.as_slice())
}

/// Credentials of the Bitrue REST interface and the signing of its orders.
pub struct BitrueClient {
    pub api_key: String,
    pub secret_key: String,
}

impl BitrueClient {
    pub fn new(api_key: String, secret_key: String) -> (r: BitrueClient)
        ensures
            r.api_key@ == api_key@,
            r.secret_key@ == secret_key@,
    {
        BitrueClient { api_key, secret_key }
    }

    /// The query of an order request placed at `timestamp_ms`, with its
    /// signature appended as `signature`.
    pub fn signed_order_query(&self, order: &PendingOrder, timestamp_ms: u128) -> (r: String)
        ensures
            ({
                let q = query_text(bitrue_params(*order, timestamp_ms as nat));
                r@ == q + seq!['&'] + "signature"@ + seq!['='] + hex_text(
                    hmac_sha256_of(encode_utf8(self.secret_key@), encode_utf8(q)),
                    false,
                )
            }),
    {
        let params = bitrue_order_params(order, timestamp_ms);
        let mut query = build_query(&params);
        let sig = bitrue_signature(self.secret_key.as_str(), query.as_str());
        proof {
            lemma_query_nonempty(params@);
        }
        push_query_param(&mut query, "signature", sig.as_str());
        query
    }
}

/// Credentials of the LBank REST interface and the signing of its orders.
pub struct LBankClient {
    pub api_key: String,
    pub secret_key: String,
}

impl LBankClient {
    pub fn new(api_key: String, secret_key: String) -> (r: LBankClient)
        ensures
            r.api_key@ == api_key@,
            r.secret_key@ == secret_key@,
    {
        LBankClient { api_key, secret_key }
    }

    /// The query of an order request with nonce `echostr` placed at
    /// `timestamp_ms`, with its signature appended as `sign`.
    pub fn signed_order_query(&self, order: &PendingOrder, echostr: &str, timestamp_ms: u128) -> (r: String)
        ensures
            ({
                let q = query_text(lbank_params(*order, self.api_key@, echostr@, timestamp_ms as nat));
                r@ == q + seq!['&'] + "sign"@ + seq!['='] + hex_text(
                    hmac_sha256_of(
                        encode_utf8(self.secret_key@),
                        encode_utf8(hex_text(md5_of(encode_utf8(q)), true)),
                    ),
                    false,
                )
            }),
    {
        let params = lbank_order_params(order, self.api_key.as_str(), echostr, timestamp_ms);
        let mut query = build_query(&params);
        let sig = lbank_signature(self.secret_key.as_str(), query.as_str());
        proof {
            lemma_query_nonempty(params@);
        }
        push_query_param(&mut query, "sign", sig.as_str());
        query
    }
}

proof fn lemma_query_nonempty(params: Seq<(String, String)>)
    requires
        params.len() > 0,
        keys_nonempty(params),
    ensures
        query_text(pair_views(params)).len() > 0,
{
    if params.len() == 1 {
        assert(params[0].0@.len() > 0);
        assert(pair_views(params)[0].0.len() > 0);
    }
}

} // verus!
