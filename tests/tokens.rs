use chrono::TimeZone;
use rhfs_core::claims::{AccessTokenClaims, Claims, RefreshTokenClaims};
use rhfs_core::codec::{EncDecPair, TokenError, TokensEncDec};
use rhfs_core::config::TokenSecretsConfig;
use rhfs_core::ids::Id;

fn utc(year: i32, month: u32, day: u32, h: u32, m: u32, s: u32) -> i64 {
    chrono::Utc.with_ymd_and_hms(year, month, day, h, m, s).unwrap().timestamp()
}

fn codecs() -> TokensEncDec {
    TokensEncDec::from_config(&TokenSecretsConfig::new(
        "access-secret-for-tests".to_string(),
        "refresh-secret-for-tests".to_string(),
    ))
}

#[test]
fn access_token_round_trip() {
    let c = codecs();
    let claims = AccessTokenClaims { sub: Id::from_u128(0x999_999), exp: utc(2100, 1, 1, 0, 0, 0), iat: utc(1900, 1, 1, 0, 0, 0) };
    let token = c.access.encoder.encode(&claims).unwrap();
    assert_eq!(token.matches('.').count(), 2);
    let back = c.access.decoder.decode(&token, utc(2000, 1, 1, 0, 0, 0)).unwrap();
    assert_eq!(back, claims);
    assert_eq!(back.sub().as_u128(), 0x999_999);
    assert_eq!(back.iat(), -2208988800);
    assert_eq!(back.exp(), 4102444800);
}

#[test]
fn refresh_token_round_trip() {
    let c = codecs();
    let claims = RefreshTokenClaims {
        sub: Id::from_u128(7),
        exp: 200,
        iat: 100,
        jti: Id::from_u128(u128::MAX),
        sid: Id::from_u128(0),
    };
    let token = c.refresh.encoder.encode(&claims).unwrap();
    let back = c.refresh.decoder.decode(&token, 150).unwrap();
    assert_eq!(back, claims);
    assert_eq!(back.jti().as_u128(), u128::MAX);
    assert_eq!(back.sid().as_u128(), 0);
}

#[test]
fn refresh_signed_token_refused_by_access_codec() {
    let c = codecs();
    let claims = AccessTokenClaims { sub: Id::from_u128(1), exp: utc(2999, 1, 1, 0, 0, 0), iat: utc(1900, 1, 1, 0, 0, 0) };
    let refresh_key_encoder = EncDecPair::<AccessTokenClaims>::from_secret("refresh-secret-for-tests").encoder;
    let token = refresh_key_encoder.encode(&claims).unwrap();
    assert_eq!(c.access.decoder.decode(&token, utc(2000, 1, 1, 0, 0, 0)), Err(TokenError::InvalidSignature));
    let refresh = RefreshTokenClaims { sub: Id::from_u128(1), exp: 10, iat: 1, jti: Id::from_u128(2), sid: Id::from_u128(3) };
    let token = c.refresh.encoder.encode(&refresh).unwrap();
    assert_eq!(c.access.decoder.decode(&token, 5), Err(TokenError::InvalidSignature));
}

#[test]
fn expiry_boundary_is_expired() {
    let pair: EncDecPair<AccessTokenClaims> = EncDecPair::from_secret("k");
    let claims = AccessTokenClaims { sub: Id::from_u128(5), exp: 1000, iat: 0 };
    let token = pair.encoder.encode(&claims).unwrap();
    assert_eq!(pair.decoder.decode(&token, 999), Ok(claims));
    assert_eq!(pair.decoder.decode(&token, 1000), Err(TokenError::Expired));
    assert_eq!(pair.decoder.decode(&token, 1001), Err(TokenError::Expired));
}

#[test]
fn expired_token_refused() {
    let c = codecs();
    let claims = AccessTokenClaims { sub: Id::from_u128(1), exp: utc(1999, 12, 31, 23, 59, 59), iat: utc(1900, 1, 1, 0, 0, 0) };
    let token = c.access.encoder.encode(&claims).unwrap();
    assert_eq!(c.access.decoder.decode(&token, utc(2000, 1, 1, 0, 0, 0)), Err(TokenError::Expired));
}

#[test]
fn malformed_tokens_refused() {
    let pair: EncDecPair<AccessTokenClaims> = EncDecPair::from_secret("k");
    assert_eq!(pair.decoder.decode("", 0), Err(TokenError::Malformed));
    assert_eq!(pair.decoder.decode("abc", 0), Err(TokenError::Malformed));
    assert_eq!(pair.decoder.decode("a.b", 0), Err(TokenError::Malformed));
    assert_eq!(pair.decoder.decode("a.b.c.d", 0), Err(TokenError::Malformed));
    assert_eq!(pair.decoder.decode("é.b.c", 0), Err(TokenError::Malformed));
    let claims = AccessTokenClaims { sub: Id::from_u128(5), exp: 1000, iat: 0 };
    let token = pair.encoder.encode(&claims).unwrap();
    let mut parts: Vec<&str> = token.split('.').collect();
    let sig = parts[2].to_string();
    parts[2] = &sig[..sig.len() - 1];
    let cut = parts.join(".");
    assert_eq!(pair.decoder.decode(&cut, 0), Err(TokenError::InvalidSignature));
}

#[test]
fn token_layout_is_standard() {
    let pair: EncDecPair<AccessTokenClaims> = EncDecPair::from_secret("k");
    let claims = AccessTokenClaims { sub: Id::from_u128(0xab), exp: 20, iat: -5 };
    let token = pair.encoder.encode(&claims).unwrap();
    let parts: Vec<&str> = token.split('.').collect();
    assert_eq!(parts[0], "eyJ0eXAiOiJKV1QiLCJhbGciOiJIUzUxMiJ9");
    assert_eq!(
        parts[1],
        "eyJzdWIiOiIwMDAwMDAwMDAwMDAwMDAwMDAwMDAwMDAwMDAwMDBhYiIsImV4cCI6MjAsImlhdCI6LTV9"
    );
    assert_eq!(parts[2].len(), 86);
    assert!(parts[2].bytes().all(|b| b.is_ascii_alphanumeric() || b == b'-' || b == b'_'));
}

#[test]
fn claims_are_read_in_any_order_and_spacing() {
    let text = b" {\n \"iat\" : -5 , \"extra\": \"x\",\"sub\":\"000000000000000000000000000000AB\" ,\t\"exp\":20 } ";
    let c = AccessTokenClaims::read_json(text).unwrap();
    assert_eq!(c, AccessTokenClaims { sub: Id::from_u128(0xab), exp: 20, iat: -5 });
    assert!(AccessTokenClaims::read_json(b"{\"sub\":\"000000000000000000000000000000ab\",\"exp\":20}").is_none());
    assert!(AccessTokenClaims::read_json(b"{\"sub\":\"ab\",\"exp\":20,\"iat\":1}").is_none());
    assert!(AccessTokenClaims::read_json(b"{\"sub\":\"000000000000000000000000000000ab\",\"exp\":\"20\",\"iat\":1}").is_none());
    assert!(AccessTokenClaims::read_json(b"{\"sub\":\"000000000000000000000000000000ab\",\"exp\":20,\"iat\":1} x").is_none());
    let r = RefreshTokenClaims::read_json(
        b"{\"sid\":\"00000000000000000000000000000003\",\"jti\":\"00000000000000000000000000000002\",\"iat\":1,\"exp\":9,\"sub\":\"00000000000000000000000000000001\"}",
    )
    .unwrap();
    assert_eq!(r.jti().as_u128(), 2);
    assert_eq!(r.sid().as_u128(), 3);
    let h = AccessTokenClaims::read_json(b"{\"sub\":\"67e55044-10b1-426f-9247-bb680e5fe0c8\",\"exp\":2,\"iat\":1}").unwrap();
    assert_eq!(h.sub().as_u128(), 0x67e5504410b1426f9247bb680e5fe0c8);
    assert!(AccessTokenClaims::read_json(b"{\"sub\":\"67e55044x10b1-426f-9247-bb680e5fe0c8\",\"exp\":2,\"iat\":1}").is_none());
}

#[test]
fn tokens_minted_elsewhere_with_the_same_key_verify() {
    let mut claims = std::collections::BTreeMap::new();
    claims.insert("sub".to_string(), serde_json::Value::from("0000000000000000000000000000abcd"));
    claims.insert("exp".to_string(), serde_json::Value::from(100i64));
    claims.insert("iat".to_string(), serde_json::Value::from(10i64));
    let token = jsonwebtoken::encode(
        &jsonwebtoken::Header::new(jsonwebtoken::Algorithm::HS512),
        &claims,
        &jsonwebtoken::EncodingKey::from_secret(b"shared"),
    )
    .unwrap();
    let pair: EncDecPair<AccessTokenClaims> = EncDecPair::from_secret("shared");
    assert_eq!(pair.decoder.decode(&token, 50), Ok(AccessTokenClaims { sub: Id::from_u128(0xabcd), exp: 100, iat: 10 }));
    assert_eq!(pair.decoder.decode(&token, 100), Err(TokenError::Expired));
}

#[test]
fn headers_with_more_members_verify() {
    let mut claims = std::collections::BTreeMap::new();
    claims.insert("sub".to_string(), serde_json::Value::from("00000000000000000000000000000007"));
    claims.insert("exp".to_string(), serde_json::Value::from(100i64));
    claims.insert("iat".to_string(), serde_json::Value::from(10i64));
    let mut header = jsonwebtoken::Header::new(jsonwebtoken::Algorithm::HS512);
    header.kid = Some("key-1".to_string());
    let token = jsonwebtoken::encode(&header, &claims, &jsonwebtoken::EncodingKey::from_secret(b"shared")).unwrap();
    let pair: EncDecPair<AccessTokenClaims> = EncDecPair::from_secret("shared");
    assert_eq!(pair.decoder.decode(&token, 50), Ok(AccessTokenClaims { sub: Id::from_u128(7), exp: 100, iat: 10 }));
    let other = jsonwebtoken::encode(
        &jsonwebtoken::Header::new(jsonwebtoken::Algorithm::HS256),
        &claims,
        &jsonwebtoken::EncodingKey::from_secret(b"shared"),
    )
    .unwrap();
    assert_eq!(pair.decoder.decode(&other, 50), Err(TokenError::InvalidSignature));
}
