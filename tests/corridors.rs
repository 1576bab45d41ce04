use backend::corridor::{asset_pair_label, parse_asset_pair};
use backend::error::ApiError;

#[test]
fn test_parse_asset_pair_valid() {
    let asset_pair = "USDC:issuer1->EURC:issuer2";
    let result = parse_asset_pair(asset_pair);
    assert!(result.is_ok());

    let corridor_key = result.unwrap();
    assert!(corridor_key.contains("EURC:issuer2"));
    assert!(corridor_key.contains("USDC:issuer1"));
}

#[test]
fn test_parse_asset_pair_with_spaces() {
    let asset_pair = "USDC:issuer1 -> EURC:issuer2";
    let result = parse_asset_pair(asset_pair);
    assert!(result.is_ok());
}

#[test]
fn test_parse_asset_pair_invalid_format() {
    let asset_pair = "USDC-EURC";
    let result = parse_asset_pair(asset_pair);
    assert!(result.is_err());

    if let Err(ApiError::BadRequest(msg)) = result {
        assert!(msg.contains("Invalid asset pair format"));
    }
}

#[test]
fn test_parse_asset_pair_missing_issuer() {
    let asset_pair = "USDC->EURC:issuer2";
    let result = parse_asset_pair(asset_pair);
    assert!(result.is_err());

    if let Err(ApiError::BadRequest(msg)) = result {
        assert!(msg.contains("Invalid asset format"));
    }
}

#[test]
fn asset_pair_key_is_normalized() {
    let a = parse_asset_pair("USDC:issuer1->EURC:issuer2").unwrap();
    let b = parse_asset_pair("EURC:issuer2 -> USDC:issuer1").unwrap();
    assert_eq!(a, "EURC:issuer2->USDC:issuer1");
    assert_eq!(a, b);
}

#[test]
fn same_code_orders_by_issuer() {
    let k = parse_asset_pair("USDC:zeta->USDC:alpha").unwrap();
    assert_eq!(k, "USDC:alpha->USDC:zeta");
}

#[test]
fn two_arrows_are_refused() {
    match parse_asset_pair("A:1->B:2->C:3") {
        Err(ApiError::BadRequest(msg)) => assert!(msg.starts_with("Invalid asset pair format")),
        _ => panic!("expected a bad request"),
    }
}

#[test]
fn extra_colon_is_refused() {
    match parse_asset_pair("A:1:x->B:2") {
        Err(ApiError::BadRequest(msg)) => assert!(msg.starts_with("Invalid asset format")),
        _ => panic!("expected a bad request"),
    }
}

#[test]
fn asset_pair_label_joins_with_arrow() {
    assert_eq!(asset_pair_label("EURC", "issuer2", "USDC", "issuer1"), "EURC:issuer2 -> USDC:issuer1");
}

#[test]
fn api_error_status_codes() {
    assert_eq!(ApiError::NotFound("x".to_string()).status_code(), 404);
    assert_eq!(ApiError::BadRequest("x".to_string()).status_code(), 400);
    assert_eq!(ApiError::InternalError("boom".to_string()).status_code(), 500);
    assert_eq!(ApiError::InternalError("boom".to_string()).message(), "boom");
}
