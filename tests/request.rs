use synapse::error::ApiError;
use synapse::request::parse_client_param;

#[test]
fn client_param_decimal() {
    assert_eq!(parse_client_param("100"), Ok(100));
    assert_eq!(parse_client_param("0"), Ok(0));
    assert_eq!(parse_client_param("+42"), Ok(42));
    assert_eq!(parse_client_param("007"), Ok(7));
    assert_eq!(
        parse_client_param("340282366920938463463374607431768211455"),
        Ok(u128::MAX)
    );
}

#[test]
fn client_param_malformed_is_bad_request() {
    assert_eq!(parse_client_param(""), Err(ApiError::BadRequest));
    assert_eq!(parse_client_param("+"), Err(ApiError::BadRequest));
    assert_eq!(parse_client_param("-1"), Err(ApiError::BadRequest));
    assert_eq!(parse_client_param("12a"), Err(ApiError::BadRequest));
    assert_eq!(parse_client_param(" 1"), Err(ApiError::BadRequest));
    assert_eq!(
        parse_client_param("340282366920938463463374607431768211456"),
        Err(ApiError::BadRequest)
    );
}

#[test]
fn client_param_agrees_with_std() {
    for s in ["1", "+9", "", "+", "x", "99999999999999999999999999999999999999999", "18446744073709551616"] {
        assert_eq!(parse_client_param(s).ok(), s.parse::<u128>().ok());
    }
}
