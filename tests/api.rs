use torn_key_pool::decode::{decode_error, error_from_fields, starts_with_error_envelope};
use torn_key_pool::error::{ApiError, PoolError};
use torn_key_pool::request::{authorization, ApiRequest};
use torn_key_pool::retry::{next_step, step_after, AttemptOutcome, RetryStep};
use torn_key_pool::schema::EnumVariantTupleValue;

#[test]
fn api_error_codes_round_trip() {
    for code in 0..40u16 {
        assert_eq!(ApiError::new(code, "m").code(), code);
    }
    assert_eq!(ApiError::new(2, "x"), ApiError::IncorrectKey);
    assert_eq!(ApiError::new(24, "x"), ApiError::ClosedTemporarily);
    assert_eq!(
        ApiError::new(25, "new"),
        ApiError::Other { code: 25, message: "new".to_owned() }
    );
}

#[test]
fn url_joins_parameters() {
    let mut req = ApiRequest::new("/user/basic".to_owned());
    assert_eq!(req.url(), "https://api.torn.com/v2/user/basic?");
    req.push_parameter("a".to_owned(), "1".to_owned());
    req.push_parameter("b".to_owned(), "two".to_owned());
    assert_eq!(req.url(), "https://api.torn.com/v2/user/basic?a=1&b=two");
}

#[test]
fn authorization_header() {
    assert_eq!(authorization("ABC"), "ApiKey ABC");
}

#[test]
fn decode_error_envelope() {
    let body = br#"{"error":{"code":7,"error":"Incorrect ID-entity relation"}}"#;
    assert_eq!(
        decode_error(body),
        Ok(Some(ApiError::IncorrectIdEntityRelation))
    );
    let body = br#"{"error":{"code":99,"error":"brand new"}}"#;
    assert_eq!(
        decode_error(body),
        Ok(Some(ApiError::Other { code: 99, message: "brand new".to_owned() }))
    );
}

#[test]
fn decode_payload_is_not_an_error() {
    assert_eq!(decode_error(br#"{"name":"x"}"#), Ok(None));
    assert_eq!(decode_error(b""), Ok(None));
}

#[test]
fn decode_malformed_envelope() {
    assert!(matches!(decode_error(br#"{"error":{"code":"#), Err(PoolError::Parsing(_))));
    assert!(matches!(
        decode_error(br#"{"error":{"message":"no code"}}"#),
        Err(PoolError::Parsing(_))
    ));
    assert!(matches!(
        decode_error(br#"{"error":{"code":70000,"error":"big"}}"#),
        Err(PoolError::Parsing(_))
    ));
}

#[test]
fn envelope_prefix() {
    assert!(starts_with_error_envelope(br#"{"error":{"code":1}}"#));
    assert!(!starts_with_error_envelope(br#"{"error": {"code":1}}"#));
    assert!(!starts_with_error_envelope(b"{\"err"));
}

#[test]
fn fields_to_error() {
    assert_eq!(error_from_fields(5, "slow"), Ok(ApiError::TooManyRequest));
    assert!(matches!(error_from_fields(65_536, "x"), Err(PoolError::Parsing(_))));
}

#[test]
fn retry_steps() {
    assert_eq!(step_after(AttemptOutcome::Committed, 3), RetryStep::Done);
    assert_eq!(step_after(AttemptOutcome::Conflict, 3), RetryStep::RetryAfter(3));
    assert_eq!(
        next_step(AttemptOutcome::Failed("disk".to_owned())),
        RetryStep::Fail(PoolError::Storage("disk".to_owned()))
    );
    for _ in 0..200 {
        match next_step(AttemptOutcome::Conflict) {
            RetryStep::RetryAfter(d) => assert!((1..50).contains(&d)),
            other => panic!("unexpected {:?}", other),
        }
    }
}

#[test]
fn schema_reference_name() {
    let v = EnumVariantTupleValue::Ref("#/components/schemas/UserBasic".to_owned());
    assert_eq!(v.name(), Some("UserBasic"));
    let v = EnumVariantTupleValue::Ref("#/definitions/UserBasic".to_owned());
    assert_eq!(v.name(), None);
}
