use queue_drain::queue::{queue_payload, redis_url};

#[test]
fn payload_is_second_element() {
    let reply: Result<Vec<String>, redis::RedisError> =
        Ok(vec!["events_queue".to_string(), "the-payload".to_string()]);
    assert_eq!(queue_payload(reply), Some("the-payload".to_string()));
}

#[test]
fn short_reply_yields_nothing() {
    let reply: Result<Vec<String>, redis::RedisError> = Ok(vec!["events_queue".to_string()]);
    assert_eq!(queue_payload(reply), None);
    let empty: Result<Vec<String>, redis::RedisError> = Ok(vec![]);
    assert_eq!(queue_payload(empty), None);
}

#[test]
fn transport_error_yields_nothing() {
    let reply: Result<Vec<String>, redis::RedisError> =
        Err(redis::RedisError::from((redis::ErrorKind::UnexpectedReturnType, "boom")));
    assert_eq!(queue_payload(reply), None);
}

#[test]
fn url_wraps_the_host() {
    assert_eq!(redis_url("localhost"), "redis://localhost/");
    assert_eq!(redis_url("10.0.0.5:6379"), "redis://10.0.0.5:6379/");
}
