use url_shortener::store::{get_redis_service, RedisService};

#[test]
fn test_redis_service_set_then_get() {
    let mut redis_service = RedisService::new();

    let test_key = "test_key_1";
    let test_value = "test_value_1";

    let set_result = redis_service.set(test_key, test_value, Some(60 * 60 * 24));
    assert!(set_result, "Key should have been set successfully");

    let retrieved_value = redis_service.get(test_key);
    assert_eq!(
        retrieved_value,
        Some(test_value.to_string()),
        "Retrieved value doesn't match set value"
    );
}

#[test]
fn test_redis_service_get_nonexistent_key() {
    let redis_service = RedisService::new();

    let nonexistent_key = "nonexistent_key_123";

    let retrieved_value = redis_service.get(nonexistent_key);
    assert_eq!(
        retrieved_value, None,
        "Non-existent key should return None"
    );
}

#[test]
fn test_redis_service_set_nx_prevents_overwrite() {
    let mut redis_service = RedisService::new();

    let test_key = "test_key_nx";
    let first_value = "first_value";
    let second_value = "second_value";

    let first_set_result = redis_service.set(test_key, first_value, Some(60 * 60 * 24));
    assert!(first_set_result, "First key should have been set successfully");

    let first_get_result = redis_service.get(test_key);
    assert_eq!(first_get_result, Some(first_value.to_string()));

    let second_set_result = redis_service.set(test_key, second_value, Some(60 * 60 * 24));
    assert!(
        !second_set_result,
        "Second set should return false due to the conditional write preventing overwrite"
    );

    let final_get_result = redis_service.get(test_key);
    assert_eq!(
        final_get_result,
        Some(first_value.to_string()),
        "First value should still be there"
    );
}

#[test]
fn test_redis_service_ttl_functionality() {
    let mut redis_service = RedisService::new();

    let test_key = "test_key_ttl";
    let test_value = "test_value_ttl";
    let ttl_seconds: u64 = 1;

    let set_result = redis_service.set(test_key, test_value, Some(ttl_seconds));
    assert!(set_result, "Key should have been set successfully");

    let immediate_get = redis_service.get(test_key);
    assert_eq!(immediate_get, Some(test_value.to_string()));

    // Let the clock pass the time-to-live.
    redis_service.advance_clock(ttl_seconds + 1);

    let expired_get = redis_service.get(test_key);
    assert_eq!(expired_get, None, "Expired key should return None");
}

#[test]
fn mapping_without_ttl_never_expires() {
    let mut redis_service = RedisService::new();

    assert!(redis_service.set("durable", "value", None));
    redis_service.advance_clock(u64::MAX);
    assert_eq!(redis_service.get("durable"), Some("value".to_string()));
}

#[test]
fn expired_key_can_be_written_again() {
    let mut redis_service = RedisService::new();

    assert!(redis_service.set("reused", "first", Some(1)));
    redis_service.advance_clock(2);
    assert_eq!(redis_service.get("reused"), None);

    assert!(
        redis_service.set("reused", "second", Some(1)),
        "an expired key is free to be reused by an unrelated mapping"
    );
    assert_eq!(redis_service.get("reused"), Some("second".to_string()));
}

#[test]
fn cleanup_empties_the_store() {
    let mut redis_service = get_redis_service();

    assert!(redis_service.set("a", "1", None));
    assert!(redis_service.set("b", "2", Some(60)));

    redis_service.cleanup();

    assert_eq!(redis_service.get("a"), None);
    assert_eq!(redis_service.get("b"), None);
}

#[test]
fn get_on_empty_store_is_absence_not_an_error() {
    let redis_service = get_redis_service();

    assert_eq!(redis_service.get("nonexistent"), None);
}
