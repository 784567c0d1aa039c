use openkeyv::error::Error;
use openkeyv::store_config::StoreConfig;
use openkeyv::utils::retry::{Retry, RetryPolicy, RetryStep};
use openkeyv::utils::sanitize::{
    CharacterBlacklistStrategy, HashExcessLengthStrategy, PassthroughStrategy,
    SanitizationStrategy,
};
use openkeyv::utils::ttl::{millis_between, millis_to, now, prepare_entry_timestamps};
use openkeyv::value::json::Json;

#[test]
fn test_passthrough() {
    let s = PassthroughStrategy;
    assert!(s.validate("hello/world").is_ok());
    assert_eq!(s.sanitize("hello"), "hello");
}

#[test]
fn test_blacklist() {
    let s = CharacterBlacklistStrategy::new(vec!['/', '\\']);
    assert!(s.validate("hello/world").is_err());
    assert_eq!(s.sanitize("hello/world"), "helloworld");
}

#[test]
fn blacklist_names_the_first_offender_and_settles() {
    let s = CharacterBlacklistStrategy::new(vec!['/', '\\']);
    assert_eq!(
        s.validate("a\\b/c"),
        Err(Error::InvalidKey("character '\\' is not allowed".to_string()))
    );
    assert!(s.validate("abc").is_ok());
    assert_eq!(s.sanitize("abc"), "abc");
    let clean = s.sanitize("//值\\x");
    assert_eq!(clean, "值x");
    assert!(s.validate(&clean).is_ok());
    assert_eq!(s.sanitize(&clean), clean);
}

#[test]
fn excess_length_is_hashed() {
    let s = HashExcessLengthStrategy::new(4);
    assert_eq!(s.sanitize("abcd"), "abcd");
    let digest = blake3::hash(b"efgh").to_hex().to_string();
    assert_eq!(s.sanitize("abcdefgh"), format!("abcd_{digest}"));
    assert!(s.validate("x").is_ok());
    assert_eq!(
        s.validate(""),
        Err(Error::InvalidKey("empty value".to_string()))
    );
}

#[test]
fn test_prepare_entry_timestamps_no_ttl() {
    let (created, ttl, expires) = prepare_entry_timestamps(None);
    assert!(ttl.is_none());
    assert!(expires.is_none());
    let now = chrono::Utc::now().timestamp_millis();
    assert!(now - created < 1_000);
}

#[test]
fn test_prepare_entry_timestamps_with_ttl() {
    let (created, ttl, expires) = prepare_entry_timestamps(Some(10_000));
    assert_eq!(ttl, Some(10_000));
    assert!(expires.is_some());
    let diff = expires.unwrap() - created;
    assert!((diff - 10_000).abs() < 10);
}

#[test]
fn the_clock_is_the_machine_clock() {
    let before = chrono::Utc::now().timestamp_millis();
    let read = now();
    let after = chrono::Utc::now().timestamp_millis();
    assert!(before <= read && read <= after);
    assert_eq!(millis_to(0), 0);
    assert!(millis_to(read + 60_000) <= 60_000);
    assert_eq!(millis_between(1_500, 1_000), 500);
    assert_eq!(millis_between(1_000, 1_000), 0);
    assert_eq!(millis_between(i64::MAX, i64::MIN), u64::MAX);
}

#[test]
fn test_retry_success_on_second_attempt() {
    let mut retry = Retry::start(RetryPolicy {
        max_attempts: 3,
        base_delay_ms: 10,
        max_delay_ms: 100,
    });
    let mut count = 0;
    let result = loop {
        let outcome = if count == 0 { Err("fail") } else { Ok("success") };
        count += 1;
        match outcome {
            Ok(value) => break Ok(value),
            Err(error) => {
                if retry.after_failure(true) == RetryStep::GiveUp {
                    break Err(error);
                }
            }
        }
    };

    assert_eq!(result, Ok("success"));
    assert_eq!(count, 2);
}

#[test]
fn test_retry_gives_up() {
    let mut retry = Retry::start(RetryPolicy {
        max_attempts: 2,
        base_delay_ms: 1,
        max_delay_ms: 10,
    });
    let mut count = 0;
    let result: Result<&str, &str> = loop {
        count += 1;
        if retry.after_failure(true) == RetryStep::GiveUp {
            break Err("always fails");
        }
    };

    assert_eq!(result, Err("always fails"));
    assert_eq!(count, 2);
}

#[test]
fn delays_double_up_to_the_longest() {
    let mut retry = Retry::start(RetryPolicy {
        max_attempts: 6,
        base_delay_ms: 10,
        max_delay_ms: 55,
    });
    let mut delays = Vec::new();
    while let RetryStep::Wait(delay) = retry.after_failure(true) {
        delays.push(delay);
    }
    assert_eq!(delays, vec![10, 20, 40, 55, 55]);
}

#[test]
fn an_error_that_is_not_worth_it_ends_the_attempts() {
    let mut retry = Retry::start(RetryPolicy {
        max_attempts: 5,
        base_delay_ms: u64::MAX,
        max_delay_ms: 1,
    });
    assert_eq!(retry.after_failure(false), RetryStep::GiveUp);
    assert_eq!(retry.after_failure(true), RetryStep::Wait(1));
    assert_eq!(retry.after_failure(true), RetryStep::Wait(1));
}

#[test]
fn delays_stay_capped_however_many_attempts_there_are() {
    let mut retry = Retry::start(RetryPolicy {
        max_attempts: 67,
        base_delay_ms: 1,
        max_delay_ms: 1,
    });
    for _ in 0..66 {
        assert_eq!(retry.after_failure(true), RetryStep::Wait(1));
    }
    assert_eq!(retry.after_failure(true), RetryStep::GiveUp);
    let mut idle = Retry::start(RetryPolicy {
        max_attempts: 67,
        base_delay_ms: 0,
        max_delay_ms: u64::MAX,
    });
    for _ in 0..66 {
        assert_eq!(idle.after_failure(true), RetryStep::Wait(0));
    }
    let mut long = Retry::start(RetryPolicy {
        max_attempts: 67,
        base_delay_ms: 3,
        max_delay_ms: u64::MAX,
    });
    let mut delays = Vec::new();
    while let RetryStep::Wait(delay) = long.after_failure(true) {
        delays.push(delay);
    }
    assert_eq!(delays[62], 3 << 62);
    assert_eq!(delays[63], u64::MAX);
    assert_eq!(delays[65], u64::MAX);
}

#[test]
fn store_names_are_lower_case() {
    assert_eq!(StoreConfig::new("ReDiS-É", Json::Null).store, "redis-É");
    assert_eq!(StoreConfig::memory().store, "memory");
    assert_eq!(StoreConfig::memory().config, Json::Null);
    let redis = StoreConfig::redis(Json::Bool(true));
    assert_eq!(redis.store, "redis");
    assert_eq!(redis.config, Json::Bool(true));
}
