use rand::rngs::SmallRng;
use rand::SeedableRng;

use url_shortener::resolver::{
    compose_short_url, resolve, shorten, shorten_step, ShortenError, ShortenProgress,
    WriteOutcome, MAPPING_TTL_SECONDS,
};
use url_shortener::slug::{generate_random_code, get_url_slug};
use url_shortener::store::RedisService;

#[test]
fn shorten_then_resolve_round_trip() {
    let mut store = RedisService::new();
    let mut rng = SmallRng::seed_from_u64(1);
    let url = "https://example.com/very/long/url/that/needs/shortening".to_string();

    let code = shorten(&mut store, &mut rng, &url, 5).expect("an empty store accepts a code");

    assert_eq!(resolve(&store, &code), Some(url));
}

#[test]
fn shorten_retries_with_a_random_suffix_on_collision() {
    let mut store = RedisService::new();
    let mut rng = SmallRng::seed_from_u64(2);
    let url = "https://example.com/popular".to_string();

    // Occupy the deterministic first candidate with an unrelated mapping.
    let first_candidate = get_url_slug(url.clone(), None);
    assert!(store.set(&first_candidate, "https://elsewhere.example/", Some(MAPPING_TTL_SECONDS)));

    let code = shorten(&mut store, &mut rng, &url, 5).expect("a retry should find a free code");

    assert_ne!(code, first_candidate);
    assert!(
        code.starts_with(&first_candidate),
        "a diversified candidate keeps the deterministic fragment as its prefix"
    );
    assert_eq!(resolve(&store, &code), Some(url));
    assert_eq!(
        resolve(&store, &first_candidate),
        Some("https://elsewhere.example/".to_string()),
        "the occupied mapping is left untouched"
    );
}

#[test]
fn shorten_reports_exhaustion_when_the_only_attempt_collides() {
    let mut store = RedisService::new();
    let mut rng = SmallRng::seed_from_u64(3);
    let url = "https://example.com/contended".to_string();

    let first_candidate = get_url_slug(url.clone(), None);
    assert!(store.set(&first_candidate, "https://elsewhere.example/", Some(MAPPING_TTL_SECONDS)));

    let outcome = shorten(&mut store, &mut rng, &url, 1);

    assert_eq!(
        outcome,
        Err(ShortenError::CollisionExhausted {
            attempts: 1,
            url: url.clone(),
        })
    );
    assert_eq!(
        resolve(&store, &first_candidate),
        Some("https://elsewhere.example/".to_string()),
        "exhaustion leaves the store untouched"
    );
}

#[test]
fn forced_collisions_exhaust_after_exactly_five_attempts() {
    let url = "https://example.com/unlucky".to_string();
    let max_attempts: u32 = 5;

    let mut attempt: u32 = 1;
    let mut writes_issued: u32 = 0;
    let outcome = loop {
        // Every conditional write is forced to report an existing key.
        writes_issued += 1;
        let candidate = format!("candidate-{attempt}");
        match shorten_step(
            candidate,
            url.clone(),
            attempt,
            max_attempts,
            WriteOutcome::KeyExists,
        ) {
            ShortenProgress::Retry(next) => attempt = next,
            terminal => break terminal,
        }
    };

    assert_eq!(writes_issued, 5, "exactly five attempts are made");
    assert_eq!(
        outcome,
        ShortenProgress::Rejected(ShortenError::CollisionExhausted { attempts: 5, url })
    );
}

#[test]
fn a_store_failure_is_terminal_and_not_a_collision() {
    let progress = shorten_step(
        "candidate".to_string(),
        "https://example.com/x".to_string(),
        1,
        5,
        WriteOutcome::StoreFailed,
    );

    assert_eq!(
        progress,
        ShortenProgress::Rejected(ShortenError::StoreUnavailable)
    );
}

#[test]
fn an_accepted_write_commits_the_candidate() {
    let progress = shorten_step(
        "candidate".to_string(),
        "https://example.com/x".to_string(),
        3,
        5,
        WriteOutcome::Stored,
    );

    assert_eq!(progress, ShortenProgress::Committed("candidate".to_string()));
}

#[test]
fn composed_short_url_joins_domain_and_code() {
    let short = compose_short_url("https://short.me", "2dHrrE");
    assert_eq!(short, "https://short.me/2dHrrE");
}

#[test]
fn test_url_shortening_flow() {
    let mut store = RedisService::new();

    let target_url = "https://httpbin.org/get";

    let shortened_url = get_url_slug(
        target_url.to_string(),
        Some(generate_random_code(&mut SmallRng::from_os_rng())),
    );

    assert!(!shortened_url.contains(target_url));

    let save_result = store.set(&shortened_url, target_url, Some(60 * 60 * 24));
    assert!(save_result, "Key should have been set successfully");

    let retrieved_url = store.get(shortened_url.as_str());
    assert_eq!(retrieved_url, Some(target_url.to_string()));
}

#[test]
fn test_url_shortening_with_different_urls() {
    let mut store = RedisService::new();

    let test_urls = vec![
        "https://httpbin.org/get",
        "https://httpbin.org/status/200",
        "https://httpbin.org/headers",
    ];

    for test_url in test_urls {
        let shortened_url = get_url_slug(
            test_url.to_string(),
            Some(generate_random_code(&mut SmallRng::from_os_rng())),
        );

        let save_result = store.set(&shortened_url, test_url, Some(60 * 60 * 24));
        assert!(save_result, "Key should have been set successfully");

        let retrieved_url = store.get(shortened_url.as_str());
        assert_eq!(retrieved_url, Some(test_url.to_string()));
    }
}

#[test]
fn test_nonexistent_short_url() {
    let store = RedisService::new();

    let retrieved_url = resolve(&store, "nonexistent");
    assert_eq!(retrieved_url, None);
}
