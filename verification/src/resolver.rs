//! Collision resolution and redirect resolution: the bounded retry protocol
//! that commits a unique short code through the store's atomic conditional
//! write, and the lookup that takes a code back to its URL.

use vstd::prelude::*;
use vstd::string::StringExecFns;

use crate::slug::{base62_of, generate_random_code, get_url_slug, slug_spec};
use crate::store::{
    table_after_write, table_lookup, MappingData, RedisService,
};

verus! {

/// The time-to-live of every committed mapping, in seconds: one day.
pub const MAPPING_TTL_SECONDS: u64 = 60 * 60 * 24;

/// What one conditional write of a candidate code reported.
#[derive(Clone, Copy, PartialEq, Eq, Debug)]
pub enum WriteOutcome {
    /// The key was absent: the candidate is committed.
    Stored,
    /// The key already held a live mapping: a collision.
    KeyExists,
    /// The store itself failed; not a collision, never retried.
    StoreFailed,
}

/// Why a shorten request failed.
#[derive(PartialEq, Eq, Debug)]
pub enum ShortenError {
    /// Every attempt collided; carries how many attempts were made and the
    /// URL the request was for.
    CollisionExhausted { attempts: u32, url: String },
    /// The store reported a failure; surfaced as-is, never masked as a
    /// collision.
    StoreUnavailable,
}

/// Where the protocol stands after one conditional write.
#[derive(PartialEq, Eq, Debug)]
pub enum ShortenProgress {
    /// The candidate was committed: the request is done, this is its code.
    Committed(String),
    /// A collision, with attempts left: retry, carrying the next attempt
    /// number.
    Retry(u32),
    /// The request failed, terminally.
    Rejected(ShortenError),
}

/// The decision the protocol takes at attempt `attempt` once the write of
/// `candidate` reports `outcome`: success is terminal; a collision is
/// retried while attempts remain and is exhaustion at the last one; a store
/// failure is terminal and is never treated as a collision.
pub open spec fn shorten_step_spec(
    candidate: String,
    url: String,
    attempt: u32,
    max_attempts: u32,
    outcome: WriteOutcome,
) -> ShortenProgress {
    match outcome {
        WriteOutcome::Stored => ShortenProgress::Committed(candidate),
        WriteOutcome::KeyExists => if attempt < max_attempts {
            ShortenProgress::Retry((attempt + 1) as u32)
        } else {
            ShortenProgress::Rejected(
                ShortenError::CollisionExhausted { attempts: attempt, url },
            )
        },
        WriteOutcome::StoreFailed => ShortenProgress::Rejected(ShortenError::StoreUnavailable),
    }
}

/// One step of the collision-resolution protocol, as a pure decision: a
/// driver issues the conditional write, reports its outcome here, and
/// performs what the answer says. Within one request the attempt counter
/// only moves forward, one write at a time.
pub fn shorten_step(
    candidate: String,
    url: String,
    attempt: u32,
    max_attempts: u32,
    outcome: WriteOutcome,
) -> (r: ShortenProgress)
    requires
        1 <= attempt <= max_attempts,
    ensures
        r == shorten_step_spec(candidate, url, attempt, max_attempts, outcome),
{
    match outcome {
        WriteOutcome::Stored => ShortenProgress::Committed(candidate),
        WriteOutcome::KeyExists => {
            if attempt < max_attempts {
                ShortenProgress::Retry(attempt + 1)
            } else {
                ShortenProgress::Rejected(
                    ShortenError::CollisionExhausted { attempts: attempt, url },
                )
            }
        },
        WriteOutcome::StoreFailed => ShortenProgress::Rejected(ShortenError::StoreUnavailable),
    }
}

/// Where the protocol ends when, from attempt `attempt` on, every
/// conditional write reports an existing key.
pub open spec fn run_all_collisions(
    candidate: String,
    url: String,
    attempt: u32,
    max_attempts: u32,
) -> ShortenProgress
    decreases max_attempts - attempt,
{
    if 1 <= attempt <= max_attempts {
        match shorten_step_spec(candidate, url, attempt, max_attempts, WriteOutcome::KeyExists) {
            ShortenProgress::Retry(next) => run_all_collisions(candidate, url, next, max_attempts),
            p => p,
        }
    } else {
        arbitrary()
    }
}

/// Bounded exhaustion: driving the protocol from attempt `attempt` with
/// every conditional write reporting an existing key walks each remaining
/// attempt exactly once and ends in collision exhaustion that carries the
/// full attempt count and the original URL. Started at the first attempt,
/// that is exactly `max_attempts` attempts.
pub proof fn lemma_bounded_exhaustion(
    candidate: String,
    url: String,
    attempt: u32,
    max_attempts: u32,
)
    requires
        1 <= attempt <= max_attempts,
    ensures
        run_all_collisions(candidate, url, attempt, max_attempts)
            == ShortenProgress::Rejected(
                ShortenError::CollisionExhausted { attempts: max_attempts, url },
            ),
    decreases max_attempts - attempt,
{
    if attempt < max_attempts {
        lemma_bounded_exhaustion(candidate, url, (attempt + 1) as u32, max_attempts);
    }
}

/// A candidate code for `url`: the bare checksum fragment (the first
/// attempt), or the checksum fragment with some base62-rendered 32-bit
/// draw appended (every later attempt).
pub open spec fn is_candidate(code: Seq<char>, url: Seq<char>) -> bool {
    ||| code == slug_spec(url, Seq::<char>::empty())
    ||| exists|n: u32| code == slug_spec(url, base62_of(n as nat))
}

/// Shortens `url`: tries up to `max_attempts` candidate codes, committing
/// one through the store's atomic conditional write — the deterministic
/// fragment first, then diversified candidates with a fresh random suffix
/// per retry. On success exactly the returned code was written, mapped to
/// `url` for `MAPPING_TTL_SECONDS`; on exhaustion the store is untouched
/// and the error carries the attempt count and the URL. Success is owed
/// whenever the deterministic fragment is free in the store: the first
/// attempt then commits it.
pub fn shorten(
    store: &mut RedisService,
    rng: &mut rand::rngs::SmallRng,
    url: &String,
    max_attempts: u32,
) -> (r: Result<String, ShortenError>)
    requires
        old(store).well_formed(),
        max_attempts >= 1,
    ensures
        final(store).well_formed(),
        final(store).clock() == old(store).clock(),
        table_lookup(
            old(store).mappings(),
            old(store).clock(),
            slug_spec(url@, Seq::<char>::empty()),
        ) is None ==> r is Ok,
        match r {
            Result::Ok(code) => {
                &&& is_candidate(code@, url@)
                &&& table_lookup(old(store).mappings(), old(store).clock(), code@) is None
                &&& final(store).mappings() == table_after_write(
                    old(store).mappings(),
                    old(store).clock(),
                    code@,
                    url@,
                    Option::Some(MAPPING_TTL_SECONDS),
                )
            },
            Result::Err(e) => {
                &&& final(store).mappings() == old(store).mappings()
                &&& e matches ShortenError::CollisionExhausted { attempts, url: failed }
                    && attempts == max_attempts && failed@ == url@
            },
        },
{
    let mut attempt: u32 = 1;
    loop
        invariant
            store.well_formed(),
            store.clock() == old(store).clock(),
            store.mappings() == old(store).mappings(),
            1 <= attempt <= max_attempts,
            attempt > 1 ==> !(table_lookup(
                old(store).mappings(),
                old(store).clock(),
                slug_spec(url@, Seq::<char>::empty()),
            ) is None),
        decreases max_attempts - attempt,
    {
        let candidate: String;
        if attempt == 1 {
            candidate = get_url_slug(url.clone(), Option::None);
        } else {
            let suffix = generate_random_code(rng);
            let ghost sfx: Seq<char> = suffix@;
            candidate = get_url_slug(url.clone(), Option::Some(suffix));
            proof {
                let n = choose|n: u32| sfx == base62_of(n as nat);
                assert(candidate@ == slug_spec(url@, base62_of(n as nat)));
            }
        }
        let wrote = store.set(
            candidate.as_str(),
            url.as_str(),
            Option::Some(MAPPING_TTL_SECONDS),
        );
        let outcome = if wrote {
            WriteOutcome::Stored
        } else {
            WriteOutcome::KeyExists
        };
        match shorten_step(candidate, url.clone(), attempt, max_attempts, outcome) {
            ShortenProgress::Committed(code) => {
                return Result::Ok(code);
            },
            ShortenProgress::Retry(next_attempt) => {
                attempt = next_attempt;
            },
            ShortenProgress::Rejected(e) => {
                return Result::Err(e);
            },
        }
    }
}

/// Looks a short code up in the store and answers the original URL, or
/// absence when no live mapping holds the code (never created, or
/// expired). No mutation; absence is an ordinary answer, not an error.
pub fn resolve(store: &RedisService, code: &str) -> (r: Option<String>)
    requires
        store.well_formed(),
    ensures
        r.deep_view() == table_lookup(store.mappings(), store.clock(), code@),
{
    store.get(code)
}

/// Round trip: a code the collision resolver commits for `url` resolves to
/// exactly `url` at that same instant.
pub proof fn lemma_round_trip(
    table: Map<Seq<char>, MappingData>,
    now: u64,
    code: Seq<char>,
    url: Seq<char>,
)
    requires
        table_lookup(table, now, code) is None,
        now < u64::MAX,
    ensures
        table_lookup(
            table_after_write(table, now, code, url, Option::Some(MAPPING_TTL_SECONDS)),
            now,
            code,
        ) == Option::Some(url),
{
}

/// Composes the short URL the service hands back: `{domain}/{code}`.
pub fn compose_short_url(domain: &str, code: &str) -> (r: String)
    ensures
        r@ == domain@ + seq!['/'] + code@,
{
    let mut composed = domain.to_owned();
    composed.append("/");
    composed.append(code);
    proof {
        reveal_strlit("/");
        assert(("/")@ =~= seq!['/']);
    }
    composed
}

} // verus!
