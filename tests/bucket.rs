use hb::bucket::{Acquire, BucketError, TokenBucket, NANOS_PER_SEC};

/// Takes one token, sleeping on a simulated clock; returns the time it was granted.
fn acquire_at(bucket: &mut TokenBucket, mut now: u64) -> u64 {
    loop {
        match bucket.try_acquire(now) {
            Acquire::Granted => return now,
            Acquire::Wait(d) => now += d,
        }
    }
}

#[test]
fn test_token_bucket_initialization_various_rates() {
    let bucket = TokenBucket::try_new(100, 1, 0).unwrap();
    assert_eq!(bucket.capacity(), 100);
    assert_eq!(bucket.tokens(), 0);

    let bucket = TokenBucket::try_new(5, 1, 0).unwrap();
    assert_eq!(bucket.capacity(), 5);
    assert_eq!(bucket.tokens(), 0);

    let bucket = TokenBucket::try_new(1000, 1, 0).unwrap();
    assert_eq!(bucket.capacity(), 1000);
    assert_eq!(bucket.tokens(), 0);

    let bucket = TokenBucket::try_new(100, 4, 0).unwrap();
    assert_eq!(bucket.capacity(), 25);
    assert_eq!(bucket.tokens(), 0);
}

#[test]
fn test_token_bucket_error_cases_extended() {
    assert!(TokenBucket::try_new(100, 0, 0).is_err());

    assert!(TokenBucket::try_new(5, 10, 0).is_err());
    assert!(TokenBucket::try_new(1, 2, 0).is_err());
    assert!(TokenBucket::try_new(99, 100, 0).is_err());

    assert!(TokenBucket::try_new(100, 100, 0).is_ok());
    assert!(TokenBucket::try_new(1, 1, 0).is_ok());
}

#[test]
fn test_token_bucket_refill() {
    let mut bucket = TokenBucket::try_new(10, 1, 0).unwrap();
    bucket.update(0);

    // After 0.1 s one token has accrued and is taken at once.
    let t = 100_000_000;
    assert_eq!(bucket.try_acquire(t), Acquire::Granted);
    assert!(bucket.tokens() >= 0 && bucket.tokens() <= (NANOS_PER_SEC / 10) as i128);

    let mut now = t;
    for _ in 0..1 {
        now = acquire_at(&mut bucket, now);
    }
    assert!(bucket.tokens() < (NANOS_PER_SEC / 10) as i128);
}

#[test]
fn bucket_rejects_bad_rates() {
    assert_eq!(TokenBucket::try_new(0, 1, 0).err(), Some(BucketError::RpsBelowClients));
    assert_eq!(TokenBucket::try_new(0, 0, 0).err(), Some(BucketError::NoClients));
    assert_eq!(TokenBucket::try_new(3, 4, 0).err(), Some(BucketError::RpsBelowClients));
}

#[test]
fn bucket_clock_starts_at_construction() {
    let mut b = TokenBucket::try_new(1, 1, 5 * NANOS_PER_SEC).unwrap();
    assert_eq!(b.try_acquire(5 * NANOS_PER_SEC), Acquire::Wait(NANOS_PER_SEC));
    assert_eq!(b.try_acquire(6 * NANOS_PER_SEC), Acquire::Granted);
}

#[test]
fn bucket_capacity_truncates() {
    let b = TokenBucket::try_new(100, 3, 0).unwrap();
    assert_eq!(b.capacity(), 33);
    assert_eq!(b.fill_rate(), 33);
    assert_eq!(b.tokens(), 0);
}

#[test]
fn empty_bucket_asks_to_wait_one_interval() {
    let mut b = TokenBucket::try_new(4, 1, 0).unwrap();
    b.update(1_000);
    assert_eq!(b.try_acquire(1_000), Acquire::Wait(NANOS_PER_SEC / 4));
    assert_eq!(b.tokens(), 0);
}

#[test]
fn waiting_one_interval_grants_without_blocking() {
    let mut b = TokenBucket::try_new(20, 2, 0).unwrap();
    b.update(5_000);
    let interval = NANOS_PER_SEC / b.fill_rate();
    assert_eq!(b.try_acquire(5_000 + interval), Acquire::Granted);
}

#[test]
fn refill_is_capped_at_capacity() {
    let mut b = TokenBucket::try_new(2, 1, 0).unwrap();
    b.update(0);
    assert_eq!(b.try_acquire(100 * NANOS_PER_SEC), Acquire::Granted);
    assert_eq!(b.tokens(), NANOS_PER_SEC as i128);
    assert_eq!(b.try_acquire(100 * NANOS_PER_SEC), Acquire::Granted);
    assert_eq!(b.tokens(), 0);
    assert_eq!(
        b.try_acquire(100 * NANOS_PER_SEC),
        Acquire::Wait(NANOS_PER_SEC / 2)
    );
}

#[test]
fn update_discards_idle_time() {
    let mut b = TokenBucket::try_new(1, 1, 0).unwrap();
    b.update(10 * NANOS_PER_SEC);
    assert_eq!(b.try_acquire(10 * NANOS_PER_SEC), Acquire::Wait(NANOS_PER_SEC));
}
