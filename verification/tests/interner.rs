use doggo_core::interner::StringPool;

#[test]
fn round_trip_returns_the_interned_content() {
    let mut pool = StringPool::new();
    let h = pool.acquire(String::from("hello world")).unwrap();
    assert_eq!(h.get(&pool).as_str(), "hello world");
}

#[test]
fn equal_content_yields_equal_handles() {
    let mut pool = StringPool::new();
    let h1 = pool.acquire(String::from("path/to/thing")).unwrap();
    let h2 = pool.acquire(String::from("path/to/thing")).unwrap();
    assert_eq!(h1, h2);
    assert_eq!(h1.get(&pool).as_str(), "path/to/thing");
}

#[test]
fn distinct_content_yields_distinct_handles() {
    let mut pool = StringPool::new();
    let h1 = pool.acquire(String::from("alpha")).unwrap();
    let h2 = pool.acquire(String::from("beta")).unwrap();
    assert_ne!(h1, h2);
    assert_eq!(h1.get(&pool).as_str(), "alpha");
    assert_eq!(h2.get(&pool).as_str(), "beta");
}

#[test]
fn claims_keep_a_slot_alive_until_the_last_release() {
    let mut pool = StringPool::new();
    // Two acquisitions of one content share a slot and count two claims.
    let h1 = pool.acquire(String::from("shared")).unwrap();
    let h2 = pool.acquire(String::from("shared")).unwrap();
    assert_eq!(h1, h2);
    // Releasing one claim must not free the slot: a fresh content may not
    // move into it.
    pool.release(h1);
    let other = pool.acquire(String::from("other")).unwrap();
    assert_ne!(other, h2);
    assert_eq!(h2.get(&pool).as_str(), "shared");
    // Releasing the last claim frees the slot; the next new content may
    // reuse the index, and this pool does so.
    pool.release(h2);
    let reused = pool.acquire(String::from("newcomer")).unwrap();
    assert_eq!(reused.get(&pool).as_str(), "newcomer");
}

#[test]
fn reacquired_content_does_not_collide_with_live_handles() {
    let mut pool = StringPool::new();
    let gone = pool.acquire(String::from("gone")).unwrap();
    let kept = pool.acquire(String::from("kept")).unwrap();
    pool.release(gone);
    // The freed index may be reused for different content...
    let fresh = pool.acquire(String::from("fresh")).unwrap();
    // ...but never the slot of still-live content.
    assert_ne!(fresh, kept);
    assert_eq!(kept.get(&pool).as_str(), "kept");
    assert_eq!(fresh.get(&pool).as_str(), "fresh");
    // Acquiring "gone" again lands on a slot of its own as well.
    let back = pool.acquire(String::from("gone")).unwrap();
    assert_ne!(back, kept);
    assert_ne!(back, fresh);
    assert_eq!(back.get(&pool).as_str(), "gone");
}

#[test]
fn clone_reference_counts_a_claim() {
    let mut pool = StringPool::new();
    let h = pool.acquire(String::from("cloned")).unwrap();
    let c = pool.clone_ref(&h).unwrap();
    assert_eq!(c, h);
    pool.release(h);
    // The clone's claim still holds the slot.
    assert_eq!(c.get(&pool).as_str(), "cloned");
    pool.release(c);
    let reused = pool.acquire(String::from("replacement")).unwrap();
    assert_eq!(reused.get(&pool).as_str(), "replacement");
}
