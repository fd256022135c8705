use kangc::arena::{AllocStep, Arena};

/// Plays the system's part: a request that needs a chunk gets one at `data`.
fn take(a: &mut Arena, step: AllocStep, size: usize, align: usize, data: usize) -> usize {
    match step {
        AllocStep::Placed(p) => p,
        AllocStep::NeedChunk(n) => a.grow(data, n, size, align),
    }
}

#[test]
fn alloc_returns_non_null() {
    let mut a = Arena::new();
    let step = a.k_arena_alloc(16);
    assert!(matches!(step, AllocStep::NeedChunk(65536)));
    let p = take(&mut a, step, 16, 8, 0x10000);
    assert!(p != 0);
    a.k_arena_reset();
}

#[test]
fn multiple_allocs_return_distinct_pointers() {
    let mut a = Arena::new();
    let s1 = a.k_arena_alloc(32);
    let p1 = take(&mut a, s1, 32, 8, 0x20000);
    let s2 = a.k_arena_alloc(32);
    let p2 = take(&mut a, s2, 32, 8, 0x40000);
    assert!(p1 != p2);
    let diff = if p1 > p2 { p1 - p2 } else { p2 - p1 };
    assert!(diff >= 32);
    a.k_arena_reset();
}

#[test]
fn alloc_aligned_respects_alignment() {
    let mut a = Arena::new();
    let s = a.k_arena_alloc_aligned(8, 16);
    let p = take(&mut a, s, 8, 16, 0x1008);
    assert_eq!(p % 16, 0);
    assert_eq!(p, 0x1010);
    a.k_arena_reset();
}

#[test]
fn reset_allows_reallocation() {
    let mut a = Arena::new();
    let s1 = a.k_arena_alloc(128);
    let p1 = take(&mut a, s1, 128, 8, 0x8000);
    assert!(p1 != 0);
    assert_eq!(a.k_arena_reset(), vec![(0x8000, 65536)]);
    let s2 = a.k_arena_alloc(128);
    assert!(matches!(s2, AllocStep::NeedChunk(65536)));
    let p2 = take(&mut a, s2, 128, 8, 0x30000);
    assert!(p2 != 0);
    a.k_arena_reset();
}

#[test]
fn large_allocation_exceeds_chunk() {
    let mut a = Arena::new();
    let s = a.k_arena_alloc(128 * 1024);
    assert!(matches!(s, AllocStep::NeedChunk(n) if n == 128 * 1024 + 8 + 1024));
    let p = take(&mut a, s, 128 * 1024, 8, 0x100000);
    assert!(p != 0);
    assert!(p + 128 * 1024 - 1 < 0x100000 + 128 * 1024 + 8 + 1024);
    a.k_arena_reset();
}

#[test]
fn arena_places_in_order_then_takes_a_new_chunk() {
    let mut a = Arena::new();
    let s = a.k_arena_alloc(10);
    assert_eq!(take(&mut a, s, 10, 8, 0x4000), 0x4000);
    // 10 bytes used: the next 8-aligned address is 0x4010
    assert!(matches!(a.k_arena_alloc(4), AllocStep::Placed(0x4010)));
    assert!(matches!(a.k_arena_alloc_aligned(1, 64), AllocStep::Placed(0x4040)));
    // 0x4041 .. 0x14000 is left: 65471 bytes, not enough for 65472 on 8
    let big = a.k_arena_alloc(65472);
    assert!(matches!(big, AllocStep::NeedChunk(65536)));
    let p = take(&mut a, big, 65472, 8, 0x20000);
    assert_eq!(p, 0x20000);
    assert!(matches!(a.k_arena_alloc(64), AllocStep::Placed(0x2ffc0)));
    assert_eq!(a.k_arena_reset(), vec![(0x20000, 65536), (0x4000, 65536)]);
}

#[test]
fn arena_zero_bytes_on_an_empty_arena_is_placed_at_zero() {
    let mut a = Arena::new();
    assert!(matches!(a.k_arena_alloc(0), AllocStep::Placed(0)));
    assert!(matches!(a.k_arena_alloc(1), AllocStep::NeedChunk(65536)));
    assert_eq!(a.k_arena_reset(), vec![]);
}
