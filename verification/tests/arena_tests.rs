use argus::arena::TickArena;

#[test]
fn test_arena_alloc() {
    let mut arena = TickArena::new(1024);
    let slice = arena.alloc_bytes(16, 8);
    assert_eq!(slice.len(), 16);

    // Write to it
    slice.copy_from_slice(&[1u8; 16]);

    arena.reset();

    // Allocate again
    let slice2 = arena.alloc_bytes(32, 8);
    assert_eq!(slice2.len(), 32);
}

#[test]
fn arena_aligns_relative_to_its_start() {
    let mut arena = TickArena::new(16);
    assert_eq!(arena.alloc_bytes(3, 1).len(), 3);
    // The next 8-aligned start is offset 8: 8 bytes fit, 9 do not.
    assert!(arena.fits(8, 8));
    assert!(!arena.fits(9, 8));
    assert!(arena.fits(13, 1));
    assert!(!arena.fits(14, 1));
    let region = arena.alloc_bytes(8, 8);
    assert_eq!(region.len(), 8);
    assert!(!arena.fits(1, 1));
    assert!(arena.fits(0, 1));
    arena.reset();
    assert!(arena.fits(16, 16));
}

#[test]
fn arena_regions_do_not_share_bytes() {
    let mut arena = TickArena::new(64);
    arena.alloc_bytes(4, 4).copy_from_slice(&[7u8; 4]);
    let second = arena.alloc_bytes(4, 4);
    // Fresh bytes: the second region does not see what was written to the first.
    assert_eq!(second, &[0u8; 4]);
    second.copy_from_slice(&[9u8; 4]);
    let third = arena.alloc_bytes(2, 2);
    assert_eq!(third, &[0u8; 2]);
}

#[test]
fn arena_reset_reuses_the_buffer() {
    let mut arena = TickArena::new(8);
    arena.alloc_bytes(8, 1).copy_from_slice(&[5u8; 8]);
    assert!(!arena.fits(1, 1));
    arena.reset();
    // The same bytes are handed out again.
    assert_eq!(arena.alloc_bytes(8, 1), &[5u8; 8]);
}
