use quar_engine::memory::arena::{ArenaVec, FixedVec, FrameArena};

#[test]
fn test_frame_arena_creation() {
    let arena = FrameArena::new(1024);
    assert_eq!(arena.capacity(), 1024);
    assert_eq!(arena.used(), 0);
}

#[test]
fn test_frame_arena_alloc() {
    let mut arena = FrameArena::new(1024);

    let vec1: Option<ArenaVec<u32>> = arena.allocate(10);
    assert!(vec1.is_some());

    let vec = vec1.unwrap();
    assert_eq!(vec.capacity(), 10);
    assert_eq!(vec.len(), 0);
    assert!(arena.used() >= 40);
}

#[test]
fn test_frame_arena_reset() {
    let mut arena = FrameArena::new(1024);

    let _: Option<ArenaVec<u32>> = arena.allocate(10);
    assert!(arena.used() > 0);

    arena.reset();
    assert_eq!(arena.used(), 0);
}

#[test]
fn test_frame_arena_high_water_mark() {
    let mut arena = FrameArena::new(1024);

    let _: Option<ArenaVec<u32>> = arena.allocate(10);
    let hwm1 = arena.high_water_mark();

    arena.reset();
    assert_eq!(arena.high_water_mark(), hwm1);

    let _: Option<ArenaVec<u32>> = arena.allocate(20);
    assert!(arena.high_water_mark() >= hwm1);
}

#[test]
fn arena_alignment_and_exhaustion() {
    let mut arena = FrameArena::new(16);
    let a: Option<ArenaVec<u8>> = arena.allocate(3);
    assert!(a.is_some());
    assert_eq!(arena.used(), 3);
    // a u32 allocation starts at the next multiple of 4
    let b: Option<ArenaVec<u32>> = arena.allocate(2);
    assert!(b.is_some());
    assert_eq!(arena.used(), 12);
    assert_eq!(arena.remaining(), 4);
    // too large: refused, nothing changes
    let c: Option<ArenaVec<u32>> = arena.allocate(2);
    assert!(c.is_none());
    assert_eq!(arena.used(), 12);
    assert_eq!(arena.high_water_mark(), 12);
    // exactly fitting
    let d: Option<ArenaVec<u32>> = arena.allocate(1);
    assert!(d.is_some());
    assert_eq!(arena.remaining(), 0);
}

#[test]
fn arena_vec_clear_keeps_capacity() {
    let mut arena = FrameArena::default();
    assert_eq!(arena.capacity(), 256 * 1024);
    let mut v: ArenaVec<u16> = arena.allocate(8).unwrap();
    assert!(v.is_empty());
    assert!(!v.is_full());
    v.clear();
    assert_eq!(v.capacity(), 8);
    assert_eq!(v.len(), 0);
    let mut z: ArenaVec<u16> = arena.allocate(0).unwrap();
    assert!(z.is_full());
    z.clear();
    assert_eq!(z.capacity(), 0);
}

#[test]
fn test_fixed_vec_basic() {
    let mut vec: FixedVec<i32, 5> = FixedVec::new();
    assert!(vec.is_empty());
    assert_eq!(vec.capacity(), 5);

    assert!(vec.push(1));
    assert!(vec.push(2));
    assert!(vec.push(3));
    assert_eq!(vec.len(), 3);

    assert_eq!(vec.pop(), Some(3));
    assert_eq!(vec.len(), 2);
}

#[test]
fn test_fixed_vec_full() {
    let mut vec: FixedVec<i32, 3> = FixedVec::new();

    assert!(vec.push(1));
    assert!(vec.push(2));
    assert!(vec.push(3));
    assert!(vec.is_full());
    assert!(!vec.push(4));
    assert_eq!(vec.len(), 3);
}

#[test]
fn test_fixed_vec_slice() {
    let mut vec: FixedVec<i32, 5> = FixedVec::new();
    vec.push(10);
    vec.push(20);
    vec.push(30);

    assert_eq!(vec.as_slice(), &[10, 20, 30]);
}

#[test]
fn test_fixed_vec_iteration() {
    let mut vec: FixedVec<i32, 5> = FixedVec::new();
    vec.push(1);
    vec.push(2);
    vec.push(3);

    let sum: i32 = vec.iter().sum();
    assert_eq!(sum, 6);
}

#[test]
fn test_fixed_vec_indexing() {
    let mut vec: FixedVec<i32, 5> = FixedVec::new();
    vec.push(10);
    vec.push(20);

    assert_eq!(vec[0], 10);
    assert_eq!(vec[1], 20);

    vec[0] = 100;
    assert_eq!(vec[0], 100);
}

#[test]
fn fixed_vec_push_then_pop_round_trip() {
    let mut vec: FixedVec<u8, 4> = FixedVec::default();
    vec.push(7);
    vec.push(9);
    assert!(vec.push(42));
    assert_eq!(vec.pop(), Some(42));
    assert_eq!(vec.as_slice(), &[7, 9]);
    vec.clear();
    assert_eq!(vec.pop(), None);
    assert!(vec.is_empty());
}

#[test]
fn fixed_vec_get_and_slices() {
    let mut vec: FixedVec<i32, 3> = FixedVec::new();
    vec.push(5);
    assert_eq!(vec.get(0), Some(&5));
    assert_eq!(vec.get(1), None);
    assert!(vec.get_mut(1).is_none());
    vec.as_mut_slice()[0] = 6;
    assert_eq!(vec.as_slice(), &[6]);
    let copy = vec.clone();
    assert_eq!(copy.as_slice(), &[6]);
}

#[test]
fn arena_refuses_requests_larger_than_its_capacity() {
    let mut arena = FrameArena::new(64);
    // the byte counts fit in a usize, but not in the arena
    let huge: Option<ArenaVec<u8>> = arena.allocate(usize::MAX / 2);
    assert!(huge.is_none());
    let big: Option<ArenaVec<u32>> = arena.allocate(usize::MAX / 8);
    assert!(big.is_none());
    assert_eq!(arena.used(), 0);
    assert_eq!(arena.high_water_mark(), 0);
}

#[test]
fn fixed_vec_clear_and_pop_leave_slots_readable() {
    let mut vec: FixedVec<i32, 4> = FixedVec::new();
    vec.push(10);
    vec.push(20);
    assert_eq!(vec.pop(), Some(20));
    assert_eq!(vec[1], 20);
    vec.clear();
    assert_eq!(vec.len(), 0);
    assert_eq!(vec[0], 10);
    assert_eq!(vec[1], 20);
    assert!(vec.push(30));
    assert_eq!(vec[0], 30);
    assert_eq!(vec[1], 20);
}

#[test]
fn fixed_vec_iter_mut_writes_items_only() {
    let mut vec: FixedVec<u32, 4> = FixedVec::new();
    vec.push(1);
    vec.push(2);
    vec.push(3);
    for x in vec.iter_mut() {
        *x *= 10;
    }
    assert_eq!(vec.as_slice(), &[10, 20, 30]);
    assert_eq!(vec.len(), 3);
    assert_eq!(vec[3], 0);
}
