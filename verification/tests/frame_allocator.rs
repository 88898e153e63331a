use taos::memory::bitmap_frame_allocator::{frames_for_map, BitmapFrameAllocator};
use taos::memory::MemoryRegion;

fn regions() -> Vec<MemoryRegion> {
    vec![
        MemoryRegion { base: 0, length: 0x1000, usable: false },
        MemoryRegion { base: 0x1000, length: 0x9000, usable: true },
        MemoryRegion { base: 0xA000, length: 0x2000, usable: false },
        MemoryRegion { base: 0xC000, length: 0x4000, usable: true },
    ]
}

#[test]
fn init_counts_frames() {
    let a = BitmapFrameAllocator::init(&regions(), &vec![0x1000, 0x2000]);
    // 0x10000 bytes of memory: 16 frames.
    assert_eq!(a.total_frames(), 16);
    // Usable: frames 1..10 and 12..16 (13 frames), 2 of them handed over.
    assert_eq!(a.free_frames(), 11);
    assert!(a.is_frame_used(0x0));
    assert!(a.is_frame_used(0x1000));
    assert!(a.is_frame_used(0x2000));
    assert!(!a.is_frame_used(0x3000));
    assert!(a.is_frame_used(0xA000));
    assert!(!a.is_frame_used(0xF000));
    assert_eq!(a.get_allocate_count(), 0);
    assert_eq!(a.get_free_count(), 0);
}

#[test]
fn allocate_searches_from_the_handover_count() {
    let mut a = BitmapFrameAllocator::init(&regions(), &vec![0x1000, 0x2000]);
    // The search starts at frame 2 (two frames handed over), which is used.
    assert_eq!(a.allocate_frame(), Some(0x3000));
    assert_eq!(a.allocate_frame(), Some(0x4000));
    assert_eq!(a.get_allocate_count(), 2);
    assert_eq!(a.free_frames(), 9);
}

#[test]
fn allocate_skips_unusable_and_wraps() {
    let mut a = BitmapFrameAllocator::init(&regions(), &vec![]);
    let mut got = Vec::new();
    while let Some(f) = a.allocate_frame() {
        got.push(f);
    }
    assert_eq!(got.len(), 13);
    assert_eq!(got[0], 0x1000);
    assert!(!got.contains(&0xA000));
    assert!(!got.contains(&0xB000));
    assert_eq!(a.free_frames(), 0);
    assert_eq!(a.allocate_frame(), None);
}

#[test]
fn allocate_then_free_restores() {
    let mut a = BitmapFrameAllocator::init(&regions(), &vec![]);
    let before = a.free_frames();
    let f = a.allocate_frame().unwrap();
    assert!(a.is_frame_used(f));
    a.deallocate_frame(f);
    assert!(!a.is_frame_used(f));
    assert_eq!(a.free_frames(), before);
    assert_eq!(a.get_free_count(), 1);
    // The search has moved past the freed frame.
    assert_eq!(a.allocate_frame(), Some(f + 0x1000));
}

#[test]
fn bitmap_words_hold_one_bit_per_frame() {
    let a = BitmapFrameAllocator::init(&regions(), &vec![]);
    let words = a.bitmap_words();
    // Frames 0, 10 and 11 are in use.
    assert_eq!(words[0] & 0xFFFF, (1 << 0) | (1 << 10) | (1 << 11));
}

#[test]
fn frames_cover_the_highest_usable_region() {
    assert_eq!(frames_for_map(&regions()), 16);
    let odd = vec![MemoryRegion { base: 0x1000, length: 0x1800, usable: true }];
    assert_eq!(frames_for_map(&odd), 3);
    let none = vec![MemoryRegion { base: 0x1000, length: 0x1800, usable: false }];
    assert_eq!(frames_for_map(&none), 0);
}
