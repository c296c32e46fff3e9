use nix::errno::Errno;
use ring_deque::layout::RingLayout;
use ring_deque::page_size::{get_page_size, page_size_of_reply};
use ring_deque::RingDeque;

#[test]
fn layout_of_whole_pages() {
    let layout = RingLayout::of::<u64>(100, 4096);
    assert_eq!(layout.byte_count, 4096);
    assert_eq!(layout.capacity, 512);
    assert_eq!(layout.virt_capacity, 1024);

    let exact = RingLayout::of::<u64>(512, 4096);
    assert_eq!(exact.byte_count, 4096);

    let next = RingLayout::of::<u64>(513, 4096);
    assert_eq!(next.byte_count, 8192);
    assert_eq!(next.capacity, 1024);
}

#[test]
fn elements_must_fill_the_pages() {
    assert!(!RingLayout::fits(1, 24, 4096));
    assert!(RingLayout::fits(512, 24, 4096));
    assert_eq!(RingLayout::of::<[u64; 3]>(512, 4096).capacity, 512);
    assert_eq!(RingLayout::of::<[u64; 3]>(400, 4096).byte_count, 12288);
    assert_eq!(RingLayout::of::<[u8; 8192]>(1, 4096).capacity, 1);
}

#[test]
fn nothing_to_lay_out() {
    assert!(!RingLayout::fits(0, 8, 4096));
    assert!(!RingLayout::fits(1, 0, 4096));
    assert!(!RingLayout::fits(1, 8, 0));
    assert!(RingDeque::<u64>::allocate(0).is_none());
    assert!(RingDeque::<()>::allocate(1).is_none());
}

#[test]
fn too_much_to_lay_out() {
    assert!(!RingLayout::fits(usize::MAX, 8, 4096));
    assert!(!RingLayout::fits(usize::MAX, 1, 4096));
    assert!(!RingLayout::fits(isize::MAX as usize / 2 + 1, 1, 1));
    assert!(RingLayout::fits(isize::MAX as usize / 2, 1, 1));
    assert!(RingDeque::<u64>::allocate(usize::MAX).is_none());
}

#[test]
fn allocation_follows_the_page_size() {
    assert!(RingDeque::<u64>::allocate_for(1, None).is_none());
    assert!(RingDeque::<[u64; 3]>::allocate_for(1, Some(4096)).is_none());
    assert_eq!(
        RingDeque::<u64>::allocate_for(1, Some(16384)).unwrap().capacity(),
        2048
    );
    let page_size = get_page_size().unwrap();
    assert_eq!(
        RingDeque::<u8>::allocate(page_size + 1).unwrap().capacity(),
        2 * page_size
    );
}

#[test]
fn page_size_is_a_power_of_two() {
    let page_size = get_page_size().unwrap();
    assert!(page_size.is_power_of_two());
    assert!(page_size >= 4096);
}

#[test]
fn replies_that_name_no_page_size() {
    assert_eq!(page_size_of_reply(Ok(Some(4096))), Some(4096));
    assert_eq!(page_size_of_reply(Ok(Some(1))), Some(1));
    assert_eq!(page_size_of_reply(Ok(Some(0))), None);
    assert_eq!(page_size_of_reply(Ok(Some(-4096))), None);
    assert_eq!(page_size_of_reply(Ok(None)), None);
    assert_eq!(page_size_of_reply(Err(Errno::EINVAL)), None);
}
