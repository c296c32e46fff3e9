use rand::Rng;
use ring_deque::page_size::get_page_size;
use ring_deque::Error::BufferFull;
use ring_deque::RingDeque;
use std::mem::size_of;

#[test]
fn creates_empty_ring_buffer() {
    type Payload = u64;
    let mut ring = RingDeque::<Payload>::allocate(1).unwrap();
    assert_eq!(
        ring.capacity(),
        get_page_size().unwrap() / size_of::<Payload>()
    );
    assert_eq!(ring.len(), 0);
    assert!(ring.virtual_capacity() >= ring.capacity() * 2);
    assert!(ring.as_slice().is_empty());
    assert_eq!(ring.pop_front(), None);
    assert_eq!(ring.pop_back(), None);
    drop(ring)
}

#[test]
fn keeps_element_order_push_back() {
    let mut ring = RingDeque::allocate(2000).unwrap();

    for i in 0..ring.capacity() {
        ring.push_back(i as isize).unwrap();
    }
    let mut cur_max = ring.capacity() as isize;

    assert_sorted(&ring[..]);
    for _ in 0..100 {
        for _ in 0..1337 {
            ring.pop_front().unwrap();
            if ring.len() > 100 {
                ring.pop_front().unwrap();
            }
            ring.push_back(cur_max).unwrap();
            cur_max += 1;
        }
        assert_sorted(&ring[..]);
    }
}

#[test]
fn keeps_element_order_push_front() {
    let mut ring = RingDeque::allocate(2000).unwrap();

    let mut cur_min = 0;
    for _ in 0..ring.capacity() {
        ring.push_front(cur_min).unwrap();
        cur_min -= 1;
    }

    for _ in 0..100 {
        assert_sorted(&ring[..]);
        for _ in 0..1337 {
            ring.pop_back().unwrap();
            ring.push_front(cur_min).unwrap();
            cur_min -= 1;
        }
        assert_sorted(&ring[..]);
    }
}

fn assert_sorted(ring: &[isize]) {
    let mut iter = ring.iter();
    let mut last = *iter.next().unwrap();
    while let Some(cur) = iter.next() {
        assert!(*cur > last);
        last = *cur;
    }
}

#[test]
fn full_ring_buffer() {
    type Payload = u64;
    let mut ring = RingDeque::<Payload>::allocate(1000).unwrap();

    let mut rng = rand::thread_rng();
    let mut checksum = 0u128;
    for _ in 0..ring.capacity() {
        let value = rng.gen();
        ring.push_back(value).unwrap();
        checksum += value as u128;
    }

    assert_eq!(ring.push_back(0), Err(BufferFull));
    assert_eq!(ring.push_front(214), Err(BufferFull));
    assert_eq!(ring.len(), ring.capacity());

    validate_checksum(&ring[..], checksum);

    // constantly rotate backwards
    // by taking a value from the back and pushing another value to the front
    for _ in 0..ring.capacity() * 2 {
        let val = ring.pop_back().unwrap();
        assert_eq!(ring.len(), ring.capacity() - 1);
        checksum -= val as u128;
        validate_checksum(&ring[..], checksum);
        let val = rng.gen();
        ring.push_front(val).unwrap();
        assert_eq!(ring.len(), ring.capacity());
        checksum += val as u128;
        validate_checksum(ring.as_ref(), checksum);
    }

    // constantly rotate forwards
    // by taking a value from the font and pushing another value to the back
    for _ in 0..ring.capacity() * 2 {
        let val = ring.pop_front().unwrap();
        checksum -= val as u128;
        assert_eq!(ring.len(), ring.capacity() - 1);
        validate_checksum(ring.as_ref(), checksum);
        let val = rng.gen();
        ring.push_back(val).unwrap();
        assert_eq!(ring.len(), ring.capacity());
        checksum += val as u128;
        validate_checksum(ring.as_ref(), checksum);
    }
}

fn validate_checksum(ring: &[u64], checksum: u128) {
    let sum: u128 = ring.into_iter().map(|e| *e as u128).sum();
    assert_eq!(sum, checksum);
}
