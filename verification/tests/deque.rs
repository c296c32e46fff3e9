use ring_deque::Error;
use ring_deque::RingDeque;
use std::borrow::Borrow;
use std::collections::VecDeque;
use std::rc::Rc;

/// A deque of four elements.
fn four() -> RingDeque<u64> {
    RingDeque::with_page_size(1, 32)
}

#[test]
fn one_page_of_elements() {
    let mut deque: RingDeque<u64> = RingDeque::allocate_for(100, Some(4096)).unwrap();
    assert_eq!(deque.capacity(), 512);
    assert_eq!(deque.virtual_capacity(), 1024);

    deque.push_back(5).unwrap();
    deque.push_front(2).unwrap();
    deque.push_front(1).unwrap();
    for v in 8..12 {
        deque.push_back(v).unwrap();
    }

    assert_eq!(deque.pop_back(), Some(11));
    assert_eq!(deque.pop_front(), Some(1));
    assert_eq!(&deque[..], &[2, 5, 8, 9, 10]);
}

#[test]
fn front_follows_pop_front() {
    let mut deque = RingDeque::allocate(5).unwrap();
    deque.extend_front_from_slice(&[1, 2, 3]).unwrap();
    assert_eq!(deque.front(), Some(&1));
    deque.pop_front();
    assert_eq!(deque.front(), Some(&2));
}

#[test]
fn ends_of_an_empty_deque() {
    let mut deque = four();
    assert!(deque.is_empty());
    assert_eq!(deque.front(), None);
    assert_eq!(deque.back(), None);
    assert_eq!(deque.pop(), None);
    assert_eq!(deque.pop_back(), None);
    assert_eq!(deque.pop_front(), None);
    assert!(deque.is_empty());
}

#[test]
fn pop_gives_back_what_was_pushed() {
    let mut deque = four();
    deque.extend_back_from_slice(&[1, 2, 3]).unwrap();
    deque.push_back(9).unwrap();
    assert_eq!(deque.back(), Some(&9));
    assert_eq!(deque.pop(), Some(9));
    assert_eq!(deque.as_slice(), &[1, 2, 3]);
    deque.push_front(8).unwrap();
    assert_eq!(deque.front(), Some(&8));
    assert_eq!(deque.pop_front(), Some(8));
    assert_eq!(deque.as_slice(), &[1, 2, 3]);
}

#[test]
fn push_restores_what_was_popped() {
    let mut deque = four();
    deque.extend_back_from_slice(&[1, 2, 3, 4]).unwrap();
    let last = deque.pop_back().unwrap();
    deque.push_back(last).unwrap();
    let first = deque.pop_front().unwrap();
    deque.push_front(first).unwrap();
    assert_eq!(deque.as_slice(), &[1, 2, 3, 4]);
}

#[test]
fn ends_do_not_disturb_each_other() {
    let mut one = four();
    one.extend_back_from_slice(&[1, 2]).unwrap();
    let mut other = four();
    other.extend_back_from_slice(&[1, 2]).unwrap();
    one.push_back(3).unwrap();
    assert_eq!(one.pop_front(), Some(1));
    assert_eq!(other.pop_front(), Some(1));
    other.push_back(3).unwrap();
    assert_eq!(one.as_slice(), other.as_slice());
    assert_eq!(one.as_slice(), &[2, 3]);
}

#[test]
fn queue_and_stack_order() {
    let mut queue = four();
    let mut stack = four();
    for v in [7, 8, 9] {
        queue.push_back(v).unwrap();
        stack.push_back(v).unwrap();
    }
    assert_eq!(
        (queue.pop_front(), queue.pop_front(), queue.pop_front()),
        (Some(7), Some(8), Some(9))
    );
    assert_eq!(
        (stack.pop_back(), stack.pop_back(), stack.pop_back()),
        (Some(9), Some(8), Some(7))
    );
}

#[test]
fn full_deque_refuses_and_stays() {
    let mut deque = four();
    deque.extend_back_from_slice(&[1, 2, 3, 4]).unwrap();
    assert_eq!(deque.push_back(5), Err(Error::BufferFull));
    assert_eq!(deque.push_front(5), Err(Error::BufferFull));
    assert_eq!(deque.extend_back_from_slice(&[5]), Err(Error::BufferFull));
    assert_eq!(deque.extend_front_from_slice(&[5]), Err(Error::BufferFull));
    assert_eq!(deque.try_extend_back([5].into_iter()), Err(Error::BufferFull));
    assert_eq!(deque.extend_back_from_slice(&[]), Ok(()));
    assert_eq!(deque.extend_front_from_slice(&[]), Ok(()));
    assert_eq!(deque.try_extend_back([].into_iter()), Ok(()));
    assert_eq!(deque.as_slice(), &[1, 2, 3, 4]);
}

#[test]
fn slices_are_added_wholly_or_not_at_all() {
    let mut deque = four();
    deque.push_back(1).unwrap();
    assert_eq!(
        deque.extend_back_from_slice(&[2, 3, 4, 5]),
        Err(Error::BufferFull)
    );
    assert_eq!(
        deque.extend_front_from_slice(&[2, 3, 4, 5]),
        Err(Error::BufferFull)
    );
    assert_eq!(deque.as_slice(), &[1]);
    deque.extend_back_from_slice(&[2]).unwrap();
    deque.extend_front_from_slice(&[8, 9]).unwrap();
    assert_eq!(deque.as_slice(), &[8, 9, 1, 2]);
}

#[test]
fn iterators_are_added_as_far_as_there_is_room() {
    let mut deque = four();
    deque.push_back(1).unwrap();
    assert_eq!(
        deque.try_extend_back([2, 3, 4, 5, 6].into_iter()),
        Err(Error::BufferFull)
    );
    assert_eq!(deque.as_slice(), &[1, 2, 3, 4]);

    let mut fitting = four();
    assert_eq!(fitting.try_extend_back(vec![1, 2].into_iter()), Ok(()));
    assert_eq!(fitting.as_slice(), &[1, 2]);
    assert_eq!(fitting.try_extend_back(3..), Err(Error::BufferFull));
    assert_eq!(fitting.as_slice(), &[1, 2, 3, 4]);
}

#[test]
fn refusal_takes_one_item_too_many() {
    let mut deque = four();
    deque.push_back(1).unwrap();
    let mut items = 2..10;
    assert_eq!(
        deque.extend_back_while_room(&mut items),
        Err(Error::BufferFull)
    );
    assert_eq!(deque.as_slice(), &[1, 2, 3, 4]);
    assert_eq!(items, 6..10);

    let mut again = four();
    let mut items = 2..10;
    assert_eq!(again.try_extend_back(&mut items), Err(Error::BufferFull));
    assert_eq!(again.as_slice(), &[2, 3, 4, 5]);
    assert_eq!(items, 7..10);

    let mut fitting = four();
    let mut few = 2..5;
    assert_eq!(fitting.extend_back_while_room(&mut few), Ok(()));
    assert_eq!(fitting.as_slice(), &[2, 3, 4]);
    assert_eq!(few.next(), None);
}

#[test]
fn extending_is_pushing_each() {
    let mut extended = four();
    extended.push_back(5).unwrap();
    extended.extend_front_from_slice(&[3, 4]).unwrap();
    extended.extend_back_from_slice(&[6]).unwrap();
    let mut pushed = four();
    pushed.push_back(5).unwrap();
    pushed.push_front(4).unwrap();
    pushed.push_front(3).unwrap();
    pushed.push_back(6).unwrap();
    assert_eq!(extended.as_slice(), pushed.as_slice());
    assert_eq!(extended.as_slice(), &[3, 4, 5, 6]);
}

#[test]
fn rotation_keeps_the_latest() {
    let mut deque = four();
    for v in 0..11 {
        deque.push_back_rotate(v);
        assert!(deque.len() <= deque.capacity());
        assert_eq!(deque.back(), Some(&v));
    }
    assert_eq!(deque.as_slice(), &[7, 8, 9, 10]);
}

#[test]
fn indices_count_from_the_front() {
    let mut deque = four();
    deque.extend_back_from_slice(&[3, 4]).unwrap();
    deque.extend_front_from_slice(&[1, 2]).unwrap();
    assert_eq!(deque[0], 1);
    assert_eq!(deque[3], 4);
    assert_eq!(&deque[..], &[1, 2, 3, 4]);
    assert_eq!(&deque[1..3], &[2, 3]);
    assert_eq!(&deque[2..], &[3, 4]);
    assert_eq!(&deque[..1], &[1]);
    assert_eq!(&deque[4..], &[]);
    assert_eq!(&deque[2..2], &[]);
}

#[test]
fn slices_of_the_whole_deque_agree() {
    let mut deque = four();
    deque.extend_back_from_slice(&[1, 2, 3]).unwrap();
    let borrowed: &[u64] = deque.borrow();
    assert_eq!(borrowed, &[1, 2, 3]);
    let referenced: &[u64] = deque.as_ref();
    assert_eq!(referenced, &[1, 2, 3]);
}

#[test]
fn elements_change_in_their_places() {
    let mut deque = four();
    deque.extend_back_from_slice(&[1, 2, 3]).unwrap();
    let all: &mut [u64] = deque.as_mut();
    all[1] = 20;
    all.reverse();
    assert_eq!(deque.as_slice(), &[3, 20, 1]);
    assert_eq!(deque.pop_front(), Some(3));
    assert_eq!(deque.pop_back(), Some(1));
}

#[test]
fn elements_are_dropped_once() {
    let element = Rc::new(());
    let mut deque: RingDeque<Rc<()>> = RingDeque::allocate(4).unwrap();
    deque.push_back(element.clone()).unwrap();
    deque.push_front(element.clone()).unwrap();
    deque.push_back(element.clone()).unwrap();
    assert_eq!(Rc::strong_count(&element), 4);
    drop(deque.pop_front());
    assert_eq!(Rc::strong_count(&element), 3);
    drop(deque);
    assert_eq!(Rc::strong_count(&element), 1);
}

#[test]
fn refused_elements_are_dropped() {
    let element = Rc::new(());
    let mut deque: RingDeque<Rc<()>> = RingDeque::with_page_size(1, 8);
    assert_eq!(deque.capacity(), 1);
    deque.push_back(element.clone()).unwrap();
    assert_eq!(deque.push_back(element.clone()), Err(Error::BufferFull));
    assert_eq!(Rc::strong_count(&element), 2);
    deque.push_back_rotate(element.clone());
    assert_eq!(Rc::strong_count(&element), 2);
}

#[test]
fn behaves_like_a_bounded_vec_deque() {
    let mut deque = four();
    let mut model: VecDeque<u64> = VecDeque::new();
    let mut seed: u64 = 1;
    for step in 0..20_000u64 {
        seed = seed.wrapping_mul(6364136223846793005).wrapping_add(1442695040888963407);
        match (seed >> 33) % 5 {
            0 => {
                let room = model.len() < 4;
                assert_eq!(deque.push_back(step).is_ok(), room);
                if room {
                    model.push_back(step);
                }
            }
            1 => {
                let room = model.len() < 4;
                assert_eq!(deque.push_front(step).is_ok(), room);
                if room {
                    model.push_front(step);
                }
            }
            2 => assert_eq!(deque.pop_front(), model.pop_front()),
            3 => assert_eq!(deque.pop_back(), model.pop_back()),
            _ => {
                if model.len() == 4 {
                    model.pop_front();
                }
                model.push_back(step);
                deque.push_back_rotate(step);
            }
        }
        assert_eq!(deque.as_slice(), model.make_contiguous());
        assert_eq!(deque.len(), model.len());
        assert_eq!(deque.is_empty(), model.is_empty());
    }
}
