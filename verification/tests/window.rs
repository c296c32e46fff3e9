use ring_deque::Error;
use ring_deque::Window;
use std::collections::VecDeque;

#[test]
fn new_window_is_empty() {
    let window = Window::new(3);
    assert_eq!(window.capacity(), 3);
    assert_eq!(window.virtual_capacity(), 6);
    assert_eq!(window.start(), 0);
    assert_eq!(window.len(), 0);
    assert!(window.is_empty());
}

#[test]
fn front_of_the_region_wraps() {
    let mut window = Window::new(3);
    assert_eq!(window.push_front(), Ok(2));
    assert_eq!(window.push_front(), Ok(1));
    assert_eq!(window.push_back(), Ok(3));
    assert_eq!(window.push_back(), Err(Error::BufferFull));
    assert_eq!(window.push_front(), Err(Error::BufferFull));
    assert_eq!((window.start(), window.len()), (1, 3));
    assert_eq!(window.pop_back(), Some(3));
    assert_eq!(window.push_front(), Ok(0));
    assert_eq!(window.pop_back(), Some(2));
    assert_eq!(window.push_front(), Ok(2));
    assert_eq!((window.start(), window.len()), (2, 3));
}

#[test]
fn back_of_the_region_wraps() {
    let mut window = Window::new(2);
    assert_eq!(window.push_back(), Ok(0));
    assert_eq!(window.push_back(), Ok(1));
    assert_eq!(window.pop_front(), Some(0));
    assert_eq!(window.push_back(), Ok(2));
    assert_eq!(window.pop_front(), Some(1));
    assert_eq!(window.start(), 2);
    assert_eq!(window.push_back(), Ok(3));
    assert_eq!(window.pop_front(), Some(2));
    assert_eq!(window.start(), 1);
    assert_eq!(window.push_back(), Ok(2));
    assert_eq!(window.pop_front(), Some(1));
    assert_eq!(window.pop_front(), Some(2));
    assert_eq!(window.pop_front(), None);
    assert_eq!(window.pop_back(), None);
}

#[test]
fn several_places_at_once() {
    let mut window = Window::new(5);
    assert_eq!(window.extend_back(2), Ok(0));
    assert_eq!(window.extend_back(4), Err(Error::BufferFull));
    assert_eq!(window.extend_front(4), Err(Error::BufferFull));
    assert_eq!((window.start(), window.len()), (0, 2));
    assert_eq!(window.extend_front(2), Ok(3));
    assert_eq!((window.start(), window.len()), (3, 4));
    assert_eq!(window.extend_front(1), Ok(2));
    assert_eq!(window.extend_front(0), Ok(2));
    assert_eq!(window.extend_back(0), Ok(7));
    assert_eq!(window.extend_back(usize::MAX), Err(Error::BufferFull));
    assert_eq!((window.start(), window.len()), (2, 5));
}

#[test]
fn growth_adds_up() {
    for start in 0..4usize {
        for n in 0..4usize {
            let mut at_once = Window::new(3);
            let mut one_by_one = Window::new(3);
            for _ in 0..start {
                for window in [&mut at_once, &mut one_by_one] {
                    window.push_back().unwrap();
                    window.pop_front().unwrap();
                }
            }
            at_once.extend_front(n).unwrap();
            for _ in 0..n {
                one_by_one.push_front().unwrap();
            }
            assert_eq!(at_once.start(), one_by_one.start());
            assert_eq!(at_once.len(), one_by_one.len());
        }
    }
}

#[test]
fn rotation_reuses_the_place() {
    let mut window = Window::new(2);
    assert_eq!(window.push_back_rotate(), (None, 0));
    assert_eq!(window.push_back_rotate(), (None, 1));
    assert_eq!(window.push_back_rotate(), (Some(0), 2));
    assert_eq!(window.push_back_rotate(), (Some(1), 3));
    assert_eq!(window.push_back_rotate(), (Some(2), 2));
    assert_eq!((window.start(), window.len()), (1, 2));
}

/// Cells that are each reached under two positions show, through the window,
/// what a queue holds.
#[test]
fn mirrored_cells_show_the_elements() {
    for capacity in 1..6usize {
        let mut cells = vec![0u64; capacity];
        let mut window = Window::new(capacity);
        let mut model: VecDeque<u64> = VecDeque::new();
        let mut seed: u64 = 7;
        for step in 1..5_000u64 {
            seed = seed.wrapping_mul(6364136223846793005).wrapping_add(1442695040888963407);
            match (seed >> 33) % 8 {
                0 => {
                    if let Ok(position) = window.push_back() {
                        assert!(position < window.virtual_capacity());
                        cells[position % capacity] = step;
                        model.push_back(step);
                    }
                }
                1 => {
                    if let Ok(position) = window.push_front() {
                        assert!(position < window.virtual_capacity());
                        cells[position % capacity] = step;
                        model.push_front(step);
                    }
                }
                2 => {
                    let values = [step, step + 1];
                    if let Ok(position) = window.extend_back(2) {
                        assert!(position + 2 <= window.virtual_capacity());
                        for (i, value) in values.iter().enumerate() {
                            cells[(position + i) % capacity] = *value;
                            model.push_back(*value);
                        }
                    }
                }
                3 => {
                    let values = [step, step + 1];
                    if let Ok(position) = window.extend_front(2) {
                        assert!(position + 2 <= window.virtual_capacity());
                        for (i, value) in values.iter().enumerate() {
                            cells[(position + i) % capacity] = *value;
                        }
                        model.push_front(values[1]);
                        model.push_front(values[0]);
                    }
                }
                4 => {
                    let (given_up, position) = window.push_back_rotate();
                    let value = given_up.map(|p| cells[p % capacity]);
                    if model.len() == capacity {
                        assert_eq!(value, model.pop_front());
                    } else {
                        assert_eq!(value, None);
                    }
                    cells[position % capacity] = step;
                    model.push_back(step);
                }
                5 => {
                    if !model.is_empty() {
                        let i = step as usize % model.len();
                        cells[(window.start() + i) % capacity] = step;
                        model[i] = step;
                    }
                }
                6 => {
                    let value = window.pop_front().map(|p| cells[p % capacity]);
                    assert_eq!(value, model.pop_front());
                }
                _ => {
                    let value = window.pop_back().map(|p| cells[p % capacity]);
                    assert_eq!(value, model.pop_back());
                }
            }
            assert!(window.start() + window.len() <= window.virtual_capacity());
            let shown: Vec<u64> = (0..window.len())
                .map(|i| cells[(window.start() + i) % capacity])
                .collect();
            assert_eq!(shown, model.make_contiguous().to_vec());
        }
    }
}
