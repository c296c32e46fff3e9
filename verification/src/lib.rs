//! A double-ended queue of bounded capacity whose elements always form one
//! contiguous slice.

pub mod error;
pub mod index;
pub mod layout;
pub mod memory;
pub mod page_size;
pub mod ring_deque;
pub mod state;
pub mod window;

pub use error::Error;
pub use ring_deque::RingDeque;
pub use window::Window;
