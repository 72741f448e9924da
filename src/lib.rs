use vstd::prelude::*;

pub mod util;
pub mod interval_map;
pub mod allocator;
pub mod checked_alloc;
pub mod arena_alloc;
pub mod alloc_raw_vec;
pub mod alloc_vec;
pub mod alloc_raw_box;
pub mod alloc_box;
pub mod simple_alloc;
