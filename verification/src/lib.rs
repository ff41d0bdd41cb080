//! Bootstrap-phase memory management: a dual-end bump allocator that serves
//! byte and page allocations from opposite ends of one contiguous region,
//! and a small fixed-bucket chained hash map.

pub mod align;
pub mod early;
pub mod hashmap;
