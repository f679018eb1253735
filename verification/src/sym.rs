//! The names that the queries know by themselves.

use vstd::prelude::*;

verus! {

pub const VEC: u32 = 0;
pub const OPTION: u32 = 1;
pub const RESULT: u32 = 2;
pub const BTREE_MAP: u32 = 3;
pub const BTREE_SET: u32 = 4;
pub const VEC_DEQUE: u32 = 5;
pub const LINKED_LIST: u32 = 6;
pub const BINARY_HEAP: u32 = 7;
pub const HASH_SET: u32 = 8;
pub const HASH_MAP: u32 = 9;
pub const PATH_BUF: u32 = 10;
pub const PATH: u32 = 11;
pub const RECEIVER: u32 = 12;
pub const RC: u32 = 13;
pub const ARC: u32 = 14;
pub const ARRAY: u32 = 16;
pub const SLICE: u32 = 17;
pub const DEBUG: u32 = 18;
pub const ITERATOR: u32 = 19;
pub const LIBC: u32 = 20;
pub const CORE: u32 = 21;
pub const STD: u32 = 22;
pub const ALLOC: u32 = 23;
pub const SYNC: u32 = 24;
pub const WEAK: u32 = 25;
pub const C_VOID: u32 = 26;
pub const ITEM: u32 = 27;
/// The module `rc` of `alloc`.
pub const RC_MOD: u32 = 28;

} // verus!
