use vstd::prelude::*;

pub mod memory;
pub mod types;

verus! {

/// Lowest address of the user data segment.
pub const USER_SPACE_START: u32 = 0x4000_0000;

/// One past the highest address of the user stack segment.
pub const USER_SPACE_END: u32 = 0xA000_0000;

/// A buffer `[start, start + len)` lies in user memory when the end does not
/// wrap and the whole range sits between the user data base and the top of the
/// user stack.
pub open spec fn user_range(start: int, len: int) -> bool {
    &&& start + len <= u32::MAX
    &&& start >= USER_SPACE_START
    &&& start + len <= USER_SPACE_END
}

/// Checks that a buffer handed in by a user process lies in user memory.
pub fn is_user_memory(start: u32, len: u32) -> (ok: bool)
    ensures
        ok == user_range(start as int, len as int),
{
    let end = start.checked_add(len);
    if end.is_none() {
        return false;
    }
    let end = end.unwrap();
    start >= USER_SPACE_START && end <= USER_SPACE_END
}

} // verus!
