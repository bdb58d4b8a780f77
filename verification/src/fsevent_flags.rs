//! The flags of Darwin's FSEvents notifications.

use crate::bits::{contains_bits, has_bits};
use vstd::prelude::*;

verus! {

pub const FLAG_NONE: u32 = 0x0000_0000;
pub const MUST_SCAN_SUBDIRS: u32 = 0x0000_0001;
pub const USER_DROPPED: u32 = 0x0000_0002;
pub const KERNEL_DROPPED: u32 = 0x0000_0004;
pub const IDS_WRAPPED: u32 = 0x0000_0008;
pub const HISTORY_DONE: u32 = 0x0000_0010;
pub const ROOT_CHANGED: u32 = 0x0000_0020;
pub const MOUNT: u32 = 0x0000_0040;
pub const UNMOUNT: u32 = 0x0000_0080;
pub const ITEM_CREATED: u32 = 0x0000_0100;
pub const ITEM_REMOVED: u32 = 0x0000_0200;
pub const INODE_META_MOD: u32 = 0x0000_0400;
pub const ITEM_RENAMED: u32 = 0x0000_0800;
pub const ITEM_MODIFIED: u32 = 0x0000_1000;
pub const FINDER_INFO_MOD: u32 = 0x0000_2000;
pub const ITEM_CHANGE_OWNER: u32 = 0x0000_4000;
pub const ITEM_XATTR_MOD: u32 = 0x0000_8000;
pub const IS_FILE: u32 = 0x0001_0000;
pub const IS_DIR: u32 = 0x0002_0000;
pub const IS_SYMLINK: u32 = 0x0004_0000;
pub const OWN_EVENT: u32 = 0x0008_0000;
pub const IS_HARDLINK: u32 = 0x0010_0000;
pub const IS_LAST_HARDLINK: u32 = 0x0020_0000;
pub const ITEM_CLONED: u32 = 0x0040_0000;
/// Every flag this library knows.
pub const ALL_FLAGS: u32 = 0x007f_ffff;

/// The flags of one FSEvents notification.
#[derive(Copy, Clone, PartialEq, Eq, Debug, Hash, Structural)]
pub struct StreamFlags {
    bits: u32,
}


impl StreamFlags {
    /// The raw bits of these flags.
    pub closed spec fn spec_bits(&self) -> u32 {
        self.bits
    }

    /// The flags of `raw` that this library knows; the other bits are dropped.
    pub fn from_bits_truncate(raw: u32) -> (r: StreamFlags)
        ensures
            r.spec_bits() == raw & ALL_FLAGS,
    {
        StreamFlags { bits: raw & ALL_FLAGS }
    }

    /// The raw bits of these flags.
    pub fn bits(&self) -> (r: u32)
        ensures
            r == self.spec_bits(),
    {
        self.bits
    }

    /// Whether these flags hold every bit of `bit`.
    pub fn contains(&self, bit: u32) -> (r: bool)
        ensures
            r == has_bits(self.spec_bits(), bit),
    {
        contains_bits(self.bits, bit)
    }
}

} // verus!
