//! Memory management: addresses, physical memory, frames, page tables and
//! address spaces.

pub mod address;
pub mod memory;
pub mod frame_allocator;
pub mod page_table;
pub mod memory_set;
pub mod elf;
pub mod loader;
pub mod spaces;
pub mod user;

pub use address::{PhysAddr, PhysPageNum, VirtAddr, VirtPageNum};
pub use memory::PhysMemory;
pub use frame_allocator::{frame_alloc, frame_dealloc, FrameTracker, StackFrameAllocator};
pub use page_table::{PTEFlags, PageTable, PageTableEntry, PageTableError};
pub use memory_set::{AreaError, MapArea, MapPermission, MapType, MemorySet};
