//! Runtime substrate of the Lazer virtual machine: digests for table keys,
//! the interned-symbol table, tagged machine words, compressed heap pointers,
//! the planning half of virtual-memory management and the lock-word protocol.

pub mod condvar;
pub mod hash;
pub mod info;
pub mod lock;
pub mod page;
pub mod atom;
pub mod expr;
pub mod heap;
pub mod term;
