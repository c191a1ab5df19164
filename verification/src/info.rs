//! Hardware parameters that the memory components are sized by.

use vstd::prelude::*;
use std::sync::atomic::{AtomicBool, Ordering};

verus! {

/// Parameters of the machine, read once by the embedding program and handed
/// to the components that size themselves by them.
#[derive(Clone, Copy, Debug, PartialEq, Eq, Structural)]
pub struct SystemInfo {
    /// Number of configured processors.
    pub num_cpus: usize,
    /// Size in bytes of a page of memory.
    pub page_size: usize,
    /// Granularity in which address space is handed out.
    pub allocation_granularity: usize,
}

impl SystemInfo {
    /// Whether the parameters can describe a machine: at least one processor,
    /// a page of at least one byte, and a granularity of at least one page.
    pub open spec fn plausible(&self) -> bool {
        &&& self.num_cpus >= 1
        &&& self.page_size >= 1
        &&& self.allocation_granularity >= self.page_size
    }

    /// Tests `plausible`.
    pub fn is_plausible(&self) -> (ok: bool)
        ensures
            ok == self.plausible(),
    {
        self.num_cpus >= 1 && self.page_size >= 1 && self.allocation_granularity >= self.page_size
    }
}


/// The part that a caller has in bringing a process-wide value into being.
#[derive(Clone, Copy, Debug, PartialEq, Eq, Structural)]
pub enum InitRole {
    /// The caller came first: it makes the value and then publishes it.
    Initialize,
    /// Another caller came first: this one waits until the value is published.
    Await,
}

/// The two flags that guard a value which is made once: the first caller
/// to claim it makes it, later callers wait until it is published.
pub struct LazyInit {
    created: AtomicBool,
    initialized: AtomicBool,
}

impl LazyInit {
    /// Flags of a value that nobody has claimed.
    pub fn new() -> (flags: Self) {
        LazyInit { created: AtomicBool::new(false), initialized: AtomicBool::new(false) }
    }

    /// The role of a caller whose claim found `previous` in the first flag:
    /// it makes the value exactly if the flag was not set and the claim set it.
    pub fn role_of(previous: Result<bool, bool>) -> (role: InitRole)
        ensures
            role == if previous == Ok::<bool, bool>(false) {
                InitRole::Initialize
            } else {
                InitRole::Await
            },
    {
        match previous {
            Ok(false) => InitRole::Initialize,
            _ => InitRole::Await,
        }
    }

    /// Claims the value for the caller if nobody has claimed it.
    pub fn claim(&self) -> (role: InitRole) {
        Self::role_of(
            self.created.compare_exchange(false, true, Ordering::Relaxed, Ordering::Relaxed),
        )
    }

    /// Says that the value has been made.
    pub fn publish(&self) {
        self.initialized.store(true, Ordering::Relaxed);
    }

    /// Whether the value has been made.
    pub fn is_ready(&self) -> (ready: bool) {
        self.initialized.load(Ordering::Relaxed)
    }
}

} // verus!
