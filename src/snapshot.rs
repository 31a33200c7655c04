use vstd::prelude::*;

verus! {

/// The raw memory counters of one observation instant, in kibibytes.
///
/// No relation between the fields is assumed: the kernel's counters may be
/// mutually inconsistent (`available > total` happens), and every derived
/// quantity tolerates that.
#[derive(Clone, Copy, Debug, PartialEq, Eq, Structural)]
pub struct MemorySnapshot {
    pub total: u64,
    pub free: u64,
    pub available: u64,
    pub buffers: u64,
    pub cached: u64,
    pub shared: u64,
    pub swap_total: u64,
    pub swap_free: u64,
}

/// The metrics computed from a snapshot for display.
#[derive(Clone, Copy, Debug, PartialEq, Eq, Structural)]
pub struct DerivedMetrics {
    pub used: u64,
    pub cached_display: u64,
}

/// `total - free - buffers - cached`, clamped at zero.
pub open spec fn used_spec(s: MemorySnapshot) -> int {
    let u = s.total - s.free - s.buffers - s.cached;
    if u < 0 {
        0
    } else {
        u
    }
}

/// `cached + buffers`; it saturates at the largest `u64`, a bound no real
/// kibibyte count comes near.
pub open spec fn cached_display_spec(s: MemorySnapshot) -> int {
    let c = s.cached + s.buffers;
    if c > u64::MAX {
        u64::MAX as int
    } else {
        c
    }
}

pub open spec fn derived_spec(s: MemorySnapshot) -> DerivedMetrics {
    DerivedMetrics { used: used_spec(s) as u64, cached_display: cached_display_spec(s) as u64 }
}

/// The snapshot with every counter at zero.
pub open spec fn zero_spec() -> MemorySnapshot {
    MemorySnapshot {
        total: 0,
        free: 0,
        available: 0,
        buffers: 0,
        cached: 0,
        shared: 0,
        swap_total: 0,
        swap_free: 0,
    }
}

impl MemorySnapshot {
    /// A snapshot with every counter at zero, as for a source that names none.
    pub fn zeroed() -> (r: MemorySnapshot)
        ensures
            r == zero_spec(),
    {
        MemorySnapshot {
            total: 0,
            free: 0,
            available: 0,
            buffers: 0,
            cached: 0,
            shared: 0,
            swap_total: 0,
            swap_free: 0,
        }
    }

    /// Memory in use: total less free, buffers and cached, never below zero.
    pub fn used_kib(&self) -> (r: u64)
        ensures
            r == used_spec(*self),
            self.free + self.buffers + self.cached > self.total ==> r == 0,
    {
        self.total.saturating_sub(self.free).saturating_sub(self.buffers).saturating_sub(
            self.cached,
        )
    }

    /// Buffers folded into the cached category.
    pub fn cached_display_kib(&self) -> (r: u64)
        ensures
            r == cached_display_spec(*self),
    {
        self.cached.saturating_add(self.buffers)
    }

    /// Every derived metric of the snapshot.
    pub fn derive(&self) -> (r: DerivedMetrics)
        ensures
            r == derived_spec(*self),
    {
        DerivedMetrics { used: self.used_kib(), cached_display: self.cached_display_kib() }
    }
}

/// Where free, buffers and cached together exceed total, `used` is zero
/// rather than a wrapped-around value.
pub proof fn lemma_used_saturates(s: MemorySnapshot)
    requires
        s.free + s.buffers + s.cached > s.total,
    ensures
        used_spec(s) == 0,
        derived_spec(s).used == 0,
{
}

/// Deriving the metrics of one snapshot twice gives the same result: the
/// derivation depends on the snapshot alone.
pub proof fn lemma_derive_deterministic(s1: MemorySnapshot, s2: MemorySnapshot)
    requires
        s1 == s2,
    ensures
        derived_spec(s1) == derived_spec(s2),
{
}

/// The dashboard's state: the snapshot of the latest tick.
pub struct App {
    pub snapshot: MemorySnapshot,
}

impl App {
    /// A dashboard that has not read its source yet: every counter is zero.
    pub fn new() -> (r: App)
        ensures
            r.snapshot == zero_spec(),
    {
        App { snapshot: MemorySnapshot::zeroed() }
    }
}

} // verus!
