//! The ports and the resources of the host.

use vstd::prelude::*;

verus! {

/// Whether a port of the host is free.
#[derive(Debug, Clone, Copy)]
pub struct PortCheckResult {
    pub port: u16,
    pub available: bool,
}

/// Report whether a port is available, given the outcome of the attempt to
/// bind to it.
pub fn check_port_available(port: u16, bound: bool) -> (r: PortCheckResult)
    ensures
        r.port == port,
        r.available == bound,
{
    PortCheckResult { port, available: bound }
}

/// The last port that is tried from `start` on.
pub open spec fn last_port(start: u16) -> u16 {
    if start + 99 <= 65535 {
        (start + 99) as u16
    } else {
        65535
    }
}

/// Find the first free port of the hundred from `start` on, as far as there
/// are that many. `is_free` tries to bind to a port. If none is free, `start`
/// is suggested.
pub fn suggest_port<F: Fn(u16) -> bool>(start: u16, is_free: F) -> (r: u16)
    requires
        forall|p: u16| call_requires(is_free, (p,)),
    ensures
        ({
            &&& start <= r <= last_port(start)
            &&& call_ensures(is_free, (r,), true)
            &&& forall|p: u16| start <= p < r ==> #[trigger] call_ensures(is_free, (p,), false)
        }) || ({
            &&& r == start
            &&& forall|p: u16|
                start <= p <= last_port(start) ==> #[trigger] call_ensures(is_free, (p,), false)
        }),
{
    let last: u16 = if start <= 65535 - 99 {
        start + 99
    } else {
        65535
    };
    let mut p: u16 = start;
    loop
        invariant
            last == last_port(start),
            start <= p <= last,
            forall|q: u16| call_requires(is_free, (q,)),
            forall|q: u16| start <= q < p ==> #[trigger] call_ensures(is_free, (q,), false),
        decreases last - p,
    {
        if is_free(p) {
            return p;
        }
        if p == last {
            return start;
        }
        p = p + 1;
    }
}

/// The resources of the host.
#[derive(Debug, Clone, Copy)]
pub struct SystemResources {
    pub cpu_cores: u32,
    pub memory_bytes: u64,
}

/// The resources of a host with that many processors, kept in 32 bits, and
/// that much memory.
pub fn get_system_resources(processors: usize, memory_bytes: u64) -> (r: SystemResources)
    ensures
        r.cpu_cores == processors as int % 0x1_0000_0000,
        r.memory_bytes == memory_bytes,
{
    let n: u64 = processors as u64;
    assert(n as u32 == n % 0x1_0000_0000u64) by (bit_vector);
    SystemResources { cpu_cores: n as u32, memory_bytes }
}

/// A hundred ports are tried, or all that are left if there are fewer.
pub proof fn law_hundred_ports_are_tried(start: u16)
    ensures
        last_port(start) >= start,
        start <= 65436 ==> last_port(start) - start + 1 == 100,
        start > 65436 ==> last_port(start) == 65535,
{
}

} // verus!
