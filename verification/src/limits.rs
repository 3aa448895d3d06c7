//! Resource limits: which ones a policy may set, how an execution narrows them, and the numbers
//! that the backends hand to the operating system.
use vstd::prelude::*;

use crate::error::{failure, Fault, SandboxError};
use crate::protocol::{ExecutionLimits, ResourceLimits};
use crate::text::concat3;

verus! {

pub const MAX_MEMORY_BYTES: u64 = 64 * 1024 * 1024 * 1024;

pub const MAX_OUTPUT_BYTES: u64 = 1024 * 1024 * 1024;

pub const MAX_PROCESSES: u32 = 4096;

pub const MAX_WALL_TIME_MS: u64 = 24 * 60 * 60 * 1000;

/// The period over which a control group accounts processor time, in microseconds.
pub const CGROUP_PERIOD: u64 = 100_000;

/// Whether every limit is set and none is above what the runtime supports.
pub open spec fn limits_in_range(limits: ResourceLimits) -> bool {
    &&& 0 < limits.wall_time_ms <= MAX_WALL_TIME_MS
    &&& 0 < limits.cpu_time_ms <= MAX_WALL_TIME_MS
    &&& 0 < limits.memory_bytes <= MAX_MEMORY_BYTES
    &&& 0 < limits.processes <= MAX_PROCESSES
    &&& 0 < limits.output_bytes <= MAX_OUTPUT_BYTES
}

/// The first limit that is out of range.
pub open spec fn limits_fault(limits: ResourceLimits) -> Option<Fault> {
    if !(0 < limits.wall_time_ms <= MAX_WALL_TIME_MS) {
        Some(Fault::InvalidPolicy("wallTimeMs is outside the supported range"@))
    } else if !(0 < limits.cpu_time_ms <= MAX_WALL_TIME_MS) {
        Some(Fault::InvalidPolicy("cpuTimeMs is outside the supported range"@))
    } else if !(0 < limits.memory_bytes <= MAX_MEMORY_BYTES) {
        Some(Fault::InvalidPolicy("memoryBytes is outside the supported range"@))
    } else if !(0 < limits.processes <= MAX_PROCESSES) {
        Some(Fault::InvalidPolicy("processes is outside the supported range"@))
    } else if !(0 < limits.output_bytes <= MAX_OUTPUT_BYTES) {
        Some(Fault::InvalidPolicy("outputBytes is outside the supported range"@))
    } else {
        None
    }
}

/// The limits of an execution: what it asks for, and the sandbox's own where it does not ask.
pub open spec fn requested_limits(
    maximum: ResourceLimits,
    requested: ExecutionLimits,
) -> ResourceLimits {
    ResourceLimits {
        wall_time_ms: requested.wall_time_ms.unwrap_or(maximum.wall_time_ms),
        cpu_time_ms: requested.cpu_time_ms.unwrap_or(maximum.cpu_time_ms),
        memory_bytes: requested.memory_bytes.unwrap_or(maximum.memory_bytes),
        processes: requested.processes.unwrap_or(maximum.processes),
        output_bytes: requested.output_bytes.unwrap_or(maximum.output_bytes),
    }
}

pub open spec fn expansion_fault(field: Seq<char>) -> Fault {
    Fault::InvalidPolicy(
        "execution "@ + field + " must be non-zero and cannot exceed the sandbox limit"@,
    )
}

/// Whether no limit is above the other set's.
pub open spec fn no_wider(inner: ResourceLimits, outer: ResourceLimits) -> bool {
    &&& inner.wall_time_ms <= outer.wall_time_ms
    &&& inner.cpu_time_ms <= outer.cpu_time_ms
    &&& inner.memory_bytes <= outer.memory_bytes
    &&& inner.processes <= outer.processes
    &&& inner.output_bytes <= outer.output_bytes
}

/// The first limit of an execution that is zero or above the sandbox's.
pub open spec fn narrow_fault(maximum: ResourceLimits, requested: ExecutionLimits) -> Option<
    Fault,
> {
    let wanted = requested_limits(maximum, requested);
    if !(0 < wanted.wall_time_ms <= maximum.wall_time_ms) {
        Some(expansion_fault("wall_time_ms"@))
    } else if !(0 < wanted.cpu_time_ms <= maximum.cpu_time_ms) {
        Some(expansion_fault("cpu_time_ms"@))
    } else if !(0 < wanted.memory_bytes <= maximum.memory_bytes) {
        Some(expansion_fault("memory_bytes"@))
    } else if !(0 < wanted.processes <= maximum.processes) {
        Some(expansion_fault("processes"@))
    } else if !(0 < wanted.output_bytes <= maximum.output_bytes) {
        Some(expansion_fault("output_bytes"@))
    } else {
        None
    }
}

/// An execution can only narrow limits: whatever it is granted is within the sandbox's limits, and
/// within the runtime's where the sandbox's are.
pub proof fn law_execution_only_narrows(maximum: ResourceLimits, requested: ExecutionLimits)
    requires
        narrow_fault(maximum, requested) is None,
    ensures
        no_wider(requested_limits(maximum, requested), maximum),
        limits_in_range(maximum) ==> limits_in_range(requested_limits(maximum, requested)),
{
}

/// Narrowing twice is narrowing once: what was granted can be granted again unchanged.
pub proof fn law_granted_limits_are_stable(maximum: ResourceLimits, requested: ExecutionLimits)
    requires
        narrow_fault(maximum, requested) is None,
    ensures
        narrow_fault(requested_limits(maximum, requested), requested) is None,
        requested_limits(requested_limits(maximum, requested), requested) == requested_limits(
            maximum,
            requested,
        ),
{
}

pub fn validate_limits(limits: &ResourceLimits) -> (r: Result<(), SandboxError>)
    ensures
        failure(r) == limits_fault(*limits),
        r is Ok <==> limits_in_range(*limits),
{
    if limits.wall_time_ms == 0 || limits.wall_time_ms > MAX_WALL_TIME_MS {
        return Err(SandboxError::invalid_policy("wallTimeMs is outside the supported range"));
    }
    if limits.cpu_time_ms == 0 || limits.cpu_time_ms > MAX_WALL_TIME_MS {
        return Err(SandboxError::invalid_policy("cpuTimeMs is outside the supported range"));
    }
    if limits.memory_bytes == 0 || limits.memory_bytes > MAX_MEMORY_BYTES {
        return Err(SandboxError::invalid_policy("memoryBytes is outside the supported range"));
    }
    if limits.processes == 0 || limits.processes > MAX_PROCESSES {
        return Err(SandboxError::invalid_policy("processes is outside the supported range"));
    }
    if limits.output_bytes == 0 || limits.output_bytes > MAX_OUTPUT_BYTES {
        return Err(SandboxError::invalid_policy("outputBytes is outside the supported range"));
    }
    Ok(())
}

fn expansion_error(field: &str) -> (r: SandboxError)
    ensures
        r@ == expansion_fault(field@),
{
    SandboxError::InvalidPolicy(
        concat3(
            "execution ",
            field,
            " must be non-zero and cannot exceed the sandbox limit",
        ),
    )
}

/// The limits of an execution, or the first one with which it asks for too much.
pub fn narrow_limits(maximum: &ResourceLimits, requested: &ExecutionLimits) -> (r: Result<
    ResourceLimits,
    SandboxError,
>)
    ensures
        failure(r) == narrow_fault(*maximum, *requested),
        r matches Ok(limits) ==> limits == requested_limits(*maximum, *requested),
{
    let wall_time_ms: u64 = requested.wall_time_ms.unwrap_or(maximum.wall_time_ms);
    if wall_time_ms == 0 || wall_time_ms > maximum.wall_time_ms {
        return Err(expansion_error("wall_time_ms"));
    }
    let cpu_time_ms: u64 = requested.cpu_time_ms.unwrap_or(maximum.cpu_time_ms);
    if cpu_time_ms == 0 || cpu_time_ms > maximum.cpu_time_ms {
        return Err(expansion_error("cpu_time_ms"));
    }
    let memory_bytes: u64 = requested.memory_bytes.unwrap_or(maximum.memory_bytes);
    if memory_bytes == 0 || memory_bytes > maximum.memory_bytes {
        return Err(expansion_error("memory_bytes"));
    }
    let processes: u32 = requested.processes.unwrap_or(maximum.processes);
    if processes == 0 || processes > maximum.processes {
        return Err(expansion_error("processes"));
    }
    let output_bytes: u64 = requested.output_bytes.unwrap_or(maximum.output_bytes);
    if output_bytes == 0 || output_bytes > maximum.output_bytes {
        return Err(expansion_error("output_bytes"));
    }
    Ok(ResourceLimits { wall_time_ms, cpu_time_ms, memory_bytes, processes, output_bytes })
}

/// The greatest number that a machine word of sixty-four bits holds, or the product where it fits.
pub open spec fn saturated_product(a: int, b: int) -> int {
    if a * b <= u64::MAX {
        a * b
    } else {
        u64::MAX as int
    }
}

pub open spec fn clamped(n: int, low: int, high: int) -> int {
    if n < low {
        low
    } else if n > high {
        high
    } else {
        n
    }
}

/// The product of two numbers, or the greatest number where it does not fit.
pub fn saturating_product(a: u64, b: u64) -> (r: u64)
    ensures
        r == saturated_product(a as int, b as int),
{
    match a.checked_mul(b) {
        Some(product) => product,
        None => u64::MAX,
    }
}

fn clamp(n: u64, low: u64, high: u64) -> (r: u64)
    requires
        low <= high,
    ensures
        r == clamped(n as int, low as int, high as int),
{
    if n < low {
        low
    } else if n > high {
        high
    } else {
        n
    }
}

/// The limits of a Windows job object.
#[derive(Debug, Clone, Copy, PartialEq, Eq)]
pub struct JobLimits {
    pub memory_bytes: usize,
    pub cpu_rate_percent: u32,
    pub kill_on_job_close: bool,
}

/// The share of the wall time, in percent, that the processor time may take: at least one percent.
pub open spec fn cpu_rate(limits: ResourceLimits) -> int {
    clamped(saturated_product(limits.cpu_time_ms as int, 100) / limits.wall_time_ms as int, 1, 100)
}

/// The job limits that stand for resource limits. The job dies with its last handle.
pub fn job_limits(limits: &ResourceLimits) -> (r: JobLimits)
    requires
        limits.wall_time_ms > 0,
    ensures
        r.memory_bytes == if limits.memory_bytes <= usize::MAX {
            limits.memory_bytes as int
        } else {
            usize::MAX as int
        },
        r.cpu_rate_percent == cpu_rate(*limits),
        r.kill_on_job_close,
{
    let rate: u64 = clamp(
        saturating_product(limits.cpu_time_ms, 100) / limits.wall_time_ms,
        1,
        100,
    );
    let memory_bytes: usize = if limits.memory_bytes <= usize::MAX as u64 {
        limits.memory_bytes as usize
    } else {
        usize::MAX
    };
    JobLimits { memory_bytes, cpu_rate_percent: rate as u32, kill_on_job_close: true }
}

/// The processor time in each period that a control group may use, in microseconds.
pub open spec fn quota(limits: ResourceLimits) -> int {
    let wall = if limits.wall_time_ms == 0 {
        1
    } else {
        limits.wall_time_ms as int
    };
    clamped(
        saturated_product(limits.cpu_time_ms as int, CGROUP_PERIOD as int) / wall,
        1_000,
        CGROUP_PERIOD as int,
    )
}

pub fn cgroup_quota(limits: &ResourceLimits) -> (r: u64)
    ensures
        r == quota(*limits),
        1_000 <= r <= CGROUP_PERIOD,
{
    let wall: u64 = if limits.wall_time_ms == 0 {
        1
    } else {
        limits.wall_time_ms
    };
    clamp(saturating_product(limits.cpu_time_ms, CGROUP_PERIOD) / wall, 1_000, CGROUP_PERIOD)
}

/// Milliseconds as whole seconds, rounded up.
pub open spec fn whole_seconds(ms: int) -> int {
    if ms + 999 <= u64::MAX {
        (ms + 999) / 1000
    } else {
        u64::MAX as int / 1000
    }
}

/// The processor-time limit of a process in seconds.
pub fn cpu_seconds(limits: &ResourceLimits) -> (r: u64)
    ensures
        r == whole_seconds(limits.cpu_time_ms as int),
{
    limits.cpu_time_ms.saturating_add(999) / 1000
}

/// Whether a control group has used up its processor time.
pub fn cpu_time_used_up(usage_usec: Option<u64>, cpu_time_ms: u64) -> (r: bool)
    ensures
        r == (usage_usec matches Some(usage) && usage >= saturated_product(
            cpu_time_ms as int,
            1_000,
        )),
{
    match usage_usec {
        Some(usage) => usage >= saturating_product(cpu_time_ms, 1_000),
        None => false,
    }
}

/// The job's processor rate never allows more processor time than the limit does, but for the one
/// percent that every job may use: `rate` percent of the wall time is at most the processor time.
pub proof fn law_cpu_rate_keeps_the_limit(limits: ResourceLimits)
    requires
        limits_in_range(limits),
    ensures
        1 <= cpu_rate(limits) <= 100,
        cpu_rate(limits) > 1 ==> cpu_rate(limits) * limits.wall_time_ms <= limits.cpu_time_ms
            * 100,
{
    let cpu = limits.cpu_time_ms as int;
    let wall = limits.wall_time_ms as int;
    let product = cpu * 100;
    let q = product / wall;
    assert(q * wall <= product) by (nonlinear_arith)
        requires
            wall > 0,
            q == product / wall,
    ;
    let rate = cpu_rate(limits);
    if rate > 1 {
        assert(rate * wall <= q * wall) by (nonlinear_arith)
            requires
                rate <= q,
                wall > 0,
        ;
    }
}

/// The same of a control group: its quota never allows more processor time over the wall time than
/// the limit, but for the smallest quota that the kernel accepts.
pub proof fn law_quota_keeps_the_limit(limits: ResourceLimits)
    requires
        limits_in_range(limits),
    ensures
        1_000 <= quota(limits) <= CGROUP_PERIOD,
        quota(limits) > 1_000 ==> quota(limits) * limits.wall_time_ms <= limits.cpu_time_ms
            * CGROUP_PERIOD,
{
    let cpu = limits.cpu_time_ms as int;
    let wall = limits.wall_time_ms as int;
    let product = cpu * 100_000;
    let q = product / wall;
    assert(q * wall <= product) by (nonlinear_arith)
        requires
            wall > 0,
            q == product / wall,
    ;
    let rate = quota(limits);
    if rate > 1_000 {
        assert(rate * wall <= q * wall) by (nonlinear_arith)
            requires
                rate <= q,
                wall > 0,
        ;
    }
}

/// Each limit that an execution names is what it gets, and is refused unless it is at least one and
/// at most the sandbox's; a limit that it does not name is the sandbox's. An execution that names
/// only such limits is never refused for them.
pub proof fn law_each_named_limit_is_granted(maximum: ResourceLimits, requested: ExecutionLimits)
    requires
        limits_in_range(maximum),
    ensures
        narrow_fault(maximum, requested) is None <==> {
            &&& (requested.wall_time_ms matches Some(v) ==> 1 <= v <= maximum.wall_time_ms)
            &&& (requested.cpu_time_ms matches Some(v) ==> 1 <= v <= maximum.cpu_time_ms)
            &&& (requested.memory_bytes matches Some(v) ==> 1 <= v <= maximum.memory_bytes)
            &&& (requested.processes matches Some(v) ==> 1 <= v <= maximum.processes)
            &&& (requested.output_bytes matches Some(v) ==> 1 <= v <= maximum.output_bytes)
        },
        ({
            let granted = requested_limits(maximum, requested);
            &&& (requested.wall_time_ms matches Some(v) ==> granted.wall_time_ms == v)
            &&& (requested.cpu_time_ms matches Some(v) ==> granted.cpu_time_ms == v)
            &&& (requested.memory_bytes matches Some(v) ==> granted.memory_bytes == v)
            &&& (requested.processes matches Some(v) ==> granted.processes == v)
            &&& (requested.output_bytes matches Some(v) ==> granted.output_bytes == v)
            &&& requested.wall_time_ms is None ==> granted.wall_time_ms == maximum.wall_time_ms
            &&& requested.cpu_time_ms is None ==> granted.cpu_time_ms == maximum.cpu_time_ms
            &&& requested.memory_bytes is None ==> granted.memory_bytes == maximum.memory_bytes
            &&& requested.processes is None ==> granted.processes == maximum.processes
            &&& requested.output_bytes is None ==> granted.output_bytes == maximum.output_bytes
        }),
{
}

/// The limits that a policy may set: a day of time, sixty-four gibibytes of memory, four thousand
/// and ninety-six processes and a gibibyte of output at the most, and nothing of it zero.
pub proof fn law_supported_limits(limits: ResourceLimits)
    ensures
        limits_fault(limits) is None <==> {
            &&& 1 <= limits.wall_time_ms <= 86_400_000
            &&& 1 <= limits.cpu_time_ms <= 86_400_000
            &&& 1 <= limits.memory_bytes <= 68_719_476_736
            &&& 1 <= limits.processes <= 4_096
            &&& 1 <= limits.output_bytes <= 1_073_741_824
        },
        limits_fault(limits) is None <==> limits_in_range(limits),
{
}

/// The job's processor rate is the greatest whole percentage that keeps the limit: one percent more
/// would allow more processor time, unless the whole processor is already allowed.
pub proof fn law_cpu_rate_is_the_greatest(limits: ResourceLimits)
    requires
        limits_in_range(limits),
    ensures
        cpu_rate(limits) < 100 ==> (cpu_rate(limits) + 1) * limits.wall_time_ms
            > limits.cpu_time_ms * 100,
        limits.cpu_time_ms >= limits.wall_time_ms ==> cpu_rate(limits) == 100,
{
    let cpu = limits.cpu_time_ms as int;
    let wall = limits.wall_time_ms as int;
    let product = cpu * 100;
    let q = product / wall;
    let rate = cpu_rate(limits);
    assert((q + 1) * wall > product) by (nonlinear_arith)
        requires
            wall > 0,
            q == product / wall,
    ;
    if rate < 100 {
        assert((rate + 1) * wall >= (q + 1) * wall) by (nonlinear_arith)
            requires
                rate >= q,
                wall > 0,
        ;
    }
    if cpu >= wall {
        assert(q >= 100) by (nonlinear_arith)
            requires
                wall > 0,
                q == product / wall,
                product >= 100 * wall,
        ;
    }
}

/// The same of a control group's quota.
pub proof fn law_quota_is_the_greatest(limits: ResourceLimits)
    requires
        limits_in_range(limits),
    ensures
        quota(limits) < 100_000 ==> (quota(limits) + 1) * limits.wall_time_ms > limits.cpu_time_ms
            * 100_000,
        limits.cpu_time_ms >= limits.wall_time_ms ==> quota(limits) == 100_000,
{
    let cpu = limits.cpu_time_ms as int;
    let wall = limits.wall_time_ms as int;
    let product = cpu * 100_000;
    let q = product / wall;
    let most = quota(limits);
    assert((q + 1) * wall > product) by (nonlinear_arith)
        requires
            wall > 0,
            q == product / wall,
    ;
    if most < 100_000 {
        assert((most + 1) * wall >= (q + 1) * wall) by (nonlinear_arith)
            requires
                most >= q,
                wall > 0,
        ;
    }
    if cpu >= wall {
        assert(q >= 100_000) by (nonlinear_arith)
            requires
                wall > 0,
                q == product / wall,
                product >= 100_000 * wall,
        ;
    }
}

/// Whole seconds are never less than the milliseconds that they stand for, and less than a second
/// more.
pub proof fn law_seconds_round_up(ms: int)
    requires
        0 <= ms <= u64::MAX - 999,
    ensures
        ms <= whole_seconds(ms) * 1_000 < ms + 1_000,
{
}

/// A product that fits is what it is, and one that does not fit is the greatest number.
pub proof fn law_products_do_not_wrap(a: u64, b: u64)
    ensures
        a * b <= u64::MAX ==> saturated_product(a as int, b as int) == a * b,
        a * b > u64::MAX ==> saturated_product(a as int, b as int) == u64::MAX,
{
}

} // verus!
