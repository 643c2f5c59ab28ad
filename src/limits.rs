use vstd::prelude::*;

verus! {

/// The resource ceilings asked for one process; `None` leaves a ceiling as it is.
#[derive(Clone, Copy, Debug, PartialEq, Eq)]
pub struct ProcessLimits {
    pub pid: u32,
    pub max_memory_mb: Option<u64>,
    pub max_open_files: Option<u64>,
}

/// A resource whose ceiling can be set.
#[derive(Clone, Copy, Debug, PartialEq, Eq)]
pub enum LimitResource {
    /// The address space, in bytes.
    AddressSpace,
    /// The number of open file descriptors.
    OpenFiles,
}

/// One ceiling to apply: soft and hard limit both set to `value`.
#[derive(Clone, Copy, Debug, PartialEq, Eq)]
pub struct LimitRequest {
    pub resource: LimitResource,
    pub value: u64,
}

/// Why a set of ceilings could not be turned into requests.
#[derive(Clone, Copy, Debug, PartialEq, Eq)]
pub enum LimitsError {
    /// The memory ceiling, in MiB, does not fit in 64 bits once expressed in bytes.
    MemoryTooLarge(u64),
}

/// Bytes in one MiB.
pub const BYTES_PER_MB: u64 = 1048576;

/// The requests for `limits`: the memory ceiling in bytes first, if asked, then the file ceiling.
pub open spec fn limit_requests_spec(limits: ProcessLimits) -> Seq<LimitRequest> {
    let mem = match limits.max_memory_mb {
        Some(mb) => seq![LimitRequest { resource: LimitResource::AddressSpace, value: (mb * BYTES_PER_MB) as u64 }],
        None => Seq::<LimitRequest>::empty(),
    };
    let files = match limits.max_open_files {
        Some(n) => seq![LimitRequest { resource: LimitResource::OpenFiles, value: n }],
        None => Seq::<LimitRequest>::empty(),
    };
    mem + files
}

/// The memory ceiling of `limits` is too large to express in bytes.
pub open spec fn memory_overflows(limits: ProcessLimits) -> bool {
    match limits.max_memory_mb {
        Some(mb) => mb * BYTES_PER_MB > u64::MAX,
        None => false,
    }
}

/// Turns ceilings into the requests to apply, in order.
pub fn limit_requests(limits: &ProcessLimits) -> (r: Result<Vec<LimitRequest>, LimitsError>)
    ensures
        memory_overflows(*limits) ==> r == Err::<Vec<LimitRequest>, LimitsError>(
            LimitsError::MemoryTooLarge(limits.max_memory_mb.unwrap()),
        ),
        !memory_overflows(*limits) ==> r is Ok && r->Ok_0@ == limit_requests_spec(*limits),
{
    let mut out: Vec<LimitRequest> = Vec::new();
    match limits.max_memory_mb {
        Some(mb) => match mb.checked_mul(BYTES_PER_MB) {
            Some(bytes) => {
                out.push(LimitRequest { resource: LimitResource::AddressSpace, value: bytes });
            },
            None => {
                return Err(LimitsError::MemoryTooLarge(mb));
            },
        },
        None => {},
    }
    match limits.max_open_files {
        Some(n) => {
            out.push(LimitRequest { resource: LimitResource::OpenFiles, value: n });
        },
        None => {},
    }
    proof {
        assert(out@ =~= limit_requests_spec(*limits));
    }
    Ok(out)
}

/// A scheduling class, from most to least favoured.
#[derive(Clone, Copy, Debug, PartialEq, Eq)]
pub enum PriorityClass {
    Realtime,
    High,
    AboveNormal,
    Normal,
    BelowNormal,
    Idle,
}

/// The class for a nice-style priority: the lower the value, the more favoured.
pub open spec fn priority_class_spec(priority: i32) -> PriorityClass {
    if priority <= -15 {
        PriorityClass::Realtime
    } else if priority <= -10 {
        PriorityClass::High
    } else if priority <= -5 {
        PriorityClass::AboveNormal
    } else if priority <= 0 {
        PriorityClass::Normal
    } else if priority <= 5 {
        PriorityClass::BelowNormal
    } else {
        PriorityClass::Idle
    }
}

/// Maps a nice-style priority onto a scheduling class.
pub fn priority_class(priority: i32) -> (r: PriorityClass)
    ensures
        r == priority_class_spec(priority),
{
    if priority <= -15 {
        PriorityClass::Realtime
    } else if priority <= -10 {
        PriorityClass::High
    } else if priority <= -5 {
        PriorityClass::AboveNormal
    } else if priority <= 0 {
        PriorityClass::Normal
    } else if priority <= 5 {
        PriorityClass::BelowNormal
    } else {
        PriorityClass::Idle
    }
}

} // verus!
