use vstd::prelude::*;
use crate::ast::{contains_name, names_view};
use crate::text::{chars_to_string, dec_digits, has_prefix, str_has_prefix, str_to_chars, u64_to_string, usize_to_string};

verus! {

/// Mathematical model of a capability.
pub enum CapV {
    FileRead(Seq<char>),
    FileWrite(Seq<char>),
    NetworkHTTP,
    SystemTime,
    ProcessSpawn,
    UnsafeRust,
}

/// A specific permission that sandboxed code can be granted. File paths are
/// carried as plain path text.
#[derive(Debug, PartialEq)]
pub enum Capability {
    /// Allow reading from a specific file path.
    FileRead(String),
    /// Allow writing to a specific file path.
    FileWrite(String),
    /// Allow HTTP network requests.
    NetworkHTTP,
    /// Allow accessing system time.
    SystemTime,
    /// Allow spawning child processes.
    ProcessSpawn,
    /// Allow using unsafe host-language features.
    UnsafeRust,
}

impl View for Capability {
    type V = CapV;

    open spec fn view(&self) -> CapV {
        match self {
            Capability::FileRead(p) => CapV::FileRead(p@),
            Capability::FileWrite(p) => CapV::FileWrite(p@),
            Capability::NetworkHTTP => CapV::NetworkHTTP,
            Capability::SystemTime => CapV::SystemTime,
            Capability::ProcessSpawn => CapV::ProcessSpawn,
            Capability::UnsafeRust => CapV::UnsafeRust,
        }
    }
}

impl Clone for Capability {
    /// A copy that models the same capability.
    fn clone(&self) -> (r: Self)
        ensures
            r@ == self@,
    {
        match self {
            Capability::FileRead(p) => Capability::FileRead(p.clone()),
            Capability::FileWrite(p) => Capability::FileWrite(p.clone()),
            Capability::NetworkHTTP => Capability::NetworkHTTP,
            Capability::SystemTime => Capability::SystemTime,
            Capability::ProcessSpawn => Capability::ProcessSpawn,
            Capability::UnsafeRust => Capability::UnsafeRust,
        }
    }
}

/// Structural equality of capabilities.
fn cap_eq(a: &Capability, b: &Capability) -> (r: bool)
    ensures
        r == (a@ == b@),
{
    match (a, b) {
        (Capability::FileRead(p), Capability::FileRead(q)) => *p == *q,
        (Capability::FileWrite(p), Capability::FileWrite(q)) => *p == *q,
        (Capability::NetworkHTTP, Capability::NetworkHTTP) => true,
        (Capability::SystemTime, Capability::SystemTime) => true,
        (Capability::ProcessSpawn, Capability::ProcessSpawn) => true,
        (Capability::UnsafeRust, Capability::UnsafeRust) => true,
        _ => false,
    }
}

/// The rendering of a capability inside messages.
pub open spec fn cap_text(c: CapV) -> Seq<char> {
    match c {
        CapV::FileRead(p) => "FileRead(\""@ + p + "\")"@,
        CapV::FileWrite(p) => "FileWrite(\""@ + p + "\")"@,
        CapV::NetworkHTTP => "NetworkHTTP"@,
        CapV::SystemTime => "SystemTime"@,
        CapV::ProcessSpawn => "ProcessSpawn"@,
        CapV::UnsafeRust => "UnsafeRust"@,
    }
}

/// The views of a list of capabilities, element by element.
pub open spec fn caps_view(s: Seq<Capability>) -> Seq<CapV> {
    Seq::new(s.len(), |i: int| s[i]@)
}

/// Whether some capability in the list models `c`.
fn caps_contains(v: &Vec<Capability>, c: &Capability) -> (r: bool)
    ensures
        r == caps_view(v@).contains(c@),
{
    let mut i: usize = 0;
    while i < v.len()
        invariant
            i <= v.len(),
            forall|k: int| 0 <= k < i ==> v@[k]@ != c@,
        decreases v.len() - i,
    {
        if cap_eq(&v[i], c) {
            proof {
                assert(caps_view(v@)[i as int] == c@);
            }
            return true;
        }
        i += 1;
    }
    proof {
        assert forall|k: int| 0 <= k < caps_view(v@).len() implies caps_view(v@)[k] != c@ by {}
    }
    false
}

/// Configuration of the sandboxed execution environment. Durations are
/// carried in milliseconds, file paths as plain path text.
#[derive(Debug)]
pub struct SandboxConfig {
    /// Maximum memory usage in bytes.
    pub max_memory: usize,
    /// Maximum execution time, in milliseconds.
    pub max_execution_time: u64,
    /// Allowed file paths for read and write operations.
    pub allowed_file_paths: Vec<String>,
    /// Whether network access is permitted.
    pub permitted_network_access: bool,
    /// The allowed host standard-library APIs.
    pub safe_rust_apis: Vec<String>,
    /// The granted capabilities.
    pub capabilities: Vec<Capability>,
}

/// The API names every fresh configuration allows.
pub open spec fn default_safe_api_names() -> Seq<Seq<char>> {
    seq![
        "std::println"@,
        "std::print"@,
        "std::format"@,
        "std::vec::Vec"@,
        "std::string::String"@,
        "std::collections::HashMap"@,
        "std::collections::HashSet"@,
        "std::option::Option"@,
        "std::result::Result"@,
        "std::cmp"@,
        "std::ops"@,
    ]
}

impl SandboxConfig {
    /// A fresh configuration with strict defaults: 100 MiB of memory,
    /// thirty seconds of run time, no file paths, no network, no
    /// capabilities, and only the default safe APIs.
    pub fn new() -> (r: SandboxConfig)
        ensures
            r.max_memory == 104857600,
            r.max_execution_time == 30000,
            r.allowed_file_paths@.len() == 0,
            !r.permitted_network_access,
            names_view(r.safe_rust_apis@) == default_safe_api_names(),
            r.capabilities@.len() == 0,
    {
        let r = SandboxConfig {
            max_memory: 104857600,
            max_execution_time: 30000,
            allowed_file_paths: Vec::new(),
            permitted_network_access: false,
            safe_rust_apis: Self::default_safe_apis(),
            capabilities: Vec::new(),
        };
        r
    }

    /// The default set of safe host APIs.
    fn default_safe_apis() -> (r: Vec<String>)
        ensures
            names_view(r@) == default_safe_api_names(),
    {
        let mut apis: Vec<String> = Vec::new();
        apis.push("std::println".to_owned());
        apis.push("std::print".to_owned());
        apis.push("std::format".to_owned());
        apis.push("std::vec::Vec".to_owned());
        apis.push("std::string::String".to_owned());
        apis.push("std::collections::HashMap".to_owned());
        apis.push("std::collections::HashSet".to_owned());
        apis.push("std::option::Option".to_owned());
        apis.push("std::result::Result".to_owned());
        apis.push("std::cmp".to_owned());
        apis.push("std::ops".to_owned());
        proof {
            assert(names_view(apis@) =~= default_safe_api_names());
        }
        apis
    }

    /// Grant a capability.
    pub fn add_capability(&mut self, capability: Capability)
        ensures
            final(self).capabilities@ == old(self).capabilities@.push(capability),
            final(self).max_memory == old(self).max_memory,
            final(self).max_execution_time == old(self).max_execution_time,
            final(self).allowed_file_paths == old(self).allowed_file_paths,
            final(self).permitted_network_access == old(self).permitted_network_access,
            final(self).safe_rust_apis == old(self).safe_rust_apis,
    {
        self.capabilities.push(capability);
    }

    /// Whether a capability has been granted.
    pub fn has_capability(&self, capability: &Capability) -> (r: bool)
        ensures
            r == caps_view(self.capabilities@).contains(capability@),
    {
        caps_contains(&self.capabilities, capability)
    }

    /// Set the maximum memory limit, in bytes.
    pub fn with_max_memory(self, bytes: usize) -> (r: SandboxConfig)
        ensures
            r.max_memory == bytes,
            r.max_execution_time == self.max_execution_time,
            r.allowed_file_paths == self.allowed_file_paths,
            r.permitted_network_access == self.permitted_network_access,
            r.safe_rust_apis == self.safe_rust_apis,
            r.capabilities == self.capabilities,
    {
        SandboxConfig { max_memory: bytes, ..self }
    }

    /// Set the maximum execution time, in milliseconds.
    pub fn with_max_execution_time(self, millis: u64) -> (r: SandboxConfig)
        ensures
            r.max_execution_time == millis,
            r.max_memory == self.max_memory,
            r.allowed_file_paths == self.allowed_file_paths,
            r.permitted_network_access == self.permitted_network_access,
            r.safe_rust_apis == self.safe_rust_apis,
            r.capabilities == self.capabilities,
    {
        SandboxConfig { max_execution_time: millis, ..self }
    }

    /// Allow one more file path.
    pub fn allow_file_path(self, path: String) -> (r: SandboxConfig)
        ensures
            r.allowed_file_paths@ == self.allowed_file_paths@.push(path),
            r.max_memory == self.max_memory,
            r.max_execution_time == self.max_execution_time,
            r.permitted_network_access == self.permitted_network_access,
            r.safe_rust_apis == self.safe_rust_apis,
            r.capabilities == self.capabilities,
    {
        let mut c = self;
        c.allowed_file_paths.push(path);
        c
    }

    /// Enable or disable network access.
    pub fn with_network_access(self, enabled: bool) -> (r: SandboxConfig)
        ensures
            r.permitted_network_access == enabled,
            r.max_memory == self.max_memory,
            r.max_execution_time == self.max_execution_time,
            r.allowed_file_paths == self.allowed_file_paths,
            r.safe_rust_apis == self.safe_rust_apis,
            r.capabilities == self.capabilities,
    {
        SandboxConfig { permitted_network_access: enabled, ..self }
    }
}

impl Default for SandboxConfig {
    /// The same strict defaults as `SandboxConfig::new`.
    fn default() -> (r: Self)
        ensures
            r.max_memory == 104857600,
            r.max_execution_time == 30000,
            r.allowed_file_paths@.len() == 0,
            !r.permitted_network_access,
            names_view(r.safe_rust_apis@) == default_safe_api_names(),
            r.capabilities@.len() == 0,
    {
        Self::new()
    }
}

/// Mathematical model of a sandbox violation.
pub enum ViolationV {
    MemoryLimit { limit: int, attempted: int },
    ExecutionTime { limit: int, elapsed: int },
    FileAccess(Seq<char>),
    NetworkAccess,
    UnsafeRust,
    ProcessSpawn,
    ApiUsage(Seq<char>),
    MissingCapability(CapV),
}

/// A breach of the sandbox's boundaries.
#[derive(Debug, PartialEq)]
pub enum SandboxViolation {
    /// Exceeded the maximum memory limit.
    MemoryLimitExceeded { limit: usize, attempted: usize },
    /// Exceeded the maximum execution time, in milliseconds.
    ExecutionTimeExceeded { limit: u64, elapsed: u64 },
    /// Attempted to access an unauthorized file path.
    UnauthorizedFileAccess { path: String },
    /// Attempted network access without permission.
    UnauthorizedNetworkAccess,
    /// Attempted to use unsafe host-language features without permission.
    UnsafeRustNotPermitted,
    /// Attempted to spawn a process without permission.
    ProcessSpawnNotPermitted,
    /// Attempted to use a disallowed API.
    DisallowedAPIUsage { api: String },
    /// A required capability is missing.
    MissingCapability { capability: Capability },
}

impl View for SandboxViolation {
    type V = ViolationV;

    open spec fn view(&self) -> ViolationV {
        match self {
            SandboxViolation::MemoryLimitExceeded { limit, attempted } => ViolationV::MemoryLimit {
                limit: *limit as int,
                attempted: *attempted as int,
            },
            SandboxViolation::ExecutionTimeExceeded { limit, elapsed } =>
                ViolationV::ExecutionTime { limit: *limit as int, elapsed: *elapsed as int },
            SandboxViolation::UnauthorizedFileAccess { path } => ViolationV::FileAccess(path@),
            SandboxViolation::UnauthorizedNetworkAccess => ViolationV::NetworkAccess,
            SandboxViolation::UnsafeRustNotPermitted => ViolationV::UnsafeRust,
            SandboxViolation::ProcessSpawnNotPermitted => ViolationV::ProcessSpawn,
            SandboxViolation::DisallowedAPIUsage { api } => ViolationV::ApiUsage(api@),
            SandboxViolation::MissingCapability { capability } => ViolationV::MissingCapability(
                capability@,
            ),
        }
    }
}

impl Clone for SandboxViolation {
    /// A copy that models the same violation.
    fn clone(&self) -> (r: Self)
        ensures
            r@ == self@,
    {
        match self {
            SandboxViolation::MemoryLimitExceeded { limit, attempted } =>
                SandboxViolation::MemoryLimitExceeded { limit: *limit, attempted: *attempted },
            SandboxViolation::ExecutionTimeExceeded { limit, elapsed } =>
                SandboxViolation::ExecutionTimeExceeded { limit: *limit, elapsed: *elapsed },
            SandboxViolation::UnauthorizedFileAccess { path } =>
                SandboxViolation::UnauthorizedFileAccess { path: path.clone() },
            SandboxViolation::UnauthorizedNetworkAccess =>
                SandboxViolation::UnauthorizedNetworkAccess,
            SandboxViolation::UnsafeRustNotPermitted => SandboxViolation::UnsafeRustNotPermitted,
            SandboxViolation::ProcessSpawnNotPermitted =>
                SandboxViolation::ProcessSpawnNotPermitted,
            SandboxViolation::DisallowedAPIUsage { api } => SandboxViolation::DisallowedAPIUsage {
                api: api.clone(),
            },
            SandboxViolation::MissingCapability { capability } =>
                SandboxViolation::MissingCapability { capability: capability.clone() },
        }
    }
}

/// The rendering of a violation.
pub open spec fn violation_text(v: ViolationV) -> Seq<char> {
    match v {
        ViolationV::MemoryLimit { limit, attempted } => "Memory limit exceeded: limit="@
            + dec_digits(limit) + " bytes, attempted="@ + dec_digits(attempted) + " bytes"@,
        ViolationV::ExecutionTime { limit, elapsed } => "Execution time exceeded: limit="@
            + dec_digits(limit) + "ms, elapsed="@ + dec_digits(elapsed) + "ms"@,
        ViolationV::FileAccess(p) => "Unauthorized file access: "@ + p,
        ViolationV::NetworkAccess => "Unauthorized network access attempted"@,
        ViolationV::UnsafeRust => "Unsafe Rust features not permitted in sandbox mode"@,
        ViolationV::ProcessSpawn => "Process spawning not permitted in sandbox mode"@,
        ViolationV::ApiUsage(a) => "Disallowed API usage: "@ + a,
        ViolationV::MissingCapability(c) => "Missing required capability: "@ + cap_text(c),
    }
}

impl SandboxViolation {
    /// The human-readable rendering of this violation.
    pub fn render(&self) -> (r: String)
        ensures
            r@ == violation_text(self@),
    {
        match self {
            SandboxViolation::MemoryLimitExceeded { limit, attempted } => {
                let mut s = "Memory limit exceeded: limit=".to_owned();
                let l = usize_to_string(*limit);
                s.append(l.as_str());
                s.append(" bytes, attempted=");
                let a = usize_to_string(*attempted);
                s.append(a.as_str());
                s.append(" bytes");
                proof {
                    assert(s@ =~= violation_text(self@));
                }
                s
            },
            SandboxViolation::ExecutionTimeExceeded { limit, elapsed } => {
                let mut s = "Execution time exceeded: limit=".to_owned();
                let l = u64_to_string(*limit);
                s.append(l.as_str());
                s.append("ms, elapsed=");
                let e = u64_to_string(*elapsed);
                s.append(e.as_str());
                s.append("ms");
                proof {
                    assert(s@ =~= violation_text(self@));
                }
                s
            },
            SandboxViolation::UnauthorizedFileAccess { path } => {
                let mut s = "Unauthorized file access: ".to_owned();
                s.append(path.as_str());
                proof {
                    assert(s@ =~= violation_text(self@));
                }
                s
            },
            SandboxViolation::UnauthorizedNetworkAccess => {
                "Unauthorized network access attempted".to_owned()
            },
            SandboxViolation::UnsafeRustNotPermitted => {
                "Unsafe Rust features not permitted in sandbox mode".to_owned()
            },
            SandboxViolation::ProcessSpawnNotPermitted => {
                "Process spawning not permitted in sandbox mode".to_owned()
            },
            SandboxViolation::DisallowedAPIUsage { api } => {
                let mut s = "Disallowed API usage: ".to_owned();
                s.append(api.as_str());
                proof {
                    assert(s@ =~= violation_text(self@));
                }
                s
            },
            SandboxViolation::MissingCapability { capability } => {
                let mut s = "Missing required capability: ".to_owned();
                match capability {
                    Capability::FileRead(p) => {
                        s.append("FileRead(\"");
                        s.append(p.as_str());
                        s.append("\")");
                    },
                    Capability::FileWrite(p) => {
                        s.append("FileWrite(\"");
                        s.append(p.as_str());
                        s.append("\")");
                    },
                    Capability::NetworkHTTP => {
                        s.append("NetworkHTTP");
                    },
                    Capability::SystemTime => {
                        s.append("SystemTime");
                    },
                    Capability::ProcessSpawn => {
                        s.append("ProcessSpawn");
                    },
                    Capability::UnsafeRust => {
                        s.append("UnsafeRust");
                    },
                }
                proof {
                    assert(s@ =~= violation_text(self@));
                }
                s
            },
        }
    }
}


// ---------------------------------------------------------------------------
// The runtime monitor
// ---------------------------------------------------------------------------

#[verifier::external_type_specification]
#[verifier::external_body]
pub struct ExInstant(std::time::Instant);

/// Relies on `std::time::Instant::now`: an opaque reading of the monotonic
/// clock. Nothing is assumed of its value.
#[verifier::external_body]
fn instant_now() -> std::time::Instant {
    std::time::Instant::now()
}

/// Relies on `std::time::Instant::elapsed`: the milliseconds since the
/// reading was taken, saturated at the integer limit. The value depends on
/// the clock, so nothing is promised of it.
#[verifier::external_body]
fn elapsed_millis(start: &std::time::Instant) -> u64 {
    let ms = start.elapsed().as_millis();
    if ms > u64::MAX as u128 {
        u64::MAX
    } else {
        ms as u64
    }
}

/// Strip the trailing slashes of a path prefix.
pub open spec fn strip_trailing_slashes(s: Seq<char>) -> Seq<char>
    decreases s.len(),
{
    if s.len() > 0 && s.last() == '/' {
        strip_trailing_slashes(s.drop_last())
    } else {
        s
    }
}

/// A path lies under a prefix when the prefix's text, less trailing
/// slashes, starts the path at a component boundary; an empty prefix admits
/// every path.
pub open spec fn path_under(path: Seq<char>, pre: Seq<char>) -> bool {
    let q = strip_trailing_slashes(pre);
    q.len() == 0 || (has_prefix(path, q) && (path.len() == q.len() || path[q.len() as int]
        == '/'))
}

/// Whether the path lies under the prefix.
fn path_under_exec(path: &String, pre: &String) -> (r: bool)
    ensures
        r == path_under(path@, pre@),
{
    let pc = str_to_chars(pre.as_str());
    let mut q_end: usize = pc.len();
    proof {
        assert(pre@.take(pre@.len() as int) =~= pre@);
    }
    while q_end > 0 && pc[q_end - 1] == '/'
        invariant
            q_end <= pc.len(),
            pc@ == pre@,
            strip_trailing_slashes(pre@) == strip_trailing_slashes(pre@.take(q_end as int)),
        decreases q_end,
    {
        proof {
            assert(pre@.take(q_end as int).last() == '/');
            assert(pre@.take(q_end as int).drop_last() =~= pre@.take(q_end as int - 1));
        }
        q_end -= 1;
    }
    proof {
        assert(strip_trailing_slashes(pre@.take(q_end as int)) == pre@.take(q_end as int));
    }
    if q_end == 0 {
        return true;
    }
    let tc = str_to_chars(path.as_str());
    let ghost q = strip_trailing_slashes(pre@);
    if q_end > tc.len() {
        proof {
            assert(!has_prefix(path@, q));
        }
        return false;
    }
    let mut i: usize = 0;
    while i < q_end
        invariant
            i <= q_end,
            q_end <= tc.len(),
            q_end <= pc.len(),
            pc@ == pre@,
            tc@ == path@,
            q == pre@.take(q_end as int),
            q == strip_trailing_slashes(pre@),
            forall|k: int| 0 <= k < i ==> tc@[k] == q[k],
        decreases q_end - i,
    {
        if tc[i] != pc[i] {
            proof {
                assert(path@.take(q.len() as int)[i as int] != q[i as int]);
                assert(!has_prefix(path@, q));
            }
            return false;
        }
        i += 1;
    }
    proof {
        assert(path@.take(q.len() as int) =~= q);
        assert(has_prefix(path@, q));
    }
    if tc.len() == q_end {
        true
    } else {
        tc[q_end] == '/'
    }
}

/// The runtime monitor for one sandboxed execution: it tracks elapsed time
/// and allocated memory against a configuration.
pub struct SandboxMonitor {
    config: SandboxConfig,
    start_time: std::time::Instant,
    current_memory: usize,
}

/// The decision that gates execution time: an elapsed time over the limit
/// is a violation that reports both values.
pub fn time_check(elapsed: u64, limit: u64) -> (r: Result<(), SandboxViolation>)
    ensures
        r is Ok <==> elapsed <= limit,
        r matches Err(v) ==> v@ == (ViolationV::ExecutionTime {
            limit: limit as int,
            elapsed: elapsed as int,
        }),
{
    if elapsed > limit {
        Err(SandboxViolation::ExecutionTimeExceeded { limit, elapsed })
    } else {
        Ok(())
    }
}

/// The decision that gates memory: the running total plus the new
/// allocation must stay within the limit.
pub fn memory_check(current: usize, size: usize, limit: usize) -> (r: Result<
    (),
    SandboxViolation,
>)
    ensures
        r is Ok <==> current + size <= limit,
        r matches Err(v) ==> v@ == (ViolationV::MemoryLimit {
            limit: limit as int,
            attempted: if current + size <= usize::MAX {
                current + size
            } else {
                usize::MAX as int
            },
        }),
{
    if size <= limit && current <= limit - size {
        Ok(())
    } else {
        let attempted = if size <= usize::MAX - current {
            current + size
        } else {
            usize::MAX
        };
        Err(SandboxViolation::MemoryLimitExceeded { limit, attempted })
    }
}

impl SandboxMonitor {
    /// The configuration this monitor enforces.
    pub closed spec fn spec_config(&self) -> SandboxConfig {
        self.config
    }

    /// The memory currently accounted as allocated, in bytes.
    pub closed spec fn spec_memory(&self) -> int {
        self.current_memory as int
    }

    /// A monitor for the given configuration, started now.
    pub fn new(config: SandboxConfig) -> (r: SandboxMonitor)
        ensures
            r.spec_config() == config,
            r.spec_memory() == 0,
    {
        SandboxMonitor { config, start_time: instant_now(), current_memory: 0 }
    }

    /// Check the execution-time limit against the clock. What the clock
    /// returns is not modelled; whatever it returns, an error reports the
    /// configured limit and an elapsed time that exceeds it.
    pub fn check_time_limit(&self) -> (r: Result<(), SandboxViolation>)
        ensures
            r matches Err(v) ==> v@ matches ViolationV::ExecutionTime { limit, elapsed }
                && limit == self.spec_config().max_execution_time && elapsed > limit,
    {
        let elapsed = elapsed_millis(&self.start_time);
        time_check(elapsed, self.config.max_execution_time)
    }

    /// Whether an allocation of the given size would stay within the
    /// memory limit.
    pub fn check_memory_limit(&self, allocation_size: usize) -> (r: Result<(), SandboxViolation>)
        ensures
            r is Ok <==> self.spec_memory() + allocation_size
                <= self.spec_config().max_memory,
            r matches Err(v) ==> v@ == (ViolationV::MemoryLimit {
                limit: self.spec_config().max_memory as int,
                attempted: if self.spec_memory() + allocation_size <= usize::MAX {
                    self.spec_memory() + allocation_size
                } else {
                    usize::MAX as int
                },
            }),
    {
        memory_check(self.current_memory, allocation_size, self.config.max_memory)
    }

    /// Record an allocation, when it fits the limit.
    pub fn allocate_memory(&mut self, size: usize) -> (r: Result<(), SandboxViolation>)
        ensures
            r is Ok <==> old(self).spec_memory() + size <= old(self).spec_config().max_memory,
            final(self).spec_config() == old(self).spec_config(),
            r is Ok ==> final(self).spec_memory() == old(self).spec_memory() + size,
            r is Err ==> final(self).spec_memory() == old(self).spec_memory(),
            r matches Err(v) ==> v@ == (ViolationV::MemoryLimit {
                limit: old(self).spec_config().max_memory as int,
                attempted: if old(self).spec_memory() + size <= usize::MAX {
                    old(self).spec_memory() + size
                } else {
                    usize::MAX as int
                },
            }),
    {
        match self.check_memory_limit(size) {
            Ok(()) => {
                self.current_memory = self.current_memory + size;
                Ok(())
            },
            Err(v) => Err(v),
        }
    }

    /// Record a deallocation; the count never goes below zero.
    pub fn deallocate_memory(&mut self, size: usize)
        ensures
            final(self).spec_config() == old(self).spec_config(),
            final(self).spec_memory() == if old(self).spec_memory() >= size {
                old(self).spec_memory() - size
            } else {
                0
            },
    {
        if self.current_memory >= size {
            self.current_memory = self.current_memory - size;
        } else {
            self.current_memory = 0;
        }
    }

    /// Whether the path lies under one of the allowed path prefixes.
    pub fn check_file_access(&self, path: &String) -> (r: Result<(), SandboxViolation>)
        ensures
            r is Ok <==> exists|i: int|
                0 <= i < self.spec_config().allowed_file_paths@.len() && path_under(
                    path@,
                    #[trigger] names_view(self.spec_config().allowed_file_paths@)[i],
                ),
            r matches Err(v) ==> v@ == ViolationV::FileAccess(path@),
    {
        let ghost ap = names_view(self.spec_config().allowed_file_paths@);
        let mut i: usize = 0;
        while i < self.config.allowed_file_paths.len()
            invariant
                i <= self.config.allowed_file_paths.len(),
                ap == names_view(self.spec_config().allowed_file_paths@),
                self.config == self.spec_config(),
                forall|k: int| 0 <= k < i ==> !path_under(path@, #[trigger] ap[k]),
            decreases self.config.allowed_file_paths.len() - i,
        {
            if path_under_exec(path, &self.config.allowed_file_paths[i]) {
                proof {
                    assert(path_under(path@, ap[i as int]));
                }
                return Ok(());
            }
            i += 1;
        }
        Err(SandboxViolation::UnauthorizedFileAccess { path: path.clone() })
    }

    /// Whether the capability has been granted.
    pub fn check_capability(&self, capability: &Capability) -> (r: Result<(), SandboxViolation>)
        ensures
            r is Ok <==> caps_view(self.spec_config().capabilities@).contains(capability@),
            r matches Err(v) ==> v@ == ViolationV::MissingCapability(capability@),
    {
        if self.config.has_capability(capability) {
            Ok(())
        } else {
            Err(SandboxViolation::MissingCapability { capability: capability.clone() })
        }
    }

    /// Whether the API is in the allowed set.
    pub fn check_api_usage(&self, api: &str) -> (r: Result<(), SandboxViolation>)
        ensures
            r is Ok <==> names_view(self.spec_config().safe_rust_apis@).contains(api@),
            r matches Err(v) ==> v@ == ViolationV::ApiUsage(api@),
    {
        let owned = api.to_owned();
        if contains_name(&self.config.safe_rust_apis, &owned) {
            Ok(())
        } else {
            Err(SandboxViolation::DisallowedAPIUsage { api: owned })
        }
    }

    /// The memory currently accounted as allocated, in bytes.
    pub fn current_memory_usage(&self) -> (r: usize)
        ensures
            r == self.spec_memory(),
    {
        self.current_memory
    }

    /// Milliseconds since the monitor started, read from the clock; the
    /// value depends on the clock, so nothing is promised of it.
    pub fn elapsed_time(&self) -> u64 {
        elapsed_millis(&self.start_time)
    }
}


// ---------------------------------------------------------------------------
// Configuration parsing
// ---------------------------------------------------------------------------

pub open spec fn is_space_char(c: char) -> bool {
    c == ' ' || c == '\t' || c == '\n' || c == '\r'
}

/// First non-blank position at or after `i`.
pub open spec fn skip_spaces(s: Seq<char>, i: int) -> int
    decreases s.len() - i,
{
    if 0 <= i < s.len() && is_space_char(s[i]) {
        skip_spaces(s, i + 1)
    } else {
        i
    }
}

/// Position after the last non-blank character before `j`.
pub open spec fn rskip_spaces(s: Seq<char>, j: int) -> int
    decreases j,
{
    if 0 < j <= s.len() && is_space_char(s[j - 1]) {
        rskip_spaces(s, j - 1)
    } else {
        j
    }
}

/// The text with leading and trailing blanks removed.
pub open spec fn trim_spec(s: Seq<char>) -> Seq<char> {
    let a = skip_spaces(s, 0);
    let b = rskip_spaces(s, s.len() as int);
    if a <= b {
        s.subrange(a, b)
    } else {
        Seq::empty()
    }
}

pub open spec fn is_ascii_lower(c: char) -> bool {
    'a' <= c && c <= 'z'
}

pub open spec fn is_ascii_upper(c: char) -> bool {
    'A' <= c && c <= 'Z'
}

pub open spec fn is_ascii_alpha(c: char) -> bool {
    is_ascii_lower(c) || is_ascii_upper(c)
}

/// The character with a lower-case letter raised to upper case.
pub open spec fn up_char(c: char) -> char {
    if is_ascii_lower(c) {
        (((c as int) - 32) as u8) as char
    } else {
        c
    }
}

/// The text with every lower-case letter raised to upper case.
pub open spec fn upper_spec(s: Seq<char>) -> Seq<char> {
    Seq::new(s.len(), |i: int| up_char(s[i]))
}

/// First letter at or after `i`, if any.
pub open spec fn find_alpha(s: Seq<char>, i: int) -> Option<int>
    decreases s.len() - i,
{
    if i < 0 || i >= s.len() {
        None
    } else if is_ascii_alpha(s[i]) {
        Some(i)
    } else {
        find_alpha(s, i + 1)
    }
}

/// Whether the text is one or more digits, after an optional plus sign.
pub open spec fn num_text(s: Seq<char>) -> bool {
    if s.len() > 0 && s[0] == '+' {
        all_digits(s.skip(1))
    } else {
        all_digits(s)
    }
}

pub open spec fn all_digits(s: Seq<char>) -> bool {
    s.len() > 0 && forall|i: int| 0 <= i < s.len() ==> crate::ast::is_digit_char(#[trigger] s[i])
}

/// The value of a digit string.
pub open spec fn digits_val(s: Seq<char>) -> int
    decreases s.len(),
{
    if s.len() == 0 {
        0
    } else {
        digits_val(s.drop_last()) * 10 + (s.last() as int - '0' as int)
    }
}

/// The value of a numeral, with its optional plus sign dropped.
pub open spec fn num_val(s: Seq<char>) -> int {
    if s.len() > 0 && s[0] == '+' {
        digits_val(s.skip(1))
    } else {
        digits_val(s)
    }
}

/// The byte multiplier of a memory unit.
pub open spec fn mem_unit(u: Seq<char>) -> Option<int> {
    if u == "B"@ {
        Some(1)
    } else if u == "KB"@ {
        Some(1024)
    } else if u == "MB"@ {
        Some(1048576)
    } else if u == "GB"@ {
        Some(1073741824)
    } else {
        None
    }
}

/// What a memory-size text denotes in bytes: an optional unit after a
/// number, all case-insensitive and tolerant of surrounding blanks; a bare
/// number counts bytes.
pub open spec fn mem_size_spec(s: Seq<char>) -> Option<int> {
    let t = upper_spec(trim_spec(s));
    match find_alpha(t, 0) {
        None => if num_text(t) {
            Some(num_val(t))
        } else {
            None
        },
        Some(p) => {
            let numpart = trim_spec(t.take(p));
            let unit = trim_spec(t.skip(p));
            if !num_text(numpart) {
                None
            } else {
                match mem_unit(unit) {
                    None => None,
                    Some(m) => Some(num_val(numpart) * m),
                }
            }
        },
    }
}

/// The millisecond multiplier of a duration unit.
pub open spec fn dur_unit(u: Seq<char>) -> Option<int> {
    if u == "s"@ || u == "sec"@ || u == "secs"@ {
        Some(1000)
    } else if u == "m"@ || u == "min"@ || u == "mins"@ {
        Some(60000)
    } else if u == "h"@ || u == "hour"@ || u == "hours"@ {
        Some(3600000)
    } else {
        None
    }
}

/// What a duration text denotes in milliseconds; a bare number counts
/// seconds.
pub open spec fn duration_spec(s: Seq<char>) -> Option<int> {
    let t = trim_spec(s);
    match find_alpha(t, 0) {
        None => if num_text(t) {
            Some(num_val(t) * 1000)
        } else {
            None
        },
        Some(p) => {
            let numpart = trim_spec(t.take(p));
            let unit = trim_spec(t.skip(p));
            if !num_text(numpart) {
                None
            } else {
                match dur_unit(unit) {
                    None => None,
                    Some(m) => Some(num_val(numpart) * m),
                }
            }
        },
    }
}

/// What a capability text denotes.
pub open spec fn capability_spec(s: Seq<char>) -> Option<CapV> {
    let t = trim_spec(s);
    if has_prefix(t, "FileRead:"@) {
        Some(CapV::FileRead(t.skip("FileRead:"@.len() as int)))
    } else if has_prefix(t, "FileWrite:"@) {
        Some(CapV::FileWrite(t.skip("FileWrite:"@.len() as int)))
    } else if t == "NetworkHTTP"@ {
        Some(CapV::NetworkHTTP)
    } else if t == "SystemTime"@ {
        Some(CapV::SystemTime)
    } else if t == "ProcessSpawn"@ {
        Some(CapV::ProcessSpawn)
    } else if t == "UnsafeRust"@ {
        Some(CapV::UnsafeRust)
    } else {
        None
    }
}

proof fn lemma_rskip_le(s: Seq<char>, j: int)
    requires
        j <= s.len(),
    ensures
        rskip_spaces(s, j) <= j,
    decreases j,
{
    if 0 < j <= s.len() && is_space_char(s[j - 1]) {
        lemma_rskip_le(s, j - 1);
    }
}

/// The trimmed characters of `s`.
fn trim_chars(v: &Vec<char>) -> (r: Vec<char>)
    ensures
        r@ == trim_spec(v@),
{
    let mut a: usize = 0;
    while a < v.len() && (v[a] == ' ' || v[a] == '\t' || v[a] == '\n' || v[a] == '\r')
        invariant
            a <= v.len(),
            skip_spaces(v@, 0) == skip_spaces(v@, a as int),
            forall|k: int| 0 <= k < a ==> is_space_char(v@[k]),
        decreases v.len() - a,
    {
        a += 1;
    }
    proof {
        assert(skip_spaces(v@, a as int) == a);
    }
    let mut b: usize = v.len();
    while b > a && (v[b - 1] == ' ' || v[b - 1] == '\t' || v[b - 1] == '\n' || v[b - 1] == '\r')
        invariant
            a <= b <= v.len(),
            skip_spaces(v@, 0) == a,
            rskip_spaces(v@, v@.len() as int) == rskip_spaces(v@, b as int),
        decreases b,
    {
        b -= 1;
    }
    proof {
        if b > a {
            assert(rskip_spaces(v@, b as int) == b);
        } else {
            if a > 0 {
                assert(is_space_char(v@[a - 1]));
                lemma_rskip_le(v@, a - 1);
                assert(rskip_spaces(v@, a as int) == rskip_spaces(v@, a as int - 1));
            }
        }
    }
    let mut out: Vec<char> = Vec::new();
    let mut i: usize = a;
    while i < b
        invariant
            a <= i <= b <= v.len(),
            out@.len() == i - a,
            forall|k: int| 0 <= k < i - a ==> out@[k] == v@[a + k],
        decreases b - i,
    {
        out.push(v[i]);
        i += 1;
    }
    proof {
        if b > a {
            assert(out@ =~= trim_spec(v@));
        } else {
            assert(out@.len() == 0);
            if a > 0 {
                assert(rskip_spaces(v@, v@.len() as int) < a);
            }
            assert(out@ =~= trim_spec(v@));
        }
    }
    out
}

/// The characters with lower-case letters raised to upper case.
fn upper_chars(v: &Vec<char>) -> (r: Vec<char>)
    ensures
        r@ == upper_spec(v@),
{
    let mut out: Vec<char> = Vec::new();
    let mut i: usize = 0;
    while i < v.len()
        invariant
            i <= v.len(),
            out@.len() == i,
            forall|k: int| 0 <= k < i ==> out@[k] == up_char(v@[k]),
        decreases v.len() - i,
    {
        let c = v[i];
        let u = c as u32;
        if 97 <= u && u <= 122 {
            let raised = ((u - 32) as u8) as char;
            proof {
                assert(raised == up_char(c));
            }
            out.push(raised);
        } else {
            proof {
                assert(!is_ascii_lower(c));
            }
            out.push(c);
        }
        i += 1;
    }
    proof {
        assert(out@ =~= upper_spec(v@));
    }
    out
}

/// First letter at or after `i`, if any.
fn find_alpha_exec(v: &Vec<char>, i: usize) -> (r: Option<usize>)
    requires
        i <= v.len(),
    ensures
        match r {
            Some(p) => i <= p < v.len() && find_alpha(v@, i as int) == Some(p as int),
            None => find_alpha(v@, i as int) is None,
        },
    decreases v.len() - i,
{
    if i == v.len() {
        None
    } else {
        let c = v[i];
        let alpha = ('A' <= c && c <= 'Z') || ('a' <= c && c <= 'z');
        if alpha {
            Some(i)
        } else {
            find_alpha_exec(v, i + 1)
        }
    }
}

proof fn lemma_digits_val_prefix(s: Seq<char>, i: int)
    requires
        0 <= i <= s.len(),
        all_digits(s),
    ensures
        digits_val(s) >= digits_val(s.take(i)),
        digits_val(s.take(i)) >= 0,
    decreases s.len() - i, s.len(),
{
    if i == s.len() {
        assert(s.take(i) =~= s);
        if s.len() > 0 {
            assert(s.drop_last() =~= s.take(s.len() - 1));
            if s.len() > 1 {
                lemma_digits_val_prefix(s.take(s.len() - 1), s.len() - 1);
                assert(s.take(s.len() - 1).take(s.len() - 1) =~= s.take(s.len() - 1));
            }
            assert(digits_val(s.take(s.len() - 1)) >= 0) by {
                lemma_digits_val_nonneg(s.take(s.len() - 1));
            }
        }
    } else {
        lemma_digits_val_prefix(s, i + 1);
        assert(s.take(i + 1).drop_last() =~= s.take(i));
        assert(digits_val(s.take(i + 1)) == digits_val(s.take(i)) * 10 + (s[i] as int
            - '0' as int));
        lemma_digits_val_nonneg(s.take(i));
        assert(digits_val(s.take(i)) * 10 >= digits_val(s.take(i))) by (nonlinear_arith)
            requires digits_val(s.take(i)) >= 0 {}
    }
}

proof fn lemma_digits_val_nonneg(s: Seq<char>)
    ensures
        digits_val(s) >= 0 || exists|i: int|
            0 <= i < s.len() && !crate::ast::is_digit_char(#[trigger] s[i]),
    decreases s.len(),
{
    if s.len() > 0 {
        lemma_digits_val_nonneg(s.drop_last());
        if !crate::ast::is_digit_char(s.last()) {
            assert(!crate::ast::is_digit_char(s[s.len() - 1]));
        } else {
            if exists|i: int|
                0 <= i < s.drop_last().len() && !crate::ast::is_digit_char(
                    #[trigger] s.drop_last()[i],
                ) {
                let i = choose|i: int|
                    0 <= i < s.drop_last().len() && !crate::ast::is_digit_char(
                        #[trigger] s.drop_last()[i],
                    );
                assert(!crate::ast::is_digit_char(s[i]));
            } else {
                assert(digits_val(s.drop_last()) >= 0);
                assert(digits_val(s) >= 0) by (nonlinear_arith)
                    requires
                        digits_val(s) == digits_val(s.drop_last()) * 10 + (s.last() as int
                            - '0' as int),
                        digits_val(s.drop_last()) >= 0,
                        crate::ast::is_digit_char(s.last()),
                {}
            }
        }
    }
}

/// The value of the numeral in `v[a..b]`, when it is one and fits the
/// machine word.
fn parse_usize_range(v: &Vec<char>, a: usize, b: usize) -> (r: Result<usize, ()>)
    requires
        a <= b <= v.len(),
    ensures
        match r {
            Ok(n) => num_text(v@.subrange(a as int, b as int)) && n as int == num_val(
                v@.subrange(a as int, b as int),
            ),
            Err(()) => !num_text(v@.subrange(a as int, b as int)) || num_val(
                v@.subrange(a as int, b as int),
            ) > usize::MAX,
        },
{
    let ghost whole = v@.subrange(a as int, b as int);
    let mut i: usize = a;
    if i < b && v[i] == '+' {
        i += 1;
        proof {
            assert(v@.subrange(a as int + 1, b as int) =~= whole.skip(1));
        }
    } else {
        proof {
            assert(v@.subrange(a as int, b as int) =~= if whole.len() > 0 && whole[0] == '+' {
                whole.skip(1)
            } else {
                whole
            });
        }
    }
    let ghost digits = v@.subrange(i as int, b as int);
    proof {
        assert(num_text(whole) == all_digits(digits));
        assert(num_val(whole) == digits_val(digits));
    }
    if i == b {
        proof {
            assert(digits.len() == 0);
        }
        return Err(());
    }
    let start = i;
    let mut acc: usize = 0;
    while i < b
        invariant
            a <= start <= i <= b <= v.len(),
            digits == v@.subrange(start as int, b as int),
            num_text(v@.subrange(a as int, b as int)) == all_digits(digits),
            num_val(v@.subrange(a as int, b as int)) == digits_val(digits),
            forall|k: int| start <= k < i ==> crate::ast::is_digit_char(#[trigger] v@[k]),
            acc as int == digits_val(v@.subrange(start as int, i as int)),
        decreases b - i,
    {
        let c = v[i];
        if !('0' <= c && c <= '9') {
            proof {
                assert(!crate::ast::is_digit_char(digits[i - start]));
            }
            return Err(());
        }
        let u = c as u32;
        let d = (u - 48) as usize;
        proof {
            assert(u as int == c as int);
            assert(d < 10);
            assert(d as int == c as int - '0' as int);
        }
        if acc > (usize::MAX - d) / 10 {
            proof {
                let pre = v@.subrange(start as int, i as int + 1);
                assert(pre.drop_last() =~= v@.subrange(start as int, i as int));
                assert(digits_val(pre) == acc * 10 + d);
                assert(acc * 10 + d > usize::MAX) by (nonlinear_arith)
                    requires
                        acc > (usize::MAX - d) / 10,
                        0 <= d < 10,
                        acc >= 0,
                {}
                if all_digits(digits) {
                    assert(digits.take(i - start + 1) =~= pre);
                    lemma_digits_val_prefix(digits, i - start + 1);
                }
            }
            return Err(());
        }
        proof {
            assert(acc * 10 + d <= usize::MAX) by (nonlinear_arith)
                requires
                    acc <= (usize::MAX - d) / 10,
                    0 <= d < 10,
                    acc >= 0,
            {}
            let pre = v@.subrange(start as int, i as int + 1);
            assert(pre.drop_last() =~= v@.subrange(start as int, i as int));
            assert(pre.last() == v@[i as int]);
        }
        acc = acc * 10 + d;
        i += 1;
    }
    proof {
        assert(v@.subrange(start as int, b as int) =~= digits);
        assert forall|k: int| 0 <= k < digits.len() implies crate::ast::is_digit_char(
            #[trigger] digits[k],
        ) by {
            assert(digits[k] == v@[start + k]);
        }
        assert(all_digits(digits));
        assert(acc as int == digits_val(digits));
    }
    Ok(acc)
}

/// The product, when it fits the machine word.
fn checked_mul_usize(n: usize, m: usize) -> (r: Result<usize, ()>)
    requires
        m >= 1,
    ensures
        match r {
            Ok(p) => p as int == n as int * m as int,
            Err(()) => n as int * m as int > usize::MAX,
        },
{
    if n > usize::MAX / m {
        proof {
            assert(n as int * m as int > usize::MAX) by (nonlinear_arith)
                requires
                    n > usize::MAX / m,
                    m >= 1,
            {}
        }
        Err(())
    } else {
        proof {
            assert(n as int * m as int <= usize::MAX) by (nonlinear_arith)
                requires
                    n <= usize::MAX / m,
                    m >= 1,
            {}
        }
        Ok(n * m)
    }
}

/// Parse a memory size such as `100MB`, `1GB` or `512KB` into bytes; a bare
/// number counts bytes. Fails exactly on text that denotes no size, or one
/// beyond the machine word.
pub fn parse_memory_size(s: &str) -> (r: Result<usize, String>)
    ensures
        match r {
            Ok(n) => mem_size_spec(s@) == Some(n as int),
            Err(_) => mem_size_spec(s@) matches Some(v) ==> v > usize::MAX,
        },
{
    let raw = str_to_chars(s);
    let trimmed = trim_chars(&raw);
    let t = upper_chars(&trimmed);
    let ghost tv = upper_spec(trim_spec(s@));
    match find_alpha_exec(&t, 0) {
        None => {
            proof {
                assert(t@.subrange(0, t@.len() as int) =~= tv);
            }
            match parse_usize_range(&t, 0, t.len()) {
                Ok(n) => Ok(n),
                Err(()) => Err("Invalid memory size".to_owned()),
            }
        },
        Some(p) => {
            let numpart = {
                let mut np: Vec<char> = Vec::new();
                let mut i: usize = 0;
                while i < p
                    invariant
                        i <= p <= t.len(),
                        t@ == tv,
                        np@ =~= t@.subrange(0, i as int),
                    decreases p - i,
                {
                    np.push(t[i]);
                    proof {
                        assert(np@ =~= t@.subrange(0, i as int + 1));
                    }
                    i += 1;
                }
                trim_chars(&np)
            };
            proof {
                assert(tv.take(p as int) =~= tv.subrange(0, p as int));
                assert(numpart@ == trim_spec(tv.take(p as int)));
            }
            let unit = {
                let mut up: Vec<char> = Vec::new();
                let mut i: usize = p;
                while i < t.len()
                    invariant
                        p <= i <= t.len(),
                        t@ == tv,
                        up@ =~= t@.subrange(p as int, i as int),
                    decreases t.len() - i,
                {
                    up.push(t[i]);
                    proof {
                        assert(up@ =~= t@.subrange(p as int, i as int + 1));
                    }
                    i += 1;
                }
                trim_chars(&up)
            };
            proof {
                assert(tv.skip(p as int) =~= tv.subrange(p as int, tv.len() as int));
                assert(unit@ == trim_spec(tv.skip(p as int)));
            }
            let num = match parse_usize_range(&numpart, 0, numpart.len()) {
                Ok(n) => n,
                Err(()) => {
                    proof {
                        assert(numpart@.subrange(0, numpart@.len() as int) =~= numpart@);
                        if num_text(numpart@) {
                            let nv = num_val(numpart@);
                            match mem_unit(trim_spec(tv.skip(p as int))) {
                                Some(m) => {
                                    assert(nv * m > usize::MAX) by (nonlinear_arith)
                                        requires
                                            nv > usize::MAX,
                                            m >= 1,
                                    {}
                                },
                                None => {},
                            }
                        }
                    }
                    return Err("Invalid memory size number".to_owned());
                },
            };
            proof {
                assert(numpart@.subrange(0, numpart@.len() as int) =~= numpart@);
            }
            let unit_s = chars_to_string(&unit);
            let mult: usize = if unit_s == "B".to_owned() {
                1
            } else if unit_s == "KB".to_owned() {
                1024
            } else if unit_s == "MB".to_owned() {
                1048576
            } else if unit_s == "GB".to_owned() {
                1073741824
            } else {
                let mut msg = "Unknown memory unit: ".to_owned();
                msg.append(unit_s.as_str());
                return Err(msg);
            };
            match checked_mul_usize(num, mult) {
                Ok(v) => Ok(v),
                Err(()) => Err("Memory size is beyond the machine limit".to_owned()),
            }
        },
    }
}

/// Parse a duration such as `30s`, `5m` or `1h` into milliseconds; a bare
/// number counts seconds. Fails exactly on text that denotes no duration,
/// or one beyond the machine word.
pub fn parse_duration(s: &str) -> (r: Result<u64, String>)
    ensures
        match r {
            Ok(n) => duration_spec(s@) == Some(n as int),
            Err(_) => duration_spec(s@) matches Some(v) ==> v > usize::MAX,
        },
{
    let raw = str_to_chars(s);
    let t = trim_chars(&raw);
    let ghost tv = trim_spec(s@);
    match find_alpha_exec(&t, 0) {
        None => {
            proof {
                assert(t@.subrange(0, t@.len() as int) =~= tv);
            }
            match parse_usize_range(&t, 0, t.len()) {
                Ok(n) => {
                    match checked_mul_usize(n, 1000) {
                        Ok(v) => {
                            let w = v as u64;
                            proof {
                                assert(w as int == v as int);
                            }
                            Ok(w)
                        },
                        Err(()) => Err("Duration is beyond the machine limit".to_owned()),
                    }
                },
                Err(()) => Err("Invalid duration".to_owned()),
            }
        },
        Some(p) => {
            let numpart = {
                let mut np: Vec<char> = Vec::new();
                let mut i: usize = 0;
                while i < p
                    invariant
                        i <= p <= t.len(),
                        t@ == tv,
                        np@ =~= t@.subrange(0, i as int),
                    decreases p - i,
                {
                    np.push(t[i]);
                    proof {
                        assert(np@ =~= t@.subrange(0, i as int + 1));
                    }
                    i += 1;
                }
                trim_chars(&np)
            };
            proof {
                assert(tv.take(p as int) =~= tv.subrange(0, p as int));
                assert(numpart@ == trim_spec(tv.take(p as int)));
            }
            let unit = {
                let mut up: Vec<char> = Vec::new();
                let mut i: usize = p;
                while i < t.len()
                    invariant
                        p <= i <= t.len(),
                        t@ == tv,
                        up@ =~= t@.subrange(p as int, i as int),
                    decreases t.len() - i,
                {
                    up.push(t[i]);
                    proof {
                        assert(up@ =~= t@.subrange(p as int, i as int + 1));
                    }
                    i += 1;
                }
                trim_chars(&up)
            };
            proof {
                assert(tv.skip(p as int) =~= tv.subrange(p as int, tv.len() as int));
                assert(unit@ == trim_spec(tv.skip(p as int)));
            }
            let num = match parse_usize_range(&numpart, 0, numpart.len()) {
                Ok(n) => n,
                Err(()) => {
                    proof {
                        assert(numpart@.subrange(0, numpart@.len() as int) =~= numpart@);
                        if num_text(numpart@) {
                            let nv = num_val(numpart@);
                            match dur_unit(trim_spec(tv.skip(p as int))) {
                                Some(m) => {
                                    assert(nv * m > usize::MAX) by (nonlinear_arith)
                                        requires
                                            nv > usize::MAX,
                                            m >= 1,
                                    {}
                                },
                                None => {},
                            }
                        }
                    }
                    return Err("Invalid duration number".to_owned());
                },
            };
            proof {
                assert(numpart@.subrange(0, numpart@.len() as int) =~= numpart@);
            }
            let unit_s = chars_to_string(&unit);
            let mult: usize = if unit_s == "s".to_owned() || unit_s == "sec".to_owned() || unit_s
                == "secs".to_owned() {
                1000
            } else if unit_s == "m".to_owned() || unit_s == "min".to_owned() || unit_s
                == "mins".to_owned() {
                60000
            } else if unit_s == "h".to_owned() || unit_s == "hour".to_owned() || unit_s
                == "hours".to_owned() {
                3600000
            } else {
                let mut msg = "Unknown duration unit: ".to_owned();
                msg.append(unit_s.as_str());
                return Err(msg);
            };
            match checked_mul_usize(num, mult) {
                Ok(v) => {
                    let w = v as u64;
                    proof {
                        assert(w as int == v as int);
                    }
                    Ok(w)
                },
                Err(()) => Err("Duration is beyond the machine limit".to_owned()),
            }
        },
    }
}

/// Parse a capability such as `NetworkHTTP` or `FileRead:/tmp`. Fails
/// exactly on text that names no capability.
pub fn parse_capability(s: &str) -> (r: Result<Capability, String>)
    ensures
        match r {
            Ok(c) => capability_spec(s@) == Some(c@),
            Err(_) => capability_spec(s@) is None,
        },
{
    let raw = str_to_chars(s);
    let t = trim_chars(&raw);
    let trimmed = chars_to_string(&t);
    if str_has_prefix(&trimmed, "FileRead:") {
        let mut path: Vec<char> = Vec::new();
        let mut i: usize = 9;
        proof {
            crate::text::reveal_strlit_len_file_read();
        }
        while i < t.len()
            invariant
                9 <= i <= t.len(),
                t@ == trim_spec(s@),
                path@ =~= t@.subrange(9, i as int),
            decreases t.len() - i,
        {
            path.push(t[i]);
            proof {
                assert(path@ =~= t@.subrange(9, i as int + 1));
            }
            i += 1;
        }
        proof {
            assert(t@.subrange(9, t@.len() as int) =~= t@.skip(9));
        }
        Ok(Capability::FileRead(chars_to_string(&path)))
    } else if str_has_prefix(&trimmed, "FileWrite:") {
        let mut path: Vec<char> = Vec::new();
        let mut i: usize = 10;
        proof {
            crate::text::reveal_strlit_len_file_write();
        }
        while i < t.len()
            invariant
                10 <= i <= t.len(),
                t@ == trim_spec(s@),
                path@ =~= t@.subrange(10, i as int),
            decreases t.len() - i,
        {
            path.push(t[i]);
            proof {
                assert(path@ =~= t@.subrange(10, i as int + 1));
            }
            i += 1;
        }
        proof {
            assert(t@.subrange(10, t@.len() as int) =~= t@.skip(10));
        }
        Ok(Capability::FileWrite(chars_to_string(&path)))
    } else if trimmed == "NetworkHTTP".to_owned() {
        Ok(Capability::NetworkHTTP)
    } else if trimmed == "SystemTime".to_owned() {
        Ok(Capability::SystemTime)
    } else if trimmed == "ProcessSpawn".to_owned() {
        Ok(Capability::ProcessSpawn)
    } else if trimmed == "UnsafeRust".to_owned() {
        Ok(Capability::UnsafeRust)
    } else {
        let mut msg = "Unknown capability: ".to_owned();
        msg.append(trimmed.as_str());
        Err(msg)
    }
}



} // verus!
