//! Telemetry: where observations come from, how collected events become
//! normalised observations, and what is reported of each source.
use vstd::prelude::*;
use vstd::string::StringExecFns;
use crate::protocol::detection::{
    Confidence, EntityKind, ObjectDescriptor, Observation, ObservationKind, Severity,
};
use crate::protocol::ids::{ObjectId, ObservationId};
use crate::protocol::ipc::TelemetrySourceDto;
use crate::text::{
    decimal, decimal_spec, fields_from, find_char, first_char_index, last_char_index, parse_u32,
    parse_u64, rfind_char, str_eq, unsigned_value, whitespace_fields,
};

verus! {

/// How long an observation from telemetry is remembered, in seconds.
pub const DEFAULT_OBSERVATION_TTL_SECONDS: u64 = 3600;

/// A source of telemetry.
#[derive(Debug, Clone, Copy, PartialEq, Eq, Structural)]
pub enum TelemetrySource {
    ProcPolling,
    FilesystemPolling,
    Fanotify,
    Ebpf,
}

impl TelemetrySource {
    /// The stable name of the source.
    pub open spec fn name(self) -> Seq<char> {
        match self {
            TelemetrySource::ProcPolling => "proc_polling"@,
            TelemetrySource::FilesystemPolling => "filesystem_polling"@,
            TelemetrySource::Fanotify => "fanotify"@,
            TelemetrySource::Ebpf => "ebpf"@,
        }
    }

    pub fn as_str(self) -> (r: &'static str)
        ensures
            r@ == self.name(),
    {
        match self {
            TelemetrySource::ProcPolling => "proc_polling",
            TelemetrySource::FilesystemPolling => "filesystem_polling",
            TelemetrySource::Fanotify => "fanotify",
            TelemetrySource::Ebpf => "ebpf",
        }
    }
}

/// An observation as a collector produced it, with its source, the event
/// name and the process involved.
#[derive(Debug)]
pub struct CollectedObservation {
    pub source: TelemetrySource,
    pub event: String,
    pub process_id: Option<u32>,
    pub observation: Observation,
}

/// The FNV-1a offset basis.
pub const FNV_OFFSET: u64 = 0xcbf29ce484222325;

/// The FNV-1a prime.
pub const FNV_PRIME: u64 = 0x100000001b3;

/// The FNV-1a hash of the first `n` bytes of `b`: each byte is xored in and
/// the hash multiplied by the prime, modulo 2^64.
pub open spec fn fnv_prefix(b: Seq<u8>, n: nat) -> u64
    decreases n,
{
    if n == 0 {
        FNV_OFFSET
    } else {
        vstd::wrapping::u64_specs::wrapping_mul(
            fnv_prefix(b, (n - 1) as nat) ^ (b[n - 1] as u64),
            FNV_PRIME,
        )
    }
}

/// The 64-bit FNV-1a hash of a text's UTF-8 bytes.
pub open spec fn stable_hash_spec(value: Seq<char>) -> u64 {
    fnv_prefix(crate::text::utf8_of(value), crate::text::utf8_of(value).len())
}

/// The 64-bit FNV-1a hash of a text's UTF-8 bytes, stable across runs.
pub fn stable_hash(value: &str) -> (r: u64)
    ensures
        r == stable_hash_spec(value@),
{
    let bytes = value.as_bytes();
    let mut hash: u64 = FNV_OFFSET;
    let mut i: usize = 0;
    while i < bytes.len()
        invariant
            i <= bytes@.len(),
            bytes@ == crate::text::utf8_of(value@),
            hash == fnv_prefix(bytes@, i as nat),
        decreases bytes@.len() - i,
    {
        hash = hash ^ (bytes[i] as u64);
        hash = hash.wrapping_mul(FNV_PRIME);
        i = i + 1;
    }
    hash
}

/// The local host as an observed object.
pub open spec fn local_host_spec(o: ObjectDescriptor) -> bool {
    o.id.0@ == "host:local"@ && o.kind == EntityKind::Host && o.label@ == "local host"@
}

pub fn local_host() -> (r: ObjectDescriptor)
    ensures
        local_host_spec(r),
{
    ObjectDescriptor {
        id: ObjectId(String::from_str("host:local")),
        kind: EntityKind::Host,
        label: String::from_str("local host"),
    }
}

/// `a + b`, saturating at `u64::MAX`.
pub open spec fn saturated(a: u64, b: u64) -> u64 {
    if a + b > u64::MAX {
        u64::MAX
    } else {
        (a + b) as u64
    }
}

/// Whether `o` is the observation of `source` acting on the file at `path`
/// at `now`: identified by `prefix`, the hashes of source and path, and the
/// time; kept for an hour; of low severity.
pub open spec fn file_observation_spec(
    o: Observation,
    source: ObjectDescriptor,
    path: Seq<char>,
    kind: ObservationKind,
    prefix: Seq<char>,
    now: u64,
    confidence: u8,
) -> bool {
    &&& o.id.0@ == prefix + ":"@ + decimal_spec(stable_hash_spec(source.id.0@) as nat) + ":"@
        + decimal_spec(stable_hash_spec(path) as nat) + ":"@ + decimal_spec(now as nat)
    &&& o.kind == kind
    &&& o.source == source
    &&& o.target matches Some(t) && t.id.0@ == "file:"@ + path && t.kind == EntityKind::File
        && t.label@ == path
    &&& o.observed_at == now
    &&& o.expires_at == Some(saturated(now, DEFAULT_OBSERVATION_TTL_SECONDS))
    &&& o.severity == Severity::Low
    &&& o.confidence.view() == confidence
}

/// The observation of `source` acting on the file at `path`.
pub fn file_observation(
    source: ObjectDescriptor,
    path: &str,
    kind: ObservationKind,
    prefix: &str,
    now: u64,
    confidence: u8,
) -> (r: Observation)
    requires
        confidence <= 100,
    ensures
        file_observation_spec(r, source, path@, kind, prefix@, now, confidence),
{
    let id = String::from_str(prefix).concat(":").concat(
        decimal(stable_hash(source.id.0.as_str())).as_str(),
    ).concat(":").concat(decimal(stable_hash(path)).as_str()).concat(":").concat(
        decimal(now).as_str(),
    );
    proof {
        reveal_strlit(":");
        reveal_strlit("file:");
    }
    Observation {
        id: ObservationId(id),
        kind,
        source,
        target: Some(
            ObjectDescriptor {
                id: ObjectId(String::from_str("file:").concat(path)),
                kind: EntityKind::File,
                label: String::from_str(path),
            },
        ),
        observed_at: now,
        expires_at: Some(now.saturating_add(DEFAULT_OBSERVATION_TTL_SECONDS)),
        severity: Severity::Low,
        confidence: Confidence::new(confidence).unwrap(),
    }
}

/// A running process as read from `/proc`.
#[derive(Debug)]
pub struct ProcessInfo {
    pub pid: u32,
    pub parent_pid: Option<u32>,
    pub start_ticks: u64,
    pub id: String,
    pub label: String,
}

impl ProcessInfo {
    /// The process as an observed object.
    pub fn descriptor(&self) -> (r: ObjectDescriptor)
        ensures
            r.id.0@ == self.id@,
            r.kind == EntityKind::Process,
            r.label@ == self.label@,
    {
        ObjectDescriptor {
            id: ObjectId(self.id.clone()),
            kind: EntityKind::Process,
            label: self.label.clone(),
        }
    }
}

/// The parent identifier a stat line's parent field gives: a positive
/// number that fits a `u32`, else none.
pub open spec fn stat_parent(field: Seq<char>) -> Option<u32> {
    match unsigned_value(field) {
        Some(v) => if 0 < v <= u32::MAX {
            Some(v as u32)
        } else {
            None
        },
        None => None,
    }
}

/// The process a line of `/proc/<pid>/stat` describes: its command name lies
/// between the first `(` and the last `)`, the fields after the byte that
/// follows the `)` are separated by whitespace, the second of them is the
/// parent and the twentieth the start time in clock ticks. `None` when the
/// line lacks either parenthesis, the name's bounds are out of order, no
/// single-byte character follows the `)`, or the start time is missing or
/// no `u64`.
pub open spec fn process_stat(pid: u32, s: Seq<char>, r: Option<ProcessInfo>) -> bool {
    match last_char_index(s, ')') {
        None => r is None,
        Some(close) => {
            let open = first_char_index(s, '(');
            if open >= s.len() || open + 1 > close || !(close + 1 < s.len() && (s[close + 1] as u32)
                < 128) {
                r is None
            } else {
                let fields = fields_from(s.skip(close + 2), 0);
                if fields.len() < 20 {
                    r is None
                } else {
                    match unsigned_value(fields[19]) {
                        Some(ticks) => if ticks <= u64::MAX {
                            r matches Some(p) && p.pid == pid && p.parent_pid == stat_parent(fields[1])
                                && p.start_ticks == ticks && p.id@ == "process:"@ + decimal_spec(
                                pid as nat,
                            ) + ":"@ + decimal_spec(ticks) && p.label@ == s.subrange(open + 1, close)
                        } else {
                            r is None
                        },
                        None => r is None,
                    }
                }
            }
        },
    }
}

/// Reads a line of `/proc/<pid>/stat` as the process it describes.
pub fn parse_process_stat(pid: u32, stat: &str) -> (r: Option<ProcessInfo>)
    ensures
        process_stat(pid, stat@, r),
{
    let close = match rfind_char(stat, ')') {
        Some(c) => c,
        None => {
            return None;
        },
    };
    let open = match find_char(stat, '(') {
        Some(o) => o,
        None => {
            return None;
        },
    };
    let n = stat.unicode_len();
    if open + 1 > close || !(close + 1 < n && (stat.get_char(close + 1) as u32) < 128) {
        return None;
    }
    let rest = stat.substring_char(close + 2, n);
    assert(rest@ =~= stat@.skip(close + 2));
    let fields = whitespace_fields(rest);
    proof {
        assert(fields@.len() == fields_from(stat@.skip(close + 2), 0).len());
    }
    if fields.len() < 20 {
        return None;
    }
    proof {
        assert(fields@[1]@ == fields_from(stat@.skip(close + 2), 0)[1]);
        assert(fields@[19]@ == fields_from(stat@.skip(close + 2), 0)[19]);
    }
    let parent_pid = match parse_u32(fields[1].as_str()) {
        Some(v) => if v > 0 {
            Some(v)
        } else {
            None
        },
        None => None,
    };
    let start_ticks = match parse_u64(fields[19].as_str()) {
        Some(t) => t,
        None => {
            return None;
        },
    };
    proof {
        reveal_strlit("process:");
        reveal_strlit(":");
    }
    let id = String::from_str("process:").concat(decimal(pid as u64).as_str()).concat(":").concat(
        decimal(start_ticks).as_str(),
    );
    let label = String::from_str(stat.substring_char(open + 1, close));
    Some(ProcessInfo { pid, parent_pid, start_ticks, id, label })
}

/// The observation of a newly seen process: started by its parent when the
/// parent is known, otherwise on its own.
pub fn process_started(process: &ProcessInfo, parent: Option<&ProcessInfo>, now: u64) -> (r:
    CollectedObservation)
    ensures
        r.source == TelemetrySource::ProcPolling,
        r.event@ == "process_started"@,
        r.process_id == Some(process.pid),
        r.observation.id.0@ == "proc-start:"@ + decimal_spec(process.pid as nat) + ":"@
            + decimal_spec(process.start_ticks as nat),
        r.observation.kind == ObservationKind::ProcessStarted,
        match parent {
            Some(p) => {
                &&& r.observation.source.id.0@ == p.id@
                &&& r.observation.source.kind == EntityKind::Process
                &&& r.observation.source.label@ == p.label@
                &&& r.observation.target matches Some(t) && t.id.0@ == process.id@ && t.kind
                    == EntityKind::Process && t.label@ == process.label@
            },
            None => r.observation.source.id.0@ == process.id@ && r.observation.source.kind
                == EntityKind::Process && r.observation.source.label@ == process.label@
                && r.observation.target is None,
        },
        r.observation.observed_at == now,
        r.observation.expires_at == Some(saturated(now, DEFAULT_OBSERVATION_TTL_SECONDS)),
        r.observation.severity == Severity::Low,
        r.observation.confidence.view() == 100,
{
    let (source, target) = match parent {
        Some(p) => (p.descriptor(), Some(process.descriptor())),
        None => (process.descriptor(), None),
    };
    proof {
        reveal_strlit("proc-start:");
        reveal_strlit(":");
        reveal_strlit("process_started");
    }
    let id = String::from_str("proc-start:").concat(decimal(process.pid as u64).as_str()).concat(
        ":",
    ).concat(decimal(process.start_ticks).as_str());
    CollectedObservation {
        source: TelemetrySource::ProcPolling,
        event: String::from_str("process_started"),
        process_id: Some(process.pid),
        observation: Observation {
            id: ObservationId(id),
            kind: ObservationKind::ProcessStarted,
            source,
            target,
            observed_at: now,
            expires_at: Some(now.saturating_add(DEFAULT_OBSERVATION_TTL_SECONDS)),
            severity: Severity::Low,
            confidence: Confidence::new(100).unwrap(),
        },
    }
}

/// The value of `libc::FAN_MODIFY`, the bit of a file modification event.
#[verifier::external_body]
fn fan_modify() -> (r: u64)
    ensures
        r == 2,
{
    libc::FAN_MODIFY
}

/// The value of `libc::FAN_CLOSE_WRITE`, the bit of a file closed after
/// writing.
#[verifier::external_body]
fn fan_close_write() -> (r: u64)
    ensures
        r == 8,
{
    libc::FAN_CLOSE_WRITE
}

/// The value of `libc::FAN_OPEN`, the bit of a file opened.
#[verifier::external_body]
fn fan_open() -> (r: u64)
    ensures
        r == 32,
{
    libc::FAN_OPEN
}

/// What a fanotify event mask reports: a write (modification or close after
/// writing) with full confidence, else an open with confidence 95, else
/// nothing.
pub open spec fn fanotify_kind_spec(mask: u64) -> Option<(ObservationKind, Seq<char>, u8)> {
    if mask & 10u64 != 0 {
        Some((ObservationKind::FileWritten, "file_written"@, 100u8))
    } else if mask & 32u64 != 0 {
        Some((ObservationKind::FileRead, "file_opened"@, 95u8))
    } else {
        None
    }
}

/// What a fanotify event mask reports.
pub fn fanotify_kind(mask: u64) -> (r: Option<(ObservationKind, &'static str, u8)>)
    ensures
        match fanotify_kind_spec(mask) {
            Some((k, e, c)) => r matches Some((k2, e2, c2)) && k2 == k && e2@ == e && c2 == c,
            None => r is None,
        },
{
    let write_bits = fan_modify() | fan_close_write();
    assert(write_bits == 10u64) by (bit_vector)
        requires
            write_bits == 2u64 | 8u64,
    ;
    if mask & write_bits != 0 {
        Some((ObservationKind::FileWritten, "file_written", 100))
    } else if mask & fan_open() != 0 {
        Some((ObservationKind::FileRead, "file_opened", 95))
    } else {
        None
    }
}

/// The observation of a fanotify event on `path` by `source` (the process
/// involved, or else the local host).
pub fn fanotify_observation(
    mask: u64,
    source: ObjectDescriptor,
    process_id: Option<u32>,
    path: &str,
    now: u64,
) -> (r: Option<CollectedObservation>)
    ensures
        match fanotify_kind_spec(mask) {
            None => r is None,
            Some((kind, event, confidence)) => r matches Some(c) && (c.source
                == TelemetrySource::Fanotify && c.event@ == event && c.process_id == process_id
                && file_observation_spec(
                c.observation,
                source,
                path@,
                kind,
                "fanotify"@,
                now,
                confidence,
            )),
        },
{
    match fanotify_kind(mask) {
        None => None,
        Some((kind, event, confidence)) => Some(
            CollectedObservation {
                source: TelemetrySource::Fanotify,
                event: String::from_str(event),
                process_id,
                observation: file_observation(source, path, kind, "fanotify", now, confidence),
            },
        ),
    }
}

/// Whether `d` names `source` with `status` and `detail`.
pub open spec fn source_reported(d: TelemetrySourceDto, source: TelemetrySource, status: Seq<char>, detail: Seq<char>) -> bool {
    d.source@ == source.name() && d.status@ == status && d.detail@ == detail
}

fn source_dto(source: TelemetrySource, status: &str, detail: &str) -> (r: TelemetrySourceDto)
    ensures
        source_reported(r, source, status@, detail@),
{
    TelemetrySourceDto {
        source: String::from_str(source.as_str()),
        status: String::from_str(status),
        detail: String::from_str(detail),
    }
}

/// The status of the fanotify source: active when it could be started,
/// a fallback to polling with the reason when it could not, and disabled
/// when it was not asked for or has nothing to watch.
pub fn fanotify_status(enabled: bool, has_watch_paths: bool, start_error: Option<&str>) -> (r:
    TelemetrySourceDto)
    ensures
        r.source@ == TelemetrySource::Fanotify.name(),
        enabled && has_watch_paths && start_error is None ==> (r.status@ == "active"@ && r.detail@
            == "Linux fanotify event collection active"@),
        enabled && has_watch_paths && start_error is Some ==> (r.status@ == "fallback"@ && r.detail@
            == "fanotify unavailable ("@ + start_error->0@ + "); filesystem polling remains active"@),
        enabled && !has_watch_paths ==> (r.status@ == "disabled"@ && r.detail@
            == "No filesystem watch paths configured"@),
        !enabled ==> (r.status@ == "disabled"@ && r.detail@ == "Set DENDRITE_FANOTIFY=1 to enable"@),
{
    if enabled && has_watch_paths {
        match start_error {
            None => source_dto(TelemetrySource::Fanotify, "active", "Linux fanotify event collection active"),
            Some(error) => {
                proof {
                    reveal_strlit("fanotify unavailable (");
                    reveal_strlit("); filesystem polling remains active");
                }
                let detail = String::from_str("fanotify unavailable (").concat(error).concat(
                    "); filesystem polling remains active",
                );
                source_dto(TelemetrySource::Fanotify, "fallback", detail.as_str())
            },
        }
    } else if enabled {
        source_dto(TelemetrySource::Fanotify, "disabled", "No filesystem watch paths configured")
    } else {
        source_dto(TelemetrySource::Fanotify, "disabled", "Set DENDRITE_FANOTIFY=1 to enable")
    }
}

/// The status of every telemetry source: process polling always active,
/// filesystem polling on standby while fanotify is active, the fanotify
/// status, and eBPF not built.
pub fn source_statuses(fanotify_active: bool, fanotify: TelemetrySourceDto) -> (r: Vec<TelemetrySourceDto>)
    ensures
        r@.len() == 4,
        source_reported(r@[0], TelemetrySource::ProcPolling, "active"@, "/proc process discovery fallback"@),
        fanotify_active ==> source_reported(
            r@[1],
            TelemetrySource::FilesystemPolling,
            "standby"@,
            "Polling fallback is not used while fanotify is active"@,
        ),
        !fanotify_active ==> source_reported(
            r@[1],
            TelemetrySource::FilesystemPolling,
            "active"@,
            "Filesystem metadata polling fallback"@,
        ),
        r@[2] == fanotify,
        source_reported(r@[3], TelemetrySource::Ebpf, "not_built"@, "eBPF collector is reserved for Batch 5B"@),
{
    let mut r: Vec<TelemetrySourceDto> = Vec::new();
    r.push(source_dto(TelemetrySource::ProcPolling, "active", "/proc process discovery fallback"));
    if fanotify_active {
        r.push(
            source_dto(
                TelemetrySource::FilesystemPolling,
                "standby",
                "Polling fallback is not used while fanotify is active",
            ),
        );
    } else {
        r.push(
            source_dto(TelemetrySource::FilesystemPolling, "active", "Filesystem metadata polling fallback"),
        );
    }
    r.push(fanotify);
    r.push(source_dto(TelemetrySource::Ebpf, "not_built", "eBPF collector is reserved for Batch 5B"));
    r
}


/// The processes a poll of `/proc` has seen, by identifier, and whether a
/// first poll has taken place; the processes present at the first poll are
/// not reported as started.
pub struct ProcessTracker {
    seen: Vec<String>,
    initialised: bool,
}

impl ProcessTracker {
    /// The identifiers seen at the last poll.
    pub closed spec fn seen_view(&self) -> Seq<Seq<char>> {
        self.seen@.map_values(|x: String| x@)
    }

    /// Whether a poll has taken place.
    pub closed spec fn polled(&self) -> bool {
        self.initialised
    }

    pub fn new() -> (r: ProcessTracker)
        ensures
            r.seen_view().len() == 0,
            !r.polled(),
    {
        ProcessTracker { seen: Vec::new(), initialised: false }
    }

    /// Whether the process `id` started since the last poll: there was a
    /// poll and it did not see the process.
    pub fn is_new(&self, id: &str) -> (r: bool)
        ensures
            r == (self.polled() && !self.seen_view().contains(id@)),
    {
        if !self.initialised {
            return false;
        }
        let ghost v = self.seen_view();
        let mut i: usize = 0;
        while i < self.seen.len()
            invariant
                self.initialised,
                v == self.seen_view(),
                i <= self.seen@.len(),
                forall|k: int| 0 <= k < i ==> v[k] != id@,
            decreases self.seen@.len() - i,
        {
            if str_eq(self.seen[i].as_str(), id) {
                assert(v[i as int] == id@);
                return false;
            }
            i = i + 1;
        }
        proof {
            assert forall|k: int| 0 <= k < v.len() implies v[k] != id@ by {}
        }
        true
    }

    /// Ends a poll: the processes it saw become the ones seen.
    pub fn finish_poll(&mut self, current: Vec<String>)
        ensures
            final(self).seen_view() == current@.map_values(|x: String| x@),
            final(self).polled(),
    {
        self.seen = current;
        self.initialised = true;
    }
}

/// What identifies the content of a polled file: its modification time in
/// nanoseconds and its length.
#[derive(Debug, Clone, Copy, PartialEq, Eq, Structural)]
pub struct FileFingerprint {
    pub modified_nanos: u128,
    pub len: u64,
}

/// The fingerprint recorded for `path` in a scan, the first one listed.
pub open spec fn fingerprint_of(known: Seq<(Seq<char>, FileFingerprint)>, path: Seq<char>) -> Option<
    FileFingerprint,
>
    decreases known.len(),
{
    if known.len() == 0 {
        None
    } else if known[0].0 == path {
        Some(known[0].1)
    } else {
        fingerprint_of(known.skip(1), path)
    }
}

/// The files a polling scan has seen with their fingerprints, and whether a
/// first scan has taken place; files present at the first scan are not
/// reported as written.
pub struct FileTracker {
    known: Vec<(String, FileFingerprint)>,
    initialised: bool,
}

impl FileTracker {
    /// The files seen at the last scan with their fingerprints.
    pub closed spec fn known_view(&self) -> Seq<(Seq<char>, FileFingerprint)> {
        self.known@.map_values(|x: (String, FileFingerprint)| (x.0@, x.1))
    }

    /// Whether a scan has taken place.
    pub closed spec fn scanned(&self) -> bool {
        self.initialised
    }

    pub fn new() -> (r: FileTracker)
        ensures
            r.known_view().len() == 0,
            !r.scanned(),
    {
        FileTracker { known: Vec::new(), initialised: false }
    }

    /// Whether the file at `path` was written since the last scan: there
    /// was a scan, and it did not see the file with this fingerprint.
    pub fn changed(&self, path: &str, fingerprint: FileFingerprint) -> (r: bool)
        ensures
            r == (self.scanned() && fingerprint_of(self.known_view(), path@) != Some(fingerprint)),
    {
        if !self.initialised {
            return false;
        }
        let ghost v = self.known_view();
        let mut i: usize = 0;
        assert(v.skip(0) =~= v);
        while i < self.known.len()
            invariant
                self.initialised,
                v == self.known_view(),
                i <= v.len(),
                fingerprint_of(v, path@) == fingerprint_of(v.skip(i as int), path@),
            decreases v.len() - i,
        {
            assert(v.skip(i as int)[0] == v[i as int]);
            if str_eq(self.known[i].0.as_str(), path) {
                let stored = self.known[i].1;
                assert(fingerprint_of(v.skip(i as int), path@) == Some(stored));
                return stored != fingerprint;
            }
            assert(v.skip(i as int).skip(1) =~= v.skip(i + 1));
            i = i + 1;
        }
        true
    }

    /// Ends a scan: the files it saw become the ones known.
    pub fn finish_scan(&mut self, current: Vec<(String, FileFingerprint)>)
        ensures
            final(self).known_view() == current@.map_values(
                |x: (String, FileFingerprint)| (x.0@, x.1),
            ),
            final(self).scanned(),
    {
        self.known = current;
        self.initialised = true;
    }
}

/// The observation of a file found written by a polling scan: the local host
/// acting on it, with confidence 90.
pub fn polled_file_written(path: &str, now: u64) -> (r: CollectedObservation)
    ensures
        r.source == TelemetrySource::FilesystemPolling,
        r.event@ == "file_written"@,
        r.process_id is None,
        exists|host: ObjectDescriptor|
            local_host_spec(host) && file_observation_spec(
                r.observation,
                host,
                path@,
                ObservationKind::FileWritten,
                "poll-file"@,
                now,
                90,
            ),
{
    let host = local_host();
    let ghost h = host;
    proof {
        reveal_strlit("file_written");
    }
    CollectedObservation {
        source: TelemetrySource::FilesystemPolling,
        event: String::from_str("file_written"),
        process_id: None,
        observation: file_observation(host, path, ObservationKind::FileWritten, "poll-file", now, 90),
    }
}


/// What makes two collected events the same event within one read of the
/// fanotify queue: the process, the event name, the target and the time.
pub open spec fn event_key(c: CollectedObservation) -> (Option<u32>, Seq<char>, Option<Seq<char>>, u64) {
    (
        c.process_id,
        c.event@,
        match c.observation.target {
            Some(t) => Some(t.id.0@),
            None => None,
        },
        c.observation.observed_at,
    )
}

/// The events kept from one read of the fanotify queue: each event unless an
/// earlier kept one has its key.
pub struct EventBatch {
    kept: Vec<CollectedObservation>,
}

impl EventBatch {
    pub closed spec fn kept_view(&self) -> Seq<CollectedObservation> {
        self.kept@
    }

    pub fn new() -> (r: EventBatch)
        ensures
            r.kept_view().len() == 0,
    {
        EventBatch { kept: Vec::new() }
    }

    /// Keeps `event` unless an event with its key is kept already; whether
    /// it was kept.
    pub fn offer(&mut self, event: CollectedObservation) -> (r: bool)
        ensures
            r == !exists|i: int|
                0 <= i < old(self).kept_view().len() && event_key(#[trigger] old(self).kept_view()[i])
                    == event_key(event),
            r ==> final(self).kept_view() == old(self).kept_view().push(event),
            !r ==> final(self).kept_view() == old(self).kept_view(),
    {
        let mut i: usize = 0;
        while i < self.kept.len()
            invariant
                self.kept@ == old(self).kept@,
                i <= self.kept@.len(),
                forall|k: int| 0 <= k < i ==> event_key(#[trigger] self.kept@[k]) != event_key(event),
            decreases self.kept@.len() - i,
        {
            let k = &self.kept[i];
            let same_target = match (&k.observation.target, &event.observation.target) {
                (Some(a), Some(b)) => str_eq(a.id.0.as_str(), b.id.0.as_str()),
                (None, None) => true,
                _ => false,
            };
            if k.process_id == event.process_id && str_eq(k.event.as_str(), event.event.as_str())
                && same_target && k.observation.observed_at == event.observation.observed_at {
                assert(event_key(old(self).kept_view()[i as int]) == event_key(event));
                return false;
            }
            i = i + 1;
        }
        self.kept.push(event);
        true
    }

    /// The events kept, in the order they were offered.
    pub fn into_events(self) -> (r: Vec<CollectedObservation>)
        ensures
            r@ == self.kept_view(),
    {
        self.kept
    }
}

/// One fanotify event that carries a file descriptor: its event mask, the
/// descriptor and the process that caused it.
#[derive(Debug, Clone, Copy, PartialEq, Eq, Structural)]
pub struct FanotifyRecord {
    pub mask: u64,
    pub fd: i32,
    pub pid: i32,
}

/// The bytes of one fanotify event header: length (4), version (1),
/// reserved (1), header length (2), mask (8), descriptor (4), pid (4).
pub const FANOTIFY_HEADER_BYTES: usize = 24;

/// The unsigned value of the 4 bytes at `at`, in the given byte order.
pub open spec fn word32_at(b: Seq<u8>, at: int, little: bool) -> int {
    if little {
        b[at] + b[at + 1] * 256 + b[at + 2] * 65536 + b[at + 3] * 16777216
    } else {
        b[at] * 16777216 + b[at + 1] * 65536 + b[at + 2] * 256 + b[at + 3]
    }
}

/// The unsigned value of the 8 bytes at `at`, in the given byte order.
pub open spec fn word64_at(b: Seq<u8>, at: int, little: bool) -> int {
    if little {
        word32_at(b, at, true) + word32_at(b, at + 4, true) * 4294967296
    } else {
        word32_at(b, at, false) * 4294967296 + word32_at(b, at + 4, false)
    }
}

/// The two's complement value of the 4 bytes at `at`.
pub open spec fn signed32_at(b: Seq<u8>, at: int, little: bool) -> int {
    let u = word32_at(b, at, little);
    if u >= 2147483648 {
        u - 4294967296
    } else {
        u
    }
}

/// The events of a fanotify read buffer from `offset` on: each header gives
/// the event's length; the walk stops at a header that does not fit, a zero
/// length, or an event that runs past the buffer; events without a
/// descriptor are passed over.
pub open spec fn records_from(b: Seq<u8>, offset: nat, little: bool) -> Seq<FanotifyRecord>
    decreases b.len() - offset,
{
    if offset + 24 > b.len() {
        Seq::empty()
    } else {
        let len = word32_at(b, offset as int, little);
        if len == 0 || offset + len > b.len() {
            Seq::empty()
        } else {
            let fd = signed32_at(b, offset + 16int, little);
            let rest = records_from(b, (offset + len) as nat, little);
            if fd >= 0 {
                seq![
                    FanotifyRecord {
                        mask: word64_at(b, offset + 8int, little) as u64,
                        fd: fd as i32,
                        pid: signed32_at(b, offset + 20int, little) as i32,
                    },
                ] + rest
            } else {
                rest
            }
        }
    }
}

fn word32(b: &[u8], at: usize, little: bool) -> (r: u32)
    requires
        at + 4 <= b@.len(),
    ensures
        r == word32_at(b@, at as int, little),
{
    let (b0, b1, b2, b3) = (b[at] as u32, b[at + 1] as u32, b[at + 2] as u32, b[at + 3] as u32);
    if little {
        b0 + b1 * 256 + b2 * 65536 + b3 * 16777216
    } else {
        b0 * 16777216 + b1 * 65536 + b2 * 256 + b3
    }
}

fn signed32(b: &[u8], at: usize, little: bool) -> (r: i32)
    requires
        at + 4 <= b@.len(),
    ensures
        r == signed32_at(b@, at as int, little),
{
    let u = word32(b, at, little);
    if u >= 2147483648 {
        let d: u32 = u - 2147483648;
        (d as i32) - 2147483647 - 1
    } else {
        u as i32
    }
}

/// The events that carry a descriptor in a fanotify read buffer, in order,
/// with their headers read in the machine's byte order `little_endian`.
pub fn fanotify_records(b: &[u8], little_endian: bool) -> (r: Vec<FanotifyRecord>)
    ensures
        r@ == records_from(b@, 0, little_endian),
{
    let mut r: Vec<FanotifyRecord> = Vec::new();
    let mut offset: usize = 0;
    while offset <= b.len() && b.len() - offset >= FANOTIFY_HEADER_BYTES
        invariant
            offset <= b@.len(),
            r@ + records_from(b@, offset as nat, little_endian) == records_from(b@, 0, little_endian),
        decreases b@.len() - offset,
    {
        let len = word32(b, offset, little_endian);
        if len == 0 || len as usize > b.len() - offset {
            assert(records_from(b@, offset as nat, little_endian) =~= Seq::<FanotifyRecord>::empty());
            assert(r@ + Seq::<FanotifyRecord>::empty() =~= r@);
            return r;
        }
        let fd = signed32(b, offset + 16, little_endian);
        let ghost before = r@;
        let ghost rest = records_from(b@, (offset + len) as nat, little_endian);
        if fd >= 0 {
            let lo = word32(b, offset + 8, little_endian) as u64;
            let hi = word32(b, offset + 12, little_endian) as u64;
            let mask: u64 = if little_endian {
                lo + hi * 4294967296
            } else {
                lo * 4294967296 + hi
            };
            let pid = signed32(b, offset + 20, little_endian);
            let rec = FanotifyRecord { mask, fd, pid };
            r.push(rec);
            assert(records_from(b@, offset as nat, little_endian) == seq![rec] + rest);
            assert(before + (seq![rec] + rest) =~= r@ + rest);
        } else {
            assert(records_from(b@, offset as nat, little_endian) == rest);
        }
        offset = offset + len as usize;
    }
    assert(records_from(b@, offset as nat, little_endian) =~= Seq::<FanotifyRecord>::empty());
    assert(r@ + Seq::<FanotifyRecord>::empty() =~= r@);
    r
}

} // verus!
