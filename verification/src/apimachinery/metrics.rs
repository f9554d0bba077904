//! The metrics that every component exposes: what is read of the process, and
//! under which names.

use vstd::prelude::*;
use vstd::string::*;

use crate::decimal::{parse_u64, unsigned};
use crate::outside::{nanos_since, now_instant};
use crate::text::{
    has_prefix, has_sub, lemma_rfind_to, occurs_at, rfind, rfind_text, rfind_to, split, split_on,
    starts_with, strip_prefix, texts, trim, trimmed_text, without_prefix, words, words_of,
};

verus! {

/// Ticks of the clock in a second.
pub const TICKS_PER_SEC: u64 = 100;

/// One value of a metric, in hundredths.
pub struct Sample {
    pub name: &'static str,
    pub hundredths: u128,
}

/// What a [`Sample`] says.
pub ghost struct SampleView {
    pub name: Seq<char>,
    pub hundredths: nat,
}

impl View for Sample {
    type V = SampleView;

    open spec fn view(&self) -> SampleView {
        SampleView { name: self.name@, hundredths: self.hundredths as nat }
    }
}

/// A value of a metric.
pub open spec fn sample(name: Seq<char>, hundredths: nat) -> SampleView {
    SampleView { name, hundredths }
}

/// The samples as views.
pub open spec fn samples(v: Seq<Sample>) -> Seq<SampleView> {
    v.map_values(|s: Sample| s@)
}

/// Whether this instance leads: the value of `leader_election_master_status`.
pub fn set_leader(held: bool) -> (r: Sample)
    ensures
        r@ == sample(
            "leader_election_master_status"@,
            if held {
                100
            } else {
                0
            },
        ),
{
    Sample {
        name: "leader_election_master_status",
        hundredths: if held {
            100
        } else {
            0
        },
    }
}

// ---------------------------------------------------------------------------
// The process
// ---------------------------------------------------------------------------

/// The fields of `stat` behind the name of the command. The name stands in
/// parentheses and may hold spaces and parentheses of its own, so the fields are
/// those behind the last one.
pub open spec fn stat_fields(stat: Seq<char>) -> Option<Seq<Seq<char>>> {
    match rfind(stat, ") "@) {
        Some(i) => Some(words(stat.skip(i + 2))),
        None => None,
    }
}

/// The number in a field.
pub open spec fn number_field(fields: Seq<Seq<char>>, i: int) -> Option<nat> {
    if 0 <= i < fields.len() {
        unsigned(fields[i], u64::MAX as nat)
    } else {
        None
    }
}

/// The fields of `stat` behind the name of the command.
pub fn fields_of(stat: &str) -> (r: Option<Vec<String>>)
    ensures
        match r {
            Some(v) => stat_fields(stat@) == Some(texts(v@)),
            None => stat_fields(stat@) is None,
        },
{
    match rfind_text(stat, ") ") {
        Some(i) => {
            proof {
                reveal_strlit(") ");
                assert(") "@.len() == 2);
                lemma_rfind_to(stat@, ") "@, stat@.len() - 2);
            }
            let len: usize = stat.unicode_len();
            let rest = stat.substring_char(i + 2, len);
            assert(rest@ =~= stat@.skip(i + 2));
            Some(words_of(rest))
        },
        None => None,
    }
}

fn field(fields: &Vec<String>, i: usize) -> (r: Option<u64>)
    ensures
        match r {
            Some(n) => number_field(texts(fields@), i as int) == Some(n as nat),
            None => number_field(texts(fields@), i as int) is None,
        },
{
    assert(texts(fields@).len() == fields@.len());
    if i < fields.len() {
        parse_u64(fields[i].as_str())
    } else {
        None
    }
}

/// The time at which the machine started, in the lines of `/proc/stat`.
pub open spec fn boot_line(lines: Seq<Seq<char>>) -> Option<Seq<char>>
    decreases lines.len(),
{
    if lines.len() == 0 {
        None
    } else {
        match without_prefix(lines[0], "btime "@) {
            Some(v) => Some(v),
            None => boot_line(lines.skip(1)),
        }
    }
}

/// The time at which the machine started, in seconds.
pub open spec fn boot_time(stat: Seq<char>) -> Option<nat> {
    match boot_line(split(stat, '\n')) {
        Some(v) => unsigned(trimmed_text(v), u64::MAX as nat),
        None => None,
    }
}

/// The time at which the machine started, in seconds.
pub fn boot_time_secs(stat: &str) -> (r: Option<u64>)
    ensures
        match r {
            Some(n) => boot_time(stat@) == Some(n as nat),
            None => boot_time(stat@) is None,
        },
{
    let lines = split_on(stat, '\n');
    let ghost ls = split(stat@, '\n');
    let mut i: usize = 0;
    assert(ls.skip(0) =~= ls);
    while i < lines.len()
        invariant
            i <= lines.len(),
            ls == texts(lines@),
            ls == split(stat@, '\n'),
            boot_line(ls) == boot_line(ls.skip(i as int)),
        decreases lines.len() - i,
    {
        proof {
            assert(ls.skip(i as int)[0] == lines@[i as int]@);
            assert(ls.skip(i as int).skip(1) =~= ls.skip(i + 1));
        }
        match strip_prefix(lines[i].as_str(), "btime ") {
            Some(v) => {
                return parse_u64(trim(v));
            },
            None => {},
        }
        i = i + 1;
    }
    None
}

/// What `stat` says of the process: the time it has run, and when it started.
pub open spec fn stat_samples(stat: Seq<char>, boot: Option<nat>) -> Seq<SampleView> {
    match stat_fields(stat) {
        Some(f) => {
            let cpu = match (number_field(f, 11), number_field(f, 12)) {
                (Some(u), Some(s)) => Seq::empty().push(sample("process_cpu_seconds_total"@, u + s)),
                _ => Seq::<SampleView>::empty(),
            };
            match (number_field(f, 19), boot) {
                (Some(t), Some(b)) => cpu.push(
                    sample("process_start_time_seconds"@, b * TICKS_PER_SEC as nat + t),
                ),
                _ => cpu,
            }
        },
        None => Seq::empty(),
    }
}

fn add_sample(out: &mut Vec<Sample>, name: &'static str, hundredths: u128)
    ensures
        samples(final(out)@) == samples(old(out)@).push(sample(name@, hundredths as nat)),
{
    let ghost was = samples(out@);
    out.push(Sample { name, hundredths });
    assert(samples(out@) =~= was.push(sample(name@, hundredths as nat)));
}

fn read_stat(stat: &str, boot: Option<u64>) -> (r: Vec<Sample>)
    ensures
        samples(r@) == stat_samples(
            stat@,
            match boot {
                Some(b) => Some(b as nat),
                None => None,
            },
        ),
{
    let mut out: Vec<Sample> = Vec::new();
    assert(samples(out@) =~= Seq::<SampleView>::empty());
    let f = match fields_of(stat) {
        Some(f) => f,
        None => {
            return out;
        },
    };
    match (field(&f, 11), field(&f, 12)) {
        (Some(u), Some(s)) => {
            add_sample(&mut out, "process_cpu_seconds_total", u as u128 + s as u128);
        },
        _ => {},
    }
    match (field(&f, 19), boot) {
        (Some(t), Some(b)) => {
            add_sample(
                &mut out,
                "process_start_time_seconds",
                b as u128 * TICKS_PER_SEC as u128 + t as u128,
            );
        },
        _ => {},
    }
    out
}

/// The number of kilobytes at the start of a text, as hundredths of bytes.
pub open spec fn kilobytes(s: Seq<char>) -> Option<nat> {
    match number_field(words(s), 0) {
        Some(n) => Some(n * 102400),
        None => None,
    }
}

/// What a line of `status` says of the memory of the process.
pub open spec fn memory_line(line: Seq<char>) -> Option<SampleView> {
    match without_prefix(line, "VmRSS:"@) {
        Some(rest) => match kilobytes(rest) {
            Some(n) => Some(sample("process_resident_memory_bytes"@, n)),
            None => None,
        },
        None => match without_prefix(line, "VmSize:"@) {
            Some(rest) => match kilobytes(rest) {
                Some(n) => Some(sample("process_virtual_memory_bytes"@, n)),
                None => None,
            },
            None => None,
        },
    }
}

/// What a line of `limits` says of the files of the process.
pub open spec fn limit_line(line: Seq<char>) -> Option<SampleView> {
    if has_prefix(line, "Max open files"@) {
        match number_field(words(line), 3) {
            Some(n) => Some(sample("process_max_fds"@, n * 100)),
            None => None,
        }
    } else {
        None
    }
}

/// What some lines of `status` say.
pub open spec fn memory_samples(lines: Seq<Seq<char>>) -> Seq<SampleView>
    decreases lines.len(),
{
    if lines.len() == 0 {
        Seq::empty()
    } else {
        let rest = memory_samples(lines.drop_last());
        match memory_line(lines.last()) {
            Some(s) => rest.push(s),
            None => rest,
        }
    }
}

/// What some lines of `limits` say.
pub open spec fn limit_samples(lines: Seq<Seq<char>>) -> Seq<SampleView>
    decreases lines.len(),
{
    if lines.len() == 0 {
        Seq::empty()
    } else {
        let rest = limit_samples(lines.drop_last());
        match limit_line(lines.last()) {
            Some(s) => rest.push(s),
            None => rest,
        }
    }
}

fn read_kilobytes(s: &str) -> (r: Option<u128>)
    ensures
        match r {
            Some(n) => kilobytes(s@) == Some(n as nat),
            None => kilobytes(s@) is None,
        },
{
    let ws = words_of(s);
    match field(&ws, 0) {
        Some(n) => Some(n as u128 * 102400),
        None => None,
    }
}

fn read_memory(status: &str) -> (r: Vec<Sample>)
    ensures
        samples(r@) == memory_samples(split(status@, '\n')),
{
    let mut out: Vec<Sample> = Vec::new();
    let lines = split_on(status, '\n');
    let ghost ls = split(status@, '\n');
    assert(samples(out@) =~= Seq::<SampleView>::empty());
    let mut i: usize = 0;
    while i < lines.len()
        invariant
            i <= lines.len(),
            ls == texts(lines@),
            samples(out@) == memory_samples(ls.take(i as int)),
        decreases lines.len() - i,
    {
        proof {
            assert(ls.take(i + 1).drop_last() =~= ls.take(i as int));
            assert(ls.take(i + 1).last() == lines@[i as int]@);
        }
        let line = lines[i].as_str();
        match strip_prefix(line, "VmRSS:") {
            Some(rest) => match read_kilobytes(rest) {
                Some(n) => {
                    add_sample(&mut out, "process_resident_memory_bytes", n);
                },
                None => {},
            },
            None => match strip_prefix(line, "VmSize:") {
                Some(rest) => match read_kilobytes(rest) {
                    Some(n) => {
                        add_sample(&mut out, "process_virtual_memory_bytes", n);
                    },
                    None => {},
                },
                None => {},
            },
        }
        i = i + 1;
    }
    assert(ls.take(i as int) =~= ls);
    out
}

fn read_limits(limits: &str) -> (r: Vec<Sample>)
    ensures
        samples(r@) == limit_samples(split(limits@, '\n')),
{
    let mut out: Vec<Sample> = Vec::new();
    let lines = split_on(limits, '\n');
    let ghost ls = split(limits@, '\n');
    assert(samples(out@) =~= Seq::<SampleView>::empty());
    let mut i: usize = 0;
    while i < lines.len()
        invariant
            i <= lines.len(),
            ls == texts(lines@),
            samples(out@) == limit_samples(ls.take(i as int)),
        decreases lines.len() - i,
    {
        proof {
            assert(ls.take(i + 1).drop_last() =~= ls.take(i as int));
            assert(ls.take(i + 1).last() == lines@[i as int]@);
        }
        let line = lines[i].as_str();
        if starts_with(line, "Max open files") {
            let ws = words_of(line);
            match field(&ws, 3) {
                Some(n) => {
                    add_sample(&mut out, "process_max_fds", n as u128 * 100);
                },
                None => {},
            }
        }
        i = i + 1;
    }
    assert(ls.take(i as int) =~= ls);
    out
}

/// What was read of the process. What could not be read is absent.
pub struct ProcFiles {
    /// `/proc/self/stat`.
    pub stat: Option<String>,
    /// `/proc/stat`.
    pub boot: Option<String>,
    /// `/proc/self/status`.
    pub status: Option<String>,
    /// How many files are open.
    pub open_fds: Option<u64>,
    /// `/proc/self/limits`.
    pub limits: Option<String>,
}

/// The `process_*` metrics. A file that could not be read leaves its metrics out.
pub open spec fn process_samples(p: ProcFiles) -> Seq<SampleView> {
    let boot = match p.boot {
        Some(b) => boot_time(b@),
        None => None,
    };
    let stat = match p.stat {
        Some(s) => stat_samples(s@, boot),
        None => Seq::empty(),
    };
    let memory = match p.status {
        Some(s) => memory_samples(split(s@, '\n')),
        None => Seq::empty(),
    };
    let fds = match p.open_fds {
        Some(n) => Seq::empty().push(sample("process_open_fds"@, n as nat * 100)),
        None => Seq::empty(),
    };
    let limits = match p.limits {
        Some(s) => limit_samples(split(s@, '\n')),
        None => Seq::empty(),
    };
    stat + memory + fds + limits
}

fn join_samples(out: &mut Vec<Sample>, part: Vec<Sample>)
    ensures
        samples(final(out)@) == samples(old(out)@) + samples(part@),
{
    let mut part = part;
    let ghost a = samples(out@);
    let ghost b = samples(part@);
    out.append(&mut part);
    assert(samples(out@) =~= a + b);
}

/// The `process_*` metrics, of what was read of the process.
pub fn refresh_process_metrics(p: &ProcFiles) -> (r: Vec<Sample>)
    ensures
        samples(r@) == process_samples(*p),
{
    let boot = match &p.boot {
        Some(b) => boot_time_secs(b.as_str()),
        None => None,
    };
    let mut out: Vec<Sample> = Vec::new();
    assert(samples(out@) =~= Seq::<SampleView>::empty());
    match &p.stat {
        Some(s) => {
            out = read_stat(s.as_str(), boot);
        },
        None => {},
    }
    match &p.status {
        Some(s) => {
            join_samples(&mut out, read_memory(s.as_str()));
        },
        None => {
            assert(samples(out@) =~= samples(out@) + Seq::<SampleView>::empty());
        },
    }
    match p.open_fds {
        Some(n) => {
            let ghost was = samples(out@);
            add_sample(&mut out, "process_open_fds", n as u128 * 100);
            assert(samples(out@) =~= was + Seq::empty().push(
                sample("process_open_fds"@, n as nat * 100),
            ));
        },
        None => {
            assert(samples(out@) =~= samples(out@) + Seq::<SampleView>::empty());
        },
    }
    match &p.limits {
        Some(s) => {
            join_samples(&mut out, read_limits(s.as_str()));
        },
        None => {
            assert(samples(out@) =~= samples(out@) + Seq::<SampleView>::empty());
        },
    }
    out
}

// ---------------------------------------------------------------------------
// The store
// ---------------------------------------------------------------------------

/// The time of a round trip to the store, from its start.
pub struct StoreTimer {
    operation: &'static str,
    resource: String,
    started: std::time::Instant,
}

impl StoreTimer {
    /// What is done at the store.
    pub closed spec fn operation_spec(&self) -> Seq<char> {
        self.operation@
    }

    /// The resource it is done for.
    pub closed spec fn resource_spec(&self) -> Seq<char> {
        self.resource@
    }

    /// Starts the time of an operation on a resource.
    pub fn new(operation: &'static str, resource: String) -> (r: StoreTimer)
        ensures
            r.operation_spec() == operation@,
            r.resource_spec() == resource@,
    {
        StoreTimer { operation, resource, started: now_instant() }
    }

    /// What is done at the store.
    pub fn operation(&self) -> (r: &'static str)
        ensures
            r@ == self.operation_spec(),
    {
        self.operation
    }

    /// The resource it is done for.
    pub fn resource(&self) -> (r: &str)
        ensures
            r@ == self.resource_spec(),
    {
        self.resource.as_str()
    }

    /// The time since the start, in nanoseconds. Two calls give two times.
    pub fn elapsed_nanos(&self) -> u128 {
        nanos_since(&self.started)
    }
}

/// The name of a command does not shift the fields behind it: whatever stands in
/// front of the last closing parenthesis.
pub proof fn law_the_command_does_not_shift_the_fields(front: Seq<char>, rest: Seq<char>)
    requires
        !has_sub(rest, ") "@),
        rest.len() > 0,
        rest[0] != ' ',
    ensures
        stat_fields(front + ") "@ + rest) == Some(words(rest)),
{
    reveal_strlit(") ");
    assert(") "@ =~= seq![')', ' ']);
    let s = front + ") "@ + rest;
    let n = front.len() as int;
    lemma_rfind_last(s, front, rest, s.len() - 2);
    assert(s.skip(n + 2) =~= rest);
}

proof fn lemma_rfind_last(s: Seq<char>, front: Seq<char>, rest: Seq<char>, to: int)
    requires
        s == front + ") "@ + rest,
        ") "@ =~= seq![')', ' '],
        !has_sub(rest, ") "@),
        front.len() <= to <= s.len() - 2,
    ensures
        rfind_to(s, ") "@, to) == Some(front.len() as int),
    decreases to,
{
    let n = front.len() as int;
    if to == n {
        assert(s.subrange(n, n + 2) =~= ") "@);
        assert(occurs_at(s, ") "@, n));
    } else {
        if occurs_at(s, ") "@, to) {
            assert(s.subrange(to, to + 2)[0] == s[to]);
            assert(s.subrange(to, to + 2)[1] == s[to + 1]);
            if to == n + 1 {
                assert(s[to] == ' ');
            } else {
                let k = to - n - 2;
                assert(rest.subrange(k, k + 2) =~= s.subrange(to, to + 2));
                assert(occurs_at(rest, ") "@, k));
            }
        }
        lemma_rfind_last(s, front, rest, to - 1);
    }
}

/// The time that a process has spent is that in user mode and that in the system, the 14th
/// and the 15th field of its `stat`, and it started as many ticks behind the start of the
/// machine as the 22nd says.
pub proof fn law_the_fields_of_a_process(
    front: Seq<char>,
    rest: Seq<char>,
    user: nat,
    system: nat,
    started: nat,
    boot: nat,
)
    requires
        !has_sub(rest, ") "@),
        rest.len() > 0,
        rest[0] != ' ',
        words(rest).len() > 19,
        unsigned(words(rest)[14 - 3], u64::MAX as nat) == Some(user),
        unsigned(words(rest)[15 - 3], u64::MAX as nat) == Some(system),
        unsigned(words(rest)[22 - 3], u64::MAX as nat) == Some(started),
    ensures
        stat_samples(front + ") "@ + rest, Some(boot)) == seq![
            SampleView { name: "process_cpu_seconds_total"@, hundredths: user + system },
            SampleView { name: "process_start_time_seconds"@, hundredths: boot * 100 + started },
        ],
{
    law_the_command_does_not_shift_the_fields(front, rest);
    assert(stat_samples(front + ") "@ + rest, Some(boot)) =~= seq![
        SampleView { name: "process_cpu_seconds_total"@, hundredths: user + system },
        SampleView { name: "process_start_time_seconds"@, hundredths: boot * 100 + started },
    ]);
}

/// Memory is told in units of 1024 bytes, and exported in bytes.
pub proof fn law_memory_is_told_in_kilobytes(rest: Seq<char>, n: nat)
    requires
        words(rest).len() > 0,
        unsigned(words(rest)[0], u64::MAX as nat) == Some(n),
    ensures
        memory_line("VmRSS:"@ + rest) == Some(
            SampleView { name: "process_resident_memory_bytes"@, hundredths: n * 1024 * 100 },
        ),
        memory_line("VmSize:"@ + rest) == Some(
            SampleView { name: "process_virtual_memory_bytes"@, hundredths: n * 1024 * 100 },
        ),
{
    reveal_strlit("VmRSS:");
    reveal_strlit("VmSize:");
    let a = "VmRSS:"@ + rest;
    let b = "VmSize:"@ + rest;
    assert(a.subrange(0, 6) =~= "VmRSS:"@);
    assert(a.skip(6) =~= rest);
    assert(b.subrange(0, 7) =~= "VmSize:"@);
    assert(b.skip(7) =~= rest);
    assert(b[2] == 'S');
    if has_prefix(b, "VmRSS:"@) {
        assert(b.subrange(0, 6)[2] == 'R');
    }
    assert(n * 1024 * 100 == n * 102400);
}

/// What a process may open is the fourth word of its line, and what it has opened is the number
/// of its descriptors.
pub proof fn law_open_files_are_told(line: Seq<char>, n: nat, p: ProcFiles)
    requires
        has_prefix(line, "Max open files"@),
        words(line).len() > 3,
        unsigned(words(line)[3], u64::MAX as nat) == Some(n),
    ensures
        limit_line(line) == Some(SampleView { name: "process_max_fds"@, hundredths: 100 * n }),
        p.stat is None && p.status is None && p.limits is None && p.open_fds is Some
            ==> process_samples(p) == seq![
            SampleView { name: "process_open_fds"@, hundredths: 100 * (p.open_fds->0 as nat) },
        ],
        p.stat is None && p.status is None && p.limits is None && p.open_fds is None
            ==> process_samples(p).len() == 0,
{
    if p.stat is None && p.status is None && p.limits is None && p.open_fds is Some {
        assert(process_samples(p) =~= seq![
            SampleView { name: "process_open_fds"@, hundredths: 100 * (p.open_fds->0 as nat) },
        ]);
    }
}

/// The time of the start of the machine is the first line that says so.
pub proof fn law_the_start_of_the_machine(lines: Seq<Seq<char>>, i: int, v: Seq<char>)
    requires
        0 <= i < lines.len(),
        lines[i] == "btime "@ + v,
        forall|k: int| 0 <= k < i ==> !has_prefix(#[trigger] lines[k], "btime "@),
    ensures
        boot_line(lines) == Some(v),
    decreases lines.len(),
{
    if i > 0 {
        let rest = lines.skip(1);
        assert(!has_prefix(lines[0], "btime "@));
        assert(rest[i - 1] == lines[i]);
        assert forall|k: int| 0 <= k < i - 1 implies !has_prefix(
            #[trigger] rest[k],
            "btime "@,
        ) by {
            assert(rest[k] == lines[k + 1]);
        }
        law_the_start_of_the_machine(rest, i - 1, v);
    } else {
        crate::text::law_the_ends_of_a_text("btime "@, v, 'b');
    }
}

} // verus!
