//! What the process holds, and how much of that a cell actually holds.
//!
//! Process RSS and cgroup memory answer different questions. RSS describes the
//! process, while `memory.current` is the complete charge that the kernel
//! constrains. `memory.stat` identifies inactive file pages that the kernel can
//! reclaim, so pressure measurements do not treat that cache as a cell working
//! set.
use crate::text::{
    parse_u64, parsed_u64, same_text, split, split_on, split_words, trim, trimmed, views, words,
};
use vstd::prelude::*;

verus! {

/// The page size where the system names none.
pub const DEFAULT_PAGE_BYTES: u64 = 4096;

/// A limit from here on stands for no limit: cgroup v1 reports a huge
/// page-rounded value.
pub const NO_LIMIT_BYTES: u64 = 1_125_899_906_842_624;

/// A memory sample from one sampling turn.
#[derive(Clone, Copy, Debug, Default, PartialEq, Eq, Structural)]
pub struct Sample {
    pub rss_bytes: u64,
    pub in_use_bytes: u64,
    pub cgroup_working_set_bytes: Option<u64>,
    pub cgroup_current_bytes: Option<u64>,
}

/// The charge of a memory cgroup.
#[derive(Clone, Copy, Debug, PartialEq, Eq, Structural)]
pub struct CgroupMemory {
    pub current_bytes: u64,
    pub working_set_bytes: u64,
}

/// The texts of one cgroup hierarchy: its charge, and its statistics.
#[derive(Clone, Debug)]
pub struct CgroupFiles {
    pub current: Option<String>,
    pub stat: Option<String>,
}

/// A subtraction that stops at nothing.
pub open spec fn less(a: u64, b: u64) -> u64 {
    if a < b {
        0
    } else {
        (a - b) as u64
    }
}

/// The resident set size and the memory a cell holds, together.
pub fn sample(rss_bytes: u64, slack_bytes: u64, cgroup: Option<CgroupMemory>) -> (sample: Sample)
    ensures
        sample.rss_bytes == rss_bytes,
        sample.in_use_bytes == less(rss_bytes, slack_bytes),
        sample.in_use_bytes <= sample.rss_bytes,
        cgroup is None ==> sample.cgroup_working_set_bytes is None
            && sample.cgroup_current_bytes is None,
        cgroup matches Some(memory) ==> sample.cgroup_working_set_bytes == Some(
            memory.working_set_bytes,
        ) && sample.cgroup_current_bytes == Some(memory.current_bytes),
{
    let (working_set, current) = match cgroup {
        Some(memory) => (Some(memory.working_set_bytes), Some(memory.current_bytes)),
        None => (None, None),
    };
    Sample {
        rss_bytes,
        in_use_bytes: rss_bytes.saturating_sub(slack_bytes),
        cgroup_working_set_bytes: working_set,
        cgroup_current_bytes: current,
    }
}

/// The value on one line of a statistics text, where the line is about `key`.
pub open spec fn line_value(line: Seq<char>, key: Seq<char>) -> Option<u64> {
    let fields = words(line);
    if fields.len() >= 2 && fields[0] == key {
        parsed_u64(fields[1])
    } else {
        None
    }
}

/// The value of the first line at `from` or later that has one for `key`.
pub open spec fn value_from(lines: Seq<Seq<char>>, from: int, key: Seq<char>) -> Option<u64>
    decreases lines.len() - from,
{
    if from >= lines.len() {
        None
    } else {
        match line_value(lines[from], key) {
            Some(value) => Some(value),
            None => value_from(lines, from + 1, key),
        }
    }
}

/// The value of `key` in a statistics text.
pub open spec fn stat_value(stat: Seq<char>, key: Seq<char>) -> Option<u64> {
    value_from(split(stat, '\n'), 0, key)
}

/// The value of `key` in a statistics text: the number behind the key on the
/// first line that begins with the key and holds one.
pub fn memory_stat_value(stat: &str, key: &str) -> (value: Option<u64>)
    ensures
        value == stat_value(stat@, key@),
{
    let lines = split_on(stat, '\n');
    let mut i: usize = 0;
    while i < lines.len()
        invariant
            0 <= i <= lines@.len(),
            views(lines@) == split(stat@, '\n'),
            stat_value(stat@, key@) == value_from(split(stat@, '\n'), i as int, key@),
        decreases lines@.len() - i,
    {
        let fields = split_words(lines[i].as_str());
        assert(views(lines@)[i as int] == lines@[i as int]@);
        assert(fields@.len() > 0 ==> views(fields@)[0] == fields@[0]@);
        assert(fields@.len() > 1 ==> views(fields@)[1] == fields@[1]@);
        if fields.len() >= 2 && same_text(fields[0].as_str(), key) {
            match parse_u64(fields[1].as_str()) {
                Some(value) => return Some(value),
                None => {},
            }
        }
        i = i + 1;
    }
    None
}

/// The reclaimable bytes that a statistics text names under `inactive_key`. The
/// hierarchical figure of the older layout falls back to the local one.
pub open spec fn inactive_bytes(stat: Seq<char>, inactive_key: Seq<char>) -> u64 {
    match stat_value(stat, inactive_key) {
        Some(bytes) => bytes,
        None => if inactive_key == "total_inactive_file"@ {
            match stat_value(stat, "inactive_file"@) {
                Some(bytes) => bytes,
                None => 0,
            }
        } else {
            0
        },
    }
}

/// The charge without the bytes that the kernel can reclaim, or the whole charge
/// where more is reclaimable than was charged: the two are separate readings.
pub open spec fn memory_of(current_bytes: u64, inactive: u64) -> CgroupMemory {
    CgroupMemory {
        current_bytes,
        working_set_bytes: if inactive <= current_bytes {
            (current_bytes - inactive) as u64
        } else {
            current_bytes
        },
    }
}

/// The charge of a cgroup, from its reading and its statistics text.
pub fn cgroup_memory_from_stat(
    current_bytes: u64,
    stat: &str,
    inactive_key: &str,
) -> (memory: CgroupMemory)
    ensures
        memory == memory_of(current_bytes, inactive_bytes(stat@, inactive_key@)),
        memory.working_set_bytes <= memory.current_bytes,
{
    let inactive: u64 = match memory_stat_value(stat, inactive_key) {
        Some(bytes) => bytes,
        None => if same_text(inactive_key, "total_inactive_file") {
            match memory_stat_value(stat, "inactive_file") {
                Some(bytes) => bytes,
                None => 0,
            }
        } else {
            0
        },
    };
    CgroupMemory {
        current_bytes,
        // The files are separate kernel snapshots. If the inactive charge
        // races above the earlier current charge, using zero would hide all
        // active memory from the pressure and rollout gates.
        working_set_bytes: match current_bytes.checked_sub(inactive) {
            Some(bytes) => bytes,
            None => current_bytes,
        },
    }
}

/// The number that a file holds alone.
pub open spec fn file_number(text: Option<String>) -> Option<u64> {
    match text {
        Some(text) => parsed_u64(trimmed(text@)),
        None => None,
    }
}

/// The statistics text, empty where none was read.
pub open spec fn stat_text(files: CgroupFiles) -> Seq<char> {
    match files.stat {
        Some(text) => text@,
        None => Seq::empty(),
    }
}

/// The number that a file holds alone.
fn read_number(text: &Option<String>) -> (number: Option<u64>)
    ensures
        number == file_number(*text),
{
    match text {
        Some(text) => parse_u64(trim(text.as_str()).as_str()),
        None => None,
    }
}

/// The charge of one hierarchy, where its reading holds a number.
fn hierarchy_memory(files: &CgroupFiles, inactive_key: &str) -> (memory: Option<CgroupMemory>)
    ensures
        memory == match file_number(files.current) {
            Some(current) => Some(
                memory_of(current, inactive_bytes(stat_text(*files), inactive_key@)),
            ),
            None => None,
        },
{
    match read_number(&files.current) {
        Some(current) => {
            let memory = match &files.stat {
                Some(stat) => cgroup_memory_from_stat(current, stat.as_str(), inactive_key),
                None => {
                    let empty = String::new();
                    cgroup_memory_from_stat(current, empty.as_str(), inactive_key)
                },
            };
            Some(memory)
        },
        None => None,
    }
}

/// The charge of the unified hierarchy or, where it has no reading, of the
/// older one.
pub fn cgroup_memory(unified: &CgroupFiles, legacy: &CgroupFiles) -> (memory: Option<CgroupMemory>)
    ensures
        memory == match (file_number(unified.current), file_number(legacy.current)) {
            (Some(current), _) => Some(
                memory_of(current, inactive_bytes(stat_text(*unified), "inactive_file"@)),
            ),
            (None, Some(current)) => Some(
                memory_of(current, inactive_bytes(stat_text(*legacy), "total_inactive_file"@)),
            ),
            (None, None) => None,
        },
{
    match hierarchy_memory(unified, "inactive_file") {
        Some(memory) => Some(memory),
        None => hierarchy_memory(legacy, "total_inactive_file"),
    }
}

/// A limit that a file names, where it is a finite one.
pub open spec fn finite_limit(text: Option<String>) -> Option<u64> {
    match file_number(text) {
        Some(limit) => if limit < NO_LIMIT_BYTES {
            Some(limit)
        } else {
            None
        },
        None => None,
    }
}

/// The active memory-cgroup limit: that of the unified hierarchy, else that of
/// the older one. `None` means that no finite limit is readable, so the caller
/// must use the host memory size.
pub fn cgroup_limit_bytes(unified: &Option<String>, legacy: &Option<String>) -> (limit: Option<u64>)
    ensures
        limit == match finite_limit(*unified) {
            Some(limit) => Some(limit),
            None => finite_limit(*legacy),
        },
{
    match read_number(unified) {
        Some(limit) => if limit < NO_LIMIT_BYTES {
            return Some(limit);
        },
        None => {},
    }
    match read_number(legacy) {
        Some(limit) => if limit < NO_LIMIT_BYTES {
            Some(limit)
        } else {
            None
        },
        None => None,
    }
}

/// The page size that the system names, where it names one.
pub fn page_size(named: i64) -> (size: u64)
    ensures
        size as int == if named > 0 {
            named as int
        } else {
            DEFAULT_PAGE_BYTES as int
        },
{
    if named > 0 {
        named as u64
    } else {
        DEFAULT_PAGE_BYTES
    }
}

/// The resident pages that a process status text names: its second field.
pub open spec fn resident_pages(statm: Option<Seq<char>>) -> Option<u64> {
    match statm {
        Some(text) => if words(text).len() >= 2 {
            parsed_u64(words(text)[1])
        } else {
            None
        },
        None => None,
    }
}

/// The resident set size, from the process status text. Nothing readable counts
/// as nothing.
pub fn resident_bytes(statm: Option<&str>, page_bytes: u64) -> (bytes: u64)
    ensures
        ({
            let pages = resident_pages(
                match statm {
                    Some(text) => Some(text@),
                    None => None,
                },
            );
            bytes as int == match pages {
                Some(pages) => if pages * page_bytes > u64::MAX {
                    u64::MAX as int
                } else {
                    pages * page_bytes
                },
                None => 0,
            }
        }),
{
    match statm {
        Some(text) => {
            let fields = split_words(text);
            if fields.len() < 2 {
                return 0;
            }
            assert(views(fields@)[1] == fields@[1]@);
            match parse_u64(fields[1].as_str()) {
                Some(pages) => match pages.checked_mul(page_bytes) {
                    Some(bytes) => bytes,
                    None => u64::MAX,
                },
                None => 0,
            }
        },
        None => 0,
    }
}

/// `tikv_jemalloc_ctl::epoch::advance` refreshes the allocator's statistics; the
/// answer tells whether it did. Nothing is claimed of it.
#[verifier::external_body]
fn advance_epoch() -> (advanced: bool) {
    tikv_jemalloc_ctl::epoch::advance().is_ok()
}

/// `tikv_jemalloc_ctl::stats::resident::read`: the bytes in pages that the
/// allocator holds. Nothing is claimed of the figure.
#[verifier::external_body]
fn resident_stat() -> (bytes: Option<usize>) {
    tikv_jemalloc_ctl::stats::resident::read().ok()
}

/// `tikv_jemalloc_ctl::stats::allocated::read`: the bytes that the process has
/// allocated. Nothing is claimed of the figure.
#[verifier::external_body]
fn allocated_stat() -> (bytes: Option<usize>) {
    tikv_jemalloc_ctl::stats::allocated::read().ok()
}

/// The bytes in pages that the allocator holds but nothing uses; nothing where the
/// statistics were not refreshed or a figure is missing.
pub fn slack_bytes(
    advanced: bool,
    resident: Option<usize>,
    allocated: Option<usize>,
) -> (slack: u64)
    ensures
        slack == match (advanced, resident, allocated) {
            (true, Some(resident), Some(allocated)) => less(resident as u64, allocated as u64),
            _ => 0,
        },
{
    match (advanced, resident, allocated) {
        (true, Some(resident), Some(allocated)) => (resident as u64).saturating_sub(
            allocated as u64,
        ),
        _ => 0,
    }
}

/// The pages the allocator holds but nothing uses: what is resident less what is
/// allocated. The statistics are cached, so the epoch must advance first. A
/// failure gives zero, which makes the sample equal to RSS. The figures are the
/// allocator's own; what becomes of each of them is said of `slack_bytes`.
pub fn allocator_slack_bytes() -> u64 {
    let advanced = advance_epoch();
    let resident = if advanced {
        resident_stat()
    } else {
        None
    };
    let allocated = if resident.is_some() {
        allocated_stat()
    } else {
        None
    };
    slack_bytes(advanced, resident, allocated)
}

} // verus!
