//! Backup planning: the extension filter, size accounting, the copy plan,
//! volume selection, the retry policy and the destination name.
use vstd::prelude::*;
use vstd::string::*;
use crate::config::AppConfig;

verus! {

/// Why a backup run stopped.
#[derive(Debug, PartialEq, Eq)]
pub enum BackupError {
    /// The source directory is empty or does not exist.
    InvalidSource,
    /// The destination directory could not be created.
    DirectoryCreateError,
    /// Copying the entry at this path failed.
    CopyError(String),
}

/// The filter value that admits every file.
pub open spec fn all_filter() -> Seq<char> {
    seq!['a', 'l', 'l']
}

/// Index of the last `.` in `s`, or -1.
pub open spec fn last_dot(s: Seq<char>) -> int
    decreases s.len(),
{
    if s.len() == 0 {
        -1
    } else if s.last() == '.' {
        s.len() - 1
    } else {
        last_dot(s.drop_last())
    }
}

/// A file name's extension: what follows its last `.`, unless there is no `.`,
/// the only one leads the name, or the name is `..`.
pub open spec fn extension(name: Seq<char>) -> Option<Seq<char>> {
    let d = last_dot(name);
    if d <= 0 || name == seq!['.', '.'] {
        None
    } else {
        Some(name.subrange(d + 1, name.len() as int))
    }
}

/// Whether a file of this name passes the filter (exact, case-sensitive).
pub open spec fn counts(name: Seq<char>, filter: Seq<char>) -> bool {
    filter == all_filter() || extension(name) == Some(filter)
}

proof fn lemma_last_dot(s: Seq<char>)
    ensures
        -1 <= last_dot(s) < s.len(),
        last_dot(s) >= 0 ==> s[last_dot(s)] == '.',
        forall|k: int| last_dot(s) < k < s.len() ==> s[k] != '.',
    decreases s.len(),
{
    if s.len() > 0 && s.last() != '.' {
        lemma_last_dot(s.drop_last());
        assert forall|k: int| last_dot(s) < k < s.len() implies s[k] != '.' by {
            if k < s.len() - 1 {
                assert(s.drop_last()[k] == s[k]);
            }
        }
    }
}

fn same_chars(a: &str, b: &str) -> (r: bool)
    ensures
        r == (a@ == b@),
{
    let n = a.unicode_len();
    if n != b.unicode_len() {
        return false;
    }
    let mut i: usize = 0;
    while i < n
        invariant
            n == a@.len(),
            n == b@.len(),
            0 <= i <= n,
            forall|k: int| 0 <= k < i ==> a@[k] == b@[k],
        decreases n - i,
    {
        if a.get_char(i) != b.get_char(i) {
            return false;
        }
        i += 1;
    }
    assert(a@ =~= b@);
    true
}

/// Whether the extension of `name` is exactly `ext`.
pub fn has_extension(name: &str, ext: &str) -> (r: bool)
    ensures
        r == (extension(name@) == Some(ext@)),
{
    let n = name.unicode_len();
    let mut i: usize = n;
    let mut found = false;
    while i > 0 && !found
        invariant
            n == name@.len(),
            0 <= i <= n,
            found ==> i >= 1 && name@[i - 1] == '.',
            forall|k: int| i <= k < n ==> name@[k] != '.',
        decreases i + if found {
            0int
        } else {
            1int
        },
    {
        if name.get_char(i - 1) == '.' {
            found = true;
        } else {
            i -= 1;
        }
    }
    proof {
        lemma_last_dot(name@);
        if found {
            assert(last_dot(name@) == i - 1);
        } else {
            assert(last_dot(name@) == -1);
        }
    }
    if !found || i == 1 {
        return false;
    }
    if n == 2 && name.get_char(0) == '.' && name.get_char(1) == '.' {
        assert(name@ =~= seq!['.', '.']);
        return false;
    }
    proof {
        if name@ == seq!['.', '.'] {
            assert(name@[0] == '.' && name@[1] == '.');
        }
    }
    let tail = name.substring_char(i, n);
    same_chars(tail, ext)
}

/// Whether a file of this name is part of a backup under `filter`.
pub fn file_counts(name: &str, filter: &str) -> (r: bool)
    ensures
        r == counts(name@, filter@),
{
    let all = "all";
    proof {
        reveal_strlit("all");
    }
    assert(all@ =~= all_filter());
    same_chars(filter, all) || has_extension(name, filter)
}

/// The filter to apply for a configured extension: empty means every file.
pub fn effective_filter(configured: &str) -> (r: String)
    ensures
        r@ == if configured@.len() == 0 {
            all_filter()
        } else {
            configured@
        },
{
    if configured.unicode_len() == 0 {
        let all = "all";
        proof {
            reveal_strlit("all");
        }
        assert(all@ =~= all_filter());
        String::from_str(all)
    } else {
        String::from_str(configured)
    }
}

/// Rejects an empty or missing source directory.
pub fn validate_source(source_dir: &str, exists: bool) -> (r: Result<(), BackupError>)
    ensures
        r is Err <==> (source_dir@.len() == 0 || !exists),
        r is Err ==> r == Err::<(), BackupError>(BackupError::InvalidSource),
{
    if source_dir.unicode_len() == 0 || !exists {
        Err(BackupError::InvalidSource)
    } else {
        Ok(())
    }
}

/// One entry of the source tree, listed in walk order: a directory comes
/// before what it holds.
pub struct FileEntry {
    /// The entry's own name (its last path component).
    pub name: String,
    /// Its path relative to the source directory.
    pub rel_path: String,
    pub is_dir: bool,
    /// Its size in bytes; ignored for directories.
    pub size: u64,
}

/// A file that the filter admits; directories contribute no size.
pub open spec fn wanted(e: FileEntry, filter: Seq<char>) -> bool {
    !e.is_dir && counts(e.name@, filter)
}

/// Total size of the wanted files.
pub open spec fn total_bytes(es: Seq<FileEntry>, filter: Seq<char>) -> int
    decreases es.len(),
{
    if es.len() == 0 {
        0
    } else {
        total_bytes(es.drop_last(), filter) + if wanted(es.last(), filter) {
            es.last().size as int
        } else {
            0
        }
    }
}

/// Indices of the entries a copy reproduces, in walk order: every directory and
/// every wanted file.
pub open spec fn copy_plan(es: Seq<FileEntry>, filter: Seq<char>) -> Seq<usize>
    decreases es.len(),
{
    if es.len() == 0 {
        Seq::empty()
    } else if es.last().is_dir || counts(es.last().name@, filter) {
        copy_plan(es.drop_last(), filter).push((es.len() - 1) as usize)
    } else {
        copy_plan(es.drop_last(), filter)
    }
}

pub open spec fn min_u64(x: int) -> int {
    if x <= u64::MAX {
        x
    } else {
        u64::MAX as int
    }
}

proof fn lemma_total_nonneg(es: Seq<FileEntry>, filter: Seq<char>)
    ensures
        total_bytes(es, filter) >= 0,
    decreases es.len(),
{
    if es.len() > 0 {
        lemma_total_nonneg(es.drop_last(), filter);
    }
}

/// Bytes needed for a backup under `filter`, capped at `u64::MAX`.
pub fn required_bytes(entries: &Vec<FileEntry>, filter: &str) -> (r: u64)
    ensures
        r as int == min_u64(total_bytes(entries@, filter@)),
{
    let mut total: u64 = 0;
    let mut i: usize = 0;
    while i < entries.len()
        invariant
            0 <= i <= entries@.len(),
            total as int == min_u64(total_bytes(entries@.take(i as int), filter@)),
        decreases entries@.len() - i,
    {
        let e = &entries[i];
        proof {
            assert(entries@.take(i + 1).drop_last() =~= entries@.take(i as int));
            lemma_total_nonneg(entries@.take(i as int), filter@);
        }
        if !e.is_dir && file_counts(e.name.as_str(), filter) {
            if total > u64::MAX - e.size {
                total = u64::MAX;
            } else {
                total = total + e.size;
            }
        }
        i += 1;
    }
    assert(entries@.take(i as int) =~= entries@);
    total
}

/// Which entries to recreate at the destination, in the order to do so.
pub fn plan_copy(entries: &Vec<FileEntry>, filter: &str) -> (r: Vec<usize>)
    ensures
        r@ == copy_plan(entries@, filter@),
{
    let mut plan: Vec<usize> = Vec::new();
    let mut i: usize = 0;
    while i < entries.len()
        invariant
            0 <= i <= entries@.len(),
            plan@ == copy_plan(entries@.take(i as int), filter@),
        decreases entries@.len() - i,
    {
        let e = &entries[i];
        proof {
            assert(entries@.take(i + 1).drop_last() =~= entries@.take(i as int));
        }
        if e.is_dir || file_counts(e.name.as_str(), filter) {
            plan.push(i);
        }
        i += 1;
    }
    assert(entries@.take(i as int) =~= entries@);
    plan
}

/// A mounted volume as the system reported it at one moment.
pub struct VolumeInfo {
    pub mount_point: String,
    pub available_bytes: u64,
    pub removable: bool,
    pub read_only: bool,
}

/// A removable, writable volume with more than `min_bytes` free.
pub open spec fn suitable(v: VolumeInfo, min_bytes: u64) -> bool {
    v.removable && !v.read_only && v.available_bytes > min_bytes
}

/// Index of the first suitable volume, if any.
pub fn select_volume(volumes: &Vec<VolumeInfo>, min_bytes: u64) -> (r: Option<usize>)
    ensures
        match r {
            Some(i) => {
                &&& i < volumes@.len()
                &&& suitable(volumes@[i as int], min_bytes)
                &&& forall|j: int| 0 <= j < i ==> !suitable(#[trigger] volumes@[j], min_bytes)
            },
            None => forall|j: int| 0 <= j < volumes@.len() ==> !suitable(#[trigger] volumes@[j], min_bytes),
        },
{
    let mut i: usize = 0;
    while i < volumes.len()
        invariant
            0 <= i <= volumes@.len(),
            forall|j: int| 0 <= j < i ==> !suitable(#[trigger] volumes@[j], min_bytes),
        decreases volumes@.len() - i,
    {
        let v = &volumes[i];
        if v.removable && !v.read_only && v.available_bytes > min_bytes {
            return Some(i);
        }
        i += 1;
    }
    None
}

/// Relies on sysinfo's `Disks::new_with_refreshed_list` and the `Disk` getters
/// (mount point, available space, removable, read-only): a fresh enumeration of
/// the mounted volumes, which depends on the machine at the moment of the call.
#[verifier::external_body]
fn list_volumes() -> (r: Vec<VolumeInfo>) {
    let disks = sysinfo::Disks::new_with_refreshed_list();
    disks.list().iter().map(
        |d|
            VolumeInfo {
                mount_point: d.mount_point().to_string_lossy().into_owned(),
                available_bytes: d.available_space(),
                removable: d.is_removable(),
                read_only: d.is_read_only(),
            },
    ).collect()
}

/// Enumerates the volumes now and returns the first suitable one, if any.
pub fn find_usb(min_space: u64) -> (r: Option<VolumeInfo>)
    ensures
        match r {
            Some(v) => suitable(v, min_space),
            None => true,
        },
{
    let volumes = list_volumes();
    match select_volume(&volumes, min_space) {
        Some(i) => {
            let v = &volumes[i];
            Some(
                VolumeInfo {
                    mount_point: v.mount_point.clone(),
                    available_bytes: v.available_bytes,
                    removable: v.removable,
                    read_only: v.read_only,
                },
            )
        },
        None => None,
    }
}

/// Seconds to wait between two volume searches.
pub const RETRY_INTERVAL_SECS: u64 = 10;

/// What to do after a volume search found nothing.
#[derive(Debug, Clone, Copy, PartialEq, Eq, Structural)]
pub enum RetryStep {
    /// Wait this many seconds, then search again.
    Wait(u64),
    /// Stop searching.
    GiveUp,
}

/// How long to wait between volume searches, and how many searches to make.
#[derive(Debug, Clone, Copy, PartialEq, Eq, Structural)]
pub struct RetryPolicy {
    pub interval_secs: u64,
    /// `None` searches until a volume appears.
    pub max_attempts: Option<u64>,
}

pub open spec fn retry_step(p: RetryPolicy, attempts: u64) -> RetryStep {
    match p.max_attempts {
        Some(m) => if attempts >= m {
            RetryStep::GiveUp
        } else {
            RetryStep::Wait(p.interval_secs)
        },
        None => RetryStep::Wait(p.interval_secs),
    }
}

impl RetryPolicy {
    /// A fixed interval with no bound on the number of searches.
    pub fn standard() -> (r: Self)
        ensures
            r.interval_secs == RETRY_INTERVAL_SECS,
            r.max_attempts is None,
    {
        RetryPolicy { interval_secs: RETRY_INTERVAL_SECS, max_attempts: None }
    }

    /// The step after `attempts` searches that all found nothing.
    pub fn after_miss(&self, attempts: u64) -> (r: RetryStep)
        ensures
            r == retry_step(*self, attempts),
    {
        match self.max_attempts {
            Some(m) => if attempts >= m {
                RetryStep::GiveUp
            } else {
                RetryStep::Wait(self.interval_secs)
            },
            None => RetryStep::Wait(self.interval_secs),
        }
    }
}

/// `<base>_<stamp>`.
pub open spec fn dir_name(base: Seq<char>, stamp: Seq<char>) -> Seq<char> {
    base + seq!['_'] + stamp
}

/// The destination directory name for a source named `base` at time `stamp`.
pub fn backup_dir_name(base: &str, stamp: &str) -> (r: String)
    ensures
        r@ == dir_name(base@, stamp@),
{
    let sep = "_";
    proof {
        reveal_strlit("_");
    }
    assert(sep@ =~= seq!['_']);
    let mut r = String::from_str(base);
    r.append(sep);
    r.append(stamp);
    r
}

/// Relies on chrono's `Local::now` and its `format` with
/// `%Y-%m-%d-%H-%M-%S`: the local time of the call as text.
#[verifier::external_body]
fn local_timestamp() -> (r: String) {
    chrono::Local::now().format("%Y-%m-%d-%H-%M-%S").to_string()
}

/// The destination directory name for a source named `base`, stamped now.
pub fn timestamped_dir_name(base: &str) -> (r: String)
    ensures
        exists|stamp: Seq<char>| r@ == dir_name(base@, stamp),
{
    let stamp = local_timestamp();
    let r = backup_dir_name(base, stamp.as_str());
    assert(r@ == dir_name(base@, stamp@));
    r
}

/// What a triggered backup copies, decided before any volume is searched.
pub struct BackupJob {
    pub source_dir: String,
    /// `all`, or an extension without the dot.
    pub filter: String,
    pub required_bytes: u64,
}

/// Checks the source and sizes the backup of the listed source tree.
pub fn prepare_backup(config: &AppConfig, source_exists: bool, entries: &Vec<FileEntry>) -> (r:
    Result<BackupJob, BackupError>)
    ensures
        r is Err <==> (config.source_dir@.len() == 0 || !source_exists),
        match r {
            Ok(job) => {
                &&& job.source_dir@ == config.source_dir@
                &&& job.filter@ == if config.file_extension@.len() == 0 {
                    all_filter()
                } else {
                    config.file_extension@
                }
                &&& job.required_bytes as int == min_u64(total_bytes(entries@, job.filter@))
            },
            Err(e) => e == BackupError::InvalidSource,
        },
{
    match validate_source(config.source_dir.as_str(), source_exists) {
        Err(e) => Err(e),
        Ok(()) => {
            let filter = config.filter();
            let required_bytes = required_bytes(entries, filter.as_str());
            Ok(BackupJob { source_dir: config.source_dir.clone(), filter, required_bytes })
        },
    }
}

} // verus!
