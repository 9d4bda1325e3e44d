//! Where logs are kept, and for how long.
use crate::paths::{file_stem, join_path, joined, last_dot, stem_of};
use crate::text::{concat_text, ends_with, text_ends};
use vstd::prelude::*;

verus! {

/// Configuration of the turn log.
#[derive(Debug)]
pub struct WalConfig {
    /// Directory that holds one directory per thread.
    pub root: String,
    /// How long finished logs are kept, in milliseconds.
    pub retention_millis: u64,
    /// Bytes of finished logs that one thread may keep.
    pub thread_quota_bytes: u64,
}

impl WalConfig {
    /// The defaults below a home directory: fourteen days, 256 MiB.
    pub fn defaults_under(home: &str) -> (r: WalConfig)
        ensures
            r.root@ == joined(home@, ".local/state/codex-desktop/turns"@),
            r.retention_millis == 14 * 24 * 60 * 60 * 1000,
            r.thread_quota_bytes == 256 * 1024 * 1024,
    {
        WalConfig {
            root: join_path(home, ".local/state/codex-desktop/turns"),
            retention_millis: 1_209_600_000,
            thread_quota_bytes: 268_435_456,
        }
    }
}

impl Clone for WalConfig {
    fn clone(&self) -> (r: Self)
        ensures
            r.root@ == self.root@,
            r.retention_millis == self.retention_millis,
            r.thread_quota_bytes == self.thread_quota_bytes,
    {
        WalConfig {
            root: self.root.clone(),
            retention_millis: self.retention_millis,
            thread_quota_bytes: self.thread_quota_bytes,
        }
    }
}

/// The file name of a turn's log.
pub fn wal_file_name(turn_id: &str) -> (r: String)
    ensures
        r@ == turn_id@ + ".wal"@,
{
    concat_text(turn_id, ".wal")
}

/// The name that a finished log is renamed to.
pub fn done_file_name(file_name: &str) -> (r: String)
    ensures
        r@ == stem_of(file_name@) + ".wal.done"@,
{
    concat_text(file_stem(file_name).as_str(), ".wal.done")
}

/// Whether a file is a finished log, by its name.
pub fn is_done_name(name: &str) -> (r: bool)
    ensures
        r == text_ends(name@, ".wal.done"@),
{
    ends_with(name, ".wal.done")
}

/// The directory of a thread's logs.
pub fn thread_dir(cfg: &WalConfig, thread_id: &str) -> (r: String)
    ensures
        r@ == joined(cfg.root@, thread_id@),
{
    join_path(cfg.root.as_str(), thread_id)
}

proof fn lemma_last_dot_concat(a: Seq<char>, b: Seq<char>)
    requires
        forall|i: int| 0 <= i < b.len() ==> #[trigger] b[i] != '.',
    ensures
        last_dot(a + b) == last_dot(a),
    decreases b.len(),
{
    if b.len() == 0 {
        assert(a + b =~= a);
    } else {
        assert((a + b).last() == b[b.len() - 1]);
        assert((a + b).drop_last() =~= a + b.drop_last());
        lemma_last_dot_concat(a, b.drop_last());
    }
}

/// The log of turn `t` is renamed to `t.wal.done`, for every turn with a
/// name.
pub proof fn law_done_name(turn_id: Seq<char>)
    requires
        turn_id.len() > 0,
    ensures
        stem_of(turn_id + ".wal"@) == turn_id,
{
    reveal_strlit(".wal");
    reveal_strlit("..");
    let dotted = turn_id.push('.');
    let ext = seq!['w', 'a', 'l'];
    assert(".wal"@ =~= seq!['.'] + ext);
    assert(turn_id + ".wal"@ =~= dotted + ext);
    lemma_last_dot_concat(dotted, ext);
    assert(last_dot(dotted) == Some(turn_id.len() as int));
    assert((turn_id + ".wal"@).take(turn_id.len() as int) =~= turn_id);
    assert((turn_id + ".wal"@).len() != ".."@.len());
}

/// A log that was renamed is recognised as finished, and one that is still
/// written is not.
pub proof fn law_finished_logs_are_recognised(turn_id: Seq<char>)
    ensures
        text_ends(stem_of(turn_id + ".wal"@) + ".wal.done"@, ".wal.done"@),
        !text_ends(turn_id + ".wal"@, ".wal.done"@),
{
    reveal_strlit(".wal");
    reveal_strlit(".wal.done");
    let stem = stem_of(turn_id + ".wal"@);
    let done = stem + ".wal.done"@;
    assert(done.subrange(done.len() - 9, done.len() as int) =~= ".wal.done"@);
    let open = turn_id + ".wal"@;
    if text_ends(open, ".wal.done"@) {
        assert(open.subrange(open.len() - 9, open.len() as int)[8] == ".wal.done"@[8]);
    }
}

/// Hands out the configuration to those who open logs.
pub struct WalManager {
    cfg: WalConfig,
}

impl WalManager {
    /// The configuration.
    pub closed spec fn config(&self) -> WalConfig {
        self.cfg
    }

    /// A manager for logs under `cfg`.
    pub fn new(cfg: WalConfig) -> (r: WalManager)
        ensures
            r.config() == cfg,
    {
        WalManager { cfg }
    }

    /// The configuration.
    pub fn cfg(&self) -> (r: &WalConfig)
        ensures
            *r == self.config(),
    {
        &self.cfg
    }

    /// The path of the log of `turn_id` in `thread_id`.
    pub fn turn_path(&self, thread_id: &str, turn_id: &str) -> (r: String)
        ensures
            r@ == joined(joined(self.config().root@, thread_id@), turn_id@ + ".wal"@),
    {
        let dir = thread_dir(&self.cfg, thread_id);
        let name = wal_file_name(turn_id);
        join_path(dir.as_str(), name.as_str())
    }
}

} // verus!
