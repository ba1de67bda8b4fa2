//! The statistics aggregator.
//!
//! Walking a snapshot yields, per group, counters over the tasks that
//! belong to it, the identifiers of its failed tasks, exact duration
//! statistics, and the group's configured parallelism; and, over the
//! whole snapshot, a change-detection digest.  Tasks are walked in
//! ascending id-byte order and groups in ascending name-byte order, so
//! the digest is deterministic.  The digest feeds, per task: the id, the
//! command (a pieces command feeds each piece followed by `|`), the
//! label, the path, the priority in decimal, the group as given, the
//! status tag and its start, end, enqueued-at and result fields; then,
//! per group: the name, the parallelism in decimal and the status tag.
//! Absent fields feed nothing.  The digest string is the final hash in
//! decimal, a colon, and the task count in decimal.

use vstd::prelude::*;
use vstd::string::StringSliceAdditionalSpecFns;
use vstd::string::StringExecFns;
use crate::digest::{hash_bytes, hash_str, lemma_hash_bytes_append, HASH_SEED};
use crate::snapshot::{CommandField, GroupRecord, Snapshot, TaskRecord, TaskStatus, lemma_sorted_by_key_len, sort_by_key_bytes, sorted_by_key};
use crate::text::{bytes_le, dec_rep, dec_rep_signed, utf8, u64_to_string, i64_to_string};

verus! {

/// What an optional string feeds into the digest: its bytes, or nothing.
pub open spec fn opt_str_feed(o: Option<String>) -> Seq<u8> {
    match o {
        Option::Some(s) => utf8(s@),
        Option::None => Seq::empty(),
    }
}

/// What a pieces command feeds: each piece followed by a `|` separator.
pub open spec fn pieces_feed(v: Seq<String>) -> Seq<u8>
    decreases v.len(),
{
    if v.len() == 0 {
        Seq::empty()
    } else {
        pieces_feed(v.drop_last()) + utf8(v.last()@) + utf8(seq!['|'])
    }
}

/// What the command field feeds.
pub open spec fn command_feed(c: Option<CommandField>) -> Seq<u8> {
    match c {
        Option::Some(CommandField::Text(t)) => utf8(t@),
        Option::Some(CommandField::Pieces(v)) => pieces_feed(v@),
        Option::None => Seq::empty(),
    }
}

/// What the priority feeds: its decimal rendering, or nothing.
pub open spec fn priority_feed(p: Option<i64>) -> Seq<u8> {
    match p {
        Option::Some(v) => utf8(dec_rep_signed(v as int)),
        Option::None => Seq::empty(),
    }
}

/// What the status feeds: the tag, then the start, end, enqueued-at and
/// result fields in that order.
pub open spec fn status_feed(st: Option<TaskStatus>) -> Seq<u8> {
    match st {
        Option::Some(ts) => utf8(ts.tag@) + opt_str_feed(ts.detail.start) + opt_str_feed(
            ts.detail.end,
        ) + opt_str_feed(ts.detail.enqueued_at) + opt_str_feed(ts.detail.result),
        Option::None => Seq::empty(),
    }
}

/// What one task feeds: id, command, label, path, priority, group as
/// given, then the status.
pub open spec fn task_feed(entry: (String, TaskRecord)) -> Seq<u8> {
    utf8(entry.0@) + command_feed(entry.1.command) + opt_str_feed(entry.1.label) + opt_str_feed(
        entry.1.path,
    ) + priority_feed(entry.1.priority) + opt_str_feed(entry.1.group) + status_feed(
        entry.1.status,
    )
}

/// What a task row feeds, in row order.
pub open spec fn tasks_feed(s: Seq<(String, TaskRecord)>) -> Seq<u8>
    decreases s.len(),
{
    if s.len() == 0 {
        Seq::empty()
    } else {
        tasks_feed(s.drop_last()) + task_feed(s.last())
    }
}

/// What the parallelism feeds: its decimal rendering, or nothing.
pub open spec fn parallel_feed(p: Option<u64>) -> Seq<u8> {
    match p {
        Option::Some(v) => utf8(dec_rep(v as nat)),
        Option::None => Seq::empty(),
    }
}

/// What one group feeds: name, parallelism, status tag.
pub open spec fn group_feed(entry: (String, GroupRecord)) -> Seq<u8> {
    utf8(entry.0@) + parallel_feed(entry.1.parallel_tasks) + opt_str_feed(entry.1.status)
}

/// What a group row feeds, in row order.
pub open spec fn groups_feed(s: Seq<(String, GroupRecord)>) -> Seq<u8>
    decreases s.len(),
{
    if s.len() == 0 {
        Seq::empty()
    } else {
        groups_feed(s.drop_last()) + group_feed(s.last())
    }
}

/// Everything a snapshot feeds: the tasks in ascending id-byte order,
/// then the groups in ascending name-byte order.
pub open spec fn snapshot_feed(snap: Snapshot) -> Seq<u8> {
    tasks_feed(sorted_by_key(snap.tasks@)) + groups_feed(sorted_by_key(snap.groups@))
}

/// The digest text of a snapshot: the hash in decimal, a colon, and the
/// task count in decimal.
pub open spec fn digest_chars(snap: Snapshot) -> Seq<char> {
    dec_rep(hash_bytes(HASH_SEED, snapshot_feed(snap)) as nat) + seq![':'] + dec_rep(
        snap.tasks@.len(),
    )
}

fn feed_opt_str(h: &mut u64, o: &Option<String>)
    ensures
        *final(h) == hash_bytes(*old(h), opt_str_feed(*o)),
{
    match o {
        Option::Some(s) => hash_str(h, s.as_str()),
        Option::None => (),
    }
}

fn feed_pieces(h: &mut u64, v: &Vec<String>)
    ensures
        *final(h) == hash_bytes(*old(h), pieces_feed(v@)),
{
    let n = v.len();
    let mut i: usize = 0;
    while i < n
        invariant
            n == v@.len(),
            i <= n,
            *h == hash_bytes(*old(h), pieces_feed(v@.take(i as int))),
        decreases n - i,
    {
        let ghost h0 = *old(h);
        let ghost before = pieces_feed(v@.take(i as int));
        let ghost piece = utf8(v@[i as int]@);
        hash_str(h, v[i].as_str());
        proof {
            lemma_hash_bytes_append(h0, before, piece);
        }
        proof {
            reveal_strlit("|");
            assert("|"@ =~= seq!['|']);
        }
        hash_str(h, "|");
        proof {
            lemma_hash_bytes_append(h0, before + piece, utf8(seq!['|']));
            assert(v@.take(i + 1).drop_last() =~= v@.take(i as int));
            assert(v@.take(i + 1).last() == v@[i as int]);
            assert(pieces_feed(v@.take(i + 1)) == before + piece + utf8(seq!['|']));
        }
        i = i + 1;
    }
    proof {
        assert(v@.take(n as int) =~= v@);
    }
}

fn feed_command(h: &mut u64, c: &Option<CommandField>)
    ensures
        *final(h) == hash_bytes(*old(h), command_feed(*c)),
{
    match c {
        Option::Some(CommandField::Text(t)) => hash_str(h, t.as_str()),
        Option::Some(CommandField::Pieces(v)) => feed_pieces(h, v),
        Option::None => (),
    }
}

fn feed_priority(h: &mut u64, p: &Option<i64>)
    ensures
        *final(h) == hash_bytes(*old(h), priority_feed(*p)),
{
    match p {
        Option::Some(v) => {
            let txt = i64_to_string(*v);
            hash_str(h, txt.as_str());
        },
        Option::None => (),
    }
}

fn feed_parallel(h: &mut u64, p: &Option<u64>)
    ensures
        *final(h) == hash_bytes(*old(h), parallel_feed(*p)),
{
    match p {
        Option::Some(v) => {
            let txt = u64_to_string(*v);
            hash_str(h, txt.as_str());
        },
        Option::None => (),
    }
}

fn feed_status(h: &mut u64, st: &Option<TaskStatus>)
    ensures
        *final(h) == hash_bytes(*old(h), status_feed(*st)),
{
    match st {
        Option::Some(ts) => {
            let ghost h0 = *h;
            let ghost p1 = utf8(ts.tag@);
            let ghost p2 = opt_str_feed(ts.detail.start);
            let ghost p3 = opt_str_feed(ts.detail.end);
            let ghost p4 = opt_str_feed(ts.detail.enqueued_at);
            let ghost p5 = opt_str_feed(ts.detail.result);
            hash_str(h, ts.tag.as_str());
            feed_opt_str(h, &ts.detail.start);
            proof {
                lemma_hash_bytes_append(h0, p1, p2);
            }
            feed_opt_str(h, &ts.detail.end);
            proof {
                lemma_hash_bytes_append(h0, p1 + p2, p3);
            }
            feed_opt_str(h, &ts.detail.enqueued_at);
            proof {
                lemma_hash_bytes_append(h0, p1 + p2 + p3, p4);
            }
            feed_opt_str(h, &ts.detail.result);
            proof {
                lemma_hash_bytes_append(h0, p1 + p2 + p3 + p4, p5);
            }
        },
        Option::None => (),
    }
}

fn feed_task(h: &mut u64, entry: &(String, TaskRecord))
    ensures
        *final(h) == hash_bytes(*old(h), task_feed(*entry)),
{
    let ghost h0 = *h;
    let ghost p1 = utf8(entry.0@);
    let ghost p2 = command_feed(entry.1.command);
    let ghost p3 = opt_str_feed(entry.1.label);
    let ghost p4 = opt_str_feed(entry.1.path);
    let ghost p5 = priority_feed(entry.1.priority);
    let ghost p6 = opt_str_feed(entry.1.group);
    let ghost p7 = status_feed(entry.1.status);
    hash_str(h, entry.0.as_str());
    feed_command(h, &entry.1.command);
    proof {
        lemma_hash_bytes_append(h0, p1, p2);
    }
    feed_opt_str(h, &entry.1.label);
    proof {
        lemma_hash_bytes_append(h0, p1 + p2, p3);
    }
    feed_opt_str(h, &entry.1.path);
    proof {
        lemma_hash_bytes_append(h0, p1 + p2 + p3, p4);
    }
    feed_priority(h, &entry.1.priority);
    proof {
        lemma_hash_bytes_append(h0, p1 + p2 + p3 + p4, p5);
    }
    feed_opt_str(h, &entry.1.group);
    proof {
        lemma_hash_bytes_append(h0, p1 + p2 + p3 + p4 + p5, p6);
    }
    feed_status(h, &entry.1.status);
    proof {
        lemma_hash_bytes_append(h0, p1 + p2 + p3 + p4 + p5 + p6, p7);
    }
}

fn feed_group(h: &mut u64, entry: &(String, GroupRecord))
    ensures
        *final(h) == hash_bytes(*old(h), group_feed(*entry)),
{
    let ghost h0 = *h;
    let ghost p1 = utf8(entry.0@);
    let ghost p2 = parallel_feed(entry.1.parallel_tasks);
    let ghost p3 = opt_str_feed(entry.1.status);
    hash_str(h, entry.0.as_str());
    feed_parallel(h, &entry.1.parallel_tasks);
    proof {
        lemma_hash_bytes_append(h0, p1, p2);
    }
    feed_opt_str(h, &entry.1.status);
    proof {
        lemma_hash_bytes_append(h0, p1 + p2, p3);
    }
}

fn feed_tasks(h: &mut u64, tasks: &Vec<(String, TaskRecord)>)
    ensures
        *final(h) == hash_bytes(*old(h), tasks_feed(tasks@)),
{
    let n = tasks.len();
    let mut i: usize = 0;
    while i < n
        invariant
            n == tasks@.len(),
            i <= n,
            *h == hash_bytes(*old(h), tasks_feed(tasks@.take(i as int))),
        decreases n - i,
    {
        let ghost h0 = *old(h);
        let ghost before = tasks_feed(tasks@.take(i as int));
        feed_task(h, &tasks[i]);
        proof {
            lemma_hash_bytes_append(h0, before, task_feed(tasks@[i as int]));
            assert(tasks@.take(i + 1).drop_last() =~= tasks@.take(i as int));
            assert(tasks@.take(i + 1).last() == tasks@[i as int]);
        }
        i = i + 1;
    }
    proof {
        assert(tasks@.take(n as int) =~= tasks@);
    }
}

fn feed_groups(h: &mut u64, groups: &Vec<(String, GroupRecord)>)
    ensures
        *final(h) == hash_bytes(*old(h), groups_feed(groups@)),
{
    let n = groups.len();
    let mut i: usize = 0;
    while i < n
        invariant
            n == groups@.len(),
            i <= n,
            *h == hash_bytes(*old(h), groups_feed(groups@.take(i as int))),
        decreases n - i,
    {
        let ghost h0 = *old(h);
        let ghost before = groups_feed(groups@.take(i as int));
        feed_group(h, &groups[i]);
        proof {
            lemma_hash_bytes_append(h0, before, group_feed(groups@[i as int]));
            assert(groups@.take(i + 1).drop_last() =~= groups@.take(i as int));
            assert(groups@.take(i + 1).last() == groups@[i as int]);
        }
        i = i + 1;
    }
    proof {
        assert(groups@.take(n as int) =~= groups@);
    }
}

/// Render the digest text: hash, colon, task count.
fn digest_string(hash_value: u64, task_count: u64) -> (r: String)
    ensures
        r@ == dec_rep(hash_value as nat) + seq![':'] + dec_rep(task_count as nat),
{
    let mut s = u64_to_string(hash_value);
    proof {
        reveal_strlit(":");
        assert(":"@ =~= seq![':']);
    }
    s.append(":");
    let count_text = u64_to_string(task_count);
    s.append(count_text.as_str());
    s
}

/// The bytes of the group a task belongs to: its own group, or
/// `default` when none is given.
pub open spec fn eff_group_bytes(t: TaskRecord) -> Seq<u8> {
    match t.group {
        Option::Some(g) => utf8(g@),
        Option::None => utf8("default"@),
    }
}

/// Whether a task's status carries the given tag.
pub open spec fn tag_is(st: Option<TaskStatus>, tag: Seq<char>) -> bool {
    match st {
        Option::Some(ts) => ts.tag@ == tag,
        Option::None => false,
    }
}

/// A finished task that reported the result `Success`.
pub open spec fn is_success(st: Option<TaskStatus>) -> bool {
    match st {
        Option::Some(ts) => ts.tag@ == "Done"@ && match ts.detail.result {
            Option::Some(r) => r@ == "Success"@,
            Option::None => false,
        },
        Option::None => false,
    }
}

/// A finished task that reported anything else (or nothing).
pub open spec fn is_failed(st: Option<TaskStatus>) -> bool {
    tag_is(st, "Done"@) && !is_success(st)
}

/// The duration a finished task contributes: end minus start in
/// milliseconds, present only when both timestamps read as RFC 3339 and
/// the difference fits a signed 64-bit value.
pub open spec fn duration_of(t: TaskRecord) -> Option<i64> {
    match t.status {
        Option::Some(ts) => {
            if ts.tag@ == "Done"@ {
                match (ts.detail.start, ts.detail.end) {
                    (Option::Some(ss), Option::Some(ee)) => {
                        match (
                            crate::timestamp::rfc3339_millis(ss@),
                            crate::timestamp::rfc3339_millis(ee@),
                        ) {
                            (Option::Some(ms), Option::Some(me)) => {
                                if i64::MIN <= me - ms <= i64::MAX {
                                    Option::Some((me - ms) as i64)
                                } else {
                                    Option::None
                                }
                            },
                            _ => Option::None,
                        }
                    },
                    _ => Option::None,
                }
            } else {
                Option::None
            }
        },
        Option::None => Option::None,
    }
}

/// How many tasks of the row belong to the group and satisfy the
/// predicate.
pub open spec fn count_tasks(
    s: Seq<(String, TaskRecord)>,
    gb: Seq<u8>,
    p: spec_fn(TaskRecord) -> bool,
) -> nat
    decreases s.len(),
{
    if s.len() == 0 {
        0
    } else {
        count_tasks(s.drop_last(), gb, p) + (if eff_group_bytes(s.last().1) == gb && p(
            s.last().1,
        ) {
            1nat
        } else {
            0nat
        })
    }
}

/// Every task counts toward its group's total.
pub open spec fn pred_total() -> spec_fn(TaskRecord) -> bool {
    |t: TaskRecord| true
}

/// The running tasks.
pub open spec fn pred_running() -> spec_fn(TaskRecord) -> bool {
    |t: TaskRecord| tag_is(t.status, "Running"@)
}

/// The queued tasks.
pub open spec fn pred_queued() -> spec_fn(TaskRecord) -> bool {
    |t: TaskRecord| tag_is(t.status, "Queued"@)
}

/// The paused tasks.
pub open spec fn pred_paused() -> spec_fn(TaskRecord) -> bool {
    |t: TaskRecord| tag_is(t.status, "Paused"@)
}

/// The finished tasks.
pub open spec fn pred_done() -> spec_fn(TaskRecord) -> bool {
    |t: TaskRecord| tag_is(t.status, "Done"@)
}

/// The finished tasks that succeeded.
pub open spec fn pred_success() -> spec_fn(TaskRecord) -> bool {
    |t: TaskRecord| is_success(t.status)
}

/// The finished tasks that failed.
pub open spec fn pred_failed() -> spec_fn(TaskRecord) -> bool {
    |t: TaskRecord| is_failed(t.status)
}

/// The identifiers of the group's failed tasks, in row order.
pub open spec fn failed_ids_of(s: Seq<(String, TaskRecord)>, gb: Seq<u8>) -> Seq<String>
    decreases s.len(),
{
    if s.len() == 0 {
        Seq::empty()
    } else {
        failed_ids_of(s.drop_last(), gb) + (if eff_group_bytes(s.last().1) == gb && is_failed(
            s.last().1.status,
        ) {
            seq![s.last().0]
        } else {
            Seq::empty()
        })
    }
}

/// The group's duration samples, in row order.
pub open spec fn duration_samples_of(s: Seq<(String, TaskRecord)>, gb: Seq<u8>) -> Seq<i64>
    decreases s.len(),
{
    if s.len() == 0 {
        Seq::empty()
    } else {
        duration_samples_of(s.drop_last(), gb) + (if eff_group_bytes(s.last().1) == gb {
            match duration_of(s.last().1) {
                Option::Some(d) => seq![d],
                Option::None => Seq::empty(),
            }
        } else {
            Seq::empty()
        })
    }
}

/// No count exceeds the row length.
pub proof fn lemma_count_le_len(
    s: Seq<(String, TaskRecord)>,
    gb: Seq<u8>,
    p: spec_fn(TaskRecord) -> bool,
)
    ensures
        count_tasks(s, gb, p) <= s.len(),
    decreases s.len(),
{
    if s.len() > 0 {
        lemma_count_le_len(s.drop_last(), gb, p);
    }
}

/// The parallelism the group table gives a name: the first entry with
/// that name decides, absent names give none.
pub open spec fn parallel_of(groups: Seq<(String, GroupRecord)>, gb: Seq<u8>) -> Option<u64>
    decreases groups.len(),
{
    if groups.len() == 0 {
        Option::None
    } else if utf8(groups[0].0@) == gb {
        groups[0].1.parallel_tasks
    } else {
        parallel_of(groups.drop_first(), gb)
    }
}

/// The derived statistics of one group.
pub struct GroupStatsEntry {
    pub total: u64,
    pub running: u64,
    pub queued: u64,
    pub paused: u64,
    pub done: u64,
    pub success: u64,
    pub failed: u64,
    pub failed_ids: Vec<String>,
    pub avg_ms_milli: Option<i128>,
    pub stddev_ms_milli: Option<u128>,
    pub parallel: Option<u64>,
}

/// What a correct stats entry holds for a group, given the ordered task
/// row and group table: the seven counters, the failed ids in row
/// order, the exact fixed-point mean and sample standard deviation of
/// the duration samples, and the group's configured parallelism.
pub open spec fn entry_matches(
    tasks: Seq<(String, TaskRecord)>,
    groups: Seq<(String, GroupRecord)>,
    gb: Seq<u8>,
    e: GroupStatsEntry,
) -> bool {
    let samples = duration_samples_of(tasks, gb);
    &&& e.total as nat == count_tasks(tasks, gb, pred_total())
    &&& e.running as nat == count_tasks(tasks, gb, pred_running())
    &&& e.queued as nat == count_tasks(tasks, gb, pred_queued())
    &&& e.paused as nat == count_tasks(tasks, gb, pred_paused())
    &&& e.done as nat == count_tasks(tasks, gb, pred_done())
    &&& e.success as nat == count_tasks(tasks, gb, pred_success())
    &&& e.failed as nat == count_tasks(tasks, gb, pred_failed())
    &&& e.failed_ids@ == failed_ids_of(tasks, gb)
    &&& (e.avg_ms_milli matches Option::Some(v) ==> samples.len() > 0 && v as int
        == crate::numeric::avg_milli_spec(samples))
    &&& (e.avg_ms_milli is None <==> (samples.len() == 0 || 1000 * crate::numeric::abs_int(
        crate::numeric::sum_of(samples),
    ) > u128::MAX as int))
    &&& (e.stddev_ms_milli matches Option::Some(v) ==> {
        let scaled = 1000000 * crate::numeric::var_num_of(samples) / (samples.len()
            * samples.len() * (samples.len() - 1));
        &&& samples.len() >= 2
        &&& v * v <= scaled
        &&& scaled < (v + 1) * (v + 1)
    })
    &&& (e.stddev_ms_milli is None <==> (samples.len() < 2 || crate::numeric::var_num_of(samples)
        > i128::MAX as int || 1000000 * crate::numeric::var_num_of(samples) > u128::MAX as int || (
    samples.len() as int * samples.len() * (samples.len() - 1)) > u128::MAX as int))
    &&& e.parallel == parallel_of(groups, gb)
}

/// The parallelism configured for a name, read from the group table.
fn parallel_lookup(groups: &Vec<(String, GroupRecord)>, name: &str) -> (r: Option<u64>)
    ensures
        r == parallel_of(groups@, name.spec_bytes()),
{
    let n = groups.len();
    let mut i: usize = 0;
    proof {
        assert(groups@.skip(0) =~= groups@);
    }
    while i < n
        invariant
            n == groups@.len(),
            i <= n,
            parallel_of(groups@, name.spec_bytes()) == parallel_of(
                groups@.skip(i as int),
                name.spec_bytes(),
            ),
        decreases n - i,
    {
        let entry = &groups[i];
        if crate::text::str_bytes_eq(entry.0.as_str(), name) {
            proof {
                assert(groups@.skip(i as int)[0] == groups@[i as int]);
            }
            return entry.1.parallel_tasks;
        }
        proof {
            assert(groups@.skip(i as int)[0] == groups@[i as int]);
            assert(groups@.skip(i as int).drop_first() =~= groups@.skip(i as int + 1));
        }
        i = i + 1;
    }
    proof {
        assert(groups@.skip(n as int).len() == 0);
    }
    None
}

proof fn lemma_tags_distinct()
    ensures
        "Running"@ != "Queued"@,
        "Running"@ != "Paused"@,
        "Running"@ != "Done"@,
        "Queued"@ != "Paused"@,
        "Queued"@ != "Done"@,
        "Paused"@ != "Done"@,
{
    reveal_strlit("Running");
    reveal_strlit("Queued");
    reveal_strlit("Paused");
    reveal_strlit("Done");
    assert("Running"@.len() == 7);
    assert("Queued"@.len() == 6);
    assert("Paused"@.len() == 6);
    assert("Done"@.len() == 4);
    assert("Queued"@[0] == 'Q');
    assert("Paused"@[0] == 'P');
}

/// Walk the ordered task row once and compute one group's statistics.
pub fn stats_for_group(
    tasks: &Vec<(String, TaskRecord)>,
    groups: &Vec<(String, GroupRecord)>,
    name: &str,
) -> (e: GroupStatsEntry)
    ensures
        entry_matches(tasks@, groups@, name.spec_bytes(), e),
{
    proof {
        lemma_tags_distinct();
    }
    let ghost gb = name.spec_bytes();
    let n = tasks.len();
    let mut total: u64 = 0;
    let mut running: u64 = 0;
    let mut queued: u64 = 0;
    let mut paused: u64 = 0;
    let mut done: u64 = 0;
    let mut success: u64 = 0;
    let mut failed: u64 = 0;
    let mut failed_ids: Vec<String> = Vec::new();
    let mut samples: Vec<i64> = Vec::new();
    let mut i: usize = 0;
    while i < n
        invariant
            n == tasks@.len(),
            i <= n,
            gb == name.spec_bytes(),
            total as nat == count_tasks(tasks@.take(i as int), gb, pred_total()),
            running as nat == count_tasks(tasks@.take(i as int), gb, pred_running()),
            queued as nat == count_tasks(tasks@.take(i as int), gb, pred_queued()),
            paused as nat == count_tasks(tasks@.take(i as int), gb, pred_paused()),
            done as nat == count_tasks(tasks@.take(i as int), gb, pred_done()),
            success as nat == count_tasks(tasks@.take(i as int), gb, pred_success()),
            failed as nat == count_tasks(tasks@.take(i as int), gb, pred_failed()),
            failed_ids@ == failed_ids_of(tasks@.take(i as int), gb),
            samples@ == duration_samples_of(tasks@.take(i as int), gb),
        decreases n - i,
    {
        proof {
            lemma_tags_distinct();
            assert(tasks@.take(i + 1).drop_last() =~= tasks@.take(i as int));
            assert(tasks@.take(i + 1).last() == tasks@[i as int]);
            lemma_count_le_len(tasks@.take(i as int), gb, pred_total());
            lemma_count_le_len(tasks@.take(i as int), gb, pred_running());
            lemma_count_le_len(tasks@.take(i as int), gb, pred_queued());
            lemma_count_le_len(tasks@.take(i as int), gb, pred_paused());
            lemma_count_le_len(tasks@.take(i as int), gb, pred_done());
            lemma_count_le_len(tasks@.take(i as int), gb, pred_success());
            lemma_count_le_len(tasks@.take(i as int), gb, pred_failed());
        }
        let pair = &tasks[i];
        let in_group = match &pair.1.group {
            Option::Some(g) => crate::text::str_bytes_eq(g.as_str(), name),
            Option::None => crate::text::str_bytes_eq("default", name),
        };
        if in_group {
            total = total + 1;
            match &pair.1.status {
                Option::Some(ts) => {
                    let tag = ts.tag.as_str();
                    if crate::text::str_eq(tag, "Running") {
                        running = running + 1;
                    } else if crate::text::str_eq(tag, "Queued") {
                        queued = queued + 1;
                    } else if crate::text::str_eq(tag, "Paused") {
                        paused = paused + 1;
                    } else if crate::text::str_eq(tag, "Done") {
                        done = done + 1;
                        let succeeded = match &ts.detail.result {
                            Option::Some(r) => crate::text::str_eq(r.as_str(), "Success"),
                            Option::None => false,
                        };
                        if succeeded {
                            success = success + 1;
                        } else {
                            failed = failed + 1;
                            failed_ids.push(pair.0.clone());
                        }
                        match (&ts.detail.start, &ts.detail.end) {
                            (Option::Some(ss), Option::Some(ee)) => {
                                let ms = crate::timestamp::rfc3339_to_millis(ss.as_str());
                                let me = crate::timestamp::rfc3339_to_millis(ee.as_str());
                                match (ms, me) {
                                    (Option::Some(a), Option::Some(b)) => {
                                        match b.checked_sub(a) {
                                            Option::Some(d) => {
                                                samples.push(d);
                                            },
                                            Option::None => (),
                                        }
                                    },
                                    _ => (),
                                }
                            },
                            _ => (),
                        }
                    }
                },
                Option::None => (),
            }
        }
        i = i + 1;
    }
    proof {
        assert(tasks@.take(n as int) =~= tasks@);
    }
    let avg = crate::numeric::avg_ms_milli(&samples);
    let stddev = crate::numeric::stddev_ms_milli(&samples);
    let parallel = parallel_lookup(groups, name);
    GroupStatsEntry {
        total,
        running,
        queued,
        paused,
        done,
        success,
        failed,
        failed_ids,
        avg_ms_milli: avg,
        stddev_ms_milli: stddev,
        parallel,
    }
}

/// Whether some name in the list has the given bytes.
pub open spec fn name_bytes_in(names: Seq<String>, gb: Seq<u8>) -> bool {
    exists|j: int| 0 <= j < names.len() && utf8(names[j]@) == gb
}

/// Whether the snapshot mentions a group: in the group table, or as
/// some task's (defaulted) group.
pub open spec fn snapshot_has_group(
    tasks: Seq<(String, TaskRecord)>,
    groups: Seq<(String, GroupRecord)>,
    gb: Seq<u8>,
) -> bool {
    (exists|i: int| 0 <= i < groups.len() && utf8(groups[i].0@) == gb) || (exists|i: int|
        0 <= i < tasks.len() && eff_group_bytes(tasks[i].1) == gb)
}

proof fn lemma_push_name_at(names: Seq<String>, x: String, gb: Seq<u8>)
    ensures
        name_bytes_in(names.push(x), gb) == (name_bytes_in(names, gb) || utf8(x@) == gb),
{
    let stretched = names.push(x);
    if name_bytes_in(stretched, gb) {
        let j = choose|j: int| 0 <= j < stretched.len() && utf8(stretched[j]@) == gb;
        if j < names.len() {
            assert(stretched[j] == names[j]);
            assert(name_bytes_in(names, gb));
        } else {
            assert(stretched[j] == x);
        }
    }
    if name_bytes_in(names, gb) {
        let j = choose|j: int| 0 <= j < names.len() && utf8(names[j]@) == gb;
        assert(stretched[j] == names[j]);
        assert(name_bytes_in(stretched, gb));
    }
    if utf8(x@) == gb {
        assert(stretched[names.len() as int] == x);
        assert(name_bytes_in(stretched, gb));
    }
}

/// Gather every group name the snapshot mentions: the group table's
/// names, then each task's group, defaulted to `default`.
fn collect_names(tasks: &Vec<(String, TaskRecord)>, groups: &Vec<(String, GroupRecord)>) -> (r:
    Vec<String>)
    ensures
        forall|gb: Seq<u8>| #![auto]
            name_bytes_in(r@, gb) == snapshot_has_group(tasks@, groups@, gb),
{
    let mut out: Vec<String> = Vec::new();
    let gn = groups.len();
    let mut i: usize = 0;
    while i < gn
        invariant
            gn == groups@.len(),
            i <= gn,
            forall|gb: Seq<u8>| #![auto]
                name_bytes_in(out@, gb) == (exists|k: int|
                    0 <= k < i && utf8((#[trigger] groups@[k]).0@) == gb),
        decreases gn - i,
    {
        let ghost before = out@;
        out.push(groups[i].0.clone());
        proof {
            assert(out@ == before.push(groups@[i as int].0));
            assert forall|gb: Seq<u8>| #![auto]
                name_bytes_in(out@, gb) == (exists|k: int|
                    0 <= k < i + 1 && utf8((#[trigger] groups@[k]).0@) == gb) by {
                lemma_push_name_at(before, groups@[i as int].0, gb);
                if name_bytes_in(out@, gb) {
                    if name_bytes_in(before, gb) {
                        let k = choose|k: int|
                            0 <= k < i && utf8((#[trigger] groups@[k]).0@) == gb;
                        assert(0 <= k < i + 1 && utf8(groups@[k].0@) == gb);
                    } else {
                        assert(utf8(groups@[i as int].0@) == gb);
                    }
                }
                if exists|k: int| 0 <= k < i + 1 && utf8((#[trigger] groups@[k]).0@) == gb {
                    let k = choose|k: int|
                        0 <= k < i + 1 && utf8((#[trigger] groups@[k]).0@) == gb;
                    if k < i {
                        assert(name_bytes_in(before, gb));
                    } else {
                        assert(utf8(groups@[i as int].0@) == gb);
                    }
                    assert(name_bytes_in(out@, gb));
                }
            }
        }
        i = i + 1;
    }
    let tn = tasks.len();
    let mut t: usize = 0;
    while t < tn
        invariant
            gn == groups@.len(),
            tn == tasks@.len(),
            t <= tn,
            forall|gb: Seq<u8>| #![auto]
                name_bytes_in(out@, gb) == ((exists|k: int|
                    0 <= k < gn && utf8((#[trigger] groups@[k]).0@) == gb) || (exists|k: int|
                    0 <= k < t && eff_group_bytes((#[trigger] tasks@[k]).1) == gb)),
        decreases tn - t,
    {
        let ghost before = out@;
        let next: String = match &tasks[t].1.group {
            Option::Some(g) => g.clone(),
            Option::None => "default".to_owned(),
        };
        let ghost gnext = next;
        proof {
            assert(utf8(gnext@) == eff_group_bytes(tasks@[t as int].1));
        }
        out.push(next);
        proof {
            assert(out@ == before.push(gnext));
            assert forall|gb: Seq<u8>| #![auto]
                name_bytes_in(out@, gb) == ((exists|k: int|
                    0 <= k < gn && utf8((#[trigger] groups@[k]).0@) == gb) || (exists|k: int|
                    0 <= k < t + 1 && eff_group_bytes((#[trigger] tasks@[k]).1) == gb)) by {
                lemma_push_name_at(before, gnext, gb);
                assert(name_bytes_in(before, gb) == ((exists|k: int|
                    0 <= k < gn && utf8((#[trigger] groups@[k]).0@) == gb) || (exists|k: int|
                    0 <= k < t && eff_group_bytes((#[trigger] tasks@[k]).1) == gb)));
                if name_bytes_in(out@, gb) {
                    if !name_bytes_in(before, gb) {
                        assert(eff_group_bytes(tasks@[t as int].1) == gb);
                    } else {
                        if exists|k: int|
                            0 <= k < t && eff_group_bytes((#[trigger] tasks@[k]).1) == gb {
                            let k = choose|k: int|
                                0 <= k < t && eff_group_bytes((#[trigger] tasks@[k]).1) == gb;
                            assert(0 <= k < t + 1 && eff_group_bytes(tasks@[k].1) == gb);
                        }
                    }
                }
                if exists|k: int| 0 <= k < t + 1 && eff_group_bytes((#[trigger] tasks@[k]).1)
                    == gb {
                    let k = choose|k: int|
                        0 <= k < t + 1 && eff_group_bytes((#[trigger] tasks@[k]).1) == gb;
                    if k < t {
                        assert(name_bytes_in(before, gb));
                    } else {
                        assert(utf8(gnext@) == gb);
                    }
                    assert(name_bytes_in(out@, gb));
                }
                if exists|k: int| 0 <= k < gn && utf8((#[trigger] groups@[k]).0@) == gb {
                    assert(name_bytes_in(before, gb));
                    assert(name_bytes_in(out@, gb));
                }
            }
        }
        t = t + 1;
    }
    out
}

/// A name list in ascending byte order.
pub open spec fn names_sorted(s: Seq<String>) -> bool {
    forall|i: int, j: int|
        0 <= i < j < s.len() ==> bytes_le(utf8((#[trigger] s[i])@), utf8((#[trigger] s[j])@))
}

proof fn lemma_insert_name(out: Seq<String>, x: String, j: int)
    requires
        names_sorted(out),
        0 <= j <= out.len(),
        forall|k: int| 0 <= k < j ==> !bytes_le(utf8(x@), utf8((#[trigger] out[k])@)),
        j == out.len() || bytes_le(utf8(x@), utf8(out[j]@)),
    ensures
        names_sorted(out.take(j) + seq![x] + out.skip(j)),
{
    let merged = out.take(j) + seq![x] + out.skip(j);
    assert(merged.len() == out.len() + 1);
    assert forall|a: int, b: int|
        0 <= a < b < merged.len() implies bytes_le(
        utf8((#[trigger] merged[a])@),
        utf8((#[trigger] merged[b])@),
    ) by {
        if a < j {
            assert(merged[a] == out[a]);
        } else if a == j {
            assert(merged[a] == x);
        } else {
            assert(merged[a] == out[a - 1]);
        }
        if b < j {
            assert(merged[b] == out[b]);
        } else if b == j {
            assert(merged[b] == x);
        } else {
            assert(merged[b] == out[b - 1]);
        }
        if b < j {
            assert(bytes_le(utf8(merged[a]@), utf8(merged[b]@)));
        } else if b == j {
            crate::text::lemma_bytes_le_total(utf8(x@), utf8(out[a]@));
        } else if a == j {
            if b - 1 == j {
                assert(bytes_le(utf8(x@), utf8(out[j]@)));
            } else {
                crate::text::lemma_bytes_le_trans(
                    utf8(x@),
                    utf8(out[j]@),
                    utf8(out[b - 1]@),
                );
            }
        } else if a < j {
            if b - 1 == a {
                crate::text::lemma_bytes_le_total(utf8(x@), utf8(out[a]@));
                crate::text::lemma_bytes_le_trans(
                    utf8(out[a]@),
                    utf8(x@),
                    utf8(out[b - 1]@),
                );
            } else {
                assert(bytes_le(utf8(out[a]@), utf8(out[b - 1]@)));
            }
        } else {
            assert(bytes_le(utf8(out[a - 1]@), utf8(out[b - 1]@)));
        }
    }
}

proof fn lemma_insert_name_at(out: Seq<String>, x: String, j: int, gb: Seq<u8>)
    requires
        0 <= j <= out.len(),
    ensures
        name_bytes_in(out.take(j) + seq![x] + out.skip(j), gb) == (name_bytes_in(out, gb)
            || utf8(x@) == gb),
{
    let merged = out.take(j) + seq![x] + out.skip(j);
    assert(merged.len() == out.len() + 1);
    if name_bytes_in(merged, gb) {
        let k = choose|k: int| 0 <= k < merged.len() && utf8(merged[k]@) == gb;
        if k < j {
            assert(merged[k] == out[k]);
            assert(name_bytes_in(out, gb));
        } else if k == j {
            assert(merged[k] == x);
        } else {
            assert(merged[k] == out[k - 1]);
            assert(name_bytes_in(out, gb));
        }
    }
    if name_bytes_in(out, gb) {
        let k = choose|k: int| 0 <= k < out.len() && utf8(out[k]@) == gb;
        if k < j {
            assert(merged[k] == out[k]);
        } else {
            assert(merged[k + 1] == out[k]);
        }
        assert(name_bytes_in(merged, gb));
    }
    if utf8(x@) == gb {
        assert(merged[j] == x);
        assert(name_bytes_in(merged, gb));
    }
}

/// Order a name list by ascending bytes; the names themselves are kept.
fn sort_name_list(names: Vec<String>) -> (r: Vec<String>)
    ensures
        names_sorted(r@),
        forall|gb: Seq<u8>| #![auto] name_bytes_in(r@, gb) == name_bytes_in(names@, gb),
{
    let ghost s = names@;
    let mut rest = names;
    let mut out: Vec<String> = Vec::new();
    let mut i: usize = 0;
    let n = rest.len();
    while i < n
        invariant
            n == s.len(),
            i <= n,
            rest@ =~= s.skip(i as int),
            names_sorted(out@),
            forall|gb: Seq<u8>| #![auto]
                name_bytes_in(out@, gb) == name_bytes_in(s.take(i as int), gb),
        decreases n - i,
    {
        let x = rest.remove(0);
        proof {
            assert(x == s[i as int]);
            assert(rest@ =~= s.skip(i as int + 1));
        }
        let mut j: usize = 0;
        let m = out.len();
        while j < m && !crate::text::str_le(x.as_str(), out[j].as_str())
            invariant
                m == out@.len(),
                j <= m,
                forall|k: int|
                    0 <= k < j ==> !bytes_le(utf8(x@), utf8((#[trigger] out@[k])@)),
            decreases m - j,
        {
            j = j + 1;
        }
        proof {
            lemma_insert_name(out@, x, j as int);
        }
        let ghost before = out@;
        out.insert(j, x);
        proof {
            assert(out@ =~= before.take(j as int) + seq![x] + before.skip(j as int));
            assert forall|gb: Seq<u8>| #![auto]
                name_bytes_in(out@, gb) == name_bytes_in(s.take(i as int + 1), gb) by {
                lemma_insert_name_at(before, x, j as int, gb);
                lemma_push_name_at(s.take(i as int), s[i as int], gb);
                assert(s.take(i as int + 1) =~= s.take(i as int).push(s[i as int]));
                assert(name_bytes_in(before, gb) == name_bytes_in(s.take(i as int), gb));
            }
        }
        i = i + 1;
    }
    proof {
        assert(s.take(n as int) =~= s);
    }
    out
}

/// Drop repeated names from an ordered list: every byte value keeps
/// exactly one representative.
fn dedup_names(names: &Vec<String>) -> (r: Vec<String>)
    requires
        names_sorted(names@),
    ensures
        names_sorted(r@),
        forall|i: int, j: int|
            0 <= i < j < r@.len() ==> utf8((#[trigger] r@[i])@) != utf8((#[trigger] r@[j])@),
        forall|gb: Seq<u8>| #![auto] name_bytes_in(r@, gb) == name_bytes_in(names@, gb),
{
    let n = names.len();
    let mut out: Vec<String> = Vec::new();
    let mut i: usize = 0;
    while i < n
        invariant
            n == names@.len(),
            i <= n,
            names_sorted(names@),
            names_sorted(out@),
            forall|a: int, b: int|
                0 <= a < b < out@.len() ==> utf8((#[trigger] out@[a])@) != utf8(
                    (#[trigger] out@[b])@,
                ),
            forall|gb: Seq<u8>| #![auto]
                name_bytes_in(out@, gb) == name_bytes_in(names@.take(i as int), gb),
            i == 0 ==> out@.len() == 0,
            i > 0 ==> out@.len() > 0 && utf8(out@.last()@) == utf8(names@[i - 1]@),
        decreases n - i,
    {
        let keep: bool = if out.len() == 0 {
            true
        } else {
            let last_ref = &out[out.len() - 1];
            !crate::text::str_bytes_eq(last_ref.as_str(), names[i].as_str())
        };
        let ghost before = out@;
        if keep {
            proof {
                if before.len() > 0 {
                    assert forall|k: int| 0 <= k < before.len() implies utf8(
                        (#[trigger] before[k])@,
                    ) != utf8(names@[i as int]@) by {
                        assert(bytes_le(utf8(before[k]@), utf8(before.last()@)) || k
                            == before.len() - 1);
                        assert(bytes_le(utf8(names@[i - 1]@), utf8(names@[i as int]@)));
                        if utf8(before[k]@) == utf8(names@[i as int]@) {
                            crate::text::lemma_bytes_le_antisym(
                                utf8(before[k]@),
                                utf8(before.last()@),
                            );
                        }
                    }
                }
            }
            out.push(names[i].clone());
            proof {
                assert(out@ == before.push(names@[i as int]));
                assert forall|a: int, b: int|
                    0 <= a < b < out@.len() implies bytes_le(
                    utf8((#[trigger] out@[a])@),
                    utf8((#[trigger] out@[b])@),
                ) by {
                    if b < before.len() {
                        assert(out@[a] == before[a] && out@[b] == before[b]);
                    } else {
                        assert(out@[b] == names@[i as int]);
                        if before.len() > 0 {
                            assert(out@[a] == before[a]);
                            assert(bytes_le(utf8(before[a]@), utf8(before.last()@)) || a
                                == before.len() - 1);
                            assert(bytes_le(utf8(names@[i - 1]@), utf8(names@[i as int]@)));
                            if a < before.len() - 1 {
                                crate::text::lemma_bytes_le_trans(
                                    utf8(before[a]@),
                                    utf8(before.last()@),
                                    utf8(names@[i as int]@),
                                );
                            }
                        }
                    }
                }
            }
        }
        proof {
            assert forall|gb: Seq<u8>| #![auto]
                name_bytes_in(out@, gb) == name_bytes_in(names@.take(i as int + 1), gb) by {
                lemma_push_name_at(names@.take(i as int), names@[i as int], gb);
                assert(names@.take(i as int + 1) =~= names@.take(i as int).push(
                    names@[i as int],
                ));
                assert(name_bytes_in(before, gb) == name_bytes_in(names@.take(i as int), gb));
                if keep {
                    assert(out@ == before.push(names@[i as int]));
                    lemma_push_name_at(before, names@[i as int], gb);
                } else {
                    assert(out@ == before);
                    if utf8(names@[i as int]@) == gb {
                        assert(utf8(out@[out@.len() - 1]@) == gb);
                        assert(name_bytes_in(out@, gb));
                    }
                }
            }
        }
        i = i + 1;
    }
    proof {
        assert(names@.take(n as int) =~= names@);
    }
    out
}

/// What the aggregation returns for a snapshot whose ordered task row
/// and group table are given: one entry per group the snapshot
/// mentions, keyed by name, in ascending byte order, each entry
/// correct for its group.
pub open spec fn stats_table_ok(
    tasks_sorted: Seq<(String, TaskRecord)>,
    groups_sorted: Seq<(String, GroupRecord)>,
    entries: Seq<(String, GroupStatsEntry)>,
) -> bool {
    &&& forall|a: int, b: int|
        0 <= a < b < entries.len() ==> bytes_le(
            utf8((#[trigger] entries[a]).0@),
            utf8((#[trigger] entries[b]).0@),
        )
    &&& forall|a: int, b: int|
        0 <= a < b < entries.len() ==> utf8((#[trigger] entries[a]).0@) != utf8(
            (#[trigger] entries[b]).0@,
        )
    &&& forall|a: int|
        0 <= a < entries.len() ==> entry_matches(
            tasks_sorted,
            groups_sorted,
            utf8((#[trigger] entries[a]).0@),
            entries[a].1,
        )
    &&& forall|gb: Seq<u8>| #![auto]
        (exists|a: int| 0 <= a < entries.len() && utf8((#[trigger] entries[a]).0@) == gb)
            == snapshot_has_group(tasks_sorted, groups_sorted, gb)
}

/// Aggregate a snapshot: the per-group statistics table, keyed by group
/// name in ascending byte order, and the change-detection digest.
pub fn compute_group_stats(status: Snapshot) -> (r: (Vec<(String, GroupStatsEntry)>, String))
    ensures
        r.1@ == digest_chars(status),
        stats_table_ok(sorted_by_key(status.tasks@), sorted_by_key(status.groups@), r.0@),
{
    let ghost gtasks = status.tasks@;
    let ghost ggroups = status.groups@;
    let sorted_tasks = sort_by_key_bytes(status.tasks);
    let sorted_groups = sort_by_key_bytes(status.groups);
    let mut h: u64 = HASH_SEED;
    feed_tasks(&mut h, &sorted_tasks);
    feed_groups(&mut h, &sorted_groups);
    proof {
        lemma_hash_bytes_append(
            HASH_SEED,
            tasks_feed(sorted_by_key(gtasks)),
            groups_feed(sorted_by_key(ggroups)),
        );
        lemma_sorted_by_key_len(gtasks);
    }
    let task_count: u64 = sorted_tasks.len() as u64;
    let digest = digest_string(h, task_count);
    let raw = collect_names(&sorted_tasks, &sorted_groups);
    let sorted_names = sort_name_list(raw);
    let names = dedup_names(&sorted_names);
    let mut entries: Vec<(String, GroupStatsEntry)> = Vec::new();
    let m = names.len();
    let mut k: usize = 0;
    while k < m
        invariant
            m == names@.len(),
            k <= m,
            entries@.len() == k,
            forall|a: int| 0 <= a < k ==> (#[trigger] entries@[a]).0 == names@[a],
            forall|a: int|
                0 <= a < k ==> entry_matches(
                    sorted_tasks@,
                    sorted_groups@,
                    utf8((#[trigger] entries@[a]).0@),
                    entries@[a].1,
                ),
        decreases m - k,
    {
        let entry = stats_for_group(&sorted_tasks, &sorted_groups, names[k].as_str());
        entries.push((names[k].clone(), entry));
        k = k + 1;
    }
    proof {
        assert forall|gb: Seq<u8>| #![auto]
            (exists|a: int| 0 <= a < entries@.len() && utf8((#[trigger] entries@[a]).0@) == gb)
                == snapshot_has_group(sorted_tasks@, sorted_groups@, gb) by {
            if exists|a: int| 0 <= a < entries@.len() && utf8((#[trigger] entries@[a]).0@)
                == gb {
                let a = choose|a: int|
                    0 <= a < entries@.len() && utf8((#[trigger] entries@[a]).0@) == gb;
                assert(utf8(names@[a]@) == gb);
                assert(name_bytes_in(names@, gb));
            }
            if snapshot_has_group(sorted_tasks@, sorted_groups@, gb) {
                assert(name_bytes_in(names@, gb));
                let j = choose|j: int| 0 <= j < names@.len() && utf8(names@[j]@) == gb;
                assert(utf8(entries@[j].0@) == gb);
            }
        }
    }
    (entries, digest)
}

} // verus!
