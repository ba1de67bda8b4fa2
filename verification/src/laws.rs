//! The library's stated laws.
//!
//! These proof functions record, once and for all inputs, what the
//! aggregator guarantees beyond each function's own contract: the empty
//! snapshot's digest, determinism, the digest's sensitivity to a
//! changed byte, and when the derived duration statistics are absent.

use vstd::prelude::*;
use crate::digest::{hash_bytes, hash_step, lemma_hash_bytes_append, HASH_SEED};
use crate::numeric::{abs_int, sum_of};
use crate::snapshot::{GroupRecord, Snapshot, TaskRecord, sorted_by_key};
use crate::stats::{digest_chars, duration_samples_of, entry_matches, snapshot_feed, status_feed,
    opt_str_feed, priority_feed, command_feed, task_feed, tasks_feed, groups_feed,
    GroupStatsEntry};
use crate::text::{dec_rep, utf8};

verus! {

/// A snapshot with no tasks and no groups digests to the bare seed and
/// a zero count: the text `5381:0`.  (A group on its own already feeds
/// its name, so the group table must be empty too.)
pub proof fn lemma_empty_snapshot_digest(snap: Snapshot)
    requires
        snap.tasks@.len() == 0,
        snap.groups@.len() == 0,
    ensures
        digest_chars(snap) =~= seq!['5', '3', '8', '1', ':', '0'],
{
    assert(sorted_by_key(snap.tasks@) =~= Seq::<(String, TaskRecord)>::empty());
    assert(sorted_by_key(snap.groups@) =~= Seq::<(String, GroupRecord)>::empty());
    assert(snapshot_feed(snap) =~= Seq::<u8>::empty());
    assert(hash_bytes(HASH_SEED, snapshot_feed(snap)) == 5381u64);
    assert(dec_rep(5) =~= seq!['5']);
    assert(dec_rep(53) =~= seq!['5', '3']);
    assert(dec_rep(538) =~= seq!['5', '3', '8']);
    assert(dec_rep(5381) =~= seq!['5', '3', '8', '1']);
    assert(dec_rep(0) =~= seq!['0']);
}

/// With no tasks, every statistics entry is empty: all counters are
/// zero, no failed ids, and no duration statistics; only the group's
/// configured parallelism may be set.
pub proof fn lemma_group_only_entry(
    groups: Seq<(String, GroupRecord)>,
    gb: Seq<u8>,
    e: GroupStatsEntry,
)
    requires
        entry_matches(Seq::empty(), groups, gb, e),
    ensures
        e.total == 0,
        e.running == 0,
        e.queued == 0,
        e.paused == 0,
        e.done == 0,
        e.success == 0,
        e.failed == 0,
        e.failed_ids@ =~= Seq::<String>::empty(),
        e.avg_ms_milli is None,
        e.stddev_ms_milli is None,
{
    assert(duration_samples_of(Seq::empty(), gb) =~= Seq::<i64>::empty());
}

/// The digest is a function of the snapshot's contents alone: two
/// snapshots holding the same rows digest identically, however often
/// the aggregation runs.
pub proof fn lemma_digest_deterministic(a: Snapshot, b: Snapshot)
    requires
        a.tasks@ == b.tasks@,
        a.groups@ == b.groups@,
    ensures
        digest_chars(a) == digest_chars(b),
{
    assert(snapshot_feed(a) == snapshot_feed(b));
}

proof fn lemma_mul33_injective(h1: u64, h2: u64)
    requires
        vstd::wrapping::u64_specs::wrapping_mul(h1, 33)
            == vstd::wrapping::u64_specs::wrapping_mul(h2, 33),
    ensures
        h1 == h2,
{
    let m: int = 0x10000000000000000;
    let inv: int = 0xf83e0f83e0f83e1;
    let a: int = h1 as int;
    let b: int = h2 as int;
    assert(33 * inv == 2 * m + 1);
    assert(vstd::wrapping::u64_specs::wrapping_mul(h1, 33) as int == (a * 33) % m);
    assert(vstd::wrapping::u64_specs::wrapping_mul(h2, 33) as int == (b * 33) % m);
    vstd::arithmetic::div_mod::lemma_mul_mod_noop_left(a * 33, inv, m);
    vstd::arithmetic::div_mod::lemma_mul_mod_noop_left(b * 33, inv, m);
    assert(a * 33 * inv == m * (2 * a) + a) by (nonlinear_arith)
        requires
            33 * inv == 2 * m + 1,
    ;
    assert(b * 33 * inv == m * (2 * b) + b) by (nonlinear_arith)
        requires
            33 * inv == 2 * m + 1,
    ;
    vstd::arithmetic::div_mod::lemma_mod_multiples_vanish(2 * a, a, m);
    vstd::arithmetic::div_mod::lemma_mod_multiples_vanish(2 * b, b, m);
    assert(a % m == a) by (nonlinear_arith)
        requires
            0 <= a < m,
    ;
    assert(b % m == b) by (nonlinear_arith)
        requires
            0 <= b < m,
    ;
}

proof fn lemma_hash_step_injective(h1: u64, h2: u64, c: u8)
    requires
        hash_step(h1, c) == hash_step(h2, c),
    ensures
        h1 == h2,
{
    let m1 = vstd::wrapping::u64_specs::wrapping_mul(h1, 33);
    let m2 = vstd::wrapping::u64_specs::wrapping_mul(h2, 33);
    assert(m1 ^ (c as u64) == m2 ^ (c as u64));
    assert(m1 == m2) by (bit_vector)
        requires
            m1 ^ (c as u64) == m2 ^ (c as u64),
    ;
    lemma_mul33_injective(h1, h2);
}

proof fn lemma_hash_bytes_injective(h1: u64, h2: u64, s: Seq<u8>)
    requires
        h1 != h2,
    ensures
        hash_bytes(h1, s) != hash_bytes(h2, s),
    decreases s.len(),
{
    if s.len() > 0 {
        let n1 = hash_step(h1, s[0]);
        let n2 = hash_step(h2, s[0]);
        if n1 == n2 {
            lemma_hash_step_injective(h1, h2, s[0]);
        }
        lemma_hash_bytes_injective(n1, n2, s.drop_first());
    }
}

proof fn lemma_hash_step_distinguishes(h: u64, a: u8, b: u8)
    requires
        a != b,
    ensures
        hash_step(h, a) != hash_step(h, b),
{
    let m = vstd::wrapping::u64_specs::wrapping_mul(h, 33);
    assert(m ^ (a as u64) != m ^ (b as u64)) by (bit_vector)
        requires
            a != b,
    ;
}

/// The rolling hash is sensitive to any one changed byte: feeds that
/// agree before and after a position where they differ hash apart.
pub proof fn lemma_hash_sensitive(h: u64, prefix: Seq<u8>, a: u8, b: u8, suffix: Seq<u8>)
    requires
        a != b,
    ensures
        hash_bytes(h, prefix + seq![a] + suffix) != hash_bytes(h, prefix + seq![b] + suffix),
{
    let base = hash_bytes(h, prefix);
    lemma_hash_bytes_append(h, prefix, seq![a]);
    lemma_hash_bytes_append(h, prefix, seq![b]);
    lemma_hash_bytes_append(h, prefix + seq![a], suffix);
    lemma_hash_bytes_append(h, prefix + seq![b], suffix);
    assert(seq![a].len() == 1 && seq![a][0] == a);
    assert(seq![b].len() == 1 && seq![b][0] == b);
    assert(seq![a].drop_first() =~= Seq::<u8>::empty());
    assert(seq![b].drop_first() =~= Seq::<u8>::empty());
    assert(hash_bytes(base, seq![a]) == hash_bytes(hash_step(base, a), Seq::<u8>::empty()));
    assert(hash_bytes(base, seq![b]) == hash_bytes(hash_step(base, b), Seq::<u8>::empty()));
    lemma_hash_step_distinguishes(base, a, b);
    lemma_hash_bytes_injective(hash_step(base, a), hash_step(base, b), suffix);
}

/// Different hashes render to different digest texts when the task
/// count agrees: the decimal renderings differ, so the texts do.
pub proof fn lemma_digest_text_injective(h1: u64, h2: u64, count: nat)
    requires
        h1 != h2,
    ensures
        dec_rep(h1 as nat) + seq![':'] + dec_rep(count) != dec_rep(h2 as nat) + seq![':']
            + dec_rep(count),
{
    let a = dec_rep(h1 as nat);
    let b = dec_rep(h2 as nat);
    crate::text::lemma_dec_rep_injective(h1 as nat, h2 as nat);
    let full1 = a + seq![':'] + dec_rep(count);
    let full2 = b + seq![':'] + dec_rep(count);
    if full1 == full2 {
        assert(full1.len() == a.len() + 1 + dec_rep(count).len());
        assert(full2.len() == b.len() + 1 + dec_rep(count).len());
        assert(a.len() == b.len());
        assert forall|i: int| 0 <= i < a.len() implies a[i] == b[i] by {
            assert(full1[i] == a[i]);
            assert(full2[i] == b[i]);
        }
        assert(a =~= b);
        assert(false);
    }
}

/// Changing one byte of a single task's label changes the snapshot
/// hash and therefore the digest text: for a snapshot holding exactly
/// one task, a label of the same byte length differing in one byte
/// yields a different digest, however the rest of the task and the
/// groups look.
#[verifier::rlimit(60)]
pub proof fn lemma_label_sensitivity(s1: Snapshot, s2: Snapshot, k: int)
    requires
        s1.tasks@.len() == 1,
        s2.tasks@.len() == 1,
        s1.groups@ == s2.groups@,
        s1.tasks@[0].0@ == s2.tasks@[0].0@,
        s1.tasks@[0].1.command == s2.tasks@[0].1.command,
        s1.tasks@[0].1.group == s2.tasks@[0].1.group,
        s1.tasks@[0].1.path == s2.tasks@[0].1.path,
        s1.tasks@[0].1.priority == s2.tasks@[0].1.priority,
        s1.tasks@[0].1.status == s2.tasks@[0].1.status,
        s1.tasks@[0].1.label matches Option::Some(l1) && s2.tasks@[0].1.label matches
            Option::Some(l2) && utf8(l1@).len() == utf8(l2@).len() && 0 <= k < utf8(l1@).len()
            && utf8(l1@)[k] != utf8(l2@)[k] && (forall|j: int|
            0 <= j < utf8(l1@).len() && j != k ==> utf8(l1@)[j] == utf8(l2@)[j]),
    ensures
        hash_bytes(HASH_SEED, snapshot_feed(s1)) != hash_bytes(HASH_SEED, snapshot_feed(s2)),
        digest_chars(s1) != digest_chars(s2),
{
    proof_label_hash_differs(s1, s2, k);
    lemma_digest_text_injective(
        hash_bytes(HASH_SEED, snapshot_feed(s1)),
        hash_bytes(HASH_SEED, snapshot_feed(s2)),
        s1.tasks@.len(),
    );
}

proof fn proof_label_hash_differs(s1: Snapshot, s2: Snapshot, k: int)
    requires
        s1.tasks@.len() == 1,
        s2.tasks@.len() == 1,
        s1.groups@ == s2.groups@,
        s1.tasks@[0].0@ == s2.tasks@[0].0@,
        s1.tasks@[0].1.command == s2.tasks@[0].1.command,
        s1.tasks@[0].1.group == s2.tasks@[0].1.group,
        s1.tasks@[0].1.path == s2.tasks@[0].1.path,
        s1.tasks@[0].1.priority == s2.tasks@[0].1.priority,
        s1.tasks@[0].1.status == s2.tasks@[0].1.status,
        s1.tasks@[0].1.label matches Option::Some(l1) && s2.tasks@[0].1.label matches
            Option::Some(l2) && utf8(l1@).len() == utf8(l2@).len() && 0 <= k < utf8(l1@).len()
            && utf8(l1@)[k] != utf8(l2@)[k] && (forall|j: int|
            0 <= j < utf8(l1@).len() && j != k ==> utf8(l1@)[j] == utf8(l2@)[j]),
    ensures
        hash_bytes(HASH_SEED, snapshot_feed(s1)) != hash_bytes(HASH_SEED, snapshot_feed(s2)),
{
    let t1 = s1.tasks@[0];
    let t2 = s2.tasks@[0];
    let l1 = t1.1.label->Some_0;
    let l2 = t2.1.label->Some_0;
    let lb1 = utf8(l1@);
    let lb2 = utf8(l2@);
    assert(s1.tasks@.drop_last() =~= Seq::<(String, TaskRecord)>::empty());
    assert(s1.tasks@.last() == t1);
    assert(sorted_by_key(Seq::<(String, TaskRecord)>::empty()) =~= Seq::<(
        String,
        TaskRecord,
    )>::empty());
    assert(sorted_by_key(s1.tasks@) =~= seq![t1]);
    assert(s2.tasks@.drop_last() =~= Seq::<(String, TaskRecord)>::empty());
    assert(s2.tasks@.last() == t2);
    assert(sorted_by_key(s2.tasks@) =~= seq![t2]);
    assert(tasks_feed(Seq::<(String, TaskRecord)>::empty()) =~= Seq::<u8>::empty());
    assert(seq![t1].drop_last() =~= Seq::<(String, TaskRecord)>::empty());
    assert(seq![t1].last() == t1);
    assert(seq![t1].len() == 1);
    assert(tasks_feed(seq![t1]) == tasks_feed(Seq::<(String, TaskRecord)>::empty())
        + task_feed(t1));
    assert(Seq::<u8>::empty() + task_feed(t1) =~= task_feed(t1));
    assert(seq![t2].drop_last() =~= Seq::<(String, TaskRecord)>::empty());
    assert(seq![t2].last() == t2);
    assert(seq![t2].len() == 1);
    assert(tasks_feed(seq![t2]) == tasks_feed(Seq::<(String, TaskRecord)>::empty())
        + task_feed(t2));
    assert(Seq::<u8>::empty() + task_feed(t2) =~= task_feed(t2));
    let head1 = utf8(t1.0@) + command_feed(t1.1.command);
    let tail1 = opt_str_feed(t1.1.path) + priority_feed(t1.1.priority) + opt_str_feed(
        t1.1.group,
    ) + status_feed(t1.1.status) + groups_feed(sorted_by_key(s1.groups@));
    assert(snapshot_feed(s1) =~= head1 + lb1 + tail1);
    assert(snapshot_feed(s2) =~= head1 + lb2 + tail1);
    let prefix = head1 + lb1.take(k);
    let suffix = lb1.skip(k + 1) + tail1;
    assert(lb1 =~= lb1.take(k) + seq![lb1[k]] + lb1.skip(k + 1));
    assert(lb2 =~= lb1.take(k) + seq![lb2[k]] + lb1.skip(k + 1)) by {
        assert(lb2.take(k) =~= lb1.take(k));
        assert(lb2.skip(k + 1) =~= lb1.skip(k + 1));
        assert(lb2 =~= lb2.take(k) + seq![lb2[k]] + lb2.skip(k + 1));
    }
    assert(snapshot_feed(s1) =~= prefix + seq![lb1[k]] + suffix);
    assert(snapshot_feed(s2) =~= prefix + seq![lb2[k]] + suffix);
    lemma_hash_sensitive(HASH_SEED, prefix, lb1[k], lb2[k], suffix);
}

/// With no duration samples a group reports no mean and no deviation;
/// with a single sample it reports a mean but still no deviation.
pub proof fn lemma_few_samples(
    tasks: Seq<(String, TaskRecord)>,
    groups: Seq<(String, GroupRecord)>,
    gb: Seq<u8>,
    e: GroupStatsEntry,
)
    requires
        entry_matches(tasks, groups, gb, e),
    ensures
        duration_samples_of(tasks, gb).len() == 0 ==> e.avg_ms_milli is None
            && e.stddev_ms_milli is None,
        duration_samples_of(tasks, gb).len() == 1 ==> e.avg_ms_milli is Some
            && e.stddev_ms_milli is None,
{
    let samples = duration_samples_of(tasks, gb);
    if samples.len() == 1 {
        assert(samples.drop_last() =~= Seq::<i64>::empty());
        assert(samples.last() == samples[0]);
        assert(sum_of(Seq::<i64>::empty()) == 0);
        assert(sum_of(samples) == samples[0] as int);
        assert(1000 * abs_int(sum_of(samples)) <= u128::MAX as int);
    }
}

} // verus!
