use pueue_bridge::snapshot::{
    CommandField, GroupRecord, Snapshot, StatusDetail, TaskRecord, TaskStatus,
};
use pueue_bridge::stats::{compute_group_stats, GroupStatsEntry};

fn bare_task() -> TaskRecord {
    TaskRecord {
        command: None,
        group: None,
        label: None,
        path: None,
        priority: None,
        status: None,
        original_command: None,
    }
}

fn done_task(result: &str, start: &str, end: &str) -> TaskRecord {
    TaskRecord {
        status: Some(TaskStatus {
            tag: "Done".to_string(),
            detail: StatusDetail {
                start: Some(start.to_string()),
                end: Some(end.to_string()),
                enqueued_at: None,
                result: Some(result.to_string()),
            },
        }),
        ..bare_task()
    }
}

fn tagged_task(tag: &str) -> TaskRecord {
    TaskRecord {
        status: Some(TaskStatus {
            tag: tag.to_string(),
            detail: StatusDetail { start: None, end: None, enqueued_at: None, result: None },
        }),
        ..bare_task()
    }
}

fn entry_for<'a>(
    stats: &'a [(String, GroupStatsEntry)],
    name: &str,
) -> &'a GroupStatsEntry {
    &stats.iter().find(|(n, _)| n.as_str() == name).expect("group entry missing").1
}

#[test]
fn empty_snapshot_digest_is_seed() {
    let snap = Snapshot { tasks: vec![], groups: vec![] };
    let (stats, digest) = compute_group_stats(snap);
    assert_eq!(digest, "5381:0");
    assert!(stats.is_empty());
}

#[test]
fn group_only_snapshot_populates_empty_entries() {
    let snap = Snapshot {
        tasks: vec![],
        groups: vec![(
            "default".to_string(),
            GroupRecord { parallel_tasks: Some(2), status: Some("Running".to_string()) },
        )],
    };
    let (stats, digest) = compute_group_stats(snap);
    assert_eq!(stats.len(), 1);
    let entry = entry_for(&stats, "default");
    assert_eq!(entry.total, 0);
    assert_eq!(entry.done, 0);
    assert!(entry.failed_ids.is_empty());
    assert_eq!(entry.avg_ms_milli, None);
    assert_eq!(entry.stddev_ms_milli, None);
    assert_eq!(entry.parallel, Some(2));
    // The group feeds its name into the hash, so the digest moves off the seed.
    assert_ne!(digest, "5381:0");
    assert!(digest.ends_with(":0"));
}

#[test]
fn single_task_digest_matches_hand_computed_hash() {
    // One task id "1", no fields: hash = 5381 * 33 XOR byte('1').
    let snap = Snapshot { tasks: vec![("1".to_string(), bare_task())], groups: vec![] };
    let (_, digest) = compute_group_stats(snap);
    assert_eq!(digest, "177556:1");
}

#[test]
fn digest_is_deterministic_and_order_insensitive() {
    let build = |reversed: bool| {
        let mut tasks = vec![
            ("10".to_string(), bare_task()),
            ("2".to_string(), bare_task()),
        ];
        if reversed {
            tasks.reverse();
        }
        Snapshot { tasks, groups: vec![] }
    };
    let (_, d1) = compute_group_stats(build(false));
    let (_, d2) = compute_group_stats(build(true));
    assert_eq!(d1, d2);
    // Ids sort as strings: "10" before "2".
    assert_eq!(d1, "193358998:2");
}

#[test]
fn digest_changes_when_a_label_changes() {
    let with_label = |label: &str| Snapshot {
        tasks: vec![(
            "1".to_string(),
            TaskRecord { label: Some(label.to_string()), ..bare_task() },
        )],
        groups: vec![],
    };
    let (_, d1) = compute_group_stats(with_label("alpha"));
    let (_, d2) = compute_group_stats(with_label("alphb"));
    assert_ne!(d1, d2);
}

#[test]
fn duration_samples_give_sample_statistics() {
    // Durations 100, 200 and 300 ms: mean 200, sample stddev 100.
    let snap = Snapshot {
        tasks: vec![
            (
                "1".to_string(),
                done_task("Success", "2024-01-01T00:00:00Z", "2024-01-01T00:00:00.100Z"),
            ),
            (
                "2".to_string(),
                done_task("Success", "2024-01-01T00:00:00Z", "2024-01-01T00:00:00.200Z"),
            ),
            (
                "3".to_string(),
                done_task("Success", "2024-01-01T00:00:00Z", "2024-01-01T00:00:00.300Z"),
            ),
        ],
        groups: vec![],
    };
    let (stats, _) = compute_group_stats(snap);
    let entry = entry_for(&stats, "default");
    assert_eq!(entry.done, 3);
    assert_eq!(entry.success, 3);
    assert_eq!(entry.avg_ms_milli, Some(200_000));
    assert_eq!(entry.stddev_ms_milli, Some(100_000));
}

#[test]
fn one_sample_has_mean_but_no_deviation() {
    let snap = Snapshot {
        tasks: vec![(
            "1".to_string(),
            done_task("Success", "2024-01-01T00:00:00Z", "2024-01-01T00:00:00.250Z"),
        )],
        groups: vec![],
    };
    let (stats, _) = compute_group_stats(snap);
    let entry = entry_for(&stats, "default");
    assert_eq!(entry.avg_ms_milli, Some(250_000));
    assert_eq!(entry.stddev_ms_milli, None);
}

#[test]
fn zero_samples_have_neither_mean_nor_deviation() {
    let snap = Snapshot {
        tasks: vec![("1".to_string(), tagged_task("Running"))],
        groups: vec![],
    };
    let (stats, _) = compute_group_stats(snap);
    let entry = entry_for(&stats, "default");
    assert_eq!(entry.avg_ms_milli, None);
    assert_eq!(entry.stddev_ms_milli, None);
}

#[test]
fn counters_follow_status_tags() {
    let snap = Snapshot {
        tasks: vec![
            ("1".to_string(), tagged_task("Running")),
            ("2".to_string(), tagged_task("Queued")),
            ("3".to_string(), tagged_task("Paused")),
            (
                "4".to_string(),
                done_task("Success", "2024-01-01T00:00:00Z", "2024-01-01T00:00:01Z"),
            ),
            (
                "5".to_string(),
                done_task("Failed", "2024-01-01T00:00:00Z", "2024-01-01T00:00:02Z"),
            ),
            ("6".to_string(), tagged_task("Stashed")),
            ("7".to_string(), bare_task()),
        ],
        groups: vec![],
    };
    let (stats, digest) = compute_group_stats(snap);
    let entry = entry_for(&stats, "default");
    assert_eq!(entry.total, 7);
    assert_eq!(entry.running, 1);
    assert_eq!(entry.queued, 1);
    assert_eq!(entry.paused, 1);
    assert_eq!(entry.done, 2);
    assert_eq!(entry.success, 1);
    assert_eq!(entry.failed, 1);
    assert_eq!(entry.failed_ids, vec!["5".to_string()]);
    assert!(digest.ends_with(":7"));
}

#[test]
fn tasks_split_into_their_groups() {
    let grouped = |group: &str| TaskRecord {
        group: Some(group.to_string()),
        ..tagged_task("Queued")
    };
    let snap = Snapshot {
        tasks: vec![
            ("1".to_string(), grouped("build")),
            ("2".to_string(), grouped("build")),
            ("3".to_string(), tagged_task("Queued")),
        ],
        groups: vec![(
            "build".to_string(),
            GroupRecord { parallel_tasks: Some(4), status: None },
        )],
    };
    let (stats, _) = compute_group_stats(snap);
    assert_eq!(stats.len(), 2);
    // Entries come back sorted by name.
    assert_eq!(stats[0].0, "build");
    assert_eq!(stats[1].0, "default");
    assert_eq!(stats[0].1.total, 2);
    assert_eq!(stats[0].1.parallel, Some(4));
    assert_eq!(stats[1].1.total, 1);
    assert_eq!(stats[1].1.parallel, None);
}

#[test]
fn pieces_commands_and_priorities_reach_the_digest() {
    let with_command = |c: Option<CommandField>, priority: Option<i64>| Snapshot {
        tasks: vec![(
            "1".to_string(),
            TaskRecord { command: c, priority, ..bare_task() },
        )],
        groups: vec![],
    };
    let (_, plain) = compute_group_stats(with_command(None, None));
    let (_, texted) = compute_group_stats(with_command(
        Some(CommandField::Text("echo hi".to_string())),
        None,
    ));
    let (_, pieces) = compute_group_stats(with_command(
        Some(CommandField::Pieces(vec!["echo".to_string(), "hi".to_string()])),
        None,
    ));
    let (_, prioritised) = compute_group_stats(with_command(None, Some(-3)));
    assert_ne!(plain, texted);
    assert_ne!(texted, pieces);
    assert_ne!(plain, prioritised);
}
