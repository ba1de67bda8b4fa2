//! The structural view of the daemon's status snapshot.
//!
//! The daemon reports its state as an untyped document; the bridge reads
//! only a fixed selection of fields.  This module holds that selection as
//! plain data: a task table keyed by the task's string identifier, and a
//! group table keyed by the group name.  Absent fields stay absent here
//! and every consumer states explicitly how it defaults them.

use vstd::prelude::*;
use crate::text::{bytes_le, utf8};

verus! {

/// The fields a task's status variant may carry.  A variant whose
/// payload is not a record is read as a record with every field absent.
pub struct StatusDetail {
    pub start: Option<String>,
    pub end: Option<String>,
    pub enqueued_at: Option<String>,
    pub result: Option<String>,
}

/// A task's status: the variant tag and its payload fields.
pub struct TaskStatus {
    pub tag: String,
    pub detail: StatusDetail,
}

/// A task's command: either one string or a sequence of pieces.
pub enum CommandField {
    Text(String),
    Pieces(Vec<String>),
}

/// The fields of one task that the bridge reads.
pub struct TaskRecord {
    pub command: Option<CommandField>,
    pub group: Option<String>,
    pub label: Option<String>,
    pub path: Option<String>,
    pub priority: Option<i64>,
    pub status: Option<TaskStatus>,
    pub original_command: Option<String>,
}

/// The fields of one group that the bridge reads.
pub struct GroupRecord {
    pub parallel_tasks: Option<u64>,
    pub status: Option<String>,
}

/// The snapshot: tasks keyed by identifier, groups keyed by name.
pub struct Snapshot {
    pub tasks: Vec<(String, TaskRecord)>,
    pub groups: Vec<(String, GroupRecord)>,
}

/// Where an entry lands when inserted into a key-ordered row.
pub open spec fn insert_keyed<T>(x: (String, T), s: Seq<(String, T)>) -> Seq<(String, T)>
    decreases s.len(),
{
    if s.len() == 0 {
        seq![x]
    } else if bytes_le(utf8(x.0@), utf8(s[0].0@)) {
        seq![x] + s
    } else {
        seq![s[0]] + insert_keyed(x, s.drop_first())
    }
}

/// A table in ascending key-byte order: each entry inserted in turn.
pub open spec fn sorted_by_key<T>(s: Seq<(String, T)>) -> Seq<(String, T)>
    decreases s.len(),
{
    if s.len() == 0 {
        Seq::empty()
    } else {
        insert_keyed(s.last(), sorted_by_key(s.drop_last()))
    }
}

/// Sorting a table keeps its length.
pub proof fn lemma_sorted_by_key_len<T>(s: Seq<(String, T)>)
    ensures
        sorted_by_key(s).len() == s.len(),
    decreases s.len(),
{
    if s.len() > 0 {
        lemma_sorted_by_key_len(s.drop_last());
        lemma_insert_keyed_len(s.last(), sorted_by_key(s.drop_last()));
    }
}

proof fn lemma_insert_keyed_len<T>(x: (String, T), s: Seq<(String, T)>)
    ensures
        insert_keyed(x, s).len() == s.len() + 1,
    decreases s.len(),
{
    if s.len() > 0 && !bytes_le(utf8(x.0@), utf8(s[0].0@)) {
        lemma_insert_keyed_len(x, s.drop_first());
    }
}

/// Pairwise ascending key bytes.
pub open spec fn table_sorted<T>(s: Seq<(String, T)>) -> bool {
    forall|i: int, j: int|
        0 <= i < j < s.len() ==> bytes_le(utf8((#[trigger] s[i]).0@), utf8((#[trigger] s[j]).0@))
}

/// The ordered table ascends by key bytes.
pub proof fn lemma_sorted_by_key_ordered<T>(s: Seq<(String, T)>)
    ensures
        table_sorted(sorted_by_key(s)),
    decreases s.len(),
{
    if s.len() > 0 {
        lemma_sorted_by_key_ordered(s.drop_last());
        lemma_insert_keyed_ordered(s.last(), sorted_by_key(s.drop_last()));
    }
}

proof fn lemma_insert_keyed_ordered<T>(x: (String, T), s: Seq<(String, T)>)
    requires
        table_sorted(s),
    ensures
        table_sorted(insert_keyed(x, s)),
        forall|k: int|
            0 <= k < insert_keyed(x, s).len() ==> ((#[trigger] insert_keyed(x, s)[k]) == x || (
            exists|i: int| 0 <= i < s.len() && insert_keyed(x, s)[k] == (#[trigger] s[i]))),
    decreases s.len(),
{
    let r = insert_keyed(x, s);
    if s.len() == 0 {
        assert(r =~= seq![x]);
        assert(r[0] == x);
    } else if bytes_le(utf8(x.0@), utf8(s[0].0@)) {
        assert(r =~= seq![x] + s);
        assert forall|i: int, j: int| 0 <= i < j < r.len() implies bytes_le(
            utf8((#[trigger] r[i]).0@),
            utf8((#[trigger] r[j]).0@),
        ) by {
            if i == 0 {
                assert(r[i] == x);
                assert(r[j] == s[j - 1]);
                if j > 1 {
                    crate::text::lemma_bytes_le_trans(
                        utf8(x.0@),
                        utf8(s[0].0@),
                        utf8(s[j - 1].0@),
                    );
                }
            } else {
                assert(r[i] == s[i - 1] && r[j] == s[j - 1]);
            }
        }
        assert forall|k: int| 0 <= k < r.len() implies ((#[trigger] r[k]) == x || (exists|i: int|
            0 <= i < s.len() && r[k] == (#[trigger] s[i]))) by {
            if k > 0 {
                assert(r[k] == s[k - 1]);
            }
        }
    } else {
        crate::text::lemma_bytes_le_total(utf8(x.0@), utf8(s[0].0@));
        assert(forall|i: int, j: int|
            0 <= i < j < s.drop_first().len() ==> bytes_le(
                utf8((#[trigger] s.drop_first()[i]).0@),
                utf8((#[trigger] s.drop_first()[j]).0@),
            ));
        lemma_insert_keyed_ordered(x, s.drop_first());
        let inner = insert_keyed(x, s.drop_first());
        assert(r =~= seq![s[0]] + inner);
        assert forall|k: int| 1 <= k < r.len() implies bytes_le(
            utf8(s[0].0@),
            utf8((#[trigger] r[k]).0@),
        ) by {
            assert(r[k] == inner[k - 1]);
            if inner[k - 1] == x {
                assert(bytes_le(utf8(s[0].0@), utf8(x.0@)));
            } else {
                let i = choose|i: int|
                    0 <= i < s.drop_first().len() && inner[k - 1] == (
                    #[trigger] s.drop_first()[i]);
                assert(s.drop_first()[i] == s[i + 1]);
                assert(bytes_le(utf8(s[0].0@), utf8(s[i + 1].0@)));
            }
        }
        assert forall|i: int, j: int| 0 <= i < j < r.len() implies bytes_le(
            utf8((#[trigger] r[i]).0@),
            utf8((#[trigger] r[j]).0@),
        ) by {
            if i > 0 {
                assert(r[i] == inner[i - 1] && r[j] == inner[j - 1]);
            }
        }
        assert forall|k: int| 0 <= k < r.len() implies ((#[trigger] r[k]) == x || (exists|i: int|
            0 <= i < s.len() && r[k] == (#[trigger] s[i]))) by {
            if k == 0 {
                assert(r[0] == s[0]);
            } else {
                assert(r[k] == inner[k - 1]);
                if inner[k - 1] != x {
                    let i = choose|i: int|
                        0 <= i < s.drop_first().len() && inner[k - 1] == (
                        #[trigger] s.drop_first()[i]);
                    assert(s.drop_first()[i] == s[i + 1]);
                }
            }
        }
    }
}

/// The ordered table holds exactly the entries of its input.
pub proof fn lemma_sorted_by_key_permutes<T>(s: Seq<(String, T)>)
    ensures
        sorted_by_key(s).to_multiset() =~= s.to_multiset(),
    decreases s.len(),
{
    broadcast use vstd::seq_lib::group_to_multiset_ensures;

    if s.len() > 0 {
        lemma_sorted_by_key_permutes(s.drop_last());
        lemma_insert_keyed_multiset(s.last(), sorted_by_key(s.drop_last()));
        assert(s =~= s.drop_last().push(s.last()));
    }
}

proof fn lemma_insert_keyed_multiset<T>(x: (String, T), s: Seq<(String, T)>)
    ensures
        insert_keyed(x, s).to_multiset() =~= s.to_multiset().insert(x),
    decreases s.len(),
{
    broadcast use vstd::seq_lib::group_to_multiset_ensures;
    broadcast use vstd::multiset::group_multiset_axioms;

    if s.len() == 0 {
        assert(seq![x] =~= Seq::<(String, T)>::empty().push(x));
        assert(insert_keyed(x, s) =~= seq![x]);
    } else if bytes_le(utf8(x.0@), utf8(s[0].0@)) {
        vstd::seq_lib::lemma_multiset_commutative(seq![x], s);
        assert(seq![x] =~= Seq::<(String, T)>::empty().push(x));
    } else {
        lemma_insert_keyed_multiset(x, s.drop_first());
        vstd::seq_lib::lemma_multiset_commutative(seq![s[0]], insert_keyed(x, s.drop_first()));
        vstd::seq_lib::lemma_multiset_commutative(seq![s[0]], s.drop_first());
        assert(s =~= seq![s[0]] + s.drop_first());
        assert(seq![s[0]] =~= Seq::<(String, T)>::empty().push(s[0]));
    }
}

proof fn lemma_insert_keyed_at<T>(x: (String, T), s: Seq<(String, T)>, j: int)
    requires
        0 <= j <= s.len(),
        forall|k: int| 0 <= k < j ==> !bytes_le(utf8(x.0@), utf8((#[trigger] s[k]).0@)),
        j == s.len() || bytes_le(utf8(x.0@), utf8(s[j].0@)),
    ensures
        insert_keyed(x, s) =~= s.take(j) + seq![x] + s.skip(j),
    decreases j,
{
    if j == 0 {
        if s.len() == 0 {
            assert(s.take(0) + seq![x] + s.skip(0) =~= seq![x]);
        } else {
            assert(s.take(0) + seq![x] + s.skip(0) =~= seq![x] + s);
        }
    } else {
        assert(!bytes_le(utf8(x.0@), utf8(s[0].0@)));
        lemma_insert_keyed_at(x, s.drop_first(), j - 1);
        assert(s.drop_first().take(j - 1) =~= s.take(j).drop_first());
        assert(s.drop_first().skip(j - 1) =~= s.skip(j));
        assert(seq![s[0]] + (s.take(j).drop_first() + seq![x] + s.skip(j)) =~= s.take(j)
            + seq![x] + s.skip(j));
    }
}

/// Order a keyed table by ascending key bytes, the order `String`
/// sorting gives.
pub fn sort_by_key_bytes<T>(table: Vec<(String, T)>) -> (r: Vec<(String, T)>)
    ensures
        r@ == sorted_by_key(table@),
{
    let ghost s = table@;
    let mut rest = table;
    let mut out: Vec<(String, T)> = Vec::new();
    let mut i: usize = 0;
    let n = rest.len();
    while i < n
        invariant
            n == s.len(),
            i <= n,
            rest@ =~= s.skip(i as int),
            out@ == sorted_by_key(s.take(i as int)),
        decreases n - i,
    {
        let x = rest.remove(0);
        proof {
            assert(x == s[i as int]);
            assert(rest@ =~= s.skip(i as int + 1));
        }
        let mut j: usize = 0;
        let m = out.len();
        while j < m && !crate::text::str_le(x.0.as_str(), out[j].0.as_str())
            invariant
                m == out@.len(),
                j <= m,
                forall|k: int|
                    0 <= k < j ==> !bytes_le(utf8(x.0@), utf8((
                    #[trigger] out@[k]).0@)),
            decreases m - j,
        {
            j = j + 1;
        }
        proof {
            lemma_insert_keyed_at(x, out@, j as int);
        }
        let ghost before = out@;
        out.insert(j, x);
        proof {
            assert(out@ =~= before.take(j as int) + seq![x] + before.skip(j as int));
            assert(s.take(i as int + 1).drop_last() =~= s.take(i as int));
            assert(s.take(i as int + 1).last() == s[i as int]);
            assert(out@ == sorted_by_key(s.take(i as int + 1)));
        }
        i = i + 1;
    }
    proof {
        assert(s.take(n as int) =~= s);
    }
    out
}

} // verus!
