//! The launcher's plain parsing work.
//!
//! The binary that supervises the bridge reads its own command line and,
//! while waiting for the bridge to come up, the status line of a health
//! probe.  Both readings are pure text work and live here; the process
//! and socket handling around them do not.

use vstd::prelude::*;
use vstd::string::{StringExecFns, StrSliceExecFns};
use crate::text::{is_ws, is_ws_char, parse_u64, parse_u64_spec, trim_front,
    lemma_trim_front_skip};

verus! {

/// The launcher's settings: whether to detach, where to listen, where
/// to write the process id.
pub struct LaunchArgs {
    pub daemonize: bool,
    pub host: Option<String>,
    pub pid_file: Option<String>,
}

/// Folding the argument words into the settings: `--daemonize` sets the
/// flag; `--host` and `--pid-file` each take the following word, and
/// are ignored when none follows; unknown words are skipped.
pub open spec fn launch_args_spec(
    args: Seq<String>,
    daemonize: bool,
    host: Option<String>,
    pid_file: Option<String>,
) -> (bool, Option<String>, Option<String>)
    decreases args.len(),
{
    if args.len() == 0 {
        (daemonize, host, pid_file)
    } else if args[0]@ == "--daemonize"@ {
        launch_args_spec(args.drop_first(), true, host, pid_file)
    } else if args[0]@ == "--host"@ {
        if args.len() >= 2 {
            launch_args_spec(args.skip(2), daemonize, Option::Some(args[1]), pid_file)
        } else {
            (daemonize, host, pid_file)
        }
    } else if args[0]@ == "--pid-file"@ {
        if args.len() >= 2 {
            launch_args_spec(args.skip(2), daemonize, host, Option::Some(args[1]))
        } else {
            (daemonize, host, pid_file)
        }
    } else {
        launch_args_spec(args.drop_first(), daemonize, host, pid_file)
    }
}

proof fn lemma_flags_distinct()
    ensures
        "--daemonize"@ != "--host"@,
        "--daemonize"@ != "--pid-file"@,
        "--host"@ != "--pid-file"@,
{
    reveal_strlit("--daemonize");
    reveal_strlit("--host");
    reveal_strlit("--pid-file");
    assert("--daemonize"@.len() == 11);
    assert("--host"@.len() == 6);
    assert("--pid-file"@.len() == 10);
}

/// Read the launcher's settings from its argument words (the program
/// name already removed).
pub fn parse_launch_args(args: &Vec<String>) -> (r: LaunchArgs)
    ensures
        (r.daemonize, r.host, r.pid_file) == launch_args_spec(
            args@,
            false,
            Option::None,
            Option::None,
        ),
{
    proof {
        lemma_flags_distinct();
    }
    let n = args.len();
    let mut daemonize: bool = false;
    let mut host: Option<String> = None;
    let mut pid_file: Option<String> = None;
    let mut i: usize = 0;
    proof {
        assert(args@.skip(0) =~= args@);
    }
    while i < n
        invariant
            n == args@.len(),
            i <= n,
            launch_args_spec(args@, false, Option::None, Option::None) == launch_args_spec(
                args@.skip(i as int),
                daemonize,
                host,
                pid_file,
            ),
        decreases n - i,
    {
        proof {
            lemma_flags_distinct();
            assert(args@.skip(i as int)[0] == args@[i as int]);
            assert(args@.skip(i as int).drop_first() =~= args@.skip(i as int + 1));
            if i + 2 <= n {
                assert(args@.skip(i as int).skip(2) =~= args@.skip(i as int + 2));
            }
        }
        let word = &args[i];
        if crate::text::str_eq(word.as_str(), "--daemonize") {
            daemonize = true;
            i = i + 1;
        } else if crate::text::str_eq(word.as_str(), "--host") {
            if i + 1 < n {
                proof {
                    assert(args@.skip(i as int)[1] == args@[i as int + 1]);
                }
                host = Some(args[i + 1].clone());
                i = i + 2;
            } else {
                i = n;
            }
        } else if crate::text::str_eq(word.as_str(), "--pid-file") {
            if i + 1 < n {
                proof {
                    assert(args@.skip(i as int)[1] == args@[i as int + 1]);
                }
                pid_file = Some(args[i + 1].clone());
                i = i + 2;
            } else {
                i = n;
            }
        } else {
            i = i + 1;
        }
    }
    proof {
        assert(args@.skip(n as int).len() == 0);
    }
    LaunchArgs { daemonize, host, pid_file }
}

/// The characters before the first line feed.
pub open spec fn before_nl(s: Seq<char>) -> Seq<char>
    decreases s.len(),
{
    if s.len() == 0 || s[0] == '\n' {
        Seq::empty()
    } else {
        seq![s[0]] + before_nl(s.drop_first())
    }
}

/// Whether a line feed occurs at all.
pub open spec fn has_nl(s: Seq<char>) -> bool
    decreases s.len(),
{
    if s.len() == 0 {
        false
    } else if s[0] == '\n' {
        true
    } else {
        has_nl(s.drop_first())
    }
}

/// The first line as `str::lines` yields it: up to the first line feed
/// with a carriage return before it stripped, or the whole text when no
/// line feed occurs.
pub open spec fn first_line(s: Seq<char>) -> Seq<char> {
    if has_nl(s) {
        let l = before_nl(s);
        if l.len() > 0 && l.last() == '\r' {
            l.drop_last()
        } else {
            l
        }
    } else {
        s
    }
}

/// The leading maximal run of non-whitespace characters.
pub open spec fn head_token(s: Seq<char>) -> Seq<char>
    decreases s.len(),
{
    if s.len() > 0 && !is_ws(s[0]) {
        seq![s[0]] + head_token(s.drop_first())
    } else {
        Seq::empty()
    }
}

/// What follows the leading token.
pub open spec fn after_token(s: Seq<char>) -> Seq<char>
    decreases s.len(),
{
    if s.len() > 0 && !is_ws(s[0]) {
        after_token(s.drop_first())
    } else {
        s
    }
}

/// The second whitespace-separated word of a line, empty when there is
/// none.
pub open spec fn second_token(line: Seq<char>) -> Seq<char> {
    head_token(trim_front(after_token(trim_front(line))))
}

/// What a health probe's response reads as: the second word of its
/// first line, parsed as a status code; absent when there is no second
/// word or it is not a number that fits.
pub open spec fn health_status_spec(s: Seq<char>) -> Option<u16> {
    let tok = second_token(first_line(s));
    if tok.len() == 0 {
        Option::None
    } else {
        match parse_u64_spec(tok) {
            Option::Some(v) => if v <= u16::MAX as u64 {
                Option::Some(v as u16)
            } else {
                Option::None
            },
            Option::None => Option::None,
        }
    }
}

proof fn lemma_before_nl_scan(s: Seq<char>, p: int)
    requires
        0 <= p <= s.len(),
        forall|k: int| 0 <= k < p ==> s[k] != '\n',
        p == s.len() || s[p] == '\n',
    ensures
        before_nl(s) =~= s.take(p),
        has_nl(s) == (p < s.len()),
    decreases p,
{
    if p == 0 {
        assert(s.take(0) =~= Seq::<char>::empty());
    } else {
        assert(s[0] != '\n');
        lemma_before_nl_scan(s.drop_first(), p - 1);
        assert(s.drop_first().take(p - 1) =~= s.take(p).drop_first());
        assert(seq![s[0]] + s.take(p).drop_first() =~= s.take(p));
    }
}

proof fn lemma_head_token_scan(s: Seq<char>, j: int)
    requires
        0 <= j <= s.len(),
        forall|k: int| 0 <= k < j ==> !is_ws(s[k]),
        j == s.len() || is_ws(s[j]),
    ensures
        head_token(s) =~= s.take(j),
        after_token(s) =~= s.skip(j),
    decreases j,
{
    if j == 0 {
        assert(s.take(0) =~= Seq::<char>::empty());
        assert(s.skip(0) =~= s);
    } else {
        assert(!is_ws(s[0]));
        lemma_head_token_scan(s.drop_first(), j - 1);
        assert(s.drop_first().take(j - 1) =~= s.take(j).drop_first());
        assert(seq![s[0]] + s.take(j).drop_first() =~= s.take(j));
        assert(s.drop_first().skip(j - 1) =~= s.skip(j));
    }
}

/// Read the status code out of a health probe's response text.
pub fn parse_health_status(response: &str) -> (r: Option<u16>)
    ensures
        r == health_status_spec(response@),
{
    let n = response.unicode_len();
    let mut p: usize = 0;
    while p < n && response.get_char(p) != '\n'
        invariant
            n == response@.len(),
            p <= n,
            forall|k: int| 0 <= k < p ==> response@[k] != '\n',
        decreases n - p,
    {
        p = p + 1;
    }
    proof {
        lemma_before_nl_scan(response@, p as int);
    }
    let mut line_end: usize = p;
    if p < n && line_end > 0 && response.get_char(line_end - 1) == '\r' {
        line_end = line_end - 1;
    }
    let line = response.substring_char(0, line_end);
    proof {
        assert(response@.subrange(0, line_end as int) =~= response@.take(line_end as int));
        if p < n {
            let l = before_nl(response@);
            if l.len() > 0 && l.last() == '\r' {
                assert(l.drop_last() =~= response@.take(p as int).drop_last());
                assert(response@.take(p as int).drop_last() =~= response@.take(p - 1));
            }
        } else {
            assert(response@.take(p as int) =~= response@);
        }
        assert(line@ =~= first_line(response@));
    }
    let m = line.unicode_len();
    let mut i: usize = 0;
    while i < m && is_ws_char(line.get_char(i))
        invariant
            m == line@.len(),
            i <= m,
            forall|k: int| 0 <= k < i ==> is_ws(line@[k]),
        decreases m - i,
    {
        i = i + 1;
    }
    proof {
        lemma_trim_front_skip(line@, i as int);
    }
    let mut j: usize = i;
    while j < m && !is_ws_char(line.get_char(j))
        invariant
            m == line@.len(),
            i <= j <= m,
            forall|k: int| i <= k < j ==> !is_ws(line@[k]),
        decreases m - j,
    {
        j = j + 1;
    }
    proof {
        let rest = line@.skip(i as int);
        assert(forall|k: int| 0 <= k < j - i ==> !is_ws(#[trigger] rest[k]));
        if j < m {
            assert(is_ws(rest[j - i]));
        }
        lemma_head_token_scan(rest, j - i);
        assert(rest.skip(j - i) =~= line@.skip(j as int));
    }
    let mut q: usize = j;
    while q < m && is_ws_char(line.get_char(q))
        invariant
            m == line@.len(),
            j <= q <= m,
            forall|k: int| j <= k < q ==> is_ws(line@[k]),
        decreases m - q,
    {
        q = q + 1;
    }
    proof {
        let rest = line@.skip(j as int);
        assert(forall|k: int| 0 <= k < q - j ==> is_ws(#[trigger] rest[k]));
        if q < m {
            assert(!is_ws(rest[q - j]));
        }
        lemma_trim_front_skip(rest, q - j);
        assert(rest.skip(q - j) =~= line@.skip(q as int));
    }
    let mut t: usize = q;
    while t < m && !is_ws_char(line.get_char(t))
        invariant
            m == line@.len(),
            q <= t <= m,
            forall|k: int| q <= k < t ==> !is_ws(line@[k]),
        decreases m - t,
    {
        t = t + 1;
    }
    proof {
        let rest = line@.skip(q as int);
        assert(forall|k: int| 0 <= k < t - q ==> !is_ws(#[trigger] rest[k]));
        if t < m {
            assert(is_ws(rest[t - q]));
        }
        lemma_head_token_scan(rest, t - q);
        assert(rest.take(t - q) =~= line@.subrange(q as int, t as int));
    }
    if q == t {
        proof {
            assert(second_token(first_line(response@)).len() == 0);
        }
        return None;
    }
    let token = line.substring_char(q, t);
    proof {
        assert(token@ =~= second_token(first_line(response@)));
    }
    match parse_u64(token) {
        Option::Some(v) => {
            if v <= 65535 {
                Some(v as u16)
            } else {
                None
            }
        },
        Option::None => None,
    }
}

} // verus!
