//! The command-line fallback path.
//!
//! When the network path fails, the bridge invokes the daemon's local
//! command-line client.  The library builds the exact argument vector
//! for each operation and interprets the process's captured output; the
//! spawning itself happens outside.  A non-zero exit turns the trimmed
//! error stream into the terminal fallback error; otherwise the trimmed
//! output stream is the result, parsed as JSON where the operation
//! expects it.

use vstd::prelude::*;
use vstd::string::StringExecFns;
use crate::requests::{AddTaskRequest, BackendError, GroupActionRequest};
use crate::text::{dec_rep, dec_rep_signed, trim_spec, trim_str, str_eq, u64_to_string,
    i64_to_string};

verus! {

/// The JSON document type of serde_json, opaque to the library: values
/// of it are parsed, carried through and handed back, never inspected.
#[verifier::external_type_specification]
#[verifier::external_body]
pub struct ExJsonValue(serde_json::Value);

/// The views of a string vector, for stating argument lists.
pub open spec fn str_views(v: Seq<String>) -> Seq<Seq<char>> {
    v.map_values(|s: String| s@)
}

/// The arguments of the status query: `status --json`.
pub fn cli_args_status() -> (r: Vec<String>)
    ensures
        str_views(r@) =~= seq!["status"@, "--json"@],
{
    let mut args: Vec<String> = Vec::new();
    args.push("status".to_owned());
    args.push("--json".to_owned());
    proof {
        assert(str_views(args@) =~= seq!["status"@, "--json"@]);
    }
    args
}

/// The arguments of the log query: `log --json [--lines N] <id>`.
pub fn cli_args_log(task_id: u64, lines: Option<u64>) -> (r: Vec<String>)
    ensures
        str_views(r@) =~= (match lines {
            Option::Some(l) => seq!["log"@, "--json"@, "--lines"@, dec_rep(l as nat), dec_rep(
                task_id as nat,
            )],
            Option::None => seq!["log"@, "--json"@, dec_rep(task_id as nat)],
        }),
{
    let mut args: Vec<String> = Vec::new();
    args.push("log".to_owned());
    args.push("--json".to_owned());
    match lines {
        Option::Some(l) => {
            args.push("--lines".to_owned());
            args.push(u64_to_string(l));
        },
        Option::None => (),
    }
    args.push(u64_to_string(task_id));
    proof {
        match lines {
            Option::Some(l) => {
                assert(str_views(args@) =~= seq!["log"@, "--json"@, "--lines"@, dec_rep(
                    l as nat,
                ), dec_rep(task_id as nat)]);
            },
            Option::None => {
                assert(str_views(args@) =~= seq!["log"@, "--json"@, dec_rep(task_id as nat)]);
            },
        }
    }
    args
}

/// The arguments of a task action: the command (with `resume` spelled
/// `start`) and the task id.
pub fn cli_args_action(task_id: u64, action: &str) -> (r: Vec<String>)
    ensures
        str_views(r@) =~= seq![
            (if action@ == "resume"@ {
                "start"@
            } else {
                action@
            }),
            dec_rep(task_id as nat),
        ],
{
    let command: String = if str_eq(action, "resume") {
        "start".to_owned()
    } else {
        action.to_owned()
    };
    let mut args: Vec<String> = Vec::new();
    args.push(command);
    args.push(u64_to_string(task_id));
    proof {
        assert(str_views(args@) =~= seq![
            (if action@ == "resume"@ {
                "start"@
            } else {
                action@
            }),
            dec_rep(task_id as nat),
        ]);
    }
    args
}

proof fn lemma_group_words_distinct()
    ensures
        "add"@ != "remove"@,
        "add"@ != "list"@,
        "remove"@ != "list"@,
{
    reveal_strlit("add");
    reveal_strlit("remove");
    reveal_strlit("list");
    assert("add"@.len() == 3);
    assert("remove"@.len() == 6);
    assert("list"@.len() == 4);
}

/// The arguments of a group operation: `group add <name> [--parallel
/// N]`, `group remove <name>` or `group list`, with the name exactly as
/// the request carries it.  An unknown action is unsupported.
pub fn cli_args_group(request: &GroupActionRequest) -> (r: Result<Vec<String>, BackendError>)
    ensures
        request.action@ == "add"@ ==> (r matches Ok(v) && str_views(v@) =~= (
        match request.parallel_tasks {
            Option::Some(p) => seq!["group"@, "add"@, request.name@, "--parallel"@, dec_rep(
                p as nat,
            )],
            Option::None => seq!["group"@, "add"@, request.name@],
        })),
        request.action@ == "remove"@ ==> (r matches Ok(v) && str_views(v@) =~= seq![
            "group"@,
            "remove"@,
            request.name@,
        ]),
        request.action@ == "list"@ ==> (r matches Ok(v) && str_views(v@) =~= seq![
            "group"@,
            "list"@,
        ]),
        !(request.action@ == "add"@ || request.action@ == "remove"@ || request.action@
            == "list"@) ==> (r matches Err(e) && e matches BackendError::UnsupportedAction(m)
            && m@ == "Unsupported group action"@),
{
    proof {
        lemma_group_words_distinct();
    }
    let mut args: Vec<String> = Vec::new();
    args.push("group".to_owned());
    if str_eq(request.action.as_str(), "add") {
        args.push("add".to_owned());
        args.push(request.name.clone());
        match request.parallel_tasks {
            Option::Some(p) => {
                args.push("--parallel".to_owned());
                args.push(u64_to_string(p as u64));
                proof {
                    assert(str_views(args@) =~= seq!["group"@, "add"@, request.name@,
                        "--parallel"@, dec_rep(p as nat)]);
                }
            },
            Option::None => {
                proof {
                    assert(str_views(args@) =~= seq!["group"@, "add"@, request.name@]);
                }
            },
        }
        Ok(args)
    } else if str_eq(request.action.as_str(), "remove") {
        args.push("remove".to_owned());
        args.push(request.name.clone());
        proof {
            assert(str_views(args@) =~= seq!["group"@, "remove"@, request.name@]);
        }
        Ok(args)
    } else if str_eq(request.action.as_str(), "list") {
        args.push("list".to_owned());
        proof {
            assert(str_views(args@) =~= seq!["group"@, "list"@]);
        }
        Ok(args)
    } else {
        Err(BackendError::UnsupportedAction("Unsupported group action".to_owned()))
    }
}

/// The argument list of an add operation: the command, then one flag
/// pair per present field, `--stashed` when stashed, and
/// `--start-immediately false` only when the request says false.
pub open spec fn add_args_views(request: AddTaskRequest) -> Seq<Seq<char>> {
    seq!["add"@, request.command@] + (match request.group {
        Option::Some(g) => seq!["--group"@, g@],
        Option::None => Seq::empty(),
    }) + (match request.label {
        Option::Some(l) => seq!["--label"@, l@],
        Option::None => Seq::empty(),
    }) + (match request.priority {
        Option::Some(p) => seq!["--priority"@, dec_rep_signed(p as int)],
        Option::None => Seq::empty(),
    }) + (match request.path {
        Option::Some(p) => seq!["--working-directory"@, p@],
        Option::None => Seq::empty(),
    }) + (if request.stashed == Option::Some(true) {
        seq!["--stashed"@]
    } else {
        Seq::empty()
    }) + (if request.start_immediately == Option::Some(false) {
        seq!["--start-immediately"@, "false"@]
    } else {
        Seq::empty()
    })
}

/// The arguments of an add operation.
pub fn cli_args_add(request: &AddTaskRequest) -> (r: Vec<String>)
    ensures
        str_views(r@) =~= add_args_views(*request),
{
    let mut args: Vec<String> = Vec::new();
    args.push("add".to_owned());
    args.push(request.command.clone());
    let ghost seg1 = seq!["add"@, request.command@];
    proof {
        assert(str_views(args@) =~= seg1);
    }
    match &request.group {
        Option::Some(g) => {
            args.push("--group".to_owned());
            args.push(g.clone());
        },
        Option::None => (),
    }
    let ghost seg2 = seg1 + (match &request.group {
        Option::Some(g) => seq!["--group"@, g@],
        Option::None => Seq::empty(),
    });
    proof {
        assert(str_views(args@) =~= seg2);
    }
    match &request.label {
        Option::Some(l) => {
            args.push("--label".to_owned());
            args.push(l.clone());
        },
        Option::None => (),
    }
    let ghost seg3 = seg2 + (match &request.label {
        Option::Some(l) => seq!["--label"@, l@],
        Option::None => Seq::empty(),
    });
    proof {
        assert(str_views(args@) =~= seg3);
    }
    match request.priority {
        Option::Some(p) => {
            args.push("--priority".to_owned());
            args.push(i64_to_string(p as i64));
        },
        Option::None => (),
    }
    let ghost seg4 = seg3 + (match request.priority {
        Option::Some(p) => seq!["--priority"@, dec_rep_signed(p as int)],
        Option::None => Seq::empty(),
    });
    proof {
        assert(str_views(args@) =~= seg4);
    }
    match &request.path {
        Option::Some(p) => {
            args.push("--working-directory".to_owned());
            args.push(p.clone());
        },
        Option::None => (),
    }
    let ghost seg5 = seg4 + (match &request.path {
        Option::Some(p) => seq!["--working-directory"@, p@],
        Option::None => Seq::empty(),
    });
    proof {
        assert(str_views(args@) =~= seg5);
    }
    let stashed: bool = match request.stashed {
        Option::Some(s) => s,
        Option::None => false,
    };
    if stashed {
        args.push("--stashed".to_owned());
    }
    let ghost seg6 = seg5 + (if request.stashed == Option::Some(true) {
        seq!["--stashed"@]
    } else {
        Seq::<Seq<char>>::empty()
    });
    proof {
        assert(str_views(args@) =~= seg6);
    }
    let explicit_no_start: bool = match request.start_immediately {
        Option::Some(s) => !s,
        Option::None => false,
    };
    if explicit_no_start {
        args.push("--start-immediately".to_owned());
        args.push("false".to_owned());
    }
    proof {
        assert(str_views(args@) =~= add_args_views(*request));
    }
    args
}

/// What a finished fallback process left behind, as plain values.
pub struct CliOutcome {
    pub success: bool,
    pub stdout: String,
    pub stderr: String,
}

/// Interpret a fallback process's outcome: on success the trimmed
/// output stream, otherwise the trimmed error stream as the terminal
/// fallback error.
pub fn interpret_cli_output(outcome: &CliOutcome) -> (r: Result<String, BackendError>)
    ensures
        outcome.success ==> (r matches Ok(v) && v@ == trim_spec(outcome.stdout@)),
        !outcome.success ==> (r matches Err(e) && e matches BackendError::Fallback(m) && m@
            == trim_spec(outcome.stderr@)),
{
    if outcome.success {
        Ok(trim_str(outcome.stdout.as_str()))
    } else {
        Err(BackendError::Fallback(trim_str(outcome.stderr.as_str())))
    }
}

/// Whether a text parses as a JSON document; the answer depends on the
/// characters alone.
pub uninterp spec fn json_parses(s: Seq<char>) -> bool;

/// Relies on serde_json's `from_str::<Value>`: whether (and to what)
/// a text parses depends on the characters alone.
#[verifier::external_body]
pub(crate) fn parse_json_value(s: &str) -> (r: Option<serde_json::Value>)
    ensures
        r is Some <==> json_parses(s@),
{
    serde_json::from_str::<serde_json::Value>(s).ok()
}

/// The JSON document an acknowledged fallback query produced: parse the
/// already-trimmed output verbatim, or fail terminally when it is not
/// JSON.
pub fn parse_cli_json(stdout_trimmed: &str) -> (r: Result<serde_json::Value, BackendError>)
    ensures
        json_parses(stdout_trimmed@) <==> r is Ok,
        !json_parses(stdout_trimmed@) ==> (r matches Err(e) && e matches BackendError::Fallback(
            m,
        ) && m@ == "Fallback output was not valid JSON"@),
{
    match parse_json_value(stdout_trimmed) {
        Option::Some(value) => Ok(value),
        Option::None => Err(
            BackendError::Fallback("Fallback output was not valid JSON".to_owned()),
        ),
    }
}

} // verus!
