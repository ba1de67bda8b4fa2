//! Caller-facing requests, their validation, and the translation into
//! protocol commands.
//!
//! The bridge accepts REST-level requests, validates them, and decides
//! which protocol command the daemon should receive — or which error to
//! report without touching the daemon at all.  The network exchange
//! itself happens outside the library; these functions are the
//! decisions around it.

use vstd::prelude::*;
use vstd::string::StringExecFns;
use crate::snapshot::{Snapshot, TaskRecord};
use crate::text::{dec_rep, trim_spec, trim_str, str_eq, trimmed_is_empty, u64_to_string};

verus! {

/// A request to enqueue one task.
pub struct AddTaskRequest {
    pub command: String,
    pub group: Option<String>,
    pub start_immediately: Option<bool>,
    pub stashed: Option<bool>,
    pub priority: Option<i32>,
    pub label: Option<String>,
    pub path: Option<String>,
}

/// A request to add, remove or list task groups.
pub struct GroupActionRequest {
    pub action: String,
    pub name: String,
    pub parallel_tasks: Option<usize>,
}

/// Why a bridge operation failed.
#[derive(Debug)]
pub enum BackendError {
    /// The configuration could not be read at construction.
    Config(String),
    /// The connection or handshake to the daemon failed.
    Transport(String),
    /// The daemon answered, but not with what the operation expected.
    Protocol(String),
    /// The caller's input violates a precondition; never retried.
    Validation(String),
    /// The caller named an action the bridge does not know.
    UnsupportedAction(String),
    /// The command-line path failed as well; terminal.
    Fallback(String),
}

impl BackendError {
    /// The human-readable message the caller sees.
    pub fn message(&self) -> (r: &str)
        ensures
            r@ == self.spec_message(),
    {
        match self {
            BackendError::Config(m) => m.as_str(),
            BackendError::Transport(m) => m.as_str(),
            BackendError::Protocol(m) => m.as_str(),
            BackendError::Validation(m) => m.as_str(),
            BackendError::UnsupportedAction(m) => m.as_str(),
            BackendError::Fallback(m) => m.as_str(),
        }
    }

    /// The message carried by any variant.
    pub open spec fn spec_message(&self) -> Seq<char> {
        match self {
            BackendError::Config(m) => m@,
            BackendError::Transport(m) => m@,
            BackendError::Protocol(m) => m@,
            BackendError::Validation(m) => m@,
            BackendError::UnsupportedAction(m) => m@,
            BackendError::Fallback(m) => m@,
        }
    }
}

/// Whether a failed primary call should be retried over the
/// command-line path: only when the toggle allows it, and only for the
/// transport and protocol failures; validation and unsupported-action
/// errors bypass the fallback entirely, and a fallback or configuration
/// failure is terminal.
pub fn should_try_fallback(err: &BackendError, fallback_enabled: bool) -> (r: bool)
    ensures
        r == (fallback_enabled && (err matches BackendError::Transport(_) || err matches
            BackendError::Protocol(_))),
{
    if !fallback_enabled {
        return false;
    }
    match err {
        BackendError::Transport(_) => true,
        BackendError::Protocol(_) => true,
        _ => false,
    }
}

/// The protocol commands the bridge sends; the transport layer maps
/// them one-to-one onto the daemon's wire messages.
pub enum ProtocolRequest {
    Start { task_id: u64 },
    Pause { task_id: u64, wait: bool },
    Kill { task_id: u64 },
    Remove { task_id: u64 },
    Restart {
        task_id: u64,
        original_command: String,
        path: String,
        label: Option<String>,
        priority: Option<i64>,
        start_immediately: bool,
        stashed: bool,
    },
    GroupAdd { name: String, parallel_tasks: Option<usize> },
    GroupRemove { name: String },
    GroupList,
}

/// The first task of the row whose identifier has the given characters.
pub open spec fn find_task(tasks: Seq<(String, TaskRecord)>, idc: Seq<char>) -> Option<
    TaskRecord,
>
    decreases tasks.len(),
{
    if tasks.len() == 0 {
        Option::None
    } else if tasks[0].0@ == idc {
        Option::Some(tasks[0].1)
    } else {
        find_task(tasks.drop_first(), idc)
    }
}

/// Whether the action requires the daemon's state to be fetched first;
/// restarting is the only read-before-write action.
pub fn action_needs_state(action: &str) -> (r: bool)
    ensures
        r == (action@ == "restart"@),
{
    str_eq(action, "restart")
}

fn lookup_task<'a>(tasks: &'a Vec<(String, TaskRecord)>, idc: &str) -> (r: Option<
    &'a TaskRecord,
>)
    ensures
        match r {
            Option::Some(task) => find_task(tasks@, idc@) == Option::Some(*task),
            Option::None => find_task(tasks@, idc@) is None,
        },
{
    let n = tasks.len();
    let mut i: usize = 0;
    proof {
        assert(tasks@.skip(0) =~= tasks@);
    }
    while i < n
        invariant
            n == tasks@.len(),
            i <= n,
            find_task(tasks@, idc@) == find_task(tasks@.skip(i as int), idc@),
        decreases n - i,
    {
        let entry = &tasks[i];
        proof {
            assert(tasks@.skip(i as int)[0] == tasks@[i as int]);
            assert(tasks@.skip(i as int).drop_first() =~= tasks@.skip(i as int + 1));
        }
        if str_eq(entry.0.as_str(), idc) {
            return Some(&entry.1);
        }
        i = i + 1;
    }
    proof {
        assert(tasks@.skip(n as int).len() == 0);
    }
    None
}

proof fn lemma_actions_distinct()
    ensures
        "start"@ != "pause"@,
        "start"@ != "resume"@,
        "start"@ != "kill"@,
        "start"@ != "remove"@,
        "start"@ != "restart"@,
        "resume"@ != "pause"@,
        "resume"@ != "kill"@,
        "resume"@ != "remove"@,
        "resume"@ != "restart"@,
        "pause"@ != "kill"@,
        "pause"@ != "remove"@,
        "pause"@ != "restart"@,
        "kill"@ != "remove"@,
        "kill"@ != "restart"@,
        "remove"@ != "restart"@,
{
    reveal_strlit("start");
    reveal_strlit("resume");
    reveal_strlit("pause");
    reveal_strlit("kill");
    reveal_strlit("remove");
    reveal_strlit("restart");
    assert("start"@.len() == 5);
    assert("resume"@.len() == 6);
    assert("pause"@.len() == 5);
    assert("kill"@.len() == 4);
    assert("remove"@.len() == 6);
    assert("restart"@.len() == 7);
    assert("start"@[0] == 's');
    assert("pause"@[0] == 'p');
    assert("resume"@[2] == 's');
    assert("remove"@[2] == 'm');
}

/// Map a REST action name onto the protocol command for one task.
/// `start` and `resume` are synonyms; `pause` never waits; `kill` sends
/// the default signal; `restart` copies the task's recorded command,
/// path, label and priority from the supplied state (fields the record
/// does not carry are sent empty) and always starts immediately,
/// unstashed.  Without state, or without the task, restarting fails as
/// a protocol error; an unknown name fails as an unsupported action.
pub fn map_action_request(action: &str, task_id: u64, state: Option<&Snapshot>) -> (r: Result<
    ProtocolRequest,
    BackendError,
>)
    ensures
        (action@ == "start"@ || action@ == "resume"@) ==> (r matches Ok(pr) && pr matches
            ProtocolRequest::Start { task_id: t } && t == task_id),
        action@ == "pause"@ ==> (r matches Ok(pr) && pr matches ProtocolRequest::Pause {
            task_id: t,
            wait,
        } && t == task_id && !wait),
        action@ == "kill"@ ==> (r matches Ok(pr) && pr matches ProtocolRequest::Kill {
            task_id: t,
        } && t == task_id),
        action@ == "remove"@ ==> (r matches Ok(pr) && pr matches ProtocolRequest::Remove {
            task_id: t,
        } && t == task_id),
        action@ == "restart"@ ==> (match state {
            Option::Some(snap) => match find_task(snap.tasks@, dec_rep(task_id as nat)) {
                Option::Some(task) => r matches Ok(pr) && pr matches ProtocolRequest::Restart {
                    task_id: t,
                    original_command,
                    path,
                    label,
                    priority,
                    start_immediately,
                    stashed,
                } && t == task_id && original_command@ == (match task.original_command {
                    Option::Some(c) => c@,
                    Option::None => Seq::<char>::empty(),
                }) && path@ == (match task.path {
                    Option::Some(p) => p@,
                    Option::None => Seq::<char>::empty(),
                }) && label == task.label && priority == task.priority && start_immediately
                    && !stashed,
                Option::None => r matches Err(e) && e matches BackendError::Protocol(m) && m@
                    == "Task not found"@,
            },
            Option::None => r matches Err(e) && e matches BackendError::Protocol(m) && m@
                == "Missing state for restart"@,
        }),
        !(action@ == "start"@ || action@ == "resume"@ || action@ == "pause"@ || action@
            == "kill"@ || action@ == "remove"@ || action@ == "restart"@) ==> (r matches Err(e)
            && e matches BackendError::UnsupportedAction(m) && m@ == "Unsupported action: "@
            + action@),
{
    proof {
        lemma_actions_distinct();
    }
    if str_eq(action, "start") || str_eq(action, "resume") {
        Ok(ProtocolRequest::Start { task_id })
    } else if str_eq(action, "pause") {
        Ok(ProtocolRequest::Pause { task_id, wait: false })
    } else if str_eq(action, "kill") {
        Ok(ProtocolRequest::Kill { task_id })
    } else if str_eq(action, "remove") {
        Ok(ProtocolRequest::Remove { task_id })
    } else if str_eq(action, "restart") {
        let snap = match state {
            Option::Some(s) => s,
            Option::None => {
                return Err(
                    BackendError::Protocol("Missing state for restart".to_owned()),
                );
            },
        };
        let id_text = u64_to_string(task_id);
        let task = match lookup_task(&snap.tasks, id_text.as_str()) {
            Option::Some(t) => t,
            Option::None => {
                return Err(BackendError::Protocol("Task not found".to_owned()));
            },
        };
        let original_command: String = match &task.original_command {
            Option::Some(c) => c.clone(),
            Option::None => String::new(),
        };
        let path: String = match &task.path {
            Option::Some(p) => p.clone(),
            Option::None => String::new(),
        };
        let label: Option<String> = match &task.label {
            Option::Some(l) => Some(l.clone()),
            Option::None => None,
        };
        Ok(
            ProtocolRequest::Restart {
                task_id,
                original_command,
                path,
                label,
                priority: task.priority,
                start_immediately: true,
                stashed: false,
            },
        )
    } else {
        let mut message: String = "Unsupported action: ".to_owned();
        message.append(action);
        Err(BackendError::UnsupportedAction(message))
    }
}

/// Validate a group request and map it onto the protocol command.  The
/// name is trimmed; an empty name, or removing the default group, fails
/// validation before any transport is touched; an unknown action is
/// unsupported.
pub fn plan_group_action(request: &GroupActionRequest) -> (r: Result<
    ProtocolRequest,
    BackendError,
>)
    ensures
        trim_spec(request.name@).len() == 0 ==> (r matches Err(e) && e matches
            BackendError::Validation(m) && m@ == "Group name is required"@),
        (trim_spec(request.name@).len() > 0 && trim_spec(request.name@) == "default"@
            && request.action@ == "remove"@) ==> (r matches Err(e) && e matches
            BackendError::Validation(m) && m@ == "Default group cannot be removed"@),
        (trim_spec(request.name@).len() > 0 && !(trim_spec(request.name@) == "default"@
            && request.action@ == "remove"@)) ==> (if request.action@ == "add"@ {
            r matches Ok(pr) && pr matches ProtocolRequest::GroupAdd { name, parallel_tasks }
                && name@ == trim_spec(request.name@) && parallel_tasks
                == request.parallel_tasks
        } else if request.action@ == "remove"@ {
            r matches Ok(pr) && pr matches ProtocolRequest::GroupRemove { name } && name@
                == trim_spec(request.name@)
        } else if request.action@ == "list"@ {
            r matches Ok(pr) && pr is GroupList
        } else {
            r matches Err(e) && e matches BackendError::UnsupportedAction(m) && m@
                == "Unsupported group action"@
        }),
{
    let name = trim_str(request.name.as_str());
    if name.as_str().is_empty() {
        return Err(BackendError::Validation("Group name is required".to_owned()));
    }
    if str_eq(name.as_str(), "default") && str_eq(request.action.as_str(), "remove") {
        return Err(BackendError::Validation("Default group cannot be removed".to_owned()));
    }
    if str_eq(request.action.as_str(), "add") {
        Ok(ProtocolRequest::GroupAdd { name, parallel_tasks: request.parallel_tasks })
    } else if str_eq(request.action.as_str(), "remove") {
        Ok(ProtocolRequest::GroupRemove { name })
    } else if str_eq(request.action.as_str(), "list") {
        Ok(ProtocolRequest::GroupList)
    } else {
        Err(BackendError::UnsupportedAction("Unsupported group action".to_owned()))
    }
}

/// An add request with every default resolved, ready for the wire.
pub struct ResolvedAddTask {
    pub command: String,
    pub path: String,
    pub start_immediately: bool,
    pub stashed: bool,
    pub group: String,
    pub priority: Option<i32>,
    pub label: Option<String>,
}

/// Validate an add request and resolve its defaults: a command that is
/// empty after trimming fails validation before any transport is
/// touched; the group defaults to `default`; `stashed` defaults to
/// false and `start_immediately` to its negation; the working directory
/// is the request's path, else the environment's default, else the
/// current directory, in that order.
pub fn resolve_add_task(
    request: &AddTaskRequest,
    env_default_path: Option<String>,
    current_dir: String,
) -> (r: Result<ResolvedAddTask, BackendError>)
    ensures
        trim_spec(request.command@).len() == 0 ==> (r matches Err(e) && e matches
            BackendError::Validation(m) && m@ == "Missing command"@),
        trim_spec(request.command@).len() > 0 ==> (r matches Ok(resolved) && {
            &&& resolved.command@ == request.command@
            &&& resolved.group@ == (match request.group {
                Option::Some(g) => g@,
                Option::None => "default"@,
            })
            &&& resolved.stashed == (match request.stashed {
                Option::Some(s) => s,
                Option::None => false,
            })
            &&& resolved.start_immediately == (match request.start_immediately {
                Option::Some(s) => s,
                Option::None => !(match request.stashed {
                    Option::Some(s) => s,
                    Option::None => false,
                }),
            })
            &&& resolved.path@ == (match request.path {
                Option::Some(p) => p@,
                Option::None => match env_default_path {
                    Option::Some(d) => d@,
                    Option::None => current_dir@,
                },
            })
            &&& resolved.priority == request.priority
            &&& resolved.label == request.label
        }),
{
    if trimmed_is_empty(request.command.as_str()) {
        return Err(BackendError::Validation("Missing command".to_owned()));
    }
    let group: String = match &request.group {
        Option::Some(g) => g.clone(),
        Option::None => "default".to_owned(),
    };
    let stashed: bool = match request.stashed {
        Option::Some(s) => s,
        Option::None => false,
    };
    let start_immediately: bool = match request.start_immediately {
        Option::Some(s) => s,
        Option::None => !stashed,
    };
    let path: String = match &request.path {
        Option::Some(p) => p.clone(),
        Option::None => match env_default_path {
            Option::Some(d) => d,
            Option::None => current_dir,
        },
    };
    let label: Option<String> = match &request.label {
        Option::Some(l) => Some(l.clone()),
        Option::None => None,
    };
    Ok(
        ResolvedAddTask {
            command: request.command.clone(),
            path,
            start_immediately,
            stashed,
            group,
            priority: request.priority,
            label,
        },
    )
}

/// What the daemon sent back, reduced to plain values: an
/// acknowledgement, a reported failure, or something the operation did
/// not expect (its rendering).
pub enum DaemonReply {
    Success(String),
    Failure(String),
    Other(String),
}

/// Interpret a reply to a command that expects a plain
/// acknowledgement: a success yields its message; a reported failure
/// and an unexpected reply are protocol errors.
pub fn expect_success(reply: DaemonReply) -> (r: Result<String, BackendError>)
    ensures
        reply matches DaemonReply::Success(t) ==> (r matches Ok(v) && v@ == t@),
        reply matches DaemonReply::Failure(t) ==> (r matches Err(e) && e matches
            BackendError::Protocol(m) && m@ == t@),
        reply matches DaemonReply::Other(d) ==> (r matches Err(e) && e matches
            BackendError::Protocol(m) && m@ == "Unexpected response: "@ + d@),
{
    match reply {
        DaemonReply::Success(t) => Ok(t),
        DaemonReply::Failure(t) => Err(BackendError::Protocol(t)),
        DaemonReply::Other(d) => {
            let mut message: String = "Unexpected response: ".to_owned();
            message.append(d.as_str());
            Err(BackendError::Protocol(message))
        },
    }
}

/// The two callback settings the configuration endpoint may change.
pub struct CallbackSettings {
    pub callback: Option<String>,
    pub callback_log_lines: usize,
}

/// Apply a configuration update: a supplied callback replaces the old
/// one, trimmed, with a blank text clearing it; a supplied line count
/// replaces the old one; absent fields leave the setting alone.
pub fn apply_callback_update(
    current: CallbackSettings,
    callback: Option<String>,
    callback_log_lines: Option<usize>,
) -> (r: CallbackSettings)
    ensures
        (match callback {
            Option::Some(c) => {
                if trim_spec(c@).len() == 0 {
                    r.callback is None
                } else {
                    r.callback matches Option::Some(t) && t@ == trim_spec(c@)
                }
            },
            Option::None => r.callback == current.callback,
        }),
        r.callback_log_lines == (match callback_log_lines {
            Option::Some(lines) => lines,
            Option::None => current.callback_log_lines,
        }),
{
    let new_callback: Option<String> = match callback {
        Option::Some(c) => {
            let trimmed = trim_str(c.as_str());
            if trimmed.as_str().is_empty() {
                None
            } else {
                Some(trimmed)
            }
        },
        Option::None => current.callback,
    };
    let new_lines: usize = match callback_log_lines {
        Option::Some(lines) => lines,
        Option::None => current.callback_log_lines,
    };
    CallbackSettings { callback: new_callback, callback_log_lines: new_lines }
}

/// The process-wide marker that the command-line fallback has been
/// taken at least once; it gates the one-time warning.
pub struct FallbackWarnFlag {
    pub used: bool,
}

impl FallbackWarnFlag {
    /// A fresh flag: the warning has not been emitted.
    pub fn new() -> (r: FallbackWarnFlag)
        ensures
            !r.used,
    {
        FallbackWarnFlag { used: false }
    }
}

/// Record that the fallback was taken and say whether the warning is
/// owed: true exactly on the first call, and the flag never resets.
pub fn log_cli_fallback_once(flag: &mut FallbackWarnFlag) -> (emit: bool)
    ensures
        final(flag).used,
        emit == !old(flag).used,
{
    let emit = !flag.used;
    flag.used = true;
    emit
}

/// How many warnings a run of fallback notes emits, starting from a
/// flag in the given state.
pub open spec fn warn_emissions(initial_used: bool, calls: nat) -> nat
    decreases calls,
{
    if calls == 0 {
        0
    } else {
        (if initial_used {
            0nat
        } else {
            1nat
        }) + warn_emissions(true, (calls - 1) as nat)
    }
}

proof fn lemma_no_warn_when_used(calls: nat)
    ensures
        warn_emissions(true, calls) == 0,
    decreases calls,
{
    if calls > 0 {
        lemma_no_warn_when_used((calls - 1) as nat);
    }
}

/// However many consecutive fallbacks a fresh process takes, the
/// warning is emitted exactly once.
pub proof fn lemma_warn_emitted_once(calls: nat)
    requires
        calls >= 1,
    ensures
        warn_emissions(false, calls) == 1,
{
    lemma_no_warn_when_used((calls - 1) as nat);
}

} // verus!
