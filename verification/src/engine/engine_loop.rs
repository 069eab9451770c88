//! The engine loop's decisions about how a task ends.
use vstd::prelude::*;
use crate::engine::completion::is_error;
use crate::engine::metrics::{wrapping_sum, EngineMetrics};
use crate::engine::task::{TaskError, TaskKind};
use crate::json::str_starts_with;

verus! {

/// A message that reports a field missing from the request payload.
pub open spec fn is_missing_field_message(message: Seq<char>) -> bool {
    ||| "missing field:"@.is_prefix_of(message)
    ||| "missing string field:"@.is_prefix_of(message)
    ||| "missing array field:"@.is_prefix_of(message)
}

/// The error a failed non-completion task is answered with: a missing
/// field is the client's fault (400), anything else the server's (500).
pub fn execution_error(message: String) -> (e: TaskError)
    ensures
        is_missing_field_message(message@) ==> is_error(e, 400, message@),
        !is_missing_field_message(message@) ==> is_error(e, 500, message@),
{
    let missing = str_starts_with(message.as_str(), "missing field:") || str_starts_with(
        message.as_str(),
        "missing string field:",
    ) || str_starts_with(message.as_str(), "missing array field:");
    if missing {
        TaskError::invalid_request(message)
    } else {
        TaskError::server(message)
    }
}

/// Who runs a task.
#[derive(Debug, Clone, Copy, PartialEq, Eq, Structural)]
pub enum TaskRoute {
    /// The token loop, for the native and the OpenAI completions.
    Completion,
    Tokenize,
    Detokenize,
    ApplyTemplate,
    /// Routed but not served yet: answered with a `not_implemented` status.
    NotImplemented,
}

/// Where a task of each kind goes.
pub open spec fn task_route_spec(kind: TaskKind) -> TaskRoute {
    match kind {
        TaskKind::Completion | TaskKind::CompletionsOai => TaskRoute::Completion,
        TaskKind::Tokenize => TaskRoute::Tokenize,
        TaskKind::Detokenize => TaskRoute::Detokenize,
        TaskKind::ApplyTemplate => TaskRoute::ApplyTemplate,
        _ => TaskRoute::NotImplemented,
    }
}

/// Where a task goes.
pub fn task_route(kind: TaskKind) -> (r: TaskRoute)
    ensures
        r == task_route_spec(kind),
{
    match kind {
        TaskKind::Completion | TaskKind::CompletionsOai => TaskRoute::Completion,
        TaskKind::Tokenize => TaskRoute::Tokenize,
        TaskKind::Detokenize => TaskRoute::Detokenize,
        TaskKind::ApplyTemplate => TaskRoute::ApplyTemplate,
        _ => TaskRoute::NotImplemented,
    }
}

/// The error a task gets when it was cancelled before it ran, or while
/// it ran: a timeout (504).
pub fn cancelled_error() -> (e: TaskError)
    ensures
        is_error(e, 504, "request cancelled"@),
{
    TaskError::timeout(String::from_str("request cancelled"))
}

/// What the engine does with a task it takes off the queue.
#[derive(Debug, Clone, Copy, PartialEq, Eq, Structural)]
pub enum TaskAction {
    /// The task was cancelled while it waited: answer it with the
    /// cancellation error and count it as cancelled.
    ReplyCancelled,
    /// Run the task where its kind goes.
    Run(TaskRoute),
}

/// Decides what becomes of a task taken off the queue.
pub fn on_task_received(cancelled: bool, kind: TaskKind) -> (a: TaskAction)
    ensures
        cancelled ==> a == TaskAction::ReplyCancelled,
        !cancelled ==> a == TaskAction::Run(task_route_spec(kind)),
{
    if cancelled {
        TaskAction::ReplyCancelled
    } else {
        TaskAction::Run(task_route(kind))
    }
}

/// How a task ended, as far as the counters care.
#[derive(Debug, Clone, Copy, PartialEq, Eq, Structural)]
pub enum TaskOutcome {
    /// Cancelled before it ran.
    CancelledBeforeRun,
    /// A task other than a completion that finished.
    Finished,
    /// A task other than a completion that failed.
    Failed,
    /// A completion that finished, with its prompt and generated token counts.
    CompletionDone { n_prompt: i32, n_decoded: i32 },
    /// A completion that failed; `cancelled` tells whether it was cancelled.
    CompletionFailed { cancelled: bool },
}

/// A token count as added to the totals: a negative one adds nothing.
pub open spec fn token_count(n: i32) -> u64 {
    if n >= 0 {
        n as u64
    } else {
        0
    }
}

/// Counts how a task ended: a cancelled task (before it ran, or a
/// completion that failed because it was cancelled) moves the cancelled
/// counter; a finished task moves the completed counter, and a finished
/// completion adds its prompt and generated tokens; any other failure moves
/// nothing. Counters wrap on overflow.
pub fn record_outcome(metrics: &mut EngineMetrics, outcome: TaskOutcome)
    ensures
        final(metrics).enqueued_tasks == old(metrics).enqueued_tasks,
        final(metrics).completed_tasks == match outcome {
            TaskOutcome::Finished | TaskOutcome::CompletionDone { .. } => wrapping_sum(
                old(metrics).completed_tasks,
                1,
            ),
            _ => old(metrics).completed_tasks,
        },
        final(metrics).cancelled_tasks == match outcome {
            TaskOutcome::CancelledBeforeRun | TaskOutcome::CompletionFailed { cancelled: true } =>
                wrapping_sum(old(metrics).cancelled_tasks, 1),
            _ => old(metrics).cancelled_tasks,
        },
        final(metrics).prompt_tokens_total == match outcome {
            TaskOutcome::CompletionDone { n_prompt, .. } => wrapping_sum(
                old(metrics).prompt_tokens_total,
                token_count(n_prompt),
            ),
            _ => old(metrics).prompt_tokens_total,
        },
        final(metrics).tokens_predicted_total == match outcome {
            TaskOutcome::CompletionDone { n_decoded, .. } => wrapping_sum(
                old(metrics).tokens_predicted_total,
                token_count(n_decoded),
            ),
            _ => old(metrics).tokens_predicted_total,
        },
{
    match outcome {
        TaskOutcome::CancelledBeforeRun => metrics.inc_cancelled(),
        TaskOutcome::Finished => metrics.inc_completed(),
        TaskOutcome::Failed => {},
        TaskOutcome::CompletionDone { n_prompt, n_decoded } => {
            let p: u64 = if n_prompt >= 0 {
                n_prompt as u64
            } else {
                0
            };
            let d: u64 = if n_decoded >= 0 {
                n_decoded as u64
            } else {
                0
            };
            metrics.add_prompt_tokens(p);
            metrics.add_predicted_tokens(d);
            metrics.inc_completed();
        },
        TaskOutcome::CompletionFailed { cancelled } => {
            if cancelled {
                metrics.inc_cancelled();
            }
        },
    }
}

} // verus!
