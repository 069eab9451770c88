//! Counters of the tasks the engine has seen and the tokens it has processed.
use vstd::prelude::*;

verus! {

/// `a + n` modulo 2^64, as a counter that wraps on overflow computes it.
pub open spec fn wrapping_sum(a: u64, n: u64) -> u64 {
    if a + n > u64::MAX {
        (a + n - 0x1_0000_0000_0000_0000) as u64
    } else {
        (a + n) as u64
    }
}

fn wrapping_add_u64(a: u64, n: u64) -> (r: u64)
    ensures
        r == wrapping_sum(a, n),
{
    if a > u64::MAX - n {
        n - (u64::MAX - a) - 1
    } else {
        a + n
    }
}

/// Counters of the engine's work. Each counter wraps on overflow.
pub struct EngineMetrics {
    pub enqueued_tasks: u64,
    pub completed_tasks: u64,
    pub cancelled_tasks: u64,
    pub prompt_tokens_total: u64,
    pub tokens_predicted_total: u64,
}

impl Default for EngineMetrics {
    fn default() -> (m: Self)
        ensures
            m.enqueued_tasks == 0,
            m.completed_tasks == 0,
            m.cancelled_tasks == 0,
            m.prompt_tokens_total == 0,
            m.tokens_predicted_total == 0,
    {
        EngineMetrics {
            enqueued_tasks: 0,
            completed_tasks: 0,
            cancelled_tasks: 0,
            prompt_tokens_total: 0,
            tokens_predicted_total: 0,
        }
    }
}

impl EngineMetrics {
    /// Counts a task put on the queue.
    pub fn inc_enqueued(&mut self)
        ensures
            final(self).enqueued_tasks == wrapping_sum(old(self).enqueued_tasks, 1),
            final(self).completed_tasks == old(self).completed_tasks,
            final(self).cancelled_tasks == old(self).cancelled_tasks,
            final(self).prompt_tokens_total == old(self).prompt_tokens_total,
            final(self).tokens_predicted_total == old(self).tokens_predicted_total,
    {
        self.enqueued_tasks = wrapping_add_u64(self.enqueued_tasks, 1);
    }

    /// Counts a task that finished.
    pub fn inc_completed(&mut self)
        ensures
            final(self).enqueued_tasks == old(self).enqueued_tasks,
            final(self).completed_tasks == wrapping_sum(old(self).completed_tasks, 1),
            final(self).cancelled_tasks == old(self).cancelled_tasks,
            final(self).prompt_tokens_total == old(self).prompt_tokens_total,
            final(self).tokens_predicted_total == old(self).tokens_predicted_total,
    {
        self.completed_tasks = wrapping_add_u64(self.completed_tasks, 1);
    }

    /// Counts a task that was cancelled.
    pub fn inc_cancelled(&mut self)
        ensures
            final(self).enqueued_tasks == old(self).enqueued_tasks,
            final(self).completed_tasks == old(self).completed_tasks,
            final(self).cancelled_tasks == wrapping_sum(old(self).cancelled_tasks, 1),
            final(self).prompt_tokens_total == old(self).prompt_tokens_total,
            final(self).tokens_predicted_total == old(self).tokens_predicted_total,
    {
        self.cancelled_tasks = wrapping_add_u64(self.cancelled_tasks, 1);
    }

    /// Adds the prompt tokens of a finished completion.
    pub fn add_prompt_tokens(&mut self, n: u64)
        ensures
            final(self).enqueued_tasks == old(self).enqueued_tasks,
            final(self).completed_tasks == old(self).completed_tasks,
            final(self).cancelled_tasks == old(self).cancelled_tasks,
            final(self).prompt_tokens_total == wrapping_sum(old(self).prompt_tokens_total, n),
            final(self).tokens_predicted_total == old(self).tokens_predicted_total,
    {
        self.prompt_tokens_total = wrapping_add_u64(self.prompt_tokens_total, n);
    }

    /// Adds the tokens a finished completion generated.
    pub fn add_predicted_tokens(&mut self, n: u64)
        ensures
            final(self).enqueued_tasks == old(self).enqueued_tasks,
            final(self).completed_tasks == old(self).completed_tasks,
            final(self).cancelled_tasks == old(self).cancelled_tasks,
            final(self).prompt_tokens_total == old(self).prompt_tokens_total,
            final(self).tokens_predicted_total == wrapping_sum(old(self).tokens_predicted_total, n),
    {
        self.tokens_predicted_total = wrapping_add_u64(self.tokens_predicted_total, n);
    }

    /// `(enqueued, completed, cancelled)`.
    pub fn snapshot(&self) -> (r: (u64, u64, u64))
        ensures
            r == (self.enqueued_tasks, self.completed_tasks, self.cancelled_tasks),
    {
        (self.enqueued_tasks, self.completed_tasks, self.cancelled_tasks)
    }

    /// `(prompt tokens, predicted tokens)`.
    pub fn token_snapshot(&self) -> (r: (u64, u64))
        ensures
            r == (self.prompt_tokens_total, self.tokens_predicted_total),
    {
        (self.prompt_tokens_total, self.tokens_predicted_total)
    }
}

} // verus!
