//! The host-side decisions of greedy generation: when generation may start, how many
//! candidates each step reports, when a token may be appended, and when the loop ends.
//! The caller runs the device work each action asks for and hands back the token that
//! the device picked.
use vstd::prelude::*;

use crate::profile_json::{decimal, push_decimal};
use crate::text::push_str;

verus! {

/// Why a generation step was refused.
#[derive(Debug, Clone, Copy, PartialEq, Eq, Structural)]
pub enum GenerationError {
    /// Generation was asked for before a prompt was prefilled.
    NotPrefilled,
    /// A token was appended while no next-token logits were ready.
    LogitsNotReady,
    /// The sequence already holds `max_seq_len` tokens.
    SequenceFull { position: usize, max_seq_len: usize },
}

/// The sentence that describes a refused generation step.
pub open spec fn generation_error_message(e: GenerationError) -> Seq<char> {
    match e {
        GenerationError::NotPrefilled => "runtime must be prefilled before generation"@,
        GenerationError::LogitsNotReady => "runtime must have next-token logits ready before advancing"@,
        GenerationError::SequenceFull { position, max_seq_len } => "cannot append token at position "@
            + decimal(position as nat) + "; runtime max_seq_len is "@ + decimal(max_seq_len as nat),
    }
}

impl GenerationError {
    /// The error as a sentence.
    pub fn message(&self) -> (r: String)
        ensures
            r@ == generation_error_message(*self),
    {
        let mut out = String::new();
        match *self {
            GenerationError::NotPrefilled => {
                push_str(&mut out, "runtime must be prefilled before generation");
            },
            GenerationError::LogitsNotReady => {
                push_str(&mut out, "runtime must have next-token logits ready before advancing");
            },
            GenerationError::SequenceFull { position, max_seq_len } => {
                push_str(&mut out, "cannot append token at position ");
                push_decimal(&mut out, position as u128);
                push_str(&mut out, "; runtime max_seq_len is ");
                push_decimal(&mut out, max_seq_len as u128);
            },
        }
        out
    }
}

/// A token may be appended at `position` when the sequence is not yet full.
pub fn accept_position_check(position: usize, max_seq_len: usize) -> (r: Result<(), GenerationError>)
    ensures
        r == (if position >= max_seq_len {
            Err(GenerationError::SequenceFull { position, max_seq_len })
        } else {
            Ok::<(), GenerationError>(())
        }),
{
    if position >= max_seq_len {
        return Err(GenerationError::SequenceFull { position, max_seq_len });
    }
    Ok(())
}

/// Advancing with a token of the caller's choosing needs next-token logits and room
/// for one more token.
pub fn advance_check(logits_ready: bool, position: usize, max_seq_len: usize) -> (r: Result<(), GenerationError>)
    ensures
        r == (if !logits_ready {
            Err(GenerationError::LogitsNotReady)
        } else if position >= max_seq_len {
            Err(GenerationError::SequenceFull { position, max_seq_len })
        } else {
            Ok::<(), GenerationError>(())
        }),
{
    if !logits_ready {
        return Err(GenerationError::LogitsNotReady);
    }
    accept_position_check(position, max_seq_len)
}

/// What the caller does next in a greedy run.
#[derive(Debug, Clone, Copy, PartialEq, Eq, Structural)]
pub enum GreedyAction {
    /// Read the `top_k` best next tokens from the current logits and hand back the best.
    PickToken { top_k: usize },
    /// The run is over.
    Finish,
}

/// A greedy generation run: the limits it was started with, the steps taken and the
/// number of tokens in the sequence.
#[derive(Debug, Clone, Copy, PartialEq, Eq, Structural)]
pub struct GreedyRun {
    pub max_new_tokens: usize,
    pub top_k: usize,
    pub stop_token_id: Option<u32>,
    pub max_seq_len: usize,
    pub steps: usize,
    pub position: usize,
    pub done: bool,
}

/// The number of candidates each step reports: at least one.
pub open spec fn reported_top_k(top_k: usize) -> usize {
    if top_k == 0 {
        1
    } else {
        top_k
    }
}

/// The action a run in state `run` asks for.
pub open spec fn next_action(run: GreedyRun) -> GreedyAction {
    if run.done {
        GreedyAction::Finish
    } else {
        GreedyAction::PickToken { top_k: run.top_k }
    }
}

/// The run is consistent: it never takes more than `max_new_tokens` steps, and it
/// is over once it has taken them all.
pub open spec fn run_wf(run: GreedyRun) -> bool {
    &&& run.steps <= run.max_new_tokens
    &&& run.steps == run.max_new_tokens ==> run.done
    &&& run.top_k >= 1
}

impl GreedyRun {
    /// Starts greedy generation over a sequence of `position` tokens: refused until a
    /// prompt has been prefilled; a run of zero steps is over at once.
    pub fn start(
        logits_ready: bool,
        max_new_tokens: usize,
        top_k: usize,
        stop_token_id: Option<u32>,
        position: usize,
        max_seq_len: usize,
    ) -> (r: Result<(GreedyRun, GreedyAction), GenerationError>)
        ensures
            !logits_ready ==> r == Err::<(GreedyRun, GreedyAction), GenerationError>(GenerationError::NotPrefilled),
            logits_ready ==> (r matches Ok((run, action)) && run == (GreedyRun {
                max_new_tokens,
                top_k: reported_top_k(top_k),
                stop_token_id,
                max_seq_len,
                steps: 0,
                position,
                done: max_new_tokens == 0,
            }) && action == next_action(run) && run_wf(run)),
    {
        if !logits_ready {
            return Err(GenerationError::NotPrefilled);
        }
        let reported = if top_k == 0 {
            1
        } else {
            top_k
        };
        let run = GreedyRun {
            max_new_tokens,
            top_k: reported,
            stop_token_id,
            max_seq_len,
            steps: 0,
            position,
            done: max_new_tokens == 0,
        };
        let action = if run.done {
            GreedyAction::Finish
        } else {
            GreedyAction::PickToken { top_k: reported }
        };
        Ok((run, action))
    }

    /// Takes the token the device picked: refused when the sequence is full;
    /// otherwise the token is step `steps` of the run, the sequence grows by one, and
    /// the run ends at the stop token or after its last step. Returns the step's index
    /// and the next action.
    pub fn on_token(&mut self, token_id: u32) -> (r: Result<(usize, GreedyAction), GenerationError>)
        requires
            run_wf(*old(self)),
            !old(self).done,
        ensures
            old(self).position >= old(self).max_seq_len ==> r == Err::<(usize, GreedyAction), GenerationError>(
                GenerationError::SequenceFull {
                    position: old(self).position,
                    max_seq_len: old(self).max_seq_len,
                },
            ) && *final(self) == *old(self),
            old(self).position < old(self).max_seq_len ==> *final(self) == (GreedyRun {
                steps: (old(self).steps + 1) as usize,
                position: (old(self).position + 1) as usize,
                done: old(self).stop_token_id == Some(token_id) || old(self).steps + 1 == old(self).max_new_tokens,
                ..*old(self)
            }) && r == Ok::<(usize, GreedyAction), GenerationError>((old(self).steps, next_action(*final(self))))
                && run_wf(*final(self)),
    {
        match accept_position_check(self.position, self.max_seq_len) {
            Err(e) => {
                return Err(e);
            },
            Ok(()) => {},
        }
        let step = self.steps;
        self.steps = self.steps + 1;
        self.position = self.position + 1;
        self.done = self.stop_token_id == Some(token_id) || self.steps == self.max_new_tokens;
        let action = if self.done {
            GreedyAction::Finish
        } else {
            GreedyAction::PickToken { top_k: self.top_k }
        };
        Ok((step, action))
    }
}

} // verus!
