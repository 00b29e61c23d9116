use nn_rust_verified::generation::{
    accept_position_check, advance_check, GenerationError, GreedyAction, GreedyRun,
};

#[test]
fn generation_needs_a_prefilled_prompt() {
    assert_eq!(
        GreedyRun::start(false, 4, 1, None, 3, 16).err(),
        Some(GenerationError::NotPrefilled)
    );
    assert_eq!(
        GenerationError::NotPrefilled.message(),
        "runtime must be prefilled before generation"
    );
}

#[test]
fn top_k_is_at_least_one_and_zero_steps_finish_at_once() {
    let (run, action) = GreedyRun::start(true, 2, 0, None, 3, 16).unwrap();
    assert_eq!(run.top_k, 1);
    assert_eq!(action, GreedyAction::PickToken { top_k: 1 });
    let (_, action) = GreedyRun::start(true, 0, 5, None, 3, 16).unwrap();
    assert_eq!(action, GreedyAction::Finish);
}

#[test]
fn greedy_run_stops_at_the_stop_token_or_after_the_last_step() {
    let (mut run, _) = GreedyRun::start(true, 5, 2, Some(7), 3, 16).unwrap();
    assert_eq!(run.on_token(4), Ok((0, GreedyAction::PickToken { top_k: 2 })));
    assert_eq!(run.on_token(7), Ok((1, GreedyAction::Finish)));
    assert_eq!(run.position, 5);

    let (mut run, _) = GreedyRun::start(true, 2, 1, None, 0, 16).unwrap();
    assert_eq!(run.on_token(9), Ok((0, GreedyAction::PickToken { top_k: 1 })));
    assert_eq!(run.on_token(9), Ok((1, GreedyAction::Finish)));
    assert_eq!(run.steps, 2);
}

#[test]
fn a_full_sequence_refuses_tokens() {
    let (mut run, _) = GreedyRun::start(true, 3, 1, None, 4, 4).unwrap();
    let before = run;
    let err = run.on_token(1).unwrap_err();
    assert_eq!(err, GenerationError::SequenceFull { position: 4, max_seq_len: 4 });
    assert_eq!(run, before);
    assert_eq!(err.message(), "cannot append token at position 4; runtime max_seq_len is 4");
    assert_eq!(accept_position_check(3, 4), Ok(()));
    assert_eq!(advance_check(false, 0, 4), Err(GenerationError::LogitsNotReady));
    assert_eq!(advance_check(true, 4, 4).unwrap_err().message(), "cannot append token at position 4; runtime max_seq_len is 4");
}
