use liara_core::window::{decode_step, fit_window, hit_stop, reuse_prefix, DecodeStep};

const S: i32 = 1; // turn start
const E: i32 = 2; // turn end

#[test]
fn short_prompt_is_kept_whole() {
    let t = vec![S, 10, E, S, 11, E];
    assert_eq!(fit_window(&t, 64, &vec![E], &vec![S]), t);
}

#[test]
fn long_prompt_keeps_system_turn_and_last_whole_turns() {
    let t = vec![S, 10, E, S, 11, E, S, 12, E, S, 13, E];
    // head = the first turn (3 tokens); tail = 3 tokens, starting at a turn start
    assert_eq!(fit_window(&t, 6, &vec![E], &vec![S]), vec![S, 10, E, S, 13, E]);
    // a tail that would start mid-turn moves to the next turn start
    assert_eq!(fit_window(&t, 7, &vec![E], &vec![S]), vec![S, 10, E, S, 13, E]);
}

#[test]
fn without_markers_the_head_is_a_third() {
    let t: Vec<i32> = (100..130).collect();
    let w = fit_window(&t, 9, &vec![E], &vec![S]);
    assert_eq!(w, vec![100, 101, 102, 124, 125, 126, 127, 128, 129]);
    assert!(w.len() <= 9);
}

#[test]
fn kv_prefix_reuse() {
    assert_eq!(reuse_prefix(&vec![1, 2, 3], &vec![1, 2, 4]), 2);
    assert_eq!(reuse_prefix(&vec![1, 2, 3], &vec![1, 2, 3, 4]), 2);
    assert_eq!(reuse_prefix(&vec![1, 2, 3], &vec![]), 0);
    assert_eq!(reuse_prefix(&vec![], &vec![1]), 0);
    assert_eq!(reuse_prefix(&vec![5, 6], &vec![7]), 0);
}

#[test]
fn decoding_stops_before_the_context_is_full() {
    assert!(decode_step(0, 10, false, 5, 100) == DecodeStep::Go);
    assert!(decode_step(10, 10, false, 5, 100) == DecodeStep::Stop);
    assert!(decode_step(0, 10, true, 5, 100) == DecodeStep::Stop);
    assert!(decode_step(0, 10, false, 99, 100) == DecodeStep::ContextFull);
    assert!(decode_step(0, 10, false, 98, 100) == DecodeStep::Go);
}

#[test]
fn stop_strings() {
    let stops = vec!["<|im_end|>".to_string(), "</tool_call>".to_string()];
    assert!(hit_stop("ciao<|im_end|>", &stops));
    assert!(!hit_stop("ciao<|im_end|> ", &stops));
    assert!(!hit_stop("ciao", &vec![]));
}
