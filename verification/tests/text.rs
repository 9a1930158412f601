use liara_core::speech::{long_enough, punctuate_question, trailing_silence, wav_from_pcm16};

#[test]
fn adds_q_for_interrogatives() {
    assert_eq!(punctuate_question("che ore sono"), "che ore sono?");
    assert_eq!(punctuate_question("Come stai"), "Come stai?");
    assert_eq!(punctuate_question("dove sei"), "dove sei?");
    assert_eq!(punctuate_question("puoi aiutarmi"), "puoi aiutarmi?");
    assert_eq!(punctuate_question("perché piove"), "perché piove?");
}

#[test]
fn leaves_statements_alone() {
    assert_eq!(punctuate_question("oggi piove"), "oggi piove");
    assert_eq!(punctuate_question("ricordami di chiamare"), "ricordami di chiamare");
}

#[test]
fn keeps_existing_punctuation() {
    assert_eq!(punctuate_question("che ore sono?"), "che ore sono?");
    assert_eq!(punctuate_question("vai!"), "vai!");
    assert_eq!(punctuate_question("ok."), "ok.");
}

#[test]
fn text_empty_stays_empty() {
    assert_eq!(punctuate_question("   "), "");
}

#[test]
fn does_not_match_substring_in_other_words() {
    assert_eq!(punctuate_question("chissà se viene"), "chissà se viene");
}

#[test]
fn two_word_starters_and_trimming() {
    assert_eq!(punctuate_question("  mi dici l'ora  "), "mi dici l'ora?");
    assert_eq!(punctuate_question("CI SONO novità"), "CI SONO novità?");
    assert_eq!(punctuate_question("com'è andata"), "com'è andata?");
}

#[test]
fn recording_length_and_silence() {
    assert!(!long_enough(3999, 16000));
    assert!(long_enough(4000, 16000));
    assert_eq!(trailing_silence(16000), 9600);
}

#[test]
fn wav_encoding() {
    let w = wav_from_pcm16(&[0, 1, -1, 32767], 22050);
    assert_eq!(w.len(), 44 + 8);
    assert_eq!(&w[0..4], b"RIFF");
    assert_eq!(&w[4..8], &(36u32 + 8).to_le_bytes());
    assert_eq!(&w[8..16], b"WAVEfmt ");
    assert_eq!(&w[16..20], &16u32.to_le_bytes());
    assert_eq!(&w[20..24], &[1, 0, 1, 0]);
    assert_eq!(&w[24..28], &22050u32.to_le_bytes());
    assert_eq!(&w[28..32], &44100u32.to_le_bytes());
    assert_eq!(&w[32..36], &[2, 0, 16, 0]);
    assert_eq!(&w[36..40], b"data");
    assert_eq!(&w[40..44], &8u32.to_le_bytes());
    assert_eq!(&w[44..], &[0, 0, 1, 0, 0xff, 0xff, 0xff, 0x7f]);
}

#[test]
fn punctuating_twice_changes_nothing() {
    for s in ["  che ore sono ", "Come stai?", "oggi piove", "   ", "mi dici l'ora", "vai!"] {
        let once = punctuate_question(s);
        assert_eq!(punctuate_question(&once), once);
    }
}

#[test]
fn elided_interrogatives_start_a_question() {
    assert_eq!(punctuate_question("dov'è il bagno"), "dov'è il bagno?");
    assert_eq!(punctuate_question("Com'è andata"), "Com'è andata?");
    assert_eq!(punctuate_question("cos'hai fatto"), "cos'hai fatto?");
    assert_eq!(punctuate_question("quant'è"), "quant'è?");
    assert_eq!(punctuate_question("dovunque vada"), "dovunque vada");
}
