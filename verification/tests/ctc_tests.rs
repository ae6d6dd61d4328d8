use enthalpy::ctc::{decode_ids, CTCLoss, Token, FRAME_CENTER_MS, FRAME_MS};
use enthalpy::decoder::{transcript, Decoder, TokenTableError};

fn table() -> Vec<String> {
    vec![
        String::from("<blank>"),
        String::from("\u{2581}he"),
        String::from("llo"),
        String::from("\u{2581}world"),
        String::from("<|en|>"),
    ]
}

#[test]
fn ctc_head_shape() {
    let ctc = CTCLoss::new(25055, 512, true);
    assert_eq!(ctc.odim, 25055);
    assert_eq!(ctc.encoder_output_size, 512);
    assert!(ctc.extra_linear);
    assert_eq!(FRAME_MS, 60);
    assert_eq!(FRAME_CENTER_MS, 30);
}

#[test]
fn collapse_blanks_and_runs() {
    // blank, "he", repeated "he" (collapsed), blank, "llo", blank, "world"
    let ids = vec![0u32, 1, 1, 0, 2, 0, 3];
    let out = decode_ids(&ids, &table());
    let texts: Vec<&str> = out.iter().map(|t| t.text.as_str()).collect();
    assert_eq!(texts, vec![" he", "llo", " world"]);
    assert_eq!((out[0].start, out[0].end), (0, 30));
    assert_eq!((out[1].start, out[1].end), (30, 210));
    assert_eq!((out[2].start, out[2].end), (210, 330));
}

#[test]
fn run_without_blank_stays_collapsed() {
    // after one emission, different labels without a blank stay swallowed
    let ids = vec![1u32, 2, 3, 2, 1];
    let out = decode_ids(&ids, &table());
    assert_eq!(out.len(), 1);
    assert_eq!(out[0].text, " he");
}

#[test]
fn control_tokens_never_appear() {
    let ids = vec![0u32, 4, 1, 4, 0, 4, 3, 4];
    let out = decode_ids(&ids, &table());
    for t in out.iter() {
        assert!(!t.text.starts_with("<|"));
    }
    let texts: Vec<&str> = out.iter().map(|t| t.text.as_str()).collect();
    assert_eq!(texts, vec![" he", " world"]);
}

#[test]
fn every_underscore_glyph_becomes_a_space() {
    // the U+2581 replacement is not limited to a leading glyph
    let table = vec![
        String::from("<blank>"),
        String::from("a\u{2581}b"),
        String::from("\u{2581}\u{2581}x\u{2581}"),
    ];
    let out = decode_ids(&vec![0u32, 1, 0, 2], &table);
    let texts: Vec<&str> = out.iter().map(|t| t.text.as_str()).collect();
    assert_eq!(texts, vec!["a b", "  x "]);
}

#[test]
fn ids_outside_table_are_skipped() {
    let ids = vec![0u32, 99, 1, 99];
    let out = decode_ids(&ids, &table());
    assert_eq!(out.len(), 1);
    assert_eq!(out[0].text, " he");
    // position 2 emits: end = 2*60 - 30
    assert_eq!(out[0].end, 90);
}

#[test]
fn timestamps_sit_on_frame_grid_and_grow() {
    let ids = vec![1u32, 0, 2, 0, 3, 0, 1, 0, 2];
    let out = decode_ids(&ids, &table());
    let last_frame_ms = (ids.len() as u32 - 1) * FRAME_MS;
    let mut prev_end = 0u32;
    for t in out.iter() {
        assert!(t.start <= t.end);
        assert!(t.end <= last_frame_ms);
        assert!(prev_end <= t.end);
        prev_end = t.end;
    }
}

#[test]
fn transcript_joins_token_texts() {
    let tokens = vec![
        Token { text: String::from(" hello"), start: 0, end: 30 },
        Token { text: String::from(" world"), start: 30, end: 90 },
    ];
    assert_eq!(transcript(&tokens), " hello world");
}

#[test]
fn decoder_parses_token_table() {
    let d = Decoder::new("[\"<blank>\", \"\\u2581hi\"]", 25055, 512).expect("valid table");
    assert_eq!(d.tokens.len(), 2);
    assert_eq!(d.tokens[1], "\u{2581}hi");
    let out = d.decode(&vec![0u32, 1]);
    assert_eq!(out.len(), 1);
    assert_eq!(out[0].text, " hi");
}

#[test]
fn decoder_rejects_bad_table() {
    let err = Decoder::new("{\"not\": \"a list\"}", 25055, 512).unwrap_err();
    assert_eq!(err, TokenTableError::InvalidTokenTable);
    let err = Decoder::new("[1, 2, 3]", 25055, 512).unwrap_err();
    assert_eq!(err, TokenTableError::InvalidTokenTable);
}
