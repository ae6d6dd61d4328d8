use enthalpy::ctc::Token;
use enthalpy::encoder::{
    attention_head_dim, fsmn_padding, sense_voice_encoder_config, EncoderConfig,
};
use enthalpy::notify::{Message, MessageType};
use enthalpy::runtime::{
    offset_tokens, prompted_length, required_file_names, silence_token, EMBEDDING_DIM,
    EMOTION_QUERY_ID, EVENT_QUERY_ID, LANGUAGE_QUERY_ID, NUM_EMBEDDINGS, NUM_PROMPT_FRAMES,
    TEXT_NORM_QUERY_ID, VOCAB_SIZE,
};

#[test]
fn prompt_layout() {
    assert_eq!(EMBEDDING_DIM, 560);
    assert_eq!(NUM_EMBEDDINGS, 16);
    assert_eq!(LANGUAGE_QUERY_ID, 0);
    assert_eq!(EVENT_QUERY_ID, 1);
    assert_eq!(EMOTION_QUERY_ID, 2);
    assert_eq!(TEXT_NORM_QUERY_ID, 15);
    assert_eq!(NUM_PROMPT_FRAMES, 4);
    assert_eq!(VOCAB_SIZE, 25055);
    assert_eq!(prompted_length(100), 104);
}

#[test]
fn required_files() {
    let names = required_file_names();
    assert_eq!(names, vec!["am.mvn", "model.pt", "tokens.json"]);
}

#[test]
fn offsetting_shifts_both_stamps() {
    let tokens = vec![
        Token { text: String::from(" he"), start: 0, end: 30 },
        Token { text: String::from("llo"), start: 30, end: 210 },
    ];
    let out = offset_tokens(tokens, 4992);
    assert_eq!(out.len(), 2);
    assert_eq!((out[0].start, out[0].end), (4992, 5022));
    assert_eq!((out[1].start, out[1].end), (5022, 5202));
    assert_eq!(out[0].text, " he");
}

#[test]
fn silence_token_spans_region() {
    let t = silence_token(4992, 5472);
    assert_eq!(t.text, "");
    assert_eq!(t.start, 4992);
    assert_eq!(t.end, 5472);
}

#[test]
fn encoder_geometry() {
    let cfg = sense_voice_encoder_config();
    assert_eq!(cfg.input_size, 560);
    assert_eq!(cfg.output_size, 512);
    assert_eq!(cfg.num_blocks, 50);
    assert_eq!(cfg.tp_blocks, 20);
    assert_eq!(cfg.attention_heads, 4);
    assert_eq!(cfg.linear_units, 2048);
    assert_eq!(cfg.kernel_size, 11);
    let base = EncoderConfig::default();
    assert_eq!(base.num_blocks, 6);
    assert_eq!(base.attention_heads, 4);
    // four heads over the 512-wide model: 128 each
    assert_eq!(attention_head_dim(cfg.output_size, cfg.attention_heads), 128);
    // kernel 11, no shift: five zeros each side keeps the time axis
    assert_eq!(fsmn_padding(11, 0), (5, 5));
    assert_eq!(fsmn_padding(11, 3), (8, 2));
}

#[test]
fn notification_labels() {
    assert_eq!(MessageType::Info.label(), "info");
    assert_eq!(MessageType::Warn.label(), "warn");
    assert_eq!(MessageType::Error.label(), "error");
    let m = Message::new(MessageType::Error, String::from("Missing required files"));
    assert_eq!(m.kind, MessageType::Error);
    assert_eq!(m.content, "Missing required files");
}
