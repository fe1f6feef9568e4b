use gemmars::fixed::Fixed;
use gemmars::tokenizer::Token;
use gemmars::tokenizer::Tokenizer;
use gemmars::tokenizer::TokenizerError;
use gemmars::tokenizer::read_next_str;
use gemmars::tokenizer::read_next_u32;

fn header(n_words: u32, bos: u32, eos: u32, pad: u32) -> Vec<u8> {
    let mut f = b"GRTK".to_vec();
    f.extend_from_slice(&n_words.to_le_bytes());
    f.extend_from_slice(&bos.to_le_bytes());
    f.extend_from_slice(&eos.to_le_bytes());
    f.extend_from_slice(&pad.to_le_bytes());
    f
}

fn push_entry(f: &mut Vec<u8>, piece: &str, score_bits: u32) {
    f.extend_from_slice(&(piece.len() as u32).to_le_bytes());
    f.extend_from_slice(piece.as_bytes());
    f.extend_from_slice(&score_bits.to_le_bytes());
}

/// A small vocabulary: "a", "b", the merge "ab" with the highest score,
/// and the filler word.
fn small_vocab() -> Tokenizer<Fixed> {
    let mut f = header(4, 1, 2, 0);
    push_entry(&mut f, "a", 0);
    push_entry(&mut f, "b", 0);
    push_entry(&mut f, "ab", 1000);
    push_entry(&mut f, "\u{2581}", 0);
    Tokenizer::<Fixed>::from_bytes(f).unwrap()
}

#[test]
fn parser_reads_header_and_entries() {
    let mut f = header(0x01020304, 7, 8, 9);
    push_entry(&mut f, "hi", 5);
    push_entry(&mut f, "\u{2581}", 6);
    let tk = Tokenizer::<Fixed>::from_bytes(f).unwrap();
    assert_eq!(tk.n_words, 16909060);
    assert_eq!(tk.bos_id, 7);
    assert_eq!(tk.eos_id, 8);
    assert_eq!(tk.pad_id, 9);
    assert_eq!(tk.words.len(), 2);
    assert_eq!(tk.words[0].index, 0);
    assert_eq!(tk.words[0].piece, "hi");
    assert_eq!(tk.words[0].score, Fixed { v: 5 });
    // The three-byte filler decodes to the single low-line character.
    assert_eq!(tk.words[1].piece, "\u{2581}");
    assert_eq!(tk.words[1].piece.chars().count(), 1);
    assert_eq!(tk.sorted_words.len(), 0);
}

#[test]
fn parser_rejects_bad_magic() {
    let mut f = header(0, 0, 0, 0);
    f[3] = b'X';
    let err = Tokenizer::<Fixed>::from_bytes(f).unwrap_err();
    assert_eq!(err, TokenizerError::BadMagic);
}

#[test]
fn parser_rejects_truncated_entry() {
    let mut f = header(1, 0, 0, 0);
    push_entry(&mut f, "hi", 5);
    f.truncate(f.len() - 2);
    let err = Tokenizer::<Fixed>::from_bytes(f).unwrap_err();
    assert!(matches!(err, TokenizerError::Truncated { .. }));
}

#[test]
fn parser_rejects_invalid_utf8() {
    let mut f = header(1, 0, 0, 0);
    f.extend_from_slice(&2u32.to_le_bytes());
    f.extend_from_slice(&[0xFF, 0xFE]);
    f.extend_from_slice(&0u32.to_le_bytes());
    let err = Tokenizer::<Fixed>::from_bytes(f).unwrap_err();
    assert!(matches!(err, TokenizerError::InvalidUtf8 { .. }));
}

#[test]
fn read_next_u32_is_little_endian() {
    let f = vec![4u8, 3, 2, 1, 0xFF];
    let mut cursor = 0usize;
    assert_eq!(read_next_u32(&f, &mut cursor), 0x01020304);
    assert_eq!(cursor, 4);
}

#[test]
fn read_next_str_decodes_utf8() {
    let f = "ab\u{2581}".as_bytes().to_vec();
    let mut cursor = 0usize;
    let s = read_next_str(&f, &mut cursor, f.len()).unwrap();
    assert_eq!(s, "ab\u{2581}");
    assert_eq!(cursor, s.len());
    let bad = vec![0xFFu8];
    let mut c2 = 0usize;
    assert!(read_next_str(&bad, &mut c2, 1).is_none());
}

#[test]
fn token_new_default_is_sentinel() {
    let t: Token<Fixed> = Token::new_default();
    assert_eq!(t.index, u32::MAX);
    assert_eq!(t.piece, "");
    assert_eq!(t.score, Fixed { v: -10_000_000_000_000_000 });
}

#[test]
fn decode_id_returns_piece() {
    let tk = small_vocab();
    assert_eq!(tk.decode_id(2), "ab");
}

#[test]
fn decode_joins_pieces_and_replaces_filler() {
    let tk = small_vocab();
    assert_eq!(tk.decode(&vec![0, 3, 1]).unwrap(), "a b");
    assert_eq!(tk.decode(&vec![2, 2]).unwrap(), "abab");
}

#[test]
fn decode_expands_byte_escape_tokens() {
    let mut f = header(2, 0, 0, 0);
    push_entry(&mut f, "<0x41>", 0);
    push_entry(&mut f, "<0xzz>", 0);
    let tk = Tokenizer::<Fixed>::from_bytes(f).unwrap();
    assert_eq!(tk.decode(&vec![0]).unwrap(), "A");
    // A malformed escape contributes nothing.
    assert_eq!(tk.decode(&vec![1, 0]).unwrap(), "A");
}

#[test]
fn decode_rejects_unknown_id() {
    let tk = small_vocab();
    let err = tk.decode(&vec![0, 9]).unwrap_err();
    assert_eq!(err, TokenizerError::UnknownId { id: 9 });
}

#[test]
fn encode_merges_best_pair() {
    let mut tk = small_vocab();
    assert_eq!(tk.encode("ab").unwrap(), vec![2]);
    assert_eq!(tk.encode("ba").unwrap(), vec![1, 0]);
    assert_eq!(tk.encode("a b").unwrap(), vec![0, 3, 1]);
    assert_eq!(tk.encode("").unwrap(), Vec::<u32>::new());
}

#[test]
fn encode_round_trips_through_decode() {
    let mut tk = small_vocab();
    let ids = tk.encode("ab ba").unwrap();
    assert_eq!(tk.decode(&ids).unwrap(), "ab ba");
}

#[test]
fn encode_rejects_missing_byte_fallback() {
    let mut tk = small_vocab();
    // 'z' has no token, and its byte fallback id (122 + 3) has no entry
    // in this four-word vocabulary.
    let err = tk.encode("z").unwrap_err();
    assert_eq!(err, TokenizerError::UnknownId { id: 125 });
}
