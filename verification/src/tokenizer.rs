//! The byte-level vocabulary format and the subword tokenizer.
//!
//! A vocabulary file is a 4-byte magic tag `GRTK`, four little-endian
//! 32-bit integers (word count, begin-of-sequence id, end-of-sequence id,
//! pad id), then one entry per token: a little-endian 32-bit length, that
//! many bytes of UTF-8 text, and a 32-bit score word. The parser here
//! takes the file as plain bytes — reading them from disk is the
//! driver's job — and states the exact decoded content of every field.
//!
//! Scores travel through the engine's scalar: the stored 32-bit word is
//! handed to [`Scalar::from_bits`], so an exact scalar keeps scores
//! comparable and a floating-point scalar reads them as its native bits.

use vstd::prelude::*;
use vstd::utf8::valid_utf8;
use vstd::utf8::decode_utf8;
use vstd::string::StrSliceExecFns;
use vstd::string::StringExecFns;

use crate::scalar::Scalar;

verus! {

/// A fault while reading or using a vocabulary.
#[derive(Clone, Copy, Debug, PartialEq, Eq, Structural)]
pub enum TokenizerError {
    /// The file does not begin with the vocabulary magic tag.
    BadMagic,
    /// The file ends in the middle of a field; carries the offset at
    /// which the truncated field begins.
    Truncated { at: usize },
    /// A token's text is not valid UTF-8; carries the offset of the
    /// entry's text field.
    InvalidUtf8 { at: usize },
    /// An id with no entry in the vocabulary.
    UnknownId { id: u32 },
}

/// The unsigned 32-bit integer stored little-endian in the first four
/// bytes.
pub open spec fn le32(b: Seq<u8>) -> u32 {
    ((b[0] as int) + (b[1] as int) * 0x100 + (b[2] as int) * 0x10000 + (b[3] as int)
        * 0x1000000) as u32
}

/// A value read from a fixed-width little-endian field.
pub trait FromBytes: Sized {
    /// The bytes this type can be read from.
    spec fn bytes_ok(b: Seq<u8>) -> bool;

    /// How a read value relates to its bytes.
    spec fn of_bytes(b: Seq<u8>, r: Self) -> bool;

    /// Any four bytes can be read.
    proof fn lemma_four_bytes_ok(b: Seq<u8>)
        requires
            b.len() >= 4,
        ensures
            Self::bytes_ok(b),
    ;

    fn from_bytes(bytes: &[u8]) -> (r: Self)
        requires
            Self::bytes_ok(bytes@),
        ensures
            Self::of_bytes(bytes@, r),
    ;
}

impl FromBytes for u32 {
    open spec fn bytes_ok(b: Seq<u8>) -> bool {
        b.len() >= 4
    }

    open spec fn of_bytes(b: Seq<u8>, r: Self) -> bool {
        r == le32(b)
    }

    proof fn lemma_four_bytes_ok(b: Seq<u8>) {
    }

    fn from_bytes(bytes: &[u8]) -> (r: Self) {
        let b0 = bytes[0] as u32;
        let b1 = bytes[1] as u32;
        let b2 = bytes[2] as u32;
        let b3 = bytes[3] as u32;
        b0 + b1 * 0x100 + b2 * 0x10000 + b3 * 0x1000000
    }
}

impl FromBytes for crate::fixed::Fixed {
    open spec fn bytes_ok(b: Seq<u8>) -> bool {
        b.len() >= 4
    }

    open spec fn of_bytes(b: Seq<u8>, r: Self) -> bool {
        r == <crate::fixed::Fixed as Scalar>::from_bits_s(le32(b))
    }

    proof fn lemma_four_bytes_ok(b: Seq<u8>) {
    }

    fn from_bytes(bytes: &[u8]) -> (r: Self) {
        let b0 = bytes[0] as u32;
        let b1 = bytes[1] as u32;
        let b2 = bytes[2] as u32;
        let b3 = bytes[3] as u32;
        <crate::fixed::Fixed as Scalar>::from_bits(b0 + b1 * 0x100 + b2 * 0x10000 + b3 * 0x1000000)
    }
}

/// Read the next `step`-byte field of `file` at `*cursor` and advance the
/// cursor past it.
pub fn read_next_item<T: FromBytes>(file: &Vec<u8>, cursor: &mut usize, step: usize) -> (r: T)
    requires
        *old(cursor) + step <= file@.len(),
        T::bytes_ok(file@.subrange(*old(cursor) as int, *old(cursor) + step)),
    ensures
        *final(cursor) == *old(cursor) + step,
        T::of_bytes(file@.subrange(*old(cursor) as int, *old(cursor) + step), r),
{
    let mut piece: Vec<u8> = Vec::new();
    let start = *cursor;
    let flen = file.len();
    let end = start + step;
    let mut i = start;
    while i < end
        invariant
            end == start + step,
            end <= flen,
            flen == file@.len(),
            start <= i <= end,
            piece@ == file@.subrange(start as int, i as int),
        decreases end - i,
    {
        piece.push(file[i]);
        proof {
            assert(file@.subrange(start as int, i + 1 as int) =~= file@.subrange(
                start as int,
                i as int,
            ).push(file@[i as int]));
        }
        i = i + 1;
    }
    *cursor = start + step;
    T::from_bytes(piece.as_slice())
}

/// Read the next little-endian 32-bit integer and advance the cursor.
pub fn read_next_u32(file: &Vec<u8>, cursor: &mut usize) -> (r: u32)
    requires
        *old(cursor) + 4 <= file@.len(),
    ensures
        *final(cursor) == *old(cursor) + 4,
        r == le32(file@.subrange(*old(cursor) as int, *old(cursor) + 4)),
{
    read_next_item::<u32>(file, cursor, 4)
}

/// Relies on `core::str::from_utf8`: it succeeds exactly on valid UTF-8,
/// and the resulting string's characters are the bytes' decoded scalar
/// values.
#[verifier::external_body]
fn utf8_to_string(bytes: &Vec<u8>) -> (r: Option<String>)
    ensures
        r is Some <==> valid_utf8(bytes@),
        r is Some ==> (r->0)@ == decode_utf8(bytes@),
{
    match core::str::from_utf8(bytes.as_slice()) {
        Ok(s) => Some(s.to_string()),
        Err(_) => None,
    }
}

/// Relies on `str::chars` and `String: FromIterator<char>`: the collected
/// string holds exactly the given characters, in order.
#[verifier::external_body]
fn chars_to_string(chars: &Vec<char>) -> (r: String)
    ensures
        r@ == chars@,
{
    chars.iter().collect()
}

/// Read the next `len` bytes as UTF-8 text and advance the cursor past
/// them; `None` exactly when the bytes are not valid UTF-8.
pub fn read_next_str(file: &Vec<u8>, cursor: &mut usize, len: usize) -> (r: Option<String>)
    requires
        *old(cursor) + len <= file@.len(),
    ensures
        *final(cursor) == *old(cursor) + len,
        r is Some <==> valid_utf8(file@.subrange(*old(cursor) as int, *old(cursor) + len)),
        r is Some ==> (r->0)@ == decode_utf8(
            file@.subrange(*old(cursor) as int, *old(cursor) + len),
        ),
{
    let mut piece: Vec<u8> = Vec::new();
    let start = *cursor;
    let flen = file.len();
    let end = start + len;
    let mut i = start;
    while i < end
        invariant
            end == start + len,
            end <= flen,
            flen == file@.len(),
            start <= i <= end,
            piece@ == file@.subrange(start as int, i as int),
        decreases end - i,
    {
        piece.push(file[i]);
        proof {
            assert(file@.subrange(start as int, i + 1 as int) =~= file@.subrange(
                start as int,
                i as int,
            ).push(file@[i as int]));
        }
        i = i + 1;
    }
    *cursor = start + len;
    utf8_to_string(&piece)
}

/// One vocabulary token: its id, its text and its merge score.
#[derive(Clone, Debug)]
pub struct Token<T> {
    pub index: u32,
    pub piece: String,
    pub score: T,
}

impl<T: Scalar> Token<T> {
    /// The sentinel token used while searching for the best merge: an id
    /// no vocabulary uses, empty text and a score below every stored
    /// score.
    pub fn new_default() -> (t: Token<T>)
        ensures
            t.index == u32::MAX,
            t.piece@ == Seq::<char>::empty(),
            t.score == T::neg_huge_s(),
    {
        Token { index: u32::MAX, piece: String::new(), score: T::neg_huge() }
    }
}

/// One raw vocabulary entry: the token's text bytes and its score field.
pub struct RawEntry {
    pub piece: Seq<u8>,
    pub score: Seq<u8>,
}

/// The entries encoded in `b`: repeatedly a 4-byte little-endian length,
/// that many bytes of valid UTF-8 text, and a 4-byte score word. `None`
/// when `b` is truncated or a text field is not UTF-8.
pub open spec fn parse_entries(b: Seq<u8>) -> Option<Seq<RawEntry>>
    decreases b.len(),
{
    if b.len() == 0 {
        Some(Seq::empty())
    } else if b.len() < 4 {
        None
    } else {
        let l = le32(b.subrange(0, 4)) as int;
        if b.len() < 8 + l {
            None
        } else if !valid_utf8(b.subrange(4, 4 + l)) {
            None
        } else {
            match parse_entries(b.skip(8 + l)) {
                Option::None => Option::None,
                Option::Some(rest) => Option::Some(
                    seq![RawEntry { piece: b.subrange(4, 4 + l), score: b.subrange(4 + l, 8 + l) }]
                        + rest,
                ),
            }
        }
    }
}

/// The vocabulary magic tag `GRTK`.
pub open spec fn magic_s() -> Seq<u8> {
    seq![71u8, 82u8, 84u8, 75u8]
}

/// The subword tokenizer: the vocabulary header fields and the token
/// table, indexed by id.
#[derive(Debug)]
pub struct Tokenizer<T> {
    pub n_words: u32,
    pub bos_id: u32,
    pub eos_id: u32,
    pub pad_id: u32,
    pub words: Vec<Token<T>>,
    /// Reserved for a piece-ordered index of `words`; the encoder here
    /// scans `words` directly and leaves this empty.
    pub sorted_words: Vec<Token<T>>,
}

impl<T: Scalar> Tokenizer<T> {
    /// Every token is stored at the position its id names.
    pub open spec fn wf(self) -> bool {
        &&& self.words@.len() <= u32::MAX
        &&& forall|i: int| 0 <= i < self.words@.len() ==> (#[trigger] self.words@[i]).index == i
    }
}

impl<T: Scalar + FromBytes> Tokenizer<T> {
    /// Parse a vocabulary file. The bytes must begin with the magic tag
    /// and a 20-byte header; every entry after the header must be
    /// complete and its text valid UTF-8. Token `i` of the result is the
    /// file's entry `i`: its decoded text, its score word handed to the
    /// scalar, and `i` itself as the id.
    pub fn from_bytes(file: Vec<u8>) -> (r: Result<Tokenizer<T>, TokenizerError>)
        requires
            file@.len() <= u32::MAX,
        ensures
            r is Ok <==> (file@.len() >= 20 && file@.subrange(0, 4) == magic_s() && parse_entries(
                file@.skip(20),
            ) is Some),
            r is Ok ==> ({
                let tk = r->Ok_0;
                let es = parse_entries(file@.skip(20))->Some_0;
                &&& tk.wf()
                &&& tk.n_words == le32(file@.subrange(4, 8))
                &&& tk.bos_id == le32(file@.subrange(8, 12))
                &&& tk.eos_id == le32(file@.subrange(12, 16))
                &&& tk.pad_id == le32(file@.subrange(16, 20))
                &&& tk.words@.len() == es.len()
                &&& forall|i: int|
                    0 <= i < es.len() ==> (#[trigger] tk.words@[i]).piece@ == decode_utf8(
                        es[i].piece,
                    ) && T::of_bytes(es[i].score, tk.words@[i].score)
                &&& tk.sorted_words@.len() == 0
            }),
            r is Err && file@.len() >= 4 && file@.subrange(0, 4) != magic_s() ==> r->Err_0
                == TokenizerError::BadMagic,
            r is Err && file@.len() < 4 ==> r->Err_0 == (TokenizerError::Truncated { at: 0 }),
            r is Err && file@.len() >= 4 && file@.subrange(0, 4) == magic_s() && file@.len() < 20
                ==> r->Err_0 == (TokenizerError::Truncated { at: 4 }),
    {
        if file.len() < 4 {
            return Err(TokenizerError::Truncated { at: 0 });
        }
        if !(file[0] == 71 && file[1] == 82 && file[2] == 84 && file[3] == 75) {
            proof {
                assert(file@.subrange(0, 4) != magic_s());
            }
            return Err(TokenizerError::BadMagic);
        }
        proof {
            assert(file@.subrange(0, 4) =~= magic_s());
        }
        if file.len() < 20 {
            return Err(TokenizerError::Truncated { at: 4 });
        }
        let mut cursor: usize = 4;
        let n_words = read_next_u32(&file, &mut cursor);
        let bos_id = read_next_u32(&file, &mut cursor);
        let eos_id = read_next_u32(&file, &mut cursor);
        let pad_id = read_next_u32(&file, &mut cursor);
        let ghost tail = file@.skip(20);
        let ghost mut done: Seq<RawEntry> = Seq::empty();
        let mut words: Vec<Token<T>> = Vec::new();
        proof {
            assert(file@.skip(cursor as int) =~= tail);
            assert forall|rest: Seq<RawEntry>|
                parse_entries(file@.skip(cursor as int)) == Option::Some(rest)
                    implies parse_entries(tail) == Option::Some(done + rest) by {
                assert(done + rest =~= rest);
            }
        }
        while cursor < file.len()
            invariant
                20 <= cursor <= file@.len(),
                file@.len() <= u32::MAX,
                file@.subrange(0, 4) == magic_s(),
                tail == file@.skip(20),
                words@.len() == done.len(),
                8 * done.len() <= cursor - 20,
                parse_entries(file@.skip(cursor as int)) is None ==> parse_entries(tail) is None,
                forall|rest: Seq<RawEntry>|
                    parse_entries(file@.skip(cursor as int)) == Option::Some(rest)
                        ==> parse_entries(tail) == Option::Some(done + rest),
                forall|i: int|
                    0 <= i < done.len() ==> (#[trigger] words@[i]).index == i && words@[i].piece@
                        == decode_utf8(done[i].piece) && T::of_bytes(
                        done[i].score,
                        words@[i].score,
                    ),
            decreases file@.len() - cursor,
        {
            let ghost entry_start = cursor as int;
            let ghost b = file@.skip(entry_start);
            if file.len() - cursor < 4 {
                proof {
                    assert(b.len() == file@.len() - entry_start);
                    assert(parse_entries(b) is None);
                }
                return Err(TokenizerError::Truncated { at: cursor });
            }
            let l = read_next_u32(&file, &mut cursor) as usize;
            proof {
                assert(b.subrange(0, 4) =~= file@.subrange(entry_start, entry_start + 4));
            }
            if file.len() - cursor < l {
                proof {
                    assert(b.len() < 8 + l);
                    assert(parse_entries(b) is None);
                }
                return Err(TokenizerError::Truncated { at: cursor });
            }
            if file.len() - cursor - l < 4 {
                proof {
                    assert(b.len() < 8 + l);
                    assert(parse_entries(b) is None);
                }
                return Err(TokenizerError::Truncated { at: cursor });
            }
            let ghost piece_bytes = file@.subrange(entry_start + 4, entry_start + 4 + l);
            proof {
                assert(b.len() >= 8 + l);
                assert(b.subrange(4, 4 + l) =~= piece_bytes);
            }
            let text_at = cursor;
            let piece = match read_next_str(&file, &mut cursor, l) {
                Option::Some(p) => p,
                Option::None => {
                    proof {
                        assert(!valid_utf8(b.subrange(4, 4 + l)));
                        assert(parse_entries(b) is None);
                    }
                    return Err(TokenizerError::InvalidUtf8 { at: text_at });
                },
            };
            proof {
                T::lemma_four_bytes_ok(file@.subrange(cursor as int, cursor + 4));
            }
            let score: T = read_next_item::<T>(&file, &mut cursor, 4);
            let ghost score_bytes = file@.subrange(entry_start + 4 + l, entry_start + 8 + l);
            let ghost e = RawEntry { piece: piece_bytes, score: score_bytes };
            proof {
                assert(b.subrange(4 + l, 8 + l) =~= score_bytes);
                assert(b.skip(8 + l) =~= file@.skip(entry_start + 8 + l));
                assert(cursor as int == entry_start + 8 + l);
                assert(parse_entries(b) is None ==> parse_entries(file@.skip(cursor as int))
                    is None);
                assert forall|rest: Seq<RawEntry>|
                    parse_entries(file@.skip(cursor as int)) == Option::Some(rest)
                        implies parse_entries(tail) == Option::Some((done + seq![e])
                    + rest) by {
                    assert(parse_entries(b) == Option::Some(seq![e] + rest));
                    assert(done + (seq![e] + rest) =~= (done + seq![e]) + rest);
                }
                assert(words@.len() < u32::MAX);
            }
            let tok = Token { index: words.len() as u32, piece, score };
            words.push(tok);
            proof {
                done = done + seq![e];
            }
        }
        proof {
            assert(file@.skip(cursor as int).len() == 0);
            assert(parse_entries(file@.skip(cursor as int)) == Option::Some(Seq::<RawEntry>::empty()));
            assert(parse_entries(tail) == Option::Some(done + Seq::<RawEntry>::empty()));
            assert(done + Seq::<RawEntry>::empty() =~= done);
            assert(file@.subrange(4, 8) =~= file@.subrange(4int, 8int));
        }
        Ok(
            Tokenizer {
                n_words,
                bos_id,
                eos_id,
                pad_id,
                words,
                sorted_words: Vec::new(),
            },
        )
    }
}

/// An ASCII hexadecimal digit.
pub open spec fn is_hex_digit(b: u8) -> bool {
    (48 <= b && b <= 57) || (97 <= b && b <= 102) || (65 <= b && b <= 70)
}

/// The value of an ASCII hexadecimal digit.
pub open spec fn hex_val_s(b: u8) -> u8 {
    if 48 <= b && b <= 57 {
        (b - 48) as u8
    } else if 97 <= b && b <= 102 {
        (b - 87) as u8
    } else if 65 <= b && b <= 70 {
        (b - 55) as u8
    } else {
        0
    }
}

/// Whether `b` is an ASCII hexadecimal digit.
fn is_hex(b: u8) -> (r: bool)
    ensures
        r == is_hex_digit(b),
{
    (48 <= b && b <= 57) || (97 <= b && b <= 102) || (65 <= b && b <= 70)
}

/// The value of an ASCII hexadecimal digit, zero for any other byte.
fn hex_val(b: u8) -> (r: u8)
    ensures
        r == hex_val_s(b),
        r <= 15,
{
    if 48 <= b && b <= 57 {
        b - 48
    } else if 97 <= b && b <= 102 {
        b - 87
    } else if 65 <= b && b <= 70 {
        b - 55
    } else {
        0
    }
}

/// The decoded text of one token: a byte-escape token `<0xHH>` becomes
/// the single character `HH` names — one with a malformed escape
/// contributes nothing — and any other token has its low-line filler
/// character replaced by a space.
pub open spec fn decode_piece_s(piece: Seq<char>) -> Seq<char> {
    let b = vstd::utf8::encode_utf8(piece);
    if b.len() == 6 && b[0] == 60 && b[1] == 48 && b[2] == 120 && b[5] == 62 {
        if is_hex_digit(b[3]) && is_hex_digit(b[4]) {
            seq![((hex_val_s(b[3]) as int * 16 + hex_val_s(b[4]) as int) as u8) as char]
        } else {
            Seq::empty()
        }
    } else {
        Seq::new(piece.len(), |i: int| if piece[i] == '\u{2581}' { ' ' } else { piece[i] })
    }
}

/// The decoded text of a whole id sequence: the decoded texts of its
/// tokens, concatenated in order.
pub open spec fn decode_s<T>(ws: Seq<Token<T>>, ids: Seq<u32>) -> Seq<char>
    decreases ids.len(),
{
    if ids.len() == 0 {
        Seq::empty()
    } else {
        decode_s(ws, ids.drop_last()) + decode_piece_s(ws[ids.last() as int].piece@)
    }
}


/// The input text with every space replaced by the low-line filler.
pub open spec fn space_filled(s: Seq<char>) -> Seq<char> {
    Seq::new(s.len(), |i: int| if s[i] == ' ' { '\u{2581}' } else { s[i] })
}

/// Whether some vocabulary token's text is exactly the character `c`.
pub open spec fn has_piece<T>(ws: Seq<Token<T>>, c: char) -> bool {
    exists|k: int| 0 <= k < ws.len() && (#[trigger] ws[k]).piece@ == seq![c]
}

/// Whether every UTF-8 byte of `c` has a fallback token at id `byte + 3`.
pub open spec fn byte_ids_covered<T>(ws: Seq<Token<T>>, c: char) -> bool {
    forall|b: int|
        0 <= b < vstd::utf8::encode_utf8(seq![c]).len() ==> (#[trigger] vstd::utf8::encode_utf8(
            seq![c],
        )[b] + 3) < ws.len()
}

/// Whether the encoder can token-ize `c`: either as one vocabulary token
/// or byte by byte through the fallback entries.
pub open spec fn char_covered<T>(ws: Seq<Token<T>>, c: char) -> bool {
    has_piece(ws, c) || byte_ids_covered(ws, c)
}

impl<T: Scalar> Tokenizer<T> {
    /// The text of one token.
    pub fn decode_id(&self, input_id: u32) -> (r: String)
        requires
            (input_id as int) < self.words@.len(),
        ensures
            r@ == self.words@[input_id as int].piece@,
    {
        self.words[input_id as usize].piece.clone()
    }

    /// Decode an id sequence to text: each token contributes its decoded
    /// text ([`decode_piece_s`]). An id with no entry in the vocabulary
    /// is rejected, reporting the first offender.
    pub fn decode(&self, input_ids: &Vec<u32>) -> (r: Result<String, TokenizerError>)
        ensures
            r is Ok <==> (forall|i: int|
                0 <= i < input_ids@.len() ==> (input_ids@[i] as int) < self.words@.len()),
            r is Ok ==> (r->Ok_0)@ == decode_s(self.words@, input_ids@),
            r is Err ==> (exists|i: int|
                0 <= i < input_ids@.len() && (input_ids@[i] as int) >= self.words@.len() && (
                forall|j: int| 0 <= j < i ==> (input_ids@[j] as int) < self.words@.len())
                    && r->Err_0 == (TokenizerError::UnknownId { id: input_ids@[i] })),
    {
        let mut out: Vec<char> = Vec::new();
        let count = input_ids.len();
        for k in 0..count
            invariant
                count == input_ids@.len(),
                forall|j: int| 0 <= j < k ==> (input_ids@[j] as int) < self.words@.len(),
                out@ == decode_s(self.words@, input_ids@.take(k as int)),
        {
            let id = input_ids[k];
            if id as usize >= self.words.len() {
                proof {
                    let bad = k as int;
                    assert(0 <= bad < input_ids@.len() && (input_ids@[bad] as int)
                        >= self.words@.len() && (forall|j: int|
                        0 <= j < bad ==> (input_ids@[j] as int) < self.words@.len()));
                }
                return Err(TokenizerError::UnknownId { id });
            }
            let piece = &self.words[id as usize].piece;
            let ghost pchars = piece@;
            let pb = piece.as_str().as_bytes();
            proof {
                assert(pb@ == vstd::utf8::encode_utf8(pchars));
            }
            if pb.len() == 6 && pb[0] == 60 && pb[1] == 48 && pb[2] == 120 && pb[5] == 62 {
                if is_hex(pb[3]) && is_hex(pb[4]) {
                    let v = hex_val(pb[3]) * 16 + hex_val(pb[4]);
                    out.push(v as char);
                    proof {
                        assert(out@ =~= decode_s(self.words@, input_ids@.take(k as int))
                            + decode_piece_s(pchars));
                    }
                } else {
                    proof {
                        assert(out@ =~= decode_s(self.words@, input_ids@.take(k as int))
                            + decode_piece_s(pchars));
                    }
                }
            } else {
                let n = piece.as_str().unicode_len();
                for c in 0..n
                    invariant
                        count == input_ids@.len(),
                        k < count,
                        (input_ids@[k as int] as int) < self.words@.len(),
                        pchars == self.words@[input_ids@[k as int] as int].piece@,
                        n == pchars.len(),
                        !({
                            let b = vstd::utf8::encode_utf8(pchars);
                            b.len() == 6 && b[0] == 60 && b[1] == 48 && b[2] == 120 && b[5] == 62
                        }),
                        out@ == decode_s(self.words@, input_ids@.take(k as int)) + Seq::new(
                            c as nat,
                            |i: int|
                                if pchars[i] == '\u{2581}' {
                                    ' '
                                } else {
                                    pchars[i]
                                },
                        ),
                {
                    let ch = self.words[input_ids[k] as usize].piece.as_str().get_char(c);
                    let rep = if ch == '\u{2581}' {
                        ' '
                    } else {
                        ch
                    };
                    out.push(rep);
                    proof {
                        assert(out@ =~= decode_s(self.words@, input_ids@.take(k as int)) + Seq::new(
                            (c + 1) as nat,
                            |i: int|
                                if pchars[i] == '\u{2581}' {
                                    ' '
                                } else {
                                    pchars[i]
                                },
                        ));
                    }
                }
                proof {
                    assert(Seq::new(
                        n as nat,
                        |i: int|
                            if pchars[i] == '\u{2581}' {
                                ' '
                            } else {
                                pchars[i]
                            },
                    ) =~= decode_piece_s(pchars));
                }
            }
            proof {
                assert(input_ids@.take(k + 1 as int).drop_last() =~= input_ids@.take(k as int));
                assert(input_ids@.take(k + 1 as int).last() == input_ids@[k as int]);
            }
        }
        proof {
            assert(input_ids@.take(count as int) =~= input_ids@);
        }
        Ok(chars_to_string(&out))
    }

    /// Encode text to an id sequence: spaces become the low-line filler,
    /// each character maps to its vocabulary token — or to its UTF-8
    /// bytes' fallback tokens at ids `byte + 3` — and adjacent tokens are
    /// then greedily merged, always taking the merge with the highest
    /// score, until no adjacent pair forms a vocabulary token. Every
    /// returned id names a vocabulary entry; a byte-fallback id beyond
    /// the vocabulary is rejected.
    pub fn encode(&mut self, input_str: &str) -> (r: Result<Vec<u32>, TokenizerError>)
        requires
            old(self).wf(),
        ensures
            *final(self) == *old(self),
            r is Ok <==> (forall|i: int|
                0 <= i < input_str@.len() ==> char_covered(
                    old(self).words@,
                    space_filled(input_str@)[i],
                )),
            r is Ok ==> (forall|k: int|
                0 <= k < (r->Ok_0)@.len() ==> ((r->Ok_0)@[k] as int) < old(self).words@.len()),
            r is Err ==> r->Err_0 is UnknownId,
            input_str@.len() == 0 ==> r is Ok && (r->Ok_0)@.len() == 0,
            r is Ok && input_str@.len() > 0 ==> (r->Ok_0)@.len() >= 1,
    {
        let n = input_str.unicode_len();
        let mut token_ids: Vec<u32> = Vec::new();
        for k in 0..n
            invariant
                *self == *old(self),
                self.wf(),
                n == input_str@.len(),
                n == 0 ==> token_ids@.len() == 0,
                token_ids@.len() >= k,
                forall|i: int|
                    0 <= i < k ==> char_covered(self.words@, space_filled(input_str@)[i]),
                forall|j: int|
                    0 <= j < token_ids@.len() ==> ((#[trigger] token_ids@[j]) as int)
                        < self.words@.len(),
        {
            let c0 = input_str.get_char(k);
            let c = if c0 == ' ' {
                '\u{2581}'
            } else {
                c0
            };
            proof {
                assert(c == space_filled(input_str@)[k as int]);
            }
            let mut cv: Vec<char> = Vec::new();
            cv.push(c);
            let c_str = chars_to_string(&cv);
            proof {
                assert(c_str@ =~= seq![c]);
            }
            let wl = self.words.len();
            let mut found = false;
            let mut widx: usize = 0;
            for w in 0..wl
                invariant
                    *self == *old(self),
                    self.wf(),
                    wl == self.words@.len(),
                    c_str@ == seq![c],
                    found ==> widx < wl && self.words@[widx as int].piece@ == seq![c],
                    !found ==> (forall|ww: int|
                        0 <= ww < w ==> (#[trigger] self.words@[ww]).piece@ != seq![c]),
            {
                if !found && self.words[w].piece == c_str {
                    found = true;
                    widx = w;
                }
            }
            proof {
                if found {
                    assert(has_piece(self.words@, c));
                } else {
                    assert(!has_piece(self.words@, c));
                }
            }
            if found {
                token_ids.push(self.words[widx].index);
            } else {
                let cb = c_str.as_str().as_bytes();
                let cbl = cb.len();
                proof {
                    assert(cv@ =~= seq![c]);
                    assert(seq![c].drop_first() =~= Seq::<char>::empty());
                    assert(vstd::utf8::encode_utf8(seq![c]) == vstd::utf8::encode_scalar(
                        c as u32,
                    ) + vstd::utf8::encode_utf8(Seq::<char>::empty()));
                    assert(vstd::utf8::encode_scalar(c as u32).len() >= 1);
                    assert(cbl >= 1);
                }
                let ghost base_len = token_ids@.len();
                for bi in 0..cbl
                    invariant
                        *self == *old(self),
                        self.wf(),
                        cbl == cb@.len(),
                        cb@ == vstd::utf8::encode_utf8(seq![c]),
                        !has_piece(self.words@, c),
                        c == space_filled(input_str@)[k as int],
                        k < input_str@.len(),
                        n == input_str@.len(),
                        n > 0,
                        token_ids@.len() == base_len + bi,
                        forall|b: int| 0 <= b < bi ==> (cb@[b] + 3) < self.words@.len(),
                        forall|j: int|
                            0 <= j < token_ids@.len() ==> ((#[trigger] token_ids@[j]) as int)
                                < self.words@.len(),
                {
                    let id = cb[bi] as usize + 3;
                    if id >= self.words.len() {
                        proof {
                            assert(!byte_ids_covered(self.words@, c));
                            assert(!char_covered(self.words@, space_filled(input_str@)[k as int]));
                        }
                        return Err(TokenizerError::UnknownId { id: cb[bi] as u32 + 3 });
                    }
                    token_ids.push(self.words[id].index);
                }
                proof {
                    assert(byte_ids_covered(self.words@, c));
                }
            }
        }
        while token_ids.len() >= 2
            invariant
                *self == *old(self),
                self.wf(),
                forall|j: int|
                    0 <= j < token_ids@.len() ==> ((#[trigger] token_ids@[j]) as int)
                        < self.words@.len(),
                input_str@.len() == 0 ==> token_ids@.len() == 0,
                input_str@.len() > 0 ==> token_ids@.len() >= 1,
                forall|i: int|
                    0 <= i < input_str@.len() ==> char_covered(
                        self.words@,
                        space_filled(input_str@)[i],
                    ),
            decreases token_ids@.len(),
        {
            let mut best_score = T::neg_huge();
            let mut best_index: u32 = u32::MAX;
            let mut replace_pos: usize = 0;
            let tl = token_ids.len();
            for i in 0..tl - 1
                invariant
                    *self == *old(self),
                    self.wf(),
                    tl == token_ids@.len(),
                    tl >= 2,
                    forall|j: int|
                        0 <= j < token_ids@.len() ==> ((#[trigger] token_ids@[j]) as int)
                            < self.words@.len(),
                    best_index != u32::MAX ==> (best_index as int) < self.words@.len()
                        && replace_pos + 1 < tl,
            {
                let merged = self.decode_id(token_ids[i]).concat(
                    self.decode_id(token_ids[i + 1]).as_str(),
                );
                let wl = self.words.len();
                let mut w: usize = 0;
                while w < wl
                    invariant
                        *self == *old(self),
                        self.wf(),
                        wl == self.words@.len(),
                        w <= wl,
                        tl == token_ids@.len(),
                        tl >= 2,
                        i < tl - 1,
                        forall|j: int|
                            0 <= j < token_ids@.len() ==> ((#[trigger] token_ids@[j]) as int)
                                < self.words@.len(),
                        best_index != u32::MAX ==> (best_index as int) < self.words@.len()
                            && replace_pos + 1 < tl,
                    decreases wl - w,
                {
                    if self.words[w].piece == merged {
                        if best_score.less_than(self.words[w].score) {
                            best_score = self.words[w].score;
                            best_index = self.words[w].index;
                            replace_pos = i;
                        }
                        break ;
                    }
                    w = w + 1;
                }
            }
            if best_index == u32::MAX {
                break ;
            }
            token_ids.set(replace_pos, best_index);
            token_ids.remove(replace_pos + 1);
        }
        Ok(token_ids)
    }
}

} // verus!
