//! The encoder: a fold over the token sequence that carries the active
//! subset and appends literal characters and switch markers to the payload.

use vstd::prelude::*;
use crate::classify::{spec_classify, ByteClass};
use crate::text::{
    decimals, marker, push_bytes, push_decimals, push_marker, push_range, push_spliced, spliced,
    text_of,
};
use crate::token::{runs_of, Run, Token};
use crate::tokenizer::{
    all_valid, first_invalid_from, lemma_tokens_alternate, tokens_of, InvalidByteError, Tokenizer,
};
use vstd::string::StrSliceExecFns;
use vstd::utf8::encode_utf8;

verus! {

/// A Code128 character subset.
#[derive(Clone, Copy, PartialEq, Eq, Structural, Debug)]
pub enum Code {
    /// Control codes, upper case and symbols.
    A,
    /// Printable ASCII.
    B,
    /// Pairs of digits.
    C,
}

/// What the encoder carries from one token to the next.
pub struct EncoderState {
    /// The subset that is active behind the payload so far.
    pub subset: Code,
    /// The payload so far.
    pub payload: Seq<char>,
}

/// What the first token emits. `next` is the class of the token behind it,
/// if there is one.
pub open spec fn first_emission(run: Run, next: Option<ByteClass>) -> Seq<char> {
    let n = run.bytes.len();
    let literal = text_of(run.bytes);
    match run.kind {
        ByteClass::Digit => {
            if n >= 4 {
                if n % 2 == 0 {
                    marker(';') + literal
                } else if next == Some(ByteClass::Control) {
                    spliced(marker(';') + literal, 2, marker('7'))
                } else {
                    spliced(marker(';') + literal, 1, marker('6'))
                }
            } else {
                match next {
                    Some(ByteClass::Control) => marker('9') + literal,
                    None => spliced(marker(';') + literal, 2, marker('6')),
                    _ => marker(':') + literal,
                }
            }
        },
        ByteClass::Symbol => marker(':') + literal,
        ByteClass::Control => marker('9') + literal,
        ByteClass::Invalid => Seq::empty(),
    }
}

/// The subset that is active behind the first token.
pub open spec fn first_subset(run: Run, next: Option<ByteClass>) -> Code {
    let n = run.bytes.len();
    match run.kind {
        ByteClass::Digit => {
            if n >= 4 && n % 2 == 0 {
                Code::C
            } else if next == Some(ByteClass::Control) {
                Code::A
            } else {
                Code::B
            }
        },
        ByteClass::Symbol => Code::B,
        ByteClass::Control => Code::A,
        ByteClass::Invalid => Code::B,
    }
}

/// What a token behind the first emits. `prev` is the subset that is active
/// in front of it, `more` says whether another token follows.
pub open spec fn next_emission(prev: Code, run: Run, more: bool) -> Seq<char> {
    let n = run.bytes.len();
    let literal = text_of(run.bytes);
    match run.kind {
        ByteClass::Digit => {
            if n >= 6 || (n >= 4 && !more) {
                literal.subrange(0, (n % 2) as int) + marker('5') + literal.subrange(
                    (n % 2) as int,
                    n as int,
                )
            } else {
                literal
            }
        },
        ByteClass::Symbol => match prev {
            Code::A => {
                if n >= 2 {
                    marker('6') + literal
                } else if n == 1 {
                    marker('7') + literal
                } else {
                    Seq::empty()
                }
            },
            Code::B => literal,
            Code::C => marker('6') + literal,
        },
        ByteClass::Control => match prev {
            Code::A => decimals(run.bytes, false),
            Code::B => {
                if n >= 1 {
                    marker('7') + decimals(run.bytes, true)
                } else {
                    Seq::empty()
                }
            },
            Code::C => marker('5') + decimals(run.bytes, true),
        },
        ByteClass::Invalid => Seq::empty(),
    }
}

/// The subset that is active behind a token that is not the first.
pub open spec fn next_subset(prev: Code, run: Run, more: bool) -> Code {
    let n = run.bytes.len();
    match run.kind {
        ByteClass::Digit => {
            if n >= 6 || (n >= 4 && !more) {
                Code::C
            } else {
                prev
            }
        },
        ByteClass::Symbol => {
            if prev == Code::A && n < 2 {
                Code::A
            } else {
                Code::B
            }
        },
        ByteClass::Control => {
            if prev == Code::B && n < 2 {
                Code::B
            } else {
                Code::A
            }
        },
        ByteClass::Invalid => prev,
    }
}

/// The class of the token behind the one at index `i`, if there is one.
pub open spec fn kind_behind(runs: Seq<Run>, i: int) -> Option<ByteClass> {
    if i + 1 < runs.len() {
        Some(runs[i + 1].kind)
    } else {
        None
    }
}

/// The encoder's state when it has consumed the first `k` of `runs`. With
/// no token consumed the payload is empty and the subset is B.
pub open spec fn state_after(runs: Seq<Run>, k: nat) -> EncoderState
    decreases k,
{
    if k == 0 {
        EncoderState { subset: Code::B, payload: Seq::empty() }
    } else if k == 1 {
        EncoderState {
            subset: first_subset(runs[0], kind_behind(runs, 0)),
            payload: first_emission(runs[0], kind_behind(runs, 0)),
        }
    } else {
        let before = state_after(runs, (k - 1) as nat);
        let run = runs[k - 1];
        let more = k < runs.len();
        EncoderState {
            subset: next_subset(before.subset, run, more),
            payload: before.payload + next_emission(before.subset, run, more),
        }
    }
}

/// The payload of a token sequence.
pub open spec fn payload_of_runs(runs: Seq<Run>) -> Seq<char> {
    state_after(runs, runs.len()).payload
}

/// The token sequence does not begin with two runs of digits.
pub open spec fn starts_cleanly(runs: Seq<Run>) -> bool {
    runs.len() >= 2 && runs[0].kind == ByteClass::Digit ==> runs[1].kind != ByteClass::Digit
}

/// Emits the first token and returns the subset that is active behind it.
pub fn encode_first(payload: &mut String, first: &Token, next: Option<ByteClass>) -> (subset: Code)
    requires
        !(first@.kind == ByteClass::Digit && next == Some(ByteClass::Digit)),
    ensures
        final(payload)@ == old(payload)@ + first_emission(first@, next),
        subset == first_subset(first@, next),
{
    match first {
        Token::Digits(c) => {
            if c.len() >= 4 {
                if c.len() % 2 != 0 {
                    match next {
                        Some(ByteClass::Control) => {
                            push_spliced(payload, ';', c, 2, '7');
                            Code::A
                        },
                        _ => {
                            push_spliced(payload, ';', c, 1, '6');
                            Code::B
                        },
                    }
                } else {
                    push_marker(payload, ';');
                    push_bytes(payload, c);
                    Code::C
                }
            } else {
                match next {
                    Some(ByteClass::Control) => {
                        push_marker(payload, '9');
                        push_bytes(payload, c);
                        Code::A
                    },
                    None => {
                        push_spliced(payload, ';', c, 2, '6');
                        Code::B
                    },
                    _ => {
                        push_marker(payload, ':');
                        push_bytes(payload, c);
                        Code::B
                    },
                }
            }
        },
        Token::Chars(c) => {
            push_marker(payload, ':');
            push_bytes(payload, c);
            Code::B
        },
        Token::Controls(c) => {
            push_marker(payload, '9');
            push_bytes(payload, c);
            Code::A
        },
    }
}

/// Emits a token that is not the first and returns the subset that is
/// active behind it.
pub fn encode_next(payload: &mut String, prev: Code, token: &Token, more: bool) -> (subset: Code)
    ensures
        final(payload)@ == old(payload)@ + next_emission(prev, token@, more),
        subset == next_subset(prev, token@, more),
{
    match token {
        Token::Digits(c) => {
            let len: usize = c.len();
            if len >= 6 || (len >= 4 && !more) {
                push_range(payload, c, 0, len % 2);
                push_marker(payload, '5');
                push_range(payload, c, len % 2, len);
                Code::C
            } else {
                push_bytes(payload, c);
                prev
            }
        },
        Token::Chars(c) => match prev {
            Code::A => {
                if c.len() >= 2 {
                    push_marker(payload, '6');
                    push_bytes(payload, c);
                    Code::B
                } else {
                    if c.len() == 1 {
                        push_marker(payload, '7');
                        push_bytes(payload, c);
                    }
                    Code::A
                }
            },
            Code::B => {
                push_bytes(payload, c);
                Code::B
            },
            Code::C => {
                push_marker(payload, '6');
                push_bytes(payload, c);
                Code::B
            },
        },
        Token::Controls(c) => match prev {
            Code::A => {
                push_decimals(payload, c, false);
                Code::A
            },
            Code::B => {
                if c.len() >= 1 {
                    push_marker(payload, '7');
                    push_decimals(payload, c, true);
                }
                if c.len() >= 2 {
                    Code::A
                } else {
                    Code::B
                }
            },
            Code::C => {
                push_marker(payload, '5');
                push_decimals(payload, c, true);
                Code::A
            },
        },
    }
}

/// Encodes a token sequence into a payload.
pub fn encode_tokens(tokens: Vec<Token>) -> (payload: String)
    requires
        starts_cleanly(runs_of(tokens@)),
    ensures
        payload@ == payload_of_runs(runs_of(tokens@)),
{
    let ghost runs: Seq<Run> = runs_of(tokens@);
    let mut payload: String = String::new();
    let count: usize = tokens.len();
    if count == 0 {
        return payload;
    }
    let next: Option<ByteClass> = if count > 1 {
        Some(tokens[1].kind())
    } else {
        None
    };
    let mut subset: Code = encode_first(&mut payload, &tokens[0], next);
    assert(payload@ =~= first_emission(runs[0], kind_behind(runs, 0)));
    let mut i: usize = 1;
    while i < count
        invariant
            1 <= i <= count,
            count == tokens.len(),
            runs == runs_of(tokens@),
            state_after(runs, i as nat) == (EncoderState { subset, payload: payload@ }),
        decreases count - i,
    {
        subset = encode_next(&mut payload, subset, &tokens[i], i + 1 < count);
        i += 1;
    }
    payload
}

/// The payload of an input without an invalid byte.
pub open spec fn payload_of(bytes: Seq<u8>) -> Seq<char> {
    payload_of_runs(tokens_of(bytes))
}

/// A result as a value of the model: the payload as its characters.
pub open spec fn result_text(r: Result<String, InvalidByteError>) -> Result<
    Seq<char>,
    InvalidByteError,
> {
    match r {
        Ok(payload) => Ok(payload@),
        Err(e) => Err(e),
    }
}

/// `r` is what encoding `bytes` gives: the payload of the token sequence
/// where every byte is valid, else the first invalid byte and its index.
pub open spec fn is_encoding(bytes: Seq<u8>, r: Result<Seq<char>, InvalidByteError>) -> bool {
    match r {
        Ok(payload) => all_valid(bytes) && payload == payload_of(bytes),
        Err(e) => first_invalid_from(bytes, 0, e),
    }
}

/// An input has one encoding and no other: whatever two results meet
/// `is_encoding` for the same bytes are equal.
pub proof fn lemma_encoding_unique(
    bytes: Seq<u8>,
    r1: Result<Seq<char>, InvalidByteError>,
    r2: Result<Seq<char>, InvalidByteError>,
)
    requires
        is_encoding(bytes, r1),
        is_encoding(bytes, r2),
    ensures
        r1 == r2,
{
    match (r1, r2) {
        (Err(e1), Err(e2)) => {
            if e1.position < e2.position {
                assert(spec_classify(bytes[e1.position as int]) != ByteClass::Invalid);
            } else if e2.position < e1.position {
                assert(spec_classify(bytes[e2.position as int]) != ByteClass::Invalid);
            }
        },
        (Ok(_), Err(e)) => {
            assert(spec_classify(bytes[e.position as int]) != ByteClass::Invalid);
        },
        (Err(e), Ok(_)) => {
            assert(spec_classify(bytes[e.position as int]) != ByteClass::Invalid);
        },
        (Ok(_), Ok(_)) => {},
    }
}

/// An input that holds the byte 0x7F or a byte from 0x80 on has no payload:
/// its encoding is an error.
pub proof fn lemma_invalid_byte_rejected(
    bytes: Seq<u8>,
    i: int,
    r: Result<Seq<char>, InvalidByteError>,
)
    requires
        0 <= i < bytes.len(),
        bytes[i] >= 0x7f,
        is_encoding(bytes, r),
    ensures
        r is Err,
{
    assert(spec_classify(bytes[i]) == ByteClass::Invalid);
}

/// An input in which every byte is below 0x7F has a payload: its encoding is
/// no error.
pub proof fn lemma_valid_input_accepted(bytes: Seq<u8>, r: Result<Seq<char>, InvalidByteError>)
    requires
        forall|i: int| 0 <= i < bytes.len() ==> bytes[i] < 0x7f,
        is_encoding(bytes, r),
    ensures
        r is Ok,
{
    if let Err(e) = r {
        assert(bytes[e.position as int] < 0x7f);
    }
}

/// Encodes a byte string into a payload: the payload of its token sequence
/// where every byte is valid, else the first invalid byte and its index.
pub fn encode_bytes(bytes: Vec<u8>) -> (r: Result<String, InvalidByteError>)
    ensures
        r is Ok <==> all_valid(bytes@),
        is_encoding(bytes@, result_text(r)),
{
    let ghost input: Seq<u8> = bytes@;
    let tokenizer: Tokenizer = Tokenizer::initialize(bytes);
    match tokenizer.collect() {
        Ok(tokens) => {
            proof {
                lemma_tokens_alternate(input);
            }
            Ok(encode_tokens(tokens))
        },
        Err(e) => Err(e),
    }
}

/// Encodes a string into a payload for a Code128 barcode field: the
/// encoding of the string's bytes.
pub fn encode(s: String) -> (r: Result<String, InvalidByteError>)
    ensures
        r is Ok <==> all_valid(encode_utf8(s@)),
        is_encoding(encode_utf8(s@), result_text(r)),
{
    encode_bytes(s.as_str().as_bytes_vec())
}

} // verus!
