//! Tokens: classified runs of input bytes, and their mathematical model.

use vstd::prelude::*;
use crate::classify::{spec_classify, ByteClass};

verus! {

/// One raw input byte, kept as a byte and shown as the character with that code.
#[derive(Clone, Copy, PartialEq, Eq, Structural, Debug)]
pub struct StrChar(pub u8);

impl View for StrChar {
    type V = u8;

    open spec fn view(&self) -> u8 {
        self.0
    }
}

impl StrChar {
    /// The character whose code point is this byte.
    pub fn to_char(&self) -> (c: char)
        ensures
            c == self.0 as char,
    {
        self.0 as char
    }
}

/// The bytes that a sequence of `StrChar` holds.
pub open spec fn bytes_of(chars: Seq<StrChar>) -> Seq<u8> {
    Seq::new(chars.len(), |i: int| chars[i].0)
}

/// Wraps every byte of `v`, in order.
pub fn convert_vec(v: Vec<u8>) -> (chars: Vec<StrChar>)
    ensures
        bytes_of(chars@) == v@,
{
    let mut chars: Vec<StrChar> = Vec::new();
    let mut i: usize = 0;
    while i < v.len()
        invariant
            i <= v.len(),
            chars.len() == i,
            forall|k: int| 0 <= k < i ==> (#[trigger] chars[k]).0 == v[k],
        decreases v.len() - i,
    {
        chars.push(StrChar(v[i]));
        i += 1;
    }
    assert(bytes_of(chars@) =~= v@);
    chars
}

/// The model of a token: a class and the bytes of the run.
pub struct Run {
    pub kind: ByteClass,
    pub bytes: Seq<u8>,
}

impl Run {
    /// A run is well formed when it is not empty, its class is one of the
    /// three that tokens carry, and every byte of it has that class.
    pub open spec fn well_formed(self) -> bool {
        &&& self.kind != ByteClass::Invalid
        &&& self.bytes.len() > 0
        &&& forall|i: int| 0 <= i < self.bytes.len() ==> spec_classify(#[trigger] self.bytes[i]) == self.kind
    }
}

/// A maximal run of input bytes of one class.
#[derive(PartialEq, Eq, Debug)]
pub enum Token {
    /// Printable characters other than digits.
    Chars(Vec<StrChar>),
    /// ASCII digits.
    Digits(Vec<StrChar>),
    /// ASCII control codes.
    Controls(Vec<StrChar>),
}

impl View for Token {
    type V = Run;

    open spec fn view(&self) -> Run {
        Run { kind: self.class(), bytes: bytes_of(self.items()) }
    }
}

impl Token {
    /// The class that the variant stands for.
    pub open spec fn class(self) -> ByteClass {
        match self {
            Token::Chars(_) => ByteClass::Symbol,
            Token::Digits(_) => ByteClass::Digit,
            Token::Controls(_) => ByteClass::Control,
        }
    }

    /// What the token holds, whatever its variant.
    pub open spec fn items(self) -> Seq<StrChar> {
        match self {
            Token::Chars(c) => c@,
            Token::Digits(c) => c@,
            Token::Controls(c) => c@,
        }
    }

    /// The class of the bytes that this token holds.
    pub fn kind(&self) -> (kind: ByteClass)
        ensures
            kind == self.class(),
    {
        match self {
            Token::Chars(_) => ByteClass::Symbol,
            Token::Digits(_) => ByteClass::Digit,
            Token::Controls(_) => ByteClass::Control,
        }
    }

    /// The bytes of the run, whatever its class.
    pub fn chars(&self) -> (chars: &Vec<StrChar>)
        ensures
            chars@ == self.items(),
    {
        match self {
            Token::Chars(c) => c,
            Token::Digits(c) => c,
            Token::Controls(c) => c,
        }
    }
}

/// The models of a sequence of tokens, in order.
pub open spec fn runs_of(tokens: Seq<Token>) -> Seq<Run> {
    Seq::new(tokens.len(), |i: int| tokens[i]@)
}

} // verus!
