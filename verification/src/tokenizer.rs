//! The tokenizer: a cursor over the input bytes that hands out maximal runs
//! of bytes of one class, and the model of the token sequence of an input.

use vstd::prelude::*;
use crate::classify::{classify, spec_classify, ByteClass};
use crate::token::{convert_vec, runs_of, Run, Token};

verus! {

/// The input holds a byte that no token can carry.
#[derive(Clone, Copy, PartialEq, Eq, Structural, Debug)]
pub struct InvalidByteError {
    /// The offending byte.
    pub byte: u8,
    /// Its index in the input.
    pub position: usize,
}

/// How many bytes of `s`, counted from index `from` on, have class `class`
/// without interruption.
pub open spec fn run_len(s: Seq<u8>, class: ByteClass, from: int) -> nat
    decreases s.len() - from,
{
    if 0 <= from < s.len() && spec_classify(s[from]) == class {
        1 + run_len(s, class, from + 1)
    } else {
        0
    }
}

/// The index just behind the maximal run that begins at `start`.
pub open spec fn run_end(s: Seq<u8>, start: int) -> int {
    start + 1 + run_len(s, spec_classify(s[start]), start + 1)
}

/// The maximal run that begins at `start`.
pub open spec fn run_at(s: Seq<u8>, start: int) -> Run {
    Run { kind: spec_classify(s[start]), bytes: s.subrange(start, run_end(s, start)) }
}

/// The runs of `s` from index `start` on, up to the end of the input or to
/// the first invalid byte, whichever comes first.
pub open spec fn runs_from(s: Seq<u8>, start: int) -> Seq<Run>
    decreases s.len() - start,
    via runs_from_decreases
{
    if 0 <= start < s.len() && spec_classify(s[start]) != ByteClass::Invalid {
        seq![run_at(s, start)] + runs_from(s, run_end(s, start))
    } else {
        Seq::empty()
    }
}

#[via_fn]
proof fn runs_from_decreases(s: Seq<u8>, start: int) {
    if 0 <= start < s.len() {
        lemma_run_len_bound(s, spec_classify(s[start]), start + 1);
    }
}

/// A run never reaches beyond the end of the input.
pub proof fn lemma_run_len_bound(s: Seq<u8>, class: ByteClass, from: int)
    requires
        0 <= from <= s.len(),
    ensures
        from + run_len(s, class, from) <= s.len(),
    decreases s.len() - from,
{
    if from < s.len() && spec_classify(s[from]) == class {
        lemma_run_len_bound(s, class, from + 1);
    }
}

/// The token sequence of a whole input.
pub open spec fn tokens_of(s: Seq<u8>) -> Seq<Run> {
    runs_from(s, 0)
}

/// No byte of `s` from index `from` on is invalid.
pub open spec fn all_valid_from(s: Seq<u8>, from: int) -> bool {
    forall|i: int| from <= i < s.len() ==> spec_classify(#[trigger] s[i]) != ByteClass::Invalid
}

/// No byte of `s` is invalid.
pub open spec fn all_valid(s: Seq<u8>) -> bool {
    all_valid_from(s, 0)
}

/// `e` names the first invalid byte of `s` at or behind index `from`.
pub open spec fn first_invalid_from(s: Seq<u8>, from: int, e: InvalidByteError) -> bool {
    &&& from <= e.position < s.len()
    &&& e.byte == s[e.position as int]
    &&& spec_classify(e.byte) == ByteClass::Invalid
    &&& forall|i: int| from <= i < e.position ==> spec_classify(#[trigger] s[i]) != ByteClass::Invalid
}

/// The bytes of consecutive runs, one after the other.
pub open spec fn joined_bytes(runs: Seq<Run>) -> Seq<u8>
    decreases runs.len(),
{
    if runs.len() == 0 {
        Seq::empty()
    } else {
        runs.first().bytes + joined_bytes(runs.drop_first())
    }
}

/// No two neighbours in `runs` have the same class.
pub open spec fn alternating(runs: Seq<Run>) -> bool {
    forall|i: int, j: int|
        0 <= i && j == i + 1 && j < runs.len() ==> (#[trigger] runs[i]).kind != (
        #[trigger] runs[j]).kind
}

/// Every byte that `run_len` counts has the class asked for, and the byte
/// behind them, if there is one, has another.
pub proof fn lemma_run_len_maximal(s: Seq<u8>, class: ByteClass, from: int)
    requires
        0 <= from <= s.len(),
    ensures
        forall|i: int|
            from <= i < from + run_len(s, class, from) ==> spec_classify(#[trigger] s[i]) == class,
        from + run_len(s, class, from) < s.len() ==> spec_classify(
            s[from + run_len(s, class, from)],
        ) != class,
    decreases s.len() - from,
{
    if from < s.len() && spec_classify(s[from]) == class {
        lemma_run_len_maximal(s, class, from + 1);
    }
}

/// The run that begins at a byte is not empty, ends within the input, holds
/// only bytes of the class of its first byte, and is followed by the end of
/// the input or by a byte of another class.
pub proof fn lemma_run_at(s: Seq<u8>, start: int)
    requires
        0 <= start < s.len(),
    ensures
        start < run_end(s, start) <= s.len(),
        run_at(s, start).bytes.len() == run_end(s, start) - start,
        forall|i: int|
            0 <= i < run_at(s, start).bytes.len() ==> spec_classify(
                #[trigger] run_at(s, start).bytes[i],
            ) == run_at(s, start).kind,
        run_end(s, start) < s.len() ==> spec_classify(s[run_end(s, start)]) != spec_classify(
            s[start],
        ),
{
    let class = spec_classify(s[start]);
    lemma_run_len_bound(s, class, start + 1);
    lemma_run_len_maximal(s, class, start + 1);
    assert forall|i: int| 0 <= i < run_at(s, start).bytes.len() implies spec_classify(
        #[trigger] run_at(s, start).bytes[i],
    ) == class by {
        assert(run_at(s, start).bytes[i] == s[start + i]);
    }
}

/// Every run from `start` on is well formed: it is not empty and each of its
/// bytes has the run's class.
pub proof fn lemma_runs_well_formed(s: Seq<u8>, start: int)
    ensures
        forall|i: int|
            0 <= i < runs_from(s, start).len() ==> (#[trigger] runs_from(s, start)[i]).well_formed(),
    decreases s.len() - start,
{
    if 0 <= start < s.len() && spec_classify(s[start]) != ByteClass::Invalid {
        let end = run_end(s, start);
        lemma_run_at(s, start);
        lemma_runs_well_formed(s, end);
        let runs = runs_from(s, start);
        let rest = runs_from(s, end);
        assert forall|i: int| 0 <= i < runs.len() implies (#[trigger] runs[i]).well_formed() by {
            if i > 0 {
                assert(runs[i] == rest[i - 1]);
            }
        }
    }
}

/// No two consecutive runs from `start` on have the same class.
pub proof fn lemma_runs_alternate(s: Seq<u8>, start: int)
    ensures
        alternating(runs_from(s, start)),
    decreases s.len() - start,
{
    if 0 <= start < s.len() && spec_classify(s[start]) != ByteClass::Invalid {
        let end = run_end(s, start);
        lemma_run_at(s, start);
        lemma_runs_alternate(s, end);
        let runs = runs_from(s, start);
        let rest = runs_from(s, end);
        assert forall|i: int, j: int| 0 <= i && j == i + 1 && j < runs.len() implies (
        #[trigger] runs[i]).kind != (#[trigger] runs[j]).kind by {
            assert(runs[j] == rest[i]);
            if i == 0 {
                assert(rest[0] == run_at(s, end));
            } else {
                assert(runs[i] == rest[i - 1]);
            }
        }
    }
}

/// Where no invalid byte stands at or behind `start`, the bytes of the runs
/// from `start` on, one after the other, are the input from `start` on.
pub proof fn lemma_runs_cover(s: Seq<u8>, start: int)
    requires
        0 <= start <= s.len(),
        all_valid_from(s, start),
    ensures
        joined_bytes(runs_from(s, start)) == s.subrange(start, s.len() as int),
    decreases s.len() - start,
{
    if start < s.len() {
        let end = run_end(s, start);
        lemma_run_at(s, start);
        lemma_runs_cover(s, end);
        let runs = runs_from(s, start);
        assert(runs.drop_first() =~= runs_from(s, end));
        assert(joined_bytes(runs) =~= s.subrange(start, s.len() as int));
    } else {
        assert(joined_bytes(runs_from(s, start)) =~= s.subrange(start, s.len() as int));
    }
}

/// Every token of an input is well formed: it is not empty and each of its
/// bytes has the token's class.
pub proof fn lemma_tokens_well_formed(s: Seq<u8>)
    ensures
        forall|i: int| 0 <= i < tokens_of(s).len() ==> (#[trigger] tokens_of(s)[i]).well_formed(),
{
    lemma_runs_well_formed(s, 0);
}

/// No two consecutive tokens of an input have the same class.
pub proof fn lemma_tokens_alternate(s: Seq<u8>)
    ensures
        alternating(tokens_of(s)),
{
    lemma_runs_alternate(s, 0);
}

/// The bytes of all tokens of an input without an invalid byte, one after the
/// other, are the input.
pub proof fn lemma_tokens_cover(s: Seq<u8>)
    requires
        all_valid(s),
    ensures
        joined_bytes(tokens_of(s)) == s,
{
    lemma_runs_cover(s, 0);
    assert(s.subrange(0, s.len() as int) =~= s);
}

/// Takes the byte under the cursor, if there is one, and every byte of class
/// `class` that follows it directly; the cursor moves behind what was taken.
pub fn chunk(source: &Vec<u8>, cursor: &mut usize, class: ByteClass) -> (run: Vec<u8>)
    requires
        *old(cursor) <= source.len(),
    ensures
        *old(cursor) <= *final(cursor) <= source.len(),
        run@ == source@.subrange(*old(cursor) as int, *final(cursor) as int),
        *final(cursor) == if *old(cursor) < source.len() {
            *old(cursor) + 1 + run_len(source@, class, *old(cursor) + 1)
        } else {
            *old(cursor) as int
        },
{
    let ghost start: int = *cursor as int;
    let ghost target: int = start + 1 + run_len(source@, class, start + 1);
    let mut run: Vec<u8> = Vec::new();
    let mut flag: bool = *cursor < source.len();
    while flag
        invariant
            0 <= start <= *cursor <= source.len(),
            run@ == source@.subrange(start, *cursor as int),
            flag ==> *cursor < source.len() && *cursor + 1 + run_len(source@, class, *cursor + 1)
                == target,
            !flag && start < source.len() ==> *cursor == target,
        decreases source.len() - *cursor + (if flag { 1int } else { 0int }),
    {
        run.push(source[*cursor]);
        *cursor += 1;
        flag = *cursor < source.len() && classify(source[*cursor]) == class;
        assert(run@ =~= source@.subrange(start, *cursor as int));
    }
    run
}

/// A cursor over the input that hands out one token at a time.
pub struct Tokenizer {
    source: Vec<u8>,
    cursor: usize,
}

impl Tokenizer {
    #[verifier::type_invariant]
    spec fn cursor_in_bounds(self) -> bool {
        self.cursor <= self.source.len()
    }

    /// The whole input.
    pub closed spec fn source(self) -> Seq<u8> {
        self.source@
    }

    /// The index of the next byte to read.
    pub closed spec fn position(self) -> int {
        self.cursor as int
    }

    /// A tokenizer at the start of `source`.
    pub fn initialize(source: Vec<u8>) -> (tokenizer: Tokenizer)
        ensures
            tokenizer.source() == source@,
            tokenizer.position() == 0,
    {
        Tokenizer { source, cursor: 0 }
    }

    /// The next token. `Ok(None)` at the end of the input; an error, with the
    /// cursor left in place, where the byte under the cursor is invalid.
    pub fn next(&mut self) -> (r: Result<Option<Token>, InvalidByteError>)
        ensures
            final(self).source() == old(self).source(),
            0 <= old(self).position() <= final(self).position() <= old(self).source().len(),
            match r {
                Ok(None) => {
                    &&& old(self).position() == old(self).source().len()
                    &&& final(self).position() == old(self).position()
                },
                Ok(Some(token)) => {
                    &&& old(self).position() < old(self).source().len()
                    &&& token@ == run_at(old(self).source(), old(self).position())
                    &&& token@.kind != ByteClass::Invalid
                    &&& final(self).position() == run_end(old(self).source(), old(self).position())
                },
                Err(e) => {
                    &&& old(self).position() < old(self).source().len()
                    &&& e.position == old(self).position()
                    &&& e.byte == old(self).source()[old(self).position()]
                    &&& spec_classify(e.byte) == ByteClass::Invalid
                    &&& final(self).position() == old(self).position()
                },
            },
    {
        proof {
            use_type_invariant(&*self);
        }
        if self.cursor >= self.source.len() {
            return Ok(None);
        }
        let b: u8 = self.source[self.cursor];
        match classify(b) {
            ByteClass::Digit => {
                let mut cursor: usize = self.cursor;
                let run: Vec<u8> = chunk(&self.source, &mut cursor, ByteClass::Digit);
                self.cursor = cursor;
                Ok(Some(Token::Digits(convert_vec(run))))
            },
            ByteClass::Symbol => {
                let mut cursor: usize = self.cursor;
                let run: Vec<u8> = chunk(&self.source, &mut cursor, ByteClass::Symbol);
                self.cursor = cursor;
                Ok(Some(Token::Chars(convert_vec(run))))
            },
            ByteClass::Control => {
                let mut cursor: usize = self.cursor;
                let run: Vec<u8> = chunk(&self.source, &mut cursor, ByteClass::Control);
                self.cursor = cursor;
                Ok(Some(Token::Controls(convert_vec(run))))
            },
            ByteClass::Invalid => Err(InvalidByteError { byte: b, position: self.cursor }),
        }
    }

    /// All tokens from the cursor to the end of the input, or the first
    /// invalid byte at or behind the cursor.
    pub fn collect(self) -> (r: Result<Vec<Token>, InvalidByteError>)
        ensures
            r is Ok <==> all_valid_from(self.source(), self.position()),
            match r {
                Ok(tokens) => runs_of(tokens@) == runs_from(self.source(), self.position()),
                Err(e) => first_invalid_from(self.source(), self.position(), e),
            },
    {
        let mut tokenizer: Tokenizer = self;
        let mut tokens: Vec<Token> = Vec::new();
        loop
            invariant
                tokenizer.source() == self.source(),
                self.position() <= tokenizer.position(),
                forall|i: int|
                    self.position() <= i < tokenizer.position() ==> spec_classify(
                        #[trigger] self.source()[i],
                    ) != ByteClass::Invalid,
                runs_of(tokens@) + runs_from(self.source(), tokenizer.position()) == runs_from(
                    self.source(),
                    self.position(),
                ),
            decreases self.source().len() - tokenizer.position(),
        {
            let ghost at: int = tokenizer.position();
            let ghost before: Seq<Run> = runs_of(tokens@);
            match tokenizer.next() {
                Ok(None) => {
                    assert(runs_of(tokens@) =~= runs_from(self.source(), self.position()));
                    return Ok(tokens);
                },
                Ok(Some(token)) => {
                    proof {
                        lemma_run_at(self.source(), at);
                        assert forall|i: int| at <= i < run_end(self.source(), at) implies spec_classify(
                            #[trigger] self.source()[i],
                        ) != ByteClass::Invalid by {
                            assert(self.source()[i] == run_at(self.source(), at).bytes[i - at]);
                        }
                    }
                    tokens.push(token);
                    assert(runs_of(tokens@) =~= before.push(token@));
                    assert(runs_of(tokens@) + runs_from(self.source(), tokenizer.position())
                        =~= before + runs_from(self.source(), at));
                },
                Err(e) => {
                    return Err(e);
                },
            }
        }
    }
}

} // verus!
