//! Textual forms of bytes and tokens, for traces and messages.

use vstd::prelude::*;
use crate::classify::{is_ctrl, spec_is_ctrl};
use crate::text::{decimal, push_decimal};
use crate::token::{StrChar, Token};

verus! {

impl StrChar {
    /// The plain form: the character itself.
    pub open spec fn display_text(self) -> Seq<char> {
        seq![self.0 as char]
    }

    /// The form used in lists: a control code as its decimal value in round
    /// brackets, any other byte as the character itself.
    pub open spec fn debug_text(self) -> Seq<char> {
        if spec_is_ctrl(self.0) {
            seq!['('] + decimal(self.0) + seq![')']
        } else {
            seq![self.0 as char]
        }
    }

    /// The plain form as a string.
    pub fn display_string(&self) -> (s: String)
        ensures
            s@ == self.display_text(),
    {
        let mut s: String = String::new();
        s.push(self.to_char());
        assert(s@ =~= self.display_text());
        s
    }

    /// Appends the list form.
    pub fn push_debug(&self, s: &mut String)
        ensures
            final(s)@ == old(s)@ + self.debug_text(),
    {
        if is_ctrl(&self.0) {
            s.push('(');
            push_decimal(s, self.0, false);
            s.push(')');
        } else {
            s.push(self.to_char());
        }
        assert(s@ =~= old(s)@ + self.debug_text());
    }

    /// The list form as a string.
    pub fn debug_string(&self) -> (s: String)
        ensures
            s@ == self.debug_text(),
    {
        let mut s: String = String::new();
        self.push_debug(&mut s);
        assert(s@ =~= self.debug_text());
        s
    }
}

/// The list forms of `chars`, separated by a comma and a space.
pub open spec fn debug_items(chars: Seq<StrChar>) -> Seq<char>
    decreases chars.len(),
{
    if chars.len() == 0 {
        Seq::empty()
    } else if chars.len() == 1 {
        chars[0].debug_text()
    } else {
        debug_items(chars.drop_last()) + seq![',', ' '] + chars.last().debug_text()
    }
}

/// `chars` as a list in square brackets.
pub open spec fn debug_list(chars: Seq<StrChar>) -> Seq<char> {
    seq!['['] + debug_items(chars) + seq![']']
}

/// Appends `chars` as a list in square brackets.
fn push_debug_list(s: &mut String, chars: &Vec<StrChar>)
    ensures
        final(s)@ == old(s)@ + debug_list(chars@),
{
    s.push('[');
    let ghost opened: Seq<char> = s@;
    let mut i: usize = 0;
    while i < chars.len()
        invariant
            i <= chars.len(),
            opened == old(s)@ + seq!['['],
            s@ == opened + debug_items(chars@.subrange(0, i as int)),
        decreases chars.len() - i,
    {
        let ghost before: Seq<StrChar> = chars@.subrange(0, i as int);
        if i > 0 {
            s.push(',');
            s.push(' ');
        }
        chars[i].push_debug(s);
        i += 1;
        proof {
            let now: Seq<StrChar> = chars@.subrange(0, i as int);
            assert(now.drop_last() =~= before);
            assert(now.last() == chars[i - 1]);
            assert(now[0] == chars[0]);
            assert(s@ =~= opened + debug_items(now));
        }
    }
    assert(chars@.subrange(0, chars.len() as int) =~= chars@);
    s.push(']');
    assert(s@ =~= old(s)@ + debug_list(chars@));
}

impl Token {
    /// The name of the variant.
    pub open spec fn name(self) -> Seq<char> {
        match self {
            Token::Chars(_) => "Chars"@,
            Token::Digits(_) => "Digits"@,
            Token::Controls(_) => "Controls"@,
        }
    }

    /// The plain form: the variant's name and the bytes as a list.
    pub open spec fn display_text(self) -> Seq<char> {
        self.name() + debug_list(self.items())
    }

    /// The structural form: the variant's name and, in round brackets, the
    /// bytes as a list.
    pub open spec fn debug_text(self) -> Seq<char> {
        self.name() + seq!['('] + debug_list(self.items()) + seq![')']
    }

    /// The name of the variant as a string.
    fn name_string(&self) -> (s: String)
        ensures
            s@ == self.name(),
    {
        match self {
            Token::Chars(_) => "Chars".to_owned(),
            Token::Digits(_) => "Digits".to_owned(),
            Token::Controls(_) => "Controls".to_owned(),
        }
    }

    /// The plain form as a string.
    pub fn display_string(&self) -> (s: String)
        ensures
            s@ == self.display_text(),
    {
        let mut s: String = self.name_string();
        push_debug_list(&mut s, self.chars());
        s
    }

    /// The structural form as a string.
    pub fn debug_string(&self) -> (s: String)
        ensures
            s@ == self.debug_text(),
    {
        let mut s: String = self.name_string();
        s.push('(');
        push_debug_list(&mut s, self.chars());
        s.push(')');
        assert(s@ =~= self.debug_text());
        s
    }
}

} // verus!
