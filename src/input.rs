//! The parser's input: a character sequence with a cursor, and the two
//! kinds of parse failure.

use vstd::prelude::*;
use crate::chars::string_of;
use vstd::std_specs::iter::IteratorSpec;

verus! {

/// Why a parser did not produce a value. `Error` means "not this
/// construct": the caller may try another. `Fatal` means the input is
/// malformed; it carries messages from the innermost context outward.
#[derive(Debug)]
pub enum ParseError {
    Error,
    Fatal(Vec<String>),
}

/// The texts of a sequence of messages.
pub open spec fn texts(fs: Seq<String>) -> Seq<Seq<char>> {
    fs.map_values(|s: String| s@)
}

/// The lines `ls` joined with line breaks between them.
pub open spec fn joined(ls: Seq<Seq<char>>) -> Seq<char>
    decreases ls.len(),
{
    if ls.len() == 0 {
        Seq::empty()
    } else if ls.len() == 1 {
        ls[0]
    } else {
        joined(ls.drop_last()) + "\n"@ + ls.last()
    }
}

/// The rendering of a parse failure.
pub open spec fn error_text(e: ParseError) -> Seq<char> {
    match e {
        ParseError::Error => "Error"@,
        ParseError::Fatal(fs) => "Fatal:\n "@ + joined(texts(fs@)),
    }
}

impl ParseError {
    /// The failure as text: `Error`, or `Fatal:` and its messages one per line.
    pub fn display(&self) -> (r: String)
        ensures
            r@ == error_text(*self),
    {
        match self {
            ParseError::Error => String::from_str("Error"),
            ParseError::Fatal(fs) => {
                let mut out = String::from_str("Fatal:\n ");
                let mut i: usize = 0;
                while i < fs.len()
                    invariant
                        i <= fs@.len(),
                        out@ == "Fatal:\n "@ + joined(texts(fs@.take(i as int))),
                    decreases fs.len() - i,
                {
                    proof {
                        assert(texts(fs@.take(i + 1)).drop_last() =~= texts(fs@.take(i as int)));
                        assert(texts(fs@.take(i + 1)).last() == fs@[i as int]@);
                    }
                    if i > 0 {
                        out.append("\n");
                    }
                    out.append(fs[i].as_str());
                    proof {
                        if i == 0 {
                            assert(texts(fs@.take(1)) =~= seq![fs@[0]@]);
                            assert(texts(fs@.take(0)) =~= Seq::<Seq<char>>::empty());
                        }
                        assert(out@ =~= "Fatal:\n "@ + joined(texts(fs@.take(i + 1))));
                    }
                    i = i + 1;
                }
                assert(fs@.take(fs@.len() as int) =~= fs@);
                out
            },
        }
    }
}

/// Characters and a cursor into them.
#[derive(Debug, Clone)]
pub struct Input {
    cs: Vec<char>,
    pos: usize,
}

impl Input {
    /// All the characters of the input.
    pub closed spec fn chars(&self) -> Seq<char> {
        self.cs@
    }

    /// The cursor: how many characters have been consumed.
    pub closed spec fn pos(&self) -> int {
        self.pos as int
    }

    /// The cursor lies within the characters.
    pub open spec fn wf(&self) -> bool {
        0 <= self.pos() <= self.chars().len()
    }

    /// Whether `other` is this input with the cursor moved to `p`.
    pub open spec fn moved_to(&self, other: &Input, p: int) -> bool {
        other.chars() == self.chars() && other.pos() == p
    }

    /// Whether `other` is this input with the cursor moved on (or kept).
    pub open spec fn went_on(&self, other: &Input) -> bool {
        other.wf() && other.chars() == self.chars() && self.pos() <= other.pos()
    }

    /// How many characters are left after the cursor.
    pub open spec fn remaining(&self) -> int {
        self.chars().len() - self.pos()
    }

    /// Input over the characters of `s`, with nothing consumed.
    pub fn new(s: &str) -> (r: Input)
        ensures
            r.chars() == s@,
            r.pos() == 0,
            r.wf(),
    {
        let mut cs: Vec<char> = Vec::new();
        let mut it = s.chars();
        proof {
            broadcast use vstd::string::group_string_axioms;
        }
        loop
            invariant
                cs@ + it.remaining() == s@,
                it.decrease() is Some,
            ensures
                cs@ == s@,
            decreases it.decrease()->0,
        {
            match it.next() {
                Some(c) => {
                    proof {
                        broadcast use vstd::string::group_string_axioms;
                    }
                    cs.push(c);
                },
                None => {
                    break;
                },
            }
        }
        Input { cs, pos: 0 }
    }

    /// Makes this input what `r` is.
    pub fn restore(&mut self, r: Input)
        ensures
            *final(self) == r,
    {
        *self = r;
    }

    /// Consumes and returns the next character, or fails with `Error` at the end.
    pub fn next(&mut self) -> (r: Result<char, ParseError>)
        requires
            old(self).wf(),
        ensures
            final(self).wf(),
            old(self).pos() < old(self).chars().len() ==> old(self).moved_to(final(self), old(self).pos() + 1)
                && (r matches Ok(c) && c == old(self).chars()[old(self).pos()]),
            old(self).pos() >= old(self).chars().len() ==> *final(self) == *old(self) && (r matches Err(ParseError::Error)),
    {
        if self.pos < self.cs.len() {
            let c = self.cs[self.pos];
            self.pos = self.pos + 1;
            Ok(c)
        } else {
            Err(ParseError::Error)
        }
    }

    /// The next character, without consuming it, or `Error` at the end.
    pub fn peek(&self) -> (r: Result<char, ParseError>)
        requires
            self.wf(),
        ensures
            self.pos() < self.chars().len() ==> (r matches Ok(c) && c == self.chars()[self.pos()]),
            self.pos() >= self.chars().len() ==> (r matches Err(ParseError::Error)),
    {
        if self.pos < self.cs.len() {
            Ok(self.cs[self.pos])
        } else {
            Err(ParseError::Error)
        }
    }

    /// The cursor, for a later `rewind`.
    pub fn position(&self) -> (r: usize)
        requires
            self.wf(),
        ensures
            r == self.pos(),
    {
        self.pos
    }

    /// Moves the cursor back (or on) to `p`.
    pub fn rewind(&mut self, p: usize)
        requires
            old(self).wf(),
            p <= old(self).chars().len(),
        ensures
            final(self).wf(),
            old(self).moved_to(final(self), p as int),
    {
        self.pos = p;
    }

    /// The characters from `from` up to the cursor, as a string.
    pub fn text_since(&self, from: usize) -> (r: String)
        requires
            self.wf(),
            from <= self.pos(),
        ensures
            r@ == self.chars().subrange(from as int, self.pos()),
    {
        let mut cs: Vec<char> = Vec::new();
        let mut i: usize = from;
        while i < self.pos
            invariant
                from <= i <= self.pos <= self.cs@.len(),
                cs@ == self.cs@.subrange(from as int, i as int),
            decreases self.pos - i,
        {
            cs.push(self.cs[i]);
            i = i + 1;
            assert(cs@ =~= self.cs@.subrange(from as int, i as int));
        }
        string_of(&cs)
    }
}

} // verus!
