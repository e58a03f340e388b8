//! The lexical cursor: a peekable character stream over one input line, with
//! whitespace skipping and single-character lookahead. Consumption is
//! destructive and single-direction.

use vstd::prelude::*;
use vstd::string::StrSliceExecFns;
use crate::chars::{is_whitespace_char, spec_is_whitespace_char};

verus! {

/// The characters of `s` that remain after dropping every leading Unicode
/// whitespace character.
pub open spec fn spec_skip_ws(s: Seq<char>) -> Seq<char>
    decreases s.len(),
{
    if s.len() > 0 && spec_is_whitespace_char(s[0]) {
        spec_skip_ws(s.skip(1))
    } else {
        s
    }
}

pub proof fn lemma_skip_ws(s: Seq<char>)
    ensures
        spec_skip_ws(s).len() <= s.len(),
        spec_skip_ws(s).len() > 0 ==> !spec_is_whitespace_char(spec_skip_ws(s)[0]),
    decreases s.len(),
{
    if s.len() > 0 && spec_is_whitespace_char(s[0]) {
        lemma_skip_ws(s.skip(1));
    }
}

/// A peekable cursor over the characters of one source line.
pub struct Cursor {
    text: Vec<char>,
    pos: usize,
}

impl Cursor {
    /// The characters not yet consumed.
    pub closed spec fn remaining(self) -> Seq<char> {
        self.text@.skip(self.pos as int)
    }

    pub closed spec fn wf(self) -> bool {
        self.pos <= self.text.len()
    }

    /// Opens a cursor over the whole line.
    pub fn new(line: &str) -> (c: Cursor)
        ensures
            c.wf(),
            c.remaining() == line@,
    {
        let n = line.unicode_len();
        let mut text: Vec<char> = Vec::new();
        let mut i: usize = 0;
        while i < n
            invariant
                n == line@.len(),
                i <= n,
                text@ == line@.take(i as int),
            decreases n - i,
        {
            text.push(line.get_char(i));
            i = i + 1;
            proof {
                assert(text@ =~= line@.take(i as int));
            }
        }
        proof {
            assert(text@ =~= line@);
        }
        let c = Cursor { text, pos: 0 };
        proof {
            assert(c.remaining() =~= line@);
        }
        c
    }

    /// Non-consuming lookahead at the next character.
    pub fn peek(&self) -> (r: Option<char>)
        requires
            self.wf(),
        ensures
            match r {
                Some(c) => self.remaining().len() > 0 && c == self.remaining()[0],
                None => self.remaining().len() == 0,
            },
    {
        if self.pos < self.text.len() {
            Some(self.text[self.pos])
        } else {
            None
        }
    }

    /// Consumes and returns the next character.
    pub fn advance(&mut self) -> (r: Option<char>)
        requires
            old(self).wf(),
        ensures
            final(self).wf(),
            match r {
                Some(c) => old(self).remaining().len() > 0 && c == old(self).remaining()[0]
                    && final(self).remaining() == old(self).remaining().skip(1),
                None => old(self).remaining().len() == 0 && final(self).remaining()
                    == old(self).remaining(),
            },
    {
        if self.pos < self.text.len() {
            let c = self.text[self.pos];
            self.pos = self.pos + 1;
            proof {
                assert(self.remaining() =~= old(self).remaining().skip(1));
            }
            Some(c)
        } else {
            None
        }
    }
}

/// Consumes the run of leading whitespace, leaving the cursor at the next
/// non-whitespace character or at end of input.
pub fn skip_whitespace(cur: &mut Cursor)
    requires
        old(cur).wf(),
    ensures
        final(cur).wf(),
        final(cur).remaining() == spec_skip_ws(old(cur).remaining()),
        final(cur).remaining().len() <= old(cur).remaining().len(),
        final(cur).remaining().len() > 0 ==> !spec_is_whitespace_char(final(cur).remaining()[0]),
{
    loop
        invariant
            cur.wf(),
            spec_skip_ws(cur.remaining()) == spec_skip_ws(old(cur).remaining()),
            cur.remaining().len() <= old(cur).remaining().len(),
        decreases cur.remaining().len(),
    {
        match cur.peek() {
            Some(c) => {
                if is_whitespace_char(c) {
                    cur.advance();
                } else {
                    proof {
                        lemma_skip_ws(old(cur).remaining());
                    }
                    return ;
                }
            },
            None => {
                proof {
                    lemma_skip_ws(old(cur).remaining());
                }
                return ;
            },
        }
    }
}

} // verus!
