//! The frame buffer: one refresh cycle accumulates every byte of terminal
//! output here, and the surrounding driver emits it in a single write.

use vstd::prelude::*;

verus! {

/// The in-memory output buffer of the render pipeline.
pub struct Content {
    pub content: Vec<char>,
}

impl Content {
    /// An empty buffer.
    pub fn new() -> (c: Content)
        ensures
            c.content@ == Seq::<char>::empty(),
    {
        Content { content: Vec::new() }
    }

    /// Appends one character.
    pub fn push(&mut self, ch: char)
        ensures
            final(self).content@ == old(self).content@.push(ch),
    {
        self.content.push(ch);
    }

    /// Appends a sequence of characters.
    pub fn push_str(&mut self, s: &Vec<char>)
        ensures
            final(self).content@ == old(self).content@ + s@,
    {
        let n = s.len();
        let mut i: usize = 0;
        while i < n
            invariant
                0 <= i <= n,
                n == s@.len(),
                self.content@ == old(self).content@ + s@.take(i as int),
            decreases n - i,
        {
            self.content.push(s[i]);
            proof {
                assert(s@.take(i as int).push(s@[i as int]) =~= s@.take(i as int + 1));
                assert((old(self).content@ + s@.take(i as int)).push(s@[i as int])
                    =~= old(self).content@ + s@.take(i as int + 1));
            }
            i += 1;
        }
        proof {
            assert(s@.take(n as int) =~= s@);
        }
    }
}

} // verus!
