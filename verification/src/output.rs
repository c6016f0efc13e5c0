//! The character devices that diagnostics and the machine's traps talk to.
use crate::text::{chars_of, string_of};
use vstd::prelude::*;

verus! {

/// A character device: something that accepts characters one at a time and
/// hands characters out one at a time. The console is one; `WebIO` is one
/// that lives in memory.
pub trait SystemIO {
    fn print_char(&mut self, c: char);

    fn get_char(&mut self) -> char;
}

/// A device held in memory: what is printed is collected in `output`, what
/// is read comes from `input`, starting at `cursor`. `current_char` is the
/// character printed last. Reading at the end of the input gives `'\0'`.
#[allow(dead_code)]
pub struct WebIO {
    pub current_char: char,
    pub output: Vec<char>,
    pub input: Vec<char>,
    pub cursor: usize,
}

impl WebIO {
    /// Everything the device has been given to print and still holds.
    pub open spec fn written(&self) -> Seq<char> {
        self.output@
    }

    /// What the device will still hand out.
    pub open spec fn pending(&self) -> Seq<char> {
        if self.cursor <= self.input@.len() {
            self.input@.subrange(self.cursor as int, self.input@.len() as int)
        } else {
            Seq::empty()
        }
    }

    /// A device with nothing printed that will hand out the characters of
    /// `input`.
    pub fn new(input: &str) -> (io: WebIO)
        ensures
            io.written() == Seq::<char>::empty(),
            io.pending() == input@,
    {
        let io = WebIO { current_char: '\0', output: Vec::new(), input: chars_of(input), cursor: 0 };
        assert(io.input@.subrange(0, io.input@.len() as int) == io.input@);
        io
    }

    /// Everything printed so far, as a string.
    pub fn printed(&self) -> (s: String)
        ensures
            s@ == self.written(),
    {
        string_of(&self.output)
    }

    /// Whether nothing is left to hand out.
    pub fn is_drained(&self) -> (b: bool)
        ensures
            b == (self.pending().len() == 0),
    {
        self.cursor >= self.input.len()
    }

    /// Prints what this device holds on `other`, in order, and lets go of
    /// it. What is still to be handed out stays.
    pub fn drain_to<IO: SystemIO>(&mut self, other: &mut IO)
        ensures
            final(self).written() == Seq::<char>::empty(),
            final(self).pending() == old(self).pending(),
            final(self).current_char == old(self).current_char,
    {
        let mut i: usize = 0;
        while i < self.output.len()
            invariant
                i <= self.output@.len(),
                self.pending() == old(self).pending(),
                self.current_char == old(self).current_char,
            decreases self.output@.len() - i,
        {
            other.print_char(self.output[i]);
            i += 1;
        }
        self.output = Vec::new();
    }

    /// Reads one character from `other` and puts it at the end of what this
    /// device will hand out.
    pub fn feed_from<IO: SystemIO>(&mut self, other: &mut IO)
        ensures
            final(self).written() == old(self).written(),
            final(self).pending().len() == old(self).pending().len() + 1,
            final(self).pending().subrange(0, old(self).pending().len() as int) == old(self).pending(),
    {
        let c = other.get_char();
        if self.cursor > self.input.len() {
            self.cursor = self.input.len();
        }
        self.input.push(c);
        assert(self.pending().subrange(0, old(self).pending().len() as int) =~= old(self).pending());
    }
}

impl SystemIO for WebIO {
    /// Adds `c` to what is printed.
    fn print_char(&mut self, c: char)
        ensures
            final(self).written() == old(self).written().push(c),
            final(self).pending() == old(self).pending(),
            final(self).current_char == c,
    {
        self.current_char = c;
        self.output.push(c);
    }

    /// Hands out the next character of the input, or `'\0'` at its end.
    fn get_char(&mut self) -> (c: char)
        ensures
            final(self).written() == old(self).written(),
            old(self).pending().len() > 0 ==> c == old(self).pending()[0] && final(self).pending()
                == old(self).pending().drop_first(),
            old(self).pending().len() == 0 ==> c == '\0' && final(self).pending() == old(self).pending(),
    {
        if self.cursor < self.input.len() {
            let c = self.input[self.cursor];
            self.cursor += 1;
            assert(self.pending() == old(self).pending().drop_first());
            c
        } else {
            '\0'
        }
    }
}

} // verus!
