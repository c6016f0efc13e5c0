//! The machine's memory: 65,536 words of 16 bits.
use vstd::prelude::*;

verus! {

pub struct Memory {
    pub inner: [u16; 65536],
}

impl View for Memory {
    type V = Seq<u16>;

    open spec fn view(&self) -> Seq<u16> {
        self.inner@
    }
}

/// Memory after an image has been loaded: the word at the image's place `i`
/// (from one) sits at the address `origin + i - 1`, every other word is as
/// it was.
pub open spec fn loaded(mem: Seq<u16>, file: Seq<u16>) -> Seq<u16> {
    Seq::new(
        mem.len(),
        |a: int|
            if file.len() >= 1 && file[0] <= a < file[0] + file.len() - 1 {
                file[a - file[0] + 1]
            } else {
                mem[a]
            },
    )
}

#[allow(dead_code)]
impl Memory {
    /// A memory of zeros.
    pub fn new() -> (m: Memory)
        ensures
            m@.len() == 65536,
            forall|a: int| 0 <= a < 65536 ==> m@[a] == 0,
    {
        Memory { inner: [0;65536] }
    }

    /// Copies an image into memory. The first word of the image is the
    /// address at which the second word goes; the rest follow at the
    /// addresses after it.
    pub fn load_file(&mut self, file: Vec<u16>)
        requires
            file.len() >= 1,
            file[0] + (file.len() - 1) <= 65536,
        ensures
            final(self)@ == loaded(old(self)@, file@),
    {
        let origin: usize = file[0] as usize;
        let mut vec_i: usize = 1;
        while vec_i < file.len()
            invariant
                1 <= vec_i <= file.len(),
                origin == file[0],
                origin + (file.len() - 1) <= 65536,
                self@.len() == 65536,
                forall|a: int|
                    0 <= a < 65536 ==> self@[a] == (if origin <= a < origin + vec_i - 1 {
                        file[a - origin + 1]
                    } else {
                        old(self)@[a]
                    }),
            decreases file.len() - vec_i,
        {
            self.inner[origin + vec_i - 1] = file[vec_i];
            vec_i += 1;
        }
        assert(self@ =~= loaded(old(self)@, file@));
    }

    /// The word at address `loc`.
    pub fn get(&self, loc: u16) -> (val: u16)
        ensures
            val == self@[loc as int],
    {
        self.inner[loc as usize]
    }

    /// Writes `val` at address `loc`.
    pub fn set(&mut self, loc: u16, val: u16)
        ensures
            final(self)@ == old(self)@.update(loc as int, val),
    {
        self.inner[loc as usize] = val;
    }
}

} // verus!
