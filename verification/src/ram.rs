//! Memory: a flat 4096-byte address space with the built-in hexadecimal
//! glyph font resident at 0x50..=0x9F. Every access is bounds-checked;
//! an address above 0xFFF yields `AddressOutOfBounds`.
use vstd::prelude::*;
use crate::Restart;

verus! {

/// The built-in glyph font: 16 characters, 5 bytes each, "0" first.
pub open spec fn font() -> Seq<u8> {
    seq![
        0xF0u8, 0x90, 0x90, 0x90, 0xF0, // 0
        0x20, 0x60, 0x20, 0x20, 0x70, // 1
        0xF0, 0x10, 0xF0, 0x80, 0xF0, // 2
        0xF0, 0x10, 0xF0, 0x10, 0xF0, // 3
        0x90, 0x90, 0xF0, 0x10, 0x10, // 4
        0xF0, 0x80, 0xF0, 0x10, 0xF0, // 5
        0xF0, 0x80, 0xF0, 0x90, 0xF0, // 6
        0xF0, 0x10, 0x20, 0x40, 0x40, // 7
        0xF0, 0x90, 0xF0, 0x90, 0xF0, // 8
        0xF0, 0x90, 0xF0, 0x10, 0xF0, // 9
        0xF0, 0x90, 0xF0, 0x90, 0x90, // A
        0xE0, 0x90, 0xE0, 0x90, 0xE0, // B
        0xF0, 0x80, 0x80, 0x80, 0xF0, // C
        0xE0, 0x90, 0x90, 0x90, 0xE0, // D
        0xF0, 0x80, 0xF0, 0x80, 0xF0, // E
        0xF0, 0x80, 0xF0, 0x80, 0x80, // F
    ]
}

/// Memory contents of a fresh machine: all zero but for the font region.
pub open spec fn mem_init() -> Seq<u8> {
    Seq::new(4096, |i: int| if 0x50 <= i < 0xA0 { font()[i - 0x50] } else { 0u8 })
}

#[derive(Debug, Clone, Copy, PartialEq, Eq, Structural)]
pub enum RamErrors {
    AddressOutOfBounds,
}

pub struct Ram {
    memory: Vec<u8>,
}

impl View for Ram {
    type V = Seq<u8>;

    closed spec fn view(&self) -> Seq<u8> {
        self.memory@
    }
}

/// The font bytes, as an executable vector.
fn font_vec() -> (f: Vec<u8>)
    ensures
        f@ == font(),
{
    let f: Vec<u8> = vec![
        0xF0u8, 0x90, 0x90, 0x90, 0xF0,
        0x20, 0x60, 0x20, 0x20, 0x70,
        0xF0, 0x10, 0xF0, 0x80, 0xF0,
        0xF0, 0x10, 0xF0, 0x10, 0xF0,
        0x90, 0x90, 0xF0, 0x10, 0x10,
        0xF0, 0x80, 0xF0, 0x10, 0xF0,
        0xF0, 0x80, 0xF0, 0x90, 0xF0,
        0xF0, 0x10, 0x20, 0x40, 0x40,
        0xF0, 0x90, 0xF0, 0x90, 0xF0,
        0xF0, 0x90, 0xF0, 0x10, 0xF0,
        0xF0, 0x90, 0xF0, 0x90, 0x90,
        0xE0, 0x90, 0xE0, 0x90, 0xE0,
        0xF0, 0x80, 0x80, 0x80, 0xF0,
        0xE0, 0x90, 0x90, 0x90, 0xE0,
        0xF0, 0x80, 0xF0, 0x80, 0xF0,
        0xF0, 0x80, 0xF0, 0x80, 0x80,
    ];
    proof {
        assert(f@ =~= font());
    }
    f
}

impl Ram {
    pub open spec fn wf(self) -> bool {
        self@.len() == 4096
    }

    /// A fresh memory: zero-filled except for the font region.
    pub fn new() -> (r: Ram)
        ensures
            r.wf(),
            r@ == mem_init(),
    {
        let mut memory: Vec<u8> = Vec::new();
        let mut i: usize = 0;
        while i < 4096
            invariant
                i <= 4096,
                memory@.len() == i,
                forall|j: int| 0 <= j < i ==> memory@[j] == 0u8,
            decreases 4096 - i,
        {
            memory.push(0);
            i += 1;
        }
        let mut ram = Ram { memory };
        ram.write_font();
        proof {
            assert(ram@ =~= mem_init());
        }
        ram
    }

    /// Copies the font into 0x50..=0x9F, leaving every other byte alone.
    fn write_font(&mut self)
        requires
            old(self).wf(),
        ensures
            final(self).wf(),
            final(self)@ == Seq::new(
                4096,
                |i: int| if 0x50 <= i < 0xA0 { font()[i - 0x50] } else { old(self)@[i] },
            ),
    {
        let f = font_vec();
        let mut j: usize = 0;
        while j < 80
            invariant
                j <= 80,
                f@ == font(),
                self@.len() == 4096,
                forall|k: int|
                    0 <= k < 4096 ==> self@[k] == if 0x50 <= k < 0x50 + j {
                        font()[k - 0x50]
                    } else {
                        old(self)@[k]
                    },
            decreases 80 - j,
        {
            let b = f[j];
            self.memory.set(0x50 + j, b);
            j += 1;
        }
        proof {
            assert(self@ =~= Seq::new(
                4096,
                |i: int| if 0x50 <= i < 0xA0 { font()[i - 0x50] } else { old(self)@[i] },
            ));
        }
    }

    /// Reads the byte at `address`; an address above 0xFFF is a fault.
    pub fn read(&self, address: usize) -> (r: Result<u8, RamErrors>)
        requires
            self.wf(),
        ensures
            address <= 0xFFF ==> r == Ok::<u8, RamErrors>(self@[address as int]),
            address > 0xFFF ==> r == Err::<u8, RamErrors>(RamErrors::AddressOutOfBounds),
    {
        if address > 0xFFF {
            Err(RamErrors::AddressOutOfBounds)
        } else {
            Ok(self.memory[address])
        }
    }

    /// Writes `value` at `address`; an address above 0xFFF is a fault and
    /// leaves memory unchanged.
    pub fn write(&mut self, address: usize, value: u8) -> (r: Result<(), RamErrors>)
        requires
            old(self).wf(),
        ensures
            final(self).wf(),
            address <= 0xFFF ==> {
                &&& r == Ok::<(), RamErrors>(())
                &&& final(self)@ == old(self)@.update(address as int, value)
            },
            address > 0xFFF ==> {
                &&& r == Err::<(), RamErrors>(RamErrors::AddressOutOfBounds)
                &&& final(self)@ == old(self)@
            },
    {
        if address > 0xFFF {
            Err(RamErrors::AddressOutOfBounds)
        } else {
            self.memory.set(address, value);
            Ok(())
        }
    }

    /// Writes a byte at an address already known to be in bounds.
    pub(crate) fn write_at(&mut self, address: usize, value: u8)
        requires
            old(self).wf(),
            address <= 0xFFF,
        ensures
            final(self).wf(),
            final(self)@ == old(self)@.update(address as int, value),
    {
        self.memory.set(address, value);
    }

    /// Reads a byte at an address already known to be in bounds.
    pub(crate) fn byte_at(&self, address: usize) -> (r: u8)
        requires
            self.wf(),
            address <= 0xFFF,
        ensures
            r == self@[address as int],
    {
        self.memory[address]
    }
}

impl Restart for Ram {
    open spec fn restart_req(pre: Ram) -> bool {
        pre.wf()
    }

    /// Restart restores the font and zeroes 0xA0..=0xFFF; the bytes below
    /// the font region keep their values.
    open spec fn restarted(pre: Ram, post: Ram) -> bool {
        &&& post.wf()
        &&& post@ == Seq::new(
            4096,
            |i: int| if 0x50 <= i < 0xA0 {
                font()[i - 0x50]
            } else if i >= 0xA0 {
                0u8
            } else {
                pre@[i]
            },
        )
    }

    fn restart(&mut self) {
        let mut i: usize = 0xA0;
        while i < 4096
            invariant
                0xA0 <= i <= 4096,
                self@.len() == 4096,
                forall|k: int|
                    0 <= k < 4096 ==> self@[k] == if 0xA0 <= k < i { 0u8 } else { old(self)@[k] },
            decreases 4096 - i,
        {
            self.memory.set(i, 0);
            i += 1;
        }
        self.write_font();
        proof {
            assert(self@ =~= Seq::new(
                4096,
                |i: int| if 0x50 <= i < 0xA0 {
                    font()[i - 0x50]
                } else if i >= 0xA0 {
                    0u8
                } else {
                    old(self)@[i]
                },
            ));
        }
    }
}

impl Default for Ram {
    fn default() -> (r: Ram)
        ensures
            r.wf(),
            r@ == mem_init(),
    {
        Ram::new()
    }
}

} // verus!
