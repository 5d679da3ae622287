use vstd::prelude::*;

verus! {

/// The flat, byte-addressable memory of the machine.
///
/// Its view is the sequence of its 4096 bytes, indexed by address.
pub struct Ram {
    /// 4 kb of memory
    pub memory: [u8; 4096],
}

impl View for Ram {
    type V = Seq<u8>;

    open spec fn view(&self) -> Seq<u8> {
        self.memory@
    }
}

/// A memory in which every byte is zero.
pub open spec fn zeroed_memory() -> Seq<u8> {
    Seq::new(4096, |address: int| 0u8)
}

/// The big-endian two-byte value stored at `address` and `address + 1`.
pub open spec fn word_at(memory: Seq<u8>, address: int) -> int {
    memory[address] * 256 + memory[address + 1]
}

/// Joining a high and a low byte by shift and or gives `high * 256 + low`.
pub proof fn lemma_join_bytes(high: u8, low: u8)
    ensures
        ((high as u16) << 8 | (low as u16)) == high * 256 + low,
{
    assert(((high as u16) << 8 | (low as u16)) == high * 256 + low) by (bit_vector);
}

impl Ram {
    /// A memory filled with zeros.
    pub fn new() -> (ram: Ram)
        ensures
            ram@ == zeroed_memory(),
    {
        let ram = Ram { memory: [0; 4096] };
        assert(ram@ =~= zeroed_memory());
        ram
    }

    /// Installs a full memory image, replacing every byte.
    pub fn load_rom(&mut self, rom: [u8; 4096])
        ensures
            final(self)@ == rom@,
    {
        self.memory = rom;
    }

    /// The byte stored at `address`.
    pub fn read_byte(&self, address: u16) -> (byte: u8)
        requires
            address < 4096,
        ensures
            byte == self@[address as int],
    {
        self.memory[address as usize]
    }

    /// Stores `byte` at `address` and leaves every other byte as it was.
    pub fn write_byte(&mut self, address: u16, byte: u8)
        requires
            address < 4096,
        ensures
            final(self)@ == old(self)@.update(address as int, byte),
    {
        self.memory[address as usize] = byte;
    }

    /// The big-endian two-byte value at `address`, read from `address` and
    /// `address + 1`.
    pub fn read_u16(&self, address: u16) -> (word: u16)
        requires
            address <= 4094,
        ensures
            word == word_at(self@, address as int),
    {
        let index = address as usize;
        let high = self.memory[index];
        let low = self.memory[index + 1];
        proof {
            lemma_join_bytes(high, low);
        }
        (high as u16) << 8 | (low as u16)
    }
}

} // verus!
