use vstd::prelude::*;

verus! {

/// One instruction of the machine, decoded from its 16-bit opcode.
///
/// A field `x` or `y` is the number of a register, `address` a 12-bit
/// address, `byte` an immediate operand.
#[derive(Clone, Copy, Debug, PartialEq, Eq, Structural)]
pub enum Instruction {
    /// `00E0`: clear the screen.
    ClearScreen,
    /// `00EE`: return from a subroutine.
    Return,
    /// `1nnn`: jump to `address`.
    Jump { address: u16 },
    /// `2nnn`: call the subroutine at `address`.
    Call { address: u16 },
    /// `3xkk`: skip the next instruction if Vx equals `byte`.
    SkipIfEqualByte { x: u8, byte: u8 },
    /// `4xkk`: skip the next instruction if Vx differs from `byte`.
    SkipIfNotEqualByte { x: u8, byte: u8 },
    /// `5xy0`: skip the next instruction if Vx equals Vy.
    SkipIfEqual { x: u8, y: u8 },
    /// `6xkk`: set Vx to `byte`.
    LoadByte { x: u8, byte: u8 },
    /// `7xkk`: add `byte` to Vx, without a flag.
    AddByte { x: u8, byte: u8 },
    /// `8xy0`: set Vx to Vy.
    Move { x: u8, y: u8 },
    /// `8xy1`: set Vx to Vx or Vy.
    Or { x: u8, y: u8 },
    /// `8xy2`: set Vx to Vx and Vy.
    And { x: u8, y: u8 },
    /// `8xy3`: set Vx to Vx exclusive-or Vy.
    Xor { x: u8, y: u8 },
    /// `8xy4`: add Vy to Vx; VF is the carry.
    Add { x: u8, y: u8 },
    /// `8xy5`: subtract Vy from Vx; VF tells whether Vx was greater.
    Sub { x: u8, y: u8 },
    /// `8xy6`: shift Vx right by one; VF is the bit shifted out.
    ShiftRight { x: u8 },
    /// `8xy7`: set Vx to Vy minus Vx; VF tells whether Vy was greater.
    SubReversed { x: u8, y: u8 },
    /// `8xyE`: shift Vx left by one; VF is the bit shifted out.
    ShiftLeft { x: u8 },
    /// `9xy0`: skip the next instruction if Vx differs from Vy.
    SkipIfNotEqual { x: u8, y: u8 },
    /// `Annn`: set I to `address`.
    LoadIndex { address: u16 },
    /// `Bnnn`: jump to `address` plus V0.
    JumpOffset { address: u16 },
    /// `Cxkk`: set Vx to a random byte and `byte`.
    Random { x: u8, byte: u8 },
    /// `Dxyn`: draw the sprite of `rows` bytes at I at (Vx, Vy); VF tells
    /// whether a pixel was erased.
    Draw { x: u8, y: u8, rows: u8 },
    /// `Ex9E`: skip the next instruction if the key in Vx is down.
    SkipIfKey { x: u8 },
    /// `ExA1`: skip the next instruction if the key in Vx is up.
    SkipIfNotKey { x: u8 },
    /// `Fx07`: set Vx to the delay timer.
    LoadDelay { x: u8 },
    /// `Fx0A`: wait for a key and store it in Vx.
    WaitKey { x: u8 },
    /// `Fx15`: set the delay timer to Vx.
    SetDelay { x: u8 },
    /// `Fx18`: set the sound timer to Vx.
    SetSound { x: u8 },
    /// `Fx1E`: add Vx to I.
    AddIndex { x: u8 },
    /// `Fx29`: set I to the address of the glyph of digit Vx.
    LoadGlyph { x: u8 },
    /// `Fx33`: store the three decimal digits of Vx at I, I+1 and I+2.
    StoreBcd { x: u8 },
    /// `Fx55`: store the first `x` registers at I.
    StoreRegisters { x: u8 },
    /// `Fx65`: load the first `x` registers from I.
    LoadRegisters { x: u8 },
}

/// The instruction class: the most significant of the four nibbles.
pub open spec fn opcode_class(opcode: u16) -> u8 {
    (opcode / 0x1000) as u8
}

/// The second nibble, which names register x.
pub open spec fn opcode_x(opcode: u16) -> u8 {
    ((opcode / 0x100) % 16) as u8
}

/// The third nibble, which names register y.
pub open spec fn opcode_y(opcode: u16) -> u8 {
    ((opcode / 0x10) % 16) as u8
}

/// The least significant nibble.
pub open spec fn opcode_low(opcode: u16) -> u8 {
    (opcode % 16) as u8
}

/// The low byte `kk`.
pub open spec fn opcode_byte(opcode: u16) -> u8 {
    (opcode % 0x100) as u8
}

/// The low twelve bits `nnn`.
pub open spec fn opcode_address(opcode: u16) -> u16 {
    (opcode % 0x1000) as u16
}

/// The instruction that an opcode stands for, or `None` where no instruction
/// has that opcode. The class selects the family; within a family only the
/// nibbles that are the same for every register decide.
pub open spec fn decoded(opcode: u16) -> Option<Instruction> {
    let x = opcode_x(opcode);
    let y = opcode_y(opcode);
    let low = opcode_low(opcode);
    let byte = opcode_byte(opcode);
    let address = opcode_address(opcode);
    let class = opcode_class(opcode);
    if class == 0x0 {
        if opcode == 0x00E0 {
            Some(Instruction::ClearScreen)
        } else if opcode == 0x00EE {
            Some(Instruction::Return)
        } else {
            None
        }
    } else if class == 0x1 {
        Some(Instruction::Jump { address })
    } else if class == 0x2 {
        Some(Instruction::Call { address })
    } else if class == 0x3 {
        Some(Instruction::SkipIfEqualByte { x, byte })
    } else if class == 0x4 {
        Some(Instruction::SkipIfNotEqualByte { x, byte })
    } else if class == 0x5 {
        if low == 0x0 {
            Some(Instruction::SkipIfEqual { x, y })
        } else {
            None
        }
    } else if class == 0x6 {
        Some(Instruction::LoadByte { x, byte })
    } else if class == 0x7 {
        Some(Instruction::AddByte { x, byte })
    } else if class == 0x8 {
        if low == 0x0 {
            Some(Instruction::Move { x, y })
        } else if low == 0x1 {
            Some(Instruction::Or { x, y })
        } else if low == 0x2 {
            Some(Instruction::And { x, y })
        } else if low == 0x3 {
            Some(Instruction::Xor { x, y })
        } else if low == 0x4 {
            Some(Instruction::Add { x, y })
        } else if low == 0x5 {
            Some(Instruction::Sub { x, y })
        } else if low == 0x6 {
            Some(Instruction::ShiftRight { x })
        } else if low == 0x7 {
            Some(Instruction::SubReversed { x, y })
        } else if low == 0xE {
            Some(Instruction::ShiftLeft { x })
        } else {
            None
        }
    } else if class == 0x9 {
        if low == 0x0 {
            Some(Instruction::SkipIfNotEqual { x, y })
        } else {
            None
        }
    } else if class == 0xA {
        Some(Instruction::LoadIndex { address })
    } else if class == 0xB {
        Some(Instruction::JumpOffset { address })
    } else if class == 0xC {
        Some(Instruction::Random { x, byte })
    } else if class == 0xD {
        Some(Instruction::Draw { x, y, rows: low })
    } else if class == 0xE {
        if byte == 0x9E {
            Some(Instruction::SkipIfKey { x })
        } else if byte == 0xA1 {
            Some(Instruction::SkipIfNotKey { x })
        } else {
            None
        }
    } else {
        if byte == 0x07 {
            Some(Instruction::LoadDelay { x })
        } else if byte == 0x0A {
            Some(Instruction::WaitKey { x })
        } else if byte == 0x15 {
            Some(Instruction::SetDelay { x })
        } else if byte == 0x18 {
            Some(Instruction::SetSound { x })
        } else if byte == 0x1E {
            Some(Instruction::AddIndex { x })
        } else if byte == 0x29 {
            Some(Instruction::LoadGlyph { x })
        } else if byte == 0x33 {
            Some(Instruction::StoreBcd { x })
        } else if byte == 0x55 {
            Some(Instruction::StoreRegisters { x })
        } else if byte == 0x65 {
            Some(Instruction::LoadRegisters { x })
        } else {
            None
        }
    }
}

impl Instruction {
    /// Whether the instruction moves the program counter, halts the processor
    /// or clears the screen.
    pub open spec fn is_control(self) -> bool {
        match self {
            Instruction::ClearScreen
            | Instruction::Return
            | Instruction::Jump { .. }
            | Instruction::Call { .. }
            | Instruction::SkipIfEqualByte { .. }
            | Instruction::SkipIfNotEqualByte { .. }
            | Instruction::SkipIfEqual { .. }
            | Instruction::SkipIfNotEqual { .. }
            | Instruction::JumpOffset { .. }
            | Instruction::SkipIfKey { .. }
            | Instruction::SkipIfNotKey { .. }
            | Instruction::WaitKey { .. } => true,
            _ => false,
        }
    }

    /// Whether the instruction computes a register from registers and
    /// immediate operands.
    pub open spec fn is_arithmetic(self) -> bool {
        match self {
            Instruction::LoadByte { .. }
            | Instruction::AddByte { .. }
            | Instruction::Move { .. }
            | Instruction::Or { .. }
            | Instruction::And { .. }
            | Instruction::Xor { .. }
            | Instruction::Add { .. }
            | Instruction::Sub { .. }
            | Instruction::ShiftRight { .. }
            | Instruction::SubReversed { .. }
            | Instruction::ShiftLeft { .. }
            | Instruction::Random { .. } => true,
            _ => false,
        }
    }

    /// Whether the instruction works on the index register, the timers,
    /// memory or the screen.
    pub open spec fn is_memory(self) -> bool {
        !self.is_control() && !self.is_arithmetic()
    }

    /// Whether every register number is below 16, every address below 4096
    /// and a sprite's height below 16, as they are in every instruction that
    /// comes out of an opcode.
    pub open spec fn wf(self) -> bool {
        match self {
            Instruction::ClearScreen | Instruction::Return => true,
            Instruction::Jump { address }
            | Instruction::Call { address }
            | Instruction::LoadIndex { address }
            | Instruction::JumpOffset { address } => address < 4096,
            Instruction::SkipIfEqualByte { x, .. }
            | Instruction::SkipIfNotEqualByte { x, .. }
            | Instruction::LoadByte { x, .. }
            | Instruction::AddByte { x, .. }
            | Instruction::Random { x, .. }
            | Instruction::ShiftRight { x }
            | Instruction::ShiftLeft { x }
            | Instruction::SkipIfKey { x }
            | Instruction::SkipIfNotKey { x }
            | Instruction::LoadDelay { x }
            | Instruction::WaitKey { x }
            | Instruction::SetDelay { x }
            | Instruction::SetSound { x }
            | Instruction::AddIndex { x }
            | Instruction::LoadGlyph { x }
            | Instruction::StoreBcd { x }
            | Instruction::StoreRegisters { x }
            | Instruction::LoadRegisters { x } => x < 16,
            Instruction::SkipIfEqual { x, y }
            | Instruction::Move { x, y }
            | Instruction::Or { x, y }
            | Instruction::And { x, y }
            | Instruction::Xor { x, y }
            | Instruction::Add { x, y }
            | Instruction::Sub { x, y }
            | Instruction::SubReversed { x, y }
            | Instruction::SkipIfNotEqual { x, y } => x < 16 && y < 16,
            Instruction::Draw { x, y, rows } => x < 16 && y < 16 && rows < 16,
        }
    }
}

/// Masking and shifting an opcode yields its fields.
pub proof fn lemma_opcode_fields(opcode: u16)
    ensures
        (opcode & 0xF000) >> 12 == opcode_class(opcode),
        (opcode & 0x0F00) >> 8 == opcode_x(opcode),
        (opcode & 0x00F0) >> 4 == opcode_y(opcode),
        opcode & 0x000F == opcode_low(opcode),
        opcode & 0x00FF == opcode_byte(opcode),
        opcode & 0x0FFF == opcode_address(opcode),
        opcode_class(opcode) < 16,
        opcode_x(opcode) < 16,
        opcode_y(opcode) < 16,
        opcode_low(opcode) < 16,
        opcode_address(opcode) < 4096,
{
    assert((opcode & 0xF000) >> 12 == opcode / 0x1000) by (bit_vector);
    assert((opcode & 0x0F00) >> 8 == (opcode / 0x100) % 16) by (bit_vector);
    assert((opcode & 0x00F0) >> 4 == (opcode / 0x10) % 16) by (bit_vector);
    assert(opcode & 0x000F == opcode % 16) by (bit_vector);
    assert(opcode & 0x00FF == opcode % 0x100) by (bit_vector);
    assert(opcode & 0x0FFF == opcode % 0x1000) by (bit_vector);
}

/// Decodes an opcode by extracting its bit fields: the class from the high
/// nibble, then, within a family, the low nibble or low byte that tells its
/// members apart. `None` means that no instruction has this opcode.
pub fn decode(opcode: u16) -> (instruction: Option<Instruction>)
    ensures
        instruction == decoded(opcode),
        instruction matches Some(i) ==> i.wf(),
{
    proof {
        lemma_opcode_fields(opcode);
    }
    let class = ((opcode & 0xF000) >> 12) as u8;
    let x = ((opcode & 0x0F00) >> 8) as u8;
    let y = ((opcode & 0x00F0) >> 4) as u8;
    let low = (opcode & 0x000F) as u8;
    let byte = (opcode & 0x00FF) as u8;
    let address = opcode & 0x0FFF;
    match class {
        0x0 => match opcode {
            0x00E0 => Some(Instruction::ClearScreen),
            0x00EE => Some(Instruction::Return),
            _ => None,
        },
        0x1 => Some(Instruction::Jump { address }),
        0x2 => Some(Instruction::Call { address }),
        0x3 => Some(Instruction::SkipIfEqualByte { x, byte }),
        0x4 => Some(Instruction::SkipIfNotEqualByte { x, byte }),
        0x5 => match low {
            0x0 => Some(Instruction::SkipIfEqual { x, y }),
            _ => None,
        },
        0x6 => Some(Instruction::LoadByte { x, byte }),
        0x7 => Some(Instruction::AddByte { x, byte }),
        0x8 => match low {
            0x0 => Some(Instruction::Move { x, y }),
            0x1 => Some(Instruction::Or { x, y }),
            0x2 => Some(Instruction::And { x, y }),
            0x3 => Some(Instruction::Xor { x, y }),
            0x4 => Some(Instruction::Add { x, y }),
            0x5 => Some(Instruction::Sub { x, y }),
            0x6 => Some(Instruction::ShiftRight { x }),
            0x7 => Some(Instruction::SubReversed { x, y }),
            0xE => Some(Instruction::ShiftLeft { x }),
            _ => None,
        },
        0x9 => match low {
            0x0 => Some(Instruction::SkipIfNotEqual { x, y }),
            _ => None,
        },
        0xA => Some(Instruction::LoadIndex { address }),
        0xB => Some(Instruction::JumpOffset { address }),
        0xC => Some(Instruction::Random { x, byte }),
        0xD => Some(Instruction::Draw { x, y, rows: low }),
        0xE => match byte {
            0x9E => Some(Instruction::SkipIfKey { x }),
            0xA1 => Some(Instruction::SkipIfNotKey { x }),
            _ => None,
        },
        _ => match byte {
            0x07 => Some(Instruction::LoadDelay { x }),
            0x0A => Some(Instruction::WaitKey { x }),
            0x15 => Some(Instruction::SetDelay { x }),
            0x18 => Some(Instruction::SetSound { x }),
            0x1E => Some(Instruction::AddIndex { x }),
            0x29 => Some(Instruction::LoadGlyph { x }),
            0x33 => Some(Instruction::StoreBcd { x }),
            0x55 => Some(Instruction::StoreRegisters { x }),
            0x65 => Some(Instruction::LoadRegisters { x }),
            _ => None,
        },
    }
}

} // verus!
