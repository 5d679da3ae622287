use vstd::prelude::*;

use crate::display::{blank_grid, draw_sprite, grid_shaped, Display, Grid};
use crate::instruction::{
    decode, decoded, lemma_opcode_fields, opcode_address, opcode_byte, opcode_class, opcode_low,
    opcode_x, opcode_y, Instruction,
};
use crate::keyboard::{first_key_down, key_down, Keyboard};
use crate::ram::{word_at, Ram};
use rand::Rng;

verus! {

/// Address at which programs are loaded and at which execution starts.
pub const PROGRAM_START: u16 = 0x200;

/// The conditions under which the machine cannot go on. A cycle that ends in
/// a fault leaves the whole machine as it was before the cycle.
#[derive(Clone, Copy, Debug, PartialEq, Eq, Structural)]
pub enum Fault {
    /// No instruction has the opcode that was fetched; the opcode is kept.
    UnknownOpcode(u16),
    /// A call was made with sixteen return addresses already on the stack.
    StackOverflow,
    /// A return was made with no return address on the stack.
    StackUnderflow,
    /// An instruction fetch or an instruction's operand reaches past the end
    /// of memory.
    AddressOutOfRange,
}

/// The registers of the processor, as mathematical values.
#[verifier::ext_equal]
pub struct CpuView {
    /// The index register I.
    pub i: u16,
    /// The program counter.
    pub pc: u16,
    /// The sixteen general registers V0 to VF.
    pub v: Seq<u8>,
    /// The sixteen slots of the call stack. The first `sp` of them hold the
    /// return addresses, the oldest first; the others hold what was last
    /// written there.
    pub stack: Seq<u16>,
    /// The stack pointer: the number of return addresses on the stack.
    pub sp: u8,
    /// The delay timer.
    pub dt: u8,
    /// The sound timer.
    pub st: u8,
    /// The register that waits for a key, while the processor is halted by a
    /// wait-for-key instruction.
    pub awaiting_key: Option<u8>,
}

/// The whole machine, as mathematical values: the processor's registers, the
/// 4096 bytes of memory, the logical screen and the sixteen keys.
#[verifier::ext_equal]
pub struct MachineState {
    pub cpu: CpuView,
    pub memory: Seq<u8>,
    pub screen: Grid,
    pub keys: Seq<bool>,
}

/// The sum of two bytes, reduced to eight bits.
pub open spec fn wrapped_sum(a: u8, b: u8) -> u8 {
    ((a + b) % 256) as u8
}

/// The difference `a - b` of two bytes, reduced to eight bits.
pub open spec fn wrapped_difference(a: u8, b: u8) -> u8 {
    ((a - b) % 256) as u8
}

/// 1 where `condition` holds and 0 where it does not: the value of a flag.
pub open spec fn flag(condition: bool) -> u8 {
    if condition {
        1
    } else {
        0
    }
}

/// A 16-bit value advanced by `step`, reduced to sixteen bits.
pub open spec fn advanced(value: u16, step: int) -> u16 {
    ((value + step) % 0x10000) as u16
}

impl CpuView {
    /// Whether there are sixteen registers and sixteen stack slots, the stack
    /// pointer is at most sixteen, and the register that waits for a key, if
    /// any, exists.
    pub open spec fn wf(self) -> bool {
        &&& self.v.len() == 16
        &&& self.stack.len() == 16
        &&& self.sp <= 16
        &&& self.awaiting_key matches Some(x) ==> x < 16
    }

    /// The return addresses that are on the stack, the oldest first.
    pub open spec fn return_addresses(self) -> Seq<u16> {
        self.stack.take(self.sp as int)
    }

    /// These registers with Vx set to `value`.
    pub open spec fn with_register(self, x: int, value: u8) -> CpuView {
        CpuView { v: self.v.update(x, value), ..self }
    }

    /// These registers after one tick of the timer clock: each timer that is
    /// not zero is one less. While the processor waits for a key nothing
    /// advances, the timers included.
    pub open spec fn ticked(self) -> CpuView {
        if self.awaiting_key is Some {
            self
        } else {
            CpuView {
                dt: if self.dt > 0 {
                    (self.dt - 1) as u8
                } else {
                    0
                },
                st: if self.st > 0 {
                    (self.st - 1) as u8
                } else {
                    0
                },
                ..self
            }
        }
    }

    /// These registers with the program counter moved past one more
    /// instruction if `condition` holds.
    pub open spec fn skipping(self, condition: bool) -> CpuView {
        CpuView {
            pc: if condition {
                advanced(self.pc, 2)
            } else {
                self.pc
            },
            ..self
        }
    }
}

impl MachineState {
    /// Whether every part has its size: sixteen registers, a stack of at most
    /// sixteen, 4096 bytes, 32 rows of 64 pixels and sixteen keys.
    pub open spec fn wf(self) -> bool {
        &&& self.cpu.wf()
        &&& self.memory.len() == 4096
        &&& grid_shaped(self.screen)
        &&& self.keys.len() == 16
    }

    /// This machine with the processor's registers replaced.
    pub open spec fn with_cpu(self, cpu: CpuView) -> MachineState {
        MachineState { cpu, ..self }
    }

    /// This machine with Vx set to `value`.
    pub open spec fn with_register(self, x: int, value: u8) -> MachineState {
        self.with_cpu(self.cpu.with_register(x, value))
    }

    /// The effect of one instruction on a machine whose program counter
    /// already points behind that instruction. `random` is the byte that a
    /// `Random` instruction draws. The result is the machine after the
    /// instruction, or the fault that keeps it from being executed.
    #[verifier::opaque]
    pub open spec fn after(self, instruction: Instruction, random: u8) -> Result<
        MachineState,
        Fault,
    > {
        let cpu = self.cpu;
        let v = cpu.v;
        match instruction {
            Instruction::ClearScreen => Ok(MachineState { screen: blank_grid(), ..self }),
            Instruction::Return => if cpu.sp == 0 {
                Err(Fault::StackUnderflow)
            } else {
                Ok(
                    self.with_cpu(
                        CpuView { pc: cpu.stack[cpu.sp - 1], sp: (cpu.sp - 1) as u8, ..cpu },
                    ),
                )
            },
            Instruction::Jump { address } => Ok(self.with_cpu(CpuView { pc: address, ..cpu })),
            Instruction::Call { address } => if cpu.sp >= 16 {
                Err(Fault::StackOverflow)
            } else {
                Ok(
                    self.with_cpu(
                        CpuView {
                            pc: address,
                            stack: cpu.stack.update(cpu.sp as int, cpu.pc),
                            sp: (cpu.sp + 1) as u8,
                            ..cpu
                        },
                    ),
                )
            },
            Instruction::SkipIfEqualByte { x, byte } => Ok(
                self.with_cpu(cpu.skipping(v[x as int] == byte)),
            ),
            Instruction::SkipIfNotEqualByte { x, byte } => Ok(
                self.with_cpu(cpu.skipping(v[x as int] != byte)),
            ),
            Instruction::SkipIfEqual { x, y } => Ok(
                self.with_cpu(cpu.skipping(v[x as int] == v[y as int])),
            ),
            Instruction::LoadByte { x, byte } => Ok(self.with_register(x as int, byte)),
            Instruction::AddByte { x, byte } => Ok(
                self.with_register(x as int, wrapped_sum(v[x as int], byte)),
            ),
            Instruction::Move { x, y } => Ok(self.with_register(x as int, v[y as int])),
            Instruction::Or { x, y } => Ok(self.with_register(x as int, v[x as int] | v[y as int])),
            Instruction::And { x, y } => Ok(
                self.with_register(x as int, v[x as int] & v[y as int]),
            ),
            Instruction::Xor { x, y } => Ok(
                self.with_register(x as int, v[x as int] ^ v[y as int]),
            ),
            Instruction::Add { x, y } => Ok(
                self.with_register(x as int, wrapped_sum(v[x as int], v[y as int])).with_register(
                    0xF,
                    flag(v[x as int] + v[y as int] > 255),
                ),
            ),
            Instruction::Sub { x, y } => Ok(
                self.with_register(0xF, flag(v[x as int] > v[y as int])).with_register(
                    x as int,
                    wrapped_difference(v[x as int], v[y as int]),
                ),
            ),
            Instruction::ShiftRight { x } => {
                let flagged = self.with_register(0xF, v[x as int] % 2);
                Ok(flagged.with_register(x as int, flagged.cpu.v[x as int] / 2))
            },
            Instruction::SubReversed { x, y } => Ok(
                self.with_register(0xF, flag(v[y as int] > v[x as int])).with_register(
                    x as int,
                    wrapped_difference(v[y as int], v[x as int]),
                ),
            ),
            Instruction::ShiftLeft { x } => {
                let flagged = self.with_register(0xF, v[x as int] / 128);
                Ok(
                    flagged.with_register(
                        x as int,
                        ((flagged.cpu.v[x as int] * 2) % 256) as u8,
                    ),
                )
            },
            Instruction::SkipIfNotEqual { x, y } => Ok(
                self.with_cpu(cpu.skipping(v[x as int] != v[y as int])),
            ),
            Instruction::LoadIndex { address } => Ok(self.with_cpu(CpuView { i: address, ..cpu })),
            Instruction::JumpOffset { address } => Ok(
                self.with_cpu(CpuView { pc: advanced(address, v[0] as int), ..cpu }),
            ),
            Instruction::Random { x, byte } => Ok(self.with_register(x as int, byte & random)),
            Instruction::Draw { x, y, rows } => if cpu.i + rows > 4096 {
                Err(Fault::AddressOutOfRange)
            } else {
                let sprite = self.memory.subrange(cpu.i as int, cpu.i + rows);
                let (screen, erased) = draw_sprite(
                    self.screen,
                    v[x as int] as int,
                    v[y as int] as int,
                    sprite,
                );
                Ok(MachineState { screen, ..self }.with_register(0xF, flag(erased)))
            },
            Instruction::SkipIfKey { x } => Ok(
                self.with_cpu(cpu.skipping(key_down(self.keys, v[x as int] as int))),
            ),
            Instruction::SkipIfNotKey { x } => Ok(
                self.with_cpu(cpu.skipping(!key_down(self.keys, v[x as int] as int))),
            ),
            Instruction::LoadDelay { x } => Ok(self.with_register(x as int, cpu.dt)),
            Instruction::WaitKey { x } => match first_key_down(self.keys) {
                Some(key) => Ok(self.with_register(x as int, key)),
                None => Ok(self.with_cpu(CpuView { awaiting_key: Some(x), ..cpu })),
            },
            Instruction::SetDelay { x } => Ok(self.with_cpu(CpuView { dt: v[x as int], ..cpu })),
            Instruction::SetSound { x } => Ok(self.with_cpu(CpuView { st: v[x as int], ..cpu })),
            Instruction::AddIndex { x } => Ok(
                self.with_cpu(CpuView { i: advanced(cpu.i, v[x as int] as int), ..cpu }),
            ),
            Instruction::LoadGlyph { x } => Ok(
                self.with_cpu(CpuView { i: (v[x as int] * 5) as u16, ..cpu }),
            ),
            Instruction::StoreBcd { x } => if cpu.i + 2 >= 4096 {
                Err(Fault::AddressOutOfRange)
            } else {
                let value = v[x as int];
                Ok(
                    MachineState {
                        memory: self.memory.update(cpu.i as int, value / 100).update(
                            cpu.i + 1,
                            (value / 10) % 10,
                        ).update(cpu.i + 2, value % 10),
                        ..self
                    },
                )
            },
            Instruction::StoreRegisters { x } => if cpu.i + x > 4096 {
                Err(Fault::AddressOutOfRange)
            } else {
                Ok(
                    MachineState {
                        memory: Seq::new(
                            4096,
                            |address: int|
                                if cpu.i <= address < cpu.i + x {
                                    v[address - cpu.i]
                                } else {
                                    self.memory[address]
                                },
                        ),
                        ..self
                    },
                )
            },
            Instruction::LoadRegisters { x } => if cpu.i + x > 4096 {
                Err(Fault::AddressOutOfRange)
            } else {
                Ok(
                    self.with_cpu(
                        CpuView {
                            v: Seq::new(
                                16,
                                |register: int|
                                    if register < x {
                                        self.memory[cpu.i + register]
                                    } else {
                                        v[register]
                                    },
                            ),
                            ..cpu
                        },
                    ),
                )
            },
        }
    }

    /// The effect of the instruction that `opcode` stands for; an opcode that
    /// stands for none is a fault.
    pub open spec fn after_opcode(self, opcode: u16, random: u8) -> Result<MachineState, Fault> {
        match decoded(opcode) {
            Some(instruction) => self.after(instruction, random),
            None => Err(Fault::UnknownOpcode(opcode)),
        }
    }

    /// The opcode that the next instruction fetch reads: the big-endian word
    /// at the program counter.
    pub open spec fn fetched(self) -> u16 {
        word_at(self.memory, self.cpu.pc as int) as u16
    }

    /// The effect of one cycle. A processor that waits for a key takes the
    /// lowest key that is down into the waiting register and goes on, or
    /// stays as it is while no key is down. Otherwise the cycle fetches the
    /// opcode at the program counter, moves the program counter behind it and
    /// executes it.
    #[verifier::opaque]
    pub open spec fn after_cycle(self, random: u8) -> Result<MachineState, Fault> {
        match self.cpu.awaiting_key {
            Some(x) => match first_key_down(self.keys) {
                Some(key) => Ok(
                    self.with_cpu(
                        CpuView { awaiting_key: None, ..self.cpu.with_register(x as int, key) },
                    ),
                ),
                None => Ok(self),
            },
            None => if self.cpu.pc > 4094 {
                Err(Fault::AddressOutOfRange)
            } else {
                self.with_cpu(CpuView { pc: advanced(self.cpu.pc, 2), ..self.cpu }).after_opcode(
                    self.fetched(),
                    random,
                )
            },
        }
    }
}

/// Whether a call that was to bring a machine from `before` to `expected`
/// did so: on success the machine is the expected one, and on a fault the
/// call reports that fault and the machine is as before.
pub open spec fn outcome(
    before: MachineState,
    expected: Result<MachineState, Fault>,
    after: MachineState,
    result: Result<(), Fault>,
) -> bool {
    match expected {
        Ok(next) => result is Ok && after == next,
        Err(fault) => result == Err::<(), Fault>(fault) && after == before,
    }
}

/// The processor: its registers and the engine that decodes and executes
/// instructions.
///
/// The view of a processor holds every one of its fields as a mathematical
/// value, the sixteen slots of the call stack included.
pub struct Cpu {
    /// index register
    pub i: u16,
    /// program counter
    pub pc: u16,
    /// registers usually referred to as Vx, where x is a hexadecimal digit (0 through F)
    pub v: [u8; 16],
    /// Stack: used to store the address that the interpreter should return to when finished with a subroutine
    /// Chip-8 allows for up to 16 levels of nested subroutines.
    pub stack: [u16; 16],
    /// stack pointer: the number of return addresses on the stack
    pub sp: u8,
    /// Delay timer
    pub dt: u8,
    /// Sound timer
    pub st: u8,
    /// The register that a wait-for-key instruction is to fill, while the
    /// processor is halted for want of a key
    pub awaiting_key: Option<u8>,
}

impl View for Cpu {
    type V = CpuView;

    open spec fn view(&self) -> CpuView {
        CpuView {
            i: self.i,
            pc: self.pc,
            v: self.v@,
            stack: self.stack@,
            sp: self.sp,
            dt: self.dt,
            st: self.st,
            awaiting_key: self.awaiting_key,
        }
    }
}

/// The registers of a processor that was just reset: everything zero, the
/// stack empty, and the program counter at the start of the program.
pub open spec fn reset_registers() -> CpuView {
    CpuView {
        i: 0,
        pc: PROGRAM_START,
        v: Seq::new(16, |x: int| 0u8),
        stack: Seq::new(16, |slot: int| 0u16),
        sp: 0,
        dt: 0,
        st: 0,
        awaiting_key: None,
    }
}

/// The machine that a processor forms with its three collaborators.
pub open spec fn machine_state(
    cpu: Cpu,
    ram: Ram,
    display: Display,
    keyboard: Keyboard,
) -> MachineState {
    MachineState { cpu: cpu@, memory: ram@, screen: display@, keys: keyboard@ }
}

/// Shifts and masks of a byte, as arithmetic.
pub proof fn lemma_byte_shifts(value: u8)
    ensures
        value & 0x01 == value % 2,
        value >> 1 == value / 2,
        (value & 0x80 > 0) == (value / 128 == 1),
        value / 128 <= 1,
        value << 1 == (value * 2) % 256,
{
    assert(value & 0x01 == value % 2) by (bit_vector);
    assert(value >> 1 == value / 2) by (bit_vector);
    assert((value & 0x80 > 0) == (value / 128 == 1)) by (bit_vector);
    assert(value << 1 == (value * 2) % 256) by (bit_vector);
}

/// Reads the big-endian word at `index` and `index + 1`.
pub fn read_word(memory: [u8; 4096], index: u16) -> (word: u16)
    requires
        index <= 4094,
    ensures
        word == word_at(memory@, index as int),
{
    let i = index as usize;
    proof {
        crate::ram::lemma_join_bytes(memory[i as int], memory[i + 1]);
    }
    (memory[i] as u16) << 8 | (memory[i + 1] as u16)
}

/// Draws a byte from the thread-local generator of `rand`
/// (`rand::thread_rng().gen()`), which samples all 256 values of a byte
/// uniformly. Nothing is claimed of the value that comes back.
#[verifier::external_body]
fn random_byte() -> (byte: u8) {
    rand::thread_rng().gen()
}

impl Cpu {
    /// Whether the stack pointer is within the stack and the register that
    /// waits for a key, if any, exists.
    pub open spec fn wf(&self) -> bool {
        &&& self.sp <= 16
        &&& self.awaiting_key matches Some(x) ==> x < 16
    }

    /// A processor in its reset state.
    pub fn new() -> (cpu: Cpu)
        ensures
            cpu.wf(),
            cpu@ == reset_registers(),
    {
        let cpu = Cpu {
            i: 0,
            pc: PROGRAM_START,
            v: [0; 16],
            stack: [0; 16],
            sp: 0,
            dt: 0,
            st: 0,
            awaiting_key: None,
        };
        assert(cpu@ =~= reset_registers());
        cpu
    }

    /// Puts every register back to its reset state.
    pub fn reset(&mut self)
        ensures
            final(self).wf(),
            final(self)@ == reset_registers(),
    {
        self.i = 0;
        self.pc = PROGRAM_START;
        self.v = [0; 16];
        self.stack = [0; 16];
        self.sp = 0;
        self.dt = 0;
        self.st = 0;
        self.awaiting_key = None;
        assert(self@ =~= reset_registers());
    }

    /// Counts the delay timer and the sound timer down by one, each only
    /// while it is not zero. A processor that waits for a key is halted, and
    /// its timers with it.
    pub fn tick_timers(&mut self)
        ensures
            final(self).wf() == old(self).wf(),
            final(self)@ == old(self)@.ticked(),
    {
        if self.awaiting_key.is_none() {
            if self.dt > 0 {
                self.dt = self.dt - 1;
            }
            if self.st > 0 {
                self.st = self.st - 1;
            }
        }
    }

    /// Runs one cycle: a processor that waits for a key looks for one;
    /// otherwise the opcode at the program counter is fetched, the program
    /// counter moves behind it, and the opcode is executed. An instruction of
    /// class `C` draws a random byte, so the outcome is that of the cycle for
    /// some byte; every other cycle has the one outcome that does not depend
    /// on the byte.
    pub fn execute_cycle(
        &mut self,
        ram: &mut Ram,
        keyboard: &mut Keyboard,
        display: &mut Display,
    ) -> (result: Result<(), Fault>)
        requires
            old(self).wf(),
            old(display).wf(),
        ensures
            final(self).wf(),
            final(display).wf(),
            final(display).color() == old(display).color(),
            exists|random: u8|
                outcome(
                    machine_state(*old(self), *old(ram), *old(display), *old(keyboard)),
                    #[trigger] machine_state(
                        *old(self),
                        *old(ram),
                        *old(display),
                        *old(keyboard),
                    ).after_cycle(random),
                    machine_state(*final(self), *final(ram), *final(display), *final(keyboard)),
                    result,
                ),
            old(self).awaiting_key is Some || opcode_class(
                machine_state(*old(self), *old(ram), *old(display), *old(keyboard)).fetched(),
            ) != 0xC ==> outcome(
                machine_state(*old(self), *old(ram), *old(display), *old(keyboard)),
                machine_state(*old(self), *old(ram), *old(display), *old(keyboard)).after_cycle(0),
                machine_state(*final(self), *final(ram), *final(display), *final(keyboard)),
                result,
            ),
    {
        let ghost before = machine_state(*self, *ram, *display, *keyboard);
        proof {
            reveal(MachineState::after_cycle);
        }
        match self.awaiting_key {
            Some(x) => {
                match keyboard.wait_key() {
                    Some(key) => {
                        self.set_register(x, key);
                        self.awaiting_key = None;
                    },
                    None => {},
                }
                proof {
                    let after = machine_state(*self, *ram, *display, *keyboard);
                    assert(after =~~= before.after_cycle(0)->Ok_0);
                    assert(outcome(before, before.after_cycle(0), after, Ok(())));
                }
                Ok(())
            },
            None => {
                if self.pc > 4094 {
                    proof {
                        assert(outcome(
                            before,
                            before.after_cycle(0),
                            before,
                            Err(Fault::AddressOutOfRange),
                        ));
                    }
                    return Err(Fault::AddressOutOfRange);
                }
                let opcode = read_word(ram.memory, self.pc);
                let random = if (opcode & 0xF000) == 0xC000 {
                    random_byte()
                } else {
                    0
                };
                let fetched_at = self.pc;
                self.pc = self.pc + 2;
                let ghost advanced_state = machine_state(*self, *ram, *display, *keyboard);
                let result = self.process_opcode(opcode, random, ram, keyboard, display);
                match result {
                    Err(_) => {
                        self.pc = fetched_at;
                    },
                    Ok(_) => {},
                }
                proof {
                    let after = machine_state(*self, *ram, *display, *keyboard);
                    assert(advanced_state =~~= before.with_cpu(
                        CpuView { pc: advanced(before.cpu.pc, 2), ..before.cpu },
                    ));
                    if result is Err {
                        assert(after =~~= before);
                    }
                    assert(outcome(before, before.after_cycle(random), after, result));
                    lemma_opcode_fields(opcode);
                    if opcode_class(opcode) != 0xC {
                        lemma_random_only_in_class_c(before, random, 0);
                    }
                }
                result
            },
        }
    }

    /// Executes the instruction that `opcode` stands for; the program counter
    /// already points behind it. `random` is the byte that an instruction of
    /// class `C` is to use. An opcode that stands for no instruction is a
    /// fault that keeps the opcode.
    pub fn process_opcode(
        &mut self,
        opcode: u16,
        random: u8,
        ram: &mut Ram,
        keyboard: &mut Keyboard,
        display: &mut Display,
    ) -> (result: Result<(), Fault>)
        requires
            old(self).wf(),
            old(display).wf(),
        ensures
            final(self).wf(),
            final(display).wf(),
            final(display).color() == old(display).color(),
            outcome(
                machine_state(*old(self), *old(ram), *old(display), *old(keyboard)),
                machine_state(*old(self), *old(ram), *old(display), *old(keyboard)).after_opcode(
                    opcode,
                    random,
                ),
                machine_state(*final(self), *final(ram), *final(display), *final(keyboard)),
                result,
            ),
    {
        match decode(opcode) {
            Some(instruction) => self.execute(instruction, random, ram, keyboard, display),
            None => Err(Fault::UnknownOpcode(opcode)),
        }
    }

    /// Executes one decoded instruction; the program counter already points
    /// behind it. `random` is the byte that a `Random` instruction is to use.
    pub fn execute(
        &mut self,
        instruction: Instruction,
        random: u8,
        ram: &mut Ram,
        keyboard: &mut Keyboard,
        display: &mut Display,
    ) -> (result: Result<(), Fault>)
        requires
            old(self).wf(),
            old(display).wf(),
            instruction.wf(),
        ensures
            final(self).wf(),
            final(display).wf(),
            final(display).color() == old(display).color(),
            outcome(
                machine_state(*old(self), *old(ram), *old(display), *old(keyboard)),
                machine_state(*old(self), *old(ram), *old(display), *old(keyboard)).after(
                    instruction,
                    random,
                ),
                machine_state(*final(self), *final(ram), *final(display), *final(keyboard)),
                result,
            ),
    {
        match instruction {
            Instruction::ClearScreen
            | Instruction::Return
            | Instruction::Jump { .. }
            | Instruction::Call { .. }
            | Instruction::SkipIfEqualByte { .. }
            | Instruction::SkipIfNotEqualByte { .. }
            | Instruction::SkipIfEqual { .. }
            | Instruction::SkipIfNotEqual { .. }
            | Instruction::JumpOffset { .. }
            | Instruction::SkipIfKey { .. }
            | Instruction::SkipIfNotKey { .. }
            | Instruction::WaitKey { .. } => self.execute_control(
                instruction,
                random,
                ram,
                keyboard,
                display,
            ),
            Instruction::LoadByte { .. }
            | Instruction::AddByte { .. }
            | Instruction::Move { .. }
            | Instruction::Or { .. }
            | Instruction::And { .. }
            | Instruction::Xor { .. }
            | Instruction::Add { .. }
            | Instruction::Sub { .. }
            | Instruction::ShiftRight { .. }
            | Instruction::SubReversed { .. }
            | Instruction::ShiftLeft { .. }
            | Instruction::Random { .. } => self.execute_arithmetic(
                instruction,
                random,
                ram,
                keyboard,
                display,
            ),
            _ => self.execute_memory(instruction, random, ram, keyboard, display),
        }
    }

    /// Executes an instruction that moves the program counter or halts the
    /// processor, or that clears the screen.
    #[verifier::rlimit(50)]
    fn execute_control(
        &mut self,
        instruction: Instruction,
        random: u8,
        ram: &mut Ram,
        keyboard: &mut Keyboard,
        display: &mut Display,
    ) -> (result: Result<(), Fault>)
        requires
            old(self).wf(),
            old(display).wf(),
            instruction.wf(),
            instruction.is_control(),
        ensures
            final(self).wf(),
            final(display).wf(),
            final(display).color() == old(display).color(),
            outcome(
                machine_state(*old(self), *old(ram), *old(display), *old(keyboard)),
                machine_state(*old(self), *old(ram), *old(display), *old(keyboard)).after(
                    instruction,
                    random,
                ),
                machine_state(*final(self), *final(ram), *final(display), *final(keyboard)),
                result,
            ),
    {
        proof {
            reveal(MachineState::after);
        }
        match instruction {
            Instruction::ClearScreen => {
                display.clear();
                return Ok(());
            },
            Instruction::Return => {
                return self.return_from_subroutine();
            },
            Instruction::Jump { address } => {
                self.pc = address;
                return Ok(());
            },
            Instruction::Call { address } => {
                return self.call_subroutine(address);
            },
            Instruction::SkipIfEqualByte { x, byte } => {
                self.skip_if(self.v[x as usize] == byte);
                return Ok(());
            },
            Instruction::SkipIfNotEqualByte { x, byte } => {
                self.skip_if(self.v[x as usize] != byte);
                return Ok(());
            },
            Instruction::SkipIfEqual { x, y } => {
                self.skip_if(self.v[x as usize] == self.v[y as usize]);
                return Ok(());
            },
            Instruction::SkipIfNotEqual { x, y } => {
                self.skip_if(self.v[x as usize] != self.v[y as usize]);
                return Ok(());
            },
            Instruction::JumpOffset { address } => {
                self.pc = (self.v[0] as u16).wrapping_add(address);
                return Ok(());
            },
            Instruction::SkipIfKey { x } => {
                self.skip_if(keyboard.is_pressed(self.v[x as usize]));
                return Ok(());
            },
            Instruction::SkipIfNotKey { x } => {
                self.skip_if(keyboard.is_released(self.v[x as usize]));
                return Ok(());
            },
            Instruction::WaitKey { x } => {
                match keyboard.wait_key() {
                    Some(key) => {
                        self.set_register(x, key);
                    },
                    None => {
                        self.awaiting_key = Some(x);
                    },
                }
                return Ok(());
            },
            _ => {
                return vstd::pervasive::unreached();
            },
        }
    }

    /// Executes an instruction that computes a register from registers and
    /// immediate operands.
    #[verifier::rlimit(50)]
    fn execute_arithmetic(
        &mut self,
        instruction: Instruction,
        random: u8,
        ram: &mut Ram,
        keyboard: &mut Keyboard,
        display: &mut Display,
    ) -> (result: Result<(), Fault>)
        requires
            old(self).wf(),
            old(display).wf(),
            instruction.wf(),
            instruction.is_arithmetic(),
        ensures
            final(self).wf(),
            final(display).wf(),
            final(display).color() == old(display).color(),
            outcome(
                machine_state(*old(self), *old(ram), *old(display), *old(keyboard)),
                machine_state(*old(self), *old(ram), *old(display), *old(keyboard)).after(
                    instruction,
                    random,
                ),
                machine_state(*final(self), *final(ram), *final(display), *final(keyboard)),
                result,
            ),
    {
        proof {
            reveal(MachineState::after);
        }
        match instruction {
            Instruction::LoadByte { x, byte } => {
                self.set_register(x, byte);
                return Ok(());
            },
            Instruction::AddByte { x, byte } => {
                self.set_register(x, self.v[x as usize].wrapping_add(byte));
                return Ok(());
            },
            Instruction::Move { x, y } => {
                self.set_register(x, self.v[y as usize]);
                return Ok(());
            },
            Instruction::Or { x, y } => {
                self.set_register(x, self.v[x as usize] | self.v[y as usize]);
                return Ok(());
            },
            Instruction::And { x, y } => {
                self.set_register(x, self.v[x as usize] & self.v[y as usize]);
                return Ok(());
            },
            Instruction::Xor { x, y } => {
                self.set_register(x, self.v[x as usize] ^ self.v[y as usize]);
                return Ok(());
            },
            Instruction::Add { x, y } => {
                self.add_registers(x, y);
                return Ok(());
            },
            Instruction::Sub { x, y } => {
                self.subtract_registers(x, self.v[x as usize], self.v[y as usize]);
                return Ok(());
            },
            Instruction::ShiftRight { x } => {
                self.shift_right(x);
                return Ok(());
            },
            Instruction::SubReversed { x, y } => {
                self.subtract_registers(x, self.v[y as usize], self.v[x as usize]);
                return Ok(());
            },
            Instruction::ShiftLeft { x } => {
                self.shift_left(x);
                return Ok(());
            },
            Instruction::Random { x, byte } => {
                self.set_register(x, byte & random);
                return Ok(());
            },
            _ => {
                return vstd::pervasive::unreached();
            },
        }
    }

    /// Executes an instruction that works on the index register, the timers,
    /// memory or the screen.
    #[verifier::rlimit(50)]
    fn execute_memory(
        &mut self,
        instruction: Instruction,
        random: u8,
        ram: &mut Ram,
        keyboard: &mut Keyboard,
        display: &mut Display,
    ) -> (result: Result<(), Fault>)
        requires
            old(self).wf(),
            old(display).wf(),
            instruction.wf(),
            instruction.is_memory(),
        ensures
            final(self).wf(),
            final(display).wf(),
            final(display).color() == old(display).color(),
            outcome(
                machine_state(*old(self), *old(ram), *old(display), *old(keyboard)),
                machine_state(*old(self), *old(ram), *old(display), *old(keyboard)).after(
                    instruction,
                    random,
                ),
                machine_state(*final(self), *final(ram), *final(display), *final(keyboard)),
                result,
            ),
    {
        proof {
            reveal(MachineState::after);
        }
        match instruction {
            Instruction::LoadIndex { address } => {
                self.i = address;
                return Ok(());
            },
            Instruction::Draw { x, y, rows } => {
                return self.draw_sprite(x, y, rows, ram, display);
            },
            Instruction::LoadDelay { x } => {
                self.set_register(x, self.dt);
                return Ok(());
            },
            Instruction::SetDelay { x } => {
                self.dt = self.v[x as usize];
                return Ok(());
            },
            Instruction::SetSound { x } => {
                self.st = self.v[x as usize];
                return Ok(());
            },
            Instruction::AddIndex { x } => {
                self.i = self.i.wrapping_add(self.v[x as usize] as u16);
                return Ok(());
            },
            Instruction::LoadGlyph { x } => {
                self.i = self.v[x as usize] as u16 * 5;
                return Ok(());
            },
            Instruction::StoreBcd { x } => {
                return self.store_bcd(x, ram);
            },
            Instruction::StoreRegisters { x } => {
                return self.store_registers(x, ram);
            },
            Instruction::LoadRegisters { x } => {
                return self.load_registers(x, ram);
            },
            _ => {
                return vstd::pervasive::unreached();
            },
        }
    }

    /// Sets Vx to `value`.
    fn set_register(&mut self, x: u8, value: u8)
        requires
            x < 16,
        ensures
            final(self).wf() == old(self).wf(),
            final(self)@ == old(self)@.with_register(x as int, value),
    {
        self.v[x as usize] = value;
    }

    /// Adds Vy to Vx, then sets VF to the carry.
    fn add_registers(&mut self, x: u8, y: u8)
        requires
            x < 16,
            y < 16,
        ensures
            final(self).wf() == old(self).wf(),
            final(self)@ == old(self)@.with_register(
                x as int,
                wrapped_sum(old(self).v[x as int], old(self).v[y as int]),
            ).with_register(0xF, flag(old(self).v[x as int] + old(self).v[y as int] > 255)),
    {
        let xx = self.v[x as usize];
        let yy = self.v[y as usize];
        let result = xx as u16 + yy as u16;
        self.v[x as usize] = xx.wrapping_add(yy);
        self.v[0xF as usize] = if result > 255 { 1 } else { 0 };
    }

    /// Sets VF to 1 if `minuend` is greater than `subtrahend` and to 0 if it
    /// is not, then sets Vx to their difference.
    fn subtract_registers(&mut self, x: u8, minuend: u8, subtrahend: u8)
        requires
            x < 16,
        ensures
            final(self).wf() == old(self).wf(),
            final(self)@ == old(self)@.with_register(0xF, flag(minuend > subtrahend)).with_register(
                x as int,
                wrapped_difference(minuend, subtrahend),
            ),
    {
        self.v[0xF as usize] = if minuend > subtrahend { 1 } else { 0 };
        self.v[x as usize] = minuend.wrapping_sub(subtrahend);
    }

    /// Sets VF to the lowest bit of Vx, then halves Vx.
    fn shift_right(&mut self, x: u8)
        requires
            x < 16,
        ensures
            final(self).wf() == old(self).wf(),
            ({
                let flagged = old(self)@.with_register(0xF, old(self).v[x as int] % 2);
                final(self)@ == flagged.with_register(x as int, flagged.v[x as int] / 2)
            }),
    {
        proof {
            lemma_byte_shifts(self.v[x as int]);
        }
        self.v[0xF as usize] = if self.v[x as usize] & 0x01 > 0 { 1 } else { 0 };
        proof {
            lemma_byte_shifts(self.v[x as int]);
        }
        self.v[x as usize] = self.v[x as usize] >> 1;
    }

    /// Sets VF to the highest bit of Vx, then doubles Vx within eight bits.
    fn shift_left(&mut self, x: u8)
        requires
            x < 16,
        ensures
            final(self).wf() == old(self).wf(),
            ({
                let flagged = old(self)@.with_register(0xF, old(self).v[x as int] / 128);
                final(self)@ == flagged.with_register(
                    x as int,
                    ((flagged.v[x as int] * 2) % 256) as u8,
                )
            }),
    {
        proof {
            lemma_byte_shifts(self.v[x as int]);
        }
        self.v[0xF as usize] = if self.v[x as usize] & 0x80 > 0 { 1 } else { 0 };
        proof {
            lemma_byte_shifts(self.v[x as int]);
        }
        self.v[x as usize] = self.v[x as usize] << 1;
    }

    /// Moves the program counter past one more instruction if `condition`
    /// holds.
    fn skip_if(&mut self, condition: bool)
        ensures
            final(self).wf() == old(self).wf(),
            final(self)@ == old(self)@.skipping(condition),
    {
        if condition {
            self.pc = self.pc.wrapping_add(2);
        }
    }

    /// Pushes the program counter and jumps to `address`, unless the stack
    /// is full.
    fn call_subroutine(&mut self, address: u16) -> (result: Result<(), Fault>)
        requires
            old(self).wf(),
        ensures
            final(self).wf(),
            old(self).sp >= 16 ==> final(self)@ == old(self)@ && result == Err::<(), Fault>(
                Fault::StackOverflow,
            ),
            old(self).sp < 16 ==> result is Ok && final(self)@ == (CpuView {
                pc: address,
                stack: old(self)@.stack.update(old(self).sp as int, old(self).pc),
                sp: (old(self).sp + 1) as u8,
                ..old(self)@
            }),
    {
        if self.sp >= 16 {
            return Err(Fault::StackOverflow);
        }
        self.stack[self.sp as usize] = self.pc;
        self.sp += 1;
        self.pc = address;
        Ok(())
    }

    /// Pops the latest return address into the program counter, unless the
    /// stack is empty.
    fn return_from_subroutine(&mut self) -> (result: Result<(), Fault>)
        requires
            old(self).wf(),
        ensures
            final(self).wf(),
            old(self).sp == 0 ==> final(self)@ == old(self)@ && result == Err::<(), Fault>(
                Fault::StackUnderflow,
            ),
            old(self).sp > 0 ==> result is Ok && final(self)@ == (CpuView {
                pc: old(self)@.stack[old(self).sp - 1],
                sp: (old(self).sp - 1) as u8,
                ..old(self)@
            }),
    {
        if self.sp == 0 {
            return Err(Fault::StackUnderflow);
        }
        self.sp -= 1;
        self.pc = self.stack[self.sp as usize];
        Ok(())
    }

    /// Draws the sprite of `rows` bytes that starts at I at the position
    /// (Vx, Vy) and sets VF to 1 if a pixel was erased, to 0 if none was.
    fn draw_sprite(&mut self, x: u8, y: u8, rows: u8, ram: &Ram, display: &mut Display) -> (result:
        Result<(), Fault>)
        requires
            old(self).wf(),
            old(display).wf(),
            x < 16,
            y < 16,
        ensures
            final(self).wf(),
            final(display).wf(),
            final(display).color() == old(display).color(),
            old(self).i + rows > 4096 ==> result == Err::<(), Fault>(Fault::AddressOutOfRange)
                && final(self)@ == old(self)@ && final(display)@ == old(display)@,
            old(self).i + rows <= 4096 ==> {
                let drawn = draw_sprite(
                    old(display)@,
                    old(self).v[x as int] as int,
                    old(self).v[y as int] as int,
                    ram@.subrange(old(self).i as int, old(self).i + rows),
                );
                &&& result is Ok
                &&& final(display)@ == drawn.0
                &&& final(self)@ == old(self)@.with_register(0xF, flag(drawn.1))
            },
    {
        let from = self.i as usize;
        let to = from + rows as usize;
        if to > 4096 {
            return Err(Fault::AddressOutOfRange);
        }
        let sprite = vstd::slice::slice_subrange(ram.memory.as_slice(), from, to);
        let erased = display.draw(self.v[x as usize] as usize, self.v[y as usize] as usize, sprite);
        self.set_register(0xF, if erased { 1 } else { 0 });
        Ok(())
    }

    /// Stores the hundreds, tens and ones of Vx at I, I+1 and I+2.
    fn store_bcd(&self, x: u8, ram: &mut Ram) -> (result: Result<(), Fault>)
        requires
            x < 16,
        ensures
            self.i + 2 >= 4096 ==> final(ram)@ == old(ram)@ && result == Err::<(), Fault>(
                Fault::AddressOutOfRange,
            ),
            self.i + 2 < 4096 ==> result is Ok && final(ram)@ == old(ram)@.update(
                self.i as int,
                self.v[x as int] / 100,
            ).update(self.i + 1, (self.v[x as int] / 10) % 10).update(
                self.i + 2,
                self.v[x as int] % 10,
            ),
    {
        let i = self.i as usize;
        if i + 2 >= 4096 {
            return Err(Fault::AddressOutOfRange);
        }
        let mut num = self.v[x as usize];
        ram.memory[i] = num / 100;
        num = num % 100;
        ram.memory[i + 1] = num / 10;
        num = num % 10;
        ram.memory[i + 2] = num;
        Ok(())
    }

    /// Copies the first `x` registers, V0 up to but not including Vx, to
    /// memory from I on.
    fn store_registers(&self, x: u8, ram: &mut Ram) -> (result: Result<(), Fault>)
        requires
            x < 16,
        ensures
            self.i + x > 4096 ==> final(ram)@ == old(ram)@ && result == Err::<(), Fault>(
                Fault::AddressOutOfRange,
            ),
            self.i + x <= 4096 ==> result is Ok && final(ram)@ == Seq::new(
                4096,
                |address: int|
                    if self.i <= address < self.i + x {
                        self.v[address - self.i]
                    } else {
                        old(ram)@[address]
                    },
            ),
    {
        let base = self.i as usize;
        let count = x as usize;
        if base + count > 4096 {
            return Err(Fault::AddressOutOfRange);
        }
        let mut i: usize = 0;
        while i < count
            invariant
                i <= count,
                count < 16,
                base + count <= 4096,
                base == self.i,
                ram@ == Seq::new(
                    4096,
                    |address: int|
                        if base <= address < base + i {
                            self.v[address - base]
                        } else {
                            old(ram)@[address]
                        },
                ),
            decreases count - i,
        {
            ram.memory[base + i] = self.v[i];
            i = i + 1;
        }
        Ok(())
    }

    /// Copies memory from I on into the first `x` registers, V0 up to but
    /// not including Vx.
    fn load_registers(&mut self, x: u8, ram: &Ram) -> (result: Result<(), Fault>)
        requires
            x < 16,
        ensures
            final(self).wf() == old(self).wf(),
            old(self).i + x > 4096 ==> result == Err::<(), Fault>(Fault::AddressOutOfRange)
                && final(self)@ == old(self)@,
            old(self).i + x <= 4096 ==> result is Ok && final(self)@ == (CpuView {
                v: Seq::new(
                    16,
                    |register: int|
                        if register < x {
                            ram@[old(self).i + register]
                        } else {
                            old(self).v[register]
                        },
                ),
                ..old(self)@
            }),
    {
        let base = self.i as usize;
        let count = x as usize;
        if base + count > 4096 {
            return Err(Fault::AddressOutOfRange);
        }
        let mut i: usize = 0;
        while i < count
            invariant
                i <= count,
                count < 16,
                base + count <= 4096,
                self.i == old(self).i,
                self.pc == old(self).pc,
                self.stack == old(self).stack,
                self.sp == old(self).sp,
                self.dt == old(self).dt,
                self.st == old(self).st,
                self.awaiting_key == old(self).awaiting_key,
                base == self.i,
                self.v@ == Seq::new(
                    16,
                    |register: int|
                        if register < i {
                            ram@[base + register]
                        } else {
                            old(self).v[register]
                        },
                ),
            decreases count - i,
        {
            self.v[i] = ram.memory[base + i];
            i = i + 1;
        }
        Ok(())
    }
}

/// Adding a byte to a register (`7xkk`) leaves the register at the sum of
/// its old value and the byte modulo 256, whatever the two are, and changes no
/// other register: no flag is set.
#[verifier::rlimit(50)]
pub proof fn lemma_add_byte(machine: MachineState, opcode: u16, random: u8)
    requires
        machine.wf(),
        opcode_class(opcode) == 0x7,
    ensures
        machine.after_opcode(opcode, random) is Ok,
        ({
            let next = machine.after_opcode(opcode, random)->Ok_0;
            let x = opcode_x(opcode) as int;
            &&& next.cpu.v[x] == (machine.cpu.v[x] + opcode_byte(opcode)) % 256
            &&& forall|r: int| 0 <= r < 16 && r != x ==> next.cpu.v[r] == machine.cpu.v[r]
        }),
{
    reveal(MachineState::after);
    lemma_opcode_fields(opcode);
}

/// Adding a register to a register (`8xy4`) sets VF to 1 if the sum of the
/// two old values exceeds 255 and to 0 if it does not, whatever the two are.
/// Vx is left at the sum modulo 256, unless x is F: then the register of the
/// result is VF itself, and it holds the carry.
#[verifier::rlimit(50)]
pub proof fn lemma_add_registers(machine: MachineState, opcode: u16, random: u8)
    requires
        machine.wf(),
        opcode_class(opcode) == 0x8,
        opcode_low(opcode) == 0x4,
    ensures
        machine.after_opcode(opcode, random) is Ok,
        ({
            let next = machine.after_opcode(opcode, random)->Ok_0;
            let x = opcode_x(opcode) as int;
            let sum = machine.cpu.v[x] + machine.cpu.v[opcode_y(opcode) as int];
            &&& next.cpu.v[0xF] == (if sum > 255 {
                1int
            } else {
                0int
            })
            &&& x != 0xF ==> next.cpu.v[x] == sum % 256
        }),
{
    reveal(MachineState::after);
    lemma_opcode_fields(opcode);
}

/// Subtracting registers (`8xy5`: Vx minus Vy; `8xy7`: Vy minus Vx) leaves
/// Vx at the difference modulo 256, whatever the two values are. VF is 1 if
/// the minuend is greater than the subtrahend and 0 if it is not; so where
/// the two differ, VF is 1 exactly if the minuend is at least the
/// subtrahend, that is if nothing was borrowed. VF is read off only where x
/// is not F: where it is, VF holds the difference.
#[verifier::rlimit(50)]
pub proof fn lemma_subtract_registers(machine: MachineState, opcode: u16, random: u8)
    requires
        machine.wf(),
        opcode_class(opcode) == 0x8,
        opcode_low(opcode) == 0x5 || opcode_low(opcode) == 0x7,
    ensures
        machine.after_opcode(opcode, random) is Ok,
        ({
            let next = machine.after_opcode(opcode, random)->Ok_0;
            let x = opcode_x(opcode) as int;
            let y = opcode_y(opcode) as int;
            let minuend = if opcode_low(opcode) == 0x5 {
                machine.cpu.v[x]
            } else {
                machine.cpu.v[y]
            };
            let subtrahend = if opcode_low(opcode) == 0x5 {
                machine.cpu.v[y]
            } else {
                machine.cpu.v[x]
            };
            &&& next.cpu.v[x] == (minuend - subtrahend) % 256
            &&& x != 0xF ==> next.cpu.v[0xF] == flag(minuend > subtrahend)
            &&& x != 0xF && minuend != subtrahend ==> next.cpu.v[0xF] == flag(minuend >= subtrahend)
        }),
{
    reveal(MachineState::after);
    lemma_opcode_fields(opcode);
}

/// Clearing the screen (`00E0`), drawing any sprite (`Dxyn`) and clearing
/// again leaves every pixel off, as the first clearing did.
#[verifier::rlimit(50)]
pub proof fn lemma_clear_draw_clear(machine: MachineState, draw: u16, random: u8)
    requires
        machine.wf(),
        opcode_class(draw) == 0xD,
        machine.after_opcode(0x00E0, random)->Ok_0.after_opcode(draw, random) is Ok,
    ensures
        machine.after_opcode(0x00E0, random) is Ok,
        ({
            let cleared = machine.after_opcode(0x00E0, random)->Ok_0;
            let drawn = cleared.after_opcode(draw, random)->Ok_0;
            let again = drawn.after_opcode(0x00E0, random);
            &&& cleared.screen == blank_grid()
            &&& again is Ok
            &&& again->Ok_0.screen == blank_grid()
            &&& again->Ok_0.screen == cleared.screen
        }),
{
    reveal(MachineState::after);
    lemma_opcode_fields(0x00E0);
    lemma_opcode_fields(draw);
}

/// A cycle of a processor that does not wait for a key, with the program
/// counter inside memory, executes the fetched opcode on the machine whose
/// program counter points behind it.
pub proof fn lemma_cycle_executes_fetched(machine: MachineState, random: u8)
    requires
        machine.cpu.awaiting_key is None,
        machine.cpu.pc <= 4094,
    ensures
        machine.after_cycle(random) == machine.with_cpu(
            CpuView { pc: (machine.cpu.pc + 2) as u16, ..machine.cpu },
        ).after_opcode(machine.fetched(), random),
{
    reveal(MachineState::after_cycle);
}

/// A jump (`1nnn`) is not advanced: after the cycle that executes it the
/// program counter is `nnn`, and the next fetch reads the word at `nnn`.
#[verifier::rlimit(50)]
pub proof fn lemma_jump_target(machine: MachineState, random: u8)
    requires
        machine.wf(),
        machine.cpu.awaiting_key is None,
        machine.cpu.pc <= 4094,
        opcode_class(machine.fetched()) == 0x1,
    ensures
        machine.after_cycle(random) is Ok,
        ({
            let next = machine.after_cycle(random)->Ok_0;
            let target = opcode_address(machine.fetched());
            &&& next.cpu.pc == target
            &&& next.memory == machine.memory
            &&& next.fetched() == word_at(machine.memory, target as int)
        }),
{
    lemma_cycle_executes_fetched(machine, random);
    lemma_opcode_fields(machine.fetched());
    assert(decoded(machine.fetched()) == Some(
        Instruction::Jump { address: opcode_address(machine.fetched()) },
    ));
    reveal(MachineState::after);
}

/// A cycle that fetches a call (`2nnn`) and finds room on the stack pushes
/// the address behind the call and goes on at `nnn`.
#[verifier::rlimit(50)]
pub proof fn lemma_call(machine: MachineState, random: u8)
    requires
        machine.wf(),
        machine.cpu.awaiting_key is None,
        machine.cpu.pc <= 4094,
        opcode_class(machine.fetched()) == 0x2,
        machine.cpu.sp < 16,
    ensures
        machine.after_cycle(random) == Ok::<MachineState, Fault>(
            machine.with_cpu(
                CpuView {
                    pc: opcode_address(machine.fetched()),
                    stack: machine.cpu.stack.update(
                        machine.cpu.sp as int,
                        (machine.cpu.pc + 2) as u16,
                    ),
                    sp: (machine.cpu.sp + 1) as u8,
                    ..machine.cpu
                },
            ),
        ),
{
    lemma_cycle_executes_fetched(machine, random);
    lemma_opcode_fields(machine.fetched());
    assert(decoded(machine.fetched()) == Some(
        Instruction::Call { address: opcode_address(machine.fetched()) },
    ));
    reveal(MachineState::after);
}

/// A cycle that fetches a return (`00EE`) with a return address on the stack
/// pops the latest one and goes on there.
#[verifier::rlimit(50)]
pub proof fn lemma_return(machine: MachineState, random: u8)
    requires
        machine.wf(),
        machine.cpu.awaiting_key is None,
        machine.cpu.pc <= 4094,
        machine.fetched() == 0x00EE,
        machine.cpu.sp > 0,
    ensures
        machine.after_cycle(random) == Ok::<MachineState, Fault>(
            machine.with_cpu(
                CpuView {
                    pc: machine.cpu.stack[machine.cpu.sp - 1],
                    sp: (machine.cpu.sp - 1) as u8,
                    ..machine.cpu
                },
            ),
        ),
{
    lemma_cycle_executes_fetched(machine, random);
    lemma_opcode_fields(0x00EE);
    assert(decoded(0x00EE) == Some(Instruction::Return));
    reveal(MachineState::after);
}

/// A call (`2nnn`) that finds room on the stack, followed by a return
/// (`00EE`) at its target, comes back to the instruction behind the call:
/// the program counter is then what it was when the call had been fetched,
/// two behind the call, and the same return addresses are on the stack as
/// before the call. Of the whole machine only the slot that the call wrote
/// has changed.
pub proof fn lemma_call_then_return(machine: MachineState, first: u8, second: u8)
    requires
        machine.wf(),
        machine.cpu.awaiting_key is None,
        machine.cpu.pc <= 4094,
        opcode_class(machine.fetched()) == 0x2,
        machine.cpu.sp < 16,
        opcode_address(machine.fetched()) <= 4094,
        word_at(machine.memory, opcode_address(machine.fetched()) as int) == 0x00EE,
    ensures
        machine.after_cycle(first) is Ok,
        machine.after_cycle(first)->Ok_0.cpu.pc == opcode_address(machine.fetched()),
        machine.after_cycle(first)->Ok_0.after_cycle(second) is Ok,
        ({
            let returned = machine.after_cycle(first)->Ok_0.after_cycle(second)->Ok_0;
            &&& returned.cpu.pc == machine.cpu.pc + 2
            &&& returned.cpu.return_addresses() == machine.cpu.return_addresses()
            &&& returned == machine.with_cpu(
                CpuView {
                    pc: (machine.cpu.pc + 2) as u16,
                    stack: machine.cpu.stack.update(
                        machine.cpu.sp as int,
                        (machine.cpu.pc + 2) as u16,
                    ),
                    ..machine.cpu
                },
            )
        }),
{
    lemma_call(machine, first);
    let called = machine.after_cycle(first)->Ok_0;
    lemma_return(called, second);
    let returned = called.after_cycle(second)->Ok_0;
    assert(returned.cpu.return_addresses() =~= machine.cpu.return_addresses());
}

/// Only an instruction of class `C` uses the random byte: a cycle that
/// fetches any other opcode, or that waits for a key, has the same outcome
/// for every byte.
#[verifier::rlimit(50)]
pub proof fn lemma_random_only_in_class_c(machine: MachineState, one: u8, other: u8)
    requires
        machine.cpu.awaiting_key is Some || opcode_class(machine.fetched()) != 0xC,
    ensures
        machine.after_cycle(one) == machine.after_cycle(other),
{
    reveal(MachineState::after_cycle);
    reveal(MachineState::after);
    lemma_opcode_fields(machine.fetched());
}

} // verus!
