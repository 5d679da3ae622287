use vstd::prelude::*;

use crate::color::Color;
use crate::cpu::{machine_state, outcome, reset_registers, Cpu, Fault, MachineState};
use crate::display::{blank_grid, Display, FONT};
use crate::keyboard::{all_released, Keyboard};
use crate::ram::{zeroed_memory, Ram};

verus! {

/// The longest program that fits between the start address 0x200 and the end
/// of memory.
pub const MAX_PROGRAM_SIZE: usize = 4096 - 512;

/// The whole machine: the processor with its memory, keypad and screen.
///
/// Its view is the mathematical machine that its four parts form.
pub struct Chip8Machine {
    pub display: Display,
    pub keyboard: Keyboard,
    pub cpu: Cpu,
    pub memory: Ram,
}

impl View for Chip8Machine {
    type V = MachineState;

    open spec fn view(&self) -> MachineState {
        machine_state(self.cpu, self.memory, self.display, self.keyboard)
    }
}

/// The memory image that a program starts from: the font at address 0, the
/// program from address 0x200 on, and zero everywhere else.
pub open spec fn program_image(game: Seq<u8>) -> Seq<u8> {
    Seq::new(
        4096,
        |address: int|
            if address < 80 {
                FONT@[address]
            } else if 0x200 <= address < 0x200 + game.len() {
                game[address - 0x200]
            } else {
                0u8
            },
    )
}

/// The machine as it stands when a program starts: the processor reset, the
/// memory holding the program's image, screen and keys as they were.
pub open spec fn booted(machine: MachineState, game: Seq<u8>) -> MachineState {
    MachineState { cpu: reset_registers(), memory: program_image(game), ..machine }
}

/// Whether `steps` cycles in a row, none of which ends in a fault, lead from
/// `start` to `end`. Each cycle may have drawn any random byte.
pub open spec fn reaches(start: MachineState, steps: nat, end: MachineState) -> bool
    decreases steps,
{
    if steps == 0 {
        end == start
    } else {
        exists|middle: MachineState, random: u8|
            reaches(start, (steps - 1) as nat, middle) && #[trigger] middle.after_cycle(random)
                == Ok::<MachineState, Fault>(end)
    }
}

/// Builds the memory image for a program: the font at address 0, the program
/// from address 0x200 on, zero everywhere else.
pub fn memory_image(game: &[u8]) -> (image: [u8; 4096])
    requires
        game.len() <= MAX_PROGRAM_SIZE,
    ensures
        image@ == program_image(game@),
{
    let mut memory = [0; 4096];
    // Load the game's ROM into memory
    let mut i: usize = 0;
    while i < game.len()
        invariant
            i <= game.len(),
            game.len() <= 3584,
            memory@ == Seq::new(
                4096,
                |address: int|
                    if 0x200 <= address < 0x200 + i {
                        game[address - 0x200]
                    } else {
                        0u8
                    },
            ),
        decreases game.len() - i,
    {
        memory[0x200 + i] = game[i];
        i = i + 1;
    }
    // Load the font into memory, at the very beginning
    let mut i: usize = 0;
    while i < 80
        invariant
            i <= 80,
            memory@ == Seq::new(
                4096,
                |address: int|
                    if address < i {
                        FONT@[address]
                    } else if 0x200 <= address < 0x200 + game.len() {
                        game[address - 0x200]
                    } else {
                        0u8
                    },
            ),
        decreases 80 - i,
    {
        memory[i] = FONT[i];
        i = i + 1;
    }
    memory
}

impl Chip8Machine {
    /// Whether the processor and the screen are well formed.
    pub open spec fn wf(&self) -> bool {
        self.cpu.wf() && self.display.wf()
    }

    /// The view of a well-formed machine has every part at its size.
    pub proof fn lemma_view_wf(&self)
        requires
            self.wf(),
        ensures
            self@.wf(),
    {
        self.display.lemma_wf();
        self.keyboard.lemma_sixteen_keys();
    }

    /// A machine with a white-on-black screen, every key released, the
    /// processor reset and the memory zeroed.
    pub fn new() -> (machine: Chip8Machine)
        ensures
            machine.wf(),
            machine.display.color() == Color::White,
            machine@ == (MachineState {
                cpu: reset_registers(),
                memory: zeroed_memory(),
                screen: blank_grid(),
                keys: all_released(),
            }),
    {
        Chip8Machine {
            display: Display::new(Color::White),
            keyboard: Keyboard::new(),
            cpu: Cpu::new(),
            memory: Ram::new(),
        }
    }

    /// Starts `game` and runs it for at most `cycles` cycles.
    ///
    /// The processor is reset and the memory is loaded with the image of the
    /// program; the screen and the keys stay as they are. Then cycles are
    /// executed until `cycles` of them are done or one ends in a fault. A
    /// faulting cycle changes nothing, so the machine is then left as the
    /// cycles before it made it.
    pub fn run(&mut self, game: &[u8], cycles: u32) -> (result: Result<(), Fault>)
        requires
            old(self).wf(),
            game.len() <= MAX_PROGRAM_SIZE,
        ensures
            final(self).wf(),
            final(self).display.color() == old(self).display.color(),
            result is Ok ==> reaches(booted(old(self)@, game@), cycles as nat, final(self)@),
            result matches Err(fault) ==> exists|steps: nat, random: u8|
                #![trigger reaches(booted(old(self)@, game@), steps, final(self)@), final(self)@.after_cycle(random)]
                steps < cycles && reaches(booted(old(self)@, game@), steps, final(self)@)
                    && final(self)@.after_cycle(random) == Err::<MachineState, Fault>(fault),
    {
        self.cpu.reset();
        self.memory.load_rom(memory_image(game));
        let ghost start = self@;
        assert(start == booted(old(self)@, game@));
        let mut done: u32 = 0;
        while done < cycles
            invariant
                done <= cycles,
                start == booted(old(self)@, game@),
                self.wf(),
                self.display.color() == old(self).display.color(),
                reaches(start, done as nat, self@),
            decreases cycles - done,
        {
            let ghost before = self@;
            let result = self.cpu.execute_cycle(
                &mut self.memory,
                &mut self.keyboard,
                &mut self.display,
            );
            let ghost random = choose|random: u8|
                outcome(before, #[trigger] before.after_cycle(random), self@, result);
            assert(outcome(before, before.after_cycle(random), self@, result));
            match result {
                Err(fault) => {
                    assert(self@ == before);
                    assert(reaches(start, done as nat, self@) && self@.after_cycle(random)
                        == Err::<MachineState, Fault>(fault));
                    return Err(fault);
                },
                Ok(_) => {
                    assert(reaches(start, (done + 1) as nat, self@));
                },
            }
            done = done + 1;
        }
        Ok(())
    }
}

} // verus!
