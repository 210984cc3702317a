//! The execution engine: registers, one hundred mailboxes and the
//! fetch–decode–execute cycle.
//!
//! The engine does no console I/O of its own. A cycle tells its driver, by
//! the [`Step`] it returns, whether to go on, to stop, to hand in a line of
//! input ([`LMC::inp`]) or to write out the accumulator ([`LMC::out`]).
//!
//! Addresses outside the memory are never read or written: operands are
//! always below [`MEMORY_SIZE`], and a cycle whose program counter lies
//! outside the memory fails with [`MachineError::AddressOutOfRange`] and
//! leaves the machine as it was.
//!
//! Two inherited properties of the instruction set are kept on purpose:
//! the three branches are indirect (the target is read from the mailbox that
//! the operand names), and opcode 7 branches when the *program counter* is
//! zero, not the accumulator. Since the counter is advanced before an
//! instruction executes, opcode 7 never branches in a running program
//! ([`lemma_opcode_seven_falls_through`]).

use crate::text::{fields, literal_value, parse_number, split_fields, views_of};
use vstd::prelude::*;

verus! {

/// Number of mailboxes.
pub const MEMORY_SIZE: usize = 100;

/// Largest value of a machine word, and of the accumulator.
pub const WORD_MAX: u16 = 999;

/// What the driver has to do after a cycle.
#[derive(Clone, Copy, Debug, PartialEq, Eq)]
pub enum Step {
    /// Run the next cycle.
    Continue,
    /// The machine has halted.
    Halt,
    /// Read a line and hand it to [`LMC::inp`], then run the next cycle.
    Input,
    /// Write out the value of [`LMC::out`], then run the next cycle.
    Output,
}

/// Why the machine refused an operation.
#[derive(Clone, Copy, Debug, PartialEq, Eq)]
pub enum MachineError {
    /// An address of 100 or more was about to be used.
    AddressOutOfRange,
    /// A program of more than 100 words was offered.
    ProgramTooLong,
    /// A program held a word above 999.
    WordOutOfRange,
    /// An input line was not a number from 0 to 999.
    InvalidInput,
}

/// A decoded machine word.
#[derive(Clone, Copy, Debug, PartialEq, Eq)]
pub struct Instruction {
    pub opcode: u8,
    pub operand: usize,
}

/// The machine. Its data register and its decoded instruction are scratch
/// values that every cycle recomputes; the rest is its state, [`MachineState`].
pub struct LMC {
    program_counter: u16,
    accumulator: u16,
    neg_flag: bool,
    mailbox: [u16; 100],
    data_reg: u16,
    current_instruction: Instruction,
}

/// The state of a machine, as mathematics sees it.
pub struct MachineState {
    pub program_counter: int,
    pub accumulator: int,
    pub neg_flag: bool,
    pub mailbox: Seq<int>,
}

// ---------------------------------------------------------------------------
// The instruction set
// ---------------------------------------------------------------------------

/// The states a machine can be in: 100 mailboxes, every word and the
/// accumulator within 0..=999. The program counter may leave the memory (by
/// running past the last mailbox or by a branch); the next cycle then fails.
pub open spec fn valid_state(s: MachineState) -> bool {
    &&& 0 <= s.program_counter <= WORD_MAX
    &&& 0 <= s.accumulator <= WORD_MAX
    &&& s.mailbox.len() == MEMORY_SIZE
    &&& forall|a: int| 0 <= a < MEMORY_SIZE ==> 0 <= #[trigger] s.mailbox[a] <= WORD_MAX
}

/// The state of a new machine: everything zero.
pub open spec fn initial_state() -> MachineState {
    MachineState {
        program_counter: 0,
        accumulator: 0,
        neg_flag: false,
        mailbox: Seq::new(MEMORY_SIZE as nat, |a: int| 0int),
    }
}

/// The instruction class of a word.
pub open spec fn decode_opcode(word: int) -> int {
    word / 100
}

/// The operand of a word.
pub open spec fn decode_operand(word: int) -> int {
    word % 100
}

/// Opcode 1: add a mailbox to the accumulator, unless the sum would pass 999;
/// then only the flag is raised.
pub open spec fn add_spec(s: MachineState, operand: int) -> MachineState {
    let value = s.mailbox[operand];
    if s.accumulator + value > WORD_MAX {
        MachineState { neg_flag: true, ..s }
    } else {
        MachineState { accumulator: s.accumulator + value, neg_flag: false, ..s }
    }
}

/// Opcode 2: subtract a mailbox from the accumulator, unless it is the
/// larger; then only the flag is raised.
pub open spec fn sub_spec(s: MachineState, operand: int) -> MachineState {
    let value = s.mailbox[operand];
    if s.accumulator < value {
        MachineState { neg_flag: true, ..s }
    } else {
        MachineState { accumulator: s.accumulator - value, neg_flag: false, ..s }
    }
}

/// Opcode 3: store the accumulator in a mailbox.
pub open spec fn sta_spec(s: MachineState, operand: int) -> MachineState {
    MachineState { mailbox: s.mailbox.update(operand, s.accumulator), ..s }
}

/// Opcode 5: load the accumulator from a mailbox.
pub open spec fn lda_spec(s: MachineState, operand: int) -> MachineState {
    MachineState { accumulator: s.mailbox[operand], ..s }
}

/// Opcode 6: continue at the address that a mailbox holds.
pub open spec fn bra_spec(s: MachineState, operand: int) -> MachineState {
    MachineState { program_counter: s.mailbox[operand], ..s }
}

/// Opcode 7: branch as opcode 6 does if the program counter is zero.
pub open spec fn brz_spec(s: MachineState, operand: int) -> MachineState {
    if s.program_counter == 0 {
        bra_spec(s, operand)
    } else {
        s
    }
}

/// Opcode 8: branch as opcode 6 does if the flag is down.
pub open spec fn brp_spec(s: MachineState, operand: int) -> MachineState {
    if !s.neg_flag {
        bra_spec(s, operand)
    } else {
        s
    }
}

/// The state after executing a decoded instruction. Opcodes 0 and 9 and those
/// outside the table change nothing.
pub open spec fn execute_spec(s: MachineState, opcode: int, operand: int) -> MachineState {
    if opcode == 1 {
        add_spec(s, operand)
    } else if opcode == 2 {
        sub_spec(s, operand)
    } else if opcode == 3 {
        sta_spec(s, operand)
    } else if opcode == 5 {
        lda_spec(s, operand)
    } else if opcode == 6 {
        bra_spec(s, operand)
    } else if opcode == 7 {
        brz_spec(s, operand)
    } else if opcode == 8 {
        brp_spec(s, operand)
    } else {
        s
    }
}

/// What a decoded instruction asks of the driver.
pub open spec fn step_of(opcode: int, operand: int) -> Step {
    if opcode == 0 {
        Step::Halt
    } else if opcode == 9 && operand == 1 {
        Step::Input
    } else if opcode == 9 && operand == 2 {
        Step::Output
    } else {
        Step::Continue
    }
}

/// The state after one cycle: the word at the program counter is decoded, the
/// counter is advanced, then the instruction is executed.
pub open spec fn cycle_state(s: MachineState) -> MachineState {
    let word = s.mailbox[s.program_counter];
    execute_spec(
        MachineState { program_counter: s.program_counter + 1, ..s },
        decode_opcode(word),
        decode_operand(word),
    )
}

/// What one cycle asks of the driver.
pub open spec fn cycle_step(s: MachineState) -> Step {
    let word = s.mailbox[s.program_counter];
    step_of(decode_opcode(word), decode_operand(word))
}

/// Whether a program can be loaded, and if not, why.
pub open spec fn load_result(words: Seq<u16>) -> Result<(), MachineError> {
    if words.len() > MEMORY_SIZE {
        Err(MachineError::ProgramTooLong)
    } else if exists|i: int| 0 <= i < words.len() && #[trigger] words[i] > WORD_MAX {
        Err(MachineError::WordOutOfRange)
    } else {
        Ok(())
    }
}

/// The state after loading a program: its words fill the memory from
/// address 0; the mailboxes behind them, and the registers, stay.
pub open spec fn load_spec(s: MachineState, words: Seq<u16>) -> MachineState {
    MachineState {
        mailbox: Seq::new(
            MEMORY_SIZE as nat,
            |a: int|
                if a < words.len() {
                    words[a] as int
                } else {
                    s.mailbox[a]
                },
        ),
        ..s
    }
}

/// The number that an input line stands for: the line holds, between
/// optional whitespace, one numeric literal from 0 to 999.
pub open spec fn input_value(line: Seq<char>) -> Option<int> {
    let f = fields(line);
    if f.len() == 1 {
        match literal_value(f[0]) {
            Some(v) => if v <= WORD_MAX {
                Some(v as int)
            } else {
                None
            },
            None => None,
        }
    } else {
        None
    }
}

// ---------------------------------------------------------------------------
// Laws of the instruction set
// ---------------------------------------------------------------------------

/// A cycle takes valid states to valid states.
pub proof fn lemma_cycle_keeps_valid(s: MachineState)
    requires
        valid_state(s),
        s.program_counter < MEMORY_SIZE,
    ensures
        valid_state(cycle_state(s)),
{
    let word = s.mailbox[s.program_counter];
    let operand = decode_operand(word);
    assert(0 <= operand < 100);
    let t = MachineState { program_counter: s.program_counter + 1, ..s };
    assert(valid_state(t));
    assert(0 <= t.mailbox[operand] <= WORD_MAX);
}

/// A halt instruction stops the machine and changes nothing but the program
/// counter, which has moved on by one. An empty mailbox is such an
/// instruction, so zero-filled memory ends every program.
pub proof fn lemma_halt_changes_nothing(s: MachineState)
    requires
        valid_state(s),
        s.program_counter < MEMORY_SIZE,
        decode_opcode(s.mailbox[s.program_counter]) == 0,
    ensures
        cycle_step(s) == Step::Halt,
        cycle_state(s) == (MachineState { program_counter: s.program_counter + 1, ..s }),
{
}

/// Only opcode 0 halts.
pub proof fn lemma_only_opcode_zero_halts(s: MachineState)
    requires
        valid_state(s),
        s.program_counter < MEMORY_SIZE,
    ensures
        cycle_step(s) == Step::Halt <==> decode_opcode(s.mailbox[s.program_counter]) == 0,
{
}

/// Within a cycle opcode 7 never branches: it tests the program counter,
/// which has just been advanced and so is not zero.
pub proof fn lemma_opcode_seven_falls_through(s: MachineState)
    requires
        valid_state(s),
        s.program_counter < MEMORY_SIZE,
        decode_opcode(s.mailbox[s.program_counter]) == 7,
    ensures
        cycle_state(s) == (MachineState { program_counter: s.program_counter + 1, ..s }),
{
}

/// Decoding takes a word apart without loss: class and operand give the word
/// back, and the operand is an address of the memory.
pub proof fn lemma_decode_splits_word(word: int)
    requires
        0 <= word <= WORD_MAX,
    ensures
        0 <= decode_opcode(word) <= 9,
        0 <= decode_operand(word) < MEMORY_SIZE,
        decode_opcode(word) * 100 + decode_operand(word) == word,
{
}

// ---------------------------------------------------------------------------
// The machine
// ---------------------------------------------------------------------------

/// Takes a word apart into instruction class and operand.
pub fn decode_word(word: u16) -> (ins: Instruction)
    requires
        word <= WORD_MAX,
    ensures
        ins.opcode == decode_opcode(word as int),
        ins.operand == decode_operand(word as int),
        ins.opcode <= 9,
        ins.operand < MEMORY_SIZE,
{
    Instruction { opcode: (word / 100) as u8, operand: (word % 100) as usize }
}

impl View for LMC {
    type V = MachineState;

    closed spec fn view(&self) -> MachineState {
        MachineState {
            program_counter: self.program_counter as int,
            accumulator: self.accumulator as int,
            neg_flag: self.neg_flag,
            mailbox: self.mailbox@.map_values(|w: u16| w as int),
        }
    }
}

impl LMC {
    #[verifier::type_invariant]
    spec fn inv(self) -> bool {
        &&& self.program_counter <= WORD_MAX
        &&& self.accumulator <= WORD_MAX
        &&& forall|a: int| 0 <= a < MEMORY_SIZE ==> #[trigger] self.mailbox[a] <= WORD_MAX
        &&& self.data_reg <= WORD_MAX
        &&& self.current_instruction.operand < MEMORY_SIZE
    }

    /// A new machine: registers and memory are zero.
    pub fn create() -> (machine: LMC)
        ensures
            machine@ == initial_state(),
            valid_state(machine@),
    {
        let machine = LMC {
            program_counter: 0,
            accumulator: 0,
            neg_flag: false,
            mailbox: [0u16; 100],
            data_reg: 0,
            current_instruction: Instruction { opcode: 0, operand: 0 },
        };
        assert(machine@.mailbox =~= initial_state().mailbox);
        machine
    }

    /// Puts a program into memory, from address 0 on. A program that is too
    /// long or holds a word above 999 is refused, and nothing changes.
    pub fn load_instructions(&mut self, instructions: Vec<u16>) -> (r: Result<(), MachineError>)
        ensures
            r == load_result(instructions@),
            r is Ok ==> final(self)@ == load_spec(old(self)@, instructions@),
            r is Err ==> final(self)@ == old(self)@,
            valid_state(final(self)@),
    {
        proof {
            use_type_invariant(&*self);
        }
        let n: usize = instructions.len();
        if n > MEMORY_SIZE {
            return Err(MachineError::ProgramTooLong);
        }
        let mut k: usize = 0;
        while k < n
            invariant
                k <= n,
                n == instructions@.len(),
                n <= MEMORY_SIZE,
                *self == *old(self),
                forall|i: int| 0 <= i < k ==> instructions@[i] <= WORD_MAX,
            decreases n - k,
        {
            if instructions[k] > WORD_MAX {
                proof {
                    use_type_invariant(&*self);
                    assert(instructions@[k as int] > WORD_MAX);
                }
                return Err(MachineError::WordOutOfRange);
            }
            k += 1;
        }
        let mut index: usize = 0;
        while index < n
            invariant
                index <= n,
                n == instructions@.len(),
                n <= MEMORY_SIZE,
                forall|i: int| 0 <= i < n ==> instructions@[i] <= WORD_MAX,
                self.program_counter == old(self).program_counter,
                self.accumulator == old(self).accumulator,
                self.neg_flag == old(self).neg_flag,
                forall|a: int|
                    0 <= a < MEMORY_SIZE ==> #[trigger] self.mailbox[a] == (if a < index {
                        instructions@[a]
                    } else {
                        old(self).mailbox[a]
                    }),
            decreases n - index,
        {
            proof {
                use_type_invariant(&*self);
            }
            self.mailbox[index] = instructions[index];
            index += 1;
        }
        proof {
            use_type_invariant(&*self);
            assert(self@.mailbox =~= load_spec(old(self)@, instructions@).mailbox);
        }
        Ok(())
    }

    /// Copies a mailbox into the data register.
    fn fetch(&mut self, addr: usize)
        requires
            addr < MEMORY_SIZE,
        ensures
            *final(self) == (LMC { data_reg: old(self).mailbox[addr as int], ..*old(self) }),
    {
        proof {
            use_type_invariant(&*self);
        }
        self.data_reg = self.mailbox[addr];
    }

    /// Takes the data register apart into the current instruction.
    fn decode(&mut self)
        ensures
            *final(self) == (LMC {
                current_instruction: final(self).current_instruction,
                ..*old(self)
            }),
            final(self).current_instruction.opcode == decode_opcode(old(self).data_reg as int),
            final(self).current_instruction.operand == decode_operand(old(self).data_reg as int),
    {
        proof {
            use_type_invariant(&*self);
        }
        self.current_instruction = decode_word(self.data_reg);
    }

    /// Carries out the current instruction.
    fn execute(&mut self) -> (step: Step)
        ensures
            final(self)@ == execute_spec(
                old(self)@,
                old(self).current_instruction.opcode as int,
                old(self).current_instruction.operand as int,
            ),
            step == step_of(
                old(self).current_instruction.opcode as int,
                old(self).current_instruction.operand as int,
            ),
    {
        let opcode: u8 = self.current_instruction.opcode;
        let operand: usize = self.current_instruction.operand;
        if opcode == 0 {
            return Step::Halt;
        } else if opcode == 1 {
            self.add();
        } else if opcode == 2 {
            self.sub();
        } else if opcode == 3 {
            self.sta();
        } else if opcode == 5 {
            self.lda();
        } else if opcode == 6 {
            self.bra();
        } else if opcode == 7 {
            self.brz();
        } else if opcode == 8 {
            self.brp();
        } else if opcode == 9 {
            if operand == 1 {
                return Step::Input;
            } else if operand == 2 {
                return Step::Output;
            }
        }
        Step::Continue
    }

    /// Runs one cycle: fetch the word at the program counter, decode it,
    /// advance the counter, execute. With the program counter outside the
    /// memory nothing happens and the cycle fails.
    pub fn cycle(&mut self) -> (r: Result<Step, MachineError>)
        ensures
            old(self)@.program_counter >= MEMORY_SIZE ==> r == Err::<Step, MachineError>(
                MachineError::AddressOutOfRange,
            ) && final(self)@ == old(self)@,
            old(self)@.program_counter < MEMORY_SIZE ==> r == Ok::<Step, MachineError>(
                cycle_step(old(self)@),
            ) && final(self)@ == cycle_state(old(self)@),
            valid_state(final(self)@),
    {
        proof {
            use_type_invariant(&*self);
        }
        let counter: usize = self.program_counter as usize;
        if counter >= MEMORY_SIZE {
            return Err(MachineError::AddressOutOfRange);
        }
        self.fetch(counter);
        self.decode();
        self.program_counter += 1;
        let step: Step = self.execute();
        proof {
            use_type_invariant(&*self);
        }
        Ok(step)
    }

    fn add(&mut self)
        ensures
            final(self)@ == add_spec(old(self)@, old(self).current_instruction.operand as int),
    {
        proof {
            use_type_invariant(&*self);
        }
        let operand: usize = self.current_instruction.operand;
        self.fetch(operand);
        if self.accumulator + self.data_reg > WORD_MAX {
            self.neg_flag = true;
        } else {
            self.accumulator += self.data_reg;
            self.neg_flag = false;
        }
    }

    fn sub(&mut self)
        ensures
            final(self)@ == sub_spec(old(self)@, old(self).current_instruction.operand as int),
    {
        proof {
            use_type_invariant(&*self);
        }
        let operand: usize = self.current_instruction.operand;
        self.fetch(operand);
        if self.accumulator < self.data_reg {
            self.neg_flag = true;
        } else {
            self.accumulator -= self.data_reg;
            self.neg_flag = false;
        }
    }

    fn sta(&mut self)
        ensures
            final(self)@ == sta_spec(old(self)@, old(self).current_instruction.operand as int),
    {
        proof {
            use_type_invariant(&*self);
        }
        let operand: usize = self.current_instruction.operand;
        self.mailbox[operand] = self.accumulator;
        assert(self@.mailbox =~= old(self)@.mailbox.update(
            operand as int,
            old(self)@.accumulator,
        ));
    }

    fn lda(&mut self)
        ensures
            final(self)@ == lda_spec(old(self)@, old(self).current_instruction.operand as int),
    {
        proof {
            use_type_invariant(&*self);
        }
        let operand: usize = self.current_instruction.operand;
        self.accumulator = self.mailbox[operand];
    }

    fn bra(&mut self)
        ensures
            final(self)@ == bra_spec(old(self)@, old(self).current_instruction.operand as int),
    {
        proof {
            use_type_invariant(&*self);
        }
        let operand: usize = self.current_instruction.operand;
        self.program_counter = self.mailbox[operand];
    }

    fn brz(&mut self)
        ensures
            final(self)@ == brz_spec(old(self)@, old(self).current_instruction.operand as int),
    {
        if self.program_counter == 0 {
            self.bra();
        }
    }

    fn brp(&mut self)
        ensures
            final(self)@ == brp_spec(old(self)@, old(self).current_instruction.operand as int),
    {
        if !self.neg_flag {
            self.bra();
        }
    }

    /// Takes a line of input in answer to [`Step::Input`]: the number on it
    /// becomes the accumulator. A line that holds no number from 0 to 999 is
    /// refused, and nothing changes.
    pub fn inp(&mut self, line: &str) -> (r: Result<(), MachineError>)
        ensures
            match input_value(line@) {
                Some(v) => r == Ok::<(), MachineError>(()) && final(self)@ == (MachineState {
                    accumulator: v,
                    ..old(self)@
                }),
                None => r == Err::<(), MachineError>(MachineError::InvalidInput) && final(self)@
                    == old(self)@,
            },
            valid_state(final(self)@),
    {
        proof {
            use_type_invariant(&*self);
        }
        let parts: Vec<&str> = split_fields(line);
        if parts.len() != 1 {
            return Err(MachineError::InvalidInput);
        }
        assert(views_of(parts@)[0] == parts@[0]@);
        match parse_number(parts[0]) {
            Some(value) => {
                if value > WORD_MAX {
                    return Err(MachineError::InvalidInput);
                }
                self.accumulator = value;
                Ok(())
            },
            None => Err(MachineError::InvalidInput),
        }
    }

    /// The value to write out in answer to [`Step::Output`]: the accumulator.
    pub fn out(&self) -> (value: u16)
        ensures
            value == self@.accumulator,
            value <= WORD_MAX,
    {
        proof {
            use_type_invariant(self);
        }
        self.accumulator
    }

    /// The address of the next instruction.
    pub fn program_counter(&self) -> (value: u16)
        ensures
            value == self@.program_counter,
    {
        self.program_counter
    }

    /// The accumulator.
    pub fn accumulator(&self) -> (value: u16)
        ensures
            value == self@.accumulator,
            value <= WORD_MAX,
    {
        proof {
            use_type_invariant(self);
        }
        self.accumulator
    }

    /// Whether the last addition or subtraction was refused.
    pub fn neg_flag(&self) -> (value: bool)
        ensures
            value == self@.neg_flag,
    {
        self.neg_flag
    }

    /// The word in the mailbox at `addr`; there is none at 100 and above.
    pub fn mailbox(&self, addr: usize) -> (r: Result<u16, MachineError>)
        ensures
            addr < MEMORY_SIZE ==> r is Ok && r->Ok_0 == self@.mailbox[addr as int] && r->Ok_0
                <= WORD_MAX,
            addr >= MEMORY_SIZE ==> r == Err::<u16, MachineError>(MachineError::AddressOutOfRange),
    {
        proof {
            use_type_invariant(self);
        }
        if addr < MEMORY_SIZE {
            Ok(self.mailbox[addr])
        } else {
            Err(MachineError::AddressOutOfRange)
        }
    }
}

} // verus!
