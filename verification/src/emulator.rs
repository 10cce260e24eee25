use vstd::prelude::*;

use crate::error::EmulatorError;
use crate::io::Port;
use crate::io::PortState;
use crate::opcode::Opcode;
use crate::opcode::has_immediate;
use crate::opcode::opcode_of_code;
use crate::register::Register;
use crate::register::RegisterState;
use crate::rom::Rom;

verus! {

/// The whole machine as contracts speak of it: register file, ports and the
/// program store the run was started with.
#[verifier::ext_equal]
pub struct MachineState {
    pub reg: RegisterState,
    pub port: PortState,
    pub rom: Seq<u8>,
}

impl MachineState {
    /// Registers and ports hold 4-bit values (the carry a single bit) and
    /// the program store fits the program counter's address range.
    pub open spec fn wf(&self) -> bool {
        &&& self.reg.wf()
        &&& self.port.wf()
        &&& self.rom.len() <= 16
    }

    /// The machine's only termination condition: the program counter has
    /// moved to or beyond the end of the program store.
    pub open spec fn halted(&self) -> bool {
        self.reg.pc >= self.rom.len()
    }
}

/// The byte under the program counter, or zero when the counter points past
/// the end of the store.
pub open spec fn spec_fetch(s: MachineState) -> u8 {
    if s.reg.pc < s.rom.len() {
        s.rom[s.reg.pc as int]
    } else {
        0
    }
}

/// Decode of a fetched byte: the high nibble selects the catalog entry, the
/// low nibble is the immediate, handed on as zero for entries that take no
/// operand. Decoding fails exactly on the four unassigned codes.
pub open spec fn spec_decode(data: u8) -> Option<(Opcode, u8)> {
    match opcode_of_code(data >> 4) {
        Some(op) => Some((op, if has_immediate(op) { data & 0x0f } else { 0u8 })),
        None => None,
    }
}

/// The effect of one decoded instruction on the machine, including how the
/// program counter advances: a jump, and a conditional jump whose jump is
/// taken, place their target into the counter and skip the increment; every
/// other instruction increments it. Every instruction resets the carry
/// flag: the adds then set it exactly when their sum overflows 4 bits, so
/// the flag always reflects only the most recent add's overflow.
pub open spec fn spec_effect(s: MachineState, op: Opcode, immediate: u8) -> MachineState {
    let next_pc = (s.reg.pc + 1) as u8;
    match op {
        Opcode::MovA => MachineState {
            reg: RegisterState { a: immediate, carry: 0, pc: next_pc, ..s.reg },
            ..s
        },
        Opcode::MovB => MachineState {
            reg: RegisterState { b: immediate, carry: 0, pc: next_pc, ..s.reg },
            ..s
        },
        Opcode::MovA2B => MachineState {
            reg: RegisterState { a: s.reg.b, carry: 0, pc: next_pc, ..s.reg },
            ..s
        },
        Opcode::MovB2A => MachineState {
            reg: RegisterState { b: s.reg.a, carry: 0, pc: next_pc, ..s.reg },
            ..s
        },
        Opcode::AddA => {
            let sum = (s.reg.a + immediate) as u8;
            MachineState {
                reg: RegisterState {
                    a: sum & 0x0f,
                    carry: if sum > 15 { 1u8 } else { 0u8 },
                    pc: next_pc,
                    ..s.reg
                },
                ..s
            }
        },
        Opcode::AddB => {
            let sum = (s.reg.b + immediate) as u8;
            MachineState {
                reg: RegisterState {
                    b: sum & 0x0f,
                    carry: if sum > 15 { 1u8 } else { 0u8 },
                    pc: next_pc,
                    ..s.reg
                },
                ..s
            }
        },
        Opcode::Jmp => MachineState {
            reg: RegisterState { carry: 0, pc: immediate, ..s.reg },
            ..s
        },
        Opcode::Jnc => MachineState {
            reg: RegisterState {
                carry: 0,
                pc: if s.reg.carry == 0 { immediate } else { next_pc },
                ..s.reg
            },
            ..s
        },
        Opcode::InA => MachineState {
            reg: RegisterState { a: s.port.input, carry: 0, pc: next_pc, ..s.reg },
            ..s
        },
        Opcode::InB => MachineState {
            reg: RegisterState { b: s.port.input, carry: 0, pc: next_pc, ..s.reg },
            ..s
        },
        Opcode::OutB => MachineState {
            reg: RegisterState { carry: 0, pc: next_pc, ..s.reg },
            port: PortState { output: s.reg.b, ..s.port },
            ..s
        },
        Opcode::OutIm => MachineState {
            reg: RegisterState { carry: 0, pc: next_pc, ..s.reg },
            port: PortState { output: immediate, ..s.port },
            ..s
        },
    }
}

/// One machine step: fetch, decode, execute, advance. `None` when the
/// fetched byte's high nibble selects no catalog entry.
pub open spec fn spec_step(s: MachineState) -> Option<MachineState> {
    match spec_decode(spec_fetch(s)) {
        Some((op, immediate)) => Some(spec_effect(s, op, immediate)),
        None => None,
    }
}

/// `n` successful steps (at least one) lead from `s0` to `s`, and every
/// state strictly between them is still running: the engine tests for halt
/// only after it has executed a step, so the state it stops in is the first
/// halted one it ever sees.
pub open spec fn reaches(s0: MachineState, s: MachineState, n: nat) -> bool
    decreases n,
{
    if n == 0 {
        false
    } else if n == 1 {
        spec_step(s0) == Some(s)
    } else {
        exists|mid: MachineState|
            reaches(s0, mid, (n - 1) as nat) && !mid.halted() && #[trigger] spec_step(mid)
                == Some(s)
    }
}

/// A run that has reached a still-running state and steps once more reaches
/// the step's result.
pub proof fn lemma_reaches_extend(s0: MachineState, mid: MachineState, s: MachineState, n: nat)
    requires
        reaches(s0, mid, n),
        !mid.halted(),
        spec_step(mid) == Some(s),
    ensures
        reaches(s0, s, (n + 1) as nat),
{
    assert(n >= 1);
    assert(reaches(s0, mid, ((n + 1) - 1) as nat));
}

/// A step from a well-formed machine whose program counter is still in
/// address range keeps the machine well formed, leaves the store and the
/// input port alone, and moves the counter at most one past the store.
pub proof fn lemma_step_wf(s: MachineState, s2: MachineState)
    requires
        s.wf(),
        s.reg.pc <= 15,
        spec_step(s) == Some(s2),
    ensures
        s2.wf(),
        s2.rom == s.rom,
        s2.port.input == s.port.input,
        s2.reg.pc <= 16,
{
    let data = spec_fetch(s);
    assert(data >> 4 <= 15 && data & 0x0f <= 15) by (bit_vector);
    let sum_a = (s.reg.a + (data & 0x0f)) as u8;
    let sum_b = (s.reg.b + (data & 0x0f)) as u8;
    assert(sum_a & 0x0f <= 15 && sum_b & 0x0f <= 15) by (bit_vector);
}

/// One more step than there are distinct running machine states: a run
/// still going after this many steps has revisited a state and, the machine
/// being deterministic, can never halt.
pub const STEP_LIMIT: usize = 131073;

/// The fetch-decode-execute engine: exclusive owner of one register file,
/// one port pair and one program store for the duration of a run.
pub struct CpuEmulator {
    register: Register,
    port: Port,
    rom: Rom,
}

impl View for CpuEmulator {
    type V = MachineState;

    closed spec fn view(&self) -> MachineState {
        MachineState { reg: self.register@, port: self.port@, rom: self.rom@ }
    }
}

impl CpuEmulator {
    /// Puts an engine together. Rejected exactly when the program store
    /// holds more than 16 bytes, before anything is fetched: the 4-bit
    /// program counter could not address the rest.
    pub fn with(register: Register, port: Port, rom: Rom) -> (res: Result<CpuEmulator, EmulatorError>)
        requires
            register@.wf(),
            register@.pc <= 15,
            port@.wf(),
        ensures
            res is Ok <==> rom@.len() <= 16,
            res matches Ok(emulator) ==> emulator@ == (MachineState {
                reg: register@,
                port: port@,
                rom: rom@,
            }),
    {
        if rom.memory_array.len() > 16 {
            return Err(EmulatorError::new("Maximum memory size is 16. This program can't work."));
        }
        Ok(Self { register, port, rom })
    }

    /// The register file as the run has left it so far.
    pub fn register(&self) -> (res: &Register)
        ensures
            res@ == self@.reg,
    {
        &self.register
    }

    /// The ports as the run has left them so far.
    pub fn port(&self) -> (res: &Port)
        ensures
            res@ == self@.port,
    {
        &self.port
    }

    fn fetch(&self) -> (res: u8)
        requires
            self@.rom.len() <= 16,
        ensures
            res == spec_fetch(self@),
    {
        let program_counter = self.register.program_counter();
        if self.rom.size() <= program_counter {
            return 0;
        }
        self.rom.read(program_counter)
    }

    fn decode(&self, data: u8) -> (res: Result<(Opcode, u8), EmulatorError>)
        ensures
            res is Ok <==> spec_decode(data) is Some,
            res matches Ok(pair) ==> spec_decode(data) == Some(pair) && pair.1 <= 15,
    {
        let operation = data >> 4;
        let immediate = data & 0x0f;
        proof {
            assert(data & 0x0f <= 15) by (bit_vector);
        }

        if let Some(opcode) = Opcode::from_code(operation) {
            match opcode {
                Opcode::AddA
                | Opcode::AddB
                | Opcode::MovA
                | Opcode::MovB
                | Opcode::MovA2B
                | Opcode::MovB2A
                | Opcode::Jmp
                | Opcode::Jnc
                | Opcode::OutIm => Ok((opcode, immediate)),
                Opcode::InA | Opcode::InB | Opcode::OutB => Ok((opcode, 0)),
            }
        } else {
            Err(EmulatorError::new("No match for opcode."))
        }
    }

    /// One fetch-decode-execute-advance cycle. Fails, leaving the machine
    /// untouched, exactly when the fetched byte decodes to no catalog entry.
    pub fn step(&mut self) -> (res: Result<(), EmulatorError>)
        requires
            old(self)@.wf(),
            old(self)@.reg.pc <= 15,
        ensures
            res is Ok <==> spec_step(old(self)@) is Some,
            res is Ok ==> spec_step(old(self)@) == Some(final(self)@),
            res is Err ==> final(self)@ == old(self)@,
            final(self)@.wf(),
            final(self)@.rom == old(self)@.rom,
            final(self)@.port.input == old(self)@.port.input,
            final(self)@.reg.pc <= 16,
    {
        let data = self.fetch();
        let decoded = self.decode(data);
        match decoded {
            Err(error) => Err(error),
            Ok((opcode, immediate)) => {
                let carry_before = self.register.carry_flag();
                match opcode {
                    Opcode::MovA => self.mov_a(immediate),
                    Opcode::MovB => self.mov_b(immediate),
                    Opcode::AddA => self.add_a(immediate),
                    Opcode::AddB => self.add_b(immediate),
                    Opcode::MovA2B => self.mov_a2b(),
                    Opcode::MovB2A => self.mov_b2a(),
                    Opcode::Jmp => self.jmp(immediate),
                    Opcode::Jnc => self.jnc(immediate),
                    Opcode::InA => self.in_a(),
                    Opcode::InB => self.in_b(),
                    Opcode::OutB => self.out_b(),
                    Opcode::OutIm => self.out_immediate(immediate),
                }

                let is_jmp = matches!(opcode, Opcode::Jmp);
                let is_taken_jnc = matches!(opcode, Opcode::Jnc) && carry_before == 0;
                if !is_jmp && !is_taken_jnc {
                    self.register.increment_program_counter();
                }

                proof {
                    lemma_step_wf(old(self)@, spec_effect(old(self)@, opcode, immediate));
                    assert(self@ == spec_effect(old(self)@, opcode, immediate));
                }
                Ok(())
            },
        }
    }

    /// Runs until the machine halts: steps repeat until the program counter
    /// leaves the store's address range. On success the machine is in the
    /// first halted state the run reaches; on a decode failure the run
    /// aborts at once, leaving the machine exactly as the failed step found
    /// it. A program that keeps jumping inside the store never halts, and
    /// the engine detects that instead of spinning: the machine is
    /// deterministic and has at most 16 * 16 * 16 * 2 * 16 distinct running
    /// states (two 4-bit accumulators, the output port, the carry bit and
    /// an in-range program counter), so a run of more steps than that has
    /// revisited one of them and can never halt; such a run is stopped and
    /// reported as an error.
    pub fn exec(&mut self) -> (res: Result<(), EmulatorError>)
        requires
            old(self)@.wf(),
            old(self)@.reg.pc <= 15,
        ensures
            final(self)@.wf(),
            final(self)@.rom == old(self)@.rom,
            final(self)@.port.input == old(self)@.port.input,
            res is Ok ==> exists|n: nat|
                #[trigger] reaches(old(self)@, final(self)@, n) && final(self)@.halted(),
            res is Err ==> (spec_step(final(self)@) is None && (final(self)@ == old(self)@
                || exists|n: nat|
                #[trigger] reaches(old(self)@, final(self)@, n) && !final(self)@.halted()))
                || (reaches(old(self)@, final(self)@, STEP_LIMIT as nat)
                && !final(self)@.halted()),
    {
        let ghost s0 = self@;
        let ghost mut steps: nat = 0;
        let mut steps_done: usize = 0;
        while steps_done < STEP_LIMIT
            invariant
                self@.wf(),
                self@.reg.pc <= 15,
                self@.rom == s0.rom,
                self@.port.input == s0.port.input,
                s0 == old(self)@,
                steps == steps_done,
                steps_done <= STEP_LIMIT,
                steps == 0 ==> self@ == s0,
                steps >= 1 ==> reaches(s0, self@, steps) && !self@.halted(),
            decreases STEP_LIMIT - steps_done,
        {
            let ghost before = self@;
            match self.step() {
                Err(error) => {
                    return Err(error);
                },
                Ok(()) => {},
            }
            proof {
                if steps == 0 {
                    assert(reaches(s0, self@, 1));
                } else {
                    lemma_reaches_extend(s0, before, self@, steps);
                }
                steps = steps + 1;
            }
            steps_done = steps_done + 1;
            if self.does_halt() {
                return Ok(());
            }
        }
        Err(EmulatorError::new("Program never halts: a running machine state repeated."))
    }

    fn does_halt(&self) -> (res: bool)
        requires
            self@.rom.len() <= 16,
        ensures
            res == self@.halted(),
    {
        self.register.program_counter() >= self.rom.size()
    }

    pub fn mov_a(&mut self, immediate: u8)
        requires
            old(self)@.wf(),
            immediate <= 15,
        ensures
            final(self)@ == (MachineState {
                reg: RegisterState { a: immediate, carry: 0, ..old(self)@.reg },
                ..old(self)@
            }),
    {
        self.register.set_register_a(immediate);
        self.register.set_carry_flag(0);
    }

    pub fn mov_b(&mut self, immediate: u8)
        requires
            old(self)@.wf(),
            immediate <= 15,
        ensures
            final(self)@ == (MachineState {
                reg: RegisterState { b: immediate, carry: 0, ..old(self)@.reg },
                ..old(self)@
            }),
    {
        self.register.set_register_b(immediate);
        self.register.set_carry_flag(0);
    }

    pub fn mov_a2b(&mut self)
        requires
            old(self)@.wf(),
        ensures
            final(self)@ == (MachineState {
                reg: RegisterState { a: old(self)@.reg.b, carry: 0, ..old(self)@.reg },
                ..old(self)@
            }),
    {
        let register_b = self.register.register_b();
        self.register.set_register_a(register_b);
        self.register.set_carry_flag(0);
    }

    pub fn mov_b2a(&mut self)
        requires
            old(self)@.wf(),
        ensures
            final(self)@ == (MachineState {
                reg: RegisterState { b: old(self)@.reg.a, carry: 0, ..old(self)@.reg },
                ..old(self)@
            }),
    {
        let register_a = self.register.register_a();
        self.register.set_register_b(register_a);
        self.register.set_carry_flag(0);
    }

    pub fn add_a(&mut self, immediate: u8)
        requires
            old(self)@.wf(),
            immediate <= 15,
        ensures
            final(self)@ == (MachineState {
                reg: RegisterState {
                    a: ((old(self)@.reg.a + immediate) as u8) & 0x0f,
                    carry: if old(self)@.reg.a + immediate > 15 {
                        1u8
                    } else {
                        0u8
                    },
                    ..old(self)@.reg
                },
                ..old(self)@
            }),
    {
        let existence = self.register.register_a();
        let new_value = existence + immediate;

        if new_value > 0x0f {
            self.register.set_carry_flag(1);
        } else {
            self.register.set_carry_flag(0);
        }

        proof {
            assert(new_value & 0x0f <= 15) by (bit_vector);
        }
        self.register.set_register_a(new_value & 0x0f);
    }

    pub fn add_b(&mut self, immediate: u8)
        requires
            old(self)@.wf(),
            immediate <= 15,
        ensures
            final(self)@ == (MachineState {
                reg: RegisterState {
                    b: ((old(self)@.reg.b + immediate) as u8) & 0x0f,
                    carry: if old(self)@.reg.b + immediate > 15 {
                        1u8
                    } else {
                        0u8
                    },
                    ..old(self)@.reg
                },
                ..old(self)@
            }),
    {
        let existence = self.register.register_b();
        let new_value = existence + immediate;

        if new_value > 0x0f {
            self.register.set_carry_flag(1);
        } else {
            self.register.set_carry_flag(0);
        }

        proof {
            assert(new_value & 0x0f <= 15) by (bit_vector);
        }
        self.register.set_register_b(new_value & 0x0f);
    }

    pub fn jmp(&mut self, immediate: u8)
        requires
            old(self)@.wf(),
            immediate <= 15,
        ensures
            final(self)@ == (MachineState {
                reg: RegisterState { carry: 0, pc: immediate, ..old(self)@.reg },
                ..old(self)@
            }),
    {
        self.register.set_program_counter(immediate);
        self.register.set_carry_flag(0)
    }

    pub fn jnc(&mut self, immediate: u8)
        requires
            old(self)@.wf(),
            immediate <= 15,
        ensures
            final(self)@ == (MachineState {
                reg: RegisterState {
                    carry: 0,
                    pc: if old(self)@.reg.carry == 0 { immediate } else { old(self)@.reg.pc },
                    ..old(self)@.reg
                },
                ..old(self)@
            }),
    {
        if self.register.carry_flag() == 0 {
            self.register.set_program_counter(immediate);
        }
        self.register.set_carry_flag(0)
    }

    pub fn in_a(&mut self)
        requires
            old(self)@.wf(),
        ensures
            final(self)@ == (MachineState {
                reg: RegisterState { a: old(self)@.port.input, carry: 0, ..old(self)@.reg },
                ..old(self)@
            }),
    {
        let input_port = self.port.input();
        self.register.set_register_a(input_port);
        self.register.set_carry_flag(0);
    }

    pub fn in_b(&mut self)
        requires
            old(self)@.wf(),
        ensures
            final(self)@ == (MachineState {
                reg: RegisterState { b: old(self)@.port.input, carry: 0, ..old(self)@.reg },
                ..old(self)@
            }),
    {
        let input_port = self.port.input();
        self.register.set_register_b(input_port);
        self.register.set_carry_flag(0);
    }

    pub fn out_b(&mut self)
        requires
            old(self)@.wf(),
        ensures
            final(self)@ == (MachineState {
                reg: RegisterState { carry: 0, ..old(self)@.reg },
                port: PortState { output: old(self)@.reg.b, ..old(self)@.port },
                ..old(self)@
            }),
    {
        let register_b = self.register.register_b();
        self.port.set_output(register_b);
        self.register.set_carry_flag(0);
    }

    pub fn out_immediate(&mut self, immediate: u8)
        requires
            old(self)@.wf(),
            immediate <= 15,
        ensures
            final(self)@ == (MachineState {
                reg: RegisterState { carry: 0, ..old(self)@.reg },
                port: PortState { output: immediate, ..old(self)@.port },
                ..old(self)@
            }),
    {
        self.port.set_output(immediate);
        self.register.set_carry_flag(0);
    }
}

/// An add leaves the carry flag holding exactly whether its sum overflowed
/// 4 bits — set on overflow, cleared otherwise — whatever the flag held
/// before: the flag reflects only the most recent add's overflow.
pub proof fn lemma_add_carry_reflects_overflow(s: MachineState, op: Opcode, immediate: u8)
    requires
        s.wf(),
        spec_decode(spec_fetch(s)) == Some((op, immediate)),
        op == Opcode::AddA || op == Opcode::AddB,
    ensures
        spec_step(s) == Some(spec_effect(s, op, immediate)),
        spec_effect(s, op, immediate).reg.carry == (if (if op == Opcode::AddA {
            s.reg.a
        } else {
            s.reg.b
        }) + immediate > 15 {
            1u8
        } else {
            0u8
        }),
{
    let data = spec_fetch(s);
    assert(data & 0x0f <= 15) by (bit_vector);
}

/// Every instruction but the two adds leaves the carry flag cleared.
pub proof fn lemma_non_add_clears_carry(s: MachineState, op: Opcode, immediate: u8)
    requires
        spec_decode(spec_fetch(s)) == Some((op, immediate)),
        op != Opcode::AddA,
        op != Opcode::AddB,
    ensures
        spec_step(s) == Some(spec_effect(s, op, immediate)),
        spec_effect(s, op, immediate).reg.carry == 0,
{
}

/// A jump writes its target into the program counter, and the engine does
/// not advance the counter afterwards in the same step.
pub proof fn lemma_jmp_sets_pc(s: MachineState, immediate: u8)
    requires
        spec_decode(spec_fetch(s)) == Some((Opcode::Jmp, immediate)),
    ensures
        spec_step(s) == Some(spec_effect(s, Opcode::Jmp, immediate)),
        spec_effect(s, Opcode::Jmp, immediate).reg.pc == immediate,
        spec_effect(s, Opcode::Jmp, immediate).reg.carry == 0,
{
}

/// With the carry flag set, a conditional jump does not redirect the
/// program counter: it falls through with the usual increment, and clears
/// the flag.
pub proof fn lemma_jnc_with_carry_falls_through(s: MachineState, immediate: u8)
    requires
        s.reg.carry == 1,
        spec_decode(spec_fetch(s)) == Some((Opcode::Jnc, immediate)),
    ensures
        spec_step(s) == Some(spec_effect(s, Opcode::Jnc, immediate)),
        spec_effect(s, Opcode::Jnc, immediate).reg.pc == (s.reg.pc + 1) as u8,
        spec_effect(s, Opcode::Jnc, immediate).reg.carry == 0,
{
}

/// With the carry flag clear, a conditional jump behaves as the jump does:
/// the target lands in the program counter without an increment, and the
/// flag stays cleared.
pub proof fn lemma_jnc_without_carry_jumps(s: MachineState, immediate: u8)
    requires
        s.reg.carry == 0,
        spec_decode(spec_fetch(s)) == Some((Opcode::Jnc, immediate)),
    ensures
        spec_step(s) == Some(spec_effect(s, Opcode::Jnc, immediate)),
        spec_effect(s, Opcode::Jnc, immediate).reg.pc == immediate,
        spec_effect(s, Opcode::Jnc, immediate).reg.carry == 0,
{
}

} // verus!
