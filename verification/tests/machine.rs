use remu::compiler::Compiler;
use remu::emulator::CpuEmulator;
use remu::io::Port;
use remu::parser::Parser;
use remu::register::Register;
use remu::rom::Rom;

fn build(lines: &[&str], input: u8) -> CpuEmulator {
    let owned: Vec<String> = lines.iter().map(|s| s.to_string()).collect();
    let mut parser = Parser::new(owned);
    let tokens = parser.parse().unwrap();
    let program = Compiler::new().compile(tokens).unwrap();
    let rom = Rom::new(program);
    CpuEmulator::with(Register::new(), Port::new(input, 0), rom).unwrap()
}

#[test]
fn carry_semantics() {
    // ADD A,1111 with A = 0001: the sum 16 masks to 0000 and sets carry;
    // the following non-add instruction clears the flag again.
    let mut emulator = build(&["mov A,0001", "add A,1111", "mov B,0000"], 0);
    emulator.step().unwrap();
    assert_eq!(emulator.register().register_a(), 1);
    emulator.step().unwrap();
    assert_eq!(emulator.register().register_a(), 0);
    assert_eq!(emulator.register().carry_flag(), 1);
    emulator.step().unwrap();
    assert_eq!(emulator.register().carry_flag(), 0);
    assert_eq!(emulator.register().register_a(), 0);
    assert_eq!(emulator.register().register_b(), 0);
}

#[test]
fn carry_reflects_only_most_recent_add() {
    // A second, non-overflowing add overwrites the carry the first one set:
    // the flag reflects only the most recent add's overflow.
    let mut emulator = build(&["mov A,1111", "add A,0001", "add A,0001"], 0);
    emulator.step().unwrap();
    emulator.step().unwrap();
    assert_eq!(emulator.register().carry_flag(), 1);
    emulator.step().unwrap();
    assert_eq!(emulator.register().carry_flag(), 0);
    assert_eq!(emulator.register().register_a(), 1);
}

#[test]
fn add_carry_follows_overflow_directly() {
    let mut emulator = build(&["out B"], 0);
    emulator.add_a(15);
    assert_eq!(emulator.register().register_a(), 15);
    assert_eq!(emulator.register().carry_flag(), 0);
    emulator.add_a(1);
    assert_eq!(emulator.register().register_a(), 0);
    assert_eq!(emulator.register().carry_flag(), 1);
    emulator.add_b(3);
    assert_eq!(emulator.register().register_b(), 3);
    assert_eq!(emulator.register().carry_flag(), 0);
}

#[test]
fn jmp_does_not_increment() {
    let mut emulator = build(&["jmp 0000"], 0);
    emulator.step().unwrap();
    assert_eq!(emulator.register().program_counter(), 0);
    emulator.step().unwrap();
    assert_eq!(emulator.register().program_counter(), 0);
}

#[test]
fn self_jump_never_halts() {
    let mut emulator = build(&["jmp 0000"], 0);
    assert!(emulator.exec().is_err());
    assert_eq!(emulator.register().program_counter(), 0);
}

#[test]
fn jnc_with_carry_falls_through() {
    // The overflowing add sets carry, so the conditional jump must not
    // redirect the counter; it advances normally and clears the flag.
    let mut emulator = build(&["mov A,0001", "add A,1111", "jnc 0000"], 0);
    emulator.exec().unwrap();
    assert_eq!(emulator.register().program_counter(), 3);
    assert_eq!(emulator.register().carry_flag(), 0);
    assert_eq!(emulator.register().register_a(), 0);
}

#[test]
fn jnc_without_carry_jumps() {
    let mut emulator = build(&["jnc 0010", "out 1111", "out 0001"], 0);
    emulator.exec().unwrap();
    assert_eq!(emulator.port().output(), 1);
    assert_eq!(emulator.register().program_counter(), 3);
}

#[test]
fn end_to_end_program() {
    let lines = ["mov A,0001", "mov B,0010", "add A,0001", "out B"];
    let owned: Vec<String> = lines.iter().map(|s| s.to_string()).collect();
    let mut parser = Parser::new(owned);
    let tokens = parser.parse().unwrap();
    let program = Compiler::new().compile(tokens).unwrap();
    assert_eq!(program.len(), 4);
    let rom = Rom::new(program);
    let mut emulator = CpuEmulator::with(Register::new(), Port::new(0, 0), rom).unwrap();
    emulator.exec().unwrap();
    assert_eq!(emulator.port().output(), 0b0010);
    assert_eq!(emulator.register().register_a(), 0b0010);
    assert_eq!(emulator.register().register_b(), 0b0010);
    assert_eq!(emulator.register().carry_flag(), 0);
    assert_eq!(emulator.register().program_counter(), 4);
}

#[test]
fn program_store_limit() {
    let too_long = Rom::new(vec![0u8; 17]);
    assert!(CpuEmulator::with(Register::new(), Port::new(0, 0), too_long).is_err());
    let just_fits = Rom::new(vec![0u8; 16]);
    assert!(CpuEmulator::with(Register::new(), Port::new(0, 0), just_fits).is_ok());
}

#[test]
fn decode_error_aborts_run() {
    // 0x80 carries the unassigned code 1000: the run stops there, with the
    // state exactly as the failed step found it.
    let rom = Rom::new(vec![0x31, 0x80]);
    let mut emulator = CpuEmulator::with(Register::new(), Port::new(0, 0), rom).unwrap();
    assert!(emulator.exec().is_err());
    assert_eq!(emulator.register().register_a(), 1);
    assert_eq!(emulator.register().program_counter(), 1);
}

#[test]
fn input_port_reaches_registers() {
    let mut emulator = build(&["in A"], 0b0101);
    emulator.exec().unwrap();
    assert_eq!(emulator.register().register_a(), 0b0101);
    let mut emulator = build(&["in B"], 0b1001);
    emulator.exec().unwrap();
    assert_eq!(emulator.register().register_b(), 0b1001);
}

#[test]
fn out_immediate_writes_port() {
    let mut emulator = build(&["out 0111"], 0);
    emulator.exec().unwrap();
    assert_eq!(emulator.port().output(), 0b0111);
}

#[test]
fn moves_between_registers() {
    let mut emulator = build(&["mov A,0011", "mov B,A"], 0);
    emulator.exec().unwrap();
    assert_eq!(emulator.register().register_b(), 3);
    let mut emulator = build(&["mov B,0010", "mov A,B"], 0);
    emulator.exec().unwrap();
    assert_eq!(emulator.register().register_a(), 2);
}

#[test]
fn empty_store_executes_one_fetched_zero() {
    // An empty store is legal to construct: the engine still executes one
    // step (a fetched zero is ADD A,0000), then halts with the counter at 1.
    let rom = Rom::new(Vec::new());
    let mut emulator = CpuEmulator::with(Register::new(), Port::new(0, 0), rom).unwrap();
    emulator.exec().unwrap();
    assert_eq!(emulator.register().program_counter(), 1);
    assert_eq!(emulator.register().register_a(), 0);
    assert_eq!(emulator.register().carry_flag(), 0);
}

#[test]
fn register_file_accessors() {
    let mut register = Register::new();
    assert_eq!(register.register_a(), 0);
    assert_eq!(register.register_b(), 0);
    assert_eq!(register.carry_flag(), 0);
    assert_eq!(register.program_counter(), 0);
    register.set_register_a(7);
    register.set_register_b(9);
    register.set_carry_flag(1);
    register.set_program_counter(3);
    register.increment_program_counter();
    assert_eq!(register.register_a(), 7);
    assert_eq!(register.register_b(), 9);
    assert_eq!(register.carry_flag(), 1);
    assert_eq!(register.program_counter(), 4);
}

#[test]
fn default_register_file_is_cleared() {
    let register = Register::default();
    assert_eq!(register.register_a(), 0);
    assert_eq!(register.register_b(), 0);
    assert_eq!(register.carry_flag(), 0);
    assert_eq!(register.program_counter(), 0);
}

#[test]
fn rom_read_and_size() {
    let rom = Rom::new(vec![0x31, 0x72, 0x02]);
    assert_eq!(rom.size(), 3);
    assert_eq!(rom.read(0), 0x31);
    assert_eq!(rom.read(2), 0x02);
}

#[test]
fn port_accessors() {
    let mut port = Port::new(0b0011, 0);
    assert_eq!(port.input(), 0b0011);
    assert_eq!(port.output(), 0);
    port.set_output(0b1110);
    assert_eq!(port.output(), 0b1110);
    assert_eq!(port.input(), 0b0011);
}
