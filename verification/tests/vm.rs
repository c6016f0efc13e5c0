use lc3_toolchain::assembler::encoder::Asm;
use lc3_toolchain::output::{SystemIO, WebIO};
use lc3_toolchain::vm::memory::Memory;
use lc3_toolchain::vm::registers::Registers;
use lc3_toolchain::vm::instructions::{
    Br, Instruction, Jsr, Ld, Ldi, Ldr, Lea, Rti, St, Sti, Str,
};
use lc3_toolchain::vm::trap::{Trap, VmFault};
use lc3_toolchain::vm::vm::VM;

fn assemble(file: &str, nul_terminated: bool) -> Vec<u16> {
    let mut assembler = Asm::new().unwrap();
    assembler.semantic_checker.nul_terminated = nul_terminated;
    let binary_file = assembler.run(file.to_string());
    if binary_file.len() == 0 {
        panic!("Errors occurred during the assembly process, so the VM could not be run");
    }
    binary_file
}

fn run_with(file: &str, nul_terminated: bool) -> VM {
    let file = format!(
        ".orig x0000
        
        {file}
    
        halt
        .end"
    );
    let binary_file = assemble(&file, nul_terminated);
    let mut vm = VM::new();
    let mut io = WebIO::new("");
    assert_eq!(vm.run(binary_file, &mut io, 100_000), Ok(true));
    assert!(vm.registers.halt);
    vm
}

fn run_vm(file: &str) -> VM {
    run_with(file, true)
}

#[test]
fn vm_test_add() {
    let vm = run_vm(
        "
        add r1, r1, #10 ; since every register should be set to 0 by default, this should always just put 10 in r1
        add r2, r2, #5
        add r3, r1, r2  ; r3 == 15
        add r4, r3, r3  ; r4 == 30
        ",
    );

    assert_eq!(vm.registers.r[1], 10);
    assert_eq!(vm.registers.r[2], 5);
    assert_eq!(vm.registers.r[3], 15);
    assert_eq!(vm.registers.r[4], 30);
}

#[test]
fn vm_test_and() {
    let vm = run_vm(
        "
        add r1, r1, #15 ; since every register should be set to 0 by default, this should always just put 10 in r1
        add r2, r2, #5
        and r3, r1, r2  ; r3 == 5
        add r4, r4, #6  ; r4 == 6
        and r5, r4, r3  ; r4 == 4
        ",
    );

    assert_eq!(vm.registers.r[3], 5);
    assert_eq!(vm.registers.r[5], 4);
}

#[test]
fn vm_test_not() {
    let vm = run_vm(
        "
        br      start
num     .fill   #5300
start   add r1, r1, #15 ; since every register should be set to 0 by default, this should always just put 10 in r1
        add r2, r2, #6  ; r2 == 6
        
        not r1, r1
        not r2, r2

        ld  r3, num
        not r3, r3
        ",
    );

    assert_eq!(vm.registers.r[1], !15);
    // No flag is set when the branch is reached, so it is not taken, and the
    // word at `num` runs as ADD R2, R2, #-12 before the program goes on.
    assert_eq!(vm.registers.r[2], !(6u16.wrapping_sub(12)));
    assert_eq!(vm.registers.r[3], !5300);
}

#[test]
fn vm_test_jmp() {
    let vm = run_vm(
        "
        lea r0, start
        jmp r0
max     .fill xFFFF

end     ld r0, max
        halt

start   ld r1, max
        lea r7, end
        jmp r7
       ",
    );

    assert_eq!(vm.registers.r[0], u16::MAX);
    assert_eq!(vm.registers.r[1], u16::MAX);
}

#[test]
fn vm_test_lea() {
    let vm = run_with(
        r#"
        lea r0, start
        lea r1, max
        lea r2, string
        lea r3, end
        lea r4, num_16
        halt

max     .fill xFFFF     ; address = 6

end     ld r0, max      ; address = 7
        halt

string .stringz "len=5" ; address = 9

start   ld r1, max      ; address = 14
        lea r7, end
        jmp r7
num_16  .fill   #16     ; address = 17
        "#,
        false,
    );

    assert_eq!(vm.registers.r[0], 14);
    assert_eq!(vm.registers.r[1], 6);
    assert_eq!(vm.registers.r[2], 9);
    assert_eq!(vm.registers.r[3], 7);
    assert_eq!(vm.registers.r[4], 17);
}

#[test]
fn lea_after_a_terminated_string() {
    let vm = run_vm(
        r#"
        lea r0, start
        lea r2, string
        halt
string .stringz "len=5"
start   ret
        "#,
    );
    assert_eq!(vm.registers.r[2], 3);
    assert_eq!(vm.registers.r[0], 9);
    assert_eq!(vm.memory.get(3), 'l' as u16);
    assert_eq!(vm.memory.get(7), '5' as u16);
    assert_eq!(vm.memory.get(8), 0);
    // LEA leaves the flags alone: none has been set.
    assert!(!vm.registers.n && !vm.registers.z && !vm.registers.p);
}

#[test]
fn test_out() {
    let mut reg = Registers::new();
    let mut io = WebIO::new("");
    let trap = Trap {};

    reg.set(0, 'a' as u16);

    trap.out(&mut reg, &mut io);

    reg.set(0, 'p' as u16);

    trap.out(&mut reg, &mut io);
    trap.out(&mut reg, &mut io);

    assert_eq!(io.printed(), "app");
    assert_eq!(io.current_char, 'p');
    reg.set(0, 0x4142);
    trap.out(&mut reg, &mut io);
    assert_eq!(io.printed(), "appB");
}

#[test]
fn traps_read_and_write() {
    let mut reg = Registers::new();
    let mut mem = Memory::new();
    let mut io = WebIO::new("xy");
    let trap = Trap {};
    mem.load_file(vec![0x4000, 'H' as u16, 0x0100 + 'i' as u16, 0, '!' as u16]);

    trap.get_c(&mut reg, &mut io);
    assert_eq!(reg.get(0), 'x' as u16);
    assert_eq!(io.printed(), "");

    reg.set(0, 0x4000);
    trap.put_s(&mut reg, &mut mem, &mut io);
    assert_eq!(io.printed(), "Hi");
    assert_eq!(reg.get(0), 0x4000);

    trap.input(&mut reg, &mut mem, &mut io);
    assert_eq!(io.printed(), "HiHi");
    assert_eq!(reg.get(0), 'y' as u16);

    // At the end of the input a read gives zero.
    trap.get_c(&mut reg, &mut io);
    assert_eq!(reg.get(0), 0);

    assert!(!reg.halt);
    trap.halt(&mut reg);
    assert!(reg.halt);

    let mut reg = Registers::new();
    assert_eq!(trap.exe(0x21, &mut reg, &mut mem, &mut io), Ok(()));
    assert_eq!(io.printed(), "HiHi\0");
    assert_eq!(trap.exe(0x25, &mut reg, &mut mem, &mut io), Ok(()));
    assert!(reg.halt);
    let mut reg = Registers::new();
    assert_eq!(trap.exe(0x24, &mut reg, &mut mem, &mut io), Err(VmFault::UnknownTrap(0x24)));
    assert!(reg.halt);
}

#[test]
fn puts_stops_after_one_pass_over_memory() {
    let mut reg = Registers::new();
    let mut mem = Memory::new();
    let mut io = WebIO::new("");
    let mut image = vec![0u16];
    image.extend(std::iter::repeat('a' as u16).take(65536));
    mem.load_file(image);
    reg.set(0, 0xfff0);
    (Trap {}).put_s(&mut reg, &mut mem, &mut io);
    assert_eq!(io.output.len(), 65536);
}

#[test]
fn memory_loads_an_image_at_its_origin() {
    let mut mem = Memory::new();
    assert_eq!(mem.get(0), 0);
    assert_eq!(mem.get(0xffff), 0);
    mem.set(0x2fff, 7);
    mem.set(0x3002, 7);
    mem.load_file(vec![0x3000, 11, 12]);
    assert_eq!(mem.get(0x2fff), 7);
    assert_eq!(mem.get(0x3000), 11);
    assert_eq!(mem.get(0x3001), 12);
    assert_eq!(mem.get(0x3002), 7);
    mem.load_file(vec![0xffff, 9]);
    assert_eq!(mem.get(0xffff), 9);
    mem.load_file(vec![0x1234]);
    assert_eq!(mem.get(0x1234), 0);
}

#[test]
fn loads_and_stores() {
    let mut mem = Memory::new();
    let mut reg = Registers::new();
    reg.pc = 0x3001;
    mem.set(0x3003, 0x4000);
    mem.set(0x4000, 0x8001);
    mem.set(0x2fff, 77);

    // LD R1, +2
    (Ld {}).exe(0b001_000000010, &mut reg, &mut mem);
    assert_eq!(reg.r[1], 0x4000);
    assert!(reg.p && !reg.n && !reg.z);
    // LDI R2, +2
    (Ldi {}).exe(0b010_000000010, &mut reg, &mut mem);
    assert_eq!(reg.r[2], 0x8001);
    assert!(reg.n && !reg.p && !reg.z);
    // LD R3, -2
    (Ld {}).exe(0b011_111111110, &mut reg, &mut mem);
    assert_eq!(reg.r[3], 77);
    // LDR R4, R1, #0 and LDR R5, R1, #-1
    (Ldr {}).exe(0b100_001_000000, &mut reg, &mut mem);
    assert_eq!(reg.r[4], 0x8001);
    (Ldr {}).exe(0b101_001_111111, &mut reg, &mut mem);
    assert_eq!(reg.r[5], 0);
    assert!(reg.z && !reg.n && !reg.p);
    // LEA R6, -1
    (Lea {}).exe(0b110_111111111, &mut reg, &mut mem);
    assert_eq!(reg.r[6], 0x3000);
    assert!(reg.z && !reg.n && !reg.p);

    // ST R2, +4; STI R3, +2; STR R6, R1, #5
    (St {}).exe(0b010_000000100, &mut reg, &mut mem);
    assert_eq!(mem.get(0x3005), 0x8001);
    (Sti {}).exe(0b011_000000010, &mut reg, &mut mem);
    assert_eq!(mem.get(0x4000), 77);
    (Str {}).exe(0b110_001_000101, &mut reg, &mut mem);
    assert_eq!(mem.get(0x4005), 0x3000);

    // Addresses wrap around the end of memory.
    reg.pc = 0xffff;
    (St {}).exe(0b010_000000001, &mut reg, &mut mem);
    assert_eq!(mem.get(0), 0x8001);
}

#[test]
fn branches_and_calls() {
    let mut mem = Memory::new();
    let mut reg = Registers::new();
    reg.pc = 0x3000;
    // No flag is set: not even a branch on all three is taken.
    (Br {}).exe(0b111_000000101, &mut reg, &mut mem);
    assert_eq!(reg.pc, 0x3000);
    reg.z = true;
    // No condition bit: never taken.
    (Br {}).exe(0b000_000000101, &mut reg, &mut mem);
    assert_eq!(reg.pc, 0x3000);
    (Br {}).exe(0b101_000000101, &mut reg, &mut mem);
    assert_eq!(reg.pc, 0x3000);
    (Br {}).exe(0b010_000000101, &mut reg, &mut mem);
    assert_eq!(reg.pc, 0x3005);
    (Br {}).exe(0b111_111111011, &mut reg, &mut mem);
    assert_eq!(reg.pc, 0x3000);
    (Br {}).exe(0b010_100000000, &mut reg, &mut mem);
    assert_eq!(reg.pc, 0x3000 - 256);
    (Br {}).exe(0b010_011111111, &mut reg, &mut mem);
    assert_eq!(reg.pc, 0x3000 - 1);

    reg.pc = 0x3000;
    (Jsr {}).exe(0b1_00000000011, &mut reg, &mut mem);
    assert_eq!((reg.pc, reg.r[7]), (0x3003, 0x3000));
    (Jsr {}).exe(0b1_11111111101, &mut reg, &mut mem);
    assert_eq!((reg.pc, reg.r[7]), (0x3000, 0x3003));
    reg.r[2] = 0x5000;
    (Jsr {}).exe(0b0_00_010_000000, &mut reg, &mut mem);
    assert_eq!((reg.pc, reg.r[7]), (0x5000, 0x3000));
    // Through R7 itself: the jump goes where R7 pointed before the call.
    reg.pc = 0x6000;
    (Jsr {}).exe(0b0_00_111_000000, &mut reg, &mut mem);
    assert_eq!((reg.pc, reg.r[7]), (0x3000, 0x6000));

    let before = (reg.pc, reg.r, reg.n, reg.z, reg.p, reg.halt);
    (Rti {}).exe(0, &mut reg, &mut mem);
    assert_eq!(before, (reg.pc, reg.r, reg.n, reg.z, reg.p, reg.halt));
}

#[test]
fn the_machine_steps_and_stops() {
    let mut vm = VM::new();
    let mut io = WebIO::new("");
    // ADD R0, R0, #1 ; BRnzp -2 : never halts
    assert_eq!(vm.run(vec![0x3000, 0x1021, 0x0ffe], &mut io, 7), Ok(false));
    assert!(!vm.registers.halt);
    assert_eq!(vm.registers.r[0], 4);
    assert_eq!(vm.registers.pc, 0x3001);

    // A reserved operation code stops the machine.
    let mut vm = VM::new();
    assert_eq!(vm.run(vec![0x3000, 0x1021, 0xd000, 0x1021], &mut io, 100), Err(VmFault::ReservedOpcode));
    assert!(vm.registers.halt);
    assert_eq!(vm.registers.r[0], 1);
    assert_eq!(vm.registers.pc, 0x3002);
    assert_eq!(vm.run_single_command(&mut io), Ok(()));
    assert_eq!(vm.registers.pc, 0x3002);

    let mut vm = VM::new();
    assert_eq!(vm.run(vec![0x3000, 0xf0ff], &mut io, 100), Err(VmFault::UnknownTrap(0xff)));
    assert!(vm.registers.halt);

    // RTI does nothing.
    let mut vm = VM::new();
    vm.boot(vec![0x3000, 0x8000, 0xf025]);
    assert_eq!(vm.registers.pc, 0x3000);
    assert_eq!(vm.run_single_command(&mut io), Ok(()));
    assert_eq!(vm.registers.pc, 0x3001);
    assert!(!vm.registers.halt);
    assert_eq!(vm.run_single_command(&mut io), Ok(()));
    assert!(vm.registers.halt);

    // Booting again lets a halted machine run, with its registers as they were.
    vm.registers.set(3, 33);
    vm.registers.n = true;
    vm.boot(vec![0x4000, 0xf025]);
    assert!(!vm.registers.halt && !vm.registers.n);
    assert_eq!(vm.registers.pc, 0x4000);
    assert_eq!(vm.registers.get(3), 33);
    assert_eq!(vm.memory.get(0x3001), 0xf025);

    // The program counter wraps around the end of memory.
    let mut vm = VM::new();
    vm.boot(vec![0xffff, 0x1021]);
    assert_eq!(vm.run_single_command(&mut io), Ok(()));
    assert_eq!(vm.registers.pc, 0);
}

struct Recorder {
    seen: String,
    next: char,
}

impl SystemIO for Recorder {
    fn print_char(&mut self, c: char) {
        self.seen.push(c);
    }

    fn get_char(&mut self) -> char {
        let c = self.next;
        self.next = ((c as u8) + 1) as char;
        c
    }
}

#[test]
fn the_device_is_fed_and_drained() {
    let mut console = Recorder { seen: String::new(), next: 'a' };
    let mut device = WebIO::new("");
    let mut vm = VM::new();
    // GETC ; OUT ; IN ; OUT ; HALT, with R0 pointing at an empty string for the prompt
    vm.boot(vec![0x3000, 0xf020, 0xf021, 0xf023, 0xf021, 0xf025]);
    let mut steps = 0;
    while !vm.registers.halt {
        if vm.wants_input(&device) {
            device.feed_from(&mut console);
        }
        assert_eq!(vm.run_single_command(&mut device), Ok(()));
        device.drain_to(&mut console);
        assert!(device.output.is_empty());
        steps += 1;
    }
    assert_eq!(steps, 5);
    assert_eq!(console.next, 'c');
    assert!(console.seen.starts_with('a'));
    assert!(console.seen.ends_with('b'));
    assert!(device.is_drained());
    assert!(!vm.wants_input(&device));

    let mut vm = VM::new();
    vm.boot(vec![0x3000, 0xf020]);
    let waiting = WebIO::new("z");
    assert!(!vm.wants_input(&waiting));
    assert!(vm.wants_input(&WebIO::new("")));
    vm.boot(vec![0x3000, 0xf021]);
    assert!(!vm.wants_input(&WebIO::new("")));
}

#[test]
fn the_device_in_memory() {
    let mut io = WebIO::new("ab");
    io.print_char('x');
    assert_eq!(io.get_char(), 'a');
    io.print_char('y');
    assert_eq!(io.get_char(), 'b');
    assert_eq!(io.get_char(), '\0');
    assert_eq!(io.get_char(), '\0');
    assert_eq!(io.printed(), "xy");
    assert_eq!(io.current_char, 'y');
}
