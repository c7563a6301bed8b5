//! The mathematical model of the machine: an abstract state, and the
//! transition that one fetch-decode-execute cycle performs on it.
//!
//! The interpreter's contracts are stated against this model. A cycle
//! first decrements both timers, then fetches the big-endian 16-bit word
//! at the program counter, decodes it into four nibbles, and executes the
//! matching instruction. Policy choices this model fixes:
//!
//! - The program counter and every effective address derived from the
//!   index register wrap modulo the memory size (4096).
//! - Sprites are clipped at the right and bottom screen edges: bits that
//!   would fall outside the framebuffer are dropped, never wrapped.
//! - Key indices taken from a register are masked to their low four bits.
//! - The font-address instruction computes the glyph address as the font
//!   base plus five bytes per glyph index.
//! - An unrecognized encoding, a call on a full stack, and a return on an
//!   empty stack are fatal: the state is left as it was after the timer
//!   decrement, and the error identifies the opcode and program counter.

use vstd::prelude::*;

use crate::display::blank_screen;
use crate::keypad::spec_font;

verus! {

/// Bytes of addressable memory.
pub const MEM_SIZE: usize = 4096;

/// Where the 80-byte font table sits in memory.
pub const FONT_START: usize = 0x50;

/// Where a loaded program begins, and where the program counter starts.
pub const PROGRAM_START: usize = 0x200;

/// The fatal conditions: a program too large to load, and the three
/// unrecoverable execution errors, each carrying the offending opcode and
/// the program counter it was fetched from.
#[derive(Clone, Copy, PartialEq, Eq, Structural, Debug)]
pub enum Chip8Error {
    /// The program does not fit between the load offset and the end of memory.
    RomTooLarge,
    /// The fetched word is not one of the recognized encodings.
    UnknownOpcode { opcode: u16, pc: u16 },
    /// A call was executed with all stack slots in use.
    StackOverflow { opcode: u16, pc: u16 },
    /// A return was executed with no frame on the stack.
    StackUnderflow { opcode: u16, pc: u16 },
}

/// The whole machine state: registers, index, stack pointer, program
/// counter, timers, call stack, memory, keypad and framebuffer.
#[verifier::ext_equal]
pub struct Chip8View {
    /// The sixteen 8-bit registers; index 15 is the flags register.
    pub v: Seq<u8>,
    /// The 16-bit index register, kept below the memory size.
    pub i: u16,
    /// The stack pointer: the index of the top frame; 0 means empty.
    pub sp: u16,
    /// The program counter, kept below the memory size.
    pub pc: u16,
    /// The delay timer.
    pub dt: u8,
    /// The sound timer.
    pub st: u8,
    /// The sixteen call-stack slots; slot 0 is never used.
    pub stack: Seq<u16>,
    /// The 4096 bytes of memory.
    pub mem: Seq<u8>,
    /// The pressed state of the sixteen logical keys.
    pub keys: Seq<bool>,
    /// The key whose release the key-wait instruction awaits, if any.
    pub waiting: Option<u8>,
    /// The 64x32 framebuffer, row-major.
    pub screen: Seq<bool>,
    /// Whether the framebuffer changed since the renderer last cleared it.
    pub dirty: bool,
}

impl Chip8View {
    /// Well-formedness: every sequence has its fixed length, the program
    /// counter, index register and stack contents stay inside memory, the
    /// stack pointer stays inside the stack, and a latched key is real.
    pub open spec fn wf(self) -> bool {
        &&& self.v.len() == 16
        &&& self.stack.len() == 16
        &&& self.mem.len() == MEM_SIZE
        &&& self.keys.len() == 16
        &&& self.screen.len() == 2048
        &&& self.pc < MEM_SIZE
        &&& self.i < MEM_SIZE
        &&& self.sp <= 15
        &&& forall|j: int| 0 <= j < 16 ==> self.stack[j] < MEM_SIZE
        &&& match self.waiting {
            Some(k) => k < 16,
            None => true,
        }
    }
}

/// An address reduced modulo the memory size.
pub open spec fn wrap_addr(a: int) -> int {
    a % (MEM_SIZE as int)
}

/// The program counter after a plain two-byte advance.
pub open spec fn adv(pc: u16) -> u16 {
    (wrap_addr(pc + 2)) as u16
}

/// Both timers decremented by one, saturating at zero. This happens once
/// per cycle, before the fetch.
pub open spec fn tick_timers(s: Chip8View) -> Chip8View {
    Chip8View {
        dt: if s.dt > 0 {
            (s.dt - 1) as u8
        } else {
            0
        },
        st: if s.st > 0 {
            (s.st - 1) as u8
        } else {
            0
        },
        ..s
    }
}

/// The big-endian 16-bit word at the program counter.
pub open spec fn fetch_word(s: Chip8View) -> u16 {
    ((s.mem[s.pc as int] as u16) << 8) | (s.mem[wrap_addr(s.pc + 1)] as u16)
}

/// The instruction family: the high nibble of the word.
pub open spec fn op_fam(w: u16) -> u16 {
    w >> 12
}

/// The first register operand: the second nibble.
pub open spec fn op_x(w: u16) -> int {
    ((w >> 8) & 0xF) as int
}

/// The second register operand: the third nibble.
pub open spec fn op_y(w: u16) -> int {
    ((w >> 4) & 0xF) as int
}

/// The low nibble.
pub open spec fn op_n(w: u16) -> u16 {
    w & 0xF
}

/// The 8-bit immediate: the low byte.
pub open spec fn op_kk(w: u16) -> u8 {
    (w & 0xFF) as u8
}

/// The 12-bit address: the low three nibbles.
pub open spec fn op_addr(w: u16) -> u16 {
    w & 0xFFF
}

/// Modulo-256 addition: the sum wrapped into a byte.
pub open spec fn wrap_add8(a: u8, b: u8) -> u8 {
    if a + b > 255 {
        (a + b - 256) as u8
    } else {
        (a + b) as u8
    }
}

/// Modulo-256 subtraction: the difference wrapped into a byte.
pub open spec fn wrap_sub8(a: u8, b: u8) -> u8 {
    if a >= b {
        (a - b) as u8
    } else {
        (a - b + 256) as u8
    }
}

/// Whether bit `k` (from the left, 0-based) of a sprite row byte is set.
pub open spec fn sprite_bit(b: u8, k: int) -> bool {
    (b >> ((7 - k) as u8)) & 1 == 1
}

/// Whether the sprite of `rows` rows at memory address `i`, drawn with its
/// origin at (`x0`, `y0`), has a set bit landing on framebuffer cell `p`.
/// Coordinates are not wrapped: a cell is covered only if it lies at or
/// right of `x0` and at or below `y0`, so off-screen sprite bits cover
/// nothing.
pub open spec fn sprite_covers(
    mem: Seq<u8>,
    i: u16,
    x0: u8,
    y0: u8,
    rows: int,
    p: int,
) -> bool {
    let px = p % 64;
    let py = p / 64;
    &&& y0 <= py < y0 + rows
    &&& x0 <= px < x0 + 8
    &&& sprite_bit(mem[wrap_addr(i + (py - y0))], px - x0)
}

/// The framebuffer after the sprite is XOR-drawn onto it: exactly the
/// covered cells are flipped.
pub open spec fn draw_screen(
    screen: Seq<bool>,
    mem: Seq<u8>,
    i: u16,
    x0: u8,
    y0: u8,
    rows: int,
) -> Seq<bool> {
    Seq::new(screen.len(), |p: int| screen[p] != sprite_covers(mem, i, x0, y0, rows, p))
}

/// Whether the draw turns some on-pixel off: a covered cell was already on.
pub open spec fn draw_collision(
    screen: Seq<bool>,
    mem: Seq<u8>,
    i: u16,
    x0: u8,
    y0: u8,
    rows: int,
) -> bool {
    exists|p: int| 0 <= p < screen.len() && screen[p] && sprite_covers(mem, i, x0, y0, rows, p)
}

/// Whether the draw touches any cell at all (and so marks the display dirty).
pub open spec fn draw_any(mem: Seq<u8>, i: u16, x0: u8, y0: u8, rows: int) -> bool {
    exists|p: int| 0 <= p < 2048 && sprite_covers(mem, i, x0, y0, rows, p)
}

/// The key the key-wait scan latches: the highest pressed index below `n`,
/// if any key is pressed there.
pub open spec fn wait_pick(keys: Seq<bool>, n: int) -> Option<u8>
    decreases n,
{
    if n <= 0 {
        None
    } else if keys[n - 1] {
        Some((n - 1) as u8)
    } else {
        wait_pick(keys, n - 1)
    }
}

/// Memory after registers 0 through `upto - 1` are stored to consecutive
/// cells starting at address `i`, each effective address wrapped.
pub open spec fn store_regs(mem: Seq<u8>, v: Seq<u8>, i: u16, upto: int) -> Seq<u8>
    decreases upto,
{
    if upto <= 0 {
        mem
    } else {
        store_regs(mem, v, i, upto - 1).update(wrap_addr(i + (upto - 1)), v[upto - 1])
    }
}

/// The state after the instruction, with the program counter advanced by
/// two or four depending on `cond` (the skip family).
pub open spec fn skip_if(t: Chip8View, cond: bool) -> Chip8View {
    if cond {
        Chip8View { pc: adv(adv(t.pc)), ..t }
    } else {
        Chip8View { pc: adv(t.pc), ..t }
    }
}

/// An unrecognized encoding: the state is unchanged and the cycle fails.
pub open spec fn unknown(t: Chip8View, w: u16) -> (Chip8View, Option<Chip8Error>) {
    (t, Some(Chip8Error::UnknownOpcode { opcode: w, pc: t.pc }))
}

/// Family 0: clear screen, return from subroutine, or a no-op machine
/// subroutine call.
pub open spec fn step_zero(t: Chip8View, w: u16) -> (Chip8View, Option<Chip8Error>) {
    if w == 0x00E0 {
        (Chip8View { screen: blank_screen(), dirty: false, pc: adv(t.pc), ..t }, None)
    } else if w == 0x00EE {
        if t.sp >= 1 {
            (Chip8View { pc: t.stack[t.sp as int], sp: (t.sp - 1) as u16, ..t }, None)
        } else {
            (t, Some(Chip8Error::StackUnderflow { opcode: w, pc: t.pc }))
        }
    } else {
        (Chip8View { pc: adv(t.pc), ..t }, None)
    }
}

/// Family 2: call. The return address (the instruction after the call) is
/// pushed and the program counter jumps; a full stack is fatal.
pub open spec fn step_call(t: Chip8View, w: u16) -> (Chip8View, Option<Chip8Error>) {
    if t.sp < 15 {
        (
            Chip8View {
                sp: (t.sp + 1) as u16,
                stack: t.stack.update(t.sp + 1, adv(t.pc)),
                pc: op_addr(w),
                ..t
            },
            None,
        )
    } else {
        (t, Some(Chip8Error::StackOverflow { opcode: w, pc: t.pc }))
    }
}

/// Family 8: register-to-register moves, bitwise operations, add with
/// carry, the two subtractions with borrow, and the two shifts. Every
/// flag written to register 15 is computed from the operand values as
/// they were before any register is overwritten.
pub open spec fn step_alu(t: Chip8View, w: u16) -> (Chip8View, Option<Chip8Error>) {
    let x = op_x(w);
    let y = op_y(w);
    let n = op_n(w);
    let vx = t.v[x];
    let vy = t.v[y];
    if n == 0x0 {
        (Chip8View { v: t.v.update(x, vy), pc: adv(t.pc), ..t }, None)
    } else if n == 0x1 {
        (Chip8View { v: t.v.update(x, vx | vy), pc: adv(t.pc), ..t }, None)
    } else if n == 0x2 {
        (Chip8View { v: t.v.update(x, vx & vy), pc: adv(t.pc), ..t }, None)
    } else if n == 0x3 {
        (Chip8View { v: t.v.update(x, vx ^ vy), pc: adv(t.pc), ..t }, None)
    } else if n == 0x4 {
        let carry: u8 = if vx + vy > 255 {
            1
        } else {
            0
        };
        (
            Chip8View { v: t.v.update(x, wrap_add8(vx, vy)).update(15, carry), pc: adv(t.pc), ..t },
            None,
        )
    } else if n == 0x5 {
        let borrow: u8 = if vx > vy {
            1
        } else {
            0
        };
        (
            Chip8View { v: t.v.update(15, borrow).update(x, wrap_sub8(vx, vy)), pc: adv(t.pc), ..t },
            None,
        )
    } else if n == 0x6 {
        (
            Chip8View { v: t.v.update(15, vx & 1).update(x, vx >> 1), pc: adv(t.pc), ..t },
            None,
        )
    } else if n == 0x7 {
        let borrow: u8 = if vy > vx {
            1
        } else {
            0
        };
        (
            Chip8View { v: t.v.update(x, wrap_sub8(vy, vx)).update(15, borrow), pc: adv(t.pc), ..t },
            None,
        )
    } else if n == 0xE {
        (
            Chip8View { v: t.v.update(15, vx >> 7).update(x, vx << 1), pc: adv(t.pc), ..t },
            None,
        )
    } else {
        unknown(t, w)
    }
}

/// Family D: the sprite draw. Reads `op_n(w)` rows at the index register,
/// XOR-draws them clipped at the screen edges, reports a collision in the
/// flags register, and marks the display dirty if any cell was flipped.
pub open spec fn step_draw(t: Chip8View, w: u16) -> Chip8View {
    let x0 = t.v[op_x(w)];
    let y0 = t.v[op_y(w)];
    let rows = op_n(w) as int;
    let collision: u8 = if draw_collision(t.screen, t.mem, t.i, x0, y0, rows) {
        1
    } else {
        0
    };
    Chip8View {
        screen: draw_screen(t.screen, t.mem, t.i, x0, y0, rows),
        dirty: t.dirty || draw_any(t.mem, t.i, x0, y0, rows),
        v: t.v.update(15, collision),
        pc: adv(t.pc),
        ..t
    }
}

/// Family E: skip depending on whether the key named by the low nibble of
/// register `x` is down.
pub open spec fn step_key_skip(t: Chip8View, w: u16) -> (Chip8View, Option<Chip8Error>) {
    let key = (t.v[op_x(w)] & 0xF) as int;
    if op_kk(w) == 0x9E {
        (skip_if(t, t.keys[key]), None)
    } else if op_kk(w) == 0xA1 {
        (skip_if(t, !t.keys[key]), None)
    } else {
        unknown(t, w)
    }
}

/// The key-wait instruction. With a latched key: once it is released, its
/// index is stored and the program counter advances; while it is still
/// held, nothing changes. With no latch: the highest pressed key (if any)
/// is latched; either way the program counter stays, so the instruction
/// is fetched again next cycle.
pub open spec fn step_wait_key(t: Chip8View, x: int) -> Chip8View {
    match t.waiting {
        Some(k) => {
            if !t.keys[k as int] {
                Chip8View { v: t.v.update(x, k), waiting: None, pc: adv(t.pc), ..t }
            } else {
                t
            }
        },
        None => {
            match wait_pick(t.keys, 16) {
                Some(k) => Chip8View { waiting: Some(k), ..t },
                None => t,
            }
        },
    }
}

/// Family F: timers, key wait, index arithmetic, font addressing, BCD,
/// and the block stores and loads.
pub open spec fn step_misc(t: Chip8View, w: u16) -> (Chip8View, Option<Chip8Error>) {
    let x = op_x(w);
    let kk = op_kk(w);
    let vx = t.v[x];
    if kk == 0x07 {
        (Chip8View { v: t.v.update(x, t.dt), pc: adv(t.pc), ..t }, None)
    } else if kk == 0x0A {
        (step_wait_key(t, x), None)
    } else if kk == 0x15 {
        (Chip8View { dt: vx, pc: adv(t.pc), ..t }, None)
    } else if kk == 0x18 {
        (Chip8View { st: vx, pc: adv(t.pc), ..t }, None)
    } else if kk == 0x1E {
        (Chip8View { i: wrap_addr(t.i + vx) as u16, pc: adv(t.pc), ..t }, None)
    } else if kk == 0x29 {
        (Chip8View { i: (FONT_START + vx * 5) as u16, pc: adv(t.pc), ..t }, None)
    } else if kk == 0x33 {
        let mem = t.mem.update(t.i as int, vx / 100).update(
            wrap_addr(t.i + 1),
            (vx % 100) / 10,
        ).update(wrap_addr(t.i + 2), vx % 10);
        (Chip8View { mem, pc: adv(t.pc), ..t }, None)
    } else if kk == 0x55 {
        (Chip8View { mem: store_regs(t.mem, t.v, t.i, x + 1), pc: adv(t.pc), ..t }, None)
    } else if kk == 0x65 {
        let v = Seq::new(
            16,
            |j: int|
                if j <= x {
                    t.mem[wrap_addr(t.i + j)]
                } else {
                    t.v[j]
                },
        );
        (Chip8View { v, pc: adv(t.pc), ..t }, None)
    } else {
        unknown(t, w)
    }
}

/// One decoded instruction applied to the (already timer-decremented)
/// state `t`: the next state, and the fatal error if the cycle fails, in
/// which case the state is returned unchanged. `rnd` is the byte the
/// random-number instruction draws.
pub open spec fn step(t: Chip8View, w: u16, rnd: u8) -> (Chip8View, Option<Chip8Error>) {
    let fam = op_fam(w);
    if fam == 0x0 {
        step_zero(t, w)
    } else if fam == 0x1 {
        (Chip8View { pc: op_addr(w), ..t }, None)
    } else if fam == 0x2 {
        step_call(t, w)
    } else if fam == 0x3 {
        (skip_if(t, t.v[op_x(w)] == op_kk(w)), None)
    } else if fam == 0x4 {
        (skip_if(t, t.v[op_x(w)] != op_kk(w)), None)
    } else if fam == 0x5 {
        if op_n(w) == 0 {
            (skip_if(t, t.v[op_x(w)] == t.v[op_y(w)]), None)
        } else {
            unknown(t, w)
        }
    } else if fam == 0x6 {
        (Chip8View { v: t.v.update(op_x(w), op_kk(w)), pc: adv(t.pc), ..t }, None)
    } else if fam == 0x7 {
        (
            Chip8View {
                v: t.v.update(op_x(w), wrap_add8(t.v[op_x(w)], op_kk(w))),
                pc: adv(t.pc),
                ..t
            },
            None,
        )
    } else if fam == 0x8 {
        step_alu(t, w)
    } else if fam == 0x9 {
        if op_n(w) == 0 {
            (skip_if(t, t.v[op_x(w)] != t.v[op_y(w)]), None)
        } else {
            unknown(t, w)
        }
    } else if fam == 0xA {
        (Chip8View { i: op_addr(w), pc: adv(t.pc), ..t }, None)
    } else if fam == 0xB {
        (Chip8View { pc: wrap_addr(t.v[0] + op_addr(w)) as u16, ..t }, None)
    } else if fam == 0xC {
        (Chip8View { v: t.v.update(op_x(w), rnd & op_kk(w)), pc: adv(t.pc), ..t }, None)
    } else if fam == 0xD {
        (step_draw(t, w), None)
    } else if fam == 0xE {
        step_key_skip(t, w)
    } else {
        step_misc(t, w)
    }
}

/// One whole cycle from state `s`: timers tick, then the fetched
/// instruction executes.
pub open spec fn cycle(s: Chip8View, rnd: u8) -> (Chip8View, Option<Chip8Error>) {
    let t = tick_timers(s);
    step(t, fetch_word(t), rnd)
}

/// The state after a cycle. On a fatal cycle only the timers have moved.
pub open spec fn cycle_post(s: Chip8View, rnd: u8) -> Chip8View {
    cycle(s, rnd).0
}

/// The fatal error a cycle from `s` hits, if any. It does not depend on
/// the random byte.
pub open spec fn cycle_err(s: Chip8View) -> Option<Chip8Error> {
    cycle(s, 0).1
}


/// The memory contents with `data` overlaid starting at offset `off`.
pub open spec fn mem_with(mem: Seq<u8>, off: int, data: Seq<u8>) -> Seq<u8> {
    Seq::new(
        mem.len(),
        |a: int|
            if off <= a < off + data.len() {
                data[a - off]
            } else {
                mem[a]
            },
    )
}

/// Zero-filled memory.
pub open spec fn zero_mem() -> Seq<u8> {
    Seq::new(MEM_SIZE as nat, |a: int| 0u8)
}

/// The machine before anything is loaded: zero-filled memory, fresh
/// registers, stack, timers and peripherals, and the program counter at
/// the load offset.
pub open spec fn reset_state() -> Chip8View {
    Chip8View {
        v: Seq::new(16, |j: int| 0u8),
        i: 0,
        sp: 0,
        pc: PROGRAM_START as u16,
        dt: 0,
        st: 0,
        stack: Seq::new(16, |j: int| 0u16),
        mem: zero_mem(),
        keys: Seq::new(16, |j: int| false),
        waiting: None,
        screen: blank_screen(),
        dirty: false,
    }
}

/// What a cycle from `s` returns: success, or its fatal error.
pub open spec fn cycle_result(s: Chip8View) -> Result<(), Chip8Error> {
    match cycle_err(s) {
        None => Ok(()),
        Some(e) => Err(e),
    }
}

/// The halt convention: the two bytes at the program counter are zero.
/// This is a program-level sentinel, not a hardware condition.
pub open spec fn halted(s: Chip8View) -> bool {
    s.mem[s.pc as int] == 0 && s.mem[wrap_addr(s.pc + 1)] == 0
}

/// Memory as construction leaves it: zero-filled, the font table at its
/// fixed offset, the program at the load offset.
pub open spec fn loaded_mem(rom: Seq<u8>) -> Seq<u8> {
    Seq::new(
        MEM_SIZE as nat,
        |a: int|
            if FONT_START <= a < FONT_START + 80 {
                spec_font()[a - FONT_START]
            } else if PROGRAM_START <= a < PROGRAM_START + rom.len() {
                rom[a - PROGRAM_START]
            } else {
                0u8
            },
    )
}

/// The machine as construction leaves it: fresh registers, stack, timers
/// and peripherals, the program counter at the load offset, and memory as
/// `loaded_mem` says.
pub open spec fn initial_state(rom: Seq<u8>) -> Chip8View {
    Chip8View { mem: loaded_mem(rom), ..reset_state() }
}

} // verus!
