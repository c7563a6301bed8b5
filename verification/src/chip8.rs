//! The virtual CPU: it owns memory, registers, call stack, timers,
//! keypad and display, and runs one fetch-decode-execute cycle per call.
//!
//! Every public operation is specified against the abstract machine in
//! `step`: construction builds `initial_state`, and `run` performs
//! exactly the `cycle` transition.

use vstd::prelude::*;

use vstd::arithmetic::div_mod::lemma_fundamental_div_mod;
use vstd::arithmetic::div_mod::lemma_fundamental_div_mod_converse;

use crate::display::Display;
use crate::display::HEIGHT;
use crate::display::WIDTH;
use crate::keypad::Keypad;
use crate::keypad::font_sprites;
use crate::keypad::spec_font;
use crate::step::Chip8Error;
use crate::step::Chip8View;
use crate::step::draw_any;
use crate::step::draw_collision;
use crate::step::draw_screen;
use crate::step::sprite_bit;
use crate::step::sprite_covers;
use crate::step::FONT_START;
use crate::step::MEM_SIZE;
use crate::step::PROGRAM_START;
use crate::step::halted;
use crate::step::initial_state;
use crate::step::loaded_mem;
use crate::step::mem_with;
use crate::step::adv;
use crate::step::cycle_err;
use crate::step::cycle_post;
use crate::step::cycle_result;
use crate::step::fetch_word;
use crate::step::reset_state;
use crate::step::wrap_add8;
use crate::step::wrap_sub8;
use crate::step::skip_if;
use crate::step::step_wait_key;
use crate::step::store_regs;
use crate::step::tick_timers;
use crate::step::wait_pick;
use crate::step::wrap_addr;
use crate::step::zero_mem;

verus! {

/// The interpreter: the machine state of `Chip8View`, realized.
pub struct Chip8 {
    v: Vec<u8>,
    i: u16,
    sp: u16,
    pc: u16,
    dt: u8,
    st: u8,
    stack: Vec<u16>,
    memory: Vec<u8>,
    pub keypad: Keypad,
    pub display: Display,
}

impl View for Chip8 {
    type V = Chip8View;

    closed spec fn view(&self) -> Chip8View {
        Chip8View {
            v: self.v@,
            i: self.i,
            sp: self.sp,
            pc: self.pc,
            dt: self.dt,
            st: self.st,
            stack: self.stack@,
            mem: self.memory@,
            keys: self.keypad.keys@,
            waiting: self.keypad.waiting_for_release,
            screen: self.display.screen@,
            dirty: self.display.is_dirty,
        }
    }
}

/// Builds a vector of `n` zero bytes.
fn zero_bytes(n: usize) -> (v: Vec<u8>)
    ensures
        v@ == Seq::new(n as nat, |a: int| 0u8),
{
    let mut v: Vec<u8> = Vec::new();
    let mut k: usize = 0;
    while k < n
        invariant
            k <= n,
            v@.len() == k,
            forall|j: int| 0 <= j < k ==> v@[j] == 0u8,
        decreases n - k,
    {
        v.push(0);
        k = k + 1;
    }
    proof {
        assert(v@ =~= Seq::new(n as nat, |a: int| 0u8));
    }
    v
}

/// Sprite coverage part-way through a draw: every bit of the first
/// `full_rows` rows, plus the first `bits` bits of row `full_rows`.
spec fn covers_partial(
    mem: Seq<u8>,
    i: u16,
    x0: u8,
    y0: u8,
    full_rows: int,
    bits: int,
    p: int,
) -> bool {
    ||| sprite_covers(mem, i, x0, y0, full_rows, p)
    ||| {
        let px = p % 64;
        let py = p / 64;
        &&& py == y0 + full_rows
        &&& x0 <= px < x0 + bits
        &&& sprite_bit(mem[wrap_addr(i + full_rows)], px - x0)
    }
}

/// Two partial-coverage cuts that agree on every framebuffer cell give
/// the same collision and the same dirtiness.
proof fn lemma_partial_equiv(
    scr: Seq<bool>,
    mem: Seq<u8>,
    i: u16,
    x0: u8,
    y0: u8,
    r1: int,
    b1: int,
    r2: int,
    b2: int,
)
    requires
        forall|p: int|
            0 <= p < 2048 ==> covers_partial(mem, i, x0, y0, r1, b1, p) == covers_partial(
                mem,
                i,
                x0,
                y0,
                r2,
                b2,
                p,
            ),
    ensures
        (exists|p: int|
            0 <= p < 2048 && scr[p] && #[trigger] covers_partial(mem, i, x0, y0, r1, b1, p))
            == (exists|p: int|
            0 <= p < 2048 && scr[p] && #[trigger] covers_partial(mem, i, x0, y0, r2, b2, p)),
        (exists|p: int| 0 <= p < 2048 && #[trigger] covers_partial(mem, i, x0, y0, r1, b1, p))
            == (exists|p: int| 0 <= p < 2048 && #[trigger] covers_partial(mem, i, x0, y0, r2, b2, p)),
{
    if exists|p: int|
        0 <= p < 2048 && scr[p] && #[trigger] covers_partial(mem, i, x0, y0, r1, b1, p) {
        let pw = choose|p: int|
            0 <= p < 2048 && scr[p] && #[trigger] covers_partial(mem, i, x0, y0, r1, b1, p);
        assert(covers_partial(mem, i, x0, y0, r2, b2, pw));
    }
    if exists|p: int|
        0 <= p < 2048 && scr[p] && #[trigger] covers_partial(mem, i, x0, y0, r2, b2, p) {
        let pw = choose|p: int|
            0 <= p < 2048 && scr[p] && #[trigger] covers_partial(mem, i, x0, y0, r2, b2, p);
        assert(covers_partial(mem, i, x0, y0, r1, b1, pw));
    }
    if exists|p: int| 0 <= p < 2048 && #[trigger] covers_partial(mem, i, x0, y0, r1, b1, p) {
        let pw = choose|p: int|
            0 <= p < 2048 && #[trigger] covers_partial(mem, i, x0, y0, r1, b1, p);
        assert(covers_partial(mem, i, x0, y0, r2, b2, pw));
    }
    if exists|p: int| 0 <= p < 2048 && #[trigger] covers_partial(mem, i, x0, y0, r2, b2, p) {
        let pw = choose|p: int|
            0 <= p < 2048 && #[trigger] covers_partial(mem, i, x0, y0, r2, b2, p);
        assert(covers_partial(mem, i, x0, y0, r1, b1, pw));
    }
}

impl Chip8 {
    /// The machine's invariant, inherited from the abstract state.
    pub open spec fn wf(&self) -> bool {
        self@.wf()
    }

    /// A machine with nothing loaded yet.
    fn init() -> (c: Chip8)
        ensures
            c.wf(),
            c@ == reset_state(),
    {
        let mut stack: Vec<u16> = Vec::new();
        let mut k: usize = 0;
        while k < 16
            invariant
                k <= 16,
                stack@.len() == k,
                forall|j: int| 0 <= j < k ==> stack@[j] == 0u16,
            decreases 16 - k,
        {
            stack.push(0);
            k = k + 1;
        }
        let c = Chip8 {
            v: zero_bytes(16),
            i: 0,
            sp: 0,
            pc: PROGRAM_START as u16,
            dt: 0,
            st: 0,
            stack,
            memory: zero_bytes(MEM_SIZE),
            keypad: Keypad::new(),
            display: Display::new(),
        };
        proof {
            assert(c@.stack =~= reset_state().stack);
            assert(c@.mem =~= zero_mem());
            assert(c@ =~= reset_state());
        }
        c
    }

    /// Builds a machine with the program loaded at the fixed offset and
    /// the font table resident, ready to run from the program start. A
    /// program that does not fit below the end of memory is rejected
    /// whole: nothing is constructed.
    pub fn new(rom: &Vec<u8>) -> (r: Result<Chip8, Chip8Error>)
        ensures
            match r {
                Ok(c) => {
                    &&& rom@.len() < MEM_SIZE - PROGRAM_START
                    &&& c.wf()
                    &&& c@ == initial_state(rom@)
                },
                Err(e) => {
                    &&& e == Chip8Error::RomTooLarge
                    &&& rom@.len() >= MEM_SIZE - PROGRAM_START
                },
            },
    {
        let mut c = Chip8::init();
        match c.load_rom(rom) {
            Ok(()) => {},
            Err(e) => {
                return Err(e);
            },
        }
        c.load_font();
        proof {
            assert(c@.mem =~= loaded_mem(rom@));
            assert(c@ =~= initial_state(rom@));
        }
        Ok(c)
    }

    /// Copies the program into memory at the load offset, rejecting one
    /// that would not leave the final memory byte free.
    fn load_rom(&mut self, rom: &Vec<u8>) -> (r: Result<(), Chip8Error>)
        requires
            old(self).wf(),
        ensures
            final(self).wf(),
            match r {
                Ok(()) => {
                    &&& rom@.len() < MEM_SIZE - PROGRAM_START
                    &&& final(self)@ == (Chip8View {
                        mem: mem_with(old(self)@.mem, PROGRAM_START as int, rom@),
                        ..old(self)@
                    })
                },
                Err(e) => {
                    &&& e == Chip8Error::RomTooLarge
                    &&& rom@.len() >= MEM_SIZE - PROGRAM_START
                    &&& *final(self) == *old(self)
                },
            },
    {
        if rom.len() >= MEM_SIZE - PROGRAM_START {
            return Err(Chip8Error::RomTooLarge);
        }
        let mut k: usize = 0;
        while k < rom.len()
            invariant
                old(self).wf(),
                k <= rom@.len(),
                rom@.len() < MEM_SIZE - PROGRAM_START,
                self.memory@.len() == MEM_SIZE,
                forall|a: int|
                    0 <= a < MEM_SIZE && !(PROGRAM_START <= a < PROGRAM_START + k)
                        ==> self.memory@[a] == old(self)@.mem[a],
                forall|j: int| 0 <= j < k ==> self.memory@[PROGRAM_START + j] == rom@[j],
                self.v == old(self).v,
                self.i == old(self).i,
                self.sp == old(self).sp,
                self.pc == old(self).pc,
                self.dt == old(self).dt,
                self.st == old(self).st,
                self.stack == old(self).stack,
                self.keypad == old(self).keypad,
                self.display == old(self).display,
            decreases rom@.len() - k,
        {
            self.memory.set(PROGRAM_START + k, rom[k]);
            k = k + 1;
        }
        proof {
            assert(self@.mem =~= mem_with(old(self)@.mem, PROGRAM_START as int, rom@));
            assert(self@ =~= (Chip8View {
                mem: mem_with(old(self)@.mem, PROGRAM_START as int, rom@),
                ..old(self)@
            }));
        }
        Ok(())
    }

    /// Copies the font table into memory at its fixed offset.
    fn load_font(&mut self)
        requires
            old(self).wf(),
        ensures
            final(self).wf(),
            final(self)@ == (Chip8View {
                mem: mem_with(old(self)@.mem, FONT_START as int, spec_font()),
                ..old(self)@
            }),
    {
        let font = font_sprites();
        let mut k: usize = 0;
        while k < 80
            invariant
                old(self).wf(),
                k <= 80,
                font@ == spec_font(),
                self.memory@.len() == MEM_SIZE,
                forall|a: int|
                    0 <= a < MEM_SIZE && !(FONT_START <= a < FONT_START + k)
                        ==> self.memory@[a] == old(self)@.mem[a],
                forall|j: int| 0 <= j < k ==> self.memory@[FONT_START + j] == font@[j],
                self.v == old(self).v,
                self.i == old(self).i,
                self.sp == old(self).sp,
                self.pc == old(self).pc,
                self.dt == old(self).dt,
                self.st == old(self).st,
                self.stack == old(self).stack,
                self.keypad == old(self).keypad,
                self.display == old(self).display,
            decreases 80 - k,
        {
            self.memory.set(FONT_START + k, font[k]);
            k = k + 1;
        }
        proof {
            assert(self@.mem =~= mem_with(old(self)@.mem, FONT_START as int, spec_font()));
            assert(self@ =~= (Chip8View {
                mem: mem_with(old(self)@.mem, FONT_START as int, spec_font()),
                ..old(self)@
            }));
        }
    }

    /// The halt convention: the two bytes at the program counter are both
    /// zero. A driver checks this before each cycle to stop at a
    /// program's end sentinel.
    pub fn done(&self) -> (d: bool)
        requires
            self.wf(),
        ensures
            d == halted(self@),
    {
        self.memory[self.pc as usize] == 0 && self.memory[(self.pc as usize + 1) % MEM_SIZE]
            == 0
    }

    /// Advances the program counter past the current instruction,
    /// wrapping at the end of memory.
    fn advance_pc(&mut self)
        requires
            old(self).wf(),
        ensures
            final(self).wf(),
            final(self)@ == (Chip8View { pc: adv(old(self)@.pc), ..old(self)@ }),
    {
        self.pc = (self.pc + 2) % (MEM_SIZE as u16);
    }

    /// Advances the program counter by four bytes (skipping the next
    /// instruction) when `cond` holds, else by the plain two.
    fn skip_pc(&mut self, cond: bool)
        requires
            old(self).wf(),
        ensures
            final(self).wf(),
            final(self)@ == skip_if(old(self)@, cond),
    {
        if cond {
            self.pc = (self.pc + 2) % (MEM_SIZE as u16);
        }
        self.pc = (self.pc + 2) % (MEM_SIZE as u16);
    }

    /// Stores registers 0 through `x` to consecutive memory cells
    /// starting at the index register, each address wrapped.
    fn store_block(&mut self, x: usize)
        requires
            old(self).wf(),
            x < 16,
        ensures
            final(self).wf(),
            final(self)@ == (Chip8View {
                mem: store_regs(old(self)@.mem, old(self)@.v, old(self)@.i, x as int + 1),
                ..old(self)@
            }),
    {
        let mut k: usize = 0;
        while k <= x
            invariant
                old(self).wf(),
                x < 16,
                k <= x + 1,
                self.memory@.len() == MEM_SIZE,
                self@ == (Chip8View {
                    mem: store_regs(old(self)@.mem, old(self)@.v, old(self)@.i, k as int),
                    ..old(self)@
                }),
            decreases x + 1 - k,
        {
            let addr: usize = (self.i as usize + k) % MEM_SIZE;
            let val: u8 = self.v[k];
            self.memory.set(addr, val);
            k = k + 1;
            proof {
                assert(self@.mem =~= store_regs(
                    old(self)@.mem,
                    old(self)@.v,
                    old(self)@.i,
                    k as int,
                ));
                assert(self@ =~= (Chip8View {
                    mem: store_regs(old(self)@.mem, old(self)@.v, old(self)@.i, k as int),
                    ..old(self)@
                }));
            }
        }
    }

    /// Loads registers 0 through `x` from consecutive memory cells
    /// starting at the index register, each address wrapped.
    fn load_block(&mut self, x: usize)
        requires
            old(self).wf(),
            x < 16,
        ensures
            final(self).wf(),
            final(self)@ == (Chip8View {
                v: Seq::new(
                    16,
                    |j: int|
                        if j <= x {
                            old(self)@.mem[wrap_addr(old(self)@.i + j)]
                        } else {
                            old(self)@.v[j]
                        },
                ),
                ..old(self)@
            }),
    {
        let mut k: usize = 0;
        while k <= x
            invariant
                old(self).wf(),
                x < 16,
                k <= x + 1,
                self.v@.len() == 16,
                self@ == (Chip8View {
                    v: Seq::new(
                        16,
                        |j: int|
                            if j < k {
                                old(self)@.mem[wrap_addr(old(self)@.i + j)]
                            } else {
                                old(self)@.v[j]
                            },
                    ),
                    ..old(self)@
                }),
            decreases x + 1 - k,
        {
            let addr: usize = (self.i as usize + k) % MEM_SIZE;
            let val: u8 = self.memory[addr];
            self.v.set(k, val);
            k = k + 1;
            proof {
                assert(self@.v =~= Seq::new(
                    16,
                    |j: int|
                        if j < k {
                            old(self)@.mem[wrap_addr(old(self)@.i + j)]
                        } else {
                            old(self)@.v[j]
                        },
                ));
                assert(self@ =~= (Chip8View {
                    v: Seq::new(
                        16,
                        |j: int|
                            if j < k {
                                old(self)@.mem[wrap_addr(old(self)@.i + j)]
                            } else {
                                old(self)@.v[j]
                            },
                    ),
                    ..old(self)@
                }));
            }
        }
        proof {
            assert(self@.v =~= Seq::new(
                16,
                |j: int|
                    if j <= x {
                        old(self)@.mem[wrap_addr(old(self)@.i + j)]
                    } else {
                        old(self)@.v[j]
                    },
            ));
        }
    }

    /// XOR-draws the `rows`-row sprite at the index register's address
    /// onto the framebuffer with its origin at (`x0`, `y0`), clipping at
    /// the screen edges, and reports whether any on-pixel was turned off.
    fn draw_sprite(&mut self, x0: u8, y0: u8, rows: u8) -> (collision: bool)
        requires
            old(self).wf(),
            rows <= 15,
        ensures
            final(self).wf(),
            collision == draw_collision(
                old(self)@.screen,
                old(self)@.mem,
                old(self)@.i,
                x0,
                y0,
                rows as int,
            ),
            final(self)@ == (Chip8View {
                screen: draw_screen(
                    old(self)@.screen,
                    old(self)@.mem,
                    old(self)@.i,
                    x0,
                    y0,
                    rows as int,
                ),
                dirty: old(self)@.dirty || draw_any(
                    old(self)@.mem,
                    old(self)@.i,
                    x0,
                    y0,
                    rows as int,
                ),
                ..old(self)@
            }),
    {
        let ghost mem0 = old(self)@.mem;
        let ghost i0 = old(self)@.i;
        let ghost scr0 = old(self)@.screen;
        let mut collision: bool = false;
        let mut row: usize = 0;
        while row < rows as usize
            invariant
                old(self).wf(),
                rows <= 15,
                row <= rows as usize,
                mem0 == old(self)@.mem,
                i0 == old(self)@.i,
                scr0 == old(self)@.screen,
                self@ == (Chip8View { screen: self@.screen, dirty: self@.dirty, ..old(self)@ }),
                self.display.screen@.len() == 2048,
                forall|p: int|
                    0 <= p < 2048 ==> self.display.screen@[p] == (scr0[p] != covers_partial(
                        mem0,
                        i0,
                        x0,
                        y0,
                        row as int,
                        0,
                        p,
                    )),
                collision == (exists|p: int|
                    0 <= p < 2048 && scr0[p] && #[trigger] covers_partial(
                        mem0,
                        i0,
                        x0,
                        y0,
                        row as int,
                        0,
                        p,
                    )),
                self.display.is_dirty == (old(self)@.dirty || (exists|p: int|
                    0 <= p < 2048 && #[trigger] covers_partial(
                        mem0,
                        i0,
                        x0,
                        y0,
                        row as int,
                        0,
                        p,
                    ))),
            decreases rows as int - row,
        {
            let py: usize = y0 as usize + row;
            let ghost ri = row as int;
            if py < HEIGHT {
                let sprite_row: u8 = self.memory[(self.i as usize + row) % MEM_SIZE];
                proof {
                    assert(sprite_row == mem0[wrap_addr(i0 + ri)]);
                }
                let mut b: usize = 0;
                while b < 8
                    invariant
                        old(self).wf(),
                        rows <= 15,
                        row < rows as usize,
                        ri == row as int,
                        py == y0 as usize + row,
                        py < HEIGHT,
                        b <= 8,
                        mem0 == old(self)@.mem,
                        i0 == old(self)@.i,
                        scr0 == old(self)@.screen,
                        sprite_row == mem0[wrap_addr(i0 + ri)],
                        self@ == (Chip8View {
                            screen: self@.screen,
                            dirty: self@.dirty,
                            ..old(self)@
                        }),
                        self.display.screen@.len() == 2048,
                        forall|p: int|
                            0 <= p < 2048 ==> self.display.screen@[p] == (scr0[p]
                                != covers_partial(mem0, i0, x0, y0, ri, b as int, p)),
                        collision == (exists|p: int|
                            0 <= p < 2048 && scr0[p] && #[trigger] covers_partial(
                                mem0,
                                i0,
                                x0,
                                y0,
                                ri,
                                b as int,
                                p,
                            )),
                        self.display.is_dirty == (old(self)@.dirty || (exists|p: int|
                            0 <= p < 2048 && #[trigger] covers_partial(
                                mem0,
                                i0,
                                x0,
                                y0,
                                ri,
                                b as int,
                                p,
                            ))),
                    decreases 8 - b,
                {
                    let px: usize = x0 as usize + b;
                    let ghost bi = b as int;
                    if px < WIDTH {
                        let shift: u8 = (7 - b) as u8;
                        let bit: u8 = (sprite_row >> shift) & 1;
                        proof {
                            assert(sprite_bit(mem0[wrap_addr(i0 + ri)], bi) == (bit == 1));
                        }
                        if bit == 1 {
                            let was: bool = self.display.toggle(px, py);
                            if was {
                                collision = true;
                            }
                            proof {
                                let p0 = px as int + 64 * (py as int);
                                lemma_fundamental_div_mod_converse(p0, 64, py as int, px as int);
                                assert(0 <= p0 < 2048);
                                assert(!covers_partial(mem0, i0, x0, y0, ri, bi, p0));
                                assert(covers_partial(mem0, i0, x0, y0, ri, bi + 1, p0));
                                assert(was == scr0[p0]);
                                assert forall|p: int| 0 <= p < 2048 && p != p0 implies
                                    covers_partial(mem0, i0, x0, y0, ri, bi + 1, p)
                                        == covers_partial(mem0, i0, x0, y0, ri, bi, p) by {
                                    lemma_fundamental_div_mod(p, 64);
                                }
                                assert forall|p: int| 0 <= p < 2048 implies
                                    self.display.screen@[p] == (scr0[p] != covers_partial(
                                        mem0,
                                        i0,
                                        x0,
                                        y0,
                                        ri,
                                        bi + 1,
                                        p,
                                    )) by {
                                    if p != p0 {
                                        assert(self.display.screen@[p] == (scr0[p]
                                            != covers_partial(mem0, i0, x0, y0, ri, bi, p)));
                                    }
                                }
                                assert((exists|p: int|
                                    0 <= p < 2048 && scr0[p] && #[trigger] covers_partial(
                                        mem0,
                                        i0,
                                        x0,
                                        y0,
                                        ri,
                                        bi + 1,
                                        p,
                                    )) == collision) by {
                                    if collision {
                                        if was {
                                            assert(scr0[p0] && covers_partial(
                                                mem0,
                                                i0,
                                                x0,
                                                y0,
                                                ri,
                                                bi + 1,
                                                p0,
                                            ));
                                        } else {
                                            let pw = choose|p: int|
                                                0 <= p < 2048 && scr0[p] && #[trigger]
                                                    covers_partial(mem0, i0, x0, y0, ri, bi, p);
                                            assert(covers_partial(
                                                mem0,
                                                i0,
                                                x0,
                                                y0,
                                                ri,
                                                bi + 1,
                                                pw,
                                            ));
                                        }
                                    } else {
                                        assert forall|p: int|
                                            0 <= p < 2048 && scr0[p] implies !covers_partial(
                                                mem0,
                                                i0,
                                                x0,
                                                y0,
                                                ri,
                                                bi + 1,
                                                p,
                                            ) by {
                                            lemma_fundamental_div_mod(p, 64);
                                        }
                                    }
                                }
                                assert(covers_partial(mem0, i0, x0, y0, ri, bi + 1, p0));
                            }
                        } else {
                            proof {
                                assert forall|p: int| 0 <= p < 2048 implies covers_partial(
                                    mem0,
                                    i0,
                                    x0,
                                    y0,
                                    ri,
                                    bi + 1,
                                    p,
                                ) == covers_partial(mem0, i0, x0, y0, ri, bi, p) by {}
                                lemma_partial_equiv(scr0, mem0, i0, x0, y0, ri, bi + 1, ri, bi);
                            }
                        }
                    } else {
                        proof {
                            assert forall|p: int| 0 <= p < 2048 implies covers_partial(
                                mem0,
                                i0,
                                x0,
                                y0,
                                ri,
                                bi + 1,
                                p,
                            ) == covers_partial(mem0, i0, x0, y0, ri, bi, p) by {}
                            lemma_partial_equiv(scr0, mem0, i0, x0, y0, ri, bi + 1, ri, bi);
                        }
                    }
                    b = b + 1;
                }
                proof {
                    assert forall|p: int| 0 <= p < 2048 implies covers_partial(
                        mem0,
                        i0,
                        x0,
                        y0,
                        ri + 1,
                        0,
                        p,
                    ) == covers_partial(mem0, i0, x0, y0, ri, 8, p) by {}
                    lemma_partial_equiv(scr0, mem0, i0, x0, y0, ri + 1, 0, ri, 8);
                }
            } else {
                proof {
                    assert forall|p: int| 0 <= p < 2048 implies covers_partial(
                        mem0,
                        i0,
                        x0,
                        y0,
                        ri + 1,
                        0,
                        p,
                    ) == covers_partial(mem0, i0, x0, y0, ri, 0, p) by {
                        lemma_fundamental_div_mod(p, 64);
                        assert(p / 64 < 32);
                    }
                    lemma_partial_equiv(scr0, mem0, i0, x0, y0, ri + 1, 0, ri, 0);
                }
            }
            row = row + 1;
        }
        proof {
            let ri = rows as int;
            assert forall|p: int| 0 <= p < 2048 implies covers_partial(
                mem0,
                i0,
                x0,
                y0,
                ri,
                0,
                p,
            ) == sprite_covers(mem0, i0, x0, y0, ri, p) by {}
            assert(collision == draw_collision(scr0, mem0, i0, x0, y0, ri)) by {
                if collision {
                    let pw = choose|p: int|
                        0 <= p < 2048 && scr0[p] && #[trigger] covers_partial(
                            mem0,
                            i0,
                            x0,
                            y0,
                            ri,
                            0,
                            p,
                        );
                    assert(0 <= pw < scr0.len() && scr0[pw] && sprite_covers(
                        mem0,
                        i0,
                        x0,
                        y0,
                        ri,
                        pw,
                    ));
                } else {
                    if draw_collision(scr0, mem0, i0, x0, y0, ri) {
                        let pw = choose|p: int|
                            0 <= p < scr0.len() && scr0[p] && #[trigger] sprite_covers(
                                mem0,
                                i0,
                                x0,
                                y0,
                                ri,
                                p,
                            );
                        assert(0 <= pw < 2048 && scr0[pw] && covers_partial(
                            mem0,
                            i0,
                            x0,
                            y0,
                            ri,
                            0,
                            pw,
                        ));
                    }
                }
            }
            assert(self.display.is_dirty == (old(self)@.dirty || draw_any(
                mem0,
                i0,
                x0,
                y0,
                ri,
            ))) by {
                if exists|p: int|
                    0 <= p < 2048 && #[trigger] covers_partial(mem0, i0, x0, y0, ri, 0, p) {
                    let pw = choose|p: int|
                        0 <= p < 2048 && #[trigger] covers_partial(mem0, i0, x0, y0, ri, 0, p);
                    assert(0 <= pw < 2048 && sprite_covers(mem0, i0, x0, y0, ri, pw));
                }
                if draw_any(mem0, i0, x0, y0, ri) {
                    let pw = choose|p: int|
                        0 <= p < 2048 && #[trigger] sprite_covers(mem0, i0, x0, y0, ri, p);
                    assert(0 <= pw < 2048 && covers_partial(mem0, i0, x0, y0, ri, 0, pw));
                }
            }
            assert(self.display.screen@ =~= draw_screen(scr0, mem0, i0, x0, y0, ri));
            assert(self@ =~= (Chip8View {
                screen: draw_screen(scr0, mem0, i0, x0, y0, ri),
                dirty: old(self)@.dirty || draw_any(mem0, i0, x0, y0, ri),
                ..old(self)@
            }));
        }
        collision
    }

    /// The key-wait instruction: latch a pressed key, or consume the
    /// latch once its key is released, storing the key into register `x`
    /// and advancing; otherwise leave the program counter alone so the
    /// instruction re-runs next cycle.
    fn wait_key(&mut self, x: usize)
        requires
            old(self).wf(),
            x < 16,
        ensures
            final(self).wf(),
            final(self)@ == step_wait_key(old(self)@, x as int),
    {
        match self.keypad.waiting_for_release {
            Some(key) => {
                if !self.keypad.keys[key as usize] {
                    self.keypad.waiting_for_release = None;
                    self.v.set(x, key);
                    self.pc = (self.pc + 2) % (MEM_SIZE as u16);
                }
            },
            None => {
                let mut k: usize = 0;
                while k < 16
                    invariant
                        old(self).wf(),
                        old(self)@.waiting is None,
                        k <= 16,
                        match self.keypad.waiting_for_release {
                            Some(latched) => latched < 16,
                            None => true,
                        },
                        self@ == (Chip8View {
                            waiting: wait_pick(old(self)@.keys, k as int),
                            ..old(self)@
                        }),
                    decreases 16 - k,
                {
                    if self.keypad.keys[k] {
                        self.keypad.waiting_for_release = Some(k as u8);
                    }
                    k = k + 1;
                }
            },
        }
    }

    /// The value of general-purpose register `x`.
    pub fn reg(&self, x: u8) -> (r: u8)
        requires
            self.wf(),
            x < 16,
        ensures
            r == self@.v[x as int],
    {
        self.v[x as usize]
    }

    /// The program counter.
    pub fn pc(&self) -> (r: u16)
        ensures
            r == self@.pc,
    {
        self.pc
    }

    /// The index register.
    pub fn index(&self) -> (r: u16)
        ensures
            r == self@.i,
    {
        self.i
    }

    /// The stack pointer.
    pub fn sp(&self) -> (r: u16)
        ensures
            r == self@.sp,
    {
        self.sp
    }

    /// The delay timer's value.
    pub fn delay_timer(&self) -> (r: u8)
        ensures
            r == self@.dt,
    {
        self.dt
    }

    /// The sound timer's value.
    pub fn sound_timer(&self) -> (r: u8)
        ensures
            r == self@.st,
    {
        self.st
    }

    /// The return address in stack slot `d`.
    pub fn stack_at(&self, d: usize) -> (r: u16)
        requires
            self.wf(),
            d < 16,
        ensures
            r == self@.stack[d as int],
    {
        self.stack[d]
    }

    /// The byte at memory address `a`.
    pub fn mem_at(&self, a: usize) -> (r: u8)
        requires
            self.wf(),
            a < MEM_SIZE,
        ensures
            r == self@.mem[a as int],
    {
        self.memory[a]
    }

    /// Wrapping byte addition.
    fn add_wrap(a: u8, b: u8) -> (r: u8)
        ensures
            r == wrap_add8(a, b),
    {
        if a as u16 + b as u16 > 255 {
            ((a as u16 + b as u16) - 256) as u8
        } else {
            a + b
        }
    }

    /// Wrapping byte subtraction.
    fn sub_wrap(a: u8, b: u8) -> (r: u8)
        ensures
            r == wrap_sub8(a, b),
    {
        if a >= b {
            a - b
        } else {
            ((a as u16 + 256) - (b as u16)) as u8
        }
    }

    /// Decrements both timers, saturating at zero.
    fn update_timers(&mut self)
        requires
            old(self).wf(),
        ensures
            final(self).wf(),
            final(self)@ == tick_timers(old(self)@),
    {
        if self.dt > 0 {
            self.dt = self.dt - 1;
        }
        if self.st > 0 {
            self.st = self.st - 1;
        }
    }

    /// Runs exactly one fetch-decode-execute cycle: the timers tick, the
    /// big-endian word at the program counter is fetched, decoded into
    /// its four nibbles, and executed; the program counter advances by
    /// two unless the instruction set it itself. The whole transition is
    /// `cycle` of the abstract machine, up to the one byte the random
    /// instruction draws. A fatal error (unknown opcode, stack overflow
    /// or underflow) is returned exactly when `cycle` says so, and then
    /// only the timers have moved.
    pub fn run(&mut self) -> (r: Result<(), Chip8Error>)
        requires
            old(self).wf(),
        ensures
            final(self).wf(),
            exists|rnd: u8| final(self)@ == cycle_post(old(self)@, rnd),
            r == cycle_result(old(self)@),
    {
        self.update_timers();
        let ghost t = self@;
        let hi: u8 = self.memory[self.pc as usize];
        let lo: u8 = self.memory[(self.pc as usize + 1) % MEM_SIZE];
        let opcode: u16 = ((hi as u16) << 8) | (lo as u16);
        let op1: u16 = opcode >> 12;
        let x16: u16 = (opcode >> 8) & 0xF;
        let y16: u16 = (opcode >> 4) & 0xF;
        let n16: u16 = opcode & 0xF;
        let kk: u8 = (opcode & 0xFF) as u8;
        let addr: u16 = opcode & 0xFFF;
        proof {
            assert(opcode == fetch_word(t));
            assert((opcode >> 8) & 0xF < 16 && (opcode >> 4) & 0xF < 16 && (opcode & 0xF) < 16
                && (opcode & 0xFFF) < 4096) by (bit_vector);
        }
        let x: usize = x16 as usize;
        let y: usize = y16 as usize;
        match op1 {
            0x0 => {
                if opcode == 0x00E0 {
                    // CLS: clear the screen.
                    self.display.cls();
                    self.advance_pc();
                    proof {
                        assert(self@ == cycle_post(old(self)@, 0));
                        assert(cycle_err(old(self)@) is None);
                    }
                    Ok(())
                } else if opcode == 0x00EE {
                    // RET: pop the return address.
                    if self.sp == 0 {
                        let e = Chip8Error::StackUnderflow { opcode, pc: self.pc };
                        proof {
                            assert(self@ == cycle_post(old(self)@, 0));
                            assert(cycle_err(old(self)@) == Some(e));
                        }
                        return Err(e);
                    }
                    let top: u16 = self.stack[self.sp as usize];
                    self.pc = top;
                    self.sp = self.sp - 1;
                    proof {
                        assert(self@ == cycle_post(old(self)@, 0));
                        assert(cycle_err(old(self)@) is None);
                    }
                    Ok(())
                } else {
                    // SYS: a machine-code subroutine; a no-op here.
                    self.advance_pc();
                    proof {
                        assert(self@ == cycle_post(old(self)@, 0));
                        assert(cycle_err(old(self)@) is None);
                    }
                    Ok(())
                }
            },
            0x1 => {
                // JP addr.
                self.pc = addr;
                proof {
                    assert(self@ == cycle_post(old(self)@, 0));
                    assert(cycle_err(old(self)@) is None);
                }
                Ok(())
            },
            0x2 => {
                // CALL addr: push the address of the next instruction.
                if self.sp >= 15 {
                    let e = Chip8Error::StackOverflow { opcode, pc: self.pc };
                    proof {
                        assert(self@ == cycle_post(old(self)@, 0));
                        assert(cycle_err(old(self)@) == Some(e));
                    }
                    return Err(e);
                }
                let ret: u16 = (self.pc + 2) % (MEM_SIZE as u16);
                self.sp = self.sp + 1;
                self.stack.set(self.sp as usize, ret);
                self.pc = addr;
                proof {
                    assert(self@ == cycle_post(old(self)@, 0));
                    assert(cycle_err(old(self)@) is None);
                }
                Ok(())
            },
            0x3 => {
                // SE Vx, byte.
                let cond: bool = self.v[x] == kk;
                self.skip_pc(cond);
                proof {
                    assert(self@ == cycle_post(old(self)@, 0));
                    assert(cycle_err(old(self)@) is None);
                }
                Ok(())
            },
            0x4 => {
                // SNE Vx, byte.
                let cond: bool = self.v[x] != kk;
                self.skip_pc(cond);
                proof {
                    assert(self@ == cycle_post(old(self)@, 0));
                    assert(cycle_err(old(self)@) is None);
                }
                Ok(())
            },
            0x5 => {
                // SE Vx, Vy.
                if n16 != 0 {
                    let e = Chip8Error::UnknownOpcode { opcode, pc: self.pc };
                    proof {
                        assert(self@ == cycle_post(old(self)@, 0));
                        assert(cycle_err(old(self)@) == Some(e));
                    }
                    return Err(e);
                }
                let cond: bool = self.v[x] == self.v[y];
                self.skip_pc(cond);
                proof {
                    assert(self@ == cycle_post(old(self)@, 0));
                    assert(cycle_err(old(self)@) is None);
                }
                Ok(())
            },
            0x6 => {
                // LD Vx, byte.
                self.v.set(x, kk);
                self.advance_pc();
                proof {
                    assert(self@ == cycle_post(old(self)@, 0));
                    assert(cycle_err(old(self)@) is None);
                }
                Ok(())
            },
            0x7 => {
                // ADD Vx, byte (no carry flag).
                let res: u8 = Chip8::add_wrap(self.v[x], kk);
                self.v.set(x, res);
                self.advance_pc();
                proof {
                    assert(self@ == cycle_post(old(self)@, 0));
                    assert(cycle_err(old(self)@) is None);
                }
                Ok(())
            },
            0x8 => {
                let vx: u8 = self.v[x];
                let vy: u8 = self.v[y];
                match n16 {
                    0x0 => {
                        // LD Vx, Vy.
                        self.v.set(x, vy);
                    },
                    0x1 => {
                        // OR Vx, Vy.
                        self.v.set(x, vx | vy);
                    },
                    0x2 => {
                        // AND Vx, Vy.
                        self.v.set(x, vx & vy);
                    },
                    0x3 => {
                        // XOR Vx, Vy.
                        self.v.set(x, vx ^ vy);
                    },
                    0x4 => {
                        // ADD Vx, Vy: the carry, from the original operands,
                        // lands in the flags register after the sum.
                        let carry: u8 = if vx as u16 + vy as u16 > 255 {
                            1
                        } else {
                            0
                        };
                        self.v.set(x, Chip8::add_wrap(vx, vy));
                        self.v.set(15, carry);
                    },
                    0x5 => {
                        // SUB Vx, Vy: the not-borrow flag is written first,
                        // from the original operands.
                        let flag: u8 = if vx > vy {
                            1
                        } else {
                            0
                        };
                        self.v.set(15, flag);
                        self.v.set(x, Chip8::sub_wrap(vx, vy));
                    },
                    0x6 => {
                        // SHR Vx: the shifted-out bit first, then the shift.
                        self.v.set(15, vx & 1);
                        self.v.set(x, vx >> 1);
                    },
                    0x7 => {
                        // SUBN Vx, Vy: Vy - Vx, flag from original operands.
                        let flag: u8 = if vy > vx {
                            1
                        } else {
                            0
                        };
                        self.v.set(x, Chip8::sub_wrap(vy, vx));
                        self.v.set(15, flag);
                    },
                    0xE => {
                        // SHL Vx: the shifted-out bit first, then the shift.
                        self.v.set(15, vx >> 7);
                        self.v.set(x, vx << 1);
                    },
                    _ => {
                        let e = Chip8Error::UnknownOpcode { opcode, pc: self.pc };
                        proof {
                            assert(self@ == cycle_post(old(self)@, 0));
                            assert(cycle_err(old(self)@) == Some(e));
                        }
                        return Err(e);
                    },
                }
                self.advance_pc();
                proof {
                    assert(self@ == cycle_post(old(self)@, 0));
                    assert(cycle_err(old(self)@) is None);
                }
                Ok(())
            },
            0x9 => {
                // SNE Vx, Vy.
                if n16 != 0 {
                    let e = Chip8Error::UnknownOpcode { opcode, pc: self.pc };
                    proof {
                        assert(self@ == cycle_post(old(self)@, 0));
                        assert(cycle_err(old(self)@) == Some(e));
                    }
                    return Err(e);
                }
                let cond: bool = self.v[x] != self.v[y];
                self.skip_pc(cond);
                proof {
                    assert(self@ == cycle_post(old(self)@, 0));
                    assert(cycle_err(old(self)@) is None);
                }
                Ok(())
            },
            0xA => {
                // LD I, addr.
                self.i = addr;
                self.advance_pc();
                proof {
                    assert(self@ == cycle_post(old(self)@, 0));
                    assert(cycle_err(old(self)@) is None);
                }
                Ok(())
            },
            0xB => {
                // JP V0, addr: jump to V0 + addr, wrapped.
                self.pc = (self.v[0] as u16 + addr) % (MEM_SIZE as u16);
                proof {
                    assert(self@ == cycle_post(old(self)@, 0));
                    assert(cycle_err(old(self)@) is None);
                }
                Ok(())
            },
            0xC => {
                // RND Vx, byte: a random byte masked by the immediate.
                let rnd: u8 = random_byte();
                self.v.set(x, rnd & kk);
                self.advance_pc();
                proof {
                    assert(self@ == cycle_post(old(self)@, rnd));
                    assert(cycle_err(old(self)@) is None);
                }
                Ok(())
            },
            0xD => {
                // DRW Vx, Vy, nibble: XOR-draw a sprite; collision to VF.
                let x0: u8 = self.v[x];
                let y0: u8 = self.v[y];
                let col: bool = self.draw_sprite(x0, y0, n16 as u8);
                let flag: u8 = if col {
                    1
                } else {
                    0
                };
                self.v.set(15, flag);
                self.advance_pc();
                proof {
                    assert(self@ == cycle_post(old(self)@, 0));
                    assert(cycle_err(old(self)@) is None);
                }
                Ok(())
            },
            0xE => {
                let vx: u8 = self.v[x];
                let key: usize = (vx & 0xF) as usize;
                proof {
                    assert(vx & 0xF < 16) by (bit_vector);
                }
                if kk == 0x9E {
                    // SKP Vx: skip if the key named by Vx is down.
                    let cond: bool = self.keypad.keys[key];
                    self.skip_pc(cond);
                    proof {
                        assert(self@ == cycle_post(old(self)@, 0));
                        assert(cycle_err(old(self)@) is None);
                    }
                    Ok(())
                } else if kk == 0xA1 {
                    // SKNP Vx: skip if that key is up.
                    let cond: bool = !self.keypad.keys[key];
                    self.skip_pc(cond);
                    proof {
                        assert(self@ == cycle_post(old(self)@, 0));
                        assert(cycle_err(old(self)@) is None);
                    }
                    Ok(())
                } else {
                    let e = Chip8Error::UnknownOpcode { opcode, pc: self.pc };
                    proof {
                        assert(self@ == cycle_post(old(self)@, 0));
                        assert(cycle_err(old(self)@) == Some(e));
                    }
                    Err(e)
                }
            },
            _ => {
                if kk == 0x07 {
                    // LD Vx, DT.
                    let dt: u8 = self.dt;
                    self.v.set(x, dt);
                    self.advance_pc();
                    proof {
                        assert(self@ == cycle_post(old(self)@, 0));
                        assert(cycle_err(old(self)@) is None);
                    }
                    Ok(())
                } else if kk == 0x0A {
                    // LD Vx, K: the blocking key wait.
                    self.wait_key(x);
                    proof {
                        assert(self@ == cycle_post(old(self)@, 0));
                        assert(cycle_err(old(self)@) is None);
                    }
                    Ok(())
                } else if kk == 0x15 {
                    // LD DT, Vx.
                    self.dt = self.v[x];
                    self.advance_pc();
                    proof {
                        assert(self@ == cycle_post(old(self)@, 0));
                        assert(cycle_err(old(self)@) is None);
                    }
                    Ok(())
                } else if kk == 0x18 {
                    // LD ST, Vx.
                    self.st = self.v[x];
                    self.advance_pc();
                    proof {
                        assert(self@ == cycle_post(old(self)@, 0));
                        assert(cycle_err(old(self)@) is None);
                    }
                    Ok(())
                } else if kk == 0x1E {
                    // ADD I, Vx, wrapped at the memory size.
                    self.i = (self.i + self.v[x] as u16) % (MEM_SIZE as u16);
                    self.advance_pc();
                    proof {
                        assert(self@ == cycle_post(old(self)@, 0));
                        assert(cycle_err(old(self)@) is None);
                    }
                    Ok(())
                } else if kk == 0x29 {
                    // LD F, Vx: the address of a font glyph.
                    self.i = FONT_START as u16 + (self.v[x] as u16) * 5;
                    self.advance_pc();
                    proof {
                        assert(self@ == cycle_post(old(self)@, 0));
                        assert(cycle_err(old(self)@) is None);
                    }
                    Ok(())
                } else if kk == 0x33 {
                    // LD B, Vx: hundreds, tens and ones to memory at I.
                    let vx: u8 = self.v[x];
                    let i0: usize = self.i as usize;
                    self.memory.set(i0, vx / 100);
                    self.memory.set((i0 + 1) % MEM_SIZE, (vx % 100) / 10);
                    self.memory.set((i0 + 2) % MEM_SIZE, vx % 10);
                    self.advance_pc();
                    proof {
                        assert(self@ == cycle_post(old(self)@, 0));
                        assert(cycle_err(old(self)@) is None);
                    }
                    Ok(())
                } else if kk == 0x55 {
                    // LD [I], Vx: store registers 0..=x.
                    self.store_block(x);
                    self.advance_pc();
                    proof {
                        assert(self@ == cycle_post(old(self)@, 0));
                        assert(cycle_err(old(self)@) is None);
                    }
                    Ok(())
                } else if kk == 0x65 {
                    // LD Vx, [I]: load registers 0..=x.
                    self.load_block(x);
                    self.advance_pc();
                    proof {
                        assert(self@ == cycle_post(old(self)@, 0));
                        assert(cycle_err(old(self)@) is None);
                    }
                    Ok(())
                } else {
                    let e = Chip8Error::UnknownOpcode { opcode, pc: self.pc };
                    proof {
                        assert(self@ == cycle_post(old(self)@, 0));
                        assert(cycle_err(old(self)@) == Some(e));
                    }
                    Err(e)
                }
            },
        }
    }
}

/// Relies on rand::random: one uniformly distributed byte from the
/// thread-local generator; nothing is promised of its value.
#[verifier::external_body]
fn random_byte() -> u8 {
    rand::random::<u8>()
}

} // verus!
