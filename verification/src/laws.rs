//! Laws of the machine, proved once and for all against the abstract
//! cycle: what the register-load instruction touches, that XOR drawing
//! is its own inverse and clips at the screen edges, that a call and a
//! return round-trip the program counter and stack, and how the key-wait
//! instruction behaves while no key has been pressed and released.

use vstd::prelude::*;

use crate::step::Chip8View;
use crate::step::adv;
use crate::step::cycle_post;
use crate::step::draw_collision;
use crate::step::draw_screen;
use crate::step::fetch_word;
use crate::step::op_fam;
use crate::step::op_kk;
use crate::step::op_x;
use crate::step::sprite_covers;
use crate::step::tick_timers;
use crate::step::wait_pick;

verus! {

/// A scan over all-released keys latches nothing.
proof fn lemma_wait_pick_none(keys: Seq<bool>, n: int)
    requires
        forall|k: int| 0 <= k < n ==> !keys[k],
    ensures
        wait_pick(keys, n) is None,
    decreases n,
{
    if n > 0 {
        lemma_wait_pick_none(keys, n - 1);
    }
}

/// Whatever key the scan latches is a real key index below `n`.
proof fn lemma_wait_pick_bound(keys: Seq<bool>, n: int)
    requires
        0 <= n <= 16,
    ensures
        match wait_pick(keys, n) {
            Some(k) => k < n,
            None => true,
        },
    decreases n,
{
    if n > 0 {
        lemma_wait_pick_bound(keys, n - 1);
    }
}

/// The "set register immediate" instruction stores its immediate byte in
/// its register operand and changes no other register.
pub proof fn lemma_set_register_immediate(s: Chip8View, rnd: u8)
    requires
        s.wf(),
        op_fam(fetch_word(s)) == 0x6,
    ensures
        cycle_post(s, rnd).v[op_x(fetch_word(s))] == op_kk(fetch_word(s)),
        forall|j: int|
            0 <= j < 16 && j != op_x(fetch_word(s)) ==> cycle_post(s, rnd).v[j] == s.v[j],
{
    let w = fetch_word(s);
    assert(((w >> 8) & 0xF) < 16) by (bit_vector);
}

/// Sprite XOR drawing is its own inverse: drawing the same sprite twice
/// at the same coordinates restores the framebuffer, and the second draw
/// reports a collision exactly when some covered cell is on after the
/// first draw (which every cell the sprite set is).
pub proof fn lemma_sprite_xor_idempotent(
    screen: Seq<bool>,
    mem: Seq<u8>,
    i: u16,
    x0: u8,
    y0: u8,
    rows: int,
)
    requires
        screen.len() == 2048,
    ensures
        draw_screen(draw_screen(screen, mem, i, x0, y0, rows), mem, i, x0, y0, rows) == screen,
        draw_collision(draw_screen(screen, mem, i, x0, y0, rows), mem, i, x0, y0, rows) == (exists|
            p: int,
        |
            0 <= p < 2048 && sprite_covers(mem, i, x0, y0, rows, p) && #[trigger] draw_screen(
                screen,
                mem,
                i,
                x0,
                y0,
                rows,
            )[p]),
{
    let s1 = draw_screen(screen, mem, i, x0, y0, rows);
    assert(s1.len() == 2048);
    assert(draw_screen(s1, mem, i, x0, y0, rows) =~= screen);
    if draw_collision(s1, mem, i, x0, y0, rows) {
        let pw = choose|p: int|
            0 <= p < s1.len() && s1[p] && #[trigger] sprite_covers(mem, i, x0, y0, rows, p);
        assert(0 <= pw < 2048 && sprite_covers(mem, i, x0, y0, rows, pw) && s1[pw]);
    }
    if exists|p: int|
        0 <= p < 2048 && sprite_covers(mem, i, x0, y0, rows, p) && #[trigger] draw_screen(
            screen,
            mem,
            i,
            x0,
            y0,
            rows,
        )[p] {
        let pw = choose|p: int|
            0 <= p < 2048 && sprite_covers(mem, i, x0, y0, rows, p) && #[trigger] draw_screen(
                screen,
                mem,
                i,
                x0,
                y0,
                rows,
            )[p];
        assert(0 <= pw < s1.len() && s1[pw] && sprite_covers(mem, i, x0, y0, rows, pw));
    }
}

/// Sprites are clipped, never wrapped: a draw changes a framebuffer cell
/// only if that cell lies inside the sprite's footprint, at or right of
/// the origin column and at or below the origin row. Bits that would
/// fall past the right or bottom screen edge change nothing, and nothing
/// appears at the opposite edge.
pub proof fn lemma_sprite_clipped(
    screen: Seq<bool>,
    mem: Seq<u8>,
    i: u16,
    x0: u8,
    y0: u8,
    rows: int,
)
    requires
        screen.len() == 2048,
    ensures
        forall|p: int|
            0 <= p < 2048 && #[trigger] draw_screen(screen, mem, i, x0, y0, rows)[p] != screen[p]
                ==> x0 <= p % 64 < x0 + 8 && y0 <= p / 64 < y0 + rows,
{
}

/// A call followed by a return brings the program counter to the
/// instruction after the call site and the stack pointer back to its
/// value before the call.
pub proof fn lemma_call_return_round_trip(s: Chip8View, r1: u8, r2: u8)
    requires
        s.wf(),
        op_fam(fetch_word(s)) == 0x2,
        s.sp < 15,
        fetch_word(cycle_post(s, r1)) == 0x00EE,
    ensures
        cycle_post(cycle_post(s, r1), r2).pc == adv(s.pc),
        cycle_post(cycle_post(s, r1), r2).sp == s.sp,
{
    let s1 = cycle_post(s, r1);
    assert((0x00EEu16 >> 12) == 0) by (bit_vector);
    assert(s1.sp == s.sp + 1);
    assert(s1.stack[s1.sp as int] == adv(s.pc));
}

/// While no key at all is down, the key-wait instruction leaves the
/// whole machine alone but for the timer decrement: in particular the
/// program counter and every register keep their values, so the cycle
/// can be invoked again and again to poll.
pub proof fn lemma_key_wait_no_keys(s: Chip8View, rnd: u8)
    requires
        s.wf(),
        op_fam(fetch_word(s)) == 0xF,
        op_kk(fetch_word(s)) == 0x0A,
        s.waiting is None,
        forall|k: int| 0 <= k < 16 ==> !s.keys[k],
    ensures
        cycle_post(s, rnd) == tick_timers(s),
        cycle_post(s, rnd).pc == s.pc,
        cycle_post(s, rnd).v == s.v,
{
    lemma_wait_pick_none(s.keys, 16);
}

/// The key-wait handshake. With a key down, one cycle latches that key
/// and leaves the program counter and registers alone. Once a keypad
/// update reports the latched key released, the next cycle stores the
/// key's index into the instruction's register operand, clears the
/// latch, and advances the program counter by two.
pub proof fn lemma_key_wait_press_release(
    s: Chip8View,
    k: u8,
    keys2: Seq<bool>,
    r1: u8,
    r2: u8,
)
    requires
        s.wf(),
        op_fam(fetch_word(s)) == 0xF,
        op_kk(fetch_word(s)) == 0x0A,
        s.waiting is None,
        wait_pick(s.keys, 16) == Some(k),
        keys2.len() == 16,
        !keys2[k as int],
    ensures
        cycle_post(s, r1).pc == s.pc,
        cycle_post(s, r1).v == s.v,
        cycle_post(s, r1).waiting == Some(k),
        ({
            let s1 = Chip8View { keys: keys2, ..cycle_post(s, r1) };
            &&& cycle_post(s1, r2).pc == adv(s.pc)
            &&& cycle_post(s1, r2).v == s.v.update(op_x(fetch_word(s)), k)
            &&& cycle_post(s1, r2).waiting is None
        }),
{
    lemma_wait_pick_bound(s.keys, 16);
    let s1 = Chip8View { keys: keys2, ..cycle_post(s, r1) };
    assert(fetch_word(s1) == fetch_word(s));
}

} // verus!
