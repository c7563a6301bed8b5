//! The sixteen-key input pad: a pressed/released snapshot per tick, plus
//! the "awaiting release" latch used by the interpreter's blocking
//! key-wait instruction.
//!
//! Keys are logical indices 0..=15 (the hexadecimal pad). Mapping a
//! physical input device onto these indices is the driver's concern.
//!
//! This module also holds the font table: sixteen glyphs of five bytes
//! each, one glyph per hexadecimal digit, copied into low memory at
//! construction time.

use vstd::prelude::*;

verus! {

/// Pressed state for the sixteen logical keys, and the key (if any) whose
/// release the key-wait instruction is currently waiting on. The latch is
/// written only by the interpreter's key-wait instruction.
pub struct Keypad {
    pub keys: Vec<bool>,
    pub waiting_for_release: Option<u8>,
}

impl Keypad {
    /// One pressed flag per logical key; a latched key is a real key.
    pub open spec fn wf(&self) -> bool {
        &&& self.keys@.len() == 16
        &&& match self.waiting_for_release {
            Some(k) => k < 16,
            None => true,
        }
    }

    /// A fresh keypad: no key down, no release awaited.
    pub fn new() -> (k: Keypad)
        ensures
            k.wf(),
            k.keys@ == Seq::new(16, |i: int| false),
            k.waiting_for_release is None,
    {
        let mut keys: Vec<bool> = Vec::new();
        let mut i: usize = 0;
        while i < 16
            invariant
                i <= 16,
                keys@.len() == i,
                forall|j: int| 0 <= j < i ==> !keys@[j],
            decreases 16 - i,
        {
            keys.push(false);
            i = i + 1;
        }
        proof {
            assert(keys@ =~= Seq::new(16, |i: int| false));
        }
        Keypad { keys, waiting_for_release: None }
    }

    /// Marks every key released; the latch is untouched.
    fn clear(&mut self)
        requires
            old(self).wf(),
        ensures
            final(self).wf(),
            final(self).keys@ == Seq::new(16, |i: int| false),
            final(self).waiting_for_release == old(self).waiting_for_release,
    {
        let mut i: usize = 0;
        while i < 16
            invariant
                i <= 16,
                self.keys@.len() == 16,
                self.waiting_for_release == old(self).waiting_for_release,
                old(self).wf(),
                forall|j: int| 0 <= j < i ==> !self.keys@[j],
            decreases 16 - i,
        {
            self.keys.set(i, false);
            i = i + 1;
        }
        proof {
            assert(self.keys@ =~= Seq::new(16, |i: int| false));
        }
    }

    /// Replaces the whole pressed-state snapshot for this tick: exactly the
    /// listed keys are down, every other key is up. The latch is untouched.
    pub fn set_pressed_keys(&mut self, pressed: &Vec<u8>)
        requires
            old(self).wf(),
            forall|j: int| 0 <= j < pressed@.len() ==> pressed@[j] < 16,
        ensures
            final(self).wf(),
            final(self).keys@.len() == 16,
            forall|k: int|
                0 <= k < 16 ==> final(self).keys@[k] == pressed@.contains(k as u8),
            final(self).waiting_for_release == old(self).waiting_for_release,
    {
        self.clear();
        let mut j: usize = 0;
        while j < pressed.len()
            invariant
                j <= pressed@.len(),
                forall|m: int| 0 <= m < pressed@.len() ==> pressed@[m] < 16,
                self.keys@.len() == 16,
                self.waiting_for_release == old(self).waiting_for_release,
                old(self).wf(),
                forall|k: int|
                    0 <= k < 16 ==> self.keys@[k] == pressed@.subrange(0, j as int).contains(
                        k as u8,
                    ),
            decreases pressed@.len() - j,
        {
            let key: u8 = pressed[j];
            self.keys.set(key as usize, true);
            j = j + 1;
            proof {
                assert forall|k: int| 0 <= k < 16 implies self.keys@[k] == pressed@.subrange(
                    0,
                    j as int,
                ).contains(k as u8) by {
                    let sub = pressed@.subrange(0, j as int);
                    if self.keys@[k] {
                        if k == key as int {
                            assert(sub[j - 1] == k as u8);
                        } else {
                            let w = choose|w: int|
                                0 <= w < j - 1 && #[trigger] pressed@.subrange(0, j - 1)[w]
                                    == k as u8;
                            assert(sub[w] == k as u8);
                        }
                    } else {
                        assert forall|w: int| 0 <= w < j implies sub[w] != k as u8 by {
                            if w < j - 1 {
                                assert(pressed@.subrange(0, j - 1)[w] == sub[w]);
                            }
                        }
                    }
                }
            }
        }
        proof {
            assert(pressed@.subrange(0, pressed@.len() as int) =~= pressed@);
        }
    }

    /// Whether the given logical key is currently held down.
    pub fn is_down(&self, key: u8) -> (down: bool)
        requires
            self.wf(),
            key < 16,
        ensures
            down == self.keys@[key as int],
    {
        self.keys[key as usize]
    }
}

/// The font table's contents: sixteen glyphs of five bytes each, one per
/// hexadecimal digit, each glyph four pixels wide and five tall.
pub open spec fn spec_font() -> Seq<u8> {
    seq![
        0xF0, 0x90, 0x90, 0x90, 0xF0,
        0x20, 0x60, 0x20, 0x20, 0x70,
        0xF0, 0x10, 0xF0, 0x80, 0xF0,
        0xF0, 0x10, 0xF0, 0x10, 0xF0,
        0x90, 0x90, 0xF0, 0x10, 0x10,
        0xF0, 0x80, 0xF0, 0x10, 0xF0,
        0xF0, 0x80, 0xF0, 0x90, 0xF0,
        0xF0, 0x10, 0x20, 0x40, 0x40,
        0xF0, 0x90, 0xF0, 0x90, 0xF0,
        0xF0, 0x90, 0xF0, 0x10, 0xF0,
        0xF0, 0x90, 0xF0, 0x90, 0x90,
        0xE0, 0x90, 0xE0, 0x90, 0xE0,
        0xF0, 0x80, 0x80, 0x80, 0xF0,
        0xE0, 0x90, 0x90, 0x90, 0xE0,
        0xF0, 0x80, 0xF0, 0x80, 0xF0,
        0xF0, 0x80, 0xF0, 0x80, 0x80,
    ]
}

/// The font sprites as bytes, glyph by glyph: the five rows of the glyph
/// for digit `d` are the bytes at indices `5 * d` through `5 * d + 4`.
pub fn font_sprites() -> (f: [u8; 80])
    ensures
        f@ == spec_font(),
{
    let f: [u8; 80] = [
        0xF0, 0x90, 0x90, 0x90, 0xF0,
        0x20, 0x60, 0x20, 0x20, 0x70,
        0xF0, 0x10, 0xF0, 0x80, 0xF0,
        0xF0, 0x10, 0xF0, 0x10, 0xF0,
        0x90, 0x90, 0xF0, 0x10, 0x10,
        0xF0, 0x80, 0xF0, 0x10, 0xF0,
        0xF0, 0x80, 0xF0, 0x90, 0xF0,
        0xF0, 0x10, 0x20, 0x40, 0x40,
        0xF0, 0x90, 0xF0, 0x90, 0xF0,
        0xF0, 0x90, 0xF0, 0x10, 0xF0,
        0xF0, 0x90, 0xF0, 0x90, 0x90,
        0xE0, 0x90, 0xE0, 0x90, 0xE0,
        0xF0, 0x80, 0x80, 0x80, 0xF0,
        0xE0, 0x90, 0x90, 0x90, 0xE0,
        0xF0, 0x80, 0xF0, 0x80, 0xF0,
        0xF0, 0x80, 0xF0, 0x80, 0x80,
    ];
    proof {
        assert(f@ =~= spec_font());
    }
    f
}

} // verus!
