//! General laws of the machine, proved once and for all inputs.

use vstd::prelude::*;

use crate::state::{
    KeyWait, Step, VmView, draw_cell, draw_shape, is_sc,
    lemma_cell_bounds, lemma_decode_bounds, lemma_draw_shape_wf, pcadd, spec_display_clear,
    spec_draw_sprite, spec_math_add_reg, spec_math_sub_reg, spec_mem_reg_dump, spec_mem_reg_load,
    spec_opcode, spec_set_key, sprite_bit, step, sx, sy, wf,
};

verus! {

/// Law: executing add-register yields VX = (VX + VY) mod 256 and sets
/// register 15 to 1 exactly when the sum overflows a byte.  Register 15
/// itself cannot be the destination: the flag write overwrites it.
pub proof fn lemma_add_register(s: VmView, rnd: u8)
    requires
        wf(s),
        s.pc + 1 < s.memory.len(),
        spec_opcode(s) >> 12 == 8,
        spec_opcode(s) & 0xF == 4,
        sx(spec_opcode(s)) != 15,
    ensures
        ({
            let o = spec_opcode(s);
            let a = s.registers[sx(o)] as int;
            let b = s.registers[sy(o)] as int;
            step(s, rnd) matches Step::Next(v) && {
                &&& v.registers[sx(o)] as int == (a + b) % 256
                &&& v.registers[15] == (if a + b > 255 {
                    1u8
                } else {
                    0u8
                })
                &&& v.pc == pcadd(s.pc, 2)
            }
        }),
{
    let o = spec_opcode(s);
    lemma_decode_bounds(o);
    assert(o != 0x00FD && o != 0x00EE && o != 0x00E0 && o != 0x00FB && o != 0x00FC && o != 0x00FE
        && o != 0x00FF) by (bit_vector)
        requires
            o >> 12 == 8,
    ;
    assert(step(s, rnd) == Step::Next(
        VmView { pc: pcadd(s.pc, 2), ..spec_math_add_reg(s, o).0 },
    ));
}

/// Law: executing sub-register yields VX = (VX - VY) mod 256 and sets
/// register 15 to 1 exactly when no borrow occurs (VX >= VY).  Register 15
/// itself cannot be the destination: the flag write overwrites it.
pub proof fn lemma_sub_register(s: VmView, rnd: u8)
    requires
        wf(s),
        s.pc + 1 < s.memory.len(),
        spec_opcode(s) >> 12 == 8,
        spec_opcode(s) & 0xF == 5,
        sx(spec_opcode(s)) != 15,
    ensures
        ({
            let o = spec_opcode(s);
            let a = s.registers[sx(o)] as int;
            let b = s.registers[sy(o)] as int;
            step(s, rnd) matches Step::Next(v) && {
                &&& v.registers[sx(o)] as int == (a - b) % 256
                &&& v.registers[15] == (if a >= b {
                    1u8
                } else {
                    0u8
                })
                &&& v.pc == pcadd(s.pc, 2)
            }
        }),
{
    let o = spec_opcode(s);
    lemma_decode_bounds(o);
    assert(o != 0x00FD && o != 0x00EE && o != 0x00E0 && o != 0x00FB && o != 0x00FC && o != 0x00FE
        && o != 0x00FF) by (bit_vector)
        requires
            o >> 12 == 8,
    ;
    assert(step(s, rnd) == Step::Next(
        VmView { pc: pcadd(s.pc, 2), ..spec_math_sub_reg(s, o).0 },
    ));
}

/// Law: clearing the screen is idempotent.  One clear blanks the whole
/// framebuffer and owes a refresh; a second clear produces the identical
/// state.
pub proof fn lemma_clear_idempotent(s: VmView)
    ensures
        spec_display_clear(s).0.draw,
        spec_display_clear(s).0.gfx == Seq::new(s.gfx.len(), |p: int| false),
        spec_display_clear(spec_display_clear(s).0).0 == spec_display_clear(s).0,
{
    let s1 = spec_display_clear(s).0;
    assert(spec_display_clear(s1).0.gfx =~= s1.gfx);
}

/// Law: a register dump followed by a register load of the same count at
/// the same address restores the register file exactly.  On CHIP-8 and
/// XO-Chip each operation advances the address register by X + 1; SuperChip
/// leaves it unchanged, so there the two operations compose directly.
pub proof fn lemma_dump_load_round_trip(s: VmView, o: u16)
    requires
        wf(s),
        s.i + sx(o) < s.memory.len(),
    ensures
        ({
            let x = sx(o);
            let s1 = spec_mem_reg_dump(s, o)->Ok_0.0;
            let s1r = VmView { i: s.i, ..s1 };
            let s2 = spec_mem_reg_load(s1r, o)->Ok_0.0;
            &&& spec_mem_reg_dump(s, o) is Ok
            &&& spec_mem_reg_load(s1r, o) is Ok
            &&& s2.registers == s.registers
            &&& s2.memory == s1.memory
            &&& (is_sc(s.target) ==> s1.i == s.i && s2.i == s.i)
            &&& (!is_sc(s.target) ==> s1.i as int == (s.i + x + 1) % 0x10000 && s2.i as int == (
            s.i + x + 1) % 0x10000)
        }),
{
    lemma_decode_bounds(o);
    let x = sx(o);
    let s1 = spec_mem_reg_dump(s, o)->Ok_0.0;
    let s1r = VmView { i: s.i, ..s1 };
    let s2 = spec_mem_reg_load(s1r, o)->Ok_0.0;
    assert(s2.registers =~= s.registers);
}

/// Law: drawing the same sprite twice at the same position on a cleared
/// screen restores the cleared screen; the first draw reports no collision
/// and the second reports one, provided the sprite sets at least one drawn
/// pixel.  The coordinate registers must not be register 15, which the
/// first draw overwrites with its collision flag.
pub proof fn lemma_draw_twice_collision(s: VmView, o: u16)
    requires
        wf(s),
        o >> 12 == 0xD,
        sx(o) != 15,
        sy(o) != 15,
        s.gfx == Seq::new(s.gfx.len(), |p: int| false),
        draw_shape(s, o).rows > 0 ==> draw_shape(s, o).addr + draw_shape(s, o).rows
            <= s.memory.len(),
        exists|j: int, k: int|
            0 <= j < draw_shape(s, o).rows && 0 <= k < draw_shape(s, o).cols
                && #[trigger] sprite_bit(draw_shape(s, o), j, k),
    ensures
        ({
            let s1 = spec_draw_sprite(s, o)->Ok_0.0;
            let s2 = spec_draw_sprite(s1, o)->Ok_0.0;
            &&& spec_draw_sprite(s, o) is Ok
            &&& spec_draw_sprite(s1, o) is Ok
            &&& s1.registers[15] == 0
            &&& s2.registers[15] == 1
            &&& s2.gfx == s.gfx
        }),
{
    lemma_decode_bounds(o);
    lemma_draw_shape_wf(s, o);
    let d = draw_shape(s, o);
    let glen = s.gfx.len() as int;
    let s1 = spec_draw_sprite(s, o)->Ok_0.0;
    assert(draw_shape(s1, o) == d);
    let s2 = spec_draw_sprite(s1, o)->Ok_0.0;

    // The first draw finds only unset pixels.
    if crate::state::draw_collision(d, s.gfx) {
        let (j, k) = choose|j: int, k: int|
            0 <= j < d.rows && 0 <= k < d.cols && (j < d.rows || (j == d.rows && k < 0))
                && #[trigger] sprite_bit(d, j, k) && s.gfx[draw_cell(d, j, k)];
        lemma_cell_bounds(d, glen, j, k);
        assert(false);
    }

    // The second draw toggles a pixel the first one set.
    let (j0, k0) = choose|j: int, k: int|
        0 <= j < d.rows && 0 <= k < d.cols && #[trigger] sprite_bit(d, j, k);
    lemma_cell_bounds(d, glen, j0, k0);
    assert(s1.gfx[draw_cell(d, j0, k0)]);
    assert(crate::state::draw_collision(d, s1.gfx));

    // Toggling every hit pixel twice restores the cleared screen.
    assert(s2.gfx =~= s.gfx);
}

/// Law: a wait-for-key instruction holds the program counter still while
/// no key has been captured; its first cycle arms the wait machine and the
/// following cycles leave it armed.
pub proof fn lemma_key_wait_blocks(s: VmView, rnd: u8)
    requires
        wf(s),
        s.pc + 1 < s.memory.len(),
        spec_opcode(s) >> 12 == 0xF,
        spec_opcode(s) & 0xFF == 0x0A,
        !(s.key_wait is Captured),
    ensures
        step(s, rnd) matches Step::Next(v) && {
            &&& v.pc == s.pc
            &&& v.key_wait == KeyWait::Armed
            &&& v.registers == s.registers
            &&& v.key == s.key
        },
{
    let o = spec_opcode(s);
    lemma_decode_bounds(o);
    assert(o != 0x00FD && o != 0x00EE && o != 0x00E0 && o != 0x00FB && o != 0x00FC && o != 0x00FE
        && o != 0x00FF) by (bit_vector)
        requires
            o >> 12 == 0xF,
    ;
    assert(pcadd(s.pc, 0) == s.pc) by {
        vstd::arithmetic::div_mod::lemma_small_mod(s.pc as nat, 0x10000);
    };
}

/// Law: a key that goes from released to pressed while the wait machine is
/// armed is captured, and delivering key events never moves the program
/// counter.
pub proof fn lemma_key_press_captures(s: VmView, key: u8)
    requires
        wf(s),
        key < 16,
        !s.key[key as int],
        s.key_wait == KeyWait::Armed,
    ensures
        spec_set_key(s, key, true).key_wait == KeyWait::Captured(key),
        spec_set_key(s, key, true).pc == s.pc,
        spec_set_key(s, key, true).registers == s.registers,
{
}

/// Law: once a key has been captured, the next wait-for-key cycle writes
/// it to VX, returns the wait machine to idle and advances the program
/// counter.
pub proof fn lemma_key_wait_completes(s: VmView, rnd: u8, key: u8)
    requires
        wf(s),
        s.pc + 1 < s.memory.len(),
        spec_opcode(s) >> 12 == 0xF,
        spec_opcode(s) & 0xFF == 0x0A,
        s.key_wait == KeyWait::Captured(key),
    ensures
        step(s, rnd) matches Step::Next(v) && {
            &&& v.registers == s.registers.update(sx(spec_opcode(s)), key)
            &&& v.key_wait == KeyWait::Idle
            &&& v.pc == pcadd(s.pc, 2)
        },
{
    let o = spec_opcode(s);
    lemma_decode_bounds(o);
    assert(o != 0x00FD && o != 0x00EE && o != 0x00E0 && o != 0x00FB && o != 0x00FC && o != 0x00FE
        && o != 0x00FF) by (bit_vector)
        requires
            o >> 12 == 0xF,
    ;
}

} // verus!
