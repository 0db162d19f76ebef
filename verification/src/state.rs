//! The mathematical model of the machine.
//!
//! `VmView` is the abstract processor state; `step` is the full
//! fetch-decode-execute transition, one specification function per
//! instruction.  The executable machine in `chip8` is proved to follow
//! `step` exactly.

use vstd::prelude::*;

use crate::profile::{Profile, Target, spec_profile};

verus! {

/// A request from the machine to the host driver.
#[derive(Debug, Copy, Clone, PartialEq, Eq, Structural)]
pub enum Action {
    Quit,
}

/// An unrecoverable machine fault.  The original hardware family treats all
/// of these as fatal: the driver must stop issuing cycles.
#[derive(Debug, Copy, Clone, PartialEq, Eq, Structural)]
pub enum Fault {
    /// A return was executed with an empty call stack.
    StackUnderflow,
    /// A call was executed with a full call stack.
    StackOverflow,
    /// The fetched bit pattern matches no instruction of the target.
    UnknownOpcode(u16),
    /// An instruction addressed memory or the key vector out of range.
    OutOfBounds,
    /// A ROM image does not fit between 0x200 and the memory capacity.
    RomTooLarge,
}

/// The wait-for-keypress state machine.
#[derive(Debug, Copy, Clone, PartialEq, Eq, Structural)]
pub enum KeyWait {
    /// No wait instruction is in flight.
    Idle,
    /// A wait instruction was issued and no key has gone down since.
    Armed,
    /// A key went from released to pressed while armed; the next cycle
    /// consumes it.
    Captured(u8),
}

/// The abstract machine state.
pub ghost struct VmView {
    pub target: Target,
    pub profile: Profile,
    pub registers: Seq<u8>,
    pub user_registers: Seq<u8>,
    pub i: u16,
    pub pc: u16,
    pub memory: Seq<u8>,
    pub gfx: Seq<bool>,
    pub delay_timer: u8,
    pub sound_timer: u8,
    pub stack: Seq<u16>,
    pub sp: u8,
    pub key: Seq<bool>,
    pub draw: bool,
    pub hires: bool,
    pub key_wait: KeyWait,
}

/// The outcome of one cycle.
pub ghost enum Step {
    /// The machine advanced to this state.
    Next(VmView),
    /// The exit opcode was fetched; the state is unchanged.
    Exit,
    /// A fatal fault; the state is unchanged.
    Fail(Fault),
}

/// Well-formedness of a machine state: every container has the size its
/// profile dictates and the profile is the one of the target.
pub open spec fn wf(s: VmView) -> bool {
    &&& s.profile == spec_profile(s.target)
    &&& s.registers.len() == 16
    &&& s.stack.len() == 16
    &&& s.key.len() == 16
    &&& s.sp <= 16
    &&& s.memory.len() == s.profile.memory_capacity
    &&& s.gfx.len() == s.profile.screen_width as int * s.profile.screen_height as int
    &&& s.user_registers.len() == s.profile.user_register_count
}

// ---------------------------------------------------------------------------
// Decoding

/// The X register selector: second nibble of the opcode.
pub open spec fn sx(o: u16) -> int {
    ((o >> 8) & 0xF) as int
}

/// The Y register selector: third nibble of the opcode.
pub open spec fn sy(o: u16) -> int {
    ((o >> 4) & 0xF) as int
}

/// The 8-bit immediate: low byte of the opcode.
pub open spec fn snn(o: u16) -> u8 {
    (o & 0xFF) as u8
}

/// The 12-bit address immediate.
pub open spec fn snnn(o: u16) -> u16 {
    o & 0x0FFF
}

/// The low nibble of the opcode.
pub open spec fn sn(o: u16) -> int {
    (o & 0xF) as int
}

pub proof fn lemma_decode_bounds(o: u16)
    ensures
        0 <= sx(o) < 16,
        0 <= sy(o) < 16,
        0 <= sn(o) < 16,
        snnn(o) < 0x1000,
{
    assert(((o >> 8) & 0xF) < 16) by (bit_vector);
    assert(((o >> 4) & 0xF) < 16) by (bit_vector);
    assert((o & 0xF) < 16) by (bit_vector);
    assert((o & 0x0FFF) < 0x1000) by (bit_vector);
}

/// The 16-bit big-endian opcode fetched at the program counter.
pub open spec fn spec_opcode(s: VmView) -> u16 {
    ((s.memory[s.pc as int] as u16) << 8) | (s.memory[s.pc as int + 1] as u16)
}

/// Program-counter arithmetic wraps around the 16-bit space.
pub open spec fn pcadd(pc: u16, d: u16) -> u16 {
    ((pc + d) % 0x10000) as u16
}

/// Addition modulo 256.
pub open spec fn wrap_add8(a: u8, b: u8) -> u8 {
    ((a + b) % 256) as u8
}

/// Subtraction modulo 256.
pub open spec fn wrap_sub8(a: u8, b: u8) -> u8 {
    ((a - b) % 256) as u8
}

/// The smaller of two integers.
pub open spec fn imin(a: int, b: int) -> int {
    if a < b {
        a
    } else {
        b
    }
}

/// Whether the target is one of the SuperChip variants.
pub open spec fn is_sc(t: Target) -> bool {
    t == Target::SuperChipLegacy || t == Target::SuperChip
}

/// Whether the target is XO-Chip.
pub open spec fn is_xo(t: Target) -> bool {
    t == Target::XoChip
}

// ---------------------------------------------------------------------------
// Control flow

/// `00EE`: return from a subroutine.
pub open spec fn spec_flow_return(s: VmView) -> Step {
    if s.sp == 0 {
        Step::Fail(Fault::StackUnderflow)
    } else {
        Step::Next(
            VmView {
                sp: (s.sp - 1) as u8,
                pc: pcadd(s.stack[s.sp - 1], 2),
                ..s
            },
        )
    }
}

/// `1NNN`: unconditional jump.
pub open spec fn spec_flow_goto(s: VmView, o: u16) -> Step {
    Step::Next(VmView { pc: snnn(o), ..s })
}

/// `2NNN`: call a subroutine.  The stack holds sixteen return addresses; a
/// call with all sixteen slots in use is a fatal fault.
pub open spec fn spec_flow_gosub(s: VmView, o: u16) -> Step {
    if s.sp >= 16 {
        Step::Fail(Fault::StackOverflow)
    } else {
        Step::Next(
            VmView {
                stack: s.stack.update(s.sp as int, s.pc),
                sp: (s.sp + 1) as u8,
                pc: snnn(o),
                ..s
            },
        )
    }
}

/// `BNNN` / `BXNN`: jump with register offset.  CHIP-8 and XO-Chip add
/// register 0; SuperChip adds the register named by the second nibble.
pub open spec fn spec_flow_jump(s: VmView, o: u16) -> Step {
    let base = if is_sc(s.target) {
        s.registers[sx(o)]
    } else {
        s.registers[0]
    };
    Step::Next(VmView { pc: (snnn(o) + base) as u16, ..s })
}

// ---------------------------------------------------------------------------
// Display state

/// `00E0`: clear the framebuffer.
pub open spec fn spec_display_clear(s: VmView) -> (VmView, u16) {
    (
        VmView {
            gfx: Seq::new(s.gfx.len(), |p: int| false),
            draw: true,
            ..s
        },
        2,
    )
}

/// `00CN`: scroll the framebuffer down by N rows.
pub open spec fn spec_scroll_down(s: VmView, n: int) -> (VmView, u16) {
    let sw = s.profile.screen_width as int;
    (
        VmView {
            gfx: Seq::new(
                s.gfx.len(),
                |p: int| if p >= n * sw {
                    s.gfx[p - n * sw]
                } else {
                    false
                },
            ),
            draw: true,
            ..s
        },
        2,
    )
}

/// `00DN`: scroll the framebuffer up by N rows (XO-Chip).
pub open spec fn spec_scroll_up(s: VmView, n: int) -> (VmView, u16) {
    let sw = s.profile.screen_width as int;
    (
        VmView {
            gfx: Seq::new(
                s.gfx.len(),
                |p: int| if p < s.gfx.len() - n * sw {
                    s.gfx[p + n * sw]
                } else {
                    false
                },
            ),
            draw: true,
            ..s
        },
        2,
    )
}

/// `00FB`: scroll the framebuffer right by 4 columns.
pub open spec fn spec_scroll_right(s: VmView) -> (VmView, u16) {
    let sw = s.profile.screen_width as int;
    (
        VmView {
            gfx: Seq::new(
                s.gfx.len(),
                |p: int| if p % sw < 4 {
                    false
                } else {
                    s.gfx[p - 4]
                },
            ),
            draw: true,
            ..s
        },
        2,
    )
}

/// `00FC`: scroll the framebuffer left by 4 columns.
pub open spec fn spec_scroll_left(s: VmView) -> (VmView, u16) {
    let sw = s.profile.screen_width as int;
    (
        VmView {
            gfx: Seq::new(
                s.gfx.len(),
                |p: int| if p % sw >= sw - 4 {
                    false
                } else {
                    s.gfx[p + 4]
                },
            ),
            draw: true,
            ..s
        },
        2,
    )
}

/// `00FE`: leave high-resolution mode.  XO-Chip clears the screen on a mode
/// change; nothing happens when the mode is already low.
pub open spec fn spec_display_low(s: VmView) -> (VmView, u16) {
    if s.hires {
        (
            VmView {
                gfx: if is_xo(s.target) {
                    Seq::new(s.gfx.len(), |p: int| false)
                } else {
                    s.gfx
                },
                hires: false,
                draw: true,
                ..s
            },
            2,
        )
    } else {
        (s, 2)
    }
}

/// `00FF`: enter high-resolution mode.
pub open spec fn spec_display_high(s: VmView) -> (VmView, u16) {
    if !s.hires {
        (
            VmView {
                gfx: if is_xo(s.target) {
                    Seq::new(s.gfx.len(), |p: int| false)
                } else {
                    s.gfx
                },
                hires: true,
                draw: true,
                ..s
            },
            2,
        )
    } else {
        (s, 2)
    }
}

// ---------------------------------------------------------------------------
// Conditions, constants, arithmetic and logic

/// `3XNN`: skip the next instruction when VX equals the immediate.
pub open spec fn spec_skip_eq_num(s: VmView, o: u16) -> (VmView, u16) {
    (s, if s.registers[sx(o)] == snn(o) {
        4
    } else {
        2
    })
}

/// `4XNN`: skip the next instruction when VX differs from the immediate.
pub open spec fn spec_skip_neq_num(s: VmView, o: u16) -> (VmView, u16) {
    (s, if s.registers[sx(o)] == snn(o) {
        2
    } else {
        4
    })
}

/// `5XY0`: skip the next instruction when VX equals VY.
pub open spec fn spec_skip_eq_reg(s: VmView, o: u16) -> (VmView, u16) {
    (s, if s.registers[sx(o)] == s.registers[sy(o)] {
        4
    } else {
        2
    })
}

/// `9XY0`: skip the next instruction when VX differs from VY.
pub open spec fn spec_skip_neq_reg(s: VmView, o: u16) -> (VmView, u16) {
    (s, if s.registers[sx(o)] == s.registers[sy(o)] {
        2
    } else {
        4
    })
}

/// `6XNN`: store the immediate in VX.
pub open spec fn spec_const_set_num(s: VmView, o: u16) -> (VmView, u16) {
    (VmView { registers: s.registers.update(sx(o), snn(o)), ..s }, 2)
}

/// `7XNN`: add the immediate to VX, wrapping; the flag register is not
/// touched.
pub open spec fn spec_const_add_num(s: VmView, o: u16) -> (VmView, u16) {
    (
        VmView {
            registers: s.registers.update(sx(o), wrap_add8(s.registers[sx(o)], snn(o))),
            ..s
        },
        2,
    )
}

/// `8XY0`: copy VY into VX.
pub open spec fn spec_assign_set_reg(s: VmView, o: u16) -> (VmView, u16) {
    (VmView { registers: s.registers.update(sx(o), s.registers[sy(o)]), ..s }, 2)
}

/// The flag reset that the original CHIP-8 applies after OR/AND/XOR; the
/// later targets leave register 15 alone.
pub open spec fn spec_logic_flags(t: Target, r: Seq<u8>) -> Seq<u8> {
    if t == Target::Chip8 {
        r.update(15, 0u8)
    } else {
        r
    }
}

/// `8XY1`: VX |= VY.
pub open spec fn spec_bitop_or_reg(s: VmView, o: u16) -> (VmView, u16) {
    (
        VmView {
            registers: spec_logic_flags(
                s.target,
                s.registers.update(sx(o), s.registers[sx(o)] | s.registers[sy(o)]),
            ),
            ..s
        },
        2,
    )
}

/// `8XY2`: VX &= VY.
pub open spec fn spec_bitop_and_reg(s: VmView, o: u16) -> (VmView, u16) {
    (
        VmView {
            registers: spec_logic_flags(
                s.target,
                s.registers.update(sx(o), s.registers[sx(o)] & s.registers[sy(o)]),
            ),
            ..s
        },
        2,
    )
}

/// `8XY3`: VX ^= VY.
pub open spec fn spec_bitop_xor_reg(s: VmView, o: u16) -> (VmView, u16) {
    (
        VmView {
            registers: spec_logic_flags(
                s.target,
                s.registers.update(sx(o), s.registers[sx(o)] ^ s.registers[sy(o)]),
            ),
            ..s
        },
        2,
    )
}

/// `8XY4`: VX += VY; register 15 becomes 1 exactly when the sum overflows.
pub open spec fn spec_math_add_reg(s: VmView, o: u16) -> (VmView, u16) {
    let a = s.registers[sx(o)];
    let b = s.registers[sy(o)];
    (
        VmView {
            registers: s.registers.update(sx(o), wrap_add8(a, b)).update(
                15,
                if a + b > 255 {
                    1u8
                } else {
                    0u8
                },
            ),
            ..s
        },
        2,
    )
}

/// `8XY5`: VX -= VY; register 15 becomes 1 exactly when no borrow occurs.
pub open spec fn spec_math_sub_reg(s: VmView, o: u16) -> (VmView, u16) {
    let a = s.registers[sx(o)];
    let b = s.registers[sy(o)];
    (
        VmView {
            registers: s.registers.update(sx(o), wrap_sub8(a, b)).update(
                15,
                if a >= b {
                    1u8
                } else {
                    0u8
                },
            ),
            ..s
        },
        2,
    )
}

/// `8XY7`: VX = VY - VX; register 15 becomes 1 exactly when no borrow
/// occurs.
pub open spec fn spec_math_neg_reg(s: VmView, o: u16) -> (VmView, u16) {
    let a = s.registers[sx(o)];
    let b = s.registers[sy(o)];
    (
        VmView {
            registers: s.registers.update(sx(o), wrap_sub8(b, a)).update(
                15,
                if b >= a {
                    1u8
                } else {
                    0u8
                },
            ),
            ..s
        },
        2,
    )
}

/// The shift source register quirk: CHIP-8 and XO-Chip shift VY, SuperChip
/// shifts VX itself.
pub open spec fn spec_shift_source(s: VmView, o: u16) -> u8 {
    if is_sc(s.target) {
        s.registers[sx(o)]
    } else {
        s.registers[sy(o)]
    }
}

/// `8XY6`: shift right by one; register 15 receives the bit shifted out.
pub open spec fn spec_bitop_shr_reg(s: VmView, o: u16) -> (VmView, u16) {
    let v = spec_shift_source(s, o);
    (
        VmView {
            registers: s.registers.update(sx(o), v >> 1).update(15, v & 1),
            ..s
        },
        2,
    )
}

/// `8XYE`: shift left by one; register 15 receives the bit shifted out.
pub open spec fn spec_bitop_shl_reg(s: VmView, o: u16) -> (VmView, u16) {
    let v = spec_shift_source(s, o);
    (
        VmView {
            registers: s.registers.update(sx(o), (v << 1) as u8).update(15, v >> 7),
            ..s
        },
        2,
    )
}

// ---------------------------------------------------------------------------
// Memory, timers, keys

/// `ANNN`: store the address immediate in the address register.
pub open spec fn spec_mem_store(s: VmView, o: u16) -> (VmView, u16) {
    (VmView { i: snnn(o), ..s }, 2)
}

/// `CXNN`: VX = random byte AND the immediate.
pub open spec fn spec_rand_and_reg(s: VmView, o: u16, rnd: u8) -> (VmView, u16) {
    (VmView { registers: s.registers.update(sx(o), snn(o) & rnd), ..s }, 2)
}

/// `EX9E`: skip when the key named by VX is pressed.  A register value
/// outside the 16-key space is a fault.
pub open spec fn spec_key_pressed_skip(s: VmView, o: u16) -> Result<(VmView, u16), Fault> {
    let k = s.registers[sx(o)] as int;
    if k >= 16 {
        Err(Fault::OutOfBounds)
    } else {
        Ok((s, if s.key[k] {
            4
        } else {
            2
        }))
    }
}

/// `EXA1`: skip when the key named by VX is not pressed.
pub open spec fn spec_key_not_pressed_skip(s: VmView, o: u16) -> Result<(VmView, u16), Fault> {
    let k = s.registers[sx(o)] as int;
    if k >= 16 {
        Err(Fault::OutOfBounds)
    } else {
        Ok((s, if s.key[k] {
            2
        } else {
            4
        }))
    }
}

/// `FX0A`: wait for a keypress.  Arms the wait machine, then keeps the
/// program counter still until a captured key is consumed into VX.
pub open spec fn spec_key_wait(s: VmView, o: u16) -> (VmView, u16) {
    match s.key_wait {
        KeyWait::Captured(k) => (
            VmView {
                registers: s.registers.update(sx(o), k),
                key_wait: KeyWait::Idle,
                ..s
            },
            2,
        ),
        KeyWait::Idle => (VmView { key_wait: KeyWait::Armed, ..s }, 0),
        KeyWait::Armed => (s, 0),
    }
}

/// A key event delivered by the host: `key` goes to `pressed`.  A key that
/// goes from released to pressed while the wait machine is armed is
/// captured; a press of a key already held down is not a transition.
pub open spec fn spec_set_key(s: VmView, key: u8, pressed: bool) -> VmView {
    VmView {
        key_wait: if pressed && !s.key[key as int] && s.key_wait == KeyWait::Armed {
            KeyWait::Captured(key)
        } else {
            s.key_wait
        },
        key: s.key.update(key as int, pressed),
        ..s
    }
}

/// `FX07`: store the delay timer in VX.
pub open spec fn spec_timer_delay_store(s: VmView, o: u16) -> (VmView, u16) {
    (VmView { registers: s.registers.update(sx(o), s.delay_timer), ..s }, 2)
}

/// `FX15`: set the delay timer from VX.
pub open spec fn spec_timer_delay_set(s: VmView, o: u16) -> (VmView, u16) {
    (VmView { delay_timer: s.registers[sx(o)], ..s }, 2)
}

/// `FX18`: set the sound timer from VX.
pub open spec fn spec_timer_sound_set(s: VmView, o: u16) -> (VmView, u16) {
    (VmView { sound_timer: s.registers[sx(o)], ..s }, 2)
}

/// `FX1E`: add VX to the address register; past 0xFFF the 12-bit space
/// wraps once and register 15 is set.
pub open spec fn spec_mem_addi(s: VmView, o: u16) -> (VmView, u16) {
    let sum = ((s.i + s.registers[sx(o)]) % 0x10000) as u16;
    if sum > 0xFFF {
        (
            VmView {
                i: (sum - 0x1000) as u16,
                registers: s.registers.update(15, 1u8),
                ..s
            },
            2,
        )
    } else {
        (VmView { i: sum, ..s }, 2)
    }
}

/// `FX29`: point the address register at the 5-byte font glyph for the low
/// nibble of VX.
pub open spec fn spec_mem_spriteaddr(s: VmView, o: u16) -> (VmView, u16) {
    (VmView { i: (5 * (s.registers[sx(o)] & 0xF)) as u16, ..s }, 2)
}

/// `FX30`: point the address register at the 10-byte high-resolution glyph
/// for VX; values above 9 are silently ignored.
pub open spec fn spec_hires_font(s: VmView, o: u16) -> (VmView, u16) {
    if s.registers[sx(o)] <= 9 {
        (VmView { i: (10 * s.registers[sx(o)]) as u16, ..s }, 2)
    } else {
        (s, 2)
    }
}

/// `FX33`: store the decimal digits of VX at I, I+1, I+2.  The digits are
/// carved out with modulo arithmetic alone, with no further guard on the
/// hundreds: a historical quirk that ROMs depend on.
pub open spec fn spec_bcd_store(s: VmView, o: u16) -> Result<(VmView, u16), Fault> {
    if s.i + 2 >= s.memory.len() {
        Err(Fault::OutOfBounds)
    } else {
        let v = s.registers[sx(o)] as int;
        let ones = v % 10;
        let tens = (v % 100 - ones) / 10;
        let hundreds = (v - (tens + ones)) / 100;
        Ok(
            (
                VmView {
                    memory: s.memory.update(s.i as int, hundreds as u8).update(
                        s.i as int + 1,
                        tens as u8,
                    ).update(s.i as int + 2, ones as u8),
                    ..s
                },
                2,
            ),
        )
    }
}

/// `FX55`: copy registers 0..=X to memory at the address register; CHIP-8
/// and XO-Chip advance the address register by X+1, SuperChip does not.
pub open spec fn spec_mem_reg_dump(s: VmView, o: u16) -> Result<(VmView, u16), Fault> {
    let x = sx(o);
    if s.i + x >= s.memory.len() {
        Err(Fault::OutOfBounds)
    } else {
        Ok(
            (
                VmView {
                    memory: Seq::new(
                        s.memory.len(),
                        |j: int| if s.i <= j <= s.i + x {
                            s.registers[j - s.i]
                        } else {
                            s.memory[j]
                        },
                    ),
                    i: if is_sc(s.target) {
                        s.i
                    } else {
                        ((s.i + x + 1) % 0x10000) as u16
                    },
                    ..s
                },
                2,
            ),
        )
    }
}

/// `FX65`: fill registers 0..=X from memory at the address register; CHIP-8
/// and XO-Chip advance the address register by X+1, SuperChip does not.
pub open spec fn spec_mem_reg_load(s: VmView, o: u16) -> Result<(VmView, u16), Fault> {
    let x = sx(o);
    if s.i + x >= s.memory.len() {
        Err(Fault::OutOfBounds)
    } else {
        Ok(
            (
                VmView {
                    registers: Seq::new(
                        16,
                        |r: int| if r <= x {
                            s.memory[s.i + r]
                        } else {
                            s.registers[r]
                        },
                    ),
                    i: if is_sc(s.target) {
                        s.i
                    } else {
                        ((s.i + x + 1) % 0x10000) as u16
                    },
                    ..s
                },
                2,
            ),
        )
    }
}

/// `FX75`: store registers 0..=X in the persistent flag bank; a request
/// past the bank's capacity is silently ignored.
pub open spec fn spec_flag_store(s: VmView, o: u16) -> (VmView, u16) {
    let x = sx(o);
    if x < s.user_registers.len() {
        (
            VmView {
                user_registers: Seq::new(
                    s.user_registers.len(),
                    |j: int| if j <= x {
                        s.registers[j]
                    } else {
                        s.user_registers[j]
                    },
                ),
                ..s
            },
            2,
        )
    } else {
        (s, 2)
    }
}

/// `FX85`: fill registers 0..=X from the persistent flag bank; a request
/// past the bank's capacity is silently ignored.
pub open spec fn spec_flag_load(s: VmView, o: u16) -> (VmView, u16) {
    let x = sx(o);
    if x < s.user_registers.len() {
        (
            VmView {
                registers: Seq::new(
                    16,
                    |j: int| if j <= x {
                        s.user_registers[j]
                    } else {
                        s.registers[j]
                    },
                ),
                ..s
            },
            2,
        )
    } else {
        (s, 2)
    }
}

// ---------------------------------------------------------------------------
// Sprite drawing

/// The geometry of one sprite draw, fully determined by the machine state
/// and the opcode.
pub ghost struct DrawShape {
    /// XO-Chip wraps sprites around the edges; the others clip.
    pub wrap: bool,
    /// Start position, already reduced modulo the drawing surface.
    pub x0: int,
    pub y0: int,
    /// The effective drawing surface (halved in low-resolution mode on the
    /// large targets).
    pub w: int,
    pub h: int,
    /// Row stride of the framebuffer.
    pub sw: int,
    /// Rows and columns actually drawn, after clipping.
    pub rows: int,
    pub cols: int,
    /// Sprite data location.
    pub mem: Seq<u8>,
    pub addr: int,
}

/// The geometry that `DXYN` uses on state `s`.
pub open spec fn draw_shape(s: VmView, o: u16) -> DrawShape {
    let big = is_sc(s.target) || is_xo(s.target);
    let sw = s.profile.screen_width as int;
    let sh = s.profile.screen_height as int;
    let w = if big && !s.hires {
        sw / 2
    } else {
        sw
    };
    let h = if big && !s.hires {
        sh / 2
    } else {
        sh
    };
    let supersize = big && s.hires && sn(o) == 0;
    let size = if supersize {
        16
    } else {
        8
    };
    let nrows = if supersize {
        16
    } else {
        sn(o)
    };
    let x0 = s.registers[sx(o)] as int % w;
    let y0 = s.registers[sy(o)] as int % h;
    DrawShape {
        wrap: is_xo(s.target),
        x0,
        y0,
        w,
        h,
        sw,
        rows: if is_xo(s.target) {
            nrows
        } else {
            imin(nrows, h - y0)
        },
        cols: if is_xo(s.target) {
            size
        } else {
            imin(size, w - x0)
        },
        mem: s.memory,
        addr: s.i as int,
    }
}

/// Geometric sanity of a draw: the surface fits the framebuffer, the start
/// position lies on the surface, and a clipped draw stays inside it.
pub open spec fn draw_wf(d: DrawShape, glen: int) -> bool {
    &&& 0 < d.w <= d.sw
    &&& 0 < d.h
    &&& 0 <= d.x0 < d.w
    &&& 0 <= d.y0 < d.h
    &&& 0 <= d.rows
    &&& 0 <= d.cols
    &&& d.h * d.sw <= glen
    &&& (d.wrap ==> d.rows <= d.h && d.cols <= d.w)
    &&& (!d.wrap ==> d.y0 + d.rows <= d.h && d.x0 + d.cols <= d.w)
    &&& 0 <= d.addr
    &&& (d.rows > 0 ==> d.addr + d.rows <= d.mem.len())
}

/// On a well-formed state whose sprite data lies in memory, `draw_shape`
/// yields a geometrically sane draw.
pub proof fn lemma_draw_shape_wf(s: VmView, o: u16)
    requires
        wf(s),
        ({
            let d = draw_shape(s, o);
            d.rows > 0 ==> d.addr + d.rows <= s.memory.len()
        }),
    ensures
        draw_wf(draw_shape(s, o), s.gfx.len() as int),
{
    let d = draw_shape(s, o);
    lemma_decode_bounds(o);
    if s.target == Target::Chip8 {
        assert(s.profile.screen_width == 64 && s.profile.screen_height == 32);
        assert(s.gfx.len() == 64 * 32);
    } else {
        assert(s.profile.screen_width == 128 && s.profile.screen_height == 64);
        assert(s.gfx.len() == 128 * 64);
    }
    assert(d.w == 64 || d.w == 128);
    assert(d.h == 32 || d.h == 64);
    if d.h == 32 {
        assert(d.h * d.sw == 32 * d.sw);
    } else {
        assert(d.h * d.sw == 64 * d.sw);
    }
    assert(d.h * d.sw <= s.gfx.len());
    vstd::arithmetic::div_mod::lemma_mod_division_less_than_divisor(
        s.registers[sx(o)] as int,
        d.w,
    );
    vstd::arithmetic::div_mod::lemma_mod_division_less_than_divisor(
        s.registers[sy(o)] as int,
        d.h,
    );
}

/// Whether sprite row `j`, column `k` carries a set bit.  A 16-wide sprite
/// row repeats the bits of its single data byte.
pub open spec fn sprite_bit(d: DrawShape, j: int, k: int) -> bool {
    d.mem[d.addr + j] & (0x80u8 >> ((k % 8) as u8)) != 0
}

/// The framebuffer cell that sprite position (j, k) lands on.
pub open spec fn draw_cell(d: DrawShape, j: int, k: int) -> int {
    (if d.wrap {
        (d.y0 + j) % d.h
    } else {
        d.y0 + j
    }) * d.sw + (if d.wrap {
        (d.x0 + k) % d.w
    } else {
        d.x0 + k
    })
}

/// Whether framebuffer cell `p` is toggled by some sprite position strictly
/// before row `jj`, column `kk` in drawing order.
pub open spec fn draw_hit_upto(d: DrawShape, p: int, jj: int, kk: int) -> bool {
    let y = p / d.sw;
    let c = p % d.sw;
    let j = if d.wrap {
        (y - d.y0) % d.h
    } else {
        y - d.y0
    };
    let k = if d.wrap {
        (c - d.x0) % d.w
    } else {
        c - d.x0
    };
    &&& 0 <= y < d.h
    &&& 0 <= c < d.w
    &&& 0 <= j < d.rows
    &&& 0 <= k < d.cols
    &&& (j < jj || (j == jj && k < kk))
    &&& sprite_bit(d, j, k)
}

/// Whether framebuffer cell `p` is toggled by the whole draw.
pub open spec fn draw_hit(d: DrawShape, p: int) -> bool {
    draw_hit_upto(d, p, d.rows, 0)
}

/// Whether a sprite position strictly before (jj, kk) toggles a cell that
/// was already set: the collision flag of the partial draw.
pub open spec fn draw_collision_upto(d: DrawShape, gfx: Seq<bool>, jj: int, kk: int) -> bool {
    exists|j: int, k: int|
        0 <= j < d.rows && 0 <= k < d.cols && (j < jj || (j == jj && k < kk)) && #[trigger] sprite_bit(
            d,
            j,
            k,
        ) && gfx[draw_cell(d, j, k)]
}

/// The collision flag of the whole draw.
pub open spec fn draw_collision(d: DrawShape, gfx: Seq<bool>) -> bool {
    draw_collision_upto(d, gfx, d.rows, 0)
}

/// The framebuffer after the draw: every hit cell is toggled.
pub open spec fn draw_gfx(d: DrawShape, gfx: Seq<bool>) -> Seq<bool> {
    Seq::new(gfx.len(), |p: int| gfx[p] != draw_hit(d, p))
}

/// `DXYN`: draw a sprite and report collisions in register 15.  Reading
/// sprite data past the end of memory is a fault.
pub open spec fn spec_draw_sprite(s: VmView, o: u16) -> Result<(VmView, u16), Fault> {
    let d = draw_shape(s, o);
    if d.rows > 0 && d.addr + d.rows > s.memory.len() {
        Err(Fault::OutOfBounds)
    } else {
        Ok(
            (
                VmView {
                    gfx: draw_gfx(d, s.gfx),
                    registers: s.registers.update(
                        15,
                        if draw_collision(d, s.gfx) {
                            1u8
                        } else {
                            0u8
                        },
                    ),
                    draw: true,
                    ..s
                },
                2,
            ),
        )
    }
}

// ---------------------------------------------------------------------------
// The full cycle

/// One fetch-decode-execute step of the machine.  Instructions that rewrite
/// the program counter do so directly; every other instruction adds its
/// returned delta (2, 4 for a taken skip, 0 while waiting for a key).
/// The body of one instruction of the delta group: every opcode that does
/// not rewrite the program counter directly.  Yields the state after the
/// instruction body (program counter untouched) and the program-counter
/// delta, or the fault.
pub open spec fn step_op(s: VmView, o: u16, rnd: u8) -> Result<(VmView, u16), Fault> {
    let fam = o >> 12;
    let low = o & 0xF;
    let byte = o & 0xFF;
    let sc = is_sc(s.target);
    let xo = is_xo(s.target);
    if o == 0x00E0 {
        Ok(spec_display_clear(s))
    } else if fam == 0 && sx(o) == 0 && byte & 0xF0 == 0xC0 && (sc || xo) {
        Ok(spec_scroll_down(s, sn(o)))
    } else if fam == 0 && sx(o) == 0 && byte & 0xF0 == 0xD0 && xo {
        Ok(spec_scroll_up(s, sn(o)))
    } else if o == 0x00FB && (sc || xo) {
        Ok(spec_scroll_right(s))
    } else if o == 0x00FC && (sc || xo) {
        Ok(spec_scroll_left(s))
    } else if o == 0x00FE && (sc || xo) {
        Ok(spec_display_low(s))
    } else if o == 0x00FF && (sc || xo) {
        Ok(spec_display_high(s))
    } else if fam == 0 {
        Ok((s, 2))
    } else if fam == 3 {
        Ok(spec_skip_eq_num(s, o))
    } else if fam == 4 {
        Ok(spec_skip_neq_num(s, o))
    } else if fam == 5 && low == 0 {
        Ok(spec_skip_eq_reg(s, o))
    } else if fam == 6 {
        Ok(spec_const_set_num(s, o))
    } else if fam == 7 {
        Ok(spec_const_add_num(s, o))
    } else if fam == 8 && low == 0 {
        Ok(spec_assign_set_reg(s, o))
    } else if fam == 8 && low == 1 {
        Ok(spec_bitop_or_reg(s, o))
    } else if fam == 8 && low == 2 {
        Ok(spec_bitop_and_reg(s, o))
    } else if fam == 8 && low == 3 {
        Ok(spec_bitop_xor_reg(s, o))
    } else if fam == 8 && low == 4 {
        Ok(spec_math_add_reg(s, o))
    } else if fam == 8 && low == 5 {
        Ok(spec_math_sub_reg(s, o))
    } else if fam == 8 && low == 6 {
        Ok(spec_bitop_shr_reg(s, o))
    } else if fam == 8 && low == 7 {
        Ok(spec_math_neg_reg(s, o))
    } else if fam == 8 && low == 0xE {
        Ok(spec_bitop_shl_reg(s, o))
    } else if fam == 9 && low == 0 {
        Ok(spec_skip_neq_reg(s, o))
    } else if fam == 0xA {
        Ok(spec_mem_store(s, o))
    } else if fam == 0xC {
        Ok(spec_rand_and_reg(s, o, rnd))
    } else if fam == 0xD {
        spec_draw_sprite(s, o)
    } else if fam == 0xE && byte == 0x9E {
        spec_key_pressed_skip(s, o)
    } else if fam == 0xE && byte == 0xA1 {
        spec_key_not_pressed_skip(s, o)
    } else if fam == 0xF && byte == 0x0A {
        Ok(spec_key_wait(s, o))
    } else if fam == 0xF && byte == 0x07 {
        Ok(spec_timer_delay_store(s, o))
    } else if fam == 0xF && byte == 0x15 {
        Ok(spec_timer_delay_set(s, o))
    } else if fam == 0xF && byte == 0x18 {
        Ok(spec_timer_sound_set(s, o))
    } else if fam == 0xF && byte == 0x1E {
        Ok(spec_mem_addi(s, o))
    } else if fam == 0xF && byte == 0x29 {
        Ok(spec_mem_spriteaddr(s, o))
    } else if fam == 0xF && byte == 0x30 && (sc || xo) {
        Ok(spec_hires_font(s, o))
    } else if fam == 0xF && byte == 0x33 {
        spec_bcd_store(s, o)
    } else if fam == 0xF && byte == 0x55 {
        spec_mem_reg_dump(s, o)
    } else if fam == 0xF && byte == 0x65 {
        spec_mem_reg_load(s, o)
    } else if fam == 0xF && byte == 0x75 && (sc || xo) {
        Ok(spec_flag_store(s, o))
    } else if fam == 0xF && byte == 0x85 && (sc || xo) {
        Ok(spec_flag_load(s, o))
    } else {
        Err(Fault::UnknownOpcode(o))
            }
}

pub open spec fn step(s: VmView, rnd: u8) -> Step {
    if s.pc as int + 1 >= s.memory.len() {
        Step::Fail(Fault::OutOfBounds)
    } else {
        let o = spec_opcode(s);
        let fam = o >> 12;
        let sc = is_sc(s.target);
        let xo = is_xo(s.target);
        if o == 0x00FD && (sc || xo) {
            Step::Exit
        } else if o == 0x00EE {
            spec_flow_return(s)
        } else if fam == 1 {
            spec_flow_goto(s, o)
        } else if fam == 2 {
            spec_flow_gosub(s, o)
        } else if fam == 0xB {
            spec_flow_jump(s, o)
        } else {
            match step_op(s, o, rnd) {
                Ok((s1, d)) => Step::Next(VmView { pc: pcadd(s.pc, d), ..s1 }),
                Err(f) => Step::Fail(f),
            }
        }
    }
}

/// The built-in font table: 16 glyphs of 5 bytes each, loaded at address 0
/// once at construction.
pub open spec fn spec_fontset() -> Seq<u8> {
    seq![
        0xF0u8, 0x90, 0x90, 0x90, 0xF0,  // 0
        0x20, 0x60, 0x20, 0x20, 0x70,  // 1
        0xF0, 0x10, 0xF0, 0x80, 0xF0,  // 2
        0xF0, 0x10, 0xF0, 0x10, 0xF0,  // 3
        0x90, 0x90, 0xF0, 0x10, 0x10,  // 4
        0xF0, 0x80, 0xF0, 0x10, 0xF0,  // 5
        0xF0, 0x80, 0xF0, 0x90, 0xF0,  // 6
        0xF0, 0x10, 0x20, 0x40, 0x40,  // 7
        0xF0, 0x90, 0xF0, 0x90, 0xF0,  // 8
        0xF0, 0x90, 0xF0, 0x10, 0xF0,  // 9
        0xF0, 0x90, 0xF0, 0x90, 0x90,  // A
        0xE0, 0x90, 0xE0, 0x90, 0xE0,  // B
        0xF0, 0x80, 0x80, 0x80, 0xF0,  // C
        0xE0, 0x90, 0x90, 0x90, 0xE0,  // D
        0xF0, 0x80, 0xF0, 0x80, 0xF0,  // E
        0xF0, 0x80, 0xF0, 0x80, 0x80,  // F
    ]
}

/// The machine state right after construction: font loaded, program counter
/// at 0x200, everything else cleared, one initial display refresh owed.
pub open spec fn spec_initial(target: Target) -> VmView {
    let p = spec_profile(target);
    VmView {
        target,
        profile: p,
        registers: Seq::new(16, |j: int| 0u8),
        user_registers: Seq::new(p.user_register_count as nat, |j: int| 0u8),
        i: 0,
        pc: 0x200,
        memory: Seq::new(
            p.memory_capacity as nat,
            |j: int| if j < 80 {
                spec_fontset()[j]
            } else {
                0u8
            },
        ),
        gfx: Seq::new(
            (p.screen_width as int * p.screen_height as int) as nat,
            |j: int| false,
        ),
        delay_timer: 0,
        sound_timer: 0,
        stack: Seq::new(16, |j: int| 0u16),
        sp: 0,
        key: Seq::new(16, |j: int| false),
        draw: true,
        hires: false,
        key_wait: KeyWait::Idle,
    }
}

/// A cycle preserves well-formedness: every instruction leaves the
/// containers at the sizes the profile dictates.
#[verifier::rlimit(60)]
#[verifier::spinoff_prover]
pub proof fn lemma_step_wf(s: VmView, rnd: u8)
    requires
        wf(s),
    ensures
        match step(s, rnd) {
            Step::Next(v) => wf(v),
            _ => true,
        },
{
    if s.pc as int + 1 < s.memory.len() {
        lemma_decode_bounds(spec_opcode(s));
    }
}

/// Row arithmetic for the scroll operations: a vertical split of the
/// framebuffer into `n` rows and the rest.
pub proof fn lemma_row_split(w: int, h: int, n: int)
    by (nonlinear_arith)
    requires
        0 <= n,
        n <= h,
        0 <= w,
    ensures
        (h - n) * w + n * w == w * h,
        0 <= n * w,
        (h - n) * w <= w * h,
        n * w <= w * h,
{
}

/// One row lies inside the framebuffer.
pub proof fn lemma_row_bounds(w: int, h: int, y: int)
    by (nonlinear_arith)
    requires
        0 <= y,
        y < h,
        0 <= w,
    ensures
        0 <= y * w,
        y * w + w <= w * h,
{
}

/// Position `j` of a `w`-wide row grid lies in row `j / w`, column `j % w`.
pub proof fn lemma_div_below(j: int, w: int, h: int)
    requires
        0 < w,
        0 <= j,
        j < w * h,
    ensures
        0 <= j / w < h,
        0 <= j % w < w,
        j % w <= j,
        j == w * (j / w) + j % w,
{
    vstd::arithmetic::div_mod::lemma_fundamental_div_mod(j, w);
    vstd::arithmetic::div_mod::lemma_div_pos_is_pos(j, w);
    vstd::arithmetic::div_mod::lemma_mod_division_less_than_divisor(j, w);
    if j / w >= h {
        vstd::arithmetic::mul::lemma_mul_inequality(h, j / w, w);
        vstd::arithmetic::mul::lemma_mul_is_commutative(h, w);
        vstd::arithmetic::mul::lemma_mul_is_commutative(j / w, w);
        assert(false);
    }
    vstd::arithmetic::mul::lemma_mul_nonnegative(w, j / w);
}

/// Row `y`, column `r` is position `y * w + r` of the grid.
pub proof fn lemma_cell_index(w: int, y: int, r: int)
    requires
        0 < w,
        0 <= y,
        0 <= r < w,
    ensures
        (y * w + r) / w == y,
        (y * w + r) % w == r,
{
    vstd::arithmetic::div_mod::lemma_fundamental_div_mod_converse_div(y * w + r, w, y, r);
    vstd::arithmetic::div_mod::lemma_fundamental_div_mod_converse_mod(y * w + r, w, y, r);
}

/// After blanking columns [a, b) of row `y`, the blank pattern grows from
/// the first `y` rows to the first `y + 1` rows.
pub proof fn lemma_rowwise_fill(
    mid: Seq<bool>,
    cur: Seq<bool>,
    nxt: Seq<bool>,
    w: int,
    h: int,
    y: int,
    a: int,
    b: int,
)
    requires
        0 < w,
        0 <= y < h,
        0 <= a < b,
        b <= w,
        mid.len() == w * h,
        cur.len() == mid.len(),
        nxt.len() == mid.len(),
        cur == Seq::new(
            mid.len(),
            |j: int| if j / w < y && a <= j % w < b {
                false
            } else {
                mid[j]
            },
        ),
        nxt == Seq::new(
            mid.len(),
            |j: int| if y * w + a <= j < y * w + b {
                false
            } else {
                cur[j]
            },
        ),
    ensures
        nxt == Seq::new(
            mid.len(),
            |j: int| if j / w < y + 1 && a <= j % w < b {
                false
            } else {
                mid[j]
            },
        ),
{
    assert forall|j: int| 0 <= j < mid.len() implies nxt[j] == (if j / w < y + 1 && a <= j % w
        < b {
        false
    } else {
        mid[j]
    }) by {
        lemma_div_below(j, w, h);
        vstd::arithmetic::mul::lemma_mul_is_commutative(w, y);
        if y * w + a <= j < y * w + b {
            lemma_cell_index(w, y, j - y * w);
        }
    };
    assert(nxt =~= Seq::new(
        mid.len(),
        |j: int| if j / w < y + 1 && a <= j % w < b {
            false
        } else {
            mid[j]
        },
    ));
}

/// Wrap-around inverse: offset `j` from `base` lands on `(base + j) % m`,
/// and that landing position is the only one whose distance from `base`,
/// taken modulo `m`, is `j`.
pub proof fn lemma_wrap_inverse(m: int, base: int, j: int, y: int)
    requires
        0 < m,
        0 <= base < m,
        0 <= j < m,
        0 <= y < m,
    ensures
        ((base + j) % m - base) % m == j,
        ((y - base) % m == j) ==> y == (base + j) % m,
{
    let t = base + j;
    if t < m {
        vstd::arithmetic::div_mod::lemma_small_mod(t as nat, m as nat);
        vstd::arithmetic::div_mod::lemma_small_mod(j as nat, m as nat);
    } else {
        vstd::arithmetic::div_mod::lemma_mod_sub_multiples_vanish(t, m);
        vstd::arithmetic::div_mod::lemma_small_mod((t - m) as nat, m as nat);
        assert(t % m == t - m);
        vstd::arithmetic::div_mod::lemma_mod_add_multiples_vanish(j - m, m);
        vstd::arithmetic::div_mod::lemma_small_mod(j as nat, m as nat);
    }
    if (y - base) % m == j {
        if y >= base {
            vstd::arithmetic::div_mod::lemma_small_mod((y - base) as nat, m as nat);
            assert(y == base + j);
            vstd::arithmetic::div_mod::lemma_small_mod(y as nat, m as nat);
        } else {
            vstd::arithmetic::div_mod::lemma_mod_add_multiples_vanish(y - base, m);
            vstd::arithmetic::div_mod::lemma_small_mod((m + y - base) as nat, m as nat);
            assert(m + y - base == j);
            vstd::arithmetic::div_mod::lemma_mod_sub_multiples_vanish(base + j, m);
            vstd::arithmetic::div_mod::lemma_small_mod((base + j - m) as nat, m as nat);
        }
    }
}

/// One inner draw iteration: the cell that sprite position (j, k) lands on
/// is in bounds, still holds its original value, and toggling it carries
/// the partial-draw pattern from (j, k) to (j, k + 1).
pub proof fn lemma_draw_step(d: DrawShape, gfx0: Seq<bool>, cur: Seq<bool>, j: int, k: int)
    requires
        draw_wf(d, gfx0.len() as int),
        0 <= j < d.rows,
        0 <= k < d.cols,
        cur == Seq::new(gfx0.len(), |p: int| gfx0[p] != draw_hit_upto(d, p, j, k)),
    ensures
        0 <= draw_cell(d, j, k) < gfx0.len(),
        cur[draw_cell(d, j, k)] == gfx0[draw_cell(d, j, k)],
        (if sprite_bit(d, j, k) {
            cur.update(draw_cell(d, j, k), !cur[draw_cell(d, j, k)])
        } else {
            cur
        }) == Seq::new(gfx0.len(), |p: int| gfx0[p] != draw_hit_upto(d, p, j, k + 1)),
        draw_collision_upto(d, gfx0, j, k + 1) == (draw_collision_upto(d, gfx0, j, k)
            || (sprite_bit(d, j, k) && gfx0[draw_cell(d, j, k)])),
{
    let yo = if d.wrap {
        (d.y0 + j) % d.h
    } else {
        d.y0 + j
    };
    let xc = if d.wrap {
        (d.x0 + k) % d.w
    } else {
        d.x0 + k
    };
    let q = draw_cell(d, j, k);
    if d.wrap {
        vstd::arithmetic::div_mod::lemma_mod_division_less_than_divisor(d.y0 + j, d.h);
        vstd::arithmetic::div_mod::lemma_mod_division_less_than_divisor(d.x0 + k, d.w);
        lemma_wrap_inverse(d.h, d.y0, j, yo);
        lemma_wrap_inverse(d.w, d.x0, k, xc);
    }
    assert(0 <= yo < d.h);
    assert(0 <= xc < d.w);
    lemma_row_bounds(d.sw, d.h, yo);
    vstd::arithmetic::mul::lemma_mul_is_commutative(d.sw, d.h);
    vstd::arithmetic::mul::lemma_mul_is_commutative(d.sw, yo);
    assert(0 <= q < gfx0.len());
    lemma_cell_index(d.sw, yo, xc);
    assert(!draw_hit_upto(d, q, j, k));
    assert(cur[q] == gfx0[q]);
    let nxt = if sprite_bit(d, j, k) {
        cur.update(q, !cur[q])
    } else {
        cur
    };
    assert forall|p: int| 0 <= p < gfx0.len() implies nxt[p] == (gfx0[p] != draw_hit_upto(
        d,
        p,
        j,
        k + 1,
    )) by {
        vstd::arithmetic::div_mod::lemma_fundamental_div_mod(p, d.sw);
        vstd::arithmetic::div_mod::lemma_mod_division_less_than_divisor(p, d.sw);
        vstd::arithmetic::div_mod::lemma_div_pos_is_pos(p, d.sw);
        vstd::arithmetic::mul::lemma_mul_is_commutative(d.sw, p / d.sw);
        if d.wrap {
            if 0 <= p / d.sw < d.h {
                lemma_wrap_inverse(d.h, d.y0, j, p / d.sw);
            }
            if 0 <= p % d.sw < d.w {
                lemma_wrap_inverse(d.w, d.x0, k, p % d.sw);
            }
        }
    };
    assert(nxt =~= Seq::new(gfx0.len(), |p: int| gfx0[p] != draw_hit_upto(d, p, j, k + 1)));
    if draw_collision_upto(d, gfx0, j, k) {
        let (a, b) = choose|a: int, b: int|
            0 <= a < d.rows && 0 <= b < d.cols && (a < j || (a == j && b < k))
                && #[trigger] sprite_bit(d, a, b) && gfx0[draw_cell(d, a, b)];
        assert(0 <= a < d.rows && 0 <= b < d.cols && (a < j || (a == j && b < k + 1))
            && sprite_bit(d, a, b) && gfx0[draw_cell(d, a, b)]);
        assert(draw_collision_upto(d, gfx0, j, k + 1));
    }
    if sprite_bit(d, j, k) && gfx0[q] {
        assert(0 <= j < d.rows && 0 <= k < d.cols && (j < j || (j == j && k < k + 1))
            && sprite_bit(d, j, k) && gfx0[draw_cell(d, j, k)]);
        assert(draw_collision_upto(d, gfx0, j, k + 1));
    }
    if draw_collision_upto(d, gfx0, j, k + 1) {
        let (a, b) = choose|a: int, b: int|
            0 <= a < d.rows && 0 <= b < d.cols && (a < j || (a == j && b < k + 1))
                && #[trigger] sprite_bit(d, a, b) && gfx0[draw_cell(d, a, b)];
        if a < j || (a == j && b < k) {
            assert(draw_collision_upto(d, gfx0, j, k));
        } else {
            assert(a == j && b == k);
        }
    }
}

/// Finishing row `j` at column `cols` is the same as standing at the start
/// of row `j + 1`.
pub proof fn lemma_row_advance(d: DrawShape, gfx0: Seq<bool>, j: int)
    ensures
        Seq::new(gfx0.len(), |p: int| gfx0[p] != draw_hit_upto(d, p, j, d.cols)) == Seq::new(
            gfx0.len(),
            |p: int| gfx0[p] != draw_hit_upto(d, p, j + 1, 0),
        ),
        draw_collision_upto(d, gfx0, j, d.cols) == draw_collision_upto(d, gfx0, j + 1, 0),
{
    assert(Seq::new(gfx0.len(), |p: int| gfx0[p] != draw_hit_upto(d, p, j, d.cols)) =~= Seq::new(
        gfx0.len(),
        |p: int| gfx0[p] != draw_hit_upto(d, p, j + 1, 0),
    ));
    if draw_collision_upto(d, gfx0, j, d.cols) {
        let (a, b) = choose|a: int, b: int|
            0 <= a < d.rows && 0 <= b < d.cols && (a < j || (a == j && b < d.cols))
                && #[trigger] sprite_bit(d, a, b) && gfx0[draw_cell(d, a, b)];
        assert(a < j + 1 || (a == j + 1 && b < 0));
        assert(draw_collision_upto(d, gfx0, j + 1, 0));
    }
    if draw_collision_upto(d, gfx0, j + 1, 0) {
        let (a, b) = choose|a: int, b: int|
            0 <= a < d.rows && 0 <= b < d.cols && (a < j + 1 || (a == j + 1 && b < 0))
                && #[trigger] sprite_bit(d, a, b) && gfx0[draw_cell(d, a, b)];
        assert(a < j || (a == j && b < d.cols));
        assert(draw_collision_upto(d, gfx0, j, d.cols));
    }
}

/// A cell left of the blanked right-edge columns is not among the last four
/// positions of the framebuffer.
pub proof fn lemma_left_edge(w: int, h: int, q: int, r: int)
    by (nonlinear_arith)
    requires
        0 < w,
        0 <= q,
        q <= h - 1,
        0 <= r,
        r < w - 4,
    ensures
        w * q + r < w * h - 4,
{
}

/// A sprite position in range lands on a framebuffer cell in range, and
/// the full draw toggles exactly that cell when the sprite bit is set.
pub proof fn lemma_cell_bounds(d: DrawShape, glen: int, j: int, k: int)
    requires
        draw_wf(d, glen),
        0 <= j < d.rows,
        0 <= k < d.cols,
    ensures
        0 <= draw_cell(d, j, k) < glen,
        draw_hit(d, draw_cell(d, j, k)) == sprite_bit(d, j, k),
{
    let yo = if d.wrap {
        (d.y0 + j) % d.h
    } else {
        d.y0 + j
    };
    let xc = if d.wrap {
        (d.x0 + k) % d.w
    } else {
        d.x0 + k
    };
    if d.wrap {
        vstd::arithmetic::div_mod::lemma_mod_division_less_than_divisor(d.y0 + j, d.h);
        vstd::arithmetic::div_mod::lemma_mod_division_less_than_divisor(d.x0 + k, d.w);
        lemma_wrap_inverse(d.h, d.y0, j, yo);
        lemma_wrap_inverse(d.w, d.x0, k, xc);
    }
    assert(0 <= yo && yo < d.h);
    assert(0 <= xc && xc < d.w);
    lemma_row_bounds(d.sw, d.h, yo);
    vstd::arithmetic::mul::lemma_mul_is_commutative(d.sw, d.h);
    vstd::arithmetic::mul::lemma_mul_is_commutative(d.sw, yo);
    lemma_cell_index(d.sw, yo, xc);
}

/// What one executed cycle means: the machine followed `step`.  `Ok(None)`
/// advanced the state, `Ok(Some(Action::Quit))` is the exit opcode, and a
/// fault left the state untouched.
pub open spec fn cycle_post(
    pre: VmView,
    post: VmView,
    r: Result<Option<Action>, Fault>,
    rnd: u8,
) -> bool {
    let st = step(pre, rnd);
    match r {
        Ok(a) => (a == Some(Action::Quit) && st == Step::Exit && post == pre) || (a
            == None::<Action> && st == Step::Next(post)),
        Err(f) => st == Step::Fail(f) && post == pre,
    }
}

/// The once-per-frame timer tick: both timers saturate at zero.
pub open spec fn spec_update_timers(s: VmView) -> VmView {
    VmView {
        delay_timer: if s.delay_timer > 0 {
            (s.delay_timer - 1) as u8
        } else {
            0
        },
        sound_timer: if s.sound_timer > 0 {
            (s.sound_timer - 1) as u8
        } else {
            0
        },
        ..s
    }
}

} // verus!
