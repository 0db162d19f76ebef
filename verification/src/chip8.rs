//! The executable CHIP-8 machine, proved to follow the `state::step`
//! transition exactly.

use vstd::prelude::*;

use crate::profile::{Profile, Target, spec_profile};
use crate::screen::{Screen, bits_of};
use crate::state::{
    Action, DrawShape, Fault, KeyWait, VmView, draw_cell, draw_collision, draw_collision_upto,
    cycle_post, draw_gfx, draw_hit_upto, draw_shape, draw_wf,
    lemma_decode_bounds, lemma_div_below, lemma_draw_shape_wf, lemma_draw_step, lemma_left_edge,
    lemma_row_advance, lemma_row_bounds, lemma_row_split, lemma_rowwise_fill,
    spec_draw_sprite, spec_opcode, step, step_op,
    sn, snn, spec_assign_set_reg,
    spec_bcd_store, spec_bitop_and_reg, spec_bitop_or_reg, spec_bitop_shl_reg, spec_bitop_shr_reg,
    spec_bitop_xor_reg, spec_const_add_num, spec_const_set_num, spec_display_clear,
    spec_display_high, spec_display_low, spec_flag_load, spec_flag_store, spec_flow_gosub,
    spec_flow_goto, spec_flow_jump, spec_flow_return, spec_fontset, spec_hires_font,
    spec_initial, spec_key_not_pressed_skip, spec_key_pressed_skip, spec_key_wait,
    spec_math_add_reg, spec_math_neg_reg, spec_math_sub_reg, spec_mem_addi, spec_mem_reg_dump,
    spec_mem_reg_load, spec_mem_spriteaddr, spec_mem_store, spec_rand_and_reg, spec_set_key,
    spec_scroll_down, spec_scroll_left, spec_scroll_right, spec_scroll_up,
    spec_skip_eq_num, spec_skip_eq_reg, spec_skip_neq_num, spec_skip_neq_reg,
    spec_timer_delay_set, spec_timer_delay_store, spec_timer_sound_set, spec_update_timers,
    sx, sy, wf, Step, wrap_add8, wrap_sub8,
};
use crate::util::boxed_array;

verus! {

/// Relies on `rand::random`: one byte from the thread-local generator.
/// Nothing is promised of the value.
#[verifier::external_body]
fn random_byte() -> u8 {
    rand::random()
}

/// The font table as an executable buffer.
fn fontset() -> (v: Vec<u8>)
    ensures
        v@ == spec_fontset(),
{
    let mut v: Vec<u8> = Vec::with_capacity(80);
    v.push(0xF0); v.push(0x90); v.push(0x90); v.push(0x90); v.push(0xF0);
    v.push(0x20); v.push(0x60); v.push(0x20); v.push(0x20); v.push(0x70);
    v.push(0xF0); v.push(0x10); v.push(0xF0); v.push(0x80); v.push(0xF0);
    v.push(0xF0); v.push(0x10); v.push(0xF0); v.push(0x10); v.push(0xF0);
    v.push(0x90); v.push(0x90); v.push(0xF0); v.push(0x10); v.push(0x10);
    v.push(0xF0); v.push(0x80); v.push(0xF0); v.push(0x10); v.push(0xF0);
    v.push(0xF0); v.push(0x80); v.push(0xF0); v.push(0x90); v.push(0xF0);
    v.push(0xF0); v.push(0x10); v.push(0x20); v.push(0x40); v.push(0x40);
    v.push(0xF0); v.push(0x90); v.push(0xF0); v.push(0x90); v.push(0xF0);
    v.push(0xF0); v.push(0x90); v.push(0xF0); v.push(0x10); v.push(0xF0);
    v.push(0xF0); v.push(0x90); v.push(0xF0); v.push(0x90); v.push(0x90);
    v.push(0xE0); v.push(0x90); v.push(0xE0); v.push(0x90); v.push(0xE0);
    v.push(0xF0); v.push(0x80); v.push(0x80); v.push(0x80); v.push(0xF0);
    v.push(0xE0); v.push(0x90); v.push(0x90); v.push(0x90); v.push(0xE0);
    v.push(0xF0); v.push(0x80); v.push(0xF0); v.push(0x80); v.push(0xF0);
    v.push(0xF0); v.push(0x80); v.push(0xF0); v.push(0x80); v.push(0x80);
    proof {
        assert(v@ =~= spec_fontset());
    }
    v
}

/// The virtual machine: registers, memory, framebuffer, timers, call stack,
/// key state and the wait-for-key machine, plus the fixed target variant and
/// its profile.
pub struct Chip8 {
    registers: Vec<u8>,
    user_registers: Vec<u8>,
    i: u16,
    pc: u16,
    memory: Vec<u8>,
    gfx: Screen,
    profile: Profile,
    delay_timer: u8,
    sound_timer: u8,
    stack: Vec<u16>,
    sp: u8,
    key: Vec<bool>,
    draw: bool,
    hires: bool,
    target: Target,
    key_wait: KeyWait,
}

impl View for Chip8 {
    type V = VmView;

    closed spec fn view(&self) -> VmView {
        VmView {
            target: self.target,
            profile: self.profile,
            registers: self.registers@,
            user_registers: self.user_registers@,
            i: self.i,
            pc: self.pc,
            memory: self.memory@,
            gfx: bits_of(self.gfx),
            delay_timer: self.delay_timer,
            sound_timer: self.sound_timer,
            stack: self.stack@,
            sp: self.sp,
            key: self.key@,
            draw: self.draw,
            hires: self.hires,
            key_wait: self.key_wait,
        }
    }
}

/// The X register selector of an opcode, as an index.
fn register_x(o: u16) -> (x: usize)
    ensures
        x as int == sx(o),
        x < 16,
{
    proof {
        lemma_decode_bounds(o);
    }
    ((o >> 8) & 0xF) as usize
}

/// The Y register selector of an opcode, as an index.
fn register_y(o: u16) -> (y: usize)
    ensures
        y as int == sy(o),
        y < 16,
{
    proof {
        lemma_decode_bounds(o);
    }
    ((o >> 4) & 0xF) as usize
}

/// The low byte of an opcode.
fn opcode_value(o: u16) -> (v: u8)
    ensures
        v == snn(o),
{
    (o & 0xFF) as u8
}

impl Chip8 {
    /// A fresh machine for the given target: font loaded, program counter at
    /// 0x200, an initial display refresh owed.
    pub fn new(target: Target, profile: Profile) -> (c: Chip8)
        requires
            profile == spec_profile(target),
        ensures
            c@ == spec_initial(target),
            wf(c@),
    {
        let user_registers = boxed_array(profile.user_register_count as usize);

        let mut memory = boxed_array(profile.memory_capacity);
        let font = fontset();
        let mut j: usize = 0;
        while j < 80
            invariant
                j <= 80,
                font@ == spec_fontset(),
                memory@.len() == profile.memory_capacity,
                profile.memory_capacity >= 4096,
                memory@ == Seq::new(
                    profile.memory_capacity as nat,
                    |t: int| if t < j {
                        spec_fontset()[t]
                    } else {
                        0u8
                    },
                ),
            decreases 80 - j,
        {
            memory[j] = font[j];
            j = j + 1;
            proof {
                assert(memory@ =~= Seq::new(
                    profile.memory_capacity as nat,
                    |t: int| if t < j {
                        spec_fontset()[t]
                    } else {
                        0u8
                    },
                ));
            }
        }

        proof {
            let w = profile.screen_width as int;
            let h = profile.screen_height as int;
            assert(w <= 128 && h <= 64);
            assert(w * h <= 8192) by (nonlinear_arith)
                requires
                    w <= 128,
                    h <= 64,
                    0 <= w,
                    0 <= h,
            ;
        }
        let gfx = Screen::new_filled(
            (profile.screen_width as usize) * (profile.screen_height as usize),
            false,
        );

        let mut stack: Vec<u16> = Vec::with_capacity(16);
        let mut k: usize = 0;
        while k < 16
            invariant
                k <= 16,
                stack@ == Seq::new(k as nat, |t: int| 0u16),
            decreases 16 - k,
        {
            stack.push(0);
            k = k + 1;
            proof {
                assert(stack@ =~= Seq::new(k as nat, |t: int| 0u16));
            }
        }

        let mut key: Vec<bool> = Vec::with_capacity(16);
        let mut m: usize = 0;
        while m < 16
            invariant
                m <= 16,
                key@ == Seq::new(m as nat, |t: int| false),
            decreases 16 - m,
        {
            key.push(false);
            m = m + 1;
            proof {
                assert(key@ =~= Seq::new(m as nat, |t: int| false));
            }
        }

        let c = Chip8 {
            target,
            memory,
            registers: boxed_array(16),
            user_registers,
            i: 0,
            pc: 0x200,
            delay_timer: 0,
            sound_timer: 0,
            stack,
            sp: 0,
            gfx,
            profile,
            key,
            key_wait: KeyWait::Idle,
            draw: true,
            hires: false,
        };
        proof {
            assert(c@.memory =~= spec_initial(target).memory);
            assert(c@ == spec_initial(target));
        }
        c
    }

    /// Copies a ROM image into memory at 0x200.  An image that does not fit
    /// under the memory capacity is rejected untouched.
    pub fn load_rom(&mut self, rom_data: &Vec<u8>) -> (r: Result<(), Fault>)
        requires
            wf(old(self)@),
        ensures
            wf(final(self)@),
            match r {
                Ok(()) => {
                    &&& rom_data@.len() + 0x200 <= old(self)@.memory.len()
                    &&& final(self)@ == (VmView {
                        memory: Seq::new(
                            old(self)@.memory.len(),
                            |t: int| if 0x200 <= t < 0x200 + rom_data@.len() {
                                rom_data@[t - 0x200]
                            } else {
                                old(self)@.memory[t]
                            },
                        ),
                        ..old(self)@
                    })
                },
                Err(f) => {
                    &&& f == Fault::RomTooLarge
                    &&& rom_data@.len() + 0x200 > old(self)@.memory.len()
                    &&& final(self)@ == old(self)@
                },
            },
    {
        proof {
            assert(self@.memory.len() >= 4096);
        }
        if rom_data.len() > self.memory.len() - 0x200 {
            return Err(Fault::RomTooLarge);
        }
        let ghost orig = self@;
        let cap = self.memory.len();
        let mut t: usize = 0;
        proof {
            assert(orig.memory =~= Seq::new(
                orig.memory.len(),
                |q: int| if 0x200 <= q < 0x200 + t {
                    rom_data@[q - 0x200]
                } else {
                    orig.memory[q]
                },
            ));
        }
        while t < rom_data.len()
            invariant
                t <= rom_data@.len(),
                cap == orig.memory.len(),
                0x200 + rom_data@.len() <= cap,
                self@ == (VmView {
                    memory: Seq::new(
                        orig.memory.len(),
                        |q: int| if 0x200 <= q < 0x200 + t {
                            rom_data@[q - 0x200]
                        } else {
                            orig.memory[q]
                        },
                    ),
                    ..orig
                }),
            decreases rom_data@.len() - t,
        {
            self.memory[0x200 + t] = rom_data[t];
            t = t + 1;
            proof {
                assert(self@.memory =~= Seq::new(
                    orig.memory.len(),
                    |q: int| if 0x200 <= q < 0x200 + t {
                        rom_data@[q - 0x200]
                    } else {
                        orig.memory[q]
                    },
                ));
            }
        }
        Ok(())
    }

    /// The framebuffer, read-only, for the display backend.
    pub fn graphics(&self) -> (s: &Screen)
        ensures
            bits_of(*s) == self@.gfx,
    {
        &self.gfx
    }

    /// One pixel of the framebuffer, row-major.
    pub fn pixel(&self, index: usize) -> (b: bool)
        requires
            index < self@.gfx.len(),
        ensures
            b == self@.gfx[index as int],
    {
        self.gfx.get(index)
    }

    /// The number of framebuffer pixels.
    pub fn pixel_count(&self) -> (n: usize)
        ensures
            n == self@.gfx.len(),
    {
        self.gfx.len()
    }

    /// Overwrites every framebuffer pixel; test and diagnostic support.
    pub fn fill_pixels(&mut self, value: bool)
        ensures
            final(self)@ == (VmView {
                gfx: Seq::new(old(self)@.gfx.len(), |p: int| value),
                ..old(self)@
            }),
    {
        let l = self.gfx.len();
        self.gfx.fill_range(0, l, value);
        proof {
            assert(self@.gfx =~= Seq::new(old(self)@.gfx.len(), |p: int| value));
        }
    }

    /// Whether the display backend must re-read the framebuffer.
    pub fn graphics_needs_refresh(&self) -> (b: bool)
        ensures
            b == self@.draw,
    {
        self.draw
    }

    /// The display backend acknowledges the refresh.
    pub fn graphics_clear_refresh(&mut self)
        ensures
            final(self)@ == (VmView { draw: false, ..old(self)@ }),
    {
        self.draw = false;
    }

    /// Marks the framebuffer dirty or clean; test support.
    pub fn set_draw_flag(&mut self, value: bool)
        ensures
            final(self)@ == (VmView { draw: value, ..old(self)@ }),
    {
        self.draw = value;
    }

    /// Whether high-resolution mode is active.
    pub fn hires_mode(&self) -> (b: bool)
        ensures
            b == self@.hires,
    {
        self.hires
    }

    /// The factor by which the display backend scales a pixel: 2 in
    /// low-resolution mode on the large targets, 1 otherwise.
    pub fn resolution_scale(&self) -> (r: u8)
        ensures
            r == (if self@.hires || self@.target == Target::Chip8 {
                1u8
            } else {
                2u8
            }),
    {
        if self.hires || matches!(self.target, Target::Chip8) {
            return 1;
        }
        2
    }

    /// Whether the buzzer should sound: the sound timer is running.
    pub fn audio_sound(&self) -> (b: bool)
        ensures
            b == (self@.sound_timer > 0),
    {
        self.sound_timer > 0
    }

    /// The once-per-frame timer tick; both timers saturate at zero.
    pub fn update_timers(&mut self)
        ensures
            final(self)@ == spec_update_timers(old(self)@),
    {
        if self.delay_timer > 0 {
            self.delay_timer = self.delay_timer - 1;
        }
        if self.sound_timer > 0 {
            self.sound_timer = self.sound_timer - 1;
        }
    }

    /// A key press or release event from the input backend, already mapped
    /// to the canonical 0x0-0xF key space.  A press while a wait-for-key
    /// instruction is armed is captured for it.
    pub fn set_key(&mut self, key: u8, pressed: bool)
        requires
            wf(old(self)@),
            key < 16,
        ensures
            wf(final(self)@),
            final(self)@ == spec_set_key(old(self)@, key, pressed),
    {
        if pressed && !self.key[key as usize] && matches!(self.key_wait, KeyWait::Armed) {
            self.key_wait = KeyWait::Captured(key);
        }
        self.key[key as usize] = pressed;
    }

    /// One general-purpose register; test and diagnostic support.
    pub fn register(&self, x: usize) -> (v: u8)
        requires
            wf(self@),
            x < 16,
        ensures
            v == self@.registers[x as int],
    {
        self.registers[x]
    }

    /// Overwrites one general-purpose register; test support.
    pub fn set_register(&mut self, x: usize, value: u8)
        requires
            wf(old(self)@),
            x < 16,
        ensures
            wf(final(self)@),
            final(self)@ == (VmView {
                registers: old(self)@.registers.update(x as int, value),
                ..old(self)@
            }),
    {
        self.registers[x] = value;
    }

    /// One persistent flag register; test support.
    pub fn user_register(&self, x: usize) -> (v: u8)
        requires
            wf(self@),
            x < self@.user_registers.len(),
        ensures
            v == self@.user_registers[x as int],
    {
        self.user_registers[x]
    }

    /// One byte of memory; test and diagnostic support.
    pub fn memory_at(&self, addr: usize) -> (v: u8)
        requires
            addr < self@.memory.len(),
        ensures
            v == self@.memory[addr as int],
    {
        self.memory[addr]
    }

    /// Overwrites one byte of memory; test support.
    pub fn set_memory(&mut self, addr: usize, value: u8)
        requires
            addr < old(self)@.memory.len(),
        ensures
            final(self)@ == (VmView {
                memory: old(self)@.memory.update(addr as int, value),
                ..old(self)@
            }),
    {
        self.memory[addr] = value;
    }

    /// The memory capacity of this machine.
    pub fn memory_len(&self) -> (n: usize)
        ensures
            n == self@.memory.len(),
    {
        self.memory.len()
    }

    /// The program counter.
    pub fn pc(&self) -> (v: u16)
        ensures
            v == self@.pc,
    {
        self.pc
    }

    /// Overwrites the program counter; test support.
    pub fn set_pc(&mut self, value: u16)
        ensures
            final(self)@ == (VmView { pc: value, ..old(self)@ }),
    {
        self.pc = value;
    }

    /// The stack pointer.
    pub fn sp(&self) -> (v: u8)
        ensures
            v == self@.sp,
    {
        self.sp
    }

    /// Overwrites the stack pointer; test support.
    pub fn set_sp(&mut self, value: u8)
        requires
            value <= 16,
        ensures
            final(self)@ == (VmView { sp: value, ..old(self)@ }),
    {
        self.sp = value;
    }

    /// One call-stack entry; test support.
    pub fn stack_at(&self, idx: usize) -> (v: u16)
        requires
            wf(self@),
            idx < 16,
        ensures
            v == self@.stack[idx as int],
    {
        self.stack[idx]
    }

    /// Overwrites one call-stack entry; test support.
    pub fn set_stack(&mut self, idx: usize, value: u16)
        requires
            wf(old(self)@),
            idx < 16,
        ensures
            wf(final(self)@),
            final(self)@ == (VmView {
                stack: old(self)@.stack.update(idx as int, value),
                ..old(self)@
            }),
    {
        self.stack[idx] = value;
    }

    /// The address register.
    pub fn index_register(&self) -> (v: u16)
        ensures
            v == self@.i,
    {
        self.i
    }

    /// Overwrites the address register; test support.
    pub fn set_index_register(&mut self, value: u16)
        ensures
            final(self)@ == (VmView { i: value, ..old(self)@ }),
    {
        self.i = value;
    }

    /// The delay timer.
    pub fn delay_timer(&self) -> (v: u8)
        ensures
            v == self@.delay_timer,
    {
        self.delay_timer
    }

    /// Sets the delay timer; test support.
    pub fn set_delay_timer(&mut self, value: u8)
        ensures
            final(self)@ == (VmView { delay_timer: value, ..old(self)@ }),
    {
        self.delay_timer = value;
    }

    /// The sound timer.
    pub fn sound_timer(&self) -> (v: u8)
        ensures
            v == self@.sound_timer,
    {
        self.sound_timer
    }

    /// Sets the sound timer; test support.
    pub fn set_sound_timer(&mut self, value: u8)
        ensures
            final(self)@ == (VmView { sound_timer: value, ..old(self)@ }),
    {
        self.sound_timer = value;
    }

    /// Whether a key is currently held down.
    pub fn key_pressed(&self, key: usize) -> (b: bool)
        requires
            wf(self@),
            key < 16,
        ensures
            b == self@.key[key as int],
    {
        self.key[key]
    }

    /// The wait-for-key machine's state; test support.
    pub fn key_wait_state(&self) -> (k: KeyWait)
        ensures
            k == self@.key_wait,
    {
        self.key_wait
    }

    // -----------------------------------------------------------------------
    // Instruction bodies.  Each one is proved equal to its specification
    // function; instructions that rewrite the program counter do so
    // directly, the others return the program-counter delta.

    /// `00EE`: return from a subroutine.
    pub fn c8_flow_return(&mut self) -> (r: Result<(), Fault>)
        requires
            wf(old(self)@),
        ensures
            match r {
                Ok(()) => spec_flow_return(old(self)@) == Step::Next(final(self)@),
                Err(f) => spec_flow_return(old(self)@) == Step::Fail(f) && final(self)@ == old(self)@,
            },
    {
        if self.sp == 0 {
            return Err(Fault::StackUnderflow);
        }
        self.sp = self.sp - 1;
        let target_pc = self.stack[self.sp as usize];
        self.pc = ((target_pc as u32 + 2) % 0x10000) as u16;
        Ok(())
    }

    /// `1NNN`: unconditional jump.
    pub fn c8_flow_goto(&mut self, o: u16)
        requires
            wf(old(self)@),
        ensures
            spec_flow_goto(old(self)@, o) == Step::Next(final(self)@),
    {
        self.pc = o & 0x0FFF;
    }

    /// `2NNN`: call a subroutine; a call with all sixteen stack slots in
    /// use is a fatal fault.
    pub fn c8_flow_gosub(&mut self, o: u16) -> (r: Result<(), Fault>)
        requires
            wf(old(self)@),
        ensures
            match r {
                Ok(()) => spec_flow_gosub(old(self)@, o) == Step::Next(final(self)@),
                Err(f) => spec_flow_gosub(old(self)@, o) == Step::Fail(f) && final(self)@ == old(self)@,
            },
    {
        if self.sp >= 16 {
            return Err(Fault::StackOverflow);
        }
        self.stack[self.sp as usize] = self.pc;
        self.sp = self.sp + 1;
        self.pc = o & 0x0FFF;
        Ok(())
    }

    /// `BNNN` / `BXNN`: jump with register offset.
    pub fn c8_flow_jump(&mut self, o: u16)
        requires
            wf(old(self)@),
        ensures
            spec_flow_jump(old(self)@, o) == Step::Next(final(self)@),
    {
        proof {
            lemma_decode_bounds(o);
        }
        let base = match self.target {
            Target::Chip8 | Target::XoChip => self.registers[0],
            Target::SuperChipLegacy | Target::SuperChip => self.registers[register_x(o)],
        };
        self.pc = (o & 0x0FFF) + base as u16;
    }

    /// `00E0`: clear the screen.
    pub fn c8_display_clear(&mut self) -> (d: u16)
        requires
            wf(old(self)@),
        ensures
            final(self)@ == spec_display_clear(old(self)@).0,
            d == spec_display_clear(old(self)@).1,
    {
        let l = self.gfx.len();
        self.gfx.fill_range(0, l, false);
        self.draw = true;
        proof {
            assert(self@.gfx =~= spec_display_clear(old(self)@).0.gfx);
        }
        2
    }

    /// `3XNN`: skip when VX equals the immediate.
    pub fn c8_cond_skip_eq_num(&self, o: u16) -> (d: u16)
        requires
            wf(self@),
        ensures
            d == spec_skip_eq_num(self@, o).1,
    {
        let reg = register_x(o);
        let val = opcode_value(o);
        if self.registers[reg] == val {
            return 4;
        }
        2
    }

    /// `4XNN`: skip when VX differs from the immediate.
    pub fn c8_cond_skip_neq_num(&self, o: u16) -> (d: u16)
        requires
            wf(self@),
        ensures
            d == spec_skip_neq_num(self@, o).1,
    {
        let reg = register_x(o);
        let val = opcode_value(o);
        if self.registers[reg] == val {
            return 2;
        }
        4
    }

    /// `5XY0`: skip when VX equals VY.
    pub fn c8_cond_skip_eq_reg(&self, o: u16) -> (d: u16)
        requires
            wf(self@),
        ensures
            d == spec_skip_eq_reg(self@, o).1,
    {
        if self.registers[register_x(o)] == self.registers[register_y(o)] {
            return 4;
        }
        2
    }

    /// `9XY0`: skip when VX differs from VY.
    pub fn c8_cond_skipifneq_reg(&self, o: u16) -> (d: u16)
        requires
            wf(self@),
        ensures
            d == spec_skip_neq_reg(self@, o).1,
    {
        if self.registers[register_x(o)] == self.registers[register_y(o)] {
            return 2;
        }
        4
    }

    /// `6XNN`: store the immediate in VX.
    pub fn c8_const_set_num(&mut self, o: u16) -> (d: u16)
        requires
            wf(old(self)@),
        ensures
            final(self)@ == spec_const_set_num(old(self)@, o).0,
            d == spec_const_set_num(old(self)@, o).1,
    {
        let reg = register_x(o);
        self.registers[reg] = opcode_value(o);
        2
    }

    /// `7XNN`: add the immediate to VX, wrapping, flag untouched.
    pub fn c8_const_add_num(&mut self, o: u16) -> (d: u16)
        requires
            wf(old(self)@),
        ensures
            final(self)@ == spec_const_add_num(old(self)@, o).0,
            d == spec_const_add_num(old(self)@, o).1,
    {
        let reg = register_x(o);
        let sum = ((self.registers[reg] as u16 + opcode_value(o) as u16) % 256) as u8;
        self.registers[reg] = sum;
        2
    }

    /// `8XY0`: copy VY into VX.
    pub fn c8_assign_set_reg(&mut self, o: u16) -> (d: u16)
        requires
            wf(old(self)@),
        ensures
            final(self)@ == spec_assign_set_reg(old(self)@, o).0,
            d == spec_assign_set_reg(old(self)@, o).1,
    {
        let v = self.registers[register_y(o)];
        self.registers[register_x(o)] = v;
        2
    }

    /// `8XY1`: VX |= VY; the original CHIP-8 also resets the flag register.
    pub fn c8_bitop_or_reg(&mut self, o: u16) -> (d: u16)
        requires
            wf(old(self)@),
        ensures
            final(self)@ == spec_bitop_or_reg(old(self)@, o).0,
            d == spec_bitop_or_reg(old(self)@, o).1,
    {
        let v = self.registers[register_x(o)] | self.registers[register_y(o)];
        self.registers[register_x(o)] = v;
        match self.target {
            Target::Chip8 => self.registers[15] = 0,
            Target::SuperChipLegacy | Target::SuperChip | Target::XoChip => {},
        }
        2
    }

    /// `8XY2`: VX &= VY; the original CHIP-8 also resets the flag register.
    pub fn c8_bitop_and_reg(&mut self, o: u16) -> (d: u16)
        requires
            wf(old(self)@),
        ensures
            final(self)@ == spec_bitop_and_reg(old(self)@, o).0,
            d == spec_bitop_and_reg(old(self)@, o).1,
    {
        let v = self.registers[register_x(o)] & self.registers[register_y(o)];
        self.registers[register_x(o)] = v;
        match self.target {
            Target::Chip8 => self.registers[15] = 0,
            Target::SuperChipLegacy | Target::SuperChip | Target::XoChip => {},
        }
        2
    }

    /// `8XY3`: VX ^= VY; the original CHIP-8 also resets the flag register.
    pub fn c8_bitop_xor_reg(&mut self, o: u16) -> (d: u16)
        requires
            wf(old(self)@),
        ensures
            final(self)@ == spec_bitop_xor_reg(old(self)@, o).0,
            d == spec_bitop_xor_reg(old(self)@, o).1,
    {
        let v = self.registers[register_x(o)] ^ self.registers[register_y(o)];
        self.registers[register_x(o)] = v;
        match self.target {
            Target::Chip8 => self.registers[15] = 0,
            Target::SuperChipLegacy | Target::SuperChip | Target::XoChip => {},
        }
        2
    }

    /// `8XY4`: VX += VY, flag = carry.
    pub fn c8_math_add_reg(&mut self, o: u16) -> (d: u16)
        requires
            wf(old(self)@),
        ensures
            final(self)@ == spec_math_add_reg(old(self)@, o).0,
            d == spec_math_add_reg(old(self)@, o).1,
    {
        let a = self.registers[register_x(o)];
        let b = self.registers[register_y(o)];
        let sum = a as u16 + b as u16;
        self.registers[register_x(o)] = (sum % 256) as u8;
        self.registers[15] = if sum > 255 {
            1
        } else {
            0
        };
        2
    }

    /// `8XY5`: VX -= VY, flag = no borrow.
    pub fn c8_math_sub_reg(&mut self, o: u16) -> (d: u16)
        requires
            wf(old(self)@),
        ensures
            final(self)@ == spec_math_sub_reg(old(self)@, o).0,
            d == spec_math_sub_reg(old(self)@, o).1,
    {
        let a = self.registers[register_x(o)];
        let b = self.registers[register_y(o)];
        let diff = ((a as u16 + 256 - b as u16) % 256) as u8;
        self.registers[register_x(o)] = diff;
        self.registers[15] = if a >= b {
            1
        } else {
            0
        };
        proof {
            assert(diff == wrap_sub8(a, b));
        }
        2
    }

    /// `8XY7`: VX = VY - VX, flag = no borrow.
    pub fn c8_math_neg_reg(&mut self, o: u16) -> (d: u16)
        requires
            wf(old(self)@),
        ensures
            final(self)@ == spec_math_neg_reg(old(self)@, o).0,
            d == spec_math_neg_reg(old(self)@, o).1,
    {
        let a = self.registers[register_x(o)];
        let b = self.registers[register_y(o)];
        let diff = ((b as u16 + 256 - a as u16) % 256) as u8;
        self.registers[register_x(o)] = diff;
        self.registers[15] = if b >= a {
            1
        } else {
            0
        };
        proof {
            assert(diff == wrap_sub8(b, a));
        }
        2
    }

    /// `8XY6`: shift right; the source register depends on the target.
    pub fn c8_bitop_shr_reg(&mut self, o: u16) -> (d: u16)
        requires
            wf(old(self)@),
        ensures
            final(self)@ == spec_bitop_shr_reg(old(self)@, o).0,
            d == spec_bitop_shr_reg(old(self)@, o).1,
    {
        let reg_x = register_x(o);
        let val = match self.target {
            Target::Chip8 | Target::XoChip => self.registers[register_y(o)],
            Target::SuperChipLegacy | Target::SuperChip => self.registers[reg_x],
        };
        self.registers[reg_x] = val >> 1;
        self.registers[15] = val & 0x1;
        2
    }

    /// `8XYE`: shift left; the source register depends on the target.
    pub fn c8_bitop_shl_reg(&mut self, o: u16) -> (d: u16)
        requires
            wf(old(self)@),
        ensures
            final(self)@ == spec_bitop_shl_reg(old(self)@, o).0,
            d == spec_bitop_shl_reg(old(self)@, o).1,
    {
        let reg_x = register_x(o);
        let val = match self.target {
            Target::Chip8 | Target::XoChip => self.registers[register_y(o)],
            Target::SuperChipLegacy | Target::SuperChip => self.registers[reg_x],
        };
        self.registers[reg_x] = val << 1;
        self.registers[15] = val >> 7;
        2
    }

    /// `ANNN`: store the address immediate in the address register.
    pub fn c8_mem_store(&mut self, o: u16) -> (d: u16)
        requires
            wf(old(self)@),
        ensures
            final(self)@ == spec_mem_store(old(self)@, o).0,
            d == spec_mem_store(old(self)@, o).1,
    {
        self.i = o & 0x0FFF;
        2
    }

    /// `CXNN`: VX = random byte AND the immediate.
    pub fn c8_rand_and_reg(&mut self, o: u16, rnd: u8) -> (d: u16)
        requires
            wf(old(self)@),
        ensures
            final(self)@ == spec_rand_and_reg(old(self)@, o, rnd).0,
            d == spec_rand_and_reg(old(self)@, o, rnd).1,
    {
        let reg = register_x(o);
        self.registers[reg] = opcode_value(o) & rnd;
        2
    }

    /// `EX9E`: skip when the key named by VX is pressed.
    pub fn c8_key_pressedskip(&self, o: u16) -> (r: Result<u16, Fault>)
        requires
            wf(self@),
        ensures
            match r {
                Ok(d) => spec_key_pressed_skip(self@, o) == Ok::<_, Fault>((self@, d)),
                Err(f) => spec_key_pressed_skip(self@, o) == Err::<(VmView, u16), _>(f),
            },
    {
        let k = self.registers[register_x(o)];
        if k >= 16 {
            return Err(Fault::OutOfBounds);
        }
        if self.key[k as usize] {
            Ok(4)
        } else {
            Ok(2)
        }
    }

    /// `EXA1`: skip when the key named by VX is not pressed.
    pub fn c8_key_notpressedskip(&self, o: u16) -> (r: Result<u16, Fault>)
        requires
            wf(self@),
        ensures
            match r {
                Ok(d) => spec_key_not_pressed_skip(self@, o) == Ok::<_, Fault>((self@, d)),
                Err(f) => spec_key_not_pressed_skip(self@, o) == Err::<(VmView, u16), _>(f),
            },
    {
        let k = self.registers[register_x(o)];
        if k >= 16 {
            return Err(Fault::OutOfBounds);
        }
        if self.key[k as usize] {
            Ok(2)
        } else {
            Ok(4)
        }
    }

    /// `FX0A`: wait for a keypress; holds the program counter until a
    /// captured key is consumed into VX.
    pub fn c8_key_wait(&mut self, o: u16) -> (d: u16)
        requires
            wf(old(self)@),
        ensures
            final(self)@ == spec_key_wait(old(self)@, o).0,
            d == spec_key_wait(old(self)@, o).1,
    {
        match self.key_wait {
            KeyWait::Captured(key_num) => {
                let reg = register_x(o);
                self.key_wait = KeyWait::Idle;
                self.registers[reg] = key_num;
                2
            },
            KeyWait::Idle => {
                self.key_wait = KeyWait::Armed;
                0
            },
            KeyWait::Armed => 0,
        }
    }

    /// `FX07`: store the delay timer in VX.
    pub fn c8_timer_delay_store(&mut self, o: u16) -> (d: u16)
        requires
            wf(old(self)@),
        ensures
            final(self)@ == spec_timer_delay_store(old(self)@, o).0,
            d == spec_timer_delay_store(old(self)@, o).1,
    {
        let v = self.delay_timer;
        self.registers[register_x(o)] = v;
        2
    }

    /// `FX15`: set the delay timer from VX.
    pub fn c8_timer_delay_set(&mut self, o: u16) -> (d: u16)
        requires
            wf(old(self)@),
        ensures
            final(self)@ == spec_timer_delay_set(old(self)@, o).0,
            d == spec_timer_delay_set(old(self)@, o).1,
    {
        self.delay_timer = self.registers[register_x(o)];
        2
    }

    /// `FX18`: set the sound timer from VX.
    pub fn c8_timer_sound_set(&mut self, o: u16) -> (d: u16)
        requires
            wf(old(self)@),
        ensures
            final(self)@ == spec_timer_sound_set(old(self)@, o).0,
            d == spec_timer_sound_set(old(self)@, o).1,
    {
        self.sound_timer = self.registers[register_x(o)];
        2
    }

    /// `FX1E`: add VX to the address register, wrapping the 12-bit space
    /// once and setting the flag on overflow.
    pub fn c8_mem_addi(&mut self, o: u16) -> (d: u16)
        requires
            wf(old(self)@),
        ensures
            final(self)@ == spec_mem_addi(old(self)@, o).0,
            d == spec_mem_addi(old(self)@, o).1,
    {
        let reg_x = register_x(o);
        let sum = ((self.i as u32 + self.registers[reg_x] as u32) % 0x10000) as u16;
        if sum > 0xFFF {
            self.i = sum - 0x1000;
            self.registers[15] = 1;
        } else {
            self.i = sum;
        }
        2
    }

    /// `FX29`: point the address register at the font glyph for the low
    /// nibble of VX.
    pub fn c8_mem_spriteaddr(&mut self, o: u16) -> (d: u16)
        requires
            wf(old(self)@),
        ensures
            final(self)@ == spec_mem_spriteaddr(old(self)@, o).0,
            d == spec_mem_spriteaddr(old(self)@, o).1,
    {
        let v = self.registers[register_x(o)];
        self.i = 5 * ((v & 0xF) as u16);
        2
    }

    /// `FX30`: point the address register at the high-resolution glyph for
    /// VX; values above 9 are silently ignored.
    pub fn sc_hires_font(&mut self, o: u16) -> (d: u16)
        requires
            wf(old(self)@),
        ensures
            final(self)@ == spec_hires_font(old(self)@, o).0,
            d == spec_hires_font(old(self)@, o).1,
    {
        let value = self.registers[register_x(o)];
        if value <= 9 {
            self.i = 10 * (value as u16);
        }
        2
    }

    /// `FX33`: store the decimal digits of VX at I, I+1, I+2.
    pub fn c8_bcd_store(&mut self, o: u16) -> (r: Result<u16, Fault>)
        requires
            wf(old(self)@),
        ensures
            wf(final(self)@),
            match r {
                Ok(d) => spec_bcd_store(old(self)@, o) == Ok::<_, Fault>((final(self)@, d)),
                Err(f) => spec_bcd_store(old(self)@, o) == Err::<(VmView, u16), _>(f) && final(self)@ == old(self)@,
            },
    {
        if self.i as usize + 2 >= self.memory.len() {
            return Err(Fault::OutOfBounds);
        }
        let val = self.registers[register_x(o)];
        proof {
            assert(val % 100 >= val % 10) by (bit_vector);
            assert(((val % 100) - (val % 10)) / 10 + (val % 10) <= val) by (bit_vector);
        }
        let ones = val % 10;
        let tens = ((val % 100) - ones) / 10;
        let hundreds = (val - (tens + ones)) / 100;
        let base = self.i as usize;
        self.memory[base] = hundreds;
        self.memory[base + 1] = tens;
        self.memory[base + 2] = ones;
        Ok(2)
    }

    /// `FX55`: copy registers 0..=X to memory at the address register; the
    /// address register advances by X+1 except on SuperChip.
    pub fn c8_mem_reg_dump(&mut self, o: u16) -> (r: Result<u16, Fault>)
        requires
            wf(old(self)@),
        ensures
            wf(final(self)@),
            match r {
                Ok(d) => spec_mem_reg_dump(old(self)@, o) == Ok::<_, Fault>((final(self)@, d)),
                Err(f) => spec_mem_reg_dump(old(self)@, o) == Err::<(VmView, u16), _>(f) && final(self)@ == old(self)@,
            },
    {
        let reg_num = register_x(o);
        if self.i as usize + reg_num >= self.memory.len() {
            return Err(Fault::OutOfBounds);
        }
        let base = self.i as usize;
        let ghost orig = self@;
        let mut k: usize = 0;
        proof {
            assert(orig.memory =~= Seq::new(
                orig.memory.len(),
                |j: int| if base <= j < base + k {
                    orig.registers[j - base]
                } else {
                    orig.memory[j]
                },
            ));
        }
        while k <= reg_num
            invariant
                wf(orig),
                k <= reg_num + 1,
                reg_num < 16,
                reg_num == sx(o),
                base == orig.i,
                base + reg_num < orig.memory.len(),
                self@ == (VmView {
                    memory: Seq::new(
                        orig.memory.len(),
                        |j: int| if base <= j < base + k {
                            orig.registers[j - base]
                        } else {
                            orig.memory[j]
                        },
                    ),
                    ..orig
                }),
            decreases reg_num + 1 - k,
        {
            self.memory[base + k] = self.registers[k];
            k = k + 1;
            proof {
                assert(self@.memory =~= Seq::new(
                    orig.memory.len(),
                    |j: int| if base <= j < base + k {
                        orig.registers[j - base]
                    } else {
                        orig.memory[j]
                    },
                ));
            }
        }
        match self.target {
            Target::Chip8 | Target::XoChip => {
                self.i = ((self.i as u32 + reg_num as u32 + 1) % 0x10000) as u16;
            },
            Target::SuperChipLegacy | Target::SuperChip => {},
        }
        proof {
            assert(self@.memory =~= spec_mem_reg_dump(orig, o)->Ok_0.0.memory);
        }
        Ok(2)
    }

    /// `FX65`: fill registers 0..=X from memory at the address register; the
    /// address register advances by X+1 except on SuperChip.
    pub fn c8_mem_reg_load(&mut self, o: u16) -> (r: Result<u16, Fault>)
        requires
            wf(old(self)@),
        ensures
            wf(final(self)@),
            match r {
                Ok(d) => spec_mem_reg_load(old(self)@, o) == Ok::<_, Fault>((final(self)@, d)),
                Err(f) => spec_mem_reg_load(old(self)@, o) == Err::<(VmView, u16), _>(f) && final(self)@ == old(self)@,
            },
    {
        let reg_num = register_x(o);
        if self.i as usize + reg_num >= self.memory.len() {
            return Err(Fault::OutOfBounds);
        }
        let base = self.i as usize;
        let ghost orig = self@;
        let mut k: usize = 0;
        proof {
            assert(orig.registers =~= Seq::new(
                16,
                |j: int| if j < k {
                    orig.memory[base + j]
                } else {
                    orig.registers[j]
                },
            ));
        }
        while k <= reg_num
            invariant
                wf(orig),
                k <= reg_num + 1,
                reg_num < 16,
                reg_num == sx(o),
                base == orig.i,
                base + reg_num < orig.memory.len(),
                self@ == (VmView {
                    registers: Seq::new(
                        16,
                        |j: int| if j < k {
                            orig.memory[base + j]
                        } else {
                            orig.registers[j]
                        },
                    ),
                    ..orig
                }),
            decreases reg_num + 1 - k,
        {
            self.registers[k] = self.memory[base + k];
            k = k + 1;
            proof {
                assert(self@.registers =~= Seq::new(
                    16,
                    |j: int| if j < k {
                        orig.memory[base + j]
                    } else {
                        orig.registers[j]
                    },
                ));
            }
        }
        match self.target {
            Target::Chip8 | Target::XoChip => {
                self.i = ((self.i as u32 + reg_num as u32 + 1) % 0x10000) as u16;
            },
            Target::SuperChipLegacy | Target::SuperChip => {},
        }
        proof {
            assert(self@.registers =~= spec_mem_reg_load(orig, o)->Ok_0.0.registers);
        }
        Ok(2)
    }

    /// `FX75`: store registers 0..=X in the persistent flag bank; requests
    /// past the bank's capacity are silently ignored.
    pub fn sc_flag_store(&mut self, o: u16) -> (d: u16)
        requires
            wf(old(self)@),
        ensures
            wf(final(self)@),
            final(self)@ == spec_flag_store(old(self)@, o).0,
            d == spec_flag_store(old(self)@, o).1,
    {
        let c = register_x(o);
        if c < self.user_registers.len() {
            let ghost orig = self@;
            let mut k: usize = 0;
            proof {
                assert(orig.user_registers =~= Seq::new(
                    orig.user_registers.len(),
                    |j: int| if j < k {
                        orig.registers[j]
                    } else {
                        orig.user_registers[j]
                    },
                ));
            }
            while k <= c
                invariant
                    wf(orig),
                    k <= c + 1,
                    c < orig.user_registers.len(),
                    c == sx(o),
                    self@ == (VmView {
                        user_registers: Seq::new(
                            orig.user_registers.len(),
                            |j: int| if j < k {
                                orig.registers[j]
                            } else {
                                orig.user_registers[j]
                            },
                        ),
                        ..orig
                    }),
                decreases c + 1 - k,
            {
                self.user_registers[k] = self.registers[k];
                k = k + 1;
                proof {
                    assert(self@.user_registers =~= Seq::new(
                        orig.user_registers.len(),
                        |j: int| if j < k {
                            orig.registers[j]
                        } else {
                            orig.user_registers[j]
                        },
                    ));
                }
            }
            proof {
                assert(self@.user_registers =~= spec_flag_store(orig, o).0.user_registers);
            }
        }
        2
    }

    /// `FX85`: fill registers 0..=X from the persistent flag bank; requests
    /// past the bank's capacity are silently ignored.
    pub fn sc_flag_load(&mut self, o: u16) -> (d: u16)
        requires
            wf(old(self)@),
        ensures
            wf(final(self)@),
            final(self)@ == spec_flag_load(old(self)@, o).0,
            d == spec_flag_load(old(self)@, o).1,
    {
        let c = register_x(o);
        if c < self.user_registers.len() {
            let ghost orig = self@;
            let mut k: usize = 0;
            proof {
                assert(orig.registers =~= Seq::new(
                    16,
                    |j: int| if j < k {
                        orig.user_registers[j]
                    } else {
                        orig.registers[j]
                    },
                ));
            }
            while k <= c
                invariant
                    wf(orig),
                    k <= c + 1,
                    c < orig.user_registers.len(),
                    c == sx(o),
                    self@ == (VmView {
                        registers: Seq::new(
                            16,
                            |j: int| if j < k {
                                orig.user_registers[j]
                            } else {
                                orig.registers[j]
                            },
                        ),
                        ..orig
                    }),
                decreases c + 1 - k,
            {
                self.registers[k] = self.user_registers[k];
                k = k + 1;
                proof {
                    assert(self@.registers =~= Seq::new(
                        16,
                        |j: int| if j < k {
                            orig.user_registers[j]
                        } else {
                            orig.registers[j]
                        },
                    ));
                }
            }
            proof {
                assert(self@.registers =~= spec_flag_load(orig, o).0.registers);
            }
        }
        2
    }

    /// `DXYN`: draw a sprite at (VX, VY) and report collisions in register
    /// 15.  The geometry quirks (halved low-resolution surface, 16-wide
    /// super sprite, wrap versus clip) are decided here.
    pub fn c8_draw_sprite(&mut self, o: u16) -> (r: Result<u16, Fault>)
        requires
            wf(old(self)@),
        ensures
            wf(final(self)@),
            match r {
                Ok(dd) => spec_draw_sprite(old(self)@, o) == Ok::<_, Fault>((final(self)@, dd)),
                Err(f) => spec_draw_sprite(old(self)@, o) == Err::<(VmView, u16), _>(f) && final(self)@ == old(self)@,
            },
    {
        let ghost s0 = self@;
        let ghost d = draw_shape(s0, o);
        proof {
            lemma_decode_bounds(o);
        }
        let data_count = (o & 0xF) as usize;
        let big = !matches!(self.target, Target::Chip8);
        let xo = matches!(self.target, Target::XoChip);
        let w_eff: u8 = if big && !self.hires {
            self.profile.screen_width / 2
        } else {
            self.profile.screen_width
        };
        let h_eff: u8 = if big && !self.hires {
            self.profile.screen_height / 2
        } else {
            self.profile.screen_height
        };
        proof {
            assert(w_eff >= 64 && h_eff >= 32);
            assert(w_eff as int == d.w && h_eff as int == d.h);
        }
        let supersize = big && self.hires && data_count == 0;
        let size: usize = if supersize {
            16
        } else {
            8
        };
        let nrows: usize = if supersize {
            16
        } else {
            data_count
        };
        let vx = self.registers[register_x(o)];
        let vy = self.registers[register_y(o)];
        let x0 = (vx % w_eff) as usize;
        let y0 = (vy % h_eff) as usize;
        let rows: usize = if xo {
            nrows
        } else if nrows < h_eff as usize - y0 {
            nrows
        } else {
            h_eff as usize - y0
        };
        let cols: usize = if xo {
            size
        } else if size < w_eff as usize - x0 {
            size
        } else {
            w_eff as usize - x0
        };
        proof {
            assert(x0 as int == d.x0 && y0 as int == d.y0);
            assert(rows as int == d.rows && cols as int == d.cols);
        }
        if rows > 0 && self.i as usize + rows > self.memory.len() {
            return Err(Fault::OutOfBounds);
        }
        proof {
            lemma_draw_shape_wf(s0, o);
        }
        let unset = self.draw_sprite(x0, y0, rows, cols, xo, w_eff as usize, h_eff as usize, Ghost(d));
        self.draw = true;
        self.registers[15] = if unset {
            1
        } else {
            0
        };
        Ok(2)
    }

    /// The sprite plot loop: XORs the sprite's bits into the framebuffer
    /// row by row and reports whether any set pixel was turned off.
    #[verifier::rlimit(30)]
    fn draw_sprite(
        &mut self,
        x0: usize,
        y0: usize,
        rows: usize,
        cols: usize,
        wrap: bool,
        width: usize,
        height: usize,
        Ghost(d): Ghost<DrawShape>,
    ) -> (unset: bool)
        requires
            wf(old(self)@),
            d.mem == old(self)@.memory,
            d.addr == old(self)@.i as int,
            d.wrap == wrap,
            d.x0 == x0 as int,
            d.y0 == y0 as int,
            d.w == width as int,
            d.h == height as int,
            d.rows == rows as int,
            d.cols == cols as int,
            d.sw == old(self)@.profile.screen_width as int,
            width <= 256,
            height <= 256,
            draw_wf(d, old(self)@.gfx.len() as int),
        ensures
            final(self)@ == (VmView { gfx: draw_gfx(d, old(self)@.gfx), ..old(self)@ }),
            unset == draw_collision(d, old(self)@.gfx),
    {
        let ghost orig = self@;
        let glen = self.gfx.len();
        let sw = self.profile.screen_width as usize;
        let mut unset = false;
        proof {
            assert(Seq::new(orig.gfx.len(), |p: int| orig.gfx[p] != draw_hit_upto(d, p, 0, 0))
                =~= orig.gfx);
            assert(!draw_collision_upto(d, orig.gfx, 0, 0));
        }
        let mut j: usize = 0;
        while j < rows
            invariant
                wf(orig),
                j <= rows,
                d.mem == orig.memory,
                d.addr == orig.i as int,
                d.wrap == wrap,
                d.x0 == x0 as int,
                d.y0 == y0 as int,
                d.w == width as int,
                d.h == height as int,
                d.rows == rows as int,
                d.cols == cols as int,
                d.sw == sw as int,
                sw == orig.profile.screen_width,
                width <= 256,
                height <= 256,
                glen == orig.gfx.len(),
                draw_wf(d, orig.gfx.len() as int),
                unset == draw_collision_upto(d, orig.gfx, j as int, 0),
                self@ == (VmView {
                    gfx: Seq::new(
                        orig.gfx.len(),
                        |p: int| orig.gfx[p] != draw_hit_upto(d, p, j as int, 0),
                    ),
                    ..orig
                }),
            decreases rows - j,
        {
            let y_off = if wrap {
                (y0 + j) % height
            } else {
                y0 + j
            };
            proof {
                if wrap {
                    vstd::arithmetic::div_mod::lemma_mod_division_less_than_divisor(
                        y0 as int + j as int,
                        height as int,
                    );
                }
                assert(0 <= (y_off as int) && (y_off as int) < d.h);
                lemma_row_bounds(d.sw, d.h, y_off as int);
            }
            let y_temp = y_off * sw;
            let mem_value = self.memory[self.i as usize + j];
            let ghost jj = j as int;
            let mut k: usize = 0;
            while k < cols
                invariant
                    wf(orig),
                    jj == j as int,
                    j < rows,
                    k <= cols,
                    d.mem == orig.memory,
                    d.addr == orig.i as int,
                    d.wrap == wrap,
                    d.x0 == x0 as int,
                    d.y0 == y0 as int,
                    d.w == width as int,
                    d.h == height as int,
                    d.rows == rows as int,
                    d.cols == cols as int,
                    d.sw == sw as int,
                    sw == orig.profile.screen_width,
                    width <= 256,
                    height <= 256,
                    glen == orig.gfx.len(),
                    draw_wf(d, orig.gfx.len() as int),
                    y_off as int == (if d.wrap {
                        (d.y0 + jj) % d.h
                    } else {
                        d.y0 + jj
                    }),
                    y_temp == y_off * sw,
                    mem_value == d.mem[d.addr + jj],
                    unset == draw_collision_upto(d, orig.gfx, jj, k as int),
                    self@ == (VmView {
                        gfx: Seq::new(
                            orig.gfx.len(),
                            |p: int| orig.gfx[p] != draw_hit_upto(d, p, jj, k as int),
                        ),
                        ..orig
                    }),
                decreases cols - k,
            {
                let x_off = if wrap {
                    (x0 + k) % width
                } else {
                    x0 + k
                };
                proof {
                    lemma_draw_step(d, orig.gfx, bits_of(self.gfx), jj, k as int);
                    assert(y_temp + x_off == draw_cell(d, jj, k as int));
                }
                if mem_value & (0x80u8 >> ((k % 8) as u8)) != 0 {
                    let offset = y_temp + x_off;
                    let cur = self.gfx.get(offset);
                    unset = unset || cur;
                    self.gfx.set(offset, !cur);
                }
                k = k + 1;
                proof {
                    assert(bits_of(self.gfx) =~= Seq::new(
                        orig.gfx.len(),
                        |p: int| orig.gfx[p] != draw_hit_upto(d, p, jj, k as int),
                    ));
                }
            }
            j = j + 1;
            proof {
                lemma_row_advance(d, orig.gfx, jj);
                assert(bits_of(self.gfx) =~= Seq::new(
                    orig.gfx.len(),
                    |p: int| orig.gfx[p] != draw_hit_upto(d, p, j as int, 0),
                ));
            }
        }
        proof {
            assert(bits_of(self.gfx) =~= draw_gfx(d, orig.gfx));
        }
        unset
    }

    /// `00CN`: scroll the framebuffer down by N rows.
    pub fn sc_scroll_down(&mut self, o: u16) -> (d: u16)
        requires
            wf(old(self)@),
        ensures
            final(self)@ == spec_scroll_down(old(self)@, sn(o)).0,
            d == spec_scroll_down(old(self)@, sn(o)).1,
    {
        let num_of_rows = (o & 0xF) as usize;
        let width = self.profile.screen_width as usize;
        let height = self.profile.screen_height as usize;
        let len = self.gfx.len();
        proof {
            lemma_decode_bounds(o);
            assert(width >= 64 && height >= 32);
            lemma_row_split(width as int, height as int, num_of_rows as int);
            lemma_row_bounds(width as int, height as int, num_of_rows as int);
            assert(len == width as int * height as int);
        }
        self.gfx.copy_within(0, (height - num_of_rows) * width, num_of_rows * width);
        self.gfx.fill_range(0, num_of_rows * width, false);
        self.draw = true;
        proof {
            assert(bits_of(self.gfx) =~= spec_scroll_down(old(self)@, sn(o)).0.gfx);
        }
        2
    }

    /// `00DN`: scroll the framebuffer up by N rows.
    pub fn xo_scroll_up(&mut self, o: u16) -> (d: u16)
        requires
            wf(old(self)@),
        ensures
            final(self)@ == spec_scroll_up(old(self)@, sn(o)).0,
            d == spec_scroll_up(old(self)@, sn(o)).1,
    {
        let num_of_rows = (o & 0xF) as usize;
        let width = self.profile.screen_width as usize;
        let height = self.profile.screen_height as usize;
        let len = self.gfx.len();
        proof {
            lemma_decode_bounds(o);
            assert(width >= 64 && height >= 32);
            lemma_row_split(width as int, height as int, num_of_rows as int);
            lemma_row_bounds(width as int, height as int, num_of_rows as int);
            assert(len == width as int * height as int);
        }
        self.gfx.copy_within(num_of_rows * width, len, 0);
        self.gfx.fill_range((height - num_of_rows) * width, len, false);
        self.draw = true;
        proof {
            assert(bits_of(self.gfx) =~= spec_scroll_up(old(self)@, sn(o)).0.gfx);
        }
        2
    }

    /// `00FB`: scroll the framebuffer right by 4 columns.
    pub fn sc_scroll_right(&mut self) -> (d: u16)
        requires
            wf(old(self)@),
        ensures
            final(self)@ == spec_scroll_right(old(self)@).0,
            d == spec_scroll_right(old(self)@).1,
    {
        let width = self.profile.screen_width as usize;
        let height = self.profile.screen_height as usize;
        let len = self.gfx.len();
        let ghost orig = self@;
        let ghost w = width as int;
        let ghost h = height as int;
        proof {
            assert(w >= 64 && h >= 32);
            lemma_row_bounds(w, h, 0);
        }
        self.gfx.copy_within(0, len - 4, 4);
        let ghost mid = bits_of(self.gfx);
        proof {
            assert(mid =~= Seq::new(
                orig.gfx.len(),
                |j: int| if 4 <= j < orig.gfx.len() {
                    orig.gfx[j - 4]
                } else {
                    orig.gfx[j]
                },
            ));
            assert forall|j: int| 0 <= j < orig.gfx.len() implies mid[j] == (if j / w < 0 && 0 <= j
                % w < 4 {
                false
            } else {
                mid[j]
            }) by {
                lemma_div_below(j, w, h);
            };
            assert(mid =~= Seq::new(
                orig.gfx.len(),
                |j: int| if j / w < 0 && 0 <= j % w < 4 {
                    false
                } else {
                    mid[j]
                },
            ));
        }
        let mut y: usize = 0;
        while y < height
            invariant
                y <= height,
                w == orig.profile.screen_width as int,
                h == orig.profile.screen_height as int,
                w >= 64,
                h >= 32,
                width as int == w,
                height as int == h,
                orig.gfx.len() == w * h,
                len == orig.gfx.len(),
                mid.len() == orig.gfx.len(),
                mid == Seq::new(
                    orig.gfx.len(),
                    |j: int| if 4 <= j < orig.gfx.len() {
                        orig.gfx[j - 4]
                    } else {
                        orig.gfx[j]
                    },
                ),
                self@ == (VmView {
                    gfx: Seq::new(
                        orig.gfx.len(),
                        |j: int| if j / w < y && 0 <= j % w < 4 {
                            false
                        } else {
                            mid[j]
                        },
                    ),
                    ..orig
                }),
            decreases height - y,
        {
            let ghost yy = y as int;
            let ghost cur = bits_of(self.gfx);
            proof {
                lemma_row_bounds(w, h, yy);
            }
            let offset = y * width;
            self.gfx.fill_range(offset, offset + 4, false);
            y = y + 1;
            proof {
                assert(bits_of(self.gfx) =~= Seq::new(
                    mid.len(),
                    |j: int| if yy * w + 0 <= j < yy * w + 4 {
                        false
                    } else {
                        cur[j]
                    },
                ));
                lemma_rowwise_fill(mid, cur, bits_of(self.gfx), w, h, yy, 0, 4);
            }
        }
        self.draw = true;
        proof {
            assert forall|j: int| 0 <= j < orig.gfx.len() implies bits_of(self.gfx)[j]
                == spec_scroll_right(orig).0.gfx[j] by {
                lemma_div_below(j, w, h);
            };
            assert(bits_of(self.gfx) =~= spec_scroll_right(orig).0.gfx);
        }
        2
    }

    /// `00FC`: scroll the framebuffer left by 4 columns.
    pub fn sc_scroll_left(&mut self) -> (d: u16)
        requires
            wf(old(self)@),
        ensures
            final(self)@ == spec_scroll_left(old(self)@).0,
            d == spec_scroll_left(old(self)@).1,
    {
        let width = self.profile.screen_width as usize;
        let height = self.profile.screen_height as usize;
        let len = self.gfx.len();
        let ghost orig = self@;
        let ghost w = width as int;
        let ghost h = height as int;
        proof {
            assert(w >= 64 && h >= 32);
            lemma_row_bounds(w, h, 0);
        }
        self.gfx.copy_within(4, len, 0);
        let ghost mid = bits_of(self.gfx);
        proof {
            assert(mid =~= Seq::new(
                orig.gfx.len(),
                |j: int| if 0 <= j < orig.gfx.len() - 4 {
                    orig.gfx[j + 4]
                } else {
                    orig.gfx[j]
                },
            ));
            assert forall|j: int| 0 <= j < orig.gfx.len() implies mid[j] == (if j / w < 0 && w - 4
                <= j % w < w {
                false
            } else {
                mid[j]
            }) by {
                lemma_div_below(j, w, h);
            };
            assert(mid =~= Seq::new(
                orig.gfx.len(),
                |j: int| if j / w < 0 && w - 4 <= j % w < w {
                    false
                } else {
                    mid[j]
                },
            ));
        }
        let mut y: usize = 0;
        while y < height
            invariant
                y <= height,
                w == orig.profile.screen_width as int,
                h == orig.profile.screen_height as int,
                w >= 64,
                h >= 32,
                width as int == w,
                height as int == h,
                orig.gfx.len() == w * h,
                len == orig.gfx.len(),
                mid.len() == orig.gfx.len(),
                mid == Seq::new(
                    orig.gfx.len(),
                    |j: int| if 0 <= j < orig.gfx.len() - 4 {
                        orig.gfx[j + 4]
                    } else {
                        orig.gfx[j]
                    },
                ),
                self@ == (VmView {
                    gfx: Seq::new(
                        orig.gfx.len(),
                        |j: int| if j / w < y && w - 4 <= j % w < w {
                            false
                        } else {
                            mid[j]
                        },
                    ),
                    ..orig
                }),
            decreases height - y,
        {
            let ghost yy = y as int;
            let ghost cur = bits_of(self.gfx);
            proof {
                lemma_row_bounds(w, h, yy);
            }
            let offset = y * width;
            self.gfx.fill_range(offset + width - 4, offset + width, false);
            y = y + 1;
            proof {
                assert(bits_of(self.gfx) =~= Seq::new(
                    mid.len(),
                    |j: int| if yy * w + (w - 4) <= j < yy * w + w {
                        false
                    } else {
                        cur[j]
                    },
                ));
                lemma_rowwise_fill(mid, cur, bits_of(self.gfx), w, h, yy, w - 4, w);
            }
        }
        self.draw = true;
        proof {
            assert forall|j: int| 0 <= j < orig.gfx.len() implies bits_of(self.gfx)[j]
                == spec_scroll_left(orig).0.gfx[j] by {
                lemma_div_below(j, w, h);
                if j % w < w - 4 {
                    lemma_left_edge(w, h, j / w, j % w);
                }
            };
            assert(bits_of(self.gfx) =~= spec_scroll_left(orig).0.gfx);
        }
        2
    }

    /// `00FE`: leave high-resolution mode.
    pub fn sc_display_low(&mut self) -> (d: u16)
        requires
            wf(old(self)@),
        ensures
            final(self)@ == spec_display_low(old(self)@).0,
            d == spec_display_low(old(self)@).1,
    {
        if self.hires {
            if matches!(self.target, Target::XoChip) {
                let l = self.gfx.len();
                self.gfx.fill_range(0, l, false);
                proof {
                    assert(bits_of(self.gfx) =~= Seq::new(old(self)@.gfx.len(), |p: int| false));
                }
            }
            self.hires = false;
            self.draw = true;
        }
        2
    }

    /// `00FF`: enter high-resolution mode.
    pub fn sc_display_high(&mut self) -> (d: u16)
        requires
            wf(old(self)@),
        ensures
            final(self)@ == spec_display_high(old(self)@).0,
            d == spec_display_high(old(self)@).1,
    {
        if !self.hires {
            if matches!(self.target, Target::XoChip) {
                let l = self.gfx.len();
                self.gfx.fill_range(0, l, false);
                proof {
                    assert(bits_of(self.gfx) =~= Seq::new(old(self)@.gfx.len(), |p: int| false));
                }
            }
            self.hires = true;
            self.draw = true;
        }
        2
    }

    /// The body of one instruction of the delta group, proved equal to
    /// `step_op`.
    #[verifier::rlimit(100)]
    #[verifier::spinoff_prover]
    fn cycle_op(&mut self, opcode: u16, rnd: u8) -> (r: Result<u16, Fault>)
        requires
            wf(old(self)@),
        ensures
            match r {
                Ok(d) => step_op(old(self)@, opcode, rnd) == Ok::<_, Fault>((final(self)@, d)),
                Err(f) => step_op(old(self)@, opcode, rnd) == Err::<(VmView, u16), _>(f) && final(self)@ == old(self)@,
            },
    {
        let ghost s0 = self@;
        let fam = opcode >> 12;
        let low = opcode & 0xF;
        let byte = opcode & 0xFF;
        let sc = matches!(self.target, Target::SuperChipLegacy | Target::SuperChip);
        let xo = matches!(self.target, Target::XoChip);
        if opcode == 0x00E0 {
            let d = self.c8_display_clear();
            proof {
                assert(step_op(s0, opcode, rnd) == Ok::<_, Fault>((self@, d)));
            }
            return Ok(d);
        }
        if fam == 0 && register_x(opcode) == 0 && byte & 0xF0 == 0xC0 && (sc || xo) {
            let d = self.sc_scroll_down(opcode);
            proof {
                assert(step_op(s0, opcode, rnd) == Ok::<_, Fault>((self@, d)));
            }
            return Ok(d);
        }
        if fam == 0 && register_x(opcode) == 0 && byte & 0xF0 == 0xD0 && xo {
            let d = self.xo_scroll_up(opcode);
            proof {
                assert(step_op(s0, opcode, rnd) == Ok::<_, Fault>((self@, d)));
            }
            return Ok(d);
        }
        if opcode == 0x00FB && (sc || xo) {
            let d = self.sc_scroll_right();
            proof {
                assert(step_op(s0, opcode, rnd) == Ok::<_, Fault>((self@, d)));
            }
            return Ok(d);
        }
        if opcode == 0x00FC && (sc || xo) {
            let d = self.sc_scroll_left();
            proof {
                assert(step_op(s0, opcode, rnd) == Ok::<_, Fault>((self@, d)));
            }
            return Ok(d);
        }
        if opcode == 0x00FE && (sc || xo) {
            let d = self.sc_display_low();
            proof {
                assert(step_op(s0, opcode, rnd) == Ok::<_, Fault>((self@, d)));
            }
            return Ok(d);
        }
        if opcode == 0x00FF && (sc || xo) {
            let d = self.sc_display_high();
            proof {
                assert(step_op(s0, opcode, rnd) == Ok::<_, Fault>((self@, d)));
            }
            return Ok(d);
        }
        if fam == 0 {
            proof {
                assert(step_op(s0, opcode, rnd) == Ok::<_, Fault>((self@, 2u16)));
            }
            return Ok(2);
        }
        if fam == 3 {
            let d = self.c8_cond_skip_eq_num(opcode);
            proof {
                assert(step_op(s0, opcode, rnd) == Ok::<_, Fault>((self@, d)));
            }
            return Ok(d);
        }
        if fam == 4 {
            let d = self.c8_cond_skip_neq_num(opcode);
            proof {
                assert(step_op(s0, opcode, rnd) == Ok::<_, Fault>((self@, d)));
            }
            return Ok(d);
        }
        if fam == 5 && low == 0 {
            let d = self.c8_cond_skip_eq_reg(opcode);
            proof {
                assert(step_op(s0, opcode, rnd) == Ok::<_, Fault>((self@, d)));
            }
            return Ok(d);
        }
        if fam == 6 {
            let d = self.c8_const_set_num(opcode);
            proof {
                assert(step_op(s0, opcode, rnd) == Ok::<_, Fault>((self@, d)));
            }
            return Ok(d);
        }
        if fam == 7 {
            let d = self.c8_const_add_num(opcode);
            proof {
                assert(step_op(s0, opcode, rnd) == Ok::<_, Fault>((self@, d)));
            }
            return Ok(d);
        }
        if fam == 8 && low == 0 {
            let d = self.c8_assign_set_reg(opcode);
            proof {
                assert(step_op(s0, opcode, rnd) == Ok::<_, Fault>((self@, d)));
            }
            return Ok(d);
        }
        if fam == 8 && low == 1 {
            let d = self.c8_bitop_or_reg(opcode);
            proof {
                assert(step_op(s0, opcode, rnd) == Ok::<_, Fault>((self@, d)));
            }
            return Ok(d);
        }
        if fam == 8 && low == 2 {
            let d = self.c8_bitop_and_reg(opcode);
            proof {
                assert(step_op(s0, opcode, rnd) == Ok::<_, Fault>((self@, d)));
            }
            return Ok(d);
        }
        if fam == 8 && low == 3 {
            let d = self.c8_bitop_xor_reg(opcode);
            proof {
                assert(step_op(s0, opcode, rnd) == Ok::<_, Fault>((self@, d)));
            }
            return Ok(d);
        }
        if fam == 8 && low == 4 {
            let d = self.c8_math_add_reg(opcode);
            proof {
                assert(step_op(s0, opcode, rnd) == Ok::<_, Fault>((self@, d)));
            }
            return Ok(d);
        }
        if fam == 8 && low == 5 {
            let d = self.c8_math_sub_reg(opcode);
            proof {
                assert(step_op(s0, opcode, rnd) == Ok::<_, Fault>((self@, d)));
            }
            return Ok(d);
        }
        if fam == 8 && low == 6 {
            let d = self.c8_bitop_shr_reg(opcode);
            proof {
                assert(step_op(s0, opcode, rnd) == Ok::<_, Fault>((self@, d)));
            }
            return Ok(d);
        }
        if fam == 8 && low == 7 {
            let d = self.c8_math_neg_reg(opcode);
            proof {
                assert(step_op(s0, opcode, rnd) == Ok::<_, Fault>((self@, d)));
            }
            return Ok(d);
        }
        if fam == 8 && low == 0xE {
            let d = self.c8_bitop_shl_reg(opcode);
            proof {
                assert(step_op(s0, opcode, rnd) == Ok::<_, Fault>((self@, d)));
            }
            return Ok(d);
        }
        if fam == 9 && low == 0 {
            let d = self.c8_cond_skipifneq_reg(opcode);
            proof {
                assert(step_op(s0, opcode, rnd) == Ok::<_, Fault>((self@, d)));
            }
            return Ok(d);
        }
        if fam == 0xA {
            let d = self.c8_mem_store(opcode);
            proof {
                assert(step_op(s0, opcode, rnd) == Ok::<_, Fault>((self@, d)));
            }
            return Ok(d);
        }
        if fam == 0xC {
            let d = self.c8_rand_and_reg(opcode, rnd);
            proof {
                assert(step_op(s0, opcode, rnd) == Ok::<_, Fault>((self@, d)));
            }
            return Ok(d);
        }
        if fam == 0xD {
            let r = self.c8_draw_sprite(opcode);
            proof {
                match r {
                    Ok(d) => assert(step_op(s0, opcode, rnd) == Ok::<_, Fault>((self@, d))),
                    Err(f) => assert(step_op(s0, opcode, rnd) == Err::<(VmView, u16), _>(f)),
                }
            }
            return r;
        }
        if fam == 0xE && byte == 0x9E {
            let r = self.c8_key_pressedskip(opcode);
            proof {
                match r {
                    Ok(d) => assert(step_op(s0, opcode, rnd) == Ok::<_, Fault>((self@, d))),
                    Err(f) => assert(step_op(s0, opcode, rnd) == Err::<(VmView, u16), _>(f)),
                }
            }
            return r;
        }
        if fam == 0xE && byte == 0xA1 {
            let r = self.c8_key_notpressedskip(opcode);
            proof {
                match r {
                    Ok(d) => assert(step_op(s0, opcode, rnd) == Ok::<_, Fault>((self@, d))),
                    Err(f) => assert(step_op(s0, opcode, rnd) == Err::<(VmView, u16), _>(f)),
                }
            }
            return r;
        }
        if fam == 0xF && byte == 0x0A {
            let d = self.c8_key_wait(opcode);
            proof {
                assert(step_op(s0, opcode, rnd) == Ok::<_, Fault>((self@, d)));
            }
            return Ok(d);
        }
        if fam == 0xF && byte == 0x07 {
            let d = self.c8_timer_delay_store(opcode);
            proof {
                assert(step_op(s0, opcode, rnd) == Ok::<_, Fault>((self@, d)));
            }
            return Ok(d);
        }
        if fam == 0xF && byte == 0x15 {
            let d = self.c8_timer_delay_set(opcode);
            proof {
                assert(step_op(s0, opcode, rnd) == Ok::<_, Fault>((self@, d)));
            }
            return Ok(d);
        }
        if fam == 0xF && byte == 0x18 {
            let d = self.c8_timer_sound_set(opcode);
            proof {
                assert(step_op(s0, opcode, rnd) == Ok::<_, Fault>((self@, d)));
            }
            return Ok(d);
        }
        if fam == 0xF && byte == 0x1E {
            let d = self.c8_mem_addi(opcode);
            proof {
                assert(step_op(s0, opcode, rnd) == Ok::<_, Fault>((self@, d)));
            }
            return Ok(d);
        }
        if fam == 0xF && byte == 0x29 {
            let d = self.c8_mem_spriteaddr(opcode);
            proof {
                assert(step_op(s0, opcode, rnd) == Ok::<_, Fault>((self@, d)));
            }
            return Ok(d);
        }
        if fam == 0xF && byte == 0x30 && (sc || xo) {
            let d = self.sc_hires_font(opcode);
            proof {
                assert(step_op(s0, opcode, rnd) == Ok::<_, Fault>((self@, d)));
            }
            return Ok(d);
        }
        if fam == 0xF && byte == 0x33 {
            let r = self.c8_bcd_store(opcode);
            proof {
                match r {
                    Ok(d) => assert(step_op(s0, opcode, rnd) == Ok::<_, Fault>((self@, d))),
                    Err(f) => assert(step_op(s0, opcode, rnd) == Err::<(VmView, u16), _>(f)),
                }
            }
            return r;
        }
        if fam == 0xF && byte == 0x55 {
            let r = self.c8_mem_reg_dump(opcode);
            proof {
                match r {
                    Ok(d) => assert(step_op(s0, opcode, rnd) == Ok::<_, Fault>((self@, d))),
                    Err(f) => assert(step_op(s0, opcode, rnd) == Err::<(VmView, u16), _>(f)),
                }
            }
            return r;
        }
        if fam == 0xF && byte == 0x65 {
            let r = self.c8_mem_reg_load(opcode);
            proof {
                match r {
                    Ok(d) => assert(step_op(s0, opcode, rnd) == Ok::<_, Fault>((self@, d))),
                    Err(f) => assert(step_op(s0, opcode, rnd) == Err::<(VmView, u16), _>(f)),
                }
            }
            return r;
        }
        if fam == 0xF && byte == 0x75 && (sc || xo) {
            let d = self.sc_flag_store(opcode);
            proof {
                assert(step_op(s0, opcode, rnd) == Ok::<_, Fault>((self@, d)));
            }
            return Ok(d);
        }
        if fam == 0xF && byte == 0x85 && (sc || xo) {
            let d = self.sc_flag_load(opcode);
            proof {
                assert(step_op(s0, opcode, rnd) == Ok::<_, Fault>((self@, d)));
            }
            return Ok(d);
        }
        Err(Fault::UnknownOpcode(opcode))
    }

    /// One fetch-decode-execute cycle with the random byte for `CXNN`
    /// supplied by the caller; every other instruction ignores it.  The
    /// machine follows `step` exactly.
    #[verifier::rlimit(60)]
    #[verifier::spinoff_prover]
    pub fn cycle_with_random(&mut self, rnd: u8) -> (r: Result<Option<Action>, Fault>)
        requires
            wf(old(self)@),
        ensures
            wf(final(self)@),
            cycle_post(old(self)@, final(self)@, r, rnd),
    {
        let ghost s0 = self@;
        if self.pc as usize + 1 >= self.memory.len() {
            return Err(Fault::OutOfBounds);
        }
        let opcode: u16 = ((self.memory[self.pc as usize] as u16) << 8) | (self.memory[self.pc
            as usize + 1] as u16);
        proof {
            assert(opcode == spec_opcode(s0));
        }
        let fam = opcode >> 12;
        let sc = matches!(self.target, Target::SuperChipLegacy | Target::SuperChip);
        let xo = matches!(self.target, Target::XoChip);

        if opcode == 0x00FD && (sc || xo) {
            return Ok(Some(Action::Quit));
        }
        // these operations manipulate the program counter value directly
        if opcode == 0x00EE {
            return match self.c8_flow_return() {
                Ok(()) => Ok(None),
                Err(f) => Err(f),
            };
        }
        if fam == 1 {
            self.c8_flow_goto(opcode);
            return Ok(None);
        }
        if fam == 2 {
            return match self.c8_flow_gosub(opcode) {
                Ok(()) => Ok(None),
                Err(f) => Err(f),
            };
        }
        if fam == 0xB {
            self.c8_flow_jump(opcode);
            return Ok(None);
        }
        match self.cycle_op(opcode, rnd) {
            Ok(delta) => {
                self.pc = ((self.pc as u32 + delta as u32) % 0x10000) as u16;
                proof {
                    assert(step(s0, rnd) == Step::Next(self@));
                    crate::state::lemma_step_wf(s0, rnd);
                }
                Ok(None)
            },
            Err(f) => Err(f),
        }
    }

    /// One fetch-decode-execute cycle; the random byte for `CXNN` comes
    /// from the host generator.
    pub fn emulate_cycle(&mut self) -> (r: Result<Option<Action>, Fault>)
        requires
            wf(old(self)@),
        ensures
            wf(final(self)@),
            exists|rnd: u8| #[trigger] cycle_post(old(self)@, final(self)@, r, rnd),
    {
        let rnd = random_byte();
        let r = self.cycle_with_random(rnd);
        r
    }
}

} // verus!
