//! The instruction-level behaviour of the machine, one opcode at a time.

use chipper::chip8::Chip8;
use chipper::profile::{Target, profiles};
use chipper::state::{Action, Fault};

fn new_vm(target: Target) -> Chip8 {
    Chip8::new(target, profiles(target))
}

fn load_opcode(vm: &mut Chip8, addr: usize, hi: u8, lo: u8) {
    vm.set_memory(addr, hi);
    vm.set_memory(addr + 1, lo);
}

#[test]
fn test_graphics_needs_refresh() {
    let mut chip8 = new_vm(Target::Chip8);
    chip8.set_draw_flag(true);

    let needs_refresh = chip8.graphics_needs_refresh();

    assert!(needs_refresh);
}

#[test]
fn test_graphics_does_not_need_refresh() {
    let mut chip8 = new_vm(Target::Chip8);
    chip8.set_draw_flag(false);

    let needs_refresh = chip8.graphics_needs_refresh();

    assert!(!needs_refresh);
}

#[test]
fn test_graphics_clear_refresh() {
    let mut chip8 = new_vm(Target::Chip8);
    chip8.set_draw_flag(true);

    chip8.graphics_clear_refresh();

    assert!(!chip8.graphics_needs_refresh());
}

#[test]
fn test_sound_should_play() {
    let mut chip8 = new_vm(Target::Chip8);
    chip8.set_sound_timer(1);

    let should_play = chip8.audio_sound();

    assert!(should_play);
}

#[test]
fn test_sound_should_not_play() {
    let mut chip8 = new_vm(Target::Chip8);
    chip8.set_sound_timer(0);

    let should_play = chip8.audio_sound();

    assert!(!should_play);
}

#[test]
fn test_timers_count_down() {
    let mut chip8 = new_vm(Target::Chip8);
    chip8.set_delay_timer(15);
    chip8.set_sound_timer(10);

    chip8.update_timers();

    assert_eq!(chip8.delay_timer(), 14);
    assert_eq!(chip8.sound_timer(), 9);
}

#[test]
fn test_timers_stop_at_zero() {
    let mut chip8 = new_vm(Target::Chip8);
    chip8.set_delay_timer(0);
    chip8.set_sound_timer(0);

    chip8.update_timers();

    assert_eq!(chip8.delay_timer(), 0);
    assert_eq!(chip8.sound_timer(), 0);
}

#[test]
fn test_other_key_events_store_pressed_state() {
    let mut chip8 = new_vm(Target::Chip8);

    for key in 0..16u8 {
        chip8.set_key(key, true);
    }

    for key in 0..16usize {
        assert!(chip8.key_pressed(key));
    }
}

#[test]
fn test_other_key_events_store_released_state() {
    let mut chip8 = new_vm(Target::Chip8);
    for key in 0..16u8 {
        chip8.set_key(key, true);
    }

    for key in 0..16u8 {
        chip8.set_key(key, false);
    }

    for key in 0..16usize {
        assert!(!chip8.key_pressed(key));
    }
}

#[test]
fn test_c8_display_clear() {
    let mut chip8 = new_vm(Target::Chip8);
    chip8.fill_pixels(true);
    chip8.set_draw_flag(false);
    load_opcode(&mut chip8, 0x200, 0x0, 0xe0);

    let r = chip8.emulate_cycle();

    assert!(r.is_ok());
    for p in 0..64 * 32 {
        assert!(!chip8.pixel(p));
    }
    assert!(chip8.graphics_needs_refresh());
    assert_eq!(chip8.pc(), 0x202);
}

#[test]
fn test_ignored_opcode() {
    let mut chip8 = new_vm(Target::Chip8);
    load_opcode(&mut chip8, 0x200, 0x3, 0x21);

    let r = chip8.emulate_cycle();

    assert!(r.is_ok());
    assert_eq!(chip8.pc(), 0x202);
}

#[test]
fn test_c8_flow_return_ok() {
    let mut chip8 = new_vm(Target::Chip8);
    load_opcode(&mut chip8, 0x400, 0x00, 0xEE);
    chip8.set_sp(1);
    chip8.set_pc(0x400);
    chip8.set_stack(0, 0x600);

    let r = chip8.emulate_cycle();

    assert!(r.is_ok());
    assert_eq!(chip8.pc(), 0x602);
    assert_eq!(chip8.sp(), 0);
}

#[test]
fn test_c8_flow_return_badstack() {
    let mut chip8 = new_vm(Target::Chip8);
    load_opcode(&mut chip8, 0x400, 0x00, 0xEE);
    chip8.set_sp(0);
    chip8.set_pc(0x400);
    chip8.set_stack(0, 0x600);

    let result = chip8.emulate_cycle();

    assert_eq!(result, Err(Fault::StackUnderflow));
}

#[test]
fn test_c8_flow_goto() {
    let mut chip8 = new_vm(Target::Chip8);
    load_opcode(&mut chip8, 0x200, 0x13, 0x21);

    let r = chip8.emulate_cycle();

    assert!(r.is_ok());
    assert_eq!(chip8.pc(), 0x321);
}

#[test]
fn test_c8_flow_gosub_ok() {
    let mut chip8 = new_vm(Target::Chip8);
    load_opcode(&mut chip8, 0x200, 0x25, 0x73);
    chip8.set_pc(0x200);
    chip8.set_sp(0);

    let r = chip8.emulate_cycle();

    assert!(r.is_ok());
    assert_eq!(chip8.pc(), 0x573);
    assert_eq!(chip8.sp(), 0x1);
    assert_eq!(chip8.stack_at(0), 0x200);
}

#[test]
fn test_c8_flow_gosub_badstack() {
    let mut chip8 = new_vm(Target::Chip8);
    load_opcode(&mut chip8, 0x200, 0x25, 0x73);
    chip8.set_pc(0x200);
    chip8.set_sp(16);

    let result = chip8.emulate_cycle();

    assert_eq!(result, Err(Fault::StackOverflow));
}

#[test]
fn test_c8_cond_skipifeq_reg_skips() {
    let mut chip8 = new_vm(Target::Chip8);
    load_opcode(&mut chip8, 0x200, 0x53, 0x10);
    chip8.set_register(3, 2);
    chip8.set_register(1, 2);

    let r = chip8.emulate_cycle();

    assert!(r.is_ok());
    assert_eq!(chip8.pc(), 0x204);
}

#[test]
fn test_c8_cond_skipifeq_reg_does_not_skip() {
    let mut chip8 = new_vm(Target::Chip8);
    load_opcode(&mut chip8, 0x200, 0x55, 0x40);
    chip8.set_register(5, 1);
    chip8.set_register(4, 2);

    let r = chip8.emulate_cycle();

    assert!(r.is_ok());
    assert_eq!(chip8.pc(), 0x202);
}

#[test]
fn test_c8_const_set_num() {
    let mut chip8 = new_vm(Target::Chip8);
    load_opcode(&mut chip8, 0x200, 0x66, 0xD2);
    chip8.set_register(6, 0);

    let r = chip8.emulate_cycle();

    assert!(r.is_ok());
    assert_eq!(chip8.register(6), 0xD2);
    assert_eq!(chip8.pc(), 0x202);
}

#[test]
fn test_c8_const_add_num_overflow_no_carry() {
    let mut chip8 = new_vm(Target::Chip8);
    load_opcode(&mut chip8, 0x200, 0x76, 0xD2);
    chip8.set_register(6, 0x65);

    let r = chip8.emulate_cycle();

    assert!(r.is_ok());
    assert_eq!(chip8.register(6), 0x37);
    assert_eq!(chip8.register(15), 0);
    assert_eq!(chip8.pc(), 0x202);
}

#[test]
fn test_c8_const_add_num_no_overflow() {
    let mut chip8 = new_vm(Target::Chip8);
    load_opcode(&mut chip8, 0x200, 0x73, 0x12);
    chip8.set_register(3, 0x17);

    let r = chip8.emulate_cycle();

    assert!(r.is_ok());
    assert_eq!(chip8.register(3), 0x29);
    assert_eq!(chip8.register(15), 0);
    assert_eq!(chip8.pc(), 0x202);
}

#[test]
fn test_c8_assign_set_reg() {
    let mut chip8 = new_vm(Target::Chip8);
    load_opcode(&mut chip8, 0x200, 0x83, 0x10);
    chip8.set_register(3, 1);
    chip8.set_register(1, 52);

    let r = chip8.emulate_cycle();

    assert!(r.is_ok());
    assert_eq!(chip8.register(3), 52);
    assert_eq!(chip8.pc(), 0x202);
}

#[test]
fn test_c8_bitop_or_reg() {
    let mut chip8 = new_vm(Target::Chip8);
    load_opcode(&mut chip8, 0x200, 0x83, 0xa1);
    chip8.set_register(3, 0b0110);
    chip8.set_register(10, 0b1001);
    chip8.set_register(15, 1);

    let r = chip8.emulate_cycle();

    assert!(r.is_ok());
    assert_eq!(chip8.register(3), 0b1111);
    assert_eq!(chip8.register(15), 0);
    assert_eq!(chip8.pc(), 0x202);
}

#[test]
fn test_c8_bitop_and_reg() {
    let mut chip8 = new_vm(Target::Chip8);
    load_opcode(&mut chip8, 0x200, 0x83, 0x72);
    chip8.set_register(3, 0b0110);
    chip8.set_register(7, 0b1001);
    chip8.set_register(15, 1);

    let r = chip8.emulate_cycle();

    assert!(r.is_ok());
    assert_eq!(chip8.register(3), 0);
    assert_eq!(chip8.register(15), 0);
    assert_eq!(chip8.pc(), 0x202);
}

#[test]
fn test_c8_bitop_xor_reg() {
    let mut chip8 = new_vm(Target::Chip8);
    load_opcode(&mut chip8, 0x200, 0x83, 0x23);
    chip8.set_register(3, 0b1001);
    chip8.set_register(2, 0b1010);
    chip8.set_register(15, 1);

    let r = chip8.emulate_cycle();

    assert!(r.is_ok());
    assert_eq!(chip8.register(3), 0b11);
    assert_eq!(chip8.register(15), 0);
    assert_eq!(chip8.pc(), 0x202);
}

#[test]
fn test_c8_math_add_reg_overflow_carry() {
    let mut chip8 = new_vm(Target::Chip8);
    load_opcode(&mut chip8, 0x200, 0x82, 0xC4);
    chip8.set_register(2, 0x82);
    chip8.set_register(0xc, 0xa7);

    let r = chip8.emulate_cycle();

    assert!(r.is_ok());
    assert_eq!(chip8.register(2), 0x29);
    assert_eq!(chip8.register(15), 1);
    assert_eq!(chip8.pc(), 0x202);
}

#[test]
fn test_c8_math_add_reg_no_overflow() {
    let mut chip8 = new_vm(Target::Chip8);
    load_opcode(&mut chip8, 0x200, 0x83, 0x14);
    chip8.set_register(3, 0x17);
    chip8.set_register(1, 0x15);

    let r = chip8.emulate_cycle();

    assert!(r.is_ok());
    assert_eq!(chip8.register(3), 0x2c);
    assert_eq!(chip8.register(15), 0);
    assert_eq!(chip8.pc(), 0x202);
}

#[test]
fn test_c8_math_sub_reg_overflow_borrow() {
    let mut chip8 = new_vm(Target::Chip8);
    load_opcode(&mut chip8, 0x200, 0x81, 0xa5);
    chip8.set_register(1, 0x82);
    chip8.set_register(0xa, 0xa7);

    let r = chip8.emulate_cycle();

    assert!(r.is_ok());
    assert_eq!(chip8.register(1), 0xdb);
    assert_eq!(chip8.register(15), 0);
    assert_eq!(chip8.pc(), 0x202);
}

#[test]
fn test_c8_math_sub_reg_no_overflow() {
    let mut chip8 = new_vm(Target::Chip8);
    load_opcode(&mut chip8, 0x200, 0x85, 0x45);
    chip8.set_register(5, 0x17);
    chip8.set_register(4, 0x15);

    let r = chip8.emulate_cycle();

    assert!(r.is_ok());
    assert_eq!(chip8.register(5), 0x02);
    assert_eq!(chip8.register(15), 1);
    assert_eq!(chip8.pc(), 0x202);
}

#[test]
fn test_c8_math_neg_reg_overflow_borrow() {
    let mut chip8 = new_vm(Target::Chip8);
    load_opcode(&mut chip8, 0x200, 0x84, 0x67);
    chip8.set_register(4, 0x82);
    chip8.set_register(6, 0x15);

    let r = chip8.emulate_cycle();

    assert!(r.is_ok());
    assert_eq!(chip8.register(4), 0x93);
    assert_eq!(chip8.register(15), 0);
    assert_eq!(chip8.pc(), 0x202);
}

#[test]
fn test_c8_math_neg_reg_no_overflow() {
    let mut chip8 = new_vm(Target::Chip8);
    load_opcode(&mut chip8, 0x200, 0x81, 0x37);
    chip8.set_register(1, 0x13);
    chip8.set_register(3, 0x15);

    let r = chip8.emulate_cycle();

    assert!(r.is_ok());
    assert_eq!(chip8.register(1), 0x02);
    assert_eq!(chip8.register(15), 1);
    assert_eq!(chip8.pc(), 0x202);
}

#[test]
fn test_c8_cond_skip_eq_num_skips() {
    let mut chip8 = new_vm(Target::Chip8);
    load_opcode(&mut chip8, 0x200, 0x33, 0x77);
    chip8.set_register(3, 0x77);

    let r = chip8.emulate_cycle();

    assert!(r.is_ok());
    assert_eq!(chip8.pc(), 0x204);
}

#[test]
fn test_c8_cond_skip_eq_num_does_not_skip() {
    let mut chip8 = new_vm(Target::Chip8);
    load_opcode(&mut chip8, 0x200, 0x33, 0x75);
    chip8.set_register(3, 0x77);

    let r = chip8.emulate_cycle();

    assert!(r.is_ok());
    assert_eq!(chip8.pc(), 0x202);
}

#[test]
fn test_c8_cond_skip_neq_num_skips() {
    let mut chip8 = new_vm(Target::Chip8);
    load_opcode(&mut chip8, 0x200, 0x43, 0x77);
    chip8.set_register(3, 0x77);

    let r = chip8.emulate_cycle();

    assert!(r.is_ok());
    assert_eq!(chip8.pc(), 0x202);
}

#[test]
fn test_c8_cond_skip_neq_num_does_not_skip() {
    let mut chip8 = new_vm(Target::Chip8);
    load_opcode(&mut chip8, 0x200, 0x43, 0x75);
    chip8.set_register(3, 0x77);

    let r = chip8.emulate_cycle();

    assert!(r.is_ok());
    assert_eq!(chip8.pc(), 0x204);
}

#[test]
fn test_c8_cond_skipifneq_reg_skips() {
    let mut chip8 = new_vm(Target::Chip8);
    load_opcode(&mut chip8, 0x200, 0x93, 0x10);
    chip8.set_register(3, 1);
    chip8.set_register(1, 2);

    let r = chip8.emulate_cycle();

    assert!(r.is_ok());
    assert_eq!(chip8.pc(), 0x204);
}

#[test]
fn test_c8_cond_skipifneq_reg_does_not_skip() {
    let mut chip8 = new_vm(Target::Chip8);
    load_opcode(&mut chip8, 0x200, 0x95, 0x40);
    chip8.set_register(5, 2);
    chip8.set_register(4, 2);

    let r = chip8.emulate_cycle();

    assert!(r.is_ok());
    assert_eq!(chip8.pc(), 0x202);
}

#[test]
fn test_c8_mem_store() {
    let mut chip8 = new_vm(Target::Chip8);
    load_opcode(&mut chip8, 0x200, 0xA4, 0xD8);

    let r = chip8.emulate_cycle();

    assert!(r.is_ok());
    assert_eq!(chip8.index_register(), 0x4D8);
    assert_eq!(chip8.pc(), 0x202);
}

#[test]
fn test_c8_flow_jump() {
    let mut chip8 = new_vm(Target::Chip8);
    load_opcode(&mut chip8, 0x200, 0xB8, 0xB3);
    chip8.set_register(0, 0x55);

    let r = chip8.emulate_cycle();

    assert!(r.is_ok());
    assert_eq!(chip8.pc(), 0x908);
}

#[test]
fn test_c8_rand_and_reg() {
    let mut chip8 = new_vm(Target::Chip8);
    load_opcode(&mut chip8, 0x200, 0xC2, 0x66);
    chip8.set_register(2, 0x23);

    let r = chip8.cycle_with_random(23);

    assert!(r.is_ok());
    assert_eq!(chip8.register(2), 0x6);
    assert_eq!(chip8.pc(), 0x202);
}

#[test]
fn test_c8_draw_sprite_no_unset() {
    let mut chip8 = new_vm(Target::Chip8);
    load_opcode(&mut chip8, 0x200, 0xD2, 0x32);
    chip8.set_register(2, 0x7);
    chip8.set_register(3, 0x9);
    chip8.set_index_register(0x600);
    chip8.set_memory(0x600, 0xFF);
    chip8.set_memory(0x601, 0xFF);

    let r = chip8.emulate_cycle();

    assert!(r.is_ok());
    assert_eq!(chip8.pc(), 0x202);
    for p in 0..583 {
        assert!(!chip8.pixel(p));
    }
    for p in 583..591 {
        assert!(chip8.pixel(p));
    }
    for p in 591..647 {
        assert!(!chip8.pixel(p));
    }
    for p in 647..655 {
        assert!(chip8.pixel(p));
    }
    for p in 655..2048 {
        assert!(!chip8.pixel(p));
    }
    assert_eq!(chip8.register(15), 0);
}

#[test]
fn test_c8_draw_sprite_unset() {
    let mut chip8 = new_vm(Target::Chip8);
    chip8.fill_pixels(true);
    load_opcode(&mut chip8, 0x200, 0xD2, 0x32);
    chip8.set_register(2, 0x7);
    chip8.set_register(3, 0x9);
    chip8.set_index_register(0x600);
    chip8.set_memory(0x600, 0xFF);
    chip8.set_memory(0x601, 0xFF);

    let r = chip8.emulate_cycle();

    assert!(r.is_ok());
    assert_eq!(chip8.pc(), 0x202);
    for p in 0..583 {
        assert!(chip8.pixel(p));
    }
    for p in 583..591 {
        assert!(!chip8.pixel(p));
    }
    for p in 591..647 {
        assert!(chip8.pixel(p));
    }
    for p in 647..655 {
        assert!(!chip8.pixel(p));
    }
    for p in 655..2048 {
        assert!(chip8.pixel(p));
    }
    assert_eq!(chip8.register(15), 1);
}

#[test]
fn test_c8_key_pressedskip_pressed() {
    let mut chip8 = new_vm(Target::Chip8);
    load_opcode(&mut chip8, 0x200, 0xE1, 0x9E);
    chip8.set_register(1, 0x8);
    chip8.set_key(8, true);

    let r = chip8.emulate_cycle();

    assert!(r.is_ok());
    assert_eq!(chip8.pc(), 0x204);
}

#[test]
fn test_c8_key_pressedskip_notpressed() {
    let mut chip8 = new_vm(Target::Chip8);
    load_opcode(&mut chip8, 0x200, 0xE1, 0x9E);
    chip8.set_register(1, 0x7);
    chip8.set_key(7, false);

    let r = chip8.emulate_cycle();

    assert!(r.is_ok());
    assert_eq!(chip8.pc(), 0x202);
}

#[test]
fn test_c8_key_notpressedskip_pressed() {
    let mut chip8 = new_vm(Target::Chip8);
    load_opcode(&mut chip8, 0x200, 0xE1, 0xA1);
    chip8.set_register(1, 0x8);
    chip8.set_key(8, true);

    let r = chip8.emulate_cycle();

    assert!(r.is_ok());
    assert_eq!(chip8.pc(), 0x202);
}

#[test]
fn test_c8_key_notpressedskip_notpressed() {
    let mut chip8 = new_vm(Target::Chip8);
    load_opcode(&mut chip8, 0x200, 0xE1, 0xA1);
    chip8.set_register(1, 0x7);
    chip8.set_key(7, false);

    let r = chip8.emulate_cycle();

    assert!(r.is_ok());
    assert_eq!(chip8.pc(), 0x204);
}

#[test]
fn test_c8_timer_delay_store() {
    let mut chip8 = new_vm(Target::Chip8);
    load_opcode(&mut chip8, 0x200, 0xF4, 0x07);
    chip8.set_register(4, 0x3);
    chip8.set_delay_timer(0x55);

    let r = chip8.emulate_cycle();

    assert!(r.is_ok());
    assert_eq!(chip8.register(4), 0x55);
    assert_eq!(chip8.pc(), 0x202);
}

#[test]
fn test_c8_timer_delay_set() {
    let mut chip8 = new_vm(Target::Chip8);
    load_opcode(&mut chip8, 0x200, 0xF1, 0x15);
    chip8.set_register(1, 0x17);
    chip8.set_delay_timer(0x55);

    let r = chip8.emulate_cycle();

    assert!(r.is_ok());
    assert_eq!(chip8.delay_timer(), 0x17);
    assert_eq!(chip8.pc(), 0x202);
}

#[test]
fn test_c8_timer_sound_set() {
    let mut chip8 = new_vm(Target::Chip8);
    load_opcode(&mut chip8, 0x200, 0xF9, 0x18);
    chip8.set_register(9, 0x22);
    chip8.set_sound_timer(0x15);

    let r = chip8.emulate_cycle();

    assert!(r.is_ok());
    assert_eq!(chip8.sound_timer(), 0x22);
    assert_eq!(chip8.pc(), 0x202);
}

#[test]
fn test_c8_mem_addi_no_overflow() {
    let mut chip8 = new_vm(Target::Chip8);
    load_opcode(&mut chip8, 0x200, 0xF6, 0x1E);
    chip8.set_register(6, 0x44);
    chip8.set_index_register(0x3);
    chip8.set_register(15, 0);

    let r = chip8.emulate_cycle();

    assert!(r.is_ok());
    assert_eq!(chip8.index_register(), 0x47);
    assert_eq!(chip8.register(15), 0);
    assert_eq!(chip8.pc(), 0x202);
}

#[test]
fn test_c8_mem_addi_overflow() {
    let mut chip8 = new_vm(Target::Chip8);
    load_opcode(&mut chip8, 0x200, 0xF3, 0x1E);
    chip8.set_register(3, 0x04);
    chip8.set_index_register(0xFFE);
    chip8.set_register(15, 0);

    let r = chip8.emulate_cycle();

    assert!(r.is_ok());
    assert_eq!(chip8.index_register(), 0x2);
    assert_eq!(chip8.register(15), 1);
    assert_eq!(chip8.pc(), 0x202);
}

#[test]
fn test_c8_mem_reg_dump() {
    let mut chip8 = new_vm(Target::Chip8);
    chip8.set_index_register(0xC60);
    load_opcode(&mut chip8, 0x200, 0xF3, 0x55);
    chip8.set_register(0, 0xDE);
    chip8.set_register(1, 0xAD);
    chip8.set_register(2, 0xBE);
    let expected_memory: [u8; 5] = [0xDE, 0xAD, 0xBE, 0, 0];

    let r = chip8.emulate_cycle();

    assert!(r.is_ok());
    for (idx, expected) in expected_memory.iter().enumerate() {
        assert_eq!(chip8.memory_at(0xC60 + idx), *expected);
    }
    assert_eq!(chip8.index_register(), 0xC64);
    assert_eq!(chip8.pc(), 0x202);
}

#[test]
fn test_sc_mem_reg_dump() {
    let mut chip8 = new_vm(Target::SuperChip);
    chip8.set_index_register(0xC60);
    load_opcode(&mut chip8, 0x200, 0xF3, 0x55);
    chip8.set_register(0, 0xDE);
    chip8.set_register(1, 0xAD);
    chip8.set_register(2, 0xBE);
    let expected_memory: [u8; 5] = [0xDE, 0xAD, 0xBE, 0, 0];

    let r = chip8.emulate_cycle();

    assert!(r.is_ok());
    for (idx, expected) in expected_memory.iter().enumerate() {
        assert_eq!(chip8.memory_at(0xC60 + idx), *expected);
    }
    assert_eq!(chip8.index_register(), 0xC60);
    assert_eq!(chip8.pc(), 0x202);
}

#[test]
fn test_c8_mem_reg_load() {
    let mut chip8 = new_vm(Target::Chip8);
    chip8.set_index_register(0xD00);
    load_opcode(&mut chip8, 0x200, 0xF4, 0x65);
    chip8.set_memory(0xd00, 0xDE);
    chip8.set_memory(0xd01, 0xAD);
    chip8.set_memory(0xd02, 0xBE);
    chip8.set_memory(0xd03, 0xEF);
    let expected_registers: [u8; 6] = [0xDE, 0xAD, 0xBE, 0xEF, 0, 0];

    let r = chip8.emulate_cycle();

    assert!(r.is_ok());
    for (idx, expected) in expected_registers.iter().enumerate() {
        assert_eq!(chip8.register(idx), *expected);
    }
    assert_eq!(chip8.index_register(), 0xD05);
    assert_eq!(chip8.pc(), 0x202);
}

#[test]
fn test_sc_mem_reg_load() {
    let mut chip8 = new_vm(Target::SuperChip);
    chip8.set_index_register(0xD00);
    load_opcode(&mut chip8, 0x200, 0xF4, 0x65);
    chip8.set_memory(0xd00, 0xDE);
    chip8.set_memory(0xd01, 0xAD);
    chip8.set_memory(0xd02, 0xBE);
    chip8.set_memory(0xd03, 0xEF);
    let expected_registers: [u8; 6] = [0xDE, 0xAD, 0xBE, 0xEF, 0, 0];

    let r = chip8.emulate_cycle();

    assert!(r.is_ok());
    for (idx, expected) in expected_registers.iter().enumerate() {
        assert_eq!(chip8.register(idx), *expected);
    }
    assert_eq!(chip8.index_register(), 0xD00);
    assert_eq!(chip8.pc(), 0x202);
}

#[test]
fn test_unknown_opcode_panics() {
    let mut chip8 = new_vm(Target::Chip8);
    load_opcode(&mut chip8, 0x200, 0xFF, 0xFF);

    let result = chip8.emulate_cycle();

    assert_eq!(result, Err(Fault::UnknownOpcode(0xFFFF)));
}

#[test]
fn test_exit_opcode_requests_quit() {
    let mut chip8 = new_vm(Target::SuperChip);
    load_opcode(&mut chip8, 0x200, 0x00, 0xFD);

    let result = chip8.emulate_cycle();

    assert_eq!(result, Ok(Some(Action::Quit)));
    assert_eq!(chip8.pc(), 0x200);
}

#[test]
fn test_c8_flow_gosub_fills_last_slot() {
    let mut chip8 = new_vm(Target::Chip8);
    load_opcode(&mut chip8, 0x200, 0x25, 0x73);
    chip8.set_pc(0x200);
    chip8.set_sp(15);

    let r = chip8.emulate_cycle();

    assert!(r.is_ok());
    assert_eq!(chip8.pc(), 0x573);
    assert_eq!(chip8.sp(), 16);
    assert_eq!(chip8.stack_at(15), 0x200);
}

#[test]
fn test_key_press_while_held_is_not_captured() {
    let mut chip8 = new_vm(Target::Chip8);
    chip8.set_key(0xB, true);
    load_opcode(&mut chip8, 0x200, 0xF5, 0x0A);

    // arm the wait; a repeated press of an already held key is no
    // released-to-pressed transition and must not satisfy it
    assert!(chip8.emulate_cycle().is_ok());
    chip8.set_key(0xB, true);
    assert!(chip8.emulate_cycle().is_ok());
    assert_eq!(chip8.pc(), 0x200);

    // release, then press: a real transition completes the wait
    chip8.set_key(0xB, false);
    chip8.set_key(0xB, true);
    assert!(chip8.emulate_cycle().is_ok());
    assert_eq!(chip8.pc(), 0x202);
    assert_eq!(chip8.register(5), 0xB);
}
