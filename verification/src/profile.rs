//! Target variants and their immutable hardware profiles.

use vstd::prelude::*;

verus! {

/// The emulated machine variant.  It is fixed at construction and selects the
/// behavioural quirks of nearly every instruction.
#[derive(Debug, Copy, Clone, PartialEq, Eq, Structural)]
pub enum Target {
    Chip8,
    SuperChipLegacy,
    SuperChip,
    XoChip,
}

/// Immutable hardware description of one target variant.
#[derive(Debug, Copy, Clone, PartialEq, Eq, Structural)]
pub struct Profile {
    pub screen_width: u8,
    pub screen_height: u8,
    pub lores_display_wait: bool,
    pub default_screen_scale: u8,
    pub memory_capacity: usize,
    pub user_register_count: u8,
}

/// The profile that belongs to each target variant.
pub open spec fn spec_profile(target: Target) -> Profile {
    match target {
        Target::Chip8 => Profile {
            screen_width: 64,
            screen_height: 32,
            lores_display_wait: true,
            default_screen_scale: 12,
            memory_capacity: 4096,
            user_register_count: 0,
        },
        Target::SuperChipLegacy => Profile {
            screen_width: 128,
            screen_height: 64,
            lores_display_wait: true,
            default_screen_scale: 6,
            memory_capacity: 4096,
            user_register_count: 8,
        },
        Target::SuperChip => Profile {
            screen_width: 128,
            screen_height: 64,
            lores_display_wait: false,
            default_screen_scale: 6,
            memory_capacity: 4096,
            user_register_count: 8,
        },
        Target::XoChip => Profile {
            screen_width: 128,
            screen_height: 64,
            lores_display_wait: false,
            default_screen_scale: 6,
            memory_capacity: 65536,
            user_register_count: 16,
        },
    }
}

/// Looks up the hardware profile of a target variant.
pub fn profiles(target: Target) -> (p: Profile)
    ensures
        p == spec_profile(target),
{
    match target {
        Target::Chip8 => Profile {
            screen_width: 64,
            screen_height: 32,
            lores_display_wait: true,
            default_screen_scale: 12,
            memory_capacity: 4096,
            user_register_count: 0,
        },
        Target::SuperChipLegacy => Profile {
            screen_width: 128,
            screen_height: 64,
            lores_display_wait: true,
            default_screen_scale: 6,
            memory_capacity: 4096,
            user_register_count: 8,
        },
        Target::SuperChip => Profile {
            screen_width: 128,
            screen_height: 64,
            lores_display_wait: false,
            default_screen_scale: 6,
            memory_capacity: 4096,
            user_register_count: 8,
        },
        Target::XoChip => Profile {
            screen_width: 128,
            screen_height: 64,
            lores_display_wait: false,
            default_screen_scale: 6,
            memory_capacity: 65536,
            user_register_count: 16,
        },
    }
}

impl Profile {
    pub fn screen_width(self) -> (r: u8)
        ensures
            r == self.screen_width,
    {
        self.screen_width
    }

    pub fn screen_height(self) -> (r: u8)
        ensures
            r == self.screen_height,
    {
        self.screen_height
    }

    pub fn lores_display_wait(self) -> (r: bool)
        ensures
            r == self.lores_display_wait,
    {
        self.lores_display_wait
    }

    pub fn default_screen_scale(self) -> (r: u8)
        ensures
            r == self.default_screen_scale,
    {
        self.default_screen_scale
    }

    pub fn memory_capacity(self) -> (r: usize)
        ensures
            r == self.memory_capacity,
    {
        self.memory_capacity
    }

    pub fn user_register_count(self) -> (r: u8)
        ensures
            r == self.user_register_count,
    {
        self.user_register_count
    }
}

} // verus!
