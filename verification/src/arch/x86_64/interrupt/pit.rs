//! The programmable interval timer.

use super::pic::{enable_timer_interrupt, PortWrite};
use vstd::prelude::*;

verus! {

/// The port of the timer's channel 0.
pub const CHANNEL0: u16 = 0x40;

/// The port of the timer's mode and command register.
pub const MODE_COMMAND_REGISTER: u16 = 0x43;

/// The frequency of the timer's clock in Hz: 3579545 / 3.
pub const CLOCK_HZ: u32 = 1193181;

/// The frequency of the timer tick in Hz.
pub const TICK_HZ: u32 = 100;

/// The mode and command register, from the lowest bit: two bits of counting
/// mode, of which the upper belongs to the operating mode too, three bits of
/// operating mode from bit 1 on, two bits of access mode, two bits that
/// select the channel.
#[derive(Copy, Clone, Debug, PartialEq, Eq, Structural)]
pub struct ModeCommandRegister(pub u8);

pub proof fn lemma_mode_fields(w: u8, v: u8)
    by (bit_vector)
    ensures
        w & 0x3 == w % 4,
        (w >> 1) & 0x7 == (w / 2) % 8,
        (w >> 4) & 0x3 == (w / 0x10) % 4,
        (w >> 6) & 0x3 == w / 0x40,
        ((w & !0x3u8) | (v & 0x3)) % 4 == v % 4,
        ((w & !0x3u8) | (v & 0x3)) / 4 == w / 4,
        (((w & !0xeu8) | ((v & 0x7) << 1)) / 2) % 8 == v % 8,
        ((w & !0xeu8) | ((v & 0x7) << 1)) % 2 == w % 2,
        ((w & !0xeu8) | ((v & 0x7) << 1)) / 0x10 == w / 0x10,
        (((w & !0x30u8) | ((v & 0x3) << 4)) / 0x10) % 4 == v % 4,
        ((w & !0x30u8) | ((v & 0x3) << 4)) % 0x10 == w % 0x10,
        ((w & !0x30u8) | ((v & 0x3) << 4)) / 0x40 == w / 0x40,
        ((w & !0xc0u8) | ((v & 0x3) << 6)) / 0x40 == v % 4,
        ((w & !0xc0u8) | ((v & 0x3) << 6)) % 0x40 == w % 0x40,
{
}

impl ModeCommandRegister {
    pub fn bcd_binary_mode(&self) -> (r: u8)
        ensures
            r == self.0 % 4,
    {
        proof {
            lemma_mode_fields(self.0, 0);
        }
        self.0 & 0x3
    }

    pub fn set_bcd_binary_mode(&mut self, value: u8)
        ensures
            final(self).0 % 4 == value % 4,
            final(self).0 / 4 == old(self).0 / 4,
    {
        proof {
            lemma_mode_fields(self.0, value);
        }
        self.0 = (self.0 & !0x3u8) | (value & 0x3);
    }

    pub fn operating_mode(&self) -> (r: u8)
        ensures
            r == (self.0 / 2) % 8,
    {
        proof {
            lemma_mode_fields(self.0, 0);
        }
        (self.0 >> 1) & 0x7
    }

    pub fn set_operating_mode(&mut self, value: u8)
        ensures
            (final(self).0 / 2) % 8 == value % 8,
            final(self).0 % 2 == old(self).0 % 2,
            final(self).0 / 0x10 == old(self).0 / 0x10,
    {
        proof {
            lemma_mode_fields(self.0, value);
        }
        self.0 = (self.0 & !0xeu8) | ((value & 0x7) << 1);
    }

    pub fn access_mode(&self) -> (r: u8)
        ensures
            r == (self.0 / 0x10) % 4,
    {
        proof {
            lemma_mode_fields(self.0, 0);
        }
        (self.0 >> 4) & 0x3
    }

    pub fn set_access_mode(&mut self, value: u8)
        ensures
            (final(self).0 / 0x10) % 4 == value % 4,
            final(self).0 % 0x10 == old(self).0 % 0x10,
            final(self).0 / 0x40 == old(self).0 / 0x40,
    {
        proof {
            lemma_mode_fields(self.0, value);
        }
        self.0 = (self.0 & !0x30u8) | ((value & 0x3) << 4);
    }

    pub fn select_channel(&self) -> (r: u8)
        ensures
            r == self.0 / 0x40,
    {
        proof {
            lemma_mode_fields(self.0, 0);
        }
        (self.0 >> 6) & 0x3
    }

    pub fn set_select_channnel(&mut self, value: u8)
        ensures
            final(self).0 / 0x40 == value % 4,
            final(self).0 % 0x40 == old(self).0 % 0x40,
    {
        proof {
            lemma_mode_fields(self.0, value);
        }
        self.0 = (self.0 & !0xc0u8) | ((value & 0x3) << 6);
    }
}

/// The mode that the kernel programs: binary counting, channel 0, rate
/// generator, access to the low byte and then the high byte.
pub const RATE_GENERATOR_MODE: u8 = 0x34;

/// The counter value for a tick of the given frequency.
pub open spec fn spec_counter_for(timer_frequency_hz: u32) -> int {
    CLOCK_HZ as int / timer_frequency_hz as int
}

/// The counter value that comes nearest to the frequency from below, as
/// its high and its low byte. A counter holds 16 bits, so the frequency is
/// at least 18 Hz and lies below the frequency of the clock; of a counter
/// value above 16 bits the low 16 bits are returned.
pub fn make_asymptotic_counter_value(timer_frequency_hz: u32) -> (r: (u8, u8))
    requires
        18 <= timer_frequency_hz < CLOCK_HZ,
    ensures
        r.0 == (spec_counter_for(timer_frequency_hz) / 0x100) % 0x100,
        r.1 == spec_counter_for(timer_frequency_hz) % 0x100,
        timer_frequency_hz >= 19 ==> r.0 * 0x100 + r.1 == spec_counter_for(timer_frequency_hz),
{
    let c: u32 = 3579545u32 / 3u32 / timer_frequency_hz;
    proof {
        assert(3579545u32 / 3u32 == 1193181);
        assert(((c >> 8) & 0xFF) == (c / 0x100) % 0x100 && (c & 0xFF) == c % 0x100) by (bit_vector);
        if timer_frequency_hz >= 19 {
            assert(c <= 1193181int / 19) by (nonlinear_arith)
                requires
                    c == 1193181int / timer_frequency_hz as int,
                    timer_frequency_hz >= 19,
            ;
        }
    }
    (((c >> 8) & 0xFF) as u8, (c & 0xFF) as u8)
}

/// The writes that start the tick, in their order.
pub open spec fn spec_init_script() -> Seq<PortWrite> {
    seq![
        PortWrite { port: MODE_COMMAND_REGISTER, value: RATE_GENERATOR_MODE },
        PortWrite { port: CHANNEL0, value: (spec_counter_for(TICK_HZ) % 0x100) as u8 },
        PortWrite { port: CHANNEL0, value: (spec_counter_for(TICK_HZ) / 0x100) as u8 },
        PortWrite { port: super::pic::MASTER_DATA_PORT, value: 0b1111_1110 },
    ]
}

/// What bring-up writes to the ports to start the tick: the mode, the low
/// and the high byte of the counter, and the mask that lets the timer
/// through. The caller enables interrupts afterwards.
pub fn init() -> (r: Vec<PortWrite>)
    ensures
        r@ == spec_init_script(),
{
    // Binary mode, channel 0, rate generator mode, low and high byte.
    let mut r = ModeCommandRegister(0);
    r.set_operating_mode(0b010);
    r.set_access_mode(0b11);
    proof {
        assert(((0u8 & !0xeu8) | ((0b010u8 & 0x7) << 1)) == 4) by (bit_vector);
        assert(((4u8 & !0x30u8) | ((0b11u8 & 0x3) << 4)) == 0x34) by (bit_vector);
    }
    let (h, l) = make_asymptotic_counter_value(TICK_HZ);
    let mut script: Vec<PortWrite> = Vec::new();
    script.push(PortWrite { port: MODE_COMMAND_REGISTER, value: r.0 });
    script.push(PortWrite { port: CHANNEL0, value: l });
    script.push(PortWrite { port: CHANNEL0, value: h });
    script.push(enable_timer_interrupt());
    proof {
        assert(spec_counter_for(TICK_HZ) == 11931);
    }
    script
}

} // verus!
