//! The command byte of the 8253/8254 programmable interval timer.
//!
//! Only the value computation lives here; writing the byte to the command
//! port is the embedder's concern.

use vstd::prelude::*;

verus! {

/// The counting mode of a timer channel.
#[derive(Clone, Copy, PartialEq, Eq, Structural, Debug)]
pub enum OperatingMode {
    /// Interrupt on terminal count.
    InterruptOnTerminalCount,
    /// Hardware re-triggerable one-shot.
    HardwareRetriggerableOneShot,
    /// Rate generator.
    RateGenerator,
    /// Square wave generator.
    SquareWaveGenerator,
    /// Software triggered strobe.
    SoftwareTriggeredStrobe,
    /// Hardware triggered strobe.
    HardwareTriggeredStrobe,
}

/// The mode bits (bits 1..4 of the command byte) of an operating mode.
pub open spec fn operating_mode_bits(mode: OperatingMode) -> u8 {
    match mode {
        OperatingMode::InterruptOnTerminalCount => 0,
        OperatingMode::HardwareRetriggerableOneShot => 1,
        OperatingMode::RateGenerator => 2,
        OperatingMode::SquareWaveGenerator => 3,
        OperatingMode::SoftwareTriggeredStrobe => 4,
        OperatingMode::HardwareTriggeredStrobe => 5,
    }
}

/// How the 16-bit counter value is transferred.
#[derive(Clone, Copy, PartialEq, Eq, Structural, Debug)]
pub enum AccessMode {
    /// Low byte only.
    LowByte,
    /// High byte only.
    HighByte,
    /// Low byte, then high byte.
    LowAndHighByte,
}

/// The access bits (bits 4..6 of the command byte) of an access mode.
pub open spec fn access_mode_bits(mode: AccessMode) -> u8 {
    match mode {
        AccessMode::LowByte => 1,
        AccessMode::HighByte => 2,
        AccessMode::LowAndHighByte => 3,
    }
}

/// The timer channel addressed by a command.
#[derive(Clone, Copy, PartialEq, Eq, Structural, Debug)]
pub enum Channel {
    /// Channel 0, wired to the interrupt controller.
    Channel0,
    /// Channel 1.
    Channel1,
    /// Channel 2, wired to the speaker.
    Channel2,
}

/// The channel bits (bits 6..8 of the command byte) of a channel.
pub open spec fn channel_bits(channel: Channel) -> u8 {
    match channel {
        Channel::Channel0 => 0,
        Channel::Channel1 => 1,
        Channel::Channel2 => 2,
    }
}

/// A command byte of the timer: channel in bits 6..8, access mode in bits
/// 4..6, operating mode in bits 1..4.
#[derive(Clone, Copy, PartialEq, Eq, Structural, Debug)]
pub struct Command {
    value: u8,
}

impl Command {
    /// The raw command byte.
    pub closed spec fn value_spec(self) -> u8 {
        self.value
    }

    /// The exec bit code of an operating mode.
    fn mode_code(operating_mode: OperatingMode) -> (r: u8)
        ensures
            r == operating_mode_bits(operating_mode),
            r < 8,
    {
        match operating_mode {
            OperatingMode::InterruptOnTerminalCount => 0,
            OperatingMode::HardwareRetriggerableOneShot => 1,
            OperatingMode::RateGenerator => 2,
            OperatingMode::SquareWaveGenerator => 3,
            OperatingMode::SoftwareTriggeredStrobe => 4,
            OperatingMode::HardwareTriggeredStrobe => 5,
        }
    }

    /// The exec bit code of an access mode.
    fn access_code(access_mode: AccessMode) -> (r: u8)
        ensures
            r == access_mode_bits(access_mode),
            r < 4,
    {
        match access_mode {
            AccessMode::LowByte => 1,
            AccessMode::HighByte => 2,
            AccessMode::LowAndHighByte => 3,
        }
    }

    /// The exec bit code of a channel.
    fn channel_code(channel: Channel) -> (r: u8)
        ensures
            r == channel_bits(channel),
            r < 4,
    {
        match channel {
            Channel::Channel0 => 0,
            Channel::Channel1 => 1,
            Channel::Channel2 => 2,
        }
    }

    /// The command byte selecting the given operating mode, access mode and
    /// channel.
    pub fn new(operating_mode: OperatingMode, access_mode: AccessMode, channel: Channel) -> (r:
        Self)
        ensures
            r.value_spec() == (channel_bits(channel) << 6) | (access_mode_bits(access_mode) << 4)
                | (operating_mode_bits(operating_mode) << 1),
    {
        Command {
            value: (Self::channel_code(channel) << 6) | (Self::access_code(access_mode) << 4) | (
            Self::mode_code(operating_mode) << 1),
        }
    }

    /// Replace the operating-mode bits (bits 1..4), keeping the rest.
    pub fn set_operating_mode(&mut self, operating_mode: OperatingMode)
        ensures
            final(self).value_spec() == (old(self).value_spec() & 0xF1) | (operating_mode_bits(
                operating_mode,
            ) << 1),
    {
        self.value = (self.value & 0xF1) | (Self::mode_code(operating_mode) << 1);
    }

    /// Replace the access-mode bits (bits 4..6), keeping the rest.
    pub fn set_access_mode(&mut self, access_mode: AccessMode)
        ensures
            final(self).value_spec() == (old(self).value_spec() & 0xCF) | (access_mode_bits(
                access_mode,
            ) << 4),
    {
        self.value = (self.value & 0xCF) | (Self::access_code(access_mode) << 4);
    }

    /// Replace the channel bits (bits 6..8), keeping the rest.
    pub fn set_channel(&mut self, channel: Channel)
        ensures
            final(self).value_spec() == (old(self).value_spec() & 0x3F) | (channel_bits(channel)
                << 6),
    {
        self.value = (self.value & 0x3F) | (Self::channel_code(channel) << 6);
    }

    /// The raw command byte, as written to the command port.
    pub fn as_u8(&self) -> (r: u8)
        ensures
            r == self.value_spec(),
    {
        self.value
    }
}

/// The tick rate of the timer crystal, in Hz.
pub const TICK_RATE: u32 = 1193181;

/// The reload divisor that makes the timer fire `frequency` times per
/// second: the tick rate divided by the frequency.  Writing the divisor and
/// the command byte to the ports is the embedder's concern.
pub fn set_timer_freq(frequency: u32) -> (r: u32)
    requires
        frequency > 0,
    ensures
        r == TICK_RATE / frequency,
{
    TICK_RATE / frequency
}

} // verus!
