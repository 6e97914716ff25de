//! Register codec: pure bit-field logic over the two 8-bit register shapes
//! of the controller, and the fixed byte encodings of its commands.

use vstd::prelude::*;

verus! {

/// True when bit `b` of `x` is set.
pub open spec fn bit(x: u8, b: u8) -> bool {
    ((x >> b) & 1) == 1
}

/// Reads bit `b` of `x`.
pub fn get_bit(x: u8, b: u8) -> (r: bool)
    requires
        b < 8,
    ensures
        r == bit(x, b),
{
    ((x >> b) & 1) == 1
}

/// Returns `x` with bit `b` set to `v` and every other bit unchanged.
pub fn set_bit(x: u8, b: u8, v: bool) -> (r: u8)
    requires
        b < 8,
    ensures
        bit(r, b) == v,
        forall|i: u8| i < 8 && i != b ==> #[trigger] bit(r, i) == bit(x, i),
{
    if v {
        let r = x | (1u8 << b);
        proof {
            assert(bit(x | (1u8 << b), b)) by (bit_vector)
                requires
                    b < 8,
            ;
            assert(forall|i: u8|
                i < 8 && i != b ==> #[trigger] bit(x | (1u8 << b), i) == bit(x, i)) by (bit_vector)
                requires
                    b < 8,
            ;
        }
        r
    } else {
        let r = x & !(1u8 << b);
        proof {
            assert(!bit(x & !(1u8 << b), b)) by (bit_vector)
                requires
                    b < 8,
            ;
            assert(forall|i: u8|
                i < 8 && i != b ==> #[trigger] bit(x & !(1u8 << b), i) == bit(x, i)) by (bit_vector)
                requires
                    b < 8,
            ;
        }
        r
    }
}

/// Two bytes that agree on all eight bits are equal.
pub proof fn lemma_bits_eq(a: u8, b: u8)
    requires
        bit(a, 0) == bit(b, 0),
        bit(a, 1) == bit(b, 1),
        bit(a, 2) == bit(b, 2),
        bit(a, 3) == bit(b, 3),
        bit(a, 4) == bit(b, 4),
        bit(a, 5) == bit(b, 5),
        bit(a, 6) == bit(b, 6),
        bit(a, 7) == bit(b, 7),
    ensures
        a == b,
{
    assert(a == b) by (bit_vector)
        requires
            bit(a, 0) == bit(b, 0),
            bit(a, 1) == bit(b, 1),
            bit(a, 2) == bit(b, 2),
            bit(a, 3) == bit(b, 3),
            bit(a, 4) == bit(b, 4),
            bit(a, 5) == bit(b, 5),
            bit(a, 6) == bit(b, 6),
            bit(a, 7) == bit(b, 7),
    ;
}

/// The controller status byte, as sampled from the status address.  It is
/// never stored: every user re-reads it at the moment of the access it
/// gates.
#[derive(Clone, Copy, Debug)]
pub struct StatusRegister(pub u8);

impl StatusRegister {
    /// Output buffer status: set while a data byte waits to be read, and a
    /// precondition of any data read.
    pub fn output_buffer_is_full(&self) -> (r: bool)
        ensures
            r == bit(self.0, 0),
    {
        get_bit(self.0, 0)
    }

    /// Input buffer status: must be clear before a data byte is written.
    pub fn input_buffer_is_full(&self) -> (r: bool)
        ensures
            r == bit(self.0, 1),
    {
        get_bit(self.0, 1)
    }

    /// System flag: set by firmware once the power-on self test passed.
    pub fn system_flag(&self) -> (r: bool)
        ensures
            r == bit(self.0, 2),
    {
        get_bit(self.0, 2)
    }

    /// Whether the last write to the input buffer was a controller command
    /// rather than device data.
    pub fn is_command(&self) -> (r: bool)
        ensures
            r == bit(self.0, 3),
    {
        get_bit(self.0, 3)
    }

    /// Time-out error flag.
    pub fn is_timeout_error(&self) -> (r: bool)
        ensures
            r == bit(self.0, 6),
    {
        get_bit(self.0, 6)
    }

    /// Parity error flag.
    pub fn is_parity_error(&self) -> (r: bool)
        ensures
            r == bit(self.0, 7),
    {
        get_bit(self.0, 7)
    }
}

/// The controller's internal settings byte ("byte 0" of its RAM).  Bits 3
/// and 7 are reserved and must remain zero; the setters below touch only
/// their own bit, so they keep that invariant.
#[derive(Clone, Copy, Debug)]
pub struct ControllerConfigurationByte(pub u8);

impl Default for ControllerConfigurationByte {
    /// An all-clear configuration byte.
    fn default() -> (r: Self)
        ensures
            r.0 == 0,
    {
        ControllerConfigurationByte(0)
    }
}

impl ControllerConfigurationByte {
    /// First channel interrupt enabled.
    pub fn is_enable_interrupt1(&self) -> (r: bool)
        ensures
            r == bit(self.0, 0),
    {
        get_bit(self.0, 0)
    }

    /// Second channel interrupt enabled.
    pub fn is_enable_interrupt2(&self) -> (r: bool)
        ensures
            r == bit(self.0, 1),
    {
        get_bit(self.0, 1)
    }

    /// System flag: the firmware's power-on self test passed.
    pub fn system_flag(&self) -> (r: bool)
        ensures
            r == bit(self.0, 2),
    {
        get_bit(self.0, 2)
    }

    /// First channel clock disabled.
    pub fn is_disabled_clock1(&self) -> (r: bool)
        ensures
            r == bit(self.0, 4),
    {
        get_bit(self.0, 4)
    }

    /// Second channel clock disabled.
    pub fn is_disabled_clock2(&self) -> (r: bool)
        ensures
            r == bit(self.0, 5),
    {
        get_bit(self.0, 5)
    }

    /// First channel scan-code translation enabled.
    pub fn is_enabled_translation1(&self) -> (r: bool)
        ensures
            r == bit(self.0, 6),
    {
        get_bit(self.0, 6)
    }

    /// Sets the first channel interrupt enable bit; every other bit keeps
    /// its value.
    pub fn set_is_enable_interrupt1(&mut self, value: bool)
        ensures
            bit(final(self).0, 0) == value,
            forall|i: u8| i < 8 && i != 0 ==> #[trigger] bit(final(self).0, i) == bit(old(self).0, i),
    {
        self.0 = set_bit(self.0, 0, value);
    }

    /// Sets the second channel interrupt enable bit; every other bit keeps
    /// its value.
    pub fn set_is_enable_interrupt2(&mut self, value: bool)
        ensures
            bit(final(self).0, 1) == value,
            forall|i: u8| i < 8 && i != 1 ==> #[trigger] bit(final(self).0, i) == bit(old(self).0, i),
    {
        self.0 = set_bit(self.0, 1, value);
    }

    /// Sets the system flag bit; every other bit keeps its value.
    pub fn set_system_flag(&mut self, value: bool)
        ensures
            bit(final(self).0, 2) == value,
            forall|i: u8| i < 8 && i != 2 ==> #[trigger] bit(final(self).0, i) == bit(old(self).0, i),
    {
        self.0 = set_bit(self.0, 2, value);
    }

    /// Sets the first channel clock-disable bit; every other bit keeps its
    /// value.
    pub fn set_is_disabled_clock1(&mut self, value: bool)
        ensures
            bit(final(self).0, 4) == value,
            forall|i: u8| i < 8 && i != 4 ==> #[trigger] bit(final(self).0, i) == bit(old(self).0, i),
    {
        self.0 = set_bit(self.0, 4, value);
    }

    /// Sets the second channel clock-disable bit; every other bit keeps its
    /// value.
    pub fn set_is_disabled_clock2(&mut self, value: bool)
        ensures
            bit(final(self).0, 5) == value,
            forall|i: u8| i < 8 && i != 5 ==> #[trigger] bit(final(self).0, i) == bit(old(self).0, i),
    {
        self.0 = set_bit(self.0, 5, value);
    }

    /// Sets the first channel translation-enable bit; every other bit keeps
    /// its value.
    pub fn set_is_enabled_translation1(&mut self, value: bool)
        ensures
            bit(final(self).0, 6) == value,
            forall|i: u8| i < 8 && i != 6 ==> #[trigger] bit(final(self).0, i) == bit(old(self).0, i),
    {
        self.0 = set_bit(self.0, 6, value);
    }
}

/// The commands a host can issue to the controller itself, written to the
/// command address.
#[derive(Clone, Copy, Debug, PartialEq, Eq)]
pub enum ControllerCommands {
    /// Read "byte 0" of internal RAM, the configuration byte.
    ReadByte0,
    /// Write the next data byte to "byte 0" of internal RAM.
    WriteByte0,
    /// Disable the second channel.
    DisablePort2,
    /// Enable the second channel.
    EnablePort2,
    /// Run the interface test of the second channel.
    TestPort2,
    /// Run the controller's own self test.
    TestController,
    /// Run the interface test of the first channel.
    TestPort1,
    /// Disable the first channel.
    DisablePort1,
    /// Enable the first channel.
    EnablePort1,
    /// Forward the next data byte to the second channel's input buffer.
    WriteByteInputPort2,
}

impl ControllerCommands {
    /// The fixed byte that encodes this command.
    pub open spec fn byte(self) -> u8 {
        match self {
            ControllerCommands::ReadByte0 => 0x20,
            ControllerCommands::WriteByte0 => 0x60,
            ControllerCommands::DisablePort2 => 0xA7,
            ControllerCommands::EnablePort2 => 0xA8,
            ControllerCommands::TestPort2 => 0xA9,
            ControllerCommands::TestController => 0xAA,
            ControllerCommands::TestPort1 => 0xAB,
            ControllerCommands::DisablePort1 => 0xAD,
            ControllerCommands::EnablePort1 => 0xAE,
            ControllerCommands::WriteByteInputPort2 => 0xD4,
        }
    }

    /// Encodes this command as the byte the controller defines for it.
    pub fn encode(self) -> (r: u8)
        ensures
            r == self.byte(),
    {
        match self {
            ControllerCommands::ReadByte0 => 0x20,
            ControllerCommands::WriteByte0 => 0x60,
            ControllerCommands::DisablePort2 => 0xA7,
            ControllerCommands::EnablePort2 => 0xA8,
            ControllerCommands::TestPort2 => 0xA9,
            ControllerCommands::TestController => 0xAA,
            ControllerCommands::TestPort1 => 0xAB,
            ControllerCommands::DisablePort1 => 0xAD,
            ControllerCommands::EnablePort1 => 0xAE,
            ControllerCommands::WriteByteInputPort2 => 0xD4,
        }
    }
}

/// The commands a host can address to a device, sent through the data
/// address.
#[derive(Clone, Copy, Debug, PartialEq, Eq)]
pub enum DeviceCommands {
    /// Ask the device to identify itself.
    Identify,
    /// Resume the device's scanning data stream.
    EnableScanning,
    /// Pause the device's scanning data stream.
    DisableScanning,
    /// Reset the device; supported by every device.
    Reset,
}

impl DeviceCommands {
    /// The fixed byte that encodes this command.
    pub open spec fn byte(self) -> u8 {
        match self {
            DeviceCommands::Identify => 0xF2,
            DeviceCommands::EnableScanning => 0xF4,
            DeviceCommands::DisableScanning => 0xF5,
            DeviceCommands::Reset => 0xFF,
        }
    }

    /// Encodes this command as the byte the devices define for it.
    pub fn encode(self) -> (r: u8)
        ensures
            r == self.byte(),
    {
        match self {
            DeviceCommands::Identify => 0xF2,
            DeviceCommands::EnableScanning => 0xF4,
            DeviceCommands::DisableScanning => 0xF5,
            DeviceCommands::Reset => 0xFF,
        }
    }
}

} // verus!
