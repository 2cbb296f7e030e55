//! The hardware operations the driver needs, and the record it keeps of them.
use vstd::prelude::*;

verus! {

/// Bus and timing operations a backend provides (the RP2040, or a mock on
/// the host). Every external action of the driver goes through this trait.
pub trait AteccHal {
    /// Backend-specific error type.
    type Error;

    /// Write `data` to the chip at the 7-bit address `device_addr`.
    fn i2c_write(&mut self, device_addr: u8, data: &[u8]) -> (r: Result<(), Self::Error>);

    /// Read exactly `buf.len()` bytes from the chip into `buf`.
    fn i2c_read(&mut self, device_addr: u8, buf: &mut [u8]) -> (r: Result<(), Self::Error>)
        ensures
            final(buf)@.len() == old(buf)@.len(),
    ;

    /// Hold SDA low for `duration_us` microseconds (the wake pulse).
    fn pulse_sda_low(&mut self, duration_us: u32) -> (r: Result<(), Self::Error>);

    /// Sleep for `duration_us` microseconds.
    fn delay_us(&mut self, duration_us: u32);

    /// Sleep for `duration_ms` milliseconds.
    fn delay_ms(&mut self, duration_ms: u32);
}

/// One call the driver made on its HAL, with what came back.
pub enum HalOp {
    /// `i2c_write(addr, data)`; `ok` tells whether it succeeded.
    I2cWrite { addr: u8, data: Seq<u8>, ok: bool },
    /// `i2c_read(addr, buf)`; `data` is the buffer after the call, so its
    /// length is the requested length. `ok` tells whether the chip answered.
    I2cRead { addr: u8, data: Seq<u8>, ok: bool },
    /// `pulse_sda_low(duration_us)`.
    PulseSdaLow { duration_us: u32, ok: bool },
    /// `delay_us(duration_us)`.
    DelayUs { duration_us: u32 },
    /// `delay_ms(duration_ms)`.
    DelayMs { duration_ms: u32 },
}

} // verus!
