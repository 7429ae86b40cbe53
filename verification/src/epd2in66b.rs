//! The e-paper display controller: a stateless command/data framer over a
//! chip-select/data-command pin protocol.  Each operation drives the
//! data/command pin, shifts the command address or its payload out over the
//! SPI bus, and raises chip select again.

use vstd::prelude::*;

use crate::hw::{DelayUs, InPin, OutPin, SpiBus};

verus! {

/// The controller's command addresses.
///
/// Rarely (never?) needed directly; the data sheets give the details.
#[allow(dead_code)]
#[derive(Clone, Copy)]
pub(crate) enum Command {
    DriverOutputControl,
    GateDrivingVoltageControl,
    SourceDrivingVoltageControl,
    InitialCodeSettingOTPProgram,
    WriteRegisterForInitialCodeSetting,
    ReadRegisterForInitialCodeSetting,
    DeepSleepMode,
    DataEntryModeSetting,
    BoosterSoftStartControl,
    SWReset,
    TemperatureSensorControl,
    TemperatureSensorControlWriteToTemperatureRegister,
    MasterActivation,
    DisplayUpdateControl1,
    DisplayUpdateControl2,
    WriteRAMBlackWhite,
    WriteRAMRed,
    WriteVCOMRegister,
    OTPRegisterReadForDisplayOption,
    StatusBitRead,
    ProgramWSOTP,
    WriteLUTRegister,
    OTPProgramMode,
    SetRamXAddressStartEnd,
    SetRamYAddressStartEnd,
    SetRamXAddressCounter,
    SetRamYAddressCounter,
}

impl Command {
    /// The address of the command.
    pub(crate) open spec fn spec_address(self) -> u8 {
        match self {
            Command::DriverOutputControl => 0x01,
            Command::GateDrivingVoltageControl => 0x03,
            Command::SourceDrivingVoltageControl => 0x04,
            Command::InitialCodeSettingOTPProgram => 0x08,
            Command::WriteRegisterForInitialCodeSetting => 0x09,
            Command::ReadRegisterForInitialCodeSetting => 0x0A,
            Command::DeepSleepMode => 0x10,
            Command::DataEntryModeSetting => 0x11,
            Command::BoosterSoftStartControl => 0x0C,
            Command::SWReset => 0x12,
            Command::TemperatureSensorControl => 0x18,
            Command::TemperatureSensorControlWriteToTemperatureRegister => 0x1A,
            Command::MasterActivation => 0x20,
            Command::DisplayUpdateControl1 => 0x21,
            Command::DisplayUpdateControl2 => 0x22,
            Command::WriteRAMBlackWhite => 0x24,
            Command::WriteRAMRed => 0x26,
            Command::WriteVCOMRegister => 0x2C,
            Command::OTPRegisterReadForDisplayOption => 0x2D,
            Command::StatusBitRead => 0x2F,
            Command::ProgramWSOTP => 0x30,
            Command::WriteLUTRegister => 0x32,
            Command::OTPProgramMode => 0x39,
            Command::SetRamXAddressStartEnd => 0x44,
            Command::SetRamYAddressStartEnd => 0x45,
            Command::SetRamXAddressCounter => 0x4E,
            Command::SetRamYAddressCounter => 0x4F,
        }
    }

    /// The address of the command.
    pub(crate) fn address(self) -> (r: u8)
        ensures
            r == self.spec_address(),
    {
        match self {
            Command::DriverOutputControl => 0x01,
            Command::GateDrivingVoltageControl => 0x03,
            Command::SourceDrivingVoltageControl => 0x04,
            Command::InitialCodeSettingOTPProgram => 0x08,
            Command::WriteRegisterForInitialCodeSetting => 0x09,
            Command::ReadRegisterForInitialCodeSetting => 0x0A,
            Command::DeepSleepMode => 0x10,
            Command::DataEntryModeSetting => 0x11,
            Command::BoosterSoftStartControl => 0x0C,
            Command::SWReset => 0x12,
            Command::TemperatureSensorControl => 0x18,
            Command::TemperatureSensorControlWriteToTemperatureRegister => 0x1A,
            Command::MasterActivation => 0x20,
            Command::DisplayUpdateControl1 => 0x21,
            Command::DisplayUpdateControl2 => 0x22,
            Command::WriteRAMBlackWhite => 0x24,
            Command::WriteRAMRed => 0x26,
            Command::WriteVCOMRegister => 0x2C,
            Command::OTPRegisterReadForDisplayOption => 0x2D,
            Command::StatusBitRead => 0x2F,
            Command::ProgramWSOTP => 0x30,
            Command::WriteLUTRegister => 0x32,
            Command::OTPProgramMode => 0x39,
            Command::SetRamXAddressStartEnd => 0x44,
            Command::SetRamYAddressStartEnd => 0x45,
            Command::SetRamXAddressCounter => 0x4E,
            Command::SetRamYAddressCounter => 0x4F,
        }
    }
}

/// The controller's sleep depths.
#[derive(Clone, Copy)]
pub enum DeepSleepMode {
    /// Sleeps and keeps access to RAM and controller.
    Normal,
    /// Sleeps without access to RAM/controller but keeps RAM content.
    Mode1,
    /// Same as `Mode1` but RAM content is not kept.
    Mode2,
}

impl DeepSleepMode {
    /// The register value of the mode.
    pub open spec fn spec_code(self) -> u8 {
        match self {
            DeepSleepMode::Normal => 0x00,
            DeepSleepMode::Mode1 => 0x01,
            DeepSleepMode::Mode2 => 0x11,
        }
    }

    /// The register value of the mode.
    pub fn code(self) -> (r: u8)
        ensures
            r == self.spec_code(),
    {
        match self {
            DeepSleepMode::Normal => 0x00,
            DeepSleepMode::Mode1 => 0x01,
            DeepSleepMode::Mode2 => 0x11,
        }
    }
}

/// Data-entry address increment orders.
#[allow(dead_code)]
pub enum DataEntryModeIncr {
    XDecrYDecr,
    XIncrYDecr,
    XDecrYIncr,
    XIncrYIncr,
}

impl DataEntryModeIncr {
    /// The register value of the order.
    pub open spec fn spec_code(self) -> u8 {
        match self {
            DataEntryModeIncr::XDecrYDecr => 0x0,
            DataEntryModeIncr::XIncrYDecr => 0x1,
            DataEntryModeIncr::XDecrYIncr => 0x2,
            DataEntryModeIncr::XIncrYIncr => 0x3,
        }
    }

    /// The register value of the order.
    pub fn code(self) -> (r: u8)
        ensures
            r == self.spec_code(),
    {
        match self {
            DataEntryModeIncr::XDecrYDecr => 0x0,
            DataEntryModeIncr::XIncrYDecr => 0x1,
            DataEntryModeIncr::XDecrYIncr => 0x2,
            DataEntryModeIncr::XIncrYIncr => 0x3,
        }
    }
}

/// Data-entry counter directions.
#[allow(dead_code)]
pub enum DataEntryModeDir {
    XDir,
    YDir,
}

impl DataEntryModeDir {
    /// The register value of the direction.
    pub open spec fn spec_code(self) -> u8 {
        match self {
            DataEntryModeDir::XDir => 0x0,
            DataEntryModeDir::YDir => 0x4,
        }
    }

    /// The register value of the direction.
    pub fn code(self) -> (r: u8)
        ensures
            r == self.spec_code(),
    {
        match self {
            DataEntryModeDir::XDir => 0x0,
            DataEntryModeDir::YDir => 0x4,
        }
    }
}

/// How a display RAM plane is used during an update.
#[allow(dead_code)]
pub enum DisplayRamOption {
    Normal,
    Bypass,
    Inverse,
}

impl DisplayRamOption {
    /// The register value of the option (low four bits).
    pub open spec fn spec_code(self) -> u8 {
        match self {
            DisplayRamOption::Normal => 0b0000,
            DisplayRamOption::Bypass => 0b0100,
            DisplayRamOption::Inverse => 0b1000,
        }
    }

    /// The register value of the option (low four bits).
    pub fn code(self) -> (r: u8)
        ensures
            r == self.spec_code(),
    {
        match self {
            DisplayRamOption::Normal => 0b0000,
            DisplayRamOption::Bypass => 0b0100,
            DisplayRamOption::Inverse => 0b1000,
        }
    }
}

/// Which source outputs drive the panel.
#[allow(dead_code)]
pub enum SourceOutputMode {
    S0ToS175,
    S8ToS167,
}

impl SourceOutputMode {
    /// The register value of the mode (top bit of its byte).
    pub open spec fn spec_code(self) -> u8 {
        match self {
            SourceOutputMode::S0ToS175 => 0,
            SourceOutputMode::S8ToS167 => 1,
        }
    }

    /// The register value of the mode (top bit of its byte).
    pub fn code(self) -> (r: u8)
        ensures
            r == self.spec_code(),
    {
        match self {
            SourceOutputMode::S0ToS175 => 0,
            SourceOutputMode::S8ToS167 => 1,
        }
    }
}

/// One pixel's colour on the three-colour panel.
#[derive(Copy, Clone, Eq, PartialEq, Ord, PartialOrd, Hash, Debug)]
pub enum Color {
    White,
    Black,
    Red,
}

/// A run of `n` copies of one byte.
fn byte_run(b: u8, n: usize) -> (r: Vec<u8>)
    ensures
        r@ == Seq::new(n as nat, |i: int| b),
{
    let mut v: Vec<u8> = Vec::new();
    let mut i: usize = 0;
    proof {
        assert(v@ =~= Seq::new(0, |k: int| b));
    }
    while i < n
        invariant
            i <= n,
            v@ == Seq::new(i as nat, |k: int| b),
        decreases n - i,
    {
        v.push(b);
        proof {
            assert(v@ =~= Seq::new((i + 1) as nat, |k: int| b));
        }
        i += 1;
    }
    v
}

/// The display driver.  It owns the panel's pins; the SPI bus and the delay
/// source are lent to each operation.
pub struct Epd2in66bDisplay<CS, BUSY, DC, RST> {
    /// Chip select for the SPI bus (low to select).
    cs: CS,
    /// Low for ready: waited on until the panel is idle.
    busy: BUSY,
    /// Data/command control (high for data, low for a command).
    dc: DC,
    /// Reset (low pulse resets the panel).
    rst: RST,
}

impl<CS, BUSY, DC, RST> Epd2in66bDisplay<CS, BUSY, DC, RST> where
    CS: OutPin,
    BUSY: InPin,
    DC: OutPin,
    RST: OutPin,
 {
    /// Spin until the busy pin reads low.
    fn wait_for_busy_low(&mut self) {
        loop
            decreases self.busy.settle(),
        {
            if !self.busy.is_high() {
                return ;
            }
        }
    }

    /// Frame one command address: select, drive data/command low, shift the
    /// address out, deselect.
    fn cmd<SPI: SpiBus>(&mut self, spi: &mut SPI, c: Command) -> (r: Result<(), SPI::Error>)
        ensures
            r is Ok ==> final(spi).written() == old(spi).written() + seq![c.spec_address()],
            r is Err ==> old(spi).written().is_prefix_of(final(spi).written()),
    {
        self.cs.set_low();
        self.dc.set_low();
        let one: [u8; 1] = [c.address()];
        proof {
            assert(one@ =~= seq![c.spec_address()]);
        }
        match spi.write(one.as_slice()) {
            Result::Ok(()) => {},
            Result::Err(e) => {
                return Result::Err(e);
            },
        }
        self.cs.set_high();
        Result::Ok(())
    }

    /// Frame one payload: select, drive data/command high, shift the bytes
    /// out, deselect.
    fn data<SPI: SpiBus>(&mut self, spi: &mut SPI, data: &[u8]) -> (r: Result<(), SPI::Error>)
        ensures
            r is Ok ==> final(spi).written() == old(spi).written() + data@,
            r is Err ==> old(spi).written().is_prefix_of(final(spi).written()),
    {
        self.cs.set_low();
        self.dc.set_high();
        match spi.write(data) {
            Result::Ok(()) => {},
            Result::Err(e) => {
                return Result::Err(e);
            },
        }
        self.cs.set_high();
        Result::Ok(())
    }

    /// Hardware reset pulse, then a software reset command, waiting out the
    /// busy pin after each.
    fn init<SPI: SpiBus, DELAY: DelayUs>(&mut self, spi: &mut SPI, delay: &mut DELAY) -> (r:
        Result<(), SPI::Error>)
        ensures
            r is Ok ==> final(spi).written() == old(spi).written() + seq![18u8],
            r is Err ==> old(spi).written().is_prefix_of(final(spi).written()),
    {
        // hardware reset
        self.rst.set_low();
        delay.delay_us(200);
        self.rst.set_high();
        delay.delay_us(200);
        self.wait_for_busy_low();
        // software reset
        match self.cmd(spi, Command::SWReset) {
            Result::Ok(()) => {},
            Result::Err(e) => {
                return Result::Err(e);
            },
        }
        self.wait_for_busy_low();
        Result::Ok(())
    }

    /// Take the panel's pins, reset the panel and leave it ready.  The only
    /// bus traffic of a successful bring-up is the software-reset command.
    pub fn new<SPI: SpiBus, DELAY: DelayUs>(
        spi: &mut SPI,
        cs: CS,
        busy: BUSY,
        dc: DC,
        rst: RST,
        delay: &mut DELAY,
    ) -> (r: Result<Epd2in66bDisplay<CS, BUSY, DC, RST>, SPI::Error>)
        ensures
            r is Ok ==> final(spi).written() == old(spi).written() + seq![18u8],
            r is Err ==> old(spi).written().is_prefix_of(final(spi).written()),
    {
        let mut epd = Epd2in66bDisplay { cs, busy, dc, rst };
        match epd.init(spi, delay) {
            Result::Ok(()) => Result::Ok(epd),
            Result::Err(e) => Result::Err(e),
        }
    }

    /// Fill the black/white RAM plane with white and the red plane with
    /// no-red, one full frame each.
    pub fn clear_frame<SPI: SpiBus>(&mut self, spi: &mut SPI) -> (r: Result<(), SPI::Error>)
        ensures
            r is Ok ==> final(spi).written() == old(spi).written() + seq![36u8] + Seq::new(
                5624,
                |i: int| 255u8,
            ) + seq![38u8] + Seq::new(5624, |i: int| 0u8),
            r is Err ==> old(spi).written().is_prefix_of(final(spi).written()),
    {
        self.cs.set_low();
        match self.cmd(spi, Command::WriteRAMBlackWhite) {
            Result::Ok(()) => {},
            Result::Err(e) => {
                return Result::Err(e);
            },
        }
        let white = byte_run(255, 5624);
        match self.data(spi, white.as_slice()) {
            Result::Ok(()) => {},
            Result::Err(e) => {
                return Result::Err(e);
            },
        }
        match self.cmd(spi, Command::WriteRAMRed) {
            Result::Ok(()) => {},
            Result::Err(e) => {
                return Result::Err(e);
            },
        }
        let blank = byte_run(0, 5624);
        match self.data(spi, blank.as_slice()) {
            Result::Ok(()) => {},
            Result::Err(e) => {
                return Result::Err(e);
            },
        }
        self.cs.set_high();
        Result::Ok(())
    }

    /// Trigger a master activation and wait until the panel is idle again.
    pub fn activate<SPI: SpiBus>(&mut self, spi: &mut SPI) -> (r: Result<(), SPI::Error>)
        ensures
            r is Ok ==> final(spi).written() == old(spi).written() + seq![32u8],
            r is Err ==> old(spi).written().is_prefix_of(final(spi).written()),
    {
        match self.cmd(spi, Command::MasterActivation) {
            Result::Ok(()) => {},
            Result::Err(e) => {
                return Result::Err(e);
            },
        }
        self.wait_for_busy_low();
        Result::Ok(())
    }

    /// Configure how the two RAM planes are used and which source outputs
    /// drive the panel.
    pub fn display_update_control_1<SPI: SpiBus>(
        &mut self,
        spi: &mut SPI,
        red: DisplayRamOption,
        black_white: DisplayRamOption,
        output_mode: SourceOutputMode,
    ) -> (r: Result<(), SPI::Error>)
        ensures
            r is Ok ==> final(spi).written() == old(spi).written() + seq![
                33u8,
                (red.spec_code() * 16 + black_white.spec_code()) as u8,
                (output_mode.spec_code() * 128) as u8,
            ],
            r is Err ==> old(spi).written().is_prefix_of(final(spi).written()),
    {
        match self.cmd(spi, Command::DisplayUpdateControl1) {
            Result::Ok(()) => {},
            Result::Err(e) => {
                return Result::Err(e);
            },
        }
        let b0: u8 = red.code() * 16 + black_white.code();
        let b1: u8 = output_mode.code() * 128;
        let payload: [u8; 2] = [b0, b1];
        proof {
            assert(payload@ =~= seq![b0, b1]);
        }
        self.data(spi, payload.as_slice())
    }

    /// Put the panel into the given sleep depth.
    pub fn deep_sleep<SPI: SpiBus>(&mut self, spi: &mut SPI, mode: DeepSleepMode) -> (r: Result<
        (),
        SPI::Error,
    >)
        ensures
            r is Ok ==> final(spi).written() == old(spi).written() + seq![16u8, mode.spec_code()],
            r is Err ==> old(spi).written().is_prefix_of(final(spi).written()),
    {
        match self.cmd(spi, Command::DeepSleepMode) {
            Result::Ok(()) => {},
            Result::Err(e) => {
                return Result::Err(e);
            },
        }
        let payload: [u8; 1] = [mode.code()];
        proof {
            assert(payload@ =~= seq![mode.spec_code()]);
        }
        self.data(spi, payload.as_slice())
    }
}

} // verus!
