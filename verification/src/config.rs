//! The line format of the UART and the settings an application chooses.
use vstd::prelude::*;

verus! {

/// The buffer sizes of an application that does not choose its own.
pub const DEFAULT_TX_BUF_SIZE: usize = 512;

pub const DEFAULT_RX_BUF_SIZE: usize = 512;

/// How many characters a transmission may still have between the software
/// and the line: four in the transmit FIFO and one in the shift register.
pub const DEFAULT_TX_PIPELINE_CHARS: u32 = 5;

/// Why a UART could not be brought up.
#[derive(Debug, Clone, Copy, PartialEq, Eq, Structural)]
pub enum InitError {
    /// The clock or the baud rate is zero, or no clock divisor fits the two.
    InvalidBaud,
    /// The line format is not one that the PIO programs speak.
    UnsupportedConfig,
    /// The transmit program found no room in the instruction memory.
    InstallTxProgram,
    /// The receive program found no room in the instruction memory.
    InstallRxProgram,
}

/// Data bits of a character.
#[derive(Debug, Clone, Copy, PartialEq, Eq, Structural)]
pub enum DataBits {
    Five,
    Six,
    Seven,
    Eight,
}

/// Stop bits of a character.
#[derive(Debug, Clone, Copy, PartialEq, Eq, Structural)]
pub enum StopBits {
    One,
    Two,
}

/// Parity bit of a character.
#[derive(Debug, Clone, Copy, PartialEq, Eq, Structural)]
pub enum Parity {
    NoParity,
    Even,
    Odd,
}

/// Whether the application polls the UART or serves it from an interrupt.
#[derive(Debug, Clone, Copy, PartialEq, Eq, Structural)]
pub enum ServiceMode {
    Polling,
    InterruptDriven,
}

/// The settings of a UART.
#[derive(Debug, Clone, Copy, PartialEq, Eq, Structural)]
pub struct UartConfig {
    pub baud: u32,
    pub data_bits: DataBits,
    pub parity: Parity,
    pub stop_bits: StopBits,
    pub auto_echo: bool,
    pub service_mode: ServiceMode,
    pub tx_pipeline_chars: u32,
}

impl DataBits {
    /// The number of data bits.
    pub open spec fn count(self) -> int {
        match self {
            DataBits::Five => 5,
            DataBits::Six => 6,
            DataBits::Seven => 7,
            DataBits::Eight => 8,
        }
    }

    /// Returns the number of data bits.
    pub fn bits(self) -> (n: u32)
        ensures
            n == self.count(),
            n == (match self {
                DataBits::Five => 5int,
                DataBits::Six => 6,
                DataBits::Seven => 7,
                DataBits::Eight => 8,
            }),
    {
        match self {
            DataBits::Five => 5,
            DataBits::Six => 6,
            DataBits::Seven => 7,
            DataBits::Eight => 8,
        }
    }
}

impl Parity {
    /// The number of parity bits.
    pub open spec fn count(self) -> int {
        if self == Parity::NoParity {
            0
        } else {
            1
        }
    }
}

impl StopBits {
    /// The number of stop bits.
    pub open spec fn count(self) -> int {
        match self {
            StopBits::One => 1,
            StopBits::Two => 2,
        }
    }
}

impl Default for UartConfig {
    /// 115200 baud, 8N1, no echo, polled.
    fn default() -> (config: Self)
        ensures
            config == (UartConfig {
                baud: 115_200,
                data_bits: DataBits::Eight,
                parity: Parity::NoParity,
                stop_bits: StopBits::One,
                auto_echo: false,
                service_mode: ServiceMode::Polling,
                tx_pipeline_chars: DEFAULT_TX_PIPELINE_CHARS,
            }),
            config.tx_pipeline_chars == 5,
    {
        UartConfig {
            baud: 115_200,
            data_bits: DataBits::Eight,
            parity: Parity::NoParity,
            stop_bits: StopBits::One,
            auto_echo: false,
            service_mode: ServiceMode::Polling,
            tx_pipeline_chars: DEFAULT_TX_PIPELINE_CHARS,
        }
    }
}

impl UartConfig {
    /// The bits of one character on the line: start, data, parity and stop.
    pub open spec fn frame_len(self) -> int {
        1 + self.data_bits.count() + self.parity.count() + self.stop_bits.count()
    }

    /// The PIO programs speak 8N1, at any baud rate but zero.
    pub open spec fn supported(self) -> bool {
        &&& self.baud != 0
        &&& self.data_bits == DataBits::Eight
        &&& self.parity == Parity::NoParity
        &&& self.stop_bits == StopBits::One
    }

    /// Returns the number of bits of one character on the line.
    pub fn frame_bits(&self) -> (bits: u32)
        ensures
            bits == self.frame_len(),
            bits == 1 + (match self.data_bits {
                DataBits::Five => 5int,
                DataBits::Six => 6,
                DataBits::Seven => 7,
                DataBits::Eight => 8,
            }) + (match self.parity {
                Parity::NoParity => 0int,
                Parity::Even | Parity::Odd => 1,
            }) + (match self.stop_bits {
                StopBits::One => 1int,
                StopBits::Two => 2,
            }),
    {
        let data_bits: u32 = self.data_bits.bits();
        let parity_bits: u32 = match self.parity {
            Parity::NoParity => 0,
            Parity::Even | Parity::Odd => 1,
        };
        let stop_bits: u32 = match self.stop_bits {
            StopBits::One => 1,
            StopBits::Two => 2,
        };
        1 + data_bits + parity_bits + stop_bits
    }

    /// Returns whether the PIO programs can speak this line format.
    pub fn is_supported_by_current_backend(&self) -> (supported: bool)
        ensures
            supported == self.supported(),
            supported <==> self.baud != 0 && self.data_bits == DataBits::Eight && self.parity
                == Parity::NoParity && self.stop_bits == StopBits::One,
    {
        self.baud != 0 && self.data_bits == DataBits::Eight && self.parity == Parity::NoParity
            && self.stop_bits == StopBits::One
    }
}

/// Every character takes between seven and twelve bits, and exactly ten in
/// the format that the PIO programs speak.
pub proof fn law_frame_length(config: UartConfig)
    ensures
        7 <= config.frame_len() <= 12,
        config.supported() ==> config.frame_len() == 10,
{
}

/// The shortest character has seven bits. A parity bit, a second stop bit and
/// each further data bit make it one bit longer, and nothing else does.
pub proof fn law_frame_bits_add_up(config: UartConfig, other: UartConfig)
    ensures
        config.data_bits == DataBits::Five && config.parity == Parity::NoParity
            && config.stop_bits == StopBits::One ==> config.frame_len() == 7,
        (UartConfig { data_bits: DataBits::Six, ..config }).frame_len() == (UartConfig {
            data_bits: DataBits::Five,
            ..config
        }).frame_len() + 1,
        (UartConfig { data_bits: DataBits::Seven, ..config }).frame_len() == (UartConfig {
            data_bits: DataBits::Six,
            ..config
        }).frame_len() + 1,
        (UartConfig { data_bits: DataBits::Eight, ..config }).frame_len() == (UartConfig {
            data_bits: DataBits::Seven,
            ..config
        }).frame_len() + 1,
        (UartConfig { parity: Parity::Even, ..config }).frame_len() == (UartConfig {
            parity: Parity::NoParity,
            ..config
        }).frame_len() + 1,
        (UartConfig { parity: Parity::Odd, ..config }).frame_len() == (UartConfig {
            parity: Parity::Even,
            ..config
        }).frame_len(),
        (UartConfig { stop_bits: StopBits::Two, ..config }).frame_len() == (UartConfig {
            stop_bits: StopBits::One,
            ..config
        }).frame_len() + 1,
        config.data_bits == other.data_bits && config.parity == other.parity && config.stop_bits
            == other.stop_bits ==> config.frame_len() == other.frame_len(),
{
}

/// The PIO programs speak one format and no other: of two supported settings
/// neither differs from the other in data bits, parity or stop bits, 8N1 is
/// supported at every baud rate but zero, and nothing but the format and the
/// baud rate matters.
pub proof fn law_only_8n1_is_supported(config: UartConfig)
    ensures
        config.data_bits != DataBits::Eight ==> !config.supported(),
        config.parity != Parity::NoParity ==> !config.supported(),
        config.stop_bits != StopBits::One ==> !config.supported(),
        (UartConfig {
            data_bits: DataBits::Eight,
            parity: Parity::NoParity,
            stop_bits: StopBits::One,
            ..config
        }).supported() <==> config.baud != 0,
{
}

} // verus!
