# rp_pio_serial

The software side of a UART on two PIO state machines of an RP2040 or RP2350, on
any two GPIO pins, verified with Verus.

The library under `src/` holds the software buffers, the settings and the
counters, and decides what is to be done to the hardware and in which order. It
does not touch the hardware. An operation is a job that a driver resumes with
what the hardware answered; the job says what to do next: read the receive FIFO,
look at the transmit FIFO, write a word, wait, or nothing more.

- `config`: the line format and the settings
- `clock`: clock divisors and character times
- `wire`: how a byte lies in a FIFO word and on the line
- `queue`: the byte queues, on `heapless::spsc::Queue`
- `model`: the state of a UART and what each stage of a job does to it
- `job`: jobs that can be left and resumed
- `serial`: `RpPioSerial` and its operations
- `laws`: what holds of whole runs, whatever the hardware answers

The format is 8N1. A queue of `N` slots holds `N - 1` bytes.

## What is verified and what is not

Everything under `src/` is verified, against two things that are trusted: that
`heapless::spsc::Queue` is a bounded queue, as the contracts in `queue` say, and
that `u8::reverse_bits` reverses the bits of a byte.

`app/` is not verified: the driver on `rp2040-hal` and `rp235x-hal`, the two PIO
programs, the printing macros and the demonstrations. What the laws say of the
line holds as far as the driver does what a job asks for and reports what came
of it, and as far as the programs shift bits as `wire` says.

## Choosing the chip

`app/` is built for the RP2040, or for the RP2350 with `--cfg rp2350` in the
compiler's flags (`RUSTFLAGS`). Each choice uses one of the two hardware crates
and its demonstration.

`app/` is a library. A program image is a crate with `no_std` and `no_main` that
links it and brings the linker script of its board; the `main` of the chosen
demonstration is then the entry point.
