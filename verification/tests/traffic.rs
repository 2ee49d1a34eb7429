use rp_pio_serial::{
    Action, Event, Installation, Job, Reception, RpPioSerial, ServiceMode, Startup, UartConfig,
};

type Serial = RpPioSerial<8, 4>;

/// FIFOs that give the words in `rx` and take `room` words, after `full`
/// looks at which they take none.
struct Hardware {
    rx: Vec<u32>,
    room: usize,
    full: usize,
    sent: Vec<u8>,
    actions: Vec<Action>,
}

impl Hardware {
    fn new(room: usize) -> Hardware {
        Hardware { rx: Vec::new(), room, full: 0, sent: Vec::new(), actions: Vec::new() }
    }

    fn read_rx(&mut self) -> Event {
        if self.rx.is_empty() {
            Event::RxEmpty
        } else {
            Event::RxWord(self.rx.remove(0))
        }
    }

    fn drive(&mut self, serial: &mut Serial, mut job: Job<'_>) -> usize {
        let mut event = Event::Continue;
        loop {
            let action = serial.step(&mut job, event);
            self.actions.push(action);
            event = match action {
                Action::ReadRx => self.read_rx(),
                Action::TestTx => {
                    if self.full > 0 {
                        self.full -= 1;
                        Event::TxFull
                    } else if self.room == 0 {
                        Event::TxFull
                    } else {
                        Event::TxRoom
                    }
                }
                Action::WriteTx(word) => {
                    assert!(self.room > 0);
                    self.room -= 1;
                    self.sent.push(word as u8);
                    Event::Continue
                }
                Action::Delay(_) | Action::Spin => Event::Continue,
                Action::Done => return job.written(),
            };
        }
    }

    /// The actions that do something.
    fn effects(&self) -> Vec<Action> {
        self.actions
            .iter()
            .copied()
            .filter(|action| matches!(action, Action::WriteTx(_) | Action::Delay(_)))
            .collect()
    }
}

fn uart(echo: bool) -> Serial {
    let config = UartConfig { auto_echo: echo, ..UartConfig::default() };
    match Serial::new(10, 9, 125_000_000, config, Installation::BothRunning) {
        Ok(Startup::Ready(serial)) => serial,
        _ => panic!("expected a UART"),
    }
}

fn words(bytes: &[u8]) -> Vec<u32> {
    bytes.iter().map(|b| u32::from(b.reverse_bits())).collect()
}

fn writes(bytes: &[u8]) -> Vec<Action> {
    bytes.iter().map(|b| Action::WriteTx(u32::from(*b))).collect()
}

/// Five characters of 10850 cycles.
const SILENCE: Action = Action::Delay(54_250);

#[test]
fn write_sends_in_order() {
    let mut serial = uart(false);
    let mut hw = Hardware::new(100);
    let (n, job) = serial.write(b"hello");
    assert_eq!(n, 5);
    assert_eq!(serial.tx_pending(), 5);
    assert_eq!(hw.drive(&mut serial, job), 5);
    assert_eq!(hw.sent, b"hello");
    assert_eq!(serial.tx_pending(), 0);
}

#[test]
fn write_takes_what_fits_and_counts_one_drop() {
    let mut serial = uart(false);
    let (n, _) = serial.write(b"0123456789");
    assert_eq!(n, 7);
    assert_eq!(serial.dropped_tx(), 1);
    assert_eq!(serial.tx_pending(), 7);
    let (n, _) = serial.write(b"ab");
    assert_eq!(n, 0);
    assert_eq!(serial.dropped_tx(), 2);
    let (n, _) = serial.write(b"");
    assert_eq!(n, 0);
    assert_eq!(serial.dropped_tx(), 2);
}

#[test]
fn a_full_fifo_leaves_the_rest_waiting() {
    let mut serial = uart(false);
    let mut hw = Hardware::new(4);
    let (_, job) = serial.write(b"abcdef");
    hw.drive(&mut serial, job);
    assert_eq!(hw.sent, b"abcd");
    assert_eq!(serial.tx_pending(), 2);
    hw.room = 1;
    let job = serial.kick_tx();
    hw.drive(&mut serial, job);
    hw.room = 9;
    let job = serial.on_interrupt();
    hw.drive(&mut serial, job);
    assert_eq!(hw.sent, b"abcdef");
}

#[test]
fn flush_asks_before_every_word() {
    let mut serial = uart(false);
    let mut hw = Hardware::new(2);
    let (_, job) = serial.write(b"xyz");
    hw.drive(&mut serial, job);
    assert_eq!(
        hw.actions,
        [
            Action::TestTx,
            Action::WriteTx(0x78),
            Action::TestTx,
            Action::WriteTx(0x79),
            Action::TestTx,
            Action::Done,
        ]
    );
}

#[test]
fn write_byte_says_whether_it_fitted() {
    let mut serial = uart(false);
    for i in 0..7 {
        let (taken, job) = serial.write_byte(i);
        assert!(taken);
        assert_eq!(job.written(), 1);
    }
    let (taken, job) = serial.write_byte(7);
    assert!(!taken);
    assert_eq!(job.written(), 0);
    assert_eq!(serial.dropped_tx(), 1);
}

#[test]
fn print_writes_the_bytes_of_a_text() {
    let mut serial = uart(false);
    let mut hw = Hardware::new(100);
    let (n, job) = serial.print("a\u{e9}");
    assert_eq!(n, 3);
    hw.drive(&mut serial, job);
    assert_eq!(hw.sent, [0x61, 0xC3, 0xA9]);
}

#[test]
fn println_adds_a_line_end() {
    let mut serial = uart(false);
    let mut hw = Hardware::new(100);
    let job = serial.println("hi");
    assert_eq!(hw.drive(&mut serial, job), 4);
    assert_eq!(hw.sent, b"hi\r\n");
}

#[test]
fn println_queues_the_line_end_after_the_flush() {
    // Seven bytes fill the buffer; the flush makes room for the line end.
    let mut serial = uart(false);
    let mut hw = Hardware::new(7);
    let job = serial.println("1234567");
    assert_eq!(hw.drive(&mut serial, job), 9);
    assert_eq!(hw.sent, b"1234567");
    assert_eq!(serial.tx_pending(), 2);
    assert_eq!(serial.dropped_tx(), 0);
    // Without room in the FIFO the line end is dropped.
    let mut serial = uart(false);
    let mut hw = Hardware::new(0);
    let job = serial.println("1234567");
    assert_eq!(hw.drive(&mut serial, job), 7);
    assert_eq!(serial.dropped_tx(), 1);
}

#[test]
fn flush_blocking_sends_all_and_waits() {
    let mut serial = uart(false);
    serial.write(b"abc");
    let mut hw = Hardware::new(100);
    hw.full = 3;
    let job = serial.flush_blocking();
    hw.drive(&mut serial, job);
    let mut expected = writes(b"abc");
    expected.push(SILENCE);
    assert_eq!(hw.effects(), expected);
    assert_eq!(serial.tx_pending(), 0);
    // Nothing waits and the line is silent.
    let mut hw = Hardware::new(0);
    let job = serial.flush_blocking();
    hw.drive(&mut serial, job);
    assert_eq!(hw.actions, [Action::Done]);
}

#[test]
fn flush_blocking_waits_for_what_was_sent_before() {
    let mut serial = uart(false);
    let mut hw = Hardware::new(100);
    let (_, job) = serial.write(b"q");
    hw.drive(&mut serial, job);
    hw.actions.clear();
    let job = serial.flush_blocking();
    hw.drive(&mut serial, job);
    assert_eq!(hw.actions, [SILENCE, Action::Done]);
}

#[test]
fn a_full_fifo_is_waited_for() {
    let mut serial = uart(false);
    let mut hw = Hardware::new(100);
    hw.full = 2;
    let job = serial.write_byte_blocking(0x55);
    hw.drive(&mut serial, job);
    assert_eq!(
        hw.actions,
        [
            Action::TestTx,
            Action::Spin,
            Action::TestTx,
            Action::Spin,
            Action::TestTx,
            Action::WriteTx(0x55),
            SILENCE,
            Action::Done,
        ]
    );
}

#[test]
fn write_all_blocking_sends_what_waits_first() {
    let mut serial = uart(false);
    serial.write(b"old");
    let mut hw = Hardware::new(100);
    let job = serial.write_all_blocking(b"more than the buffer holds");
    hw.drive(&mut serial, job);
    let mut expected = writes(b"old");
    expected.push(SILENCE);
    expected.extend(writes(b"more than the buffer holds"));
    expected.push(SILENCE);
    assert_eq!(hw.effects(), expected);
    assert_eq!(serial.dropped_tx(), 0);
}

#[test]
fn write_all_blocking_of_nothing_only_flushes() {
    let mut serial = uart(false);
    let mut hw = Hardware::new(0);
    let job = serial.write_all_blocking(b"");
    hw.drive(&mut serial, job);
    assert_eq!(hw.actions, [Action::Done]);
}

#[test]
fn println_blocking_waits_after_the_text_and_after_the_line_end() {
    let mut serial = uart(false);
    let mut hw = Hardware::new(100);
    let job = serial.println_blocking("ok");
    hw.drive(&mut serial, job);
    let mut expected = writes(b"ok");
    expected.push(SILENCE);
    expected.extend(writes(b"\r\n"));
    expected.push(SILENCE);
    assert_eq!(hw.effects(), expected);
}

#[test]
fn print_blocking_sends_a_text() {
    let mut serial = uart(false);
    let mut hw = Hardware::new(100);
    let job = serial.print_blocking("go");
    hw.drive(&mut serial, job);
    assert_eq!(hw.sent, b"go");
}

#[test]
fn fragments_follow_each_other() {
    let mut serial = uart(false);
    serial.write(b"!");
    let mut hw = Hardware::new(100);
    for fragment in ["n=", "7"] {
        let job = serial.fmt_write_blocking(fragment);
        hw.drive(&mut serial, job);
    }
    let mut expected = writes(b"!");
    expected.push(SILENCE);
    expected.extend(writes(b"n="));
    expected.push(SILENCE);
    expected.extend(writes(b"7"));
    expected.push(SILENCE);
    assert_eq!(hw.effects(), expected);
}

#[test]
fn write_repeated_blocking_repeats() {
    let mut serial = uart(false);
    let mut hw = Hardware::new(100);
    let job = serial.write_repeated_blocking(0x2D, 20);
    hw.drive(&mut serial, job);
    assert_eq!(hw.sent, [0x2D; 20]);
    assert_eq!(hw.effects().last(), Some(&SILENCE));
    let mut hw = Hardware::new(0);
    let job = serial.write_repeated_blocking(0x2D, 0);
    hw.drive(&mut serial, job);
    assert_eq!(hw.actions, [Action::Done]);
}

#[test]
fn blocking_jobs_end_however_often_the_fifo_is_full() {
    for full in [0, 1, 5, 40] {
        let mut serial = uart(false);
        let mut hw = Hardware::new(100);
        hw.full = full;
        let job = serial.write_all_blocking(b"abc");
        hw.drive(&mut serial, job);
        let mut expected = writes(b"abc");
        expected.push(SILENCE);
        assert_eq!(hw.effects(), expected);
        assert!(hw.actions.len() <= 2 * expected.len() + 2 * full + 1);
    }
}

#[test]
fn poll_ends_when_the_bytes_run_out() {
    let mut serial = uart(false);
    serial.write(b"ab");
    let mut hw = Hardware::new(100);
    hw.rx = words(b"x");
    let job = serial.poll();
    hw.drive(&mut serial, job);
    assert_eq!(hw.sent, b"ab");
    assert_eq!(serial.tx_pending(), 0);
    assert_eq!(hw.room, 98);
    assert_eq!(&hw.actions[hw.actions.len() - 2..], [Action::TestTx, Action::Done]);
}

#[test]
fn a_line_is_cut_where_the_buffer_is_full() {
    // Seven bytes of the text are taken, six of them leave at once, and the
    // line end finds room.
    let mut serial = uart(false);
    let mut hw = Hardware::new(6);
    let job = serial.println("12345678");
    assert_eq!(hw.drive(&mut serial, job), 9);
    assert_eq!(serial.dropped_tx(), 1);
    hw.room = 9;
    let job = serial.kick_tx();
    hw.drive(&mut serial, job);
    assert_eq!(hw.sent, b"1234567\r\n");
    // With room for one byte only half of the line end is taken.
    let mut serial = uart(false);
    let mut hw = Hardware::new(1);
    let job = serial.println("12345678");
    assert_eq!(hw.drive(&mut serial, job), 8);
    assert_eq!(serial.dropped_tx(), 2);
    hw.room = 9;
    let job = serial.kick_tx();
    hw.drive(&mut serial, job);
    assert_eq!(hw.sent, b"1234567\r");
}

#[test]
fn a_reader_gets_old_bytes_and_then_new_ones() {
    let mut serial = uart(false);
    let mut hw = Hardware::new(0);
    hw.rx = words(b"ol");
    let job = serial.poll();
    hw.drive(&mut serial, job);
    let mut buf = [0; 5];
    let mut filled = 0;
    let step = |serial: &mut Serial, event: Event, buf: &mut [u8; 5], filled: &mut usize| {
        matches!(serial.read_exact_blocking(event, buf, filled), Reception::Done(()))
    };
    assert!(!step(&mut serial, Event::RxEmpty, &mut buf, &mut filled));
    for word in words(b"dN") {
        assert!(!step(&mut serial, Event::RxWord(word), &mut buf, &mut filled));
    }
    for _ in 0..3 {
        assert!(!step(&mut serial, Event::RxEmpty, &mut buf, &mut filled));
    }
    assert!(!step(&mut serial, Event::RxWord(words(b"!")[0]), &mut buf, &mut filled));
    assert!(step(&mut serial, Event::RxEmpty, &mut buf, &mut filled));
    assert_eq!(&buf, b"oldN!");
    assert_eq!(serial.dropped_rx(), 0);
}

#[test]
fn the_service_mode_changes_nothing() {
    let mut actions = Vec::new();
    for mode in [ServiceMode::Polling, ServiceMode::InterruptDriven] {
        let mut serial = uart(true);
        serial.set_service_mode(mode);
        let mut hw = Hardware::new(2);
        hw.rx = words(b"abc");
        let job = serial.poll();
        hw.drive(&mut serial, job);
        actions.push(hw.actions);

        let mut buf = [0u8; 2];
        let mut filled: usize = 0;
        assert!(matches!(
            serial.read_exact_blocking(Event::RxEmpty, &mut buf, &mut filled),
            Reception::NextWord
        ));
        assert!(matches!(
            serial.read_exact_blocking(Event::RxEmpty, &mut buf, &mut filled),
            Reception::Done(())
        ));
        assert_eq!(&buf, b"ab");
        assert!(matches!(serial.read_byte(Event::RxEmpty), Reception::Done(Some(b'c'))));
    }
    assert_eq!(actions[0], actions[1]);
}

#[test]
fn the_wait_is_at_least_one_character_and_saturates() {
    let wait = |chars: u32| {
        let config = UartConfig { tx_pipeline_chars: chars, ..UartConfig::default() };
        let mut serial = match Serial::new(10, 9, 125_000_000, config, Installation::BothRunning) {
            Ok(Startup::Ready(serial)) => serial,
            _ => panic!("expected a UART"),
        };
        let mut hw = Hardware::new(1);
        let job = serial.write_byte_blocking(0);
        hw.drive(&mut serial, job);
        hw.effects()[1]
    };
    assert_eq!(wait(0), Action::Delay(10_850));
    assert_eq!(wait(1), Action::Delay(10_850));
    assert_eq!(wait(2), Action::Delay(21_700));
    assert_eq!(wait(u32::MAX), Action::Delay(u32::MAX));
}

#[test]
fn poll_receives_and_then_sends() {
    let mut serial = uart(false);
    serial.write(b"out");
    let mut hw = Hardware::new(2);
    hw.rx = words(b"in");
    let job = serial.poll();
    hw.drive(&mut serial, job);
    assert_eq!(
        hw.actions,
        [
            Action::ReadRx,
            Action::ReadRx,
            Action::ReadRx,
            Action::TestTx,
            Action::WriteTx(0x6F),
            Action::TestTx,
            Action::WriteTx(0x75),
            Action::TestTx,
            Action::Done,
        ]
    );
    assert_eq!(serial.available(), 2);
    assert_eq!(serial.tx_pending(), 1);
}

#[test]
fn received_bytes_that_do_not_fit_are_counted() {
    let mut serial = uart(false);
    let mut hw = Hardware::new(0);
    hw.rx = words(b"abcde");
    let job = serial.poll();
    hw.drive(&mut serial, job);
    assert_eq!(serial.available(), 3);
    assert_eq!(serial.dropped_rx(), 2);
    assert_eq!(serial.dropped_tx(), 0);
    let mut buf = [0; 8];
    assert!(matches!(serial.read(Event::RxEmpty, &mut buf), Reception::Done(3)));
    assert_eq!(buf, [b'a', b'b', b'c', 0, 0, 0, 0, 0]);
}

#[test]
fn echo_sends_back_what_it_receives() {
    let mut serial = uart(true);
    let mut hw = Hardware::new(100);
    hw.rx = words(b"abc");
    let job = serial.poll();
    hw.drive(&mut serial, job);
    assert_eq!(hw.sent, b"abc");
    assert_eq!(serial.available(), 3);
}

#[test]
fn echo_counts_what_it_cannot_send_back() {
    let mut serial = uart(true);
    let mut hw = Hardware::new(0);
    hw.rx = words(b"123456789");
    let job = serial.poll();
    hw.drive(&mut serial, job);
    assert_eq!((serial.available(), serial.dropped_rx()), (3, 6));
    assert_eq!((serial.tx_pending(), serial.dropped_tx()), (7, 2));
}

#[test]
fn read_empties_the_fifo_first() {
    let mut serial = uart(false);
    let mut buf = [0xEE; 2];
    assert!(matches!(serial.read(Event::Continue, &mut buf), Reception::NextWord));
    for word in words(b"xyz") {
        assert!(matches!(serial.read(Event::RxWord(word), &mut buf), Reception::NextWord));
    }
    assert_eq!(buf, [0xEE; 2]);
    assert!(matches!(serial.read(Event::RxEmpty, &mut buf), Reception::Done(2)));
    assert_eq!(&buf, b"xy");
    assert!(matches!(serial.read(Event::RxEmpty, &mut buf), Reception::Done(1)));
    assert_eq!(&buf, b"zy");
    assert!(matches!(serial.read(Event::RxEmpty, &mut buf), Reception::Done(0)));
}

#[test]
fn read_byte_takes_the_oldest() {
    let mut serial = uart(false);
    assert!(matches!(serial.read_byte(Event::Continue), Reception::NextWord));
    assert!(matches!(serial.read_byte(Event::RxEmpty), Reception::Done(None)));
    assert!(matches!(serial.read_byte(Event::RxWord(0x82)), Reception::NextWord));
    assert!(matches!(serial.read_byte(Event::RxEmpty), Reception::Done(Some(0x41))));
}

#[test]
fn read_byte_blocking_spins_until_there_is_one() {
    let mut serial = uart(false);
    assert!(matches!(serial.read_byte_blocking(Event::Continue), Reception::NextWord));
    assert!(matches!(serial.read_byte_blocking(Event::RxEmpty), Reception::Spin));
    assert!(matches!(serial.read_byte_blocking(Event::Continue), Reception::NextWord));
    assert!(matches!(serial.read_byte_blocking(Event::RxWord(0x82)), Reception::NextWord));
    assert!(matches!(serial.read_byte_blocking(Event::RxEmpty), Reception::Done(0x41)));
}

#[test]
fn read_exact_blocking_fills_the_buffer() {
    let mut serial = uart(false);
    let mut hw = Hardware::new(0);
    hw.rx = words(b"data");
    let mut buf = [0; 3];
    let mut filled = 0;
    let mut event = Event::Continue;
    let mut looks = 0;
    loop {
        event = match serial.read_exact_blocking(event, &mut buf, &mut filled) {
            Reception::NextWord => hw.read_rx(),
            Reception::Spin => panic!("enough bytes were there"),
            Reception::Done(()) => break,
        };
        looks += 1;
    }
    assert_eq!(&buf, b"dat");
    assert_eq!(filled, 3);
    // Four words (one found no room) and an empty FIFO before each byte.
    assert_eq!(looks, 7);
    assert_eq!((serial.available(), serial.dropped_rx()), (0, 1));
}

#[test]
fn read_exact_blocking_of_nothing_is_done_at_once() {
    let mut serial = uart(false);
    let mut filled = 0;
    assert!(matches!(
        serial.read_exact_blocking(Event::Continue, &mut [], &mut filled),
        Reception::Done(())
    ));
}

#[test]
fn read_exact_blocking_spins_while_bytes_are_missing() {
    let mut serial = uart(false);
    let mut buf = [0; 1];
    let mut filled = 0;
    assert!(matches!(
        serial.read_exact_blocking(Event::RxEmpty, &mut buf, &mut filled),
        Reception::Spin
    ));
    assert_eq!(filled, 0);
}

#[test]
fn buffers_can_be_cleared() {
    let mut serial = uart(true);
    let mut hw = Hardware::new(0);
    hw.rx = words(b"ab");
    let job = serial.poll();
    hw.drive(&mut serial, job);
    assert_eq!((serial.available(), serial.tx_pending()), (2, 2));
    serial.clear_rx();
    assert_eq!((serial.available(), serial.tx_pending()), (0, 2));
    serial.clear_tx_buffer();
    assert_eq!((serial.available(), serial.tx_pending()), (0, 0));
}

#[test]
fn buffers_wrap_around() {
    let mut serial = uart(false);
    let mut hw = Hardware::new(1000);
    let mut expected = Vec::new();
    for round in 0..50u8 {
        let data = [round, round.wrapping_add(100), round.wrapping_mul(3)];
        expected.extend_from_slice(&data);
        let (n, job) = serial.write(&data);
        assert_eq!(n, 3);
        hw.drive(&mut serial, job);
    }
    assert_eq!(hw.sent, expected);
}
