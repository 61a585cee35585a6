//! Software-driven two-wire bus engine.
//!
//! [`SoftwareI2C`] clocks an addressed two-wire protocol out of two digital
//! lines reached through [`BusPins`]: start and stop conditions, bytes written
//! most-significant bit first with an acknowledgement bit sampled after each,
//! and bytes read bit by bit with the engine driving the acknowledgement. The
//! design assumes a single bus master and one cooperative peripheral; both
//! lines are actively driven in both directions.
//!
//! Every operation's contract pins down the exact line-event trace it emits,
//! as a function of the levels the peripheral presents (the pins' `feed`), and
//! every transaction ends with a stop condition whether or not the peripheral
//! acknowledged, so the bus is never left mid-transaction.

use vstd::prelude::*;

use crate::pins::BusPins;
use crate::pins::LineEvent;

verus! {

/// Failure of a bus transaction.
#[derive(Clone, Copy, Debug, PartialEq, Eq, Structural)]
pub enum I2cError {
    /// The peripheral did not acknowledge an address or data byte.
    Nack,
    /// Generic transport fault.
    Bus,
}

/// Trace of a start condition: data goes high to low while the clock is high.
pub open spec fn start_events() -> Seq<LineEvent> {
    seq![
        LineEvent::Scl(true),
        LineEvent::Sda(true),
        LineEvent::Wait,
        LineEvent::Sda(false),
        LineEvent::Wait,
        LineEvent::Scl(false),
        LineEvent::Wait,
    ]
}

/// Trace of a stop condition: data goes low to high while the clock is high.
pub open spec fn stop_events() -> Seq<LineEvent> {
    seq![
        LineEvent::Sda(false),
        LineEvent::Scl(true),
        LineEvent::Wait,
        LineEvent::Sda(true),
        LineEvent::Wait,
    ]
}

/// Trace of one bit clocked out to the peripheral.
pub open spec fn bit_out_events(bit: bool) -> Seq<LineEvent> {
    seq![
        LineEvent::Sda(bit),
        LineEvent::Wait,
        LineEvent::Scl(true),
        LineEvent::Wait,
        LineEvent::Scl(false),
        LineEvent::Wait,
    ]
}

/// Trace of one bit sampled from the peripheral.
pub open spec fn bit_in_events(bit: bool) -> Seq<LineEvent> {
    seq![
        LineEvent::Release,
        LineEvent::Scl(false),
        LineEvent::Wait,
        LineEvent::Scl(true),
        LineEvent::Wait,
        LineEvent::Sample(bit),
        LineEvent::Wait,
        LineEvent::Scl(false),
        LineEvent::Wait,
    ]
}

/// Bit `i` of `byte`, counting from the most significant: bit 0 is clocked
/// out first.
pub open spec fn bit_of(byte: u8, i: int) -> bool {
    (byte >> ((7 - i) as u8)) & 1 == 1
}

/// Trace of the first `n` bits of `byte` clocked out, most significant first.
pub open spec fn bits_out_events(byte: u8, n: int) -> Seq<LineEvent>
    decreases n,
{
    if n <= 0 {
        Seq::empty()
    } else {
        bits_out_events(byte, n - 1) + bit_out_events(bit_of(byte, n - 1))
    }
}

/// Trace of a whole byte clocked out followed by the acknowledgement slot, in
/// which the peripheral presented level `raw_ack` (low means acknowledged).
pub open spec fn byte_out_events(byte: u8, raw_ack: bool) -> Seq<LineEvent> {
    bits_out_events(byte, 8) + bit_in_events(raw_ack)
}

/// Trace of the given bit levels sampled in, most significant first.
pub open spec fn bits_in_events(bits: Seq<bool>) -> Seq<LineEvent>
    decreases bits.len(),
{
    if bits.len() == 0 {
        Seq::empty()
    } else {
        bits_in_events(bits.drop_last()) + bit_in_events(bits.last())
    }
}

/// Trace of a whole byte sampled in followed by the acknowledgement bit the
/// engine drives: low when more bytes will follow, high on the last byte.
pub open spec fn byte_in_events(bits: Seq<bool>, ack: bool) -> Seq<LineEvent> {
    bits_in_events(bits) + bit_out_events(!ack)
}

/// The value assembled from bit levels sampled most significant first.
pub open spec fn assembled(bits: Seq<bool>) -> int
    decreases bits.len(),
{
    if bits.len() == 0 {
        0
    } else {
        2 * assembled(bits.drop_last()) + if bits.last() {
            1int
        } else {
            0int
        }
    }
}

/// Two raised to `n`.
pub open spec fn two_pow(n: int) -> int
    decreases n,
{
    if n <= 0 {
        1
    } else {
        2 * two_pow(n - 1)
    }
}

/// An assembled value is bounded by two to the number of its bits.
pub proof fn lemma_assembled_bound(bits: Seq<bool>)
    ensures
        0 <= assembled(bits) < two_pow(bits.len() as int),
    decreases bits.len(),
{
    if bits.len() > 0 {
        lemma_assembled_bound(bits.drop_last());
    }
}

/// Powers of two grow with the exponent.
pub proof fn lemma_two_pow_monotone(a: int, b: int)
    requires
        a <= b,
    ensures
        two_pow(a) <= two_pow(b),
    decreases b - a,
{
    if a < b {
        lemma_two_pow_monotone(a, b - 1);
        lemma_two_pow_positive(b - 1);
        if b > 0 {
            assert(two_pow(b) == 2 * two_pow(b - 1));
        }
    }
}

/// Powers of two are positive.
pub proof fn lemma_two_pow_positive(n: int)
    ensures
        two_pow(n) >= 1,
    decreases n,
{
    if n > 0 {
        lemma_two_pow_positive(n - 1);
    }
}

/// The first `n` acknowledgement slots of the feed were all driven low
/// (acknowledged).
pub open spec fn all_acked(feed: Seq<bool>, n: int) -> bool {
    forall|j: int| 0 <= j < n ==> !feed[j]
}

/// Index of the first high (not-acknowledged) slot at or after `j` among the
/// first `n` slots of the feed, or `n` if every one of them is low.
pub open spec fn nack_index_from(feed: Seq<bool>, n: int, j: int) -> int
    decreases n - j,
{
    if j >= n {
        n
    } else if feed[j] {
        j
    } else {
        nack_index_from(feed, n, j + 1)
    }
}

/// Index of the first not-acknowledged slot among the first `n` slots of the
/// feed, or `n` if every one of them acknowledged.
pub open spec fn nack_index(feed: Seq<bool>, n: int) -> int {
    nack_index_from(feed, n, 0)
}

/// How many of `n` pending bytes actually get clocked out: everything up to
/// and including the first not-acknowledged one.
pub open spec fn clocked_count(feed: Seq<bool>, n: int) -> int {
    if nack_index(feed, n) < n {
        nack_index(feed, n) + 1
    } else {
        n
    }
}

proof fn lemma_nack_index_step(feed: Seq<bool>, n: int, j: int, k: int)
    requires
        0 <= j <= k <= n,
        forall|l: int| j <= l < k ==> !feed[l],
    ensures
        nack_index_from(feed, n, j) == nack_index_from(feed, n, k),
    decreases k - j,
{
    if j < k {
        lemma_nack_index_step(feed, n, j + 1, k);
    }
}

/// When every slot acknowledged, no byte is cut short.
pub proof fn lemma_nack_index_all_acked(feed: Seq<bool>, n: int)
    requires
        0 <= n,
        all_acked(feed, n),
    ensures
        nack_index(feed, n) == n,
        clocked_count(feed, n) == n,
{
    lemma_nack_index_step(feed, n, 0, n);
}

/// The first not-acknowledged slot after a fully acknowledged prefix is the
/// first overall.
pub proof fn lemma_nack_index_at(feed: Seq<bool>, n: int, k: int)
    requires
        0 <= k < n,
        all_acked(feed, k),
        feed[k],
    ensures
        nack_index(feed, n) == k,
        clocked_count(feed, n) == k + 1,
{
    lemma_nack_index_step(feed, n, 0, k);
}

/// Address byte of a write transaction: the 7-bit address with the
/// read/write bit clear.
pub open spec fn write_addr_byte(addr: u8) -> u8 {
    (2 * addr) as u8
}

/// Address byte of a read transaction: the 7-bit address with the
/// read/write bit set.
pub open spec fn read_addr_byte(addr: u8) -> u8 {
    (2 * addr + 1) as u8
}

/// The byte frames a write transaction tries to clock out: the address byte
/// followed by the data bytes.
pub open spec fn write_frames(addr: u8, data: Seq<u8>) -> Seq<u8> {
    seq![write_addr_byte(addr)] + data
}

/// Trace of the first `c` frames clocked out, each with the raw level the
/// peripheral presented in its acknowledgement slot.
pub open spec fn clocked_bytes_events(frames: Seq<u8>, feed: Seq<bool>, c: int) -> Seq<LineEvent>
    decreases c,
{
    if c <= 0 {
        Seq::empty()
    } else {
        clocked_bytes_events(frames, feed, c - 1) + byte_out_events(frames[c - 1], feed[c - 1])
    }
}

/// Full trace of a write transaction: start condition, every frame clocked
/// out up to and including the first not-acknowledged one, stop condition.
pub open spec fn write_txn_events(addr: u8, data: Seq<u8>, feed: Seq<bool>) -> Seq<LineEvent> {
    let frames = write_frames(addr, data);
    start_events() + clocked_bytes_events(
        frames,
        feed,
        clocked_count(feed, frames.len() as int),
    ) + stop_events()
}

/// Trace of the first `k` of `n` bytes sampled in during a read transaction:
/// byte `j` takes its bit levels from feed slots `8 j` to `8 j + 7`, and the
/// engine acknowledges every byte but the last.
pub open spec fn reads_run_events(feed: Seq<bool>, k: int, n: int) -> Seq<LineEvent>
    decreases k,
{
    if k <= 0 {
        Seq::empty()
    } else {
        reads_run_events(feed, k - 1, n) + byte_in_events(
            feed.subrange(8 * (k - 1), 8 * k),
            k != n,
        )
    }
}

/// The byte values a read transaction assembles out of the feed.
pub open spec fn read_bytes_spec(feed: Seq<bool>, n: int) -> Seq<u8> {
    Seq::new(n as nat, |i: int| assembled(feed.subrange(8 * i, 8 * i + 8)) as u8)
}

/// Full trace of a read transaction: start condition, address byte, then
/// either nothing (address not acknowledged) or all `n` bytes sampled in,
/// and a stop condition either way.
pub open spec fn read_txn_events(addr: u8, feed: Seq<bool>, n: int) -> Seq<LineEvent> {
    start_events() + byte_out_events(read_addr_byte(addr), feed[0]) + (
    if feed[0] {
        Seq::<LineEvent>::empty()
    } else {
        reads_run_events(feed.drop_first(), n, n)
    }) + stop_events()
}

/// Whatever the peripheral answers, every write transaction's trace ends
/// with a stop condition: the bus is left idle, never hung mid-transaction.
pub proof fn lemma_write_txn_ends_with_stop(addr: u8, data: Seq<u8>, feed: Seq<bool>)
    ensures
        write_txn_events(addr, data, feed).len() >= stop_events().len(),
        write_txn_events(addr, data, feed).skip(
            write_txn_events(addr, data, feed).len() - stop_events().len(),
        ) == stop_events(),
{
    let t = write_txn_events(addr, data, feed);
    assert(t.skip(t.len() - stop_events().len()) =~= stop_events());
}

/// Whatever the peripheral answers, every read transaction's trace ends
/// with a stop condition as well.
pub proof fn lemma_read_txn_ends_with_stop(addr: u8, feed: Seq<bool>, n: int)
    ensures
        read_txn_events(addr, feed, n).len() >= stop_events().len(),
        read_txn_events(addr, feed, n).skip(
            read_txn_events(addr, feed, n).len() - stop_events().len(),
        ) == stop_events(),
{
    let t = read_txn_events(addr, feed, n);
    assert(t.skip(t.len() - stop_events().len()) =~= stop_events());
}

/// Software two-wire bus engine over a pair of digital lines.
pub struct SoftwareI2C<P: BusPins> {
    pins: P,
}

impl<P: BusPins> SoftwareI2C<P> {
    /// History of every action taken on the lines so far.
    pub closed spec fn line_log(&self) -> Seq<LineEvent> {
        self.pins.line_log()
    }

    /// Levels that the coming samples of the data line will observe.
    pub closed spec fn feed(&self) -> Seq<bool> {
        self.pins.feed()
    }

    /// Take ownership of the two lines.
    pub fn new(pins: P) -> (engine: SoftwareI2C<P>)
        ensures
            engine.line_log() == pins.line_log(),
            engine.feed() == pins.feed(),
    {
        SoftwareI2C { pins }
    }

    /// Give the lines back, for inspection after a run.
    pub fn into_pins(self) -> (pins: P)
        ensures
            pins.line_log() == self.line_log(),
            pins.feed() == self.feed(),
    {
        self.pins
    }

    /// Borrow the lines, for inspection between transactions.
    pub fn pins_ref(&self) -> (pins: &P)
        ensures
            pins.line_log() == self.line_log(),
            pins.feed() == self.feed(),
    {
        &self.pins
    }

    /// Issue a start condition.
    fn start_condition(&mut self)
        ensures
            final(self).line_log() == old(self).line_log() + start_events(),
            final(self).feed() == old(self).feed(),
    {
        self.pins.set_scl(true);
        self.pins.set_sda(true);
        self.pins.wait();
        self.pins.set_sda(false);
        self.pins.wait();
        self.pins.set_scl(false);
        self.pins.wait();
        proof {
            assert(self.line_log() =~= old(self).line_log() + start_events());
        }
    }

    /// Issue a stop condition.
    fn stop_condition(&mut self)
        ensures
            final(self).line_log() == old(self).line_log() + stop_events(),
            final(self).feed() == old(self).feed(),
    {
        self.pins.set_sda(false);
        self.pins.set_scl(true);
        self.pins.wait();
        self.pins.set_sda(true);
        self.pins.wait();
        proof {
            assert(self.line_log() =~= old(self).line_log() + stop_events());
        }
    }

    /// Clock one bit out.
    fn write_bit(&mut self, bit: bool)
        ensures
            final(self).line_log() == old(self).line_log() + bit_out_events(bit),
            final(self).feed() == old(self).feed(),
    {
        self.pins.set_sda(bit);
        self.pins.wait();
        self.pins.set_scl(true);
        self.pins.wait();
        self.pins.set_scl(false);
        self.pins.wait();
        proof {
            assert(self.line_log() =~= old(self).line_log() + bit_out_events(bit));
        }
    }

    /// Release the data line and sample one bit on a clock pulse.
    fn read_bit(&mut self) -> (bit: bool)
        requires
            old(self).feed().len() >= 1,
        ensures
            bit == old(self).feed()[0],
            final(self).line_log() == old(self).line_log() + bit_in_events(old(self).feed()[0]),
            final(self).feed() == old(self).feed().drop_first(),
    {
        self.pins.release_sda();
        self.pins.set_scl(false);
        self.pins.wait();
        self.pins.set_scl(true);
        self.pins.wait();
        let bit = self.pins.sample_sda();
        self.pins.wait();
        self.pins.set_scl(false);
        self.pins.wait();
        proof {
            assert(self.line_log() =~= old(self).line_log() + bit_in_events(old(self).feed()[0]));
        }
        bit
    }

    /// Clock one byte out, most significant bit first, then sample the
    /// acknowledgement bit. Returns true when the peripheral acknowledged
    /// (drove the line low).
    fn write_byte(&mut self, byte: u8) -> (acked: bool)
        requires
            old(self).feed().len() >= 1,
        ensures
            acked == !old(self).feed()[0],
            final(self).line_log() == old(self).line_log() + byte_out_events(
                byte,
                old(self).feed()[0],
            ),
            final(self).feed() == old(self).feed().drop_first(),
    {
        proof {
            assert(old(self).line_log() =~= old(self).line_log() + bits_out_events(byte, 0));
        }
        let mut i: usize = 0;
        while i < 8
            invariant
                i <= 8,
                old(self).feed().len() >= 1,
                self.feed() == old(self).feed(),
                self.line_log() == old(self).line_log() + bits_out_events(byte, i as int),
            decreases 8 - i,
        {
            let bit = ((byte >> ((7 - i) as u8)) & 1) == 1;
            proof {
                assert(bit == bit_of(byte, i as int));
            }
            self.write_bit(bit);
            proof {
                assert(self.line_log() =~= old(self).line_log() + bits_out_events(
                    byte,
                    i as int + 1,
                ));
            }
            i = i + 1;
        }
        let acked = !self.read_bit();
        proof {
            assert(self.line_log() =~= old(self).line_log() + byte_out_events(
                byte,
                old(self).feed()[0],
            ));
        }
        acked
    }

    /// Sample one byte in, most significant bit first, then drive the
    /// acknowledgement bit: low (acknowledged) when `ack` is set, high
    /// otherwise.
    fn read_byte(&mut self, ack: bool) -> (byte: u8)
        requires
            old(self).feed().len() >= 8,
        ensures
            byte as int == assembled(old(self).feed().take(8)),
            final(self).line_log() == old(self).line_log() + byte_in_events(
                old(self).feed().take(8),
                ack,
            ),
            final(self).feed() == old(self).feed().skip(8),
    {
        proof {
            assert(old(self).line_log() =~= old(self).line_log() + bits_in_events(
                old(self).feed().take(0),
            ));
            assert(old(self).feed() =~= old(self).feed().skip(0));
        }
        let mut byte: u8 = 0;
        let mut i: usize = 0;
        while i < 8
            invariant
                i <= 8,
                old(self).feed().len() >= 8,
                self.feed() == old(self).feed().skip(i as int),
                self.line_log() == old(self).line_log() + bits_in_events(
                    old(self).feed().take(i as int),
                ),
                byte as int == assembled(old(self).feed().take(i as int)),
            decreases 8 - i,
        {
            proof {
                lemma_assembled_bound(old(self).feed().take(i as int));
                lemma_two_pow_monotone(i as int, 7);
                assert(two_pow(7) == 128) by {
                    assert(two_pow(0) == 1);
                    assert(two_pow(1) == 2);
                    assert(two_pow(2) == 4);
                    assert(two_pow(3) == 8);
                    assert(two_pow(4) == 16);
                    assert(two_pow(5) == 32);
                    assert(two_pow(6) == 64);
                    assert(two_pow(7) == 128);
                }
            }
            let bit = self.read_bit();
            byte = byte * 2 + if bit {
                1
            } else {
                0
            };
            proof {
                let pre = old(self).feed().take(i as int);
                let cur = old(self).feed().take(i as int + 1);
                assert(cur.drop_last() =~= pre);
                assert(cur.last() == old(self).feed()[i as int]);
                assert(self.feed() =~= old(self).feed().skip(i as int + 1));
                assert(self.line_log() =~= old(self).line_log() + bits_in_events(cur));
            }
            i = i + 1;
        }
        self.write_bit(!ack);
        proof {
            assert(self.line_log() =~= old(self).line_log() + byte_in_events(
                old(self).feed().take(8),
                ack,
            ));
        }
        byte
    }

    /// One write transaction: start condition, address byte with the
    /// read/write bit clear, the data bytes, stop condition. The first
    /// missing acknowledgement aborts the transaction with
    /// [`I2cError::Nack`]; the stop condition is still issued.
    pub fn write(&mut self, addr: u8, data: &[u8]) -> (r: Result<(), I2cError>)
        requires
            addr < 128,
            old(self).feed().len() >= data@.len() + 1,
        ensures
            final(self).line_log() == old(self).line_log() + write_txn_events(
                addr,
                data@,
                old(self).feed(),
            ),
            final(self).feed() == old(self).feed().skip(
                clocked_count(old(self).feed(), data@.len() as int + 1),
            ),
            r is Ok <==> all_acked(old(self).feed(), data@.len() as int + 1),
            r is Err ==> r == Err::<(), I2cError>(I2cError::Nack),
    {
        let ghost feed0 = old(self).feed();
        let ghost frames = write_frames(addr, data@);
        let ghost n: int = data@.len() as int + 1;
        self.start_condition();
        if !self.write_byte(2 * addr) {
            proof {
                assert(feed0[0]);
                lemma_nack_index_at(feed0, n, 0);
                assert(frames[0] == write_addr_byte(addr));
                assert(clocked_bytes_events(frames, feed0, 0) == Seq::<LineEvent>::empty());
                assert(clocked_bytes_events(frames, feed0, 1) == clocked_bytes_events(
                    frames,
                    feed0,
                    0,
                ) + byte_out_events(frames[0], feed0[0]));
                assert(clocked_bytes_events(frames, feed0, 1) =~= byte_out_events(
                    write_addr_byte(addr),
                    true,
                ));
            }
            self.stop_condition();
            proof {
                assert(self.line_log() =~= old(self).line_log() + write_txn_events(
                    addr,
                    data@,
                    feed0,
                ));
                assert(!all_acked(feed0, n));
            }
            return Err(I2cError::Nack);
        }
        proof {
            assert(frames[0] == write_addr_byte(addr));
            assert(clocked_bytes_events(frames, feed0, 0) == Seq::<LineEvent>::empty());
            assert(clocked_bytes_events(frames, feed0, 1) == clocked_bytes_events(frames, feed0, 0)
                + byte_out_events(frames[0], feed0[0]));
            assert(self.line_log() =~= old(self).line_log() + start_events()
                + clocked_bytes_events(frames, feed0, 1));
            assert(self.feed() =~= feed0.skip(1));
        }
        let mut i: usize = 0;
        while i < data.len()
            invariant
                i <= data@.len(),
                addr < 128,
                feed0 == old(self).feed(),
                frames == write_frames(addr, data@),
                n == data@.len() as int + 1,
                feed0.len() >= n,
                all_acked(feed0, i as int + 1),
                self.feed() == feed0.skip(i as int + 1),
                self.line_log() == old(self).line_log() + start_events() + clocked_bytes_events(
                    frames,
                    feed0,
                    i as int + 1,
                ),
            decreases data@.len() - i,
        {
            let acked = self.write_byte(data[i]);
            proof {
                assert(feed0.skip(i as int + 1)[0] == feed0[i as int + 1]);
                assert(frames[i as int + 1] == data@[i as int]);
                assert(self.line_log() =~= old(self).line_log() + start_events()
                    + clocked_bytes_events(frames, feed0, i as int + 2));
                assert(self.feed() =~= feed0.skip(i as int + 2));
            }
            if !acked {
                proof {
                    assert(feed0[i as int + 1]);
                    lemma_nack_index_at(feed0, n, i as int + 1);
                }
                self.stop_condition();
                proof {
                    assert(self.line_log() =~= old(self).line_log() + write_txn_events(
                        addr,
                        data@,
                        feed0,
                    ));
                    assert(!all_acked(feed0, n));
                }
                return Err(I2cError::Nack);
            }
            i = i + 1;
        }
        proof {
            assert(all_acked(feed0, n));
            lemma_nack_index_all_acked(feed0, n);
        }
        self.stop_condition();
        proof {
            assert(self.line_log() =~= old(self).line_log() + write_txn_events(
                addr,
                data@,
                feed0,
            ));
        }
        Ok(())
    }

    /// One register write transaction: like [`SoftwareI2C::write`] with the
    /// register number clocked out ahead of the data bytes.
    pub fn write_reg(&mut self, addr: u8, reg: u8, data: &[u8]) -> (r: Result<(), I2cError>)
        requires
            addr < 128,
            old(self).feed().len() >= data@.len() + 2,
        ensures
            final(self).line_log() == old(self).line_log() + write_txn_events(
                addr,
                seq![reg] + data@,
                old(self).feed(),
            ),
            final(self).feed() == old(self).feed().skip(
                clocked_count(old(self).feed(), data@.len() as int + 2),
            ),
            r is Ok <==> all_acked(old(self).feed(), data@.len() as int + 2),
            r is Err ==> r == Err::<(), I2cError>(I2cError::Nack),
    {
        let mut framed: Vec<u8> = Vec::new();
        framed.push(reg);
        framed.extend_from_slice(data);
        proof {
            assert(framed@ =~= seq![reg] + data@);
        }
        self.write(addr, framed.as_slice())
    }

    /// One read transaction: start condition, address byte with the
    /// read/write bit set, then `buffer.len()` bytes sampled in with the
    /// engine acknowledging every byte but the last, stop condition. If the
    /// peripheral does not acknowledge the address byte the transaction
    /// aborts with [`I2cError::Nack`] and the buffer is untouched; the stop
    /// condition is still issued.
    pub fn read(&mut self, addr: u8, buffer: &mut Vec<u8>) -> (r: Result<(), I2cError>)
        requires
            addr < 128,
            old(self).feed().len() >= 1 + 8 * old(buffer)@.len() as int,
        ensures
            final(buffer)@.len() == old(buffer)@.len(),
            final(self).line_log() == old(self).line_log() + read_txn_events(
                addr,
                old(self).feed(),
                old(buffer)@.len() as int,
            ),
            r is Ok <==> !old(self).feed()[0],
            r is Ok ==> final(buffer)@ == read_bytes_spec(
                old(self).feed().drop_first(),
                old(buffer)@.len() as int,
            ) && final(self).feed() == old(self).feed().skip(1 + 8 * old(buffer)@.len() as int),
            r is Err ==> r == Err::<(), I2cError>(I2cError::Nack) && final(buffer)@ == old(
                buffer,
            )@ && final(self).feed() == old(self).feed().drop_first(),
    {
        let ghost feed0 = old(self).feed();
        let ghost m = old(buffer)@.len() as int;
        self.start_condition();
        if !self.write_byte(2 * addr + 1) {
            self.stop_condition();
            proof {
                assert(feed0[0]);
                assert(self.line_log() =~= old(self).line_log() + read_txn_events(
                    addr,
                    feed0,
                    m,
                ));
                assert(self.feed() =~= feed0.drop_first());
            }
            return Err(I2cError::Nack);
        }
        proof {
            assert(!feed0[0]);
            assert(reads_run_events(feed0.drop_first(), 0, m) == Seq::<LineEvent>::empty());
            assert(self.line_log() =~= old(self).line_log() + start_events() + byte_out_events(
                read_addr_byte(addr),
                false,
            ) + reads_run_events(feed0.drop_first(), 0, m));
            assert(self.feed() =~= feed0.skip(1));
        }
        let count = buffer.len();
        let mut i: usize = 0;
        while i < count
            invariant
                i <= count,
                addr < 128,
                feed0 == old(self).feed(),
                m == old(buffer)@.len() as int,
                count == m,
                buffer@.len() == m,
                feed0.len() >= 1 + 8 * m,
                !feed0[0],
                self.feed() == feed0.skip(1 + 8 * i),
                self.line_log() == old(self).line_log() + start_events() + byte_out_events(
                    read_addr_byte(addr),
                    false,
                ) + reads_run_events(feed0.drop_first(), i as int, m),
                forall|j: int|
                    0 <= j < i ==> buffer@[j] == read_bytes_spec(feed0.drop_first(), m)[j],
            decreases count - i,
        {
            let b = self.read_byte(i != count - 1);
            proof {
                let rest = feed0.drop_first();
                let before = feed0.skip(1 + 8 * i as int);
                assert(before.take(8) =~= rest.subrange(8 * i as int, 8 * i as int + 8));
                assert(self.feed() =~= feed0.skip(1 + 8 * (i as int + 1)));
                assert(reads_run_events(rest, i as int + 1, m) == reads_run_events(
                    rest,
                    i as int,
                    m,
                ) + byte_in_events(
                    rest.subrange(8 * i as int, 8 * i as int + 8),
                    i as int + 1 != m,
                ));
                assert((i != count - 1) == (i as int + 1 != m));
                assert(self.line_log() =~= old(self).line_log() + start_events()
                    + byte_out_events(read_addr_byte(addr), false) + reads_run_events(
                    rest,
                    i as int + 1,
                    m,
                ));
                assert(b == read_bytes_spec(rest, m)[i as int]);
            }
            buffer[i] = b;
            i = i + 1;
        }
        self.stop_condition();
        proof {
            assert(self.line_log() =~= old(self).line_log() + read_txn_events(addr, feed0, m));
            assert(buffer@ =~= read_bytes_spec(feed0.drop_first(), m));
        }
        Ok(())
    }

    /// A write transaction followed by a read transaction, as two independent
    /// transactions on the bus. The read is skipped when the write already
    /// failed.
    pub fn write_read(&mut self, addr: u8, data: &[u8], buffer: &mut Vec<u8>) -> (r: Result<
        (),
        I2cError,
    >)
        requires
            addr < 128,
            old(self).feed().len() >= data@.len() + 2 + 8 * old(buffer)@.len() as int,
        ensures
            final(buffer)@.len() == old(buffer)@.len(),
            r is Ok <==> all_acked(old(self).feed(), data@.len() as int + 2),
            r is Err ==> r == Err::<(), I2cError>(I2cError::Nack),
            !all_acked(old(self).feed(), data@.len() as int + 1) ==> final(self).line_log() == old(
                self,
            ).line_log() + write_txn_events(addr, data@, old(self).feed()) && final(buffer)@ == old(
                buffer,
            )@ && final(self).feed() == old(self).feed().skip(
                clocked_count(old(self).feed(), data@.len() as int + 1),
            ),
            all_acked(old(self).feed(), data@.len() as int + 1) ==> final(self).line_log() == old(
                self,
            ).line_log() + write_txn_events(addr, data@, old(self).feed()) + read_txn_events(
                addr,
                old(self).feed().skip(data@.len() as int + 1),
                old(buffer)@.len() as int,
            ),
            all_acked(old(self).feed(), data@.len() as int + 1) && old(self).feed()[data@.len() as int
                + 1] ==> final(buffer)@ == old(buffer)@ && final(self).feed() == old(
                self,
            ).feed().skip(data@.len() as int + 2),
            r is Ok ==> final(buffer)@ == read_bytes_spec(
                old(self).feed().skip(data@.len() as int + 2),
                old(buffer)@.len() as int,
            ) && final(self).feed() == old(self).feed().skip(
                data@.len() as int + 2 + 8 * old(buffer)@.len() as int,
            ),
    {
        let ghost feed0 = old(self).feed();
        let ghost n1 = data@.len() as int + 1;
        let ghost m = old(buffer)@.len() as int;
        match self.write(addr, data) {
            Err(e) => {
                proof {
                    assert(!all_acked(feed0, n1 + 1)) by {
                        assert(!all_acked(feed0, n1));
                        let j = choose|j: int| 0 <= j < n1 && feed0[j];
                        assert(0 <= j < n1 + 1 && feed0[j]);
                    }
                }
                Err(e)
            },
            Ok(()) => {
                proof {
                    lemma_nack_index_all_acked(feed0, n1);
                    assert(self.feed() == feed0.skip(n1));
                    assert(feed0.skip(n1).len() >= 1 + 8 * m);
                }
                let r = self.read(addr, buffer);
                proof {
                    assert(feed0.skip(n1)[0] == feed0[n1]);
                    if !feed0[n1] {
                        assert forall|j: int| 0 <= j < n1 + 1 implies !feed0[j] by {
                            if j < n1 {
                                assert(!feed0[j]);
                            }
                        }
                        assert(all_acked(feed0, n1 + 1));
                        assert(feed0.skip(n1).drop_first() =~= feed0.skip(n1 + 1));
                        assert(feed0.skip(n1).skip(1 + 8 * m) =~= feed0.skip(n1 + 1 + 8 * m));
                    } else {
                        assert(!all_acked(feed0, n1 + 1));
                        assert(feed0.skip(n1).drop_first() =~= feed0.skip(n1 + 1));
                    }
                }
                r
            },
        }
    }
}

/// Register-oriented write access to an addressed bus peripheral, for
/// transports to implement.
pub trait WriteReg {
    /// Error type of the transport.
    type Error;

    /// Write `bytes` to register `reg` of the peripheral at the 7-bit
    /// address `addr`.
    fn write_reg(&mut self, addr: u8, reg: u8, bytes: &[u8]) -> Result<(), Self::Error>;
}

impl<P: BusPins> WriteReg for SoftwareI2C<P> {
    type Error = I2cError;

    /// Guarded form of the engine's own register write: an address outside
    /// the 7-bit range, or a response feed too short for the transaction, is
    /// answered with [`I2cError::Bus`] instead of being clocked out.
    fn write_reg(&mut self, addr: u8, reg: u8, bytes: &[u8]) -> Result<(), I2cError> {
        if addr >= 128 {
            return Err(I2cError::Bus);
        }
        let available = self.pins.feed_len();
        if available < 2 || available - 2 < bytes.len() {
            return Err(I2cError::Bus);
        }
        self.write_reg(addr, reg, bytes)
    }
}

} // verus!
