//! The compute parts of the probe's packet handling: classifying an
//! incoming packet, reading a replay packet's send time, and filling a
//! probe packet from the cyclic random-data buffer. The socket I/O around
//! them stays with the caller.

use vstd::prelude::*;

verus! {

/// Bytes of an outgoing probe packet.
pub const PKT_LEN: usize = 256;

/// What an incoming packet asks for, decided by its first byte.
#[derive(Clone, Copy, Debug, PartialEq, Eq, Structural)]
pub enum PacketKind {
    /// `l`: the sender joins the client list.
    Join,
    /// `s`: the sender leaves the client list.
    Leave,
    /// `r`: a replayed probe packet carrying the original send time.
    Replay,
    /// Any other first byte, carried for diagnostics.
    Unknown(u8),
    /// An empty packet.
    Empty,
}

/// The kind of packet a byte sequence holds.
pub open spec fn classify_spec(s: Seq<u8>) -> PacketKind {
    if s.len() == 0 {
        PacketKind::Empty
    } else if s[0] == 108 {
        PacketKind::Join
    } else if s[0] == 115 {
        PacketKind::Leave
    } else if s[0] == 114 {
        PacketKind::Replay
    } else {
        PacketKind::Unknown(s[0])
    }
}

/// Decides what an incoming packet asks for.
pub fn classify_packet(buf: &[u8]) -> (r: PacketKind)
    ensures
        r == classify_spec(buf@),
{
    if buf.len() == 0 {
        return PacketKind::Empty;
    }
    let b = buf[0];
    if b == 108 {
        PacketKind::Join
    } else if b == 115 {
        PacketKind::Leave
    } else if b == 114 {
        PacketKind::Replay
    } else {
        PacketKind::Unknown(b)
    }
}

/// A big-endian unsigned integer read from a byte sequence.
pub open spec fn be_value_spec(s: Seq<u8>) -> nat
    decreases s.len(),
{
    if s.len() == 0 {
        0
    } else {
        be_value_spec(s.drop_last()) * 256 + (s.last() as nat)
    }
}

/// A big-endian value of `n` bytes is below `256^n`; for the eight-byte
/// send-time field it therefore fits a `u64`.
proof fn lemma_be_value_bound(s: Seq<u8>)
    ensures
        be_value_spec(s) < pow256_spec(s.len() as nat),
    decreases s.len(),
{
    if s.len() == 0 {
    } else {
        lemma_be_value_bound(s.drop_last());
    }
}

/// `256^n`.
pub open spec fn pow256_spec(n: nat) -> nat
    decreases n,
{
    if n == 0 {
        1
    } else {
        pow256_spec((n - 1) as nat) * 256
    }
}

/// The send-time field of a replay packet: bytes 5 through 12, big endian,
/// in milliseconds. `None` exactly when the packet is too short to carry
/// the field.
pub fn replay_packet_time_millis(buf: &[u8]) -> (r: Option<u64>)
    ensures
        buf@.len() < 13 ==> r is None,
        buf@.len() >= 13 ==> r == Some((be_value_spec(buf@.subrange(5, 13)) as u64)),
{
    if buf.len() < 13 {
        return None;
    }
    let mut v: u64 = 0;
    let mut i: usize = 5;
    while i < 13
        invariant
            5 <= i <= 13,
            buf@.len() >= 13,
            v as nat == be_value_spec(buf@.subrange(5, i as int)),
            (v as nat) < pow256_spec((i - 5) as nat),
        decreases 13 - i,
    {
        proof {
            let sub = buf@.subrange(5, i + 1);
            assert(sub.drop_last() =~= buf@.subrange(5, i as int));
            assert(sub.last() == buf@[i as int]);
            assert(pow256_spec((i + 1 - 5) as nat) == pow256_spec((i - 5) as nat) * 256);
            assert(pow256_spec((i - 5) as nat) <= pow256_spec(7)) by {
                lemma_pow256_increases((i - 5) as nat, 7);
            }
            assert(pow256_spec(7) == 0x100000000000000) by {
                reveal_with_fuel(pow256_spec, 8);
            }
        }
        v = v * 256 + (buf[i] as u64);
        i = i + 1;
    }
    proof {
        lemma_be_value_bound(buf@.subrange(5, 13));
    }
    Some(v)
}

/// `256^n` grows with `n`.
proof fn lemma_pow256_increases(a: nat, b: nat)
    requires
        a <= b,
    ensures
        pow256_spec(a) <= pow256_spec(b),
    decreases b,
{
    if a < b {
        lemma_pow256_increases(a, (b - 1) as nat);
        assert(pow256_spec(b) == pow256_spec((b - 1) as nat) * 256);
    }
}

/// The `n`-byte big-endian form of `v` (of `v`'s lowest `n` bytes, when it
/// does not fit).
pub open spec fn be_bytes_spec(v: nat, n: nat) -> Seq<u8>
    decreases n,
{
    if n == 0 {
        Seq::empty()
    } else {
        be_bytes_spec(v / 256, (n - 1) as nat).push((v % 256) as u8)
    }
}

/// Writing a value big endian and reading it back gives the value again,
/// whenever it fits the field.
pub proof fn lemma_be_round_trip(v: nat, n: nat)
    requires
        v < pow256_spec(n),
    ensures
        be_value_spec(be_bytes_spec(v, n)) == v,
        be_bytes_spec(v, n).len() == n,
    decreases n,
{
    if n == 0 {
    } else {
        lemma_be_round_trip(v / 256, (n - 1) as nat);
        let s = be_bytes_spec(v, n);
        assert(s.drop_last() =~= be_bytes_spec(v / 256, (n - 1) as nat));
        assert(v / 256 < pow256_spec((n - 1) as nat)) by (nonlinear_arith)
            requires
                v < pow256_spec(n),
                pow256_spec(n) == pow256_spec((n - 1) as nat) * 256,
        ;
    }
}

/// Appends the `n`-byte big-endian form of `v` to `buf`.
fn push_be_bytes(buf: &mut Vec<u8>, v: u64, n: usize)
    ensures
        final(buf)@ == old(buf)@ + be_bytes_spec(v as nat, n as nat),
    decreases n,
{
    if n == 0 {
        proof {
            assert(old(buf)@ + be_bytes_spec(v as nat, 0) =~= old(buf)@);
        }
        return ;
    }
    push_be_bytes(buf, v / 256, n - 1);
    buf.push((v % 256) as u8);
    proof {
        assert(buf@ =~= old(buf)@ + be_bytes_spec(v as nat, n as nat));
    }
}

/// Builds the fixed part of an outgoing probe packet: the marker byte `d`,
/// the packet counter as four big-endian bytes, and the send time in
/// milliseconds as eight big-endian bytes. The caller pads the rest.
pub fn build_probe_header(buf: &mut Vec<u8>, pkt_cnt: u32, time_ms: u64)
    ensures
        final(buf)@ == seq![100u8] + be_bytes_spec(pkt_cnt as nat, 4) + be_bytes_spec(
            time_ms as nat,
            8,
        ),
        final(buf)@.len() == 13,
{
    buf.clear();
    buf.push(100);
    push_be_bytes(buf, pkt_cnt as u64, 4);
    proof {
        assert(Seq::<u8>::empty().push(100u8) =~= seq![100u8]);
        assert((pkt_cnt as nat) < pow256_spec(4)) by {
            reveal_with_fuel(pow256_spec, 5);
        }
        lemma_be_round_trip(pkt_cnt as nat, 4);
    }
    push_be_bytes(buf, time_ms, 8);
    proof {
        assert((time_ms as nat) < pow256_spec(8)) by {
            reveal_with_fuel(pow256_spec, 9);
        }
        lemma_be_round_trip(time_ms as nat, 8);
        assert((seq![100u8] + be_bytes_spec(pkt_cnt as nat, 4)) + be_bytes_spec(
            time_ms as nat,
            8,
        ) =~= seq![100u8] + be_bytes_spec(pkt_cnt as nat, 4) + be_bytes_spec(time_ms as nat, 8));
    }
}

/// The slot of `data` read after `n` more bytes when reading cyclically
/// from slot `i`.
pub open spec fn cyclic_index_spec(data_len: int, i: int, n: nat) -> int
    decreases n,
{
    if n == 0 {
        i
    } else {
        cyclic_index_spec(data_len, if i + 1 >= data_len { 0 } else { i + 1 }, (n - 1) as nat)
    }
}

/// `n` bytes of `data` read cyclically from slot `i`, wrapping at the end.
pub open spec fn cyclic_bytes_spec(data: Seq<u8>, i: int, n: nat) -> Seq<u8>
    decreases n,
{
    if n == 0 {
        Seq::empty()
    } else {
        seq![data[i]] + cyclic_bytes_spec(
            data,
            if i + 1 >= data.len() { 0 } else { i + 1 },
            (n - 1) as nat,
        )
    }
}

/// Reading one more cyclic byte appends the byte at the slot the reading
/// has reached.
proof fn lemma_cyclic_bytes_snoc(data: Seq<u8>, i: int, n: nat)
    requires
        data.len() > 0,
        0 <= i < data.len(),
    ensures
        cyclic_bytes_spec(data, i, n + 1) =~= cyclic_bytes_spec(data, i, n).push(
            data[cyclic_index_spec(data.len() as int, i, n)],
        ),
        0 <= cyclic_index_spec(data.len() as int, i, n) < data.len(),
        cyclic_index_spec(data.len() as int, i, n + 1) == if cyclic_index_spec(
            data.len() as int,
            i,
            n,
        ) + 1 >= data.len() {
            0int
        } else {
            cyclic_index_spec(data.len() as int, i, n) + 1
        },
    decreases n,
{
    let next = if i + 1 >= data.len() { 0int } else { i + 1 };
    if n == 0 {
        assert(cyclic_bytes_spec(data, i, n + 1) =~= seq![data[i]] + cyclic_bytes_spec(
            data,
            next,
            0,
        ));
        assert(cyclic_bytes_spec(data, i, n + 1) =~= cyclic_bytes_spec(data, i, n).push(
            data[cyclic_index_spec(data.len() as int, i, n)],
        ));
        assert(cyclic_index_spec(data.len() as int, i, n + 1) == cyclic_index_spec(
            data.len() as int,
            next,
            0,
        ));
    } else {
        lemma_cyclic_bytes_snoc(data, next, (n - 1) as nat);
        let x = data[cyclic_index_spec(data.len() as int, next, (n - 1) as nat)];
        assert(cyclic_bytes_spec(data, i, n + 1) =~= seq![data[i]] + cyclic_bytes_spec(
            data,
            next,
            n,
        ));
        assert(seq![data[i]] + cyclic_bytes_spec(data, next, (n - 1) as nat).push(x) =~= (
        seq![data[i]] + cyclic_bytes_spec(data, next, (n - 1) as nat)).push(x));
        assert(cyclic_bytes_spec(data, i, n) =~= seq![data[i]] + cyclic_bytes_spec(
            data,
            next,
            (n - 1) as nat,
        ));
        assert(((n + 1) - 1) as nat == n);
        assert(cyclic_index_spec(data.len() as int, i, n + 1) == cyclic_index_spec(
            data.len() as int,
            next,
            n,
        ));
        assert(cyclic_index_spec(data.len() as int, i, n) == cyclic_index_spec(
            data.len() as int,
            next,
            (n - 1) as nat,
        ));
        assert(cyclic_bytes_spec(data, i, n + 1) =~= cyclic_bytes_spec(data, i, n).push(
            data[cyclic_index_spec(data.len() as int, i, n)],
        ));
    }
}

/// Pads a probe packet to `PKT_LEN` bytes with pre-generated random data,
/// read cyclically from `start_idx`: what follows the header is the random
/// bytes in order, wrapping at the end of the buffer. Returns the slot the
/// next packet continues from.
pub fn fill_with_random(buf: &mut Vec<u8>, random_data: &[u8], start_idx: usize) -> (r: usize)
    requires
        old(buf)@.len() <= PKT_LEN,
        random_data@.len() > 0,
        start_idx < random_data@.len(),
    ensures
        final(buf)@ == old(buf)@ + cyclic_bytes_spec(
            random_data@,
            start_idx as int,
            (PKT_LEN - old(buf)@.len()) as nat,
        ),
        final(buf)@.len() == PKT_LEN,
        r < random_data@.len(),
        r as int == cyclic_index_spec(
            random_data@.len() as int,
            start_idx as int,
            (PKT_LEN - old(buf)@.len()) as nat,
        ),
{
    let mut idx = start_idx;
    while buf.len() < PKT_LEN
        invariant
            old(buf)@.len() <= buf@.len() <= PKT_LEN,
            random_data@.len() > 0,
            start_idx < random_data@.len(),
            idx < random_data@.len(),
            buf@ == old(buf)@ + cyclic_bytes_spec(
                random_data@,
                start_idx as int,
                (buf@.len() - old(buf)@.len()) as nat,
            ),
            idx as int == cyclic_index_spec(
                random_data@.len() as int,
                start_idx as int,
                (buf@.len() - old(buf)@.len()) as nat,
            ),
        decreases PKT_LEN - buf@.len(),
    {
        proof {
            lemma_cyclic_bytes_snoc(
                random_data@,
                start_idx as int,
                (buf@.len() - old(buf)@.len()) as nat,
            );
        }
        buf.push(random_data[idx]);
        idx = idx + 1;
        if idx >= random_data.len() {
            idx = 0;
        }
    }
    idx
}

} // verus!
