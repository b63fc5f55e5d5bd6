//! The protocol between the load generator and the workers.
//!
//! A request carries the processing cost and the client's own timestamp. The response echoes the
//! sequence number and the timestamp, so that the client measures latency on one clock. All fields
//! are little-endian.

use vstd::prelude::*;

verus! {

/// Default TCP port.
pub const DEFAULT_PORT: u16 = 7878;

/// Directory under which the kernel program and its maps are pinned.
pub const BPFFS_DIR: &'static str = "/sys/fs/bpf/hermes";

pub const PIN_PROGRAM: &'static str = "hermes_select";

pub const PIN_M_SEL: &'static str = "m_sel";

pub const PIN_M_SOCKET: &'static str = "m_socket";

/// First field of every request.
pub const REQUEST_MAGIC: u32 = 0x4845524d;

/// Magic, sequence number, cost, a reserved field, and the timestamp.
pub const REQUEST_HEADER_LEN: usize = 24;

/// Sequence number, worker, and the timestamp.
pub const RESPONSE_LEN: usize = 16;

/// The four bytes of a number, lowest first.
pub open spec fn le4(x: u32) -> Seq<u8> {
    seq![
        (x as int % 0x100) as u8,
        (x as int / 0x100 % 0x100) as u8,
        (x as int / 0x1_0000 % 0x100) as u8,
        (x as int / 0x100_0000 % 0x100) as u8,
    ]
}

/// A signed number as the unsigned one with the same bits.
pub open spec fn same_bits(x: i64) -> u64 {
    if x < 0 {
        (x + 0x1_0000_0000_0000_0000) as u64
    } else {
        x as u64
    }
}

/// The eight bytes of a signed number, lowest first.
pub open spec fn le8(x: i64) -> Seq<u8> {
    le4((same_bits(x) as int % 0x1_0000_0000) as u32) + le4(
        (same_bits(x) as int / 0x1_0000_0000) as u32,
    )
}

/// The number whose bytes start at `at`.
pub open spec fn le4_at(b: Seq<u8>, at: int) -> int {
    b[at] + 0x100 * b[at + 1] + 0x1_0000 * b[at + 2] + 0x100_0000 * b[at + 3]
}

/// The signed number whose bytes start at `at`.
pub open spec fn le8_at(b: Seq<u8>, at: int) -> int {
    let u = le4_at(b, at) + 0x1_0000_0000 * le4_at(b, at + 4);
    if u < 0x8000_0000_0000_0000 {
        u
    } else {
        u - 0x1_0000_0000_0000_0000
    }
}

/// The bytes of a request.
pub open spec fn request_bytes(seq: u32, service_us: u32, send_ns: i64) -> Seq<u8> {
    le4(REQUEST_MAGIC) + le4(seq) + le4(service_us) + le4(0) + le8(send_ns)
}

/// The bytes of a response.
pub open spec fn response_bytes(seq: u32, worker_id: u32, send_ns: i64) -> Seq<u8> {
    le4(seq) + le4(worker_id) + le8(send_ns)
}

/// What a request says: sequence number, cost and timestamp; nothing where the magic is missing.
pub open spec fn request_of(b: Seq<u8>) -> Option<(u32, u32, i64)> {
    if le4_at(b, 0) == REQUEST_MAGIC {
        Some((le4_at(b, 4) as u32, le4_at(b, 8) as u32, le8_at(b, 16) as i64))
    } else {
        None
    }
}

/// What a response says: sequence number, worker and timestamp.
pub open spec fn response_of(b: Seq<u8>) -> (u32, u32, i64) {
    (le4_at(b, 0) as u32, le4_at(b, 4) as u32, le8_at(b, 8) as i64)
}

/// Reads a number at `at`.
fn get4(b: &[u8], at: usize) -> (x: u32)
    requires
        at <= REQUEST_HEADER_LEN + 4,
        at + 4 <= b@.len(),
    ensures
        x == le4_at(b@, at as int),
{
    b[at] as u32 + 0x100 * b[at + 1] as u32 + 0x1_0000 * b[at + 2] as u32 + 0x100_0000 * b[at
        + 3] as u32
}

/// Reads a signed number at `at`.
fn get8(b: &[u8], at: usize) -> (x: i64)
    requires
        at <= REQUEST_HEADER_LEN,
        at + 8 <= b@.len(),
    ensures
        x == le8_at(b@, at as int),
{
    let u: u64 = get4(b, at) as u64 + 0x1_0000_0000 * get4(b, at + 4) as u64;
    if u < 0x8000_0000_0000_0000 {
        u as i64
    } else {
        -((0xffff_ffff_ffff_ffff - u) as i64) - 1
    }
}

/// The four bytes of a number, lowest first.
fn bytes4(x: u32) -> (b: [u8; 4])
    ensures
        b@ == le4(x),
{
    let b: [u8; 4] = [
        (x % 0x100) as u8,
        (x / 0x100 % 0x100) as u8,
        (x / 0x1_0000 % 0x100) as u8,
        (x / 0x100_0000 % 0x100) as u8,
    ];
    assert(b@ =~= le4(x));
    b
}

/// The two halves of a signed number's bits, the lower first.
fn halves(x: i64) -> (r: (u32, u32))
    ensures
        r.0 == same_bits(x) as int % 0x1_0000_0000,
        r.1 == same_bits(x) as int / 0x1_0000_0000,
{
    let u: u64 = if x < 0 {
        0xffff_ffff_ffff_ffff - (-(x + 1)) as u64
    } else {
        x as u64
    };
    ((u % 0x1_0000_0000) as u32, (u / 0x1_0000_0000) as u32)
}

/// Writes a request.
pub fn encode_request(
    seq: u32,
    service_us: u32,
    send_ns: i64,
    buf: &mut [u8; REQUEST_HEADER_LEN],
)
    ensures
        final(buf)@ == request_bytes(seq, service_us, send_ns),
{
    let m: [u8; 4] = bytes4(REQUEST_MAGIC);
    let s: [u8; 4] = bytes4(seq);
    let c: [u8; 4] = bytes4(service_us);
    let z: [u8; 4] = bytes4(0);
    let (low, high) = halves(send_ns);
    let l: [u8; 4] = bytes4(low);
    let h: [u8; 4] = bytes4(high);
    *buf = [
        m[0], m[1], m[2], m[3],
        s[0], s[1], s[2], s[3],
        c[0], c[1], c[2], c[3],
        z[0], z[1], z[2], z[3],
        l[0], l[1], l[2], l[3],
        h[0], h[1], h[2], h[3],
    ];
    assert(buf@ =~= request_bytes(seq, service_us, send_ns));
}

/// Reads a request: sequence number, cost and timestamp. Nothing where the magic is missing.
pub fn decode_request(buf: &[u8; REQUEST_HEADER_LEN]) -> (r: Option<(u32, u32, i64)>)
    ensures
        r == request_of(buf@),
{
    if get4(buf, 0) != REQUEST_MAGIC {
        return None;
    }
    Some((get4(buf, 4), get4(buf, 8), get8(buf, 16)))
}

/// Writes a response.
pub fn encode_response(seq: u32, worker_id: u32, send_ns: i64, buf: &mut [u8; RESPONSE_LEN])
    ensures
        final(buf)@ == response_bytes(seq, worker_id, send_ns),
{
    let s: [u8; 4] = bytes4(seq);
    let w: [u8; 4] = bytes4(worker_id);
    let (low, high) = halves(send_ns);
    let l: [u8; 4] = bytes4(low);
    let h: [u8; 4] = bytes4(high);
    *buf = [
        s[0], s[1], s[2], s[3],
        w[0], w[1], w[2], w[3],
        l[0], l[1], l[2], l[3],
        h[0], h[1], h[2], h[3],
    ];
    assert(buf@ =~= response_bytes(seq, worker_id, send_ns));
}

/// Reads a response: sequence number, worker and timestamp.
pub fn decode_response(buf: &[u8; RESPONSE_LEN]) -> (r: (u32, u32, i64))
    ensures
        r == response_of(buf@),
{
    (get4(buf, 0), get4(buf, 4), get8(buf, 8))
}

proof fn lemma_le4_round_trip(x: u32)
    ensures
        le4_at(le4(x), 0) == x,
        le4(x).len() == 4,
{
}

/// A number written at `at` is read there.
proof fn lemma_le4_found(b: Seq<u8>, at: int, x: u32)
    requires
        0 <= at,
        at + 4 <= b.len(),
        b.subrange(at, at + 4) == le4(x),
    ensures
        le4_at(b, at) == x,
{
    lemma_le4_round_trip(x);
    let part = b.subrange(at, at + 4);
    assert(part[0] == b[at] && part[1] == b[at + 1] && part[2] == b[at + 2] && part[3] == b[at
        + 3]);
}

/// A signed number written at `at` is read there.
proof fn lemma_le8_found(b: Seq<u8>, at: int, x: i64)
    requires
        0 <= at,
        at + 8 <= b.len(),
        b.subrange(at, at + 8) == le8(x),
    ensures
        le8_at(b, at) == x,
{
    let low = (same_bits(x) as int % 0x1_0000_0000) as u32;
    let high = (same_bits(x) as int / 0x1_0000_0000) as u32;
    let part = b.subrange(at, at + 8);
    assert(b.subrange(at, at + 4) =~= part.subrange(0, 4));
    assert(part.subrange(0, 4) =~= le4(low));
    assert(b.subrange(at + 4, at + 8) =~= part.subrange(4, 8));
    assert(part.subrange(4, 8) =~= le4(high));
    lemma_le4_found(b, at, low);
    lemma_le4_found(b, at + 4, high);
}

/// A request is read back as it was written.
pub proof fn law_request_round_trip(seq: u32, service_us: u32, send_ns: i64)
    ensures
        request_bytes(seq, service_us, send_ns).len() == REQUEST_HEADER_LEN,
        request_of(request_bytes(seq, service_us, send_ns)) == Some((seq, service_us, send_ns)),
{
    let b = request_bytes(seq, service_us, send_ns);
    assert(b.subrange(0, 4) =~= le4(REQUEST_MAGIC));
    assert(b.subrange(4, 8) =~= le4(seq));
    assert(b.subrange(8, 12) =~= le4(service_us));
    assert(b.subrange(16, 24) =~= le8(send_ns));
    lemma_le4_found(b, 0, REQUEST_MAGIC);
    lemma_le4_found(b, 4, seq);
    lemma_le4_found(b, 8, service_us);
    lemma_le8_found(b, 16, send_ns);
}

/// A response is read back as it was written.
pub proof fn law_response_round_trip(seq: u32, worker_id: u32, send_ns: i64)
    ensures
        response_bytes(seq, worker_id, send_ns).len() == RESPONSE_LEN,
        response_of(response_bytes(seq, worker_id, send_ns)) == (seq, worker_id, send_ns),
{
    let b = response_bytes(seq, worker_id, send_ns);
    assert(b.subrange(0, 4) =~= le4(seq));
    assert(b.subrange(4, 8) =~= le4(worker_id));
    assert(b.subrange(8, 16) =~= le8(send_ns));
    lemma_le4_found(b, 0, seq);
    lemma_le4_found(b, 4, worker_id);
    lemma_le8_found(b, 8, send_ns);
}

/// Only the magic decides whether a request is refused: the other fields may hold anything.
pub proof fn law_request_refused_by_magic_only(b: Seq<u8>)
    requires
        b.len() == REQUEST_HEADER_LEN,
    ensures
        request_of(b).is_none() == (b.take(4) != le4(REQUEST_MAGIC)),
{
    lemma_le4_round_trip(REQUEST_MAGIC);
    if b.take(4) == le4(REQUEST_MAGIC) {
        assert(le4_at(b, 0) == le4_at(b.take(4), 0));
    } else {
        if le4_at(b, 0) == REQUEST_MAGIC {
            assert(b.take(4) =~= le4(REQUEST_MAGIC));
        }
    }
}

/// A request on the wire: the letters `MREH`, then sequence number and cost with their lowest byte
/// first, four zeros, and the timestamp's bits with their lowest byte first.
pub proof fn law_request_layout(seq: u32, service_us: u32, send_ns: i64)
    ensures
        request_bytes(seq, service_us, send_ns).len() == 24,
        request_bytes(seq, service_us, send_ns).take(4) == seq![0x4du8, 0x52, 0x45, 0x48],
        request_bytes(seq, service_us, send_ns)[4] + 0x100 * request_bytes(
            seq,
            service_us,
            send_ns,
        )[5] + 0x1_0000 * request_bytes(seq, service_us, send_ns)[6] + 0x100_0000 * request_bytes(
            seq,
            service_us,
            send_ns,
        )[7] == seq,
        request_bytes(seq, service_us, send_ns)[8] + 0x100 * request_bytes(
            seq,
            service_us,
            send_ns,
        )[9] + 0x1_0000 * request_bytes(seq, service_us, send_ns)[10] + 0x100_0000 * request_bytes(
            seq,
            service_us,
            send_ns,
        )[11] == service_us,
        request_bytes(seq, service_us, send_ns).subrange(12, 16) == seq![0u8, 0, 0, 0],
        stamp_of(request_bytes(seq, service_us, send_ns), 16) == (if send_ns >= 0 {
            send_ns as int
        } else {
            send_ns + 0x1_0000_0000_0000_0000
        }),
{
    let b = request_bytes(seq, service_us, send_ns);
    assert(b.take(4) =~= seq![0x4du8, 0x52, 0x45, 0x48]);
    assert(b.subrange(12, 16) =~= seq![0u8, 0, 0, 0]);
    assert(b.subrange(4, 8) =~= le4(seq));
    assert(b.subrange(8, 12) =~= le4(service_us));
    assert(b.subrange(16, 24) =~= le8(send_ns));
    lemma_le4_found(b, 4, seq);
    lemma_le4_found(b, 8, service_us);
    lemma_stamp(b, 16, send_ns);
}

/// The number that eight bytes from `at` on make up, the lowest first.
pub open spec fn stamp_of(b: Seq<u8>, at: int) -> int {
    b[at] + 0x100 * b[at + 1] + 0x1_0000 * b[at + 2] + 0x100_0000 * b[at + 3] + 0x1_0000_0000 * b[at
        + 4] + 0x100_0000_0000 * b[at + 5] + 0x1_0000_0000_0000 * b[at + 6] + 0x100_0000_0000_0000
        * b[at + 7]
}

proof fn lemma_stamp(b: Seq<u8>, at: int, x: i64)
    requires
        0 <= at,
        at + 8 <= b.len(),
        b.subrange(at, at + 8) == le8(x),
    ensures
        stamp_of(b, at) == (if x >= 0 {
            x as int
        } else {
            x + 0x1_0000_0000_0000_0000
        }),
{
    let low = (same_bits(x) as int % 0x1_0000_0000) as u32;
    let high = (same_bits(x) as int / 0x1_0000_0000) as u32;
    let part = b.subrange(at, at + 8);
    assert(b.subrange(at, at + 4) =~= part.subrange(0, 4));
    assert(part.subrange(0, 4) =~= le4(low));
    assert(b.subrange(at + 4, at + 8) =~= part.subrange(4, 8));
    assert(part.subrange(4, 8) =~= le4(high));
    lemma_le4_found(b, at, low);
    lemma_le4_found(b, at + 4, high);
}

/// A response on the wire: sequence number, worker and timestamp, each with its lowest byte first.
pub proof fn law_response_layout(seq: u32, worker_id: u32, send_ns: i64)
    ensures
        response_bytes(seq, worker_id, send_ns).len() == 16,
        response_bytes(seq, worker_id, send_ns)[0] + 0x100 * response_bytes(
            seq,
            worker_id,
            send_ns,
        )[1] + 0x1_0000 * response_bytes(seq, worker_id, send_ns)[2] + 0x100_0000 * response_bytes(
            seq,
            worker_id,
            send_ns,
        )[3] == seq,
        response_bytes(seq, worker_id, send_ns)[4] + 0x100 * response_bytes(
            seq,
            worker_id,
            send_ns,
        )[5] + 0x1_0000 * response_bytes(seq, worker_id, send_ns)[6] + 0x100_0000 * response_bytes(
            seq,
            worker_id,
            send_ns,
        )[7] == worker_id,
        stamp_of(response_bytes(seq, worker_id, send_ns), 8) == (if send_ns >= 0 {
            send_ns as int
        } else {
            send_ns + 0x1_0000_0000_0000_0000
        }),
{
    let b = response_bytes(seq, worker_id, send_ns);
    assert(b.subrange(0, 4) =~= le4(seq));
    assert(b.subrange(4, 8) =~= le4(worker_id));
    assert(b.subrange(8, 16) =~= le8(send_ns));
    lemma_le4_found(b, 0, seq);
    lemma_le4_found(b, 4, worker_id);
    lemma_stamp(b, 8, send_ns);
}

/// What is read out of any bytes: a request exactly where they begin with `MREH`, and in it and in a
/// response the numbers whose lowest byte comes first, whatever the reserved bytes hold.
pub proof fn law_any_bytes_are_read(b: Seq<u8>)
    requires
        b.len() == 24,
    ensures
        request_of(b).is_some() <==> b[0] == 0x4d && b[1] == 0x52 && b[2] == 0x45 && b[3] == 0x48,
        request_of(b) matches Some((seq, service_us, send_ns)) ==> {
            &&& seq == b[4] + 0x100 * b[5] + 0x1_0000 * b[6] + 0x100_0000 * b[7]
            &&& service_us == b[8] + 0x100 * b[9] + 0x1_0000 * b[10] + 0x100_0000 * b[11]
            &&& send_ns >= 0 ==> send_ns == stamp_of(b, 16)
            &&& send_ns < 0 ==> send_ns == stamp_of(b, 16) - 0x1_0000_0000_0000_0000
        },
        response_of(b).0 == b[0] + 0x100 * b[1] + 0x1_0000 * b[2] + 0x100_0000 * b[3],
        response_of(b).1 == b[4] + 0x100 * b[5] + 0x1_0000 * b[6] + 0x100_0000 * b[7],
        response_of(b).2 >= 0 ==> response_of(b).2 == stamp_of(b, 8),
        response_of(b).2 < 0 ==> response_of(b).2 == stamp_of(b, 8) - 0x1_0000_0000_0000_0000,
{
}

} // verus!
