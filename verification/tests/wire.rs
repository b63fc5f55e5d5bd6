//! The wire protocol, and the bytes of connections.

use micro_hermes::conn_table::ConnTable;
use micro_hermes::wire::{
    decode_request, decode_response, encode_request, encode_response, BPFFS_DIR, DEFAULT_PORT,
    PIN_M_SEL, PIN_M_SOCKET, PIN_PROGRAM, REQUEST_HEADER_LEN, REQUEST_MAGIC, RESPONSE_LEN,
};

fn request(seq: u32, service_us: u32, send_ns: i64) -> [u8; REQUEST_HEADER_LEN] {
    let mut buf = [0xaau8; REQUEST_HEADER_LEN];
    encode_request(seq, service_us, send_ns, &mut buf);
    buf
}

#[test]
fn requests_are_little_endian() {
    let buf = request(0x0102_0304, 0x0a0b_0c0d, -2);
    assert_eq!(buf[0..4], REQUEST_MAGIC.to_le_bytes());
    assert_eq!(buf[0..4], [0x4d, 0x52, 0x45, 0x48]);
    assert_eq!(buf[4..8], [4, 3, 2, 1]);
    assert_eq!(buf[8..12], [0x0d, 0x0c, 0x0b, 0x0a]);
    assert_eq!(buf[12..16], [0, 0, 0, 0]);
    assert_eq!(buf[16..24], (-2i64).to_le_bytes());
}

#[test]
fn requests_and_responses_round_trip() {
    for ns in [0, 1, -1, i64::MAX, i64::MIN, 0x0102_0304_0506_0708, -123_456_789_012] {
        for n in [0, 1, 0xff00_ff00, u32::MAX] {
            assert_eq!(decode_request(&request(n, !n, ns)), Some((n, !n, ns)));
            let mut buf = [0u8; RESPONSE_LEN];
            encode_response(n, !n, ns, &mut buf);
            assert_eq!(buf[8..16], ns.to_le_bytes());
            assert_eq!(decode_response(&buf), (n, !n, ns));
        }
    }
}

#[test]
fn only_the_magic_is_checked() {
    let mut buf = request(1, 2, 3);
    buf[13] = 9; // reserved
    assert_eq!(decode_request(&buf), Some((1, 2, 3)));
    for i in 0..4 {
        let mut bad = buf;
        bad[i] ^= 1;
        assert_eq!(decode_request(&bad), None);
    }
}

#[test]
fn protocol_constants() {
    assert_eq!((REQUEST_HEADER_LEN, RESPONSE_LEN, DEFAULT_PORT), (24, 16, 7878));
    assert_eq!(BPFFS_DIR, "/sys/fs/bpf/hermes");
    assert_eq!((PIN_PROGRAM, PIN_M_SEL, PIN_M_SOCKET), ("hermes_select", "m_sel", "m_socket"));
}

#[test]
fn requests_are_cut_off_however_reads_split_them() {
    let mut stream: Vec<u8> = Vec::new();
    for seq in 0..5 {
        stream.extend_from_slice(&request(seq, 10, 20));
    }
    stream.extend_from_slice(&[1, 2, 3]);
    for chunk in [1, 7, 23, 24, 25, 60, 200] {
        let mut table = ConnTable::new();
        table.open(9);
        let mut seen = Vec::new();
        for part in stream.chunks(chunk) {
            table.append(9, &part.to_vec());
            while let Some(header) = table.take_request(9) {
                seen.push(decode_request(&header).unwrap().0);
            }
        }
        assert_eq!(seen, vec![0, 1, 2, 3, 4], "chunks of {chunk}");
    }
}

#[test]
fn table_knows_its_connections() {
    let mut table = ConnTable::new();
    assert_eq!(table.len(), 0);
    table.open(5);
    table.open(6);
    table.append(7, &vec![1; 100]);
    assert_eq!(table.take_request(7), None);
    table.append(5, &vec![1; 30]);
    assert_eq!(table.take_request(5), Some([1; 24]));
    assert_eq!(table.take_request(5), None);
    let mut fds = table.fds();
    fds.sort();
    assert_eq!(fds, vec![5, 6]);
    table.close(5);
    table.close(5);
    assert_eq!(table.len(), 1);
    // A reused descriptor starts without bytes.
    table.append(6, &vec![2; 23]);
    table.open(6);
    table.append(6, &vec![3; 1]);
    assert_eq!(table.take_request(6), None);
}
