//! The bytes that a worker has read from each open connection and not yet used.
//!
//! One read can bring a part of a request, several requests, or both. Requests are cut off the front
//! of what has been read.

use crate::wire::REQUEST_HEADER_LEN;
use std::collections::HashMap;
use vstd::prelude::*;
use vstd::std_specs::iter::IteratorSpec;

verus! {

broadcast use vstd::std_specs::hash::group_hash_axioms;

/// The open connections, by file descriptor.
pub struct ConnTable {
    conns: HashMap<i32, Vec<u8>>,
}

impl View for ConnTable {
    type V = Map<i32, Seq<u8>>;

    /// The unused bytes of each connection.
    closed spec fn view(&self) -> Map<i32, Seq<u8>> {
        self.conns@.map_values(|v: Vec<u8>| v@)
    }
}

/// The table once more bytes of a connection have been read. Those of an unknown one are dropped.
pub open spec fn after_bytes(m: Map<i32, Seq<u8>>, fd: i32, data: Seq<u8>) -> Map<i32, Seq<u8>> {
    if m.contains_key(fd) {
        m.insert(fd, m[fd] + data)
    } else {
        m
    }
}

/// Whether a whole request of a connection has been read.
pub open spec fn has_request(m: Map<i32, Seq<u8>>, fd: i32) -> bool {
    m.contains_key(fd) && m[fd].len() >= REQUEST_HEADER_LEN
}

impl ConnTable {
    /// No connections.
    pub fn new() -> (t: ConnTable)
        ensures
            t@ == Map::<i32, Seq<u8>>::empty(),
    {
        let t: ConnTable = ConnTable { conns: HashMap::new() };
        assert(t@ =~= Map::empty());
        t
    }

    /// How many connections are open.
    pub fn len(&self) -> (n: usize)
        ensures
            n == self@.dom().len(),
    {
        assert(self@.dom() =~= self.conns@.dom());
        self.conns.len()
    }

    /// Adds a connection of which nothing has been read.
    pub fn open(&mut self, fd: i32)
        ensures
            final(self)@ == old(self)@.insert(fd, Seq::empty()),
    {
        let ghost before = self@;
        let _ = self.conns.insert(fd, Vec::new());
        assert(self@ =~= before.insert(fd, Seq::empty()));
    }

    /// Removes a connection.
    pub fn close(&mut self, fd: i32)
        ensures
            final(self)@ == old(self)@.remove(fd),
    {
        let ghost before = self@;
        let _ = self.conns.remove(&fd);
        assert(self@ =~= before.remove(fd));
    }

    /// Adds bytes that were read from a connection.
    pub fn append(&mut self, fd: i32, data: &Vec<u8>)
        ensures
            final(self)@ == after_bytes(old(self)@, fd, data@),
    {
        let ghost before = self@;
        match self.conns.remove(&fd) {
            Some(buf) => {
                let mut buf: Vec<u8> = buf;
                let mut i: usize = 0;
                let ghost start = buf@;
                assert(start + data@.take(0) =~= start);
                while i < data.len()
                    invariant
                        i <= data@.len(),
                        buf@ == start + data@.take(i as int),
                    decreases data@.len() - i,
                {
                    buf.push(data[i]);
                    i = i + 1;
                    assert(buf@ =~= start + data@.take(i as int));
                }
                assert(data@.take(i as int) =~= data@);
                let _ = self.conns.insert(fd, buf);
                assert(self@ =~= before.insert(fd, before[fd] + data@));
            },
            None => {
                assert(self@ =~= before);
            },
        }
    }

    /// Cuts the next request of a connection off, if a whole one has been read.
    pub fn take_request(&mut self, fd: i32) -> (r: Option<[u8; REQUEST_HEADER_LEN]>)
        ensures
            r.is_some() == has_request(old(self)@, fd),
            r.is_some() ==> r.unwrap()@ == old(self)@[fd].take(REQUEST_HEADER_LEN as int),
            final(self)@ == (if has_request(old(self)@, fd) {
                old(self)@.insert(fd, old(self)@[fd].skip(REQUEST_HEADER_LEN as int))
            } else {
                old(self)@
            }),
    {
        let ghost before = self@;
        match self.conns.remove(&fd) {
            Some(buf) => {
                let mut b: Vec<u8> = buf;
                if b.len() < REQUEST_HEADER_LEN {
                    let _ = self.conns.insert(fd, b);
                    assert(self@ =~= before);
                    return None;
                }
                let ghost all = b@;
                let rest: Vec<u8> = b.split_off(REQUEST_HEADER_LEN);
                let header: [u8; REQUEST_HEADER_LEN] = [
                    b[0], b[1], b[2], b[3], b[4], b[5], b[6], b[7],
                    b[8], b[9], b[10], b[11], b[12], b[13], b[14], b[15],
                    b[16], b[17], b[18], b[19], b[20], b[21], b[22], b[23],
                ];
                assert(header@ =~= all.take(REQUEST_HEADER_LEN as int));
                assert(rest@ =~= all.skip(REQUEST_HEADER_LEN as int));
                let _ = self.conns.insert(fd, rest);
                assert(self@ =~= before.insert(fd, all.skip(REQUEST_HEADER_LEN as int)));
                Some(header)
            },
            None => {
                assert(self@ =~= before);
                None
            },
        }
    }

    /// The descriptors of all open connections, each once.
    pub fn fds(&self) -> (fds: Vec<i32>)
        ensures
            fds@.no_duplicates(),
            forall|fd: i32| #[trigger] fds@.contains(fd) <==> self@.contains_key(fd),
    {
        let mut fds: Vec<i32> = Vec::new();
        let ghost keys = self.conns.keys().remaining();
        for fd in it: self.conns.keys()
            invariant
                it.seq() == keys,
                fds@ == keys.take(it.index()).unref(),
        {
            fds.push(*fd);
            assert(fds@ =~= keys.take(it.index() + 1).unref());
        }
        assert(keys.take(keys.len() as int) =~= keys);
        assert(fds@ == keys.unref());
        assert forall|fd: i32| #[trigger] fds@.contains(fd) <==> self@.contains_key(fd) by {
            assert(keys.unref().to_set().contains(fd) <==> self.conns@.contains_key(fd));
        }
        fds
    }
}

/// The requests in a run of bytes, in order.
pub open spec fn requests_in(bytes: Seq<u8>) -> Seq<Seq<u8>>
    decreases bytes.len(),
{
    if bytes.len() < REQUEST_HEADER_LEN {
        Seq::empty()
    } else {
        seq![bytes.take(REQUEST_HEADER_LEN as int)] + requests_in(
            bytes.skip(REQUEST_HEADER_LEN as int),
        )
    }
}

/// What is left of a run of bytes behind its requests.
pub open spec fn leftover(bytes: Seq<u8>) -> Seq<u8>
    decreases bytes.len(),
{
    if bytes.len() < REQUEST_HEADER_LEN {
        bytes
    } else {
        leftover(bytes.skip(REQUEST_HEADER_LEN as int))
    }
}

/// How the bytes of a connection are spread over reads does not matter: the requests cut off after
/// each read are the requests in all bytes.
pub proof fn law_reads_may_split_anywhere(a: Seq<u8>, b: Seq<u8>)
    ensures
        requests_in(a + b) == requests_in(a) + requests_in(leftover(a) + b),
        leftover(a + b) == leftover(leftover(a) + b),
        leftover(a).len() < REQUEST_HEADER_LEN,
    decreases a.len(),
{
    if a.len() < REQUEST_HEADER_LEN {
        assert(requests_in(a) + requests_in(a + b) =~= requests_in(a + b));
    } else {
        let n = REQUEST_HEADER_LEN as int;
        law_reads_may_split_anywhere(a.skip(n), b);
        assert((a + b).skip(n) =~= a.skip(n) + b);
        assert((a + b).take(n) =~= a.take(n));
        assert(requests_in(a + b) =~= requests_in(a) + requests_in(leftover(a) + b));
    }
}

/// Requests are cut off 24 bytes at a time from the first on, as many as there are whole ones, and
/// what is left is what stands behind them.
pub proof fn law_requests_are_cut_off_in_turn(bytes: Seq<u8>, i: int)
    ensures
        requests_in(bytes).len() == bytes.len() / 24,
        0 <= i < requests_in(bytes).len() ==> requests_in(bytes)[i] == bytes.subrange(
            24 * i,
            24 * i + 24,
        ),
        leftover(bytes) == bytes.skip(24 * (bytes.len() / 24) as int),
    decreases bytes.len(),
{
    if bytes.len() < 24 {
        assert(bytes.skip(0) =~= bytes);
    } else {
        let rest = bytes.skip(24);
        law_requests_are_cut_off_in_turn(rest, i - 1);
        assert(rest.len() / 24 == bytes.len() / 24 - 1);
        assert(rest.skip(24 * (rest.len() / 24) as int) =~= bytes.skip(
            24 * (bytes.len() / 24) as int,
        ));
        if 0 < i < requests_in(bytes).len() {
            assert(requests_in(bytes)[i] == requests_in(rest)[i - 1]);
            assert(rest.subrange(24 * (i - 1), 24 * (i - 1) + 24) =~= bytes.subrange(
                24 * i,
                24 * i + 24,
            ));
        }
        if i == 0 {
            assert(bytes.take(24) =~= bytes.subrange(0, 24));
        }
    }
}

/// Bytes read from a connection stand behind those read before, and touch no other connection; those
/// of an unknown one are dropped. A request can be cut off from 24 bytes on.
pub proof fn law_bytes_are_kept_in_order(
    m: Map<i32, Seq<u8>>,
    fd: i32,
    other: i32,
    data: Seq<u8>,
)
    ensures
        after_bytes(m, fd, data).dom() == m.dom(),
        m.contains_key(fd) ==> after_bytes(m, fd, data)[fd] == m[fd] + data,
        m.contains_key(other) && other != fd ==> after_bytes(m, fd, data)[other] == m[other],
        has_request(m, fd) <==> m.contains_key(fd) && m[fd].len() >= 24,
{
    assert(after_bytes(m, fd, data).dom() =~= m.dom());
}

} // verus!
