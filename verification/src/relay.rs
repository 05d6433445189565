//! Passing bytes on between client, server and mirror.

use crate::connect::IoFailure;
use vstd::prelude::*;
use vstd::slice::slice_subrange;

verus! {

/// How many bytes are read at once from an intercepted connection.
pub const RELAY_BUFFER_SIZE: usize = 16384;

/// Which way mirrored bytes went.
#[derive(Clone, Copy, Debug, PartialEq, Eq, Structural)]
pub enum Direction {
    ClientToServer,
    ServerToClient,
}

impl Direction {
    /// The byte that a mirror frame begins with.
    pub open spec fn mark(self) -> u8 {
        match self {
            Direction::ClientToServer => 0,
            Direction::ServerToClient => 1,
        }
    }
}

/// The four bytes of a number, the least significant first.
pub open spec fn le32(n: nat) -> Seq<u8> {
    seq![
        (n % 0x100) as u8,
        (n / 0x100 % 0x100) as u8,
        (n / 0x1_0000 % 0x100) as u8,
        (n / 0x100_0000 % 0x100) as u8,
    ]
}

/// A mirror frame: the direction, the size, the bytes.
pub open spec fn frame(direction: Direction, data: Seq<u8>) -> Seq<u8> {
    seq![direction.mark()] + le32(data.len()) + data
}

/// The mirror stream of a row of chunks.
pub open spec fn stream(chunks: Seq<(Direction, Seq<u8>)>) -> Seq<u8>
    decreases chunks.len(),
{
    if chunks.len() == 0 {
        Seq::empty()
    } else {
        frame(chunks.first().0, chunks.first().1) + stream(chunks.drop_first())
    }
}

/// The direction that a mirror frame begins with.
pub open spec fn direction_of(mark: u8) -> Option<Direction> {
    if mark == 0 {
        Some(Direction::ClientToServer)
    } else if mark == 1 {
        Some(Direction::ServerToClient)
    } else {
        None
    }
}

/// The chunks of a mirror stream, as its receiver reads them; `None` if it does not consist of whole
/// frames.
pub open spec fn chunks(bytes: Seq<u8>) -> Option<Seq<(Direction, Seq<u8>)>>
    decreases bytes.len(),
{
    if bytes.len() == 0 {
        Some(Seq::empty())
    } else if bytes.len() < 5 || direction_of(bytes[0]) is None {
        None
    } else {
        let size = bytes[1] + 0x100 * bytes[2] + 0x1_0000 * bytes[3] + 0x100_0000 * bytes[4];
        if bytes.len() < 5 + size {
            None
        } else {
            match chunks(bytes.skip(5 + size)) {
                None => None,
                Some(rest) => Some(
                    seq![(direction_of(bytes[0])->0, bytes.subrange(5, 5 + size))] + rest,
                ),
            }
        }
    }
}

/// Whether every chunk has a size that a frame can hold.
pub open spec fn sizes_fit(list: Seq<(Direction, Seq<u8>)>) -> bool {
    forall|i: int| 0 <= i < list.len() ==> (#[trigger] list[i]).1.len() <= 0xffff_ffff
}

/// The receiver of a mirror stream reads back exactly the chunks that were sent.
pub proof fn law_mirror_stream_read_back(list: Seq<(Direction, Seq<u8>)>)
    requires
        sizes_fit(list),
    ensures
        chunks(stream(list)) == Some(list),
    decreases list.len(),
{
    if list.len() > 0 {
        let (direction, data) = list.first();
        let rest = list.drop_first();
        assert(list[0].1.len() <= 0xffff_ffff);
        assert(sizes_fit(rest)) by {
            assert forall|i: int| 0 <= i < rest.len() implies (#[trigger] rest[i]).1.len()
                <= 0xffff_ffff by {
                assert(rest[i] == list[i + 1]);
            }
        }
        law_mirror_stream_read_back(rest);
        lemma_frame_read(direction, data, stream(rest));
        assert(seq![(direction, data)] + rest == list);
    } else {
        assert(list == Seq::<(Direction, Seq<u8>)>::empty());
    }
}

/// The first frame of a stream is read back.
proof fn lemma_frame_read(direction: Direction, data: Seq<u8>, rest: Seq<u8>)
    requires
        data.len() <= 0xffff_ffff,
    ensures
        ({
            let bytes = frame(direction, data) + rest;
            let size = bytes[1] + 0x100 * bytes[2] + 0x1_0000 * bytes[3] + 0x100_0000 * bytes[4];
            &&& bytes.len() == 5 + data.len() + rest.len()
            &&& direction_of(bytes[0]) == Some(direction)
            &&& size == data.len()
            &&& bytes.subrange(5, 5 + size) == data
            &&& bytes.skip(5 + size) == rest
        }),
{
    let n = data.len();
    let bytes = frame(direction, data) + rest;
    let size = le32(n);
    assert(bytes[1] == size[0] && bytes[2] == size[1] && bytes[3] == size[2] && bytes[4]
        == size[3]);
    lemma_le32_value(n);
    assert(bytes.subrange(5, 5 + n as int) == data);
    assert(bytes.skip(5 + n as int) == rest);
}

/// A number below 2^32 is the sum of its bytes, each at its place.
proof fn lemma_le32_value(n: nat)
    requires
        n <= 0xffff_ffff,
    ensures
        le32(n)[0] + 0x100 * le32(n)[1] + 0x1_0000 * le32(n)[2] + 0x100_0000 * le32(n)[3] == n,
{
    let (a, b, c) = (n as int / 0x100, n as int / 0x1_0000, n as int / 0x100_0000);
    vstd::arithmetic::div_mod::lemma_div_denominator(n as int, 0x100, 0x100);
    vstd::arithmetic::div_mod::lemma_div_denominator(n as int, 0x1_0000, 0x100);
    lemma_low_byte(n as int);
    lemma_low_byte(a);
    lemma_low_byte(b);
    lemma_low_byte(c);
}

/// A number is its last byte and what stands before it.
proof fn lemma_low_byte(n: int)
    requires
        n >= 0,
    ensures
        n == 0x100 * (n / 0x100) + n % 0x100,
        0 <= n % 0x100 < 0x100,
        n < 0x100 ==> n % 0x100 == n,
{
}

/// Two rows of chunks with the same stream are the same row.
pub proof fn law_mirror_stream_unambiguous(
    a: Seq<(Direction, Seq<u8>)>,
    b: Seq<(Direction, Seq<u8>)>,
)
    requires
        sizes_fit(a),
        sizes_fit(b),
        stream(a) == stream(b),
    ensures
        a == b,
{
    law_mirror_stream_read_back(a);
    law_mirror_stream_read_back(b);
}

/// Frames bytes for the mirror.
pub fn mirror_frame(direction: Direction, data: &[u8]) -> (r: Vec<u8>)
    requires
        data@.len() <= 0xffff_ffff,
    ensures
        r@ == frame(direction, data@),
{
    let n: u32 = data.len() as u32;
    let mut r: Vec<u8> = Vec::new();
    match direction {
        Direction::ClientToServer => r.push(0),
        Direction::ServerToClient => r.push(1),
    }
    r.push((n % 0x100) as u8);
    r.push((n / 0x100 % 0x100) as u8);
    r.push((n / 0x1_0000 % 0x100) as u8);
    r.push((n / 0x100_0000 % 0x100) as u8);
    r.extend_from_slice(data);
    assert(r@ == frame(direction, data@));
    r
}

/// What to do after a read from an intercepted connection.
#[derive(Clone, Copy, Debug, PartialEq, Eq, Structural)]
pub enum ReadStep {
    /// The stream has ended.
    Finished,
    /// So many bytes are mirrored and passed on.
    Forward(usize),
    Failed(IoFailure),
}

/// What to do after a read: an end without a farewell counts as an end.
pub fn after_read(read: Result<usize, IoFailure>) -> (r: ReadStep)
    ensures
        r == match read {
            Ok(n) => if n == 0 {
                ReadStep::Finished
            } else {
                ReadStep::Forward(n)
            },
            Err(e) => if e == IoFailure::UnexpectedEof {
                ReadStep::Finished
            } else {
                ReadStep::Failed(e)
            },
        },
{
    match read {
        Ok(n) => if n == 0 {
            ReadStep::Finished
        } else {
            ReadStep::Forward(n)
        },
        Err(e) => match e {
            IoFailure::UnexpectedEof => ReadStep::Finished,
            _ => ReadStep::Failed(e),
        },
    }
}

/// What to do with a chunk of an intercepted connection.
pub enum ChunkStep {
    /// The stream has ended.
    Finished,
    /// The frame goes to the mirror, then so many bytes of the buffer to the other side.
    Forward { frame: Vec<u8>, len: usize },
    Failed(IoFailure),
}

/// What to do after a read into `buf`: the mirror gets a frame of exactly the bytes that are passed on.
pub fn next_chunk(direction: Direction, buf: &[u8], read: Result<usize, IoFailure>) -> (r: ChunkStep)
    requires
        buf@.len() <= 0xffff_ffff,
        read matches Ok(n) ==> n <= buf@.len(),
    ensures
        match r {
            ChunkStep::Finished => read == Ok::<usize, IoFailure>(0) || read == Err::<usize, _>(
                IoFailure::UnexpectedEof,
            ),
            ChunkStep::Forward { frame: bytes, len } => {
                &&& len > 0
                &&& read == Ok::<_, IoFailure>(len)
                &&& bytes@ == frame(direction, buf@.take(len as int))
            },
            ChunkStep::Failed(e) => read == Err::<usize, _>(e) && e != IoFailure::UnexpectedEof,
        },
{
    match after_read(read) {
        ReadStep::Finished => ChunkStep::Finished,
        ReadStep::Failed(e) => ChunkStep::Failed(e),
        ReadStep::Forward(len) => {
            let frame = mirror_frame(direction, slice_subrange(buf, 0, len));
            assert(buf@.subrange(0, len as int) == buf@.take(len as int));
            ChunkStep::Forward { frame, len }
        },
    }
}

/// How a relay ended: a peer that went away is no failure.
pub fn relay_result(ended: Result<(), IoFailure>) -> (r: Result<(), IoFailure>)
    ensures
        r == match ended {
            Ok(_) => Ok(()),
            Err(e) => if e == IoFailure::BrokenPipe || e == IoFailure::ConnectionReset {
                Ok(())
            } else {
                Err(e)
            },
        },
{
    match ended {
        Ok(_) => Ok(()),
        Err(e) => match e {
            IoFailure::BrokenPipe => Ok(()),
            IoFailure::ConnectionReset => Ok(()),
            _ => Err(e),
        },
    }
}

/// What goes to the server before anything else: the PROXY header if there is one, then what was read
/// from the client.
pub fn upload_prelude(proxy_header: Option<Vec<u8>>, initial: &Vec<u8>) -> (r: Vec<u8>)
    ensures
        r@ == match proxy_header {
            Some(header) => header@ + initial@,
            None => initial@,
        },
{
    let mut r: Vec<u8> = match proxy_header {
        Some(header) => header,
        None => Vec::new(),
    };
    r.extend_from_slice(initial.as_slice());
    assert(r@ == match proxy_header {
        Some(header) => header@ + initial@,
        None => initial@,
    });
    r
}

/// Bytes that are read before those of the stream behind them.
pub struct Prefix {
    bytes: Vec<u8>,
    pos: usize,
}

impl Prefix {
    /// The bytes that have not been read yet.
    pub closed spec fn remaining(self) -> Seq<u8> {
        self.bytes@.skip(self.pos as int)
    }

    /// The position is within the bytes.
    #[verifier::type_invariant]
    closed spec fn inv(self) -> bool {
        self.pos <= self.bytes@.len()
    }

    /// All bytes still to be read.
    pub fn new(bytes: Vec<u8>) -> (r: Prefix)
        ensures
            r.remaining() == bytes@,
    {
        let r = Prefix { bytes, pos: 0 };
        assert(r.remaining() == bytes@);
        r
    }

    /// Reads as many bytes as there is room for; `None` when all have been read and it is the
    /// stream's turn.
    pub fn read(&mut self, room: usize) -> (r: Option<Vec<u8>>)
        ensures
            match r {
                Some(bytes) => {
                    let n = if room <= old(self).remaining().len() {
                        room as int
                    } else {
                        old(self).remaining().len() as int
                    };
                    &&& old(self).remaining().len() > 0
                    &&& bytes@ == old(self).remaining().take(n)
                    &&& final(self).remaining() == old(self).remaining().skip(n)
                },
                None => old(self).remaining().len() == 0 && final(self).remaining() == old(
                    self,
                ).remaining(),
            },
    {
        proof {
            use_type_invariant(&*self);
        }
        let len: usize = self.bytes.len();
        let left: usize = len - self.pos;
        if left == 0 {
            return None;
        }
        let n: usize = if room <= left {
            room
        } else {
            left
        };
        let mut out: Vec<u8> = Vec::new();
        let mut i: usize = 0;
        let from: usize = self.pos;
        while i < n
            invariant
                i <= n,
                from == self.pos,
                from + n <= len == self.bytes@.len(),
                self.bytes@ == old(self).bytes@,
                self.pos == old(self).pos,
                out@ == self.bytes@.subrange(from as int, from + i),
            decreases n - i,
        {
            out.push(self.bytes[from + i]);
            i += 1;
        }
        self.pos = from + n;
        assert(out@ == old(self).remaining().take(n as int));
        assert(self.remaining() == old(self).remaining().skip(n as int));
        Some(out)
    }
}

/// What is left of some bytes after reads with the given room each.
pub open spec fn left_after(bytes: Seq<u8>, rooms: Seq<nat>) -> Seq<u8>
    decreases rooms.len(),
{
    if rooms.len() == 0 {
        bytes
    } else {
        let before = left_after(bytes, rooms.drop_last());
        before.skip(
            if rooms.last() <= before.len() {
                rooms.last() as int
            } else {
                before.len() as int
            },
        )
    }
}

/// What reads with the given room each return, put together.
pub open spec fn read_by(bytes: Seq<u8>, rooms: Seq<nat>) -> Seq<u8>
    decreases rooms.len(),
{
    if rooms.len() == 0 {
        Seq::empty()
    } else {
        let before = left_after(bytes, rooms.drop_last());
        read_by(bytes, rooms.drop_last()) + before.take(
            if rooms.last() <= before.len() {
                rooms.last() as int
            } else {
                before.len() as int
            },
        )
    }
}

/// However the reads are cut, they return the bytes in order, none lost and none twice.
pub proof fn law_prefix_replayed(bytes: Seq<u8>, rooms: Seq<nat>)
    ensures
        read_by(bytes, rooms) + left_after(bytes, rooms) == bytes,
    decreases rooms.len(),
{
    if rooms.len() > 0 {
        law_prefix_replayed(bytes, rooms.drop_last());
        assert(read_by(bytes, rooms) + left_after(bytes, rooms) == read_by(bytes, rooms.drop_last())
            + left_after(bytes, rooms.drop_last()));
    } else {
        assert(read_by(bytes, rooms) + left_after(bytes, rooms) == bytes);
    }
}

/// A frame is the byte of its direction, zero from the client and one from the server, the size with
/// the least significant byte first, and the bytes.
pub proof fn law_frame_format(direction: Direction, data: Seq<u8>)
    requires
        data.len() <= 0xffff_ffff,
    ensures
        ({
            let f = frame(direction, data);
            &&& f.len() == 5 + data.len()
            &&& direction == Direction::ClientToServer ==> f[0] == 0
            &&& direction == Direction::ServerToClient ==> f[0] == 1
            &&& f[1] + 0x100 * f[2] + 0x1_0000 * f[3] + 0x100_0000 * f[4] == data.len()
            &&& f.skip(5) == data
        }),
{
    let f = frame(direction, data);
    let nothing = Seq::<u8>::empty();
    lemma_frame_read(direction, data, nothing);
    assert(f + nothing == f);
    assert(f.skip(5) == data);
}

}
