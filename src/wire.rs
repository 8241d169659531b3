//! Byte-level protocol: command frames on the server's internal queue, the
//! steering frame a client sends, and the length prefix of state frames.

use vstd::prelude::*;

verus! {

/// Tag of a frame that spawns a ship for a player.
pub const TAG_SPAWN: u8 = 0;

/// Tag of a frame that removes a player's ship.
pub const TAG_REMOVE: u8 = 1;

/// Tag of a frame that sets or clears a ship's steering direction.
pub const TAG_STEER: u8 = 2;

/// Tag of a frame that fires a bullet from a ship.
pub const TAG_FIRE: u8 = 3;

/// Player whose steering a malformed frame clears.
pub const FALLBACK_ID: u8 = 1;

/// A decoded command. Angles travel as the bit pattern of an IEEE-754
/// binary64 value (radians); `None` as a steering direction means no thrust.
#[derive(PartialEq, Eq, Structural, Debug, Clone, Copy)]
pub enum Command {
    Spawn(u8),
    Remove(u8),
    Steer(u8, Option<u64>),
    Fire(u8, u64),
}

/// The big-endian value of the first eight bytes of `b`.
pub open spec fn be_u64(b: Seq<u8>) -> u64 {
    ((b[0] as u64) << 56u64) | ((b[1] as u64) << 48u64) | ((b[2] as u64) << 40u64) | ((
    b[3] as u64) << 32u64) | ((b[4] as u64) << 24u64) | ((b[5] as u64) << 16u64) | ((
    b[6] as u64) << 8u64) | (b[7] as u64)
}

/// The eight big-endian bytes of `v`.
pub open spec fn bytes_be(v: u64) -> Seq<u8> {
    seq![
        (v >> 56u64) as u8,
        (v >> 48u64) as u8,
        (v >> 40u64) as u8,
        (v >> 32u64) as u8,
        (v >> 24u64) as u8,
        (v >> 16u64) as u8,
        (v >> 8u64) as u8,
        v as u8,
    ]
}

/// The four big-endian bytes of `v`.
pub open spec fn bytes_be32(v: u32) -> Seq<u8> {
    seq![(v >> 24u32) as u8, (v >> 16u32) as u8, (v >> 8u32) as u8, v as u8]
}

/// The big-endian value of the first four bytes of `b`.
pub open spec fn be_u32(b: Seq<u8>) -> u32 {
    ((b[0] as u32) << 24u32) | ((b[1] as u32) << 16u32) | ((b[2] as u32) << 8u32) | (
    b[3] as u32)
}

/// The steering direction carried by a client frame: a presence flag, then
/// the angle's eight big-endian bytes.
pub open spec fn steering_of(frame: Seq<u8>) -> Option<u64> {
    if frame[0] == 0 {
        None
    } else {
        Some(be_u64(frame.subrange(1, 9)))
    }
}

/// What a frame on the command queue means. Frames have a fixed length per
/// tag; anything else clears the steering of the fallback player.
pub open spec fn decode(f: Seq<u8>) -> Command {
    if f.len() == 2 && f[0] == TAG_SPAWN {
        Command::Spawn(f[1])
    } else if f.len() == 2 && f[0] == TAG_REMOVE {
        Command::Remove(f[1])
    } else if f.len() == 11 && f[0] == TAG_STEER {
        Command::Steer(f[1], steering_of(f.subrange(2, 11)))
    } else if f.len() == 10 && f[0] == TAG_FIRE {
        Command::Fire(f[1], be_u64(f.subrange(2, 10)))
    } else {
        Command::Steer(FALLBACK_ID, None)
    }
}

/// The frame that carries a command.
pub open spec fn encode(c: Command) -> Seq<u8> {
    match c {
        Command::Spawn(id) => seq![TAG_SPAWN, id],
        Command::Remove(id) => seq![TAG_REMOVE, id],
        Command::Steer(id, None) => seq![TAG_STEER, id, 0u8, 0u8, 0u8, 0u8, 0u8, 0u8, 0u8, 0u8, 0u8],
        Command::Steer(id, Some(a)) => seq![TAG_STEER, id, 1u8] + bytes_be(a),
        Command::Fire(id, a) => seq![TAG_FIRE, id] + bytes_be(a),
    }
}

proof fn lemma_be_u64_bytes(v: u64)
    ensures
        be_u64(bytes_be(v)) == v,
{
    let b = bytes_be(v);
    let (b0, b1, b2, b3, b4, b5, b6, b7) = (b[0], b[1], b[2], b[3], b[4], b[5], b[6], b[7]);
    assert(b0 == (v >> 56u64) as u8 && b1 == (v >> 48u64) as u8 && b2 == (v >> 40u64) as u8
        && b3 == (v >> 32u64) as u8 && b4 == (v >> 24u64) as u8 && b5 == (v >> 16u64) as u8
        && b6 == (v >> 8u64) as u8 && b7 == v as u8);
    assert(((b0 as u64) << 56u64) | ((b1 as u64) << 48u64) | ((b2 as u64) << 40u64) | ((
    b3 as u64) << 32u64) | ((b4 as u64) << 24u64) | ((b5 as u64) << 16u64) | ((b6 as u64)
        << 8u64) | (b7 as u64) == v) by (bit_vector)
        requires
            b0 == (v >> 56u64) as u8,
            b1 == (v >> 48u64) as u8,
            b2 == (v >> 40u64) as u8,
            b3 == (v >> 32u64) as u8,
            b4 == (v >> 24u64) as u8,
            b5 == (v >> 16u64) as u8,
            b6 == (v >> 8u64) as u8,
            b7 == v as u8,
    ;
}

/// Decoding the frame of a command gives the command back.
pub proof fn lemma_decode_encode(c: Command)
    ensures
        decode(encode(c)) == c,
{
    let f = encode(c);
    match c {
        Command::Steer(id, Some(a)) => {
            lemma_be_u64_bytes(a);
            assert(f.subrange(2, 11).subrange(1, 9) =~= bytes_be(a));
        },
        Command::Fire(id, a) => {
            lemma_be_u64_bytes(a);
            assert(f.subrange(2, 10) =~= bytes_be(a));
        },
        _ => {},
    }
}

/// Reads the big-endian value of the eight bytes of `b` from `at` on.
pub fn read_be_u64(b: &Vec<u8>, at: usize) -> (r: u64)
    requires
        at + 8 <= b.len(),
    ensures
        r == be_u64(b@.subrange(at as int, at + 8)),
{
    ((b[at] as u64) << 56u64) | ((b[at + 1] as u64) << 48u64) | ((b[at + 2] as u64) << 40u64)
        | ((b[at + 3] as u64) << 32u64) | ((b[at + 4] as u64) << 24u64) | ((b[at + 5] as u64)
        << 16u64) | ((b[at + 6] as u64) << 8u64) | (b[at + 7] as u64)
}

/// Appends the eight big-endian bytes of `v` to `out`.
pub fn push_be_u64(out: &mut Vec<u8>, v: u64)
    ensures
        final(out)@ == old(out)@ + bytes_be(v),
{
    out.push((v >> 56u64) as u8);
    out.push((v >> 48u64) as u8);
    out.push((v >> 40u64) as u8);
    out.push((v >> 32u64) as u8);
    out.push((v >> 24u64) as u8);
    out.push((v >> 16u64) as u8);
    out.push((v >> 8u64) as u8);
    out.push(v as u8);
    assert(final(out)@ =~= old(out)@ + bytes_be(v));
}

/// Decodes a frame taken from the command queue.
pub fn decode_command(frame: &Vec<u8>) -> (c: Command)
    ensures
        c == decode(frame@),
{
    let n = frame.len();
    if n == 2 && frame[0] == TAG_SPAWN {
        Command::Spawn(frame[1])
    } else if n == 2 && frame[0] == TAG_REMOVE {
        Command::Remove(frame[1])
    } else if n == 11 && frame[0] == TAG_STEER {
        let direction = if frame[2] == 0 {
            None
        } else {
            Some(read_be_u64(frame, 3))
        };
        assert(frame@.subrange(2, 11).subrange(1, 9) =~= frame@.subrange(3, 11));
        Command::Steer(frame[1], direction)
    } else if n == 10 && frame[0] == TAG_FIRE {
        Command::Fire(frame[1], read_be_u64(frame, 2))
    } else {
        Command::Steer(FALLBACK_ID, None)
    }
}

/// The frame that carries `c` on the command queue.
pub fn encode_command(c: &Command) -> (f: Vec<u8>)
    ensures
        f@ == encode(*c),
{
    let mut f: Vec<u8> = Vec::new();
    match *c {
        Command::Spawn(id) => {
            f.push(TAG_SPAWN);
            f.push(id);
        },
        Command::Remove(id) => {
            f.push(TAG_REMOVE);
            f.push(id);
        },
        Command::Steer(id, None) => {
            f.push(TAG_STEER);
            f.push(id);
            f.push(0);
            push_be_u64(&mut f, 0);
            assert(bytes_be(0) =~= seq![0u8, 0u8, 0u8, 0u8, 0u8, 0u8, 0u8, 0u8]) by {
                assert(((0u64 >> 56u64) as u8) == 0 && ((0u64 >> 48u64) as u8) == 0 && ((0u64
                    >> 40u64) as u8) == 0 && ((0u64 >> 32u64) as u8) == 0 && ((0u64 >> 24u64)
                    as u8) == 0 && ((0u64 >> 16u64) as u8) == 0 && ((0u64 >> 8u64) as u8) == 0
                    && (0u64 as u8) == 0) by (bit_vector);
            }
        },
        Command::Steer(id, Some(a)) => {
            f.push(TAG_STEER);
            f.push(id);
            f.push(1);
            push_be_u64(&mut f, a);
        },
        Command::Fire(id, a) => {
            f.push(TAG_FIRE);
            f.push(id);
            push_be_u64(&mut f, a);
        },
    }
    assert(f@ =~= encode(*c));
    f
}

/// Tags the steering frame that player `id` sent, for the command queue.
pub fn steer_frame(id: u8, client: &[u8; 9]) -> (f: Vec<u8>)
    ensures
        f@ == seq![TAG_STEER, id] + client@,
        decode(f@) == Command::Steer(id, steering_of(client@)),
{
    let mut f: Vec<u8> = Vec::new();
    f.push(TAG_STEER);
    f.push(id);
    let mut k: usize = 0;
    while k < 9
        invariant
            k <= 9,
            f@ == seq![TAG_STEER, id] + client@.subrange(0, k as int),
        decreases 9 - k,
    {
        f.push(client[k]);
        k += 1;
        assert(f@ =~= seq![TAG_STEER, id] + client@.subrange(0, k as int));
    }
    assert(client@.subrange(0, 9) =~= client@);
    assert(f@.subrange(2, 11) =~= client@);
    f
}

/// A state frame: the snapshot's length as four big-endian bytes, then the
/// snapshot. `None` when the length does not fit in four bytes.
pub fn state_frame(snapshot: &Vec<u8>) -> (r: Option<Vec<u8>>)
    ensures
        r is Some <==> snapshot.len() <= u32::MAX,
        r matches Some(f) ==> f@ == bytes_be32(snapshot.len() as u32) + snapshot@,
{
    let n = snapshot.len();
    if n > 0xffff_ffffusize {
        return None;
    }
    let len = n as u32;
    let mut f: Vec<u8> = Vec::new();
    f.push((len >> 24u32) as u8);
    f.push((len >> 16u32) as u8);
    f.push((len >> 8u32) as u8);
    f.push(len as u8);
    let mut k: usize = 0;
    while k < n
        invariant
            k <= n,
            n == snapshot.len(),
            f@ == bytes_be32(len) + snapshot@.subrange(0, k as int),
        decreases n - k,
    {
        f.push(snapshot[k]);
        k += 1;
        assert(f@ =~= bytes_be32(len) + snapshot@.subrange(0, k as int));
    }
    assert(snapshot@.subrange(0, n as int) =~= snapshot@);
    Some(f)
}

/// The payload length that a state frame's four-byte header announces.
pub fn payload_len(header: &[u8; 4]) -> (r: u32)
    ensures
        r == be_u32(header@),
{
    ((header[0] as u32) << 24u32) | ((header[1] as u32) << 16u32) | ((header[2] as u32) << 8u32)
        | (header[3] as u32)
}

/// The header of a state frame announces the length of the snapshot it carries.
pub proof fn lemma_state_frame_header(snapshot: Seq<u8>)
    requires
        snapshot.len() <= u32::MAX,
    ensures
        be_u32((bytes_be32(snapshot.len() as u32) + snapshot).subrange(0, 4)) == snapshot.len(),
{
    let v = snapshot.len() as u32;
    let h = (bytes_be32(v) + snapshot).subrange(0, 4);
    assert(h =~= bytes_be32(v));
    let (b0, b1, b2, b3) = (h[0], h[1], h[2], h[3]);
    assert(((b0 as u32) << 24u32) | ((b1 as u32) << 16u32) | ((b2 as u32) << 8u32) | (b3 as u32)
        == v) by (bit_vector)
        requires
            b0 == (v >> 24u32) as u8,
            b1 == (v >> 16u32) as u8,
            b2 == (v >> 8u32) as u8,
            b3 == v as u8,
    ;
}

} // verus!
