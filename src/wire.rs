use vstd::prelude::*;

use crate::session::PeerMessage;

verus! {

/// Why a frame from a peer could not be read.
#[derive(Clone, Copy, Debug, PartialEq, Eq, Structural)]
pub enum WireError {
    /// The payload does not have the length its message id demands.
    Malformed,
}

/// The big-endian number held by four bytes.
pub open spec fn be_u32(b0: u8, b1: u8, b2: u8, b3: u8) -> int {
    b0 as int * 16777216 + b1 as int * 65536 + b2 as int * 256 + b3 as int
}

/// The four big-endian bytes of `x`.
pub open spec fn be_bytes(x: u32) -> Seq<u8> {
    seq![
        (x as int / 16777216) as u8,
        (x as int / 65536 % 256) as u8,
        (x as int / 256 % 256) as u8,
        (x as int % 256) as u8,
    ]
}

/// The number in bytes `at .. at + 4` of `b`, big-endian.
pub fn read_u32_be(b: &[u8], at: usize) -> (r: u32)
    requires
        at + 4 <= b@.len(),
    ensures
        r as int == be_u32(b@[at as int], b@[at + 1], b@[at + 2], b@[at + 3]),
{
    (b[at] as u32) * 16777216 + (b[at + 1] as u32) * 65536 + (b[at + 2] as u32) * 256 + (b[at
        + 3] as u32)
}

fn push_u32_be(v: &mut Vec<u8>, x: u32)
    ensures
        final(v)@ == old(v)@ + be_bytes(x),
{
    v.push((x / 16777216) as u8);
    v.push((x / 65536 % 256) as u8);
    v.push((x / 256 % 256) as u8);
    v.push((x % 256) as u8);
    assert(final(v)@ =~= old(v)@ + be_bytes(x));
}

/// The message that a frame body (id byte, then payload) holds, for every body
/// but a bitfield (id 5) or a block (id 7), whose bytes `decode_message`
/// states apart. An empty body is a keep-alive; ids the fetch loop does not
/// read give `Other`.
pub open spec fn decoded(body: Seq<u8>) -> Result<PeerMessage, WireError> {
    if body.len() == 0 {
        Ok(PeerMessage::Other)
    } else {
        let id = body[0];
        let n = body.len() - 1;
        if id == 0 {
            Ok(PeerMessage::Choke)
        } else if id == 1 {
            Ok(PeerMessage::Unchoke)
        } else if id == 2 {
            Ok(PeerMessage::Interested)
        } else if id == 3 {
            Ok(PeerMessage::NotInterested)
        } else if id == 4 {
            if n == 4 {
                Ok(PeerMessage::Have(be_u32(body[1], body[2], body[3], body[4]) as u32))
            } else {
                Err(WireError::Malformed)
            }
        } else if id == 5 || id == 7 {
            Err(WireError::Malformed)
        } else {
            Ok(PeerMessage::Other)
        }
    }
}

/// Reads a frame body (id byte, then payload; the length prefix stripped).
pub fn decode_message(body: &[u8]) -> (r: Result<PeerMessage, WireError>)
    ensures
        body@.len() == 0 ==> r matches Ok(PeerMessage::Other),
        body@.len() > 0 && body@[0] == 5 ==> (r matches Ok(PeerMessage::Bitfield(bits)) && bits@
            == body@.subrange(1, body@.len() as int)),
        body@.len() > 0 && body@[0] == 7 && body@.len() < 9 ==> r == Err::<PeerMessage, WireError>(
            WireError::Malformed,
        ),
        body@.len() >= 9 && body@[0] == 7 ==> (r matches Ok(PeerMessage::Piece { index, begin, data })
            && index as int == be_u32(body@[1], body@[2], body@[3], body@[4]) && begin as int
            == be_u32(body@[5], body@[6], body@[7], body@[8]) && data@ == body@.subrange(
            9,
            body@.len() as int,
        )),
        !(body@.len() > 0 && (body@[0] == 5 || body@[0] == 7)) ==> r == decoded(body@),
{
    if body.len() == 0 {
        return Ok(PeerMessage::Other);
    }
    let id = body[0];
    let n = body.len() - 1;
    if id == 0 {
        Ok(PeerMessage::Choke)
    } else if id == 1 {
        Ok(PeerMessage::Unchoke)
    } else if id == 2 {
        Ok(PeerMessage::Interested)
    } else if id == 3 {
        Ok(PeerMessage::NotInterested)
    } else if id == 4 {
        if n == 4 {
            Ok(PeerMessage::Have(read_u32_be(body, 1)))
        } else {
            Err(WireError::Malformed)
        }
    } else if id == 5 {
        Ok(PeerMessage::Bitfield(copy_from(body, 1)))
    } else if id == 7 {
        if n < 8 {
            Err(WireError::Malformed)
        } else {
            let index = read_u32_be(body, 1);
            let begin = read_u32_be(body, 5);
            Ok(PeerMessage::Piece { index, begin, data: copy_from(body, 9) })
        }
    } else {
        Ok(PeerMessage::Other)
    }
}

/// The bytes of `b` from `at` on.
fn copy_from(b: &[u8], at: usize) -> (r: Vec<u8>)
    requires
        at <= b@.len(),
    ensures
        r@ == b@.subrange(at as int, b@.len() as int),
{
    let mut r: Vec<u8> = Vec::new();
    let mut i: usize = at;
    while i < b.len()
        invariant
            at <= i <= b@.len(),
            r@ == b@.subrange(at as int, i as int),
        decreases b@.len() - i,
    {
        r.push(b[i]);
        i = i + 1;
        assert(r@ =~= b@.subrange(at as int, i as int));
    }
    r
}

/// The `interested` frame.
pub fn encode_interested() -> (r: Vec<u8>)
    ensures
        r@ == seq![0u8, 0u8, 0u8, 1u8, 2u8],
{
    let mut r: Vec<u8> = Vec::new();
    r.push(0);
    r.push(0);
    r.push(0);
    r.push(1);
    r.push(2);
    assert(r@ =~= seq![0u8, 0u8, 0u8, 1u8, 2u8]);
    r
}

/// The `request` frame for `length` bytes of piece `index` from `begin`.
pub fn encode_request(index: u32, begin: u32, length: u32) -> (r: Vec<u8>)
    ensures
        r@ == seq![0u8, 0u8, 0u8, 13u8, 6u8] + be_bytes(index) + be_bytes(begin) + be_bytes(
            length,
        ),
{
    let mut r: Vec<u8> = Vec::new();
    r.push(0);
    r.push(0);
    r.push(0);
    r.push(13);
    r.push(6);
    assert(r@ =~= seq![0u8, 0u8, 0u8, 13u8, 6u8]);
    push_u32_be(&mut r, index);
    push_u32_be(&mut r, begin);
    push_u32_be(&mut r, length);
    r
}

/// The protocol name that opens a handshake.
pub open spec fn protocol_name() -> Seq<u8> {
    seq![
        66u8, 105u8, 116u8, 84u8, 111u8, 114u8, 114u8, 101u8, 110u8, 116u8, 32u8, 112u8, 114u8,
        111u8, 116u8, 111u8, 99u8, 111u8, 108u8,
    ]
}

fn protocol_name_bytes() -> (r: Vec<u8>)
    ensures
        r@ == protocol_name(),
{
    let r: Vec<u8> = vec![
        66u8, 105u8, 116u8, 84u8, 111u8, 114u8, 114u8, 101u8, 110u8, 116u8, 32u8, 112u8, 114u8,
        111u8, 116u8, 111u8, 99u8, 111u8, 108u8,
    ];
    assert(r@ =~= protocol_name());
    r
}

/// The 68-byte handshake: name length, protocol name, eight reserved zero
/// bytes, info hash, peer id.
pub open spec fn handshake_of(info_hash: Seq<u8>, peer_id: Seq<u8>) -> Seq<u8> {
    seq![19u8] + protocol_name() + Seq::new(8, |i: int| 0u8) + info_hash + peer_id
}

/// The handshake this client sends.
pub fn encode_handshake(info_hash: &[u8; 20], peer_id: &[u8; 20]) -> (r: Vec<u8>)
    ensures
        r@ == handshake_of(info_hash@, peer_id@),
        r@.len() == 68,
{
    let mut r: Vec<u8> = Vec::new();
    r.push(19);
    let name = protocol_name_bytes();
    let mut i: usize = 0;
    while i < name.len()
        invariant
            i <= name@.len(),
            name@ == protocol_name(),
            r@ == seq![19u8] + name@.subrange(0, i as int),
        decreases name@.len() - i,
    {
        r.push(name[i]);
        i = i + 1;
        assert(r@ =~= seq![19u8] + name@.subrange(0, i as int));
    }
    assert(name@.subrange(0, 19) =~= name@);
    let ghost head = r@;
    let mut k: usize = 0;
    while k < 8
        invariant
            k <= 8,
            r@ == head + Seq::new(k as nat, |i: int| 0u8),
        decreases 8 - k,
    {
        r.push(0);
        k = k + 1;
        assert(r@ =~= head + Seq::new(k as nat, |i: int| 0u8));
    }
    let ghost head2 = r@;
    let mut j: usize = 0;
    while j < 20
        invariant
            j <= 20,
            r@ == head2 + info_hash@.subrange(0, j as int),
        decreases 20 - j,
    {
        r.push(info_hash[j]);
        j = j + 1;
        assert(r@ =~= head2 + info_hash@.subrange(0, j as int));
    }
    assert(info_hash@.subrange(0, 20) =~= info_hash@);
    let ghost head3 = r@;
    let mut j: usize = 0;
    while j < 20
        invariant
            j <= 20,
            r@ == head3 + peer_id@.subrange(0, j as int),
        decreases 20 - j,
    {
        r.push(peer_id[j]);
        j = j + 1;
        assert(r@ =~= head3 + peer_id@.subrange(0, j as int));
    }
    assert(peer_id@.subrange(0, 20) =~= peer_id@);
    assert(r@ =~= handshake_of(info_hash@, peer_id@));
    r
}

/// Whether a peer's handshake speaks this protocol for the torrent `info_hash`:
/// 68 bytes, the protocol name, and the same info hash.
pub open spec fn handshake_ok(reply: Seq<u8>, info_hash: Seq<u8>) -> bool {
    &&& reply.len() == 68
    &&& reply[0] == 19u8
    &&& reply.subrange(1, 20) == protocol_name()
    &&& reply.subrange(28, 48) == info_hash
}

/// Checks a peer's handshake against the torrent's info hash.
pub fn check_handshake(reply: &[u8], info_hash: &[u8; 20]) -> (r: bool)
    ensures
        r == handshake_ok(reply@, info_hash@),
{
    if reply.len() != 68 || reply[0] != 19 {
        return false;
    }
    let name = protocol_name_bytes();
    let mut i: usize = 0;
    while i < 19
        invariant
            i <= 19,
            reply@.len() == 68,
            name@ == protocol_name(),
            forall|t: int| 0 <= t < i ==> reply@[1 + t] == name@[t],
        decreases 19 - i,
    {
        if reply[1 + i] != name[i] {
            assert(reply@.subrange(1, 20)[i as int] != protocol_name()[i as int]);
            return false;
        }
        i = i + 1;
    }
    assert(reply@.subrange(1, 20) =~= protocol_name());
    let mut j: usize = 0;
    while j < 20
        invariant
            j <= 20,
            reply@.len() == 68,
            forall|t: int| 0 <= t < j ==> reply@[28 + t] == info_hash@[t],
        decreases 20 - j,
    {
        if reply[28 + j] != info_hash[j] {
            assert(reply@.subrange(28, 48)[j as int] != info_hash@[j as int]);
            return false;
        }
        j = j + 1;
    }
    assert(reply@.subrange(28, 48) =~= info_hash@);
    true
}

/// A handshake that this client sends is one that it accepts for the same torrent.
pub proof fn lemma_own_handshake_accepted(info_hash: Seq<u8>, peer_id: Seq<u8>)
    requires
        info_hash.len() == 20,
        peer_id.len() == 20,
    ensures
        handshake_ok(handshake_of(info_hash, peer_id), info_hash),
{
    let h = handshake_of(info_hash, peer_id);
    assert(h.subrange(1, 20) =~= protocol_name());
    assert(h.subrange(28, 48) =~= info_hash);
}

} // verus!
