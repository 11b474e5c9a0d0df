//! The frame of a replay file: the eight bytes `BLKSRP01`, then the encoded samples.
use vstd::prelude::*;

verus! {

/// `BLKSRP01` in ASCII.
pub const REPLAY_MAGIC: [u8; 8] = [66, 76, 75, 83, 82, 80, 48, 49];

/// Why a byte string is not a framed replay.
#[derive(Debug, Clone, Copy, PartialEq, Eq, Structural)]
pub enum ReplayFrameError {
    /// Fewer than eight bytes.
    TooShort,
    /// The first eight bytes are not `REPLAY_MAGIC`.
    BadMagic,
}

/// `payload` preceded by the replay magic.
pub open spec fn framed(payload: Seq<u8>) -> Seq<u8> {
    REPLAY_MAGIC@ + payload
}

/// The payload of the framed replay `bytes`: `TooShort` below eight bytes,
/// `BadMagic` when the first eight bytes are not the magic, else the rest.
pub open spec fn unframed(bytes: Seq<u8>) -> Result<Seq<u8>, ReplayFrameError> {
    if bytes.len() < 8 {
        Err(ReplayFrameError::TooShort)
    } else if bytes.take(8) != REPLAY_MAGIC@ {
        Err(ReplayFrameError::BadMagic)
    } else {
        Ok(bytes.skip(8))
    }
}

/// `payload` preceded by the replay magic.
pub fn frame_replay(payload: &Vec<u8>) -> (r: Vec<u8>)
    ensures
        r@ == framed(payload@),
{
    let mut r: Vec<u8> = Vec::new();
    let mut i: usize = 0;
    while i < 8
        invariant
            i <= 8,
            r@ == REPLAY_MAGIC@.take(i as int),
        decreases 8 - i,
    {
        r.push(REPLAY_MAGIC[i]);
        assert(REPLAY_MAGIC@.take(i + 1) =~= REPLAY_MAGIC@.take(i as int).push(REPLAY_MAGIC@[i as int]));
        i = i + 1;
    }
    assert(REPLAY_MAGIC@.take(8) =~= REPLAY_MAGIC@);
    let mut j: usize = 0;
    while j < payload.len()
        invariant
            j <= payload@.len(),
            r@ == REPLAY_MAGIC@ + payload@.take(j as int),
        decreases payload@.len() - j,
    {
        r.push(payload[j]);
        assert(payload@.take(j + 1) =~= payload@.take(j as int).push(payload@[j as int]));
        assert(REPLAY_MAGIC@ + payload@.take(j + 1) =~= (REPLAY_MAGIC@ + payload@.take(j as int)).push(
            payload@[j as int],
        ));
        j = j + 1;
    }
    assert(payload@.take(payload@.len() as int) =~= payload@);
    r
}

/// The payload of a framed replay, or why `bytes` is not one.
pub fn unframe_replay(bytes: &Vec<u8>) -> (r: Result<Vec<u8>, ReplayFrameError>)
    ensures
        bytes@.len() < 8 <==> r == Err::<Vec<u8>, ReplayFrameError>(ReplayFrameError::TooShort),
        r == Err::<Vec<u8>, ReplayFrameError>(ReplayFrameError::BadMagic) <==> (bytes@.len() >= 8
            && bytes@.take(8) != REPLAY_MAGIC@),
        r matches Ok(payload) ==> bytes@.take(8) == REPLAY_MAGIC@ && payload@ == bytes@.skip(8),
        match r {
            Ok(payload) => unframed(bytes@) == Ok::<Seq<u8>, ReplayFrameError>(payload@),
            Err(e) => unframed(bytes@) == Err::<Seq<u8>, ReplayFrameError>(e),
        },
{
    if bytes.len() < 8 {
        return Err(ReplayFrameError::TooShort);
    }
    let mut i: usize = 0;
    while i < 8
        invariant
            bytes@.len() >= 8,
            i <= 8,
            forall|k: int| 0 <= k < i ==> bytes@[k] == REPLAY_MAGIC@[k],
        decreases 8 - i,
    {
        if bytes[i] != REPLAY_MAGIC[i] {
            assert(bytes@.take(8)[i as int] != REPLAY_MAGIC@[i as int]);
            return Err(ReplayFrameError::BadMagic);
        }
        i = i + 1;
    }
    assert(bytes@.take(8) =~= REPLAY_MAGIC@);
    let mut payload: Vec<u8> = Vec::new();
    let mut j: usize = 8;
    while j < bytes.len()
        invariant
            8 <= j <= bytes@.len(),
            payload@ == bytes@.subrange(8, j as int),
        decreases bytes@.len() - j,
    {
        payload.push(bytes[j]);
        assert(bytes@.subrange(8, j + 1) =~= bytes@.subrange(8, j as int).push(bytes@[j as int]));
        j = j + 1;
    }
    Ok(payload)
}

/// Unframing a framed payload gives the payload back; bytes of at least
/// eight that do not start with the magic are refused as `BadMagic`.
pub proof fn lemma_unframe_frame(payload: Seq<u8>)
    ensures
        unframed(framed(payload)) == Ok::<Seq<u8>, ReplayFrameError>(payload),
        forall|bytes: Seq<u8>|
            bytes.len() >= 8 && bytes.take(8) != REPLAY_MAGIC@ ==> #[trigger] unframed(bytes)
                == Err::<Seq<u8>, ReplayFrameError>(ReplayFrameError::BadMagic),
        (REPLAY_MAGIC@ + payload).len() >= 8,
        (REPLAY_MAGIC@ + payload).take(8) == REPLAY_MAGIC@,
        (REPLAY_MAGIC@ + payload).skip(8) == payload,
{
    assert((REPLAY_MAGIC@ + payload).take(8) =~= REPLAY_MAGIC@);
    assert((REPLAY_MAGIC@ + payload).skip(8) =~= payload);
}

} // verus!
