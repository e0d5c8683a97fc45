//! The byte encoding of a replica: a run of chunks, each a little-endian
//! 32-bit length followed by that many bytes.
use vstd::prelude::*;
use vstd::bytes::{
    lemma_auto_spec_u32_to_from_le_bytes, spec_u32_from_le_bytes, spec_u32_to_le_bytes,
    u32_from_le_bytes, u32_to_le_bytes,
};

verus! {

/// Why a byte string is not an encoded replica.
#[derive(Clone, Copy, Debug, PartialEq, Eq, Hash, Structural)]
pub enum DecodeError {
    /// The bytes end inside a length prefix or inside a chunk.
    Truncated,
}

/// Every chunk is short enough for its length to fit the 32-bit prefix.
pub open spec fn chunks_fit(chunks: Seq<Seq<u8>>) -> bool {
    forall|i: int| 0 <= i < chunks.len() ==> #[trigger] chunks[i].len() <= u32::MAX
}

/// The encoding of a run of chunks.
pub open spec fn frame(chunks: Seq<Seq<u8>>) -> Seq<u8>
    decreases chunks.len(),
{
    if chunks.len() == 0 {
        Seq::empty()
    } else {
        spec_u32_to_le_bytes(chunks[0].len() as u32) + chunks[0] + frame(chunks.drop_first())
    }
}

/// What a byte string decodes to, if anything.
pub open spec fn parse(bytes: Seq<u8>) -> Option<Seq<Seq<u8>>>
    decreases bytes.len(),
{
    if bytes.len() == 0 {
        Some(Seq::empty())
    } else if bytes.len() < 4 {
        None
    } else {
        let n = spec_u32_from_le_bytes(bytes.take(4)) as int;
        if bytes.len() - 4 < n {
            None
        } else {
            match parse(bytes.skip(4 + n)) {
                Some(rest) => Some(seq![bytes.subrange(4, 4 + n)] + rest),
                None => None,
            }
        }
    }
}

/// Decoding an encoding gives back the chunks, byte for byte.
pub proof fn lemma_parse_frame(chunks: Seq<Seq<u8>>)
    requires
        chunks_fit(chunks),
    ensures
        parse(frame(chunks)) == Some(chunks),
    decreases chunks.len(),
{
    lemma_auto_spec_u32_to_from_le_bytes();
    if chunks.len() > 0 {
        let rest = chunks.drop_first();
        assert(chunks_fit(rest)) by {
            assert forall|i: int| 0 <= i < rest.len() implies #[trigger] rest[i].len() <= u32::MAX by {
                assert(rest[i] == chunks[i + 1]);
            }
        }
        lemma_parse_frame(rest);
        let c = chunks[0];
        let len_bytes = spec_u32_to_le_bytes(c.len() as u32);
        let f = frame(chunks);
        assert(f == len_bytes + c + frame(rest));
        assert(f.take(4) =~= len_bytes);
        assert(spec_u32_from_le_bytes(f.take(4)) as int == c.len());
        assert(f.skip(4 + c.len() as int) =~= frame(rest));
        assert(f.subrange(4, 4 + c.len() as int) =~= c);
        assert(seq![c] + rest =~= chunks);
    }
}

/// Every chunk that decoding yields fits the 32-bit length prefix again.
pub proof fn lemma_parse_fits(bytes: Seq<u8>)
    requires
        parse(bytes) is Some,
    ensures
        chunks_fit(parse(bytes)->Some_0),
    decreases bytes.len(),
{
    if bytes.len() > 0 {
        let n = spec_u32_from_le_bytes(bytes.take(4)) as int;
        lemma_parse_fits(bytes.skip(4 + n));
        let rest = parse(bytes.skip(4 + n))->Some_0;
        let cs = parse(bytes)->Some_0;
        assert forall|i: int| 0 <= i < cs.len() implies #[trigger] cs[i].len() <= u32::MAX by {
            if i > 0 {
                assert(cs[i] == rest[i - 1]);
            }
        }
    }
}

fn copy_range(bytes: &Vec<u8>, from: usize, to: usize) -> (r: Vec<u8>)
    requires
        from <= to <= bytes.len(),
    ensures
        r@ == bytes@.subrange(from as int, to as int),
{
    let mut out: Vec<u8> = Vec::new();
    let mut i: usize = from;
    while i < to
        invariant
            from <= i <= to <= bytes.len(),
            out@ == bytes@.subrange(from as int, i as int),
        decreases to - i,
    {
        out.push(bytes[i]);
        i = i + 1;
        assert(out@ =~= bytes@.subrange(from as int, i as int));
    }
    out
}

/// Encodes a run of chunks.
pub fn encode_chunks(chunks: &Vec<Vec<u8>>) -> (r: Vec<u8>)
    requires
        chunks_fit(chunks.deep_view()),
    ensures
        r@ == frame(chunks.deep_view()),
{
    let ghost cs = chunks.deep_view();
    let mut out: Vec<u8> = Vec::new();
    let mut i: usize = 0;
    assert(cs.skip(0) =~= cs);
    while i < chunks.len()
        invariant
            i <= chunks.len(),
            cs == chunks.deep_view(),
            chunks_fit(cs),
            out@ + frame(cs.skip(i as int)) == frame(cs),
        decreases chunks.len() - i,
    {
        let c = &chunks[i];
        assert(c.deep_view() =~= c@);
        assert(cs[i as int] == c@);
        assert(cs[i as int].len() <= u32::MAX);
        let len_bytes = u32_to_le_bytes(c.len() as u32);
        assert(cs.skip(i as int).drop_first() =~= cs.skip(i + 1));
        let ghost before = out@;
        let mut k: usize = 0;
        while k < 4
            invariant
                k <= 4,
                len_bytes@.len() == 4,
                out@ == before + len_bytes@.take(k as int),
            decreases 4 - k,
        {
            out.push(len_bytes[k]);
            k = k + 1;
            assert(out@ =~= before + len_bytes@.take(k as int));
        }
        let mut j: usize = 0;
        while j < c.len()
            invariant
                j <= c.len(),
                len_bytes@.len() == 4,
                out@ == before + len_bytes@ + c@.take(j as int),
            decreases c.len() - j,
        {
            out.push(c[j]);
            j = j + 1;
            assert(out@ =~= before + len_bytes@ + c@.take(j as int));
        }
        assert(len_bytes@.take(4) =~= len_bytes@);
        assert(c@.take(c.len() as int) =~= c@);
        assert(out@ + frame(cs.skip(i + 1)) =~= before + frame(cs.skip(i as int)));
        i = i + 1;
    }
    assert(frame(cs.skip(i as int)) == Seq::<u8>::empty());
    assert(out@ =~= frame(cs));
    out
}

/// Decodes bytes into the chunks they encode.
pub fn decode_chunks(bytes: &Vec<u8>) -> (r: Result<Vec<Vec<u8>>, DecodeError>)
    ensures
        match r {
            Ok(cs) => parse(bytes@) == Some(cs.deep_view()),
            Err(_) => parse(bytes@) is None,
        },
{
    let mut out: Vec<Vec<u8>> = Vec::new();
    let mut pos: usize = 0;
    assert(bytes@.skip(0) =~= bytes@);
    while pos < bytes.len()
        invariant
            pos <= bytes.len(),
            parse(bytes@) == match parse(bytes@.skip(pos as int)) {
                Some(rest) => Some(out.deep_view() + rest),
                None => None::<Seq<Seq<u8>>>,
            },
        decreases bytes.len() - pos,
    {
        let ghost rem = bytes@.skip(pos as int);
        if bytes.len() - pos < 4 {
            return Err(DecodeError::Truncated);
        }
        let prefix = copy_range(bytes, pos, pos + 4);
        assert(rem.take(4) =~= prefix@);
        let n = u32_from_le_bytes(prefix.as_slice()) as usize;
        if bytes.len() - pos - 4 < n {
            return Err(DecodeError::Truncated);
        }
        let chunk = copy_range(bytes, pos + 4, pos + 4 + n);
        assert(rem.subrange(4, 4 + n as int) =~= chunk@);
        assert(rem.skip(4 + n as int) =~= bytes@.skip((pos + 4 + n) as int));
        let ghost old_out = out.deep_view();
        assert(chunk.deep_view() =~= chunk@);
        out.push(chunk);
        assert(out.deep_view() =~= old_out.push(chunk@));
        assert forall|rest: Seq<Seq<u8>>| #![auto] old_out + (seq![chunk@] + rest) == out.deep_view() + rest by {
            assert(old_out + (seq![chunk@] + rest) =~= old_out.push(chunk@) + rest);
        }
        pos = pos + 4 + n;
    }
    assert(bytes@.skip(pos as int) =~= Seq::<u8>::empty());
    assert(out.deep_view() + Seq::<Seq<u8>>::empty() =~= out.deep_view());
    Ok(out)
}

} // verus!
