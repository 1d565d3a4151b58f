//! Consistent Overhead Byte Stuffing: zero-free framing of arbitrary bytes.

use vstd::prelude::*;

verus! {

/// Data bytes in the longest block; its code byte is 0xFF and implies no zero.
pub const FULL_RUN: usize = 254;

/// Number of bytes before the first zero of `raw`, counted up to `limit`.
pub open spec fn leading_run(raw: Seq<u8>, limit: int) -> int
    decreases limit,
{
    if limit <= 0 || raw.len() == 0 || raw[0] == 0 {
        0
    } else {
        1 + leading_run(raw.skip(1), limit - 1)
    }
}

/// The COBS encoding of `raw`: each block is a code byte followed by a run of
/// non-zero data, where the code is the run's length plus one. A block ends at
/// a zero of `raw`, which it stands for, or after 254 data bytes.
pub open spec fn stuffed(raw: Seq<u8>) -> Seq<u8>
    decreases raw.len(),
{
    let run = leading_run(raw, FULL_RUN as int);
    proof {
        lemma_leading_run(raw, FULL_RUN as int);
    }
    if run == FULL_RUN {
        seq![0xFFu8] + raw.take(run) + stuffed(raw.skip(run))
    } else if run == raw.len() {
        seq![(run + 1) as u8] + raw
    } else {
        seq![(run + 1) as u8] + raw.take(run) + stuffed(raw.skip(run + 1))
    }
}

/// The bytes that `encoded` stands for, or `None` where it is not a sequence
/// of complete blocks with non-zero codes. A zero follows every block but the
/// last and those with code 0xFF.
pub open spec fn unstuffed(encoded: Seq<u8>) -> Option<Seq<u8>>
    decreases encoded.len(),
{
    if encoded.len() == 0 || encoded[0] == 0 || encoded.len() < encoded[0] {
        None
    } else {
        let code = encoded[0] as int;
        let block = encoded.subrange(1, code);
        if encoded.len() == code {
            Some(block)
        } else {
            let joint = if code == 0xFF { Seq::<u8>::empty() } else { seq![0u8] };
            match unstuffed(encoded.skip(code)) {
                Some(tail) => Some(block + joint + tail),
                None => None,
            }
        }
    }
}

/// A sequence without a zero byte.
pub open spec fn zero_free(bytes: Seq<u8>) -> bool {
    forall|i: int| 0 <= i < bytes.len() ==> bytes[i] != 0
}

/// What the run length says of the bytes it counts.
pub proof fn lemma_leading_run(raw: Seq<u8>, limit: int)
    requires
        0 <= limit,
    ensures
        0 <= leading_run(raw, limit) <= raw.len(),
        leading_run(raw, limit) <= limit,
        zero_free(raw.take(leading_run(raw, limit) as int)),
        leading_run(raw, limit) < limit && leading_run(raw, limit) < raw.len() ==> raw[leading_run(
            raw,
            limit,
        )] == 0,
    decreases limit,
{
    if limit <= 0 || raw.len() == 0 || raw[0] == 0 {
    } else {
        let tail = raw.skip(1);
        let inner = leading_run(tail, limit - 1);
        lemma_leading_run(tail, limit - 1);
        let head = raw.take(inner + 1);
        assert forall|i: int| 0 <= i < head.len() implies head[i] != 0 by {
            if i > 0 {
                assert(tail.take(inner)[i - 1] == raw[i]);
            }
        }
    }
}

/// A zero-free prefix that cannot be extended is the leading run.
proof fn lemma_run_is(raw: Seq<u8>, limit: int, count: int)
    requires
        0 <= count <= limit,
        count <= raw.len(),
        zero_free(raw.take(count)),
        count == limit || count == raw.len() || raw[count] == 0,
    ensures
        leading_run(raw, limit) == count,
    decreases limit,
{
    if count > 0 {
        assert(raw.take(count)[0] == raw[0]);
        let tail = raw.skip(1);
        let short = tail.take(count - 1);
        assert forall|i: int| 0 <= i < short.len() implies short[i] != 0 by {
            assert(raw.take(count)[i + 1] != 0);
        }
        lemma_run_is(tail, limit - 1, count - 1);
    }
}

/// COBS-encode `raw`, without a delimiter.
pub fn cobs_encode(raw: &[u8]) -> (encoded: Vec<u8>)
    requires
        raw@.len() + raw@.len() as int / FULL_RUN as int + 1 <= usize::MAX,
    ensures
        encoded@ == stuffed(raw@),
{
    let mut encoded: Vec<u8> = Vec::with_capacity(raw.len() + (raw.len() / FULL_RUN) + 1);
    let mut code_index: usize = 0;
    let mut code: u8 = 1;
    encoded.push(0);
    let mut next: usize = 0;
    assert(encoded@.skip(1) + raw@.skip(0) =~= raw@);
    assert(encoded@.take(0) + stuffed(raw@) =~= stuffed(raw@));
    while next < raw.len()
        invariant
            next <= raw@.len(),
            code_index < encoded@.len(),
            1 <= code <= FULL_RUN,
            code == encoded@.len() - code_index,
            zero_free(encoded@.skip(code_index + 1)),
            encoded@.take(code_index as int) + stuffed(
                encoded@.skip(code_index + 1) + raw@.skip(next as int),
            ) == stuffed(raw@),
        decreases raw@.len() - next,
    {
        let byte = raw[next];
        let ghost before = encoded@;
        let ghost pending = before.skip(code_index + 1);
        let ghost rest = raw@.skip(next as int);
        let ghost upcoming = pending + rest;
        if byte == 0 {
            proof {
                assert(upcoming.take(pending.len() as int) =~= pending);
                lemma_run_is(upcoming, FULL_RUN as int, pending.len() as int);
                assert(upcoming.skip(pending.len() as int + 1) =~= raw@.skip(next + 1));
            }
            encoded[code_index] = code;
            code_index = encoded.len();
            encoded.push(0);
            code = 1;
            proof {
                assert(encoded@.skip(code_index + 1) + raw@.skip(next + 1) =~= raw@.skip(next + 1));
                assert(encoded@.take(code_index as int) =~= before.take(
                    code_index - pending.len() - 1,
                ) + (seq![(pending.len() + 1) as u8] + pending));
                assert(encoded@.take(code_index as int) + stuffed(raw@.skip(next + 1))
                    =~= before.take(code_index - pending.len() - 1) + stuffed(upcoming));
            }
            next += 1;
            continue ;
        }
        encoded.push(byte);
        code += 1;
        proof {
            assert(encoded@.skip(code_index + 1) =~= pending.push(byte));
            assert(encoded@.skip(code_index + 1) + raw@.skip(next + 1) =~= upcoming);
            assert(encoded@.take(code_index as int) =~= before.take(code_index as int));
        }
        if code == 0xFF {
            let ghost filled = encoded@;
            let ghost block = pending.push(byte);
            proof {
                assert(upcoming.take(254) =~= block);
                lemma_run_is(upcoming, FULL_RUN as int, 254);
                assert(upcoming.skip(254) =~= raw@.skip(next + 1));
            }
            encoded[code_index] = code;
            code_index = encoded.len();
            encoded.push(0);
            code = 1;
            proof {
                assert(encoded@.skip(code_index + 1) + raw@.skip(next + 1) =~= raw@.skip(next + 1));
                assert(encoded@.take(code_index as int) =~= before.take(code_index - 255) + (
                seq![0xFFu8] + block));
                assert(encoded@.take(code_index as int) + stuffed(raw@.skip(next + 1))
                    =~= before.take(code_index - 255) + stuffed(upcoming));
            }
        }
        next += 1;
    }
    proof {
        let pending = encoded@.skip(code_index + 1);
        assert(pending + raw@.skip(next as int) =~= pending);
        assert(pending.take(pending.len() as int) =~= pending);
        lemma_run_is(pending, FULL_RUN as int, pending.len() as int);
    }
    let ghost before = encoded@;
    encoded[code_index] = code;
    assert(encoded@ =~= before.take(code_index as int) + (seq![code] + before.skip(
        code_index + 1,
    )));
    encoded
}

/// The bytes that `encoded` stands for, or `None` where it is no COBS encoding.
pub fn cobs_decode(encoded: &[u8]) -> (raw: Option<Vec<u8>>)
    ensures
        match raw {
            Some(bytes) => unstuffed(encoded@) == Some(bytes@),
            None => unstuffed(encoded@) is None,
        },
{
    if encoded.len() == 0 {
        return None;
    }
    let mut raw: Vec<u8> = Vec::with_capacity(encoded.len());
    let mut offset: usize = 0;
    assert(encoded@.skip(0) =~= encoded@);
    proof {
        if unstuffed(encoded@) is Some {
            assert(raw@ + unstuffed(encoded@)->0 =~= unstuffed(encoded@)->0);
        }
    }
    while offset < encoded.len()
        invariant
            offset <= encoded@.len(),
            offset < encoded@.len() ==> (match unstuffed(encoded@.skip(offset as int)) {
                Some(tail) => unstuffed(encoded@) == Some(raw@ + tail),
                None => unstuffed(encoded@) is None,
            }),
            offset == encoded@.len() ==> unstuffed(encoded@) == Some(raw@),
        decreases encoded@.len() - offset,
    {
        let ghost here = encoded@.skip(offset as int);
        let ghost decoded = raw@;
        let code = encoded[offset];
        if code == 0 {
            return None;
        }
        offset += 1;
        let data_len: usize = code as usize - 1;
        if data_len > encoded.len() - offset {
            return None;
        }
        let end: usize = offset + data_len;
        let block = vstd::slice::slice_subrange(encoded, offset, end);
        raw.extend_from_slice(block);
        proof {
            assert(block@ =~= here.subrange(1, code as int));
            assert(raw@ =~= decoded + block@);
            assert(encoded@.skip(end as int) =~= here.skip(code as int));
        }
        offset = end;
        if code != 0xFF && offset < encoded.len() {
            raw.push(0);
        }
        proof {
            if offset < encoded@.len() {
                let joint = if code == 0xFF { Seq::<u8>::empty() } else { seq![0u8] };
                assert(raw@ =~= decoded + (block@ + joint));
                match unstuffed(encoded@.skip(offset as int)) {
                    Some(tail) => {
                        assert(decoded + (block@ + joint + tail) =~= raw@ + tail);
                    },
                    None => {},
                }
            }
        }
    }
    Some(raw)
}

/// Decoding gives back what was encoded.
pub proof fn cobs_round_trip(raw: Seq<u8>)
    ensures
        unstuffed(stuffed(raw)) == Some(raw),
    decreases raw.len(),
{
    let run = leading_run(raw, FULL_RUN as int);
    let encoded = stuffed(raw);
    lemma_leading_run(raw, FULL_RUN as int);
    cobs_is_zero_free(raw);
    assert(encoded[0] == run + 1);
    assert(encoded.subrange(1, run + 1) =~= raw.take(run));
    if run == FULL_RUN {
        cobs_round_trip(raw.skip(run));
        cobs_length(raw.skip(run));
        assert(encoded.skip(run + 1) =~= stuffed(raw.skip(run)));
        assert(raw.take(run) + Seq::<u8>::empty() + raw.skip(run) =~= raw);
    } else if run == raw.len() {
        assert(raw.take(run) =~= raw);
    } else {
        cobs_round_trip(raw.skip(run + 1));
        cobs_length(raw.skip(run + 1));
        assert(encoded.skip(run + 1) =~= stuffed(raw.skip(run + 1)));
        assert(raw.take(run) + seq![0u8] + raw.skip(run + 1) =~= raw);
    }
}

/// An encoding holds no zero byte, so that a zero can delimit frames.
pub proof fn cobs_is_zero_free(raw: Seq<u8>)
    ensures
        zero_free(stuffed(raw)),
    decreases raw.len(),
{
    let run = leading_run(raw, FULL_RUN as int);
    lemma_leading_run(raw, FULL_RUN as int);
    let head = raw.take(run);
    if run == FULL_RUN {
        cobs_is_zero_free(raw.skip(run));
    } else if run == raw.len() {
        assert(head =~= raw);
    } else {
        cobs_is_zero_free(raw.skip(run + 1));
    }
}

/// An encoding is at least one byte longer than its data, and by no more than
/// one byte for the first block and one for every 254 bytes.
pub proof fn cobs_length(raw: Seq<u8>)
    ensures
        raw.len() + 1 <= stuffed(raw).len() <= raw.len() + raw.len() as int / FULL_RUN as int + 1,
    decreases raw.len(),
{
    let run = leading_run(raw, FULL_RUN as int);
    lemma_leading_run(raw, FULL_RUN as int);
    if run == FULL_RUN {
        cobs_length(raw.skip(run));
    } else if run == raw.len() {
    } else {
        cobs_length(raw.skip(run + 1));
    }
}

/// An encoding starts with how far away the first zero is, counting from one,
/// and the bytes before it; the rest encodes what follows that zero. Where there
/// is none within 254 bytes it starts with 0xFF and those bytes, and where there
/// is none at all it ends there.
pub proof fn encodings_count_to_the_next_zero(raw: Seq<u8>)
    ensures
        ({
            let encoded = stuffed(raw);
            let count = encoded[0] as int;
            &&& 1 <= count <= encoded.len()
            &&& count - 1 <= raw.len()
            &&& encoded.subrange(1, count) == raw.take(count - 1)
            &&& forall|i: int| 0 <= i < count - 1 ==> raw[i] != 0
            &&& count == 0xFF ==> encoded.skip(0xFF) == stuffed(raw.skip(254))
            &&& count < 0xFF && count - 1 == raw.len() ==> encoded.len() == count
            &&& count < 0xFF && count - 1 < raw.len() ==> raw[count - 1] == 0 && encoded.skip(count)
                == stuffed(raw.skip(count))
        }),
{
    let run = leading_run(raw, FULL_RUN as int);
    let encoded = stuffed(raw);
    lemma_leading_run(raw, FULL_RUN as int);
    assert(encoded[0] == run + 1);
    assert(encoded.subrange(1, run + 1) =~= raw.take(run));
    assert forall|i: int| 0 <= i < run implies raw[i] != 0 by {
        assert(raw.take(run)[i] == raw[i]);
    }
    if run == FULL_RUN {
        assert(encoded.skip(0xFF) =~= stuffed(raw.skip(254)));
    } else if run < raw.len() {
        assert(encoded.skip(run + 1) =~= stuffed(raw.skip(run + 1)));
    }
}

/// Decoding takes block after block: a count that is not zero, one byte fewer
/// than it says, and a zero between this block and the next unless the block is
/// a longest one. What is not made of such blocks is refused.
pub proof fn decoding_goes_by_blocks(encoded: Seq<u8>)
    ensures
        encoded.len() == 0 ==> unstuffed(encoded) is None,
        encoded.len() > 0 && encoded[0] == 0 ==> unstuffed(encoded) is None,
        encoded.len() > 0 && encoded[0] > encoded.len() ==> unstuffed(encoded) is None,
        encoded.len() > 0 && encoded[0] == encoded.len() ==> unstuffed(encoded) == Some(
            encoded.skip(1),
        ),
        encoded.len() > 0 && 0 < encoded[0] < encoded.len() ==> {
            let rest = unstuffed(encoded.skip(encoded[0] as int));
            &&& unstuffed(encoded) is None <==> rest is None
            &&& rest is Some && encoded[0] < 0xFF ==> unstuffed(encoded) == Some(
                encoded.subrange(1, encoded[0] as int).push(0) + rest->0,
            )
            &&& rest is Some && encoded[0] == 0xFF ==> unstuffed(encoded) == Some(
                encoded.subrange(1, 0xFF) + rest->0,
            )
        },
{
    if encoded.len() > 0 && encoded[0] == encoded.len() {
        assert(encoded.subrange(1, encoded[0] as int) =~= encoded.skip(1));
    }
    if encoded.len() > 0 && 0 < encoded[0] < encoded.len() {
        let code = encoded[0] as int;
        if let Some(tail) = unstuffed(encoded.skip(code)) {
            let block = encoded.subrange(1, code);
            assert(block + seq![0u8] + tail =~= block.push(0) + tail);
            assert(block + Seq::<u8>::empty() + tail =~= block + tail);
        }
    }
}

} // verus!
