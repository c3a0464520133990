use crate::char_parsing::{decode_scalar, lemma_decode_scalar_standard};
use crate::util::ParseError;
use vstd::prelude::*;
use vstd::utf8::*;

verus! {

/// A whole input, decoded: the scalar values up to the place where decoding
/// stops, and why it stops there (`None` for the end of the input).
pub struct Stream {
    pub values: Seq<char>,
    pub fault: Option<ParseError>,
}

impl Stream {
    /// What a scan finds at `index`: the value there, or past the last
    /// value, whatever ended the stream.
    pub open spec fn at(self, index: nat) -> Option<Result<char, ParseError>> {
        if index < self.values.len() {
            Some(Ok(self.values[index as int]))
        } else {
            match self.fault {
                Some(err) => Some(Err(err)),
                None => None,
            }
        }
    }

    /// The stream without its first `count` values.
    pub open spec fn skip(self, count: nat) -> Stream
        recommends
            count <= self.values.len(),
    {
        Stream { values: self.values.skip(count as int), fault: self.fault }
    }
}

/// Decoding `bytes` one scalar value after the other, until a step gives no
/// value.
pub open spec fn decode_stream(bytes: Seq<u8>, broken: bool) -> Stream
    decreases bytes.len(),
{
    let step = decode_scalar(bytes, broken);
    match step.result {
        Some(Ok(c)) => {
            let rest = decode_stream(bytes.skip(step.used as int), broken);
            Stream { values: seq![c] + rest.values, fault: rest.fault }
        },
        Some(Err(err)) => Stream { values: Seq::empty(), fault: Some(err) },
        None => Stream { values: Seq::empty(), fault: None },
    }
}

/// What the step number `k` gives when `bytes` is decoded step by step from
/// the front, stopping at the first step that gives no value.
pub open spec fn decode_nth(bytes: Seq<u8>, broken: bool, k: nat) -> Option<
    Result<char, ParseError>,
>
    decreases k,
{
    let step = decode_scalar(bytes, broken);
    if k == 0 {
        step.result
    } else {
        match step.result {
            Some(Ok(_)) => decode_nth(bytes.skip(step.used as int), broken, (k - 1) as nat),
            other => other,
        }
    }
}

/// How many bytes the first `steps` decoding steps take from `bytes`. A
/// step that gives no value is the last one that takes any.
pub open spec fn bytes_taken(bytes: Seq<u8>, broken: bool, steps: nat) -> nat
    decreases steps,
{
    let step = decode_scalar(bytes, broken);
    if steps == 0 {
        0
    } else {
        match step.result {
            Some(Ok(_)) => step.used + bytes_taken(
                bytes.skip(step.used as int),
                broken,
                (steps - 1) as nat,
            ),
            _ => step.used,
        }
    }
}

/// Step number `steps` of decoding `bytes`, for as long as every step
/// before it gave a value: it starts where the steps before it stopped,
/// what is left there decodes to the rest of the stream, and its bytes are
/// those that it adds to what has been taken.
pub proof fn lemma_bytes_taken_next(bytes: Seq<u8>, broken: bool, steps: nat)
    requires
        steps <= decode_stream(bytes, broken).values.len(),
    ensures
        bytes_taken(bytes, broken, steps) <= bytes.len(),
        decode_stream(bytes.skip(bytes_taken(bytes, broken, steps) as int), broken)
            == decode_stream(bytes, broken).skip(steps),
        bytes_taken(bytes, broken, steps + 1) == bytes_taken(bytes, broken, steps) + decode_scalar(
            bytes.skip(bytes_taken(bytes, broken, steps) as int),
            broken,
        ).used,
        bytes_taken(bytes, broken, steps + 1) <= bytes.len(),
    decreases steps,
{
    let step = decode_scalar(bytes, broken);
    let stream = decode_stream(bytes, broken);
    if steps == 0 {
        assert(bytes.skip(0) =~= bytes);
        assert(stream.skip(0).values =~= stream.values);
        assert(bytes_taken(bytes.skip(step.used as int), broken, 0) == 0);
    } else {
        let rest = bytes.skip(step.used as int);
        let before = bytes_taken(rest, broken, (steps - 1) as nat);
        lemma_bytes_taken_next(rest, broken, (steps - 1) as nat);
        assert(bytes.skip((step.used + before) as int) =~= rest.skip(before as int));
        assert(bytes_taken(bytes, broken, steps) == step.used + before);
        assert(decode_stream(rest, broken).skip((steps - 1) as nat).values =~= stream.skip(
            steps,
        ).values);
    }
}

/// One step of `decode_stream`, seen from a stream of which the decoded
/// bytes are the tail from `from` on.
///
/// Where the step gives a value, it is the value at `from`, and what is left
/// of the bytes decodes to the tail from `from + 1` on. Where it gives none,
/// the stream has no value at `from` and ends as the step did.
pub proof fn lemma_decode_stream_step(bytes: Seq<u8>, broken: bool, stream: Stream, from: nat)
    requires
        from <= stream.values.len(),
        decode_stream(bytes, broken) == stream.skip(from),
    ensures
        decode_scalar(bytes, broken).result == stream.at(from),
        decode_scalar(bytes, broken).result matches Some(Ok(_)) ==> {
            &&& from < stream.values.len()
            &&& decode_stream(bytes.skip(decode_scalar(bytes, broken).used as int), broken)
                == stream.skip(from + 1)
        },
        !(decode_scalar(bytes, broken).result matches Some(Ok(_))) ==> from
            == stream.values.len(),
{
    let step = decode_scalar(bytes, broken);
    let tail = stream.skip(from);
    match step.result {
        Some(Ok(c)) => {
            let rest = decode_stream(bytes.skip(step.used as int), broken);
            assert(tail.values == seq![c] + rest.values);
            assert(tail.values.len() > 0);
            assert(tail.values[0] == c);
            assert(rest.values =~= stream.values.skip(from as int + 1)) by {
                assert(rest.values =~= tail.values.skip(1));
            }
        },
        _ => {
            assert(tail.values.len() == 0);
        },
    }
}

/// Idempotence of lookups: what a stream holds at `k` is what decoding the
/// bytes step by step gives at step `k`.
pub proof fn lemma_stream_at_is_nth_step(bytes: Seq<u8>, broken: bool, k: nat)
    ensures
        decode_stream(bytes, broken).at(k) == decode_nth(bytes, broken, k),
    decreases k,
{
    let step = decode_scalar(bytes, broken);
    let stream = decode_stream(bytes, broken);
    assert(stream.skip(0).values =~= stream.values);
    lemma_decode_stream_step(bytes, broken, stream, 0);
    if k > 0 {
        if let Some(Ok(c)) = step.result {
            let rest = decode_stream(bytes.skip(step.used as int), broken);
            lemma_stream_at_is_nth_step(bytes.skip(step.used as int), broken, (k - 1) as nat);
            assert(rest == stream.skip(1));
            if k < stream.values.len() {
                assert(rest.values[k - 1] == stream.values[k as int]);
            }
        }
    }
}

/// A stream holds at most one value for each byte.
pub proof fn lemma_decode_stream_len(bytes: Seq<u8>, broken: bool)
    ensures
        decode_stream(bytes, broken).values.len() <= bytes.len(),
    decreases bytes.len(),
{
    let step = decode_scalar(bytes, broken);
    if step.result matches Some(Ok(_)) {
        lemma_decode_stream_len(bytes.skip(step.used as int), broken);
    }
}

/// Round trip, over bytes: a valid UTF-8 sequence decodes, value by value,
/// to exactly the characters that it encodes, and then ends as the source
/// does.
pub proof fn lemma_decode_stream_valid(bytes: Seq<u8>, broken: bool)
    requires
        valid_utf8(bytes),
    ensures
        decode_stream(bytes, broken) == (Stream {
            values: decode_utf8(bytes),
            fault: if broken {
                Some(ParseError::Source)
            } else {
                None
            },
        }),
    decreases bytes.len(),
{
    if bytes.len() == 0 {
        assert(decode_stream(bytes, broken).values =~= decode_utf8(bytes));
    } else {
        lemma_decode_scalar_standard(bytes, broken);
        let rest = pop_first_scalar(bytes);
        assert(rest == bytes.skip(length_of_first_scalar(bytes)));
        lemma_decode_stream_valid(rest, broken);
        assert(decode_stream(bytes, broken).values =~= decode_utf8(bytes));
    }
}

/// Round trip, over characters: the encoding of `chars` decodes to `chars`
/// and a clean end.
pub proof fn lemma_round_trip(chars: Seq<char>)
    ensures
        decode_stream(encode_utf8(chars), false) == (Stream { values: chars, fault: None }),
{
    encode_utf8_valid_utf8(chars);
    encode_utf8_decode_utf8(chars);
    lemma_decode_stream_valid(encode_utf8(chars), false);
}

} // verus!
