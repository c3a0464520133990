use crate::cursor::CursorState;
use crate::matcher::{scanned, CharMatcher};
use crate::stream::{
    decode_nth, decode_stream, lemma_decode_stream_len, lemma_decode_stream_valid,
    lemma_stream_at_is_nth_step,
};
use crate::util::ParseError;
use vstd::prelude::*;
use vstd::utf8::*;

verus! {

/// Looks, moves and new views keep a valid state valid.
pub proof fn lemma_steps_keep_valid(state: CursorState, count: nat)
    requires
        state.valid(),
    ensures
        state.observed(count).valid(),
        state.can_consume(count) ==> state.advanced(count).valid(),
        count <= state.local_index() ==> state.rewound(count).valid(),
        state.derived().valid(),
        state.depth() >= 1 ==> state.parent().valid() && state.applied().valid(),
{
    let depth = state.marks.len() as int;
    assert(state.marks[depth - 1] <= state.marks[depth - 1]);
    if depth >= 2 {
        assert(state.marks[depth - 2] <= state.marks[depth - 1]);
        assert(state.parent().marks[depth - 2] == state.marks[depth - 2]);
        assert(state.local_index() == state.marks[depth - 1] - state.marks[depth - 2]);
        assert(state.applied().marks[depth - 2] == state.marks[depth - 1]);
        assert forall|i: int, j: int| 0 <= i <= j < depth - 1 implies state.applied().marks[i]
            <= state.applied().marks[j] by {
            assert(state.marks[i] <= state.marks[j]);
            assert(state.marks[i] <= state.marks[depth - 1]);
        }
    }
    if count <= state.local_index() {
        let back = state.rewound(count);
        assert forall|i: int, j: int| 0 <= i <= j < depth implies back.marks[i] <= back.marks[j] by {
            assert(state.marks[i] <= state.marks[j]);
            if depth >= 2 && i < depth - 1 {
                assert(state.marks[i] <= state.marks[depth - 2]);
            }
        }
    }
    if state.can_consume(count) {
        let on = state.advanced(count);
        assert forall|i: int, j: int| 0 <= i <= j < depth implies on.marks[i] <= on.marks[j] by {
            assert(state.marks[i] <= state.marks[j]);
        }
    }
    let inner = state.derived();
    assert forall|i: int, j: int| 0 <= i <= j < depth + 1 implies inner.marks[i] <= inner.marks[j] by {
        if j < depth {
            assert(state.marks[i] <= state.marks[j]);
        } else if i < depth {
            assert(state.marks[i] <= state.marks[depth - 1]);
        }
    }
}

/// A fresh cursor on fewer bytes than the machine can count can be
/// scanned to its end.
pub proof fn lemma_fresh_cursor_scannable(bytes: Seq<u8>, broken: bool)
    requires
        bytes.len() < usize::MAX,
    ensures
        CursorState::start(decode_stream(bytes, broken)).valid(),
        CursorState::start(decode_stream(bytes, broken)).scannable(),
        CursorState::start(decode_stream(bytes, broken)).derived().scannable(),
{
    lemma_decode_stream_len(bytes, broken);
}

/// Memoization: looks, however many and in whatever order, leave the place
/// and what stands at every offset as they were.
pub proof fn lemma_looks_change_nothing(state: CursorState, offsets: Seq<nat>, offset: nat)
    ensures
        state.observed_all(offsets).stream == state.stream,
        state.observed_all(offsets).marks == state.marks,
        state.observed_all(offsets).position() == state.position(),
        state.observed_all(offsets).peek(offset) == state.peek(offset),
    decreases offsets.len(),
{
    if offsets.len() > 0 {
        lemma_looks_change_nothing(state, offsets.drop_last(), offset);
    }
}

/// Idempotence of lookups on a fresh cursor: after any looks, what stands
/// at `offset` is what decoding the bytes of the source step by step gives
/// at step `offset`.
pub proof fn lemma_looks_match_decoding(
    bytes: Seq<u8>,
    broken: bool,
    offsets: Seq<nat>,
    offset: nat,
)
    ensures
        CursorState::start(decode_stream(bytes, broken)).observed_all(offsets).peek(offset)
            == decode_nth(bytes, broken, offset),
{
    let state = CursorState::start(decode_stream(bytes, broken));
    lemma_looks_change_nothing(state, offsets, offset);
    lemma_stream_at_is_nth_step(bytes, broken, offset);
}

/// Where a state stands after `count` steps, and how far decoding has gone.
pub proof fn lemma_stepped(state: CursorState, count: nat)
    requires
        state.valid(),
    ensures
        state.stepped(count) == state.decoded_to(state.position() + count).advanced(count),
        state.stepped(count).valid(),
    decreases count,
{
    if count == 0 {
        assert(state.advanced(0).marks =~= state.marks);
    } else {
        let before = state.stepped((count - 1) as nat);
        lemma_stepped(state, (count - 1) as nat);
        assert(state.stepped(count).marks =~= state.decoded_to(
            state.position() + count,
        ).advanced(count).marks);
        lemma_steps_keep_valid(before, 0);
        lemma_steps_keep_valid(before.observed(0), 1);
    }
}

/// Round trip through a cursor: on a source that holds valid UTF-8 and ends
/// cleanly, step number `k` of a fresh cursor gives character number `k` of
/// what the bytes encode, and the step after the last character gives the
/// end of the input.
pub proof fn lemma_cursor_round_trip(bytes: Seq<u8>, k: nat)
    requires
        valid_utf8(bytes),
        k <= decode_utf8(bytes).len(),
    ensures
        CursorState::start(decode_stream(bytes, false)).stepped(k).peek(0) == if k < decode_utf8(
            bytes,
        ).len() {
            Some(Ok::<char, ParseError>(decode_utf8(bytes)[k as int]))
        } else {
            None
        },
{
    lemma_decode_stream_valid(bytes, false);
    let state = CursorState::start(decode_stream(bytes, false));
    lemma_stepped(state, k);
}

/// Commit correctness: after `count` places have been consumed, offset
/// `offset` holds what offset `count + offset` held before.
pub proof fn lemma_consume_then_get(state: CursorState, count: nat, offset: nat)
    requires
        state.valid(),
    ensures
        state.advanced(count).peek(offset) == state.peek(count + offset),
        state.advanced(count).position() == state.position() + count,
{
}

/// Discarding is free: whatever a view does, short of being applied, its
/// parent stands where it stood and finds the same at every offset.
pub proof fn lemma_discard_is_free(view: CursorState, count: nat, offset: nat)
    requires
        view.valid(),
        view.depth() >= 1,
    ensures
        view.observed(count).parent().marks == view.parent().marks,
        view.advanced(count).parent() == view.parent(),
        view.rewound(count).parent() == view.parent(),
        view.observed(count).parent().position() == view.parent().position(),
        view.observed(count).parent().peek(offset) == view.parent().peek(offset),
        view.parent().derived().parent() == view.parent(),
{
    assert(view.advanced(count).parent().marks =~= view.parent().marks);
    assert(view.rewound(count).parent().marks =~= view.parent().marks);
    assert(view.parent().derived().parent().marks =~= view.parent().marks);
}

/// Nested views: a view derived from `outer`, moved `count` steps on and
/// applied, leaves `outer` exactly `count` places on. Where `outer` is a
/// view itself, nothing outside it has moved: the cursor has committed what
/// it had committed.
pub proof fn lemma_nested_apply(outer: CursorState, count: nat)
    requires
        outer.valid(),
    ensures
        outer.derived().stepped(count).applied() == outer.decoded_to(
            outer.position() + count,
        ).advanced(count),
        outer.derived().stepped(count).applied().local_index() == outer.local_index() + count,
        outer.derived().stepped(count).applied().marks.drop_last() == outer.marks.drop_last(),
        outer.depth() >= 1 ==> outer.derived().stepped(count).applied().committed()
            == outer.committed(),
{
    let inner = outer.derived();
    lemma_steps_keep_valid(outer, 0);
    lemma_stepped(inner, count);
    let moved = inner.stepped(count);
    let depth = outer.marks.len() as int;
    assert(moved.marks[depth] == outer.position() + count);
    assert(moved.marks[depth - 1] == outer.position());
    assert(moved.local_index() == count);
    assert(moved.parent().marks =~= outer.marks);
    let folded = moved.applied();
    assert(folded.marks =~= outer.advanced(count).marks);
    assert(folded.marks.drop_last() =~= outer.marks.drop_last());
}

/// A scan gives exactly the run that the matcher takes: where `cm` can only
/// accept each of the first `count` values and can only refuse the one
/// after them, every scan passes exactly these `count` values, fails with
/// nothing, and leaves the value after them at the position.
pub proof fn lemma_scan_exact<M: CharMatcher>(
    cm: &M,
    before: CursorState,
    count: nat,
    passed: nat,
    failure: Option<ParseError>,
    after: CursorState,
)
    requires
        before.valid(),
        before.peek(count) matches Some(Ok(ch)) && !cm.verdict(ch, true),
        forall|k: int|
            before.position() <= k < before.position() + count ==> !cm.verdict(
                #[trigger] before.stream.values[k],
                false,
            ),
        scanned(cm, before, passed, failure, after),
    ensures
        passed == count,
        failure is None,
        after.position() == before.position() + count,
        after.peek(0) == before.peek(count),
{
    let at = before.position() as int;
    if passed > count {
        assert(cm.verdict(before.stream.values[at + count], true));
    }
    if passed < count {
        assert(!cm.verdict(before.stream.values[at + passed], false));
    }
}

} // verus!
