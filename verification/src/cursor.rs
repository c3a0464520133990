use crate::stream::Stream;
use crate::util::ParseError;
use vstd::prelude::*;

verus! {

/// What a cursor, or a view on one, stands for.
///
/// `stream` is the whole input, decoded, and never changes. `marks` holds
/// absolute positions, outermost first: how many values the cursor itself
/// has committed, then the place of each open view down to this one. `seen`
/// counts the slots of the stream that have been decoded so far, the slot
/// after the last value being the one that holds what ended the stream.
pub struct CursorState {
    pub stream: Stream,
    pub marks: Seq<nat>,
    pub seen: nat,
}

impl CursorState {
    /// The state of a cursor that has just been set on `stream`.
    pub open spec fn start(stream: Stream) -> CursorState {
        CursorState { stream, marks: seq![0nat], seen: 0 }
    }

    /// What every state of a cursor or view satisfies.
    pub open spec fn valid(self) -> bool {
        &&& self.marks.len() >= 1
        &&& forall|i: int, j: int| 0 <= i <= j < self.marks.len() ==> self.marks[i] <= self.marks[j]
        &&& self.seen <= self.stream.values.len() + 1
        &&& (self.faulted() || self.position() <= self.seen)
    }

    /// The absolute place at which this cursor or view stands.
    pub open spec fn position(self) -> nat {
        self.marks.last()
    }

    /// How many values the underlying cursor has committed.
    pub open spec fn committed(self) -> nat {
        self.marks[0]
    }

    /// How many views are open down to this one: 0 for the cursor itself.
    pub open spec fn depth(self) -> nat {
        (self.marks.len() - 1) as nat
    }

    /// How far this view stands from its parent; for the cursor itself, from
    /// the start of the input.
    pub open spec fn local_index(self) -> nat {
        if self.marks.len() >= 2 {
            (self.marks.last() - self.marks[self.marks.len() - 2]) as nat
        } else {
            self.marks.last()
        }
    }

    /// Whether decoding has reached what ends the stream.
    pub open spec fn faulted(self) -> bool {
        self.seen > self.stream.values.len()
    }

    /// How many values stand between the position and the end of the
    /// stream.
    pub open spec fn remaining(self) -> nat {
        if self.position() <= self.stream.values.len() {
            (self.stream.values.len() - self.position()) as nat
        } else {
            0
        }
    }

    /// Whether a scan from here to the end of the stream, and one place
    /// past it, stays within the numbers of the machine.
    pub open spec fn scannable(self) -> bool {
        self.position() < usize::MAX && self.stream.values.len() < usize::MAX
    }

    /// The `count` values from the position on.
    pub open spec fn run(self, count: nat) -> Seq<char>
        recommends
            self.position() + count <= self.stream.values.len(),
    {
        Seq::new(count, |i: int| self.stream.values[self.position() + i])
    }

    /// What stands `offset` places ahead.
    pub open spec fn peek(self, offset: nat) -> Option<Result<char, ParseError>> {
        self.stream.at(self.position() + offset)
    }

    /// The state once decoding has gone on to the absolute place `limit`,
    /// or to what ends the stream where that comes first. Decoding that has
    /// gone further already stays where it is.
    pub open spec fn decoded_to(self, limit: nat) -> CursorState {
        let end = self.stream.values.len() + 1;
        let reached = if limit <= end {
            limit
        } else {
            end
        };
        CursorState {
            seen: if self.seen >= reached {
                self.seen
            } else {
                reached
            },
            ..self
        }
    }

    /// The state after a look `offset` places ahead: decoding has gone on as
    /// far as the look needed.
    pub open spec fn observed(self, offset: nat) -> CursorState {
        self.decoded_to(self.position() + offset + 1)
    }

    /// The state after looks at the offsets in `offsets`, one after the
    /// other.
    pub open spec fn observed_all(self, offsets: Seq<nat>) -> CursorState
        decreases offsets.len(),
    {
        if offsets.len() == 0 {
            self
        } else {
            self.observed_all(offsets.drop_last()).observed(offsets.last())
        }
    }

    /// The state after `count` steps, each a look at the position and a move
    /// one place on.
    pub open spec fn stepped(self, count: nat) -> CursorState
        decreases count,
    {
        if count == 0 {
            self
        } else {
            self.stepped((count - 1) as nat).observed(0).advanced(1)
        }
    }

    /// Whether what stands `offset` places ahead is known without reading
    /// on: it has been decoded, or decoding has reached what ends the stream.
    pub open spec fn settled(self, offset: nat) -> bool {
        self.faulted() || self.position() + offset < self.seen
    }

    /// Whether `count` places may be passed over: they have all been looked
    /// at, or the stream has faulted.
    pub open spec fn can_consume(self, count: nat) -> bool {
        self.faulted() || self.position() + count <= self.seen
    }

    /// The state `count` places on.
    pub open spec fn advanced(self, count: nat) -> CursorState {
        CursorState {
            marks: self.marks.update(self.marks.len() - 1, self.marks.last() + count),
            ..self
        }
    }

    /// The state `amount` places back.
    pub open spec fn rewound(self, amount: nat) -> CursorState
        recommends
            amount <= self.local_index(),
    {
        CursorState {
            marks: self.marks.update(
                self.marks.len() - 1,
                (self.marks.last() - amount) as nat,
            ),
            ..self
        }
    }

    /// The state of a new view on this cursor or view.
    pub open spec fn derived(self) -> CursorState {
        CursorState { marks: self.marks.push(self.marks.last()), ..self }
    }

    /// The state of a view that stands at `place` on a cursor in this
    /// state, with the views outside it standing at the places of `trail`,
    /// outermost first.
    pub open spec fn viewed(self, trail: Seq<nat>, place: nat) -> CursorState {
        CursorState { marks: (self.marks + trail).push(place), ..self }
    }

    /// The state of the parent while this view is open, and after it has
    /// been dropped.
    pub open spec fn parent(self) -> CursorState
        recommends
            self.marks.len() >= 2,
    {
        CursorState { marks: self.marks.drop_last(), ..self }
    }

    /// The state of the parent after this view has been applied.
    pub open spec fn applied(self) -> CursorState
        recommends
            self.marks.len() >= 2,
    {
        self.parent().advanced(self.local_index())
    }
}

/// Whether a chain of views on a cursor that stands at `origin` hangs
/// together: `trail` holds the places of the views outside the innermost
/// one, which began `start` places from `origin`, and `outer` is the count
/// of the view directly outside it, if there is one.
pub open spec fn chain_fits(origin: nat, trail: Seq<nat>, start: nat, outer: Option<nat>) -> bool {
    if trail.len() == 0 {
        &&& outer is None
        &&& start == 0
    } else {
        &&& outer matches Some(count)
        &&& origin <= trail[0]
        &&& forall|i: int, j: int| 0 <= i <= j < trail.len() ==> trail[i] <= trail[j]
        &&& trail.last() == origin + start
        &&& trail.last() - count == if trail.len() >= 2 {
            trail[trail.len() - 2]
        } else {
            origin
        }
    }
}

/// A view at the end of a chain that hangs together, on a cursor in a valid
/// state, is in a valid state itself.
pub proof fn lemma_viewed_valid(
    root: CursorState,
    trail: Seq<nat>,
    start: nat,
    outer: Option<nat>,
    place: nat,
)
    requires
        root.valid(),
        chain_fits(root.position(), trail, start, outer),
        root.position() + start <= place,
        root.faulted() || place <= root.seen,
    ensures
        root.viewed(trail, place).valid(),
        root.viewed(trail, place).position() == place,
        root.viewed(trail, place).local_index() == place - root.position() - start,
        root.viewed(trail, place).committed() == root.committed(),
{
    let marks = root.viewed(trail, place).marks;
    let outside = root.marks + trail;
    let depth = root.marks.len() as int;
    assert forall|i: int, j: int| 0 <= i <= j < marks.len() implies marks[i] <= marks[j] by {
        if j < depth {
        } else if i < depth {
            assert(marks[i] <= root.marks[depth - 1]);
            if j < outside.len() {
                assert(marks[j] == trail[j - depth]);
                assert(trail[0] <= trail[j - depth]);
            }
        } else if j < outside.len() {
            assert(marks[i] == trail[i - depth]);
            assert(marks[j] == trail[j - depth]);
        } else if i < outside.len() {
            assert(marks[i] == trail[i - depth]);
            assert(trail[i - depth] <= trail[trail.len() - 1]);
        }
    }
    if trail.len() > 0 {
        assert(marks[marks.len() - 2] == trail[trail.len() - 1]);
    } else {
        assert(marks[marks.len() - 2] == root.marks[depth - 1]);
    }
    assert(marks[0] == root.marks[0]);
}

} // verus!
