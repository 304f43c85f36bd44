use vstd::prelude::*;
use crate::buffers::BufferError;
use crate::model::Cursor;
use crate::unstructured::{reduce_to_size, word_of, Unstructured};

verus! {

/// Reasons an operation on a [`FiniteBuffer`] fails.
#[derive(Debug, Clone, Copy, PartialEq, Eq, Structural)]
pub enum FBError {
    /// Fewer bytes remain in the window than the operation asked for.
    InsufficientBytes,
}

/// A byte supply that runs dry.
///
/// The window is served once, front to back. When it is used up, every
/// request for at least one byte fails until the supply is reset.
pub struct FiniteBuffer<'a> {
    buffer: &'a [u8],
    offset: usize,
    virtual_len: usize,
    container_size_limit: usize,
}

/// The cursors of a bounded supply: the position lies inside the window, and
/// the window inside the region.
pub open spec fn bounded_valid(c: Cursor) -> bool {
    c.offset <= c.virtual_len <= c.region.len()
}

/// The number of bytes between the position and the end of the window.
pub open spec fn bounded_remaining(c: Cursor) -> nat {
    (c.virtual_len - c.offset) as nat
}

/// A bounded supply can serve `n` bytes when that many remain.
pub open spec fn bounded_can_take(c: Cursor, n: nat) -> bool {
    n <= bounded_remaining(c)
}

/// The `n` bytes of the region that start at the position.
pub open spec fn bounded_taken(c: Cursor, n: nat) -> Seq<u8> {
    c.region.subrange(c.offset as int, (c.offset + n) as int)
}

/// Consuming `n` bytes moves the position forward by `n`.
pub open spec fn bounded_advanced(c: Cursor, n: nat) -> Cursor {
    c.at(c.offset + n)
}

/// A reset moves the position to the start and keeps the window as it is.
pub open spec fn bounded_rewound(c: Cursor) -> Cursor {
    c.at(0)
}

/// Halving the window moves its end; a position that the new end has passed
/// comes to rest on it, so the supply is then used up.
pub open spec fn bounded_halved(c: Cursor) -> Cursor {
    let half = c.virtual_len / 2;
    c.windowed(half).at(
        if c.offset <= half {
            c.offset
        } else {
            half
        },
    )
}

/// The sum of the lengths of a run of requests.
pub open spec fn run_total(lens: Seq<nat>) -> nat
    decreases lens.len(),
{
    if lens.len() == 0 {
        0
    } else {
        lens[0] + run_total(lens.drop_first())
    }
}

/// The cursor that a run of requests leaves behind, made one after the other
/// with the given lengths, or `None` where one of them is refused.
pub open spec fn bounded_run(c: Cursor, lens: Seq<nat>) -> Option<Cursor>
    decreases lens.len(),
{
    if lens.len() == 0 {
        Some(c)
    } else if bounded_can_take(c, lens[0]) {
        bounded_run(bounded_advanced(c, lens[0]), lens.drop_first())
    } else {
        None
    }
}

/// A run of requests is served in full exactly when its total length does not
/// exceed what remains, and it then moves the position by that total.
pub proof fn lemma_bounded_run(c: Cursor, lens: Seq<nat>)
    requires
        bounded_valid(c),
    ensures
        bounded_run(c, lens) is Some <==> run_total(lens) <= bounded_remaining(c),
        bounded_run(c, lens) is Some ==> bounded_run(c, lens)->Some_0 == c.at(
            c.offset + run_total(lens),
        ),
    decreases lens.len(),
{
    if lens.len() > 0 && bounded_can_take(c, lens[0]) {
        lemma_bounded_run(bounded_advanced(c, lens[0]), lens.drop_first());
    }
}

/// A supply over a region of any length serves every run of requests whose
/// lengths add up to that length, and is then used up: it refuses each
/// further request for one byte or more.
pub proof fn lemma_bounded_exhaustion(region: Seq<u8>, lens: Seq<nat>, next: nat)
    requires
        run_total(lens) == region.len(),
        next >= 1,
    ensures
        bounded_run(Cursor::fresh(region), lens) is Some,
        !bounded_can_take(bounded_run(Cursor::fresh(region), lens)->Some_0, next),
{
    lemma_bounded_run(Cursor::fresh(region), lens);
}

/// Skipping `k` bytes is refused exactly when fewer than `k` remain, and a
/// skip of `k` followed by a request for `n` is served exactly when `k + n`
/// bytes remain; from the start of the window, when `k + n` fits in it.
pub proof fn lemma_bounded_skip_then_fill(c: Cursor, k: nat, n: nat)
    requires
        bounded_valid(c),
    ensures
        !bounded_can_take(c, k) <==> k > c.virtual_len - c.offset,
        (bounded_can_take(c, k) && bounded_can_take(bounded_advanced(c, k), n)) <==> k + n
            <= c.virtual_len - c.offset,
        c.offset == 0 ==> ((bounded_can_take(c, k) && bounded_can_take(bounded_advanced(c, k), n))
            <==> k + n <= c.virtual_len),
        bounded_can_take(c, k) ==> bounded_valid(bounded_advanced(c, k)),
{
}

/// A supply over an empty region is valid and used up from the start.
pub proof fn lemma_bounded_empty_is_exhausted(n: nat)
    requires
        n >= 1,
    ensures
        bounded_valid(Cursor::fresh(Seq::<u8>::empty())),
        !bounded_can_take(Cursor::fresh(Seq::<u8>::empty()), n),
{
}

/// A reset does not give back what halving took: after halving and a reset
/// the supply serves the first half of the former window from its start, and
/// no more.
pub proof fn lemma_bounded_reset_keeps_shrunk_window(c: Cursor, n: nat)
    requires
        bounded_valid(c),
    ensures
        bounded_valid(bounded_rewound(bounded_halved(c))),
        bounded_rewound(bounded_halved(c)) == c.windowed(c.virtual_len / 2).at(0),
        bounded_can_take(bounded_rewound(bounded_halved(c)), n) <==> n <= c.virtual_len / 2,
        bounded_taken(bounded_rewound(bounded_halved(c)), n) == c.region.subrange(0, n as int),
{
}

impl<'a> View for FiniteBuffer<'a> {
    type V = Cursor;

    closed spec fn view(&self) -> Cursor {
        Cursor {
            region: self.buffer@,
            offset: self.offset as nat,
            virtual_len: self.virtual_len as nat,
            size_limit: self.container_size_limit as nat,
        }
    }
}

impl<'a> FiniteBuffer<'a> {
    /// Creates a supply over `buffer`. This always succeeds; over an empty
    /// region the supply is used up from the start.
    pub fn new(buffer: &'a [u8]) -> (r: Result<Self, BufferError>)
        ensures
            r is Ok,
            r->Ok_0@ == Cursor::fresh(buffer@),
            bounded_valid(r->Ok_0@),
    {
        Ok(
            FiniteBuffer {
                buffer,
                offset: 0,
                virtual_len: buffer.len(),
                container_size_limit: buffer.len(),
            },
        )
    }

    /// Replaces the size limit, which is the region's length by default.
    pub fn container_size_limit(self, csl: usize) -> (r: Self)
        ensures
            r@ == self@.limited(csl as nat),
    {
        let mut this = self;
        this.container_size_limit = csl;
        this
    }
}

impl<'a> Unstructured for FiniteBuffer<'a> {
    type Error = FBError;

    open spec fn valid(c: Cursor) -> bool {
        bounded_valid(c)
    }

    open spec fn serving(c: Cursor) -> bool {
        true
    }

    open spec fn can_take(c: Cursor, n: nat) -> bool {
        bounded_can_take(c, n)
    }

    open spec fn taken(c: Cursor, n: nat) -> Seq<u8> {
        bounded_taken(c, n)
    }

    open spec fn advanced(c: Cursor, n: nat) -> Cursor {
        bounded_advanced(c, n)
    }

    open spec fn rewound(c: Cursor) -> Cursor {
        bounded_rewound(c)
    }

    open spec fn halved(c: Cursor) -> Cursor {
        bounded_halved(c)
    }

    fn fill_buffer(&mut self, buffer: &mut [u8]) -> (r: Result<(), FBError>)
        ensures
            r is Err ==> r->Err_0 == FBError::InsufficientBytes,
    {
        let n: usize = buffer.len();
        if self.virtual_len - self.offset >= n {
            let start: usize = self.offset;
            let mut i: usize = 0;
            while i < n
                invariant
                    i <= n,
                    n == buffer@.len(),
                    start + n <= self.buffer.len(),
                    forall|j: int| 0 <= j < i ==> buffer@[j] == self.buffer@[start + j],
                decreases n - i,
            {
                buffer[i] = self.buffer[start + i];
                i += 1;
            }
            self.offset = start + n;
            assert(buffer@ =~= bounded_taken(old(self)@, n as nat));
            Ok(())
        } else {
            Err(FBError::InsufficientBytes)
        }
    }

    fn container_size(&mut self) -> (r: Result<usize, FBError>)
        ensures
            r is Err ==> r->Err_0 == FBError::InsufficientBytes,
    {
        let mut bytes: [u8; 8] = [0, 0, 0, 0, 0, 0, 0, 0];
        match self.fill_buffer(&mut bytes) {
            Ok(()) => Ok(reduce_to_size(word_of(&bytes), self.container_size_limit)),
            Err(e) => Err(e),
        }
    }

    fn reset(&mut self) {
        self.offset = 0;
    }

    fn shift_right(&mut self, total: usize) -> (r: Result<(), FBError>)
        ensures
            r is Err ==> r->Err_0 == FBError::InsufficientBytes,
    {
        if self.virtual_len - self.offset < total {
            Err(FBError::InsufficientBytes)
        } else {
            self.offset += total;
            Ok(())
        }
    }

    fn shrink(&mut self) -> (r: usize) {
        self.virtual_len = self.virtual_len / 2;
        if self.offset > self.virtual_len {
            self.offset = self.virtual_len;
        }
        self.virtual_len
    }
}

} // verus!
