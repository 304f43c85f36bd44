use vstd::prelude::*;
use vstd::arithmetic::div_mod::{
    lemma_add_mod_noop,
    lemma_fundamental_div_mod_converse,
    lemma_mod_bound,
    lemma_small_mod,
};
use crate::buffers::BufferError;
use crate::model::Cursor;
use crate::unstructured::{reduce_to_size, word_of, Unstructured};

verus! {

/// A byte supply that never runs dry.
///
/// The window is served as a cycle: after its last byte comes its first
/// again, so a request of any length is met. Halving can leave a window of
/// no bytes at all; there is then nothing to go round, and reading or
/// skipping is not defined until a reset has restored the window.
pub struct RingBuffer<'a> {
    buffer: &'a [u8],
    offset: usize,
    virtual_len: usize,
    container_size_limit: usize,
}

/// The cursors of a cyclic supply: the region is not empty, the window lies
/// inside it, and the position is an index into the window (or zero, where
/// the window has shrunk to nothing).
pub open spec fn cyclic_valid(c: Cursor) -> bool {
    &&& 1 <= c.region.len()
    &&& c.virtual_len <= c.region.len()
    &&& if c.virtual_len == 0 {
        c.offset == 0
    } else {
        c.offset < c.virtual_len
    }
}

/// A cycle needs at least one byte to go round.
pub open spec fn cyclic_serving(c: Cursor) -> bool {
    c.virtual_len >= 1
}

/// The byte that lies `i` places after the position, going round the window.
pub open spec fn cyclic_byte(c: Cursor, i: int) -> u8 {
    c.region[(c.offset + i) % (c.virtual_len as int)]
}

/// The next `n` bytes of the cycle.
pub open spec fn cyclic_taken(c: Cursor, n: nat) -> Seq<u8> {
    Seq::new(n, |i: int| cyclic_byte(c, i))
}

/// Consuming `n` bytes moves the position `n` places round the window.
pub open spec fn cyclic_advanced(c: Cursor, n: nat) -> Cursor {
    c.at((c.offset + n) % c.virtual_len)
}

/// A reset moves the position to the start and restores the window to the
/// whole region.
pub open spec fn cyclic_rewound(c: Cursor) -> Cursor {
    c.windowed(c.region.len()).at(0)
}

/// Halving the window keeps the position where it is in the cycle: it is
/// taken modulo the new length (and is zero where nothing is left).
pub open spec fn cyclic_halved(c: Cursor) -> Cursor {
    let half = c.virtual_len / 2;
    c.windowed(half).at(
        if half == 0 {
            0
        } else {
            c.offset % half
        },
    )
}

/// Adding two numbers modulo `m` from their remainders: the sum of the
/// remainders, less `m` where it reaches it.
pub proof fn lemma_wrapping_sum(a: int, b: int, m: int)
    requires
        0 <= a,
        0 <= b,
        0 < m,
    ensures
        0 <= a % m < m,
        0 <= b % m < m,
        (a + b) % m == if a % m + b % m >= m {
            a % m + b % m - m
        } else {
            a % m + b % m
        },
{
    let p = a % m;
    let q = b % m;
    lemma_mod_bound(a, m);
    lemma_mod_bound(b, m);
    lemma_add_mod_noop(a, b, m);
    if p + q >= m {
        lemma_fundamental_div_mod_converse(p + q, m, 1, p + q - m);
    } else {
        lemma_small_mod((p + q) as nat, m as nat);
    }
}

/// Every byte of the cycle is a byte of the window.
pub proof fn lemma_cyclic_byte_in_window(c: Cursor, i: int)
    requires
        cyclic_valid(c),
        cyclic_serving(c),
        0 <= i,
    ensures
        0 <= (c.offset + i) % (c.virtual_len as int) < c.virtual_len,
        cyclic_byte(c, i) == c.region.subrange(0, c.virtual_len as int)[(c.offset + i) % (
        c.virtual_len as int)],
{
    lemma_mod_bound(c.offset + i, c.virtual_len as int);
}

/// From the start of a fresh supply over a region of length `L`, a request
/// yields the region over and over: its byte `i` is byte `i mod L` of the
/// region.
pub proof fn lemma_cyclic_periodicity(region: Seq<u8>, n: nat)
    requires
        region.len() >= 1,
    ensures
        cyclic_valid(Cursor::fresh(region)),
        cyclic_serving(Cursor::fresh(region)),
        cyclic_taken(Cursor::fresh(region), n).len() == n,
        forall|i: int|
            0 <= i < n ==> #[trigger] cyclic_taken(Cursor::fresh(region), n)[i] == region[i % (
            region.len() as int)],
{
}

/// Moving the position `n` places and then looking `i` places ahead finds
/// the byte that lies `n + i` places ahead.
pub proof fn lemma_cyclic_byte_after(c: Cursor, n: nat, i: int)
    requires
        cyclic_valid(c),
        cyclic_serving(c),
        0 <= i,
    ensures
        (cyclic_advanced(c, n).offset + i) % (c.virtual_len as int) == (c.offset + n + i) % (
        c.virtual_len as int),
        cyclic_byte(cyclic_advanced(c, n), i) == cyclic_byte(c, n + i),
{
    let v = c.virtual_len as int;
    let d = cyclic_advanced(c, n);
    lemma_mod_bound((c.offset + n) as int, v);
    lemma_wrapping_sum((c.offset + n) as int, i, v);
    lemma_wrapping_sum(d.offset as int, i, v);
    lemma_small_mod(d.offset, c.virtual_len);
}

/// A request continues where the one before it stopped: what two requests
/// in a row yield, one after the other, is what a single request for both
/// lengths yields.
pub proof fn lemma_cyclic_continuation(c: Cursor, n: nat, m: nat)
    requires
        cyclic_valid(c),
        cyclic_serving(c),
    ensures
        cyclic_valid(cyclic_advanced(c, n)),
        cyclic_serving(cyclic_advanced(c, n)),
        cyclic_taken(c, n) + cyclic_taken(cyclic_advanced(c, n), m) == cyclic_taken(c, n + m),
        cyclic_advanced(cyclic_advanced(c, n), m) == cyclic_advanced(c, n + m),
{
    let d = cyclic_advanced(c, n);
    lemma_mod_bound((c.offset + n) as int, c.virtual_len as int);
    assert forall|i: int| 0 <= i < n + m implies #[trigger] (cyclic_taken(c, n) + cyclic_taken(
        d,
        m,
    ))[i] == cyclic_taken(c, n + m)[i] by {
        if i >= n {
            lemma_cyclic_byte_after(c, n, i - n);
        }
    }
    assert(cyclic_taken(c, n) + cyclic_taken(d, m) =~= cyclic_taken(c, n + m));
    lemma_cyclic_byte_after(c, n, m as int);
}

/// After its window of length `w` was halved, a supply cycles over the first
/// `w / 2` bytes of the region alone.
pub proof fn lemma_cyclic_halved_window(c: Cursor, n: nat)
    requires
        cyclic_valid(c),
        c.virtual_len >= 2,
    ensures
        cyclic_valid(cyclic_halved(c)),
        cyclic_serving(cyclic_halved(c)),
        cyclic_halved(c).virtual_len == c.virtual_len / 2,
        forall|i: int|
            0 <= i < n ==> {
                let k = (c.offset + i) % ((c.virtual_len / 2) as int);
                &&& 0 <= k < c.virtual_len / 2
                &&& #[trigger] cyclic_taken(cyclic_halved(c), n)[i] == c.region[k]
            },
{
    let h = (c.virtual_len / 2) as int;
    let d = cyclic_halved(c);
    lemma_mod_bound(c.offset as int, h);
    assert forall|i: int| 0 <= i < n implies {
        let k = (c.offset + i) % h;
        &&& 0 <= k < h
        &&& #[trigger] cyclic_taken(d, n)[i] == c.region[k]
    } by {
        lemma_mod_bound(c.offset + i, h);
        lemma_wrapping_sum(c.offset as int, i, h);
        lemma_wrapping_sum(d.offset as int, i, h);
        lemma_small_mod(d.offset, h as nat);
    }
}

/// A reset gives back what halving took: after halving, however often, a
/// reset leaves the supply as a fresh one over the whole region, save for
/// the size limit, which stays.
pub proof fn lemma_cyclic_reset_restores_window(c: Cursor)
    requires
        cyclic_valid(c),
    ensures
        cyclic_rewound(cyclic_halved(c)) == Cursor::fresh(c.region).limited(c.size_limit),
        cyclic_rewound(c) == Cursor::fresh(c.region).limited(c.size_limit),
        cyclic_valid(cyclic_rewound(c)),
        cyclic_serving(cyclic_rewound(c)),
{
}

impl<'a> View for RingBuffer<'a> {
    type V = Cursor;

    closed spec fn view(&self) -> Cursor {
        Cursor {
            region: self.buffer@,
            offset: self.offset as nat,
            virtual_len: self.virtual_len as nat,
            size_limit: self.container_size_limit as nat,
        }
    }
}

impl<'a> RingBuffer<'a> {
    /// Creates a supply over `buffer`, which must hold at least one byte.
    pub fn new(buffer: &'a [u8]) -> (r: Result<Self, BufferError>)
        ensures
            r is Ok <==> buffer@.len() > 0,
            r is Ok ==> r->Ok_0@ == Cursor::fresh(buffer@),
            r is Ok ==> cyclic_valid(r->Ok_0@) && cyclic_serving(r->Ok_0@),
            r is Err ==> r->Err_0 == BufferError::EmptyInput,
    {
        if buffer.len() == 0 {
            return Err(BufferError::EmptyInput);
        }
        Ok(
            RingBuffer {
                buffer,
                offset: 0,
                virtual_len: buffer.len(),
                container_size_limit: buffer.len(),
            },
        )
    }

    /// Replaces the size limit, which is the region's length by default.
    pub fn container_size_limit(self, csl: usize) -> (r: Self)
        ensures
            r@ == self@.limited(csl as nat),
    {
        let mut this = self;
        this.container_size_limit = csl;
        this
    }
}

impl<'a> Unstructured for RingBuffer<'a> {
    type Error = ();

    open spec fn valid(c: Cursor) -> bool {
        cyclic_valid(c)
    }

    open spec fn serving(c: Cursor) -> bool {
        cyclic_serving(c)
    }

    open spec fn can_take(c: Cursor, n: nat) -> bool {
        true
    }

    open spec fn taken(c: Cursor, n: nat) -> Seq<u8> {
        cyclic_taken(c, n)
    }

    open spec fn advanced(c: Cursor, n: nat) -> Cursor {
        cyclic_advanced(c, n)
    }

    open spec fn rewound(c: Cursor) -> Cursor {
        cyclic_rewound(c)
    }

    open spec fn halved(c: Cursor) -> Cursor {
        cyclic_halved(c)
    }

    fn fill_buffer(&mut self, buffer: &mut [u8]) -> (r: Result<(), ()>) {
        let n: usize = buffer.len();
        let window: usize = self.virtual_len;
        let ghost start = self.offset as int;
        let mut pos: usize = self.offset;
        let mut i: usize = 0;
        proof {
            lemma_small_mod(pos as nat, window as nat);
        }
        while i < n
            invariant
                i <= n,
                n == buffer@.len(),
                1 <= window <= self.buffer.len(),
                0 <= start,
                pos == (start + i) % (window as int),
                pos < window,
                forall|j: int|
                    0 <= j < i ==> buffer@[j] == self.buffer@[(start + j) % (window as int)],
            decreases n - i,
        {
            buffer[i] = self.buffer[pos];
            proof {
                lemma_wrapping_sum(start + i, 1, window as int);
                if window > 1 {
                    lemma_small_mod(1, window as nat);
                } else {
                    assert(1int % 1 == 0);
                }
            }
            pos += 1;
            if pos == window {
                pos = 0;
            }
            i += 1;
        }
        self.offset = pos;
        assert(buffer@ =~= cyclic_taken(old(self)@, n as nat));
        Ok(())
    }

    fn container_size(&mut self) -> (r: Result<usize, ()>) {
        let mut bytes: [u8; 8] = [0, 0, 0, 0, 0, 0, 0, 0];
        match self.fill_buffer(&mut bytes) {
            Ok(()) => Ok(reduce_to_size(word_of(&bytes), self.container_size_limit)),
            Err(e) => Err(e),
        }
    }

    fn reset(&mut self) {
        self.offset = 0;
        self.virtual_len = self.buffer.len();
    }

    fn shift_right(&mut self, total: usize) -> (r: Result<(), ()>) {
        let window: usize = self.virtual_len;
        let step: usize = total % window;
        proof {
            lemma_small_mod(self.offset as nat, window as nat);
            lemma_wrapping_sum(self.offset as int, total as int, window as int);
        }
        if step >= window - self.offset {
            self.offset = step - (window - self.offset);
        } else {
            self.offset += step;
        }
        Ok(())
    }

    fn shrink(&mut self) -> (r: usize) {
        self.virtual_len = self.virtual_len / 2;
        if self.virtual_len == 0 {
            self.offset = 0;
        } else {
            self.offset = self.offset % self.virtual_len;
        }
        self.virtual_len
    }
}

} // verus!
