//! Fixed-size ring buffer for audio sample storage.

use vstd::arithmetic::div_mod::{lemma_mod_self_0, lemma_small_mod};
use vstd::prelude::*;

verus! {

/// The sample `delay` steps behind the write head of a history `h`, which
/// lists the stored samples oldest first (the newest is `h.last()`).
pub open spec fn read_history<T>(h: Seq<T>, delay: nat) -> T
    recommends
        h.len() > 0,
{
    h[((h.len() - delay % h.len()) % (h.len() as int)) as int]
}

/// The history after one push: the oldest sample leaves, `x` becomes the
/// newest.  An empty buffer stays empty.
pub open spec fn push_history<T>(h: Seq<T>, x: T) -> Seq<T> {
    if h.len() == 0 {
        h
    } else {
        h.drop_first().push(x)
    }
}

/// The history after pushing every sample of `xs` in order.
pub open spec fn push_all<T>(h: Seq<T>, xs: Seq<T>) -> Seq<T>
    decreases xs.len(),
{
    if xs.len() == 0 {
        h
    } else {
        push_history(push_all(h, xs.drop_last()), xs.last())
    }
}

/// Pushing keeps the number of slots.
pub proof fn lemma_push_all_len<T>(h: Seq<T>, xs: Seq<T>)
    ensures
        push_all(h, xs).len() == h.len(),
    decreases xs.len(),
{
    if xs.len() > 0 {
        lemma_push_all_len(h, xs.drop_last());
    }
}

/// After pushes, the buffer holds the last `len` samples of everything it
/// ever held, in order.
pub proof fn lemma_push_all_keeps_latest<T>(h: Seq<T>, xs: Seq<T>)
    requires
        h.len() > 0,
    ensures
        push_all(h, xs) =~= (h + xs).subrange(xs.len() as int, (h.len() + xs.len()) as int),
    decreases xs.len(),
{
    if xs.len() == 0 {
        assert((h + xs) =~= h);
    } else {
        let ys = xs.drop_last();
        lemma_push_all_keeps_latest(h, ys);
        assert((h + xs) =~= (h + ys).push(xs.last()));
    }
}

/// A read gives back what was written: right after `x` is pushed, the
/// sample one step behind the write head is `x`.
pub proof fn lemma_read_newest<T>(h: Seq<T>, x: T)
    requires
        h.len() > 0,
    ensures
        read_history(push_history(h, x), 1) == x,
{
    let p = push_history(h, x);
    assert(p.len() == h.len());
    if h.len() == 1 {
        assert(1nat % 1nat == 0);
    } else {
        assert(1nat % (h.len() as nat) == 1) by {
            lemma_small_mod(1, h.len() as nat);
        }
        lemma_small_mod((h.len() - 1) as nat, h.len() as nat);
    }
}

/// A delay line: after pushing the samples `xs`, the read `d` steps behind
/// the write head (`1 <= d <= len`) gives the sample pushed `d - 1` pushes
/// before the last one, reaching back into the earlier contents once `d`
/// exceeds the number of pushes.
pub proof fn lemma_read_after_pushes<T>(h: Seq<T>, xs: Seq<T>, d: nat)
    requires
        h.len() > 0,
        1 <= d <= h.len(),
    ensures
        read_history(push_all(h, xs), d) == (h + xs)[h.len() + xs.len() - d],
{
    lemma_push_all_keeps_latest(h, xs);
    let p = push_all(h, xs);
    let n = h.len();
    if d == n {
        lemma_mod_self_0(n as int);
        lemma_small_mod(0, n as nat);
    } else {
        lemma_small_mod(d, n as nat);
        lemma_small_mod((n - d) as nat, n as nat);
    }
}

/// After `clear`, every read, at any delay, gives `T::default()`.
pub proof fn lemma_read_after_clear<T: Default>(h: Seq<T>, d: nat)
    requires
        h.len() > 0,
        forall|i: int| 0 <= i < h.len() ==> call_ensures(T::default, (), #[trigger] h[i]),
    ensures
        call_ensures(T::default, (), read_history(h, d)),
{
    let n = h.len() as int;
    vstd::arithmetic::div_mod::lemma_mod_bound(d as int, n);
    vstd::arithmetic::div_mod::lemma_mod_bound(n - (d as int) % n, n);
}

/// Whether every call of `T::default()` gives the same value (it does for
/// the integer and floating-point types).
pub open spec fn default_is_unique<T: Default>() -> bool {
    forall|a: T, b: T|
        call_ensures(T::default, (), a) && call_ensures(T::default, (), b) ==> a == b
}

/// A cleared buffer is a fresh one: two histories of the same length whose
/// slots all hold `T::default()` (as after `new` or `clear`) are equal, when
/// the default is a single value.  Every later push and read is then the
/// same on both.
pub proof fn lemma_cleared_is_fresh<T: Default>(cleared: Seq<T>, fresh: Seq<T>)
    requires
        default_is_unique::<T>(),
        cleared.len() == fresh.len(),
        forall|i: int| 0 <= i < cleared.len() ==> call_ensures(T::default, (), #[trigger] cleared[i]),
        forall|i: int| 0 <= i < fresh.len() ==> call_ensures(T::default, (), #[trigger] fresh[i]),
    ensures
        cleared == fresh,
{
    assert forall|i: int| 0 <= i < cleared.len() implies #[trigger] cleared[i] == fresh[i] by {
        assert(call_ensures(T::default, (), cleared[i]));
        assert(call_ensures(T::default, (), fresh[i]));
    }
    assert(cleared =~= fresh);
}

/// Fixed-size ring buffer.  Its view is the stored history, oldest first.
pub struct RingBuffer<T> {
    buf: Vec<T>,
    write_pos: usize,
}

impl<T> RingBuffer<T> {
    /// The write head stays inside the storage (or at 0 when there is none).
    #[verifier::type_invariant]
    spec fn well_formed(&self) -> bool {
        if self.buf.len() == 0 {
            self.write_pos == 0
        } else {
            self.write_pos < self.buf.len()
        }
    }

    /// The stored samples, oldest first.
    pub closed spec fn history(&self) -> Seq<T> {
        self.buf@.subrange(self.write_pos as int, self.buf@.len() as int)
            + self.buf@.subrange(0, self.write_pos as int)
    }
}

impl<T> View for RingBuffer<T> {
    type V = Seq<T>;

    open spec fn view(&self) -> Seq<T> {
        self.history()
    }
}

impl<T: Copy + Default> RingBuffer<T> {
    /// A buffer of `size` slots, each holding `T::default()`.
    pub fn new(size: usize) -> (r: Self)
        ensures
            r@.len() == size,
            forall|i: int| 0 <= i < size ==> call_ensures(T::default, (), #[trigger] r@[i]),
    {
        let mut buf: Vec<T> = Vec::new();
        let mut k: usize = 0;
        while k < size
            invariant
                k <= size,
                buf@.len() == k,
                forall|i: int| 0 <= i < k ==> call_ensures(T::default, (), #[trigger] buf@[i]),
            decreases size - k,
        {
            let z = T::default();
            buf.push(z);
            k = k + 1;
        }
        let r = RingBuffer { buf, write_pos: 0 };
        assert(r@ =~= buf@);
        r
    }

    /// Number of slots.
    pub fn len(&self) -> (n: usize)
        ensures
            n == self@.len(),
    {
        proof {
            use_type_invariant(&*self);
        }
        self.buf.len()
    }

    /// Whether the buffer has no slot at all.
    pub fn is_empty(&self) -> (b: bool)
        ensures
            b == (self@.len() == 0),
    {
        proof {
            use_type_invariant(&*self);
        }
        self.buf.len() == 0
    }

    /// Push a sample, overwriting the oldest.  A buffer without slots
    /// ignores the sample.
    pub fn push(&mut self, sample: T)
        ensures
            final(self)@ == push_history(old(self)@, sample),
    {
        proof {
            use_type_invariant(&*self);
        }
        let len = self.buf.len();
        if len == 0 {
            return;
        }
        let ghost h = self@;
        let mut taken = RingBuffer { buf: Vec::new(), write_pos: 0 };
        std::mem::swap(self, &mut taken);
        let RingBuffer { mut buf, write_pos: wp } = taken;
        buf.set(wp, sample);
        *self = RingBuffer { buf, write_pos: (wp + 1) % len };
        proof {
            if wp + 1 == len {
                lemma_mod_self_0(len as int);
            } else {
                lemma_small_mod((wp + 1) as nat, len as nat);
            }
            assert(self@ =~= h.drop_first().push(sample));
        }
    }

    /// Read the sample `delay` steps behind the write head: `read(1)` is
    /// the newest sample, `read(len)` and `read(0)` the oldest.  A buffer
    /// without slots reads `T::default()`.
    pub fn read(&self, delay: usize) -> (r: T)
        ensures
            self@.len() > 0 ==> r == read_history(self@, delay as nat),
            self@.len() == 0 ==> call_ensures(T::default, (), r),
    {
        proof {
            use_type_invariant(&*self);
        }
        let len = self.buf.len();
        if len == 0 {
            return T::default();
        }
        let back = delay % len;
        let wp = self.write_pos;
        let idx = if back <= wp { wp - back } else { wp + (len - back) };
        proof {
            let h = self@;
            let k = (len - back) % (len as int);
            if back == 0 {
                lemma_mod_self_0(len as int);
                assert(k == 0);
                assert(h[0] == self.buf@[wp as int]);
            } else {
                lemma_small_mod((len - back) as nat, len as nat);
                assert(h[k] == self.buf@[idx as int]);
            }
        }
        self.buf[idx]
    }

    /// Reset every slot to `T::default()` and the write head to the start.
    pub fn clear(&mut self)
        ensures
            final(self)@.len() == old(self)@.len(),
            forall|i: int|
                0 <= i < old(self)@.len() ==> call_ensures(T::default, (), #[trigger] final(self)@[i]),
    {
        proof {
            use_type_invariant(&*self);
        }
        let mut taken = RingBuffer { buf: Vec::new(), write_pos: 0 };
        std::mem::swap(self, &mut taken);
        let RingBuffer { mut buf, write_pos: _ } = taken;
        let len = buf.len();
        let mut k: usize = 0;
        while k < len
            invariant
                len == buf@.len(),
                k <= len,
                forall|i: int| 0 <= i < k ==> call_ensures(T::default, (), #[trigger] buf@[i]),
            decreases len - k,
        {
            let z = T::default();
            buf.set(k, z);
            k = k + 1;
        }
        *self = RingBuffer { buf, write_pos: 0 };
        assert(self@ =~= self.buf@);
    }
}

} // verus!
