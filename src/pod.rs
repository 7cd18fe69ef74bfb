//! Types whose values are exactly their byte patterns.
use vstd::prelude::*;

verus! {

/// A fixed-size type whose values correspond one to one with the byte strings of its size.
///
/// Implementing this trait is a promise that the type is nothing more than its bytes: every
/// byte string of `pod_size()` bytes is the representation of exactly one value. Here that
/// promise is checked: `load` must produce a value for any bytes it is handed, and the two
/// lemmas say that the representation has the right length and determines the value.
pub trait Pod: Copy + Sized {
    /// The number of bytes in the representation.
    spec fn pod_size() -> nat;

    /// The representation of a value, in buffer order.
    spec fn pod_bytes(&self) -> Seq<u8>;

    proof fn lemma_pod_bytes_len(v: Self)
        ensures
            v.pod_bytes().len() == Self::pod_size(),
    ;

    /// Two values with the same bytes are the same value.
    proof fn lemma_pod_bytes_injective(a: Self, b: Self)
        ensures
            a.pod_bytes() == b.pod_bytes() ==> a == b,
    ;

    /// The size in bytes, or `None` where it exceeds what a `usize` holds.
    fn byte_size() -> (r: Option<usize>)
        ensures
            r matches Some(n) ==> n == Self::pod_size(),
            r is None ==> Self::pod_size() > usize::MAX,
    ;

    /// The value whose bytes are all zero.
    fn zeroed() -> (r: Self)
        ensures
            r.pod_bytes() == Seq::new(Self::pod_size(), |i: int| 0u8),
    ;

    /// The value whose bytes are `src[at .. at + pod_size()]`.
    fn load(src: &[u8], at: usize) -> (r: Self)
        requires
            at + Self::pod_size() <= src@.len(),
        ensures
            r.pod_bytes() == src@.subrange(at as int, at + Self::pod_size()),
    ;

    /// Overwrites `dst[at .. at + pod_size()]` with the bytes of `self`.
    fn store(&self, dst: &mut [u8], at: usize)
        requires
            at + Self::pod_size() <= old(dst)@.len(),
        ensures
            final(dst)@ == old(dst)@.take(at as int) + self.pod_bytes() + old(dst)@.skip(
                at + Self::pod_size(),
            ),
    ;
}

impl Pod for u8 {
    open spec fn pod_size() -> nat {
        1
    }

    open spec fn pod_bytes(&self) -> Seq<u8> {
        seq![*self]
    }

    proof fn lemma_pod_bytes_len(v: Self) {
    }

    proof fn lemma_pod_bytes_injective(a: Self, b: Self) {
        if a.pod_bytes() == b.pod_bytes() {
            assert(a.pod_bytes()[0] == b.pod_bytes()[0]);
        }
    }

    fn byte_size() -> (r: Option<usize>) {
        Some(1)
    }

    fn zeroed() -> (r: Self) {
        let r: u8 = 0;
        assert(r.pod_bytes() =~= Seq::new(1, |i: int| 0u8));
        r
    }

    fn load(src: &[u8], at: usize) -> (r: Self) {
        let r: u8 = src[at];
        assert(r.pod_bytes() =~= src@.subrange(at as int, at + 1));
        r
    }

    fn store(&self, dst: &mut [u8], at: usize) {
        let ghost before = dst@;
        dst[at] = *self;
        assert(dst@ =~= before.take(at as int) + self.pod_bytes() + before.skip(at + 1));
    }
}

impl Pod for i8 {
    open spec fn pod_size() -> nat {
        1
    }

    open spec fn pod_bytes(&self) -> Seq<u8> {
        seq![*self as u8]
    }

    proof fn lemma_pod_bytes_len(v: Self) {
    }

    proof fn lemma_pod_bytes_injective(a: Self, b: Self) {
        if a.pod_bytes() == b.pod_bytes() {
            assert(a.pod_bytes()[0] == b.pod_bytes()[0]);
            assert((a as u8) == (b as u8) ==> a == b) by (bit_vector);
        }
    }

    fn byte_size() -> (r: Option<usize>) {
        Some(1)
    }

    fn zeroed() -> (r: Self) {
        let r: i8 = 0;
        assert(r.pod_bytes() =~= Seq::new(1, |i: int| 0u8));
        r
    }

    fn load(src: &[u8], at: usize) -> (r: Self) {
        let b: u8 = src[at];
        let r: i8 = b as i8;
        assert((b as i8) as u8 == b) by (bit_vector);
        assert(r.pod_bytes() =~= src@.subrange(at as int, at + 1));
        r
    }

    fn store(&self, dst: &mut [u8], at: usize) {
        let ghost before = dst@;
        dst[at] = *self as u8;
        assert(dst@ =~= before.take(at as int) + self.pod_bytes() + before.skip(at + 1));
    }
}

/// The representations of the values of `s`, one after the other.
pub open spec fn concat_bytes<T: Pod>(s: Seq<T>) -> Seq<u8>
    decreases s.len(),
{
    if s.len() == 0 {
        Seq::empty()
    } else {
        concat_bytes(s.drop_last()) + s.last().pod_bytes()
    }
}

pub proof fn lemma_concat_bytes_len<T: Pod>(s: Seq<T>)
    ensures
        concat_bytes(s).len() == s.len() * T::pod_size(),
    decreases s.len(),
{
    if s.len() > 0 {
        lemma_concat_bytes_len(s.drop_last());
        T::lemma_pod_bytes_len(s.last());
        let n = s.len();
        let k = T::pod_size();
        assert((n - 1) * k + k == n * k) by (nonlinear_arith);
    }
}

/// Extending a prefix by one value appends that value's bytes.
pub proof fn lemma_concat_bytes_take<T: Pod>(s: Seq<T>, i: int)
    requires
        0 <= i < s.len(),
    ensures
        concat_bytes(s.take(i + 1)) == concat_bytes(s.take(i)) + s[i].pod_bytes(),
{
    assert(s.take(i + 1).drop_last() =~= s.take(i));
}

/// The bytes of the `i`-th value stand at `[i * size, (i + 1) * size)`.
pub proof fn lemma_concat_bytes_index<T: Pod>(s: Seq<T>, i: int)
    requires
        0 <= i < s.len(),
    ensures
        concat_bytes(s).subrange(i * T::pod_size(), (i + 1) * T::pod_size()) == s[i].pod_bytes(),
    decreases s.len(),
{
    let k = T::pod_size();
    let n = s.len();
    let init = s.drop_last();
    lemma_concat_bytes_len(init);
    T::lemma_pod_bytes_len(s.last());
    assert((i + 1) * k == i * k + k) by (nonlinear_arith);
    if i == n - 1 {
        assert(i * k == (n - 1) * k);
        assert(concat_bytes(s).subrange(i * k, (i + 1) * k) =~= s.last().pod_bytes());
    } else {
        lemma_concat_bytes_index(init, i);
        assert((i + 1) * k <= (n - 1) * k) by (nonlinear_arith)
            requires
                i + 1 <= n - 1,
        ;
        assert(i * k >= 0) by (nonlinear_arith)
            requires
                i >= 0,
        ;
        assert(concat_bytes(s).subrange(i * k, (i + 1) * k) =~= concat_bytes(init).subrange(
            i * k,
            (i + 1) * k,
        ));
    }
}

/// Values that are all zero bytes concatenate to zero bytes.
proof fn lemma_concat_bytes_zero<T: Pod>(s: Seq<T>)
    requires
        forall|j: int|
            0 <= j < s.len() ==> #[trigger] s[j].pod_bytes() == Seq::new(
                T::pod_size(),
                |i: int| 0u8,
            ),
    ensures
        concat_bytes(s) == Seq::new(s.len() * T::pod_size(), |i: int| 0u8),
    decreases s.len(),
{
    lemma_concat_bytes_len(s);
    if s.len() > 0 {
        let init = s.drop_last();
        assert forall|j: int| 0 <= j < init.len() implies #[trigger] init[j].pod_bytes() == Seq::new(
            T::pod_size(),
            |i: int| 0u8,
        ) by {
            assert(init[j] == s[j]);
        }
        lemma_concat_bytes_zero(init);
        assert(s.last() == s[s.len() - 1]);
        assert(concat_bytes(s) =~= Seq::new(s.len() * T::pod_size(), |i: int| 0u8));
    }
}

/// Bytes are their own representation.
pub proof fn lemma_concat_bytes_u8(s: Seq<u8>)
    ensures
        concat_bytes(s) == s,
    decreases s.len(),
{
    if s.len() > 0 {
        lemma_concat_bytes_u8(s.drop_last());
        assert(s.drop_last() + seq![s.last()] =~= s);
    }
}

proof fn lemma_array_size<T: Pod, const N: usize>()
    ensures
        <[T; N] as Pod>::pod_size() == N * T::pod_size(),
        N > 0 ==> T::pod_size() <= N * T::pod_size(),
{
    if N > 0 {
        assert(T::pod_size() <= N * T::pod_size()) by (nonlinear_arith)
            requires
                N >= 1,
        ;
    }
}

impl<T: Pod, const N: usize> Pod for [T; N] {
    open spec fn pod_size() -> nat {
        (N * T::pod_size()) as nat
    }

    open spec fn pod_bytes(&self) -> Seq<u8> {
        concat_bytes(self@)
    }

    proof fn lemma_pod_bytes_len(v: Self) {
        lemma_concat_bytes_len(v@);
    }

    proof fn lemma_pod_bytes_injective(a: Self, b: Self) {
        if a.pod_bytes() == b.pod_bytes() {
            assert forall|i: int| 0 <= i < N implies a[i] == b[i] by {
                lemma_concat_bytes_index(a@, i);
                lemma_concat_bytes_index(b@, i);
                T::lemma_pod_bytes_injective(a[i], b[i]);
            }
            assert(a =~= b);
        }
    }

    fn byte_size() -> (r: Option<usize>) {
        match T::byte_size() {
            Some(k) => k.checked_mul(N),
            None => {
                if N == 0 {
                    Some(0)
                } else {
                    assert(N * T::pod_size() >= T::pod_size()) by (nonlinear_arith)
                        requires
                            N >= 1,
                    ;
                    None
                }
            },
        }
    }

    fn zeroed() -> (r: Self) {
        let z = T::zeroed();
        let r: [T; N] = [z; N];
        proof {
            assert forall|j: int| 0 <= j < r@.len() implies #[trigger] r@[j].pod_bytes() == Seq::new(
                T::pod_size(),
                |i: int| 0u8,
            ) by {
                assert(r@[j] == z);
            }
            lemma_concat_bytes_zero(r@);
        }
        r
    }

    fn load(src: &[u8], at: usize) -> (r: Self) {
        let ghost k = T::pod_size();
        let size = T::byte_size();
        proof {
            lemma_array_size::<T, N>();
        }
        let mut r: [T; N] = [T::zeroed(); N];
        if N == 0 {
            assert(r@ =~= r@.take(0));
            assert(concat_bytes(r@) =~= src@.subrange(at as int, at as int));
            return r;
        }
        let len = src.len();
        assert(N * k <= usize::MAX);
        let k_exec = size.unwrap();
        let mut cur: usize = at;
        let mut i: usize = 0;
        assert(r@.take(0) =~= Seq::<T>::empty());
        while i < N
            invariant
                i <= N,
                k == T::pod_size(),
                k_exec == k,
                cur == at + i * k,
                at + N * k <= src@.len() == len,
                r@.len() == N,
                concat_bytes(r@.take(i as int)) == src@.subrange(at as int, cur as int),
            decreases N - i,
        {
            assert(cur + k <= at + N * k) by (nonlinear_arith)
                requires
                    cur == at + i * k,
                    i + 1 <= N,
                    k >= 0,
            ;
            let v = T::load(src, cur);
            let ghost prev = r@;
            r[i] = v;
            proof {
                assert(r@.take(i as int) =~= prev.take(i as int));
                lemma_concat_bytes_take(r@, i as int);
                assert(src@.subrange(at as int, cur + k) =~= src@.subrange(at as int, cur as int)
                    + src@.subrange(cur as int, cur + k));
                assert(cur + k == at + (i + 1) * k) by (nonlinear_arith)
                    requires
                        cur == at + i * k,
                ;
            }
            cur = cur + k_exec;
            i = i + 1;
        }
        assert(r@.take(N as int) =~= r@);
        r
    }

    fn store(&self, dst: &mut [u8], at: usize) {
        let ghost k = T::pod_size();
        let ghost before = dst@;
        let size = T::byte_size();
        proof {
            lemma_array_size::<T, N>();
        }
        if N == 0 {
            assert(dst@ =~= before.take(at as int) + self.pod_bytes() + before.skip(at as int));
            return ;
        }
        let len = dst.len();
        assert(N * k <= usize::MAX);
        let k_exec = size.unwrap();
        let mut cur: usize = at;
        let mut i: usize = 0;
        assert(dst@ =~= before.take(at as int) + concat_bytes(self@.take(0)) + before.skip(
            at as int,
        ));
        while i < N
            invariant
                i <= N,
                k == T::pod_size(),
                k_exec == k,
                cur == at + i * k,
                at + N * k <= before.len() == len,
                dst@ == before.take(at as int) + concat_bytes(self@.take(i as int)) + before.skip(
                    cur as int,
                ),
            decreases N - i,
        {
            assert(cur + k <= at + N * k) by (nonlinear_arith)
                requires
                    cur == at + i * k,
                    i + 1 <= N,
                    k >= 0,
            ;
            let ghost mid = dst@;
            let v = self[i];
            proof {
                lemma_concat_bytes_len(self@.take(i as int));
                lemma_concat_bytes_take(self@, i as int);
                T::lemma_pod_bytes_len(v);
            }
            v.store(dst, cur);
            proof {
                assert(cur + k == at + (i + 1) * k) by (nonlinear_arith)
                    requires
                        cur == at + i * k,
                ;
                assert(dst@ =~= before.take(at as int) + concat_bytes(self@.take(i + 1)) + before.skip(
                    cur + k,
                ));
            }
            cur = cur + k_exec;
            i = i + 1;
        }
        assert(self@.take(N as int) =~= self@);
    }
}

} // verus!
