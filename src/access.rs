//! Bounds-checked reads and writes of values at byte offsets of a buffer.
use crate::error::Error;
use crate::pod::{lemma_concat_bytes_u8, Pod};
use vstd::prelude::*;

verus! {

/// Whether `size` bytes starting at `at` lie inside a buffer of `len` bytes.
pub open spec fn span_fits(len: nat, at: nat, size: nat) -> bool {
    at + size <= len
}

/// The `size` bytes of `buf` that start at `at`.
pub open spec fn window(buf: Seq<u8>, at: int, size: nat) -> Seq<u8> {
    buf.subrange(at, at + size)
}

/// `buf` with `bytes` written over the span that starts at `at`.
pub open spec fn overwritten(buf: Seq<u8>, at: int, bytes: Seq<u8>) -> Seq<u8> {
    buf.take(at) + bytes + buf.skip(at + bytes.len())
}

/// Whether `size` bytes at `at` lie inside `len` bytes, computed without overflow.
fn span_fits_exec(len: usize, at: usize, size: usize) -> (r: bool)
    ensures
        r == span_fits(len as nat, at as nat, size as nat),
{
    at <= len && size <= len - at
}

proof fn lemma_overwritten_frame(buf: Seq<u8>, at: int, bytes: Seq<u8>)
    requires
        0 <= at,
        at + bytes.len() <= buf.len(),
    ensures
        overwritten(buf, at, bytes).len() == buf.len(),
        window(overwritten(buf, at, bytes), at, bytes.len()) == bytes,
        forall|i: int|
            0 <= i < buf.len() && !(at <= i < at + bytes.len()) ==> #[trigger] overwritten(
                buf,
                at,
                bytes,
            )[i] == buf[i],
{
    assert(window(overwritten(buf, at, bytes), at, bytes.len()) =~= bytes);
}

/// Reading back at `addr` right after writing `v` there yields exactly the bytes of `v`, and so
/// a value equal to `v`; the span still fits, since writing keeps the buffer's length.
pub proof fn lemma_write_read_round_trip<T: Pod>(buf: Seq<u8>, addr: usize, v: T)
    requires
        span_fits(buf.len(), addr as nat, T::pod_size()),
    ensures
        span_fits(overwritten(buf, addr as int, v.pod_bytes()).len(), addr as nat, T::pod_size()),
        window(overwritten(buf, addr as int, v.pod_bytes()), addr as int, T::pod_size())
            == v.pod_bytes(),
        forall|r: T|
            #[trigger] r.pod_bytes() == window(
                overwritten(buf, addr as int, v.pod_bytes()),
                addr as int,
                T::pod_size(),
            ) ==> r == v,
{
    T::lemma_pod_bytes_len(v);
    lemma_overwritten_frame(buf, addr as int, v.pod_bytes());
    assert forall|r: T|
        #[trigger] r.pod_bytes() == window(
            overwritten(buf, addr as int, v.pod_bytes()),
            addr as int,
            T::pod_size(),
        ) implies r == v by {
        T::lemma_pod_bytes_injective(r, v);
    }
}

/// Reads the value of type `T` whose bytes start at `addr`.
///
/// Fails, without overflow in the check, when the value's span does not lie inside `src`.
pub fn read<T: Pod>(src: &[u8], addr: usize) -> (r: Result<T, Error>)
    ensures
        r is Ok <==> span_fits(src@.len(), addr as nat, T::pod_size()),
        r matches Ok(v) ==> v.pod_bytes() == window(src@, addr as int, T::pod_size()),
        r is Err ==> r == Err::<T, Error>(Error::InvalidAccess),
{
    let len = src.len();
    match T::byte_size() {
        Some(size) => {
            if span_fits_exec(len, addr, size) {
                Ok(T::load(src, addr))
            } else {
                Err(Error::InvalidAccess)
            }
        },
        None => Err(Error::InvalidAccess),
    }
}

/// Writes the bytes of `src` at `addr` of `dest`.
///
/// Fails, without overflow in the check and leaving `dest` as it was, when the value's span
/// does not lie inside `dest`. On success no byte outside the span changes.
pub fn write<T: Pod>(src: &T, dest: &mut [u8], addr: usize) -> (r: Result<(), Error>)
    ensures
        r is Ok <==> span_fits(old(dest)@.len(), addr as nat, T::pod_size()),
        r is Ok ==> final(dest)@ == overwritten(old(dest)@, addr as int, src.pod_bytes()),
        r is Ok ==> window(final(dest)@, addr as int, T::pod_size()) == src.pod_bytes(),
        r is Err ==> r == Err::<(), Error>(Error::InvalidAccess) && final(dest)@ == old(dest)@,
        final(dest)@.len() == old(dest)@.len(),
        forall|i: int|
            0 <= i < old(dest)@.len() && !(addr <= i < addr + T::pod_size())
                ==> #[trigger] final(dest)@[i] == old(dest)@[i],
{
    proof {
        T::lemma_pod_bytes_len(*src);
    }
    let len = dest.len();
    match T::byte_size() {
        Some(size) => {
            if span_fits_exec(len, addr, size) {
                let ghost before = dest@;
                src.store(dest, addr);
                proof {
                    lemma_overwritten_frame(before, addr as int, src.pod_bytes());
                }
                Ok(())
            } else {
                Err(Error::InvalidAccess)
            }
        },
        None => Err(Error::InvalidAccess),
    }
}

/// Copies all of `src` into `dest` at `addr`.
///
/// Fails, leaving `dest` as it was, when `src` does not fit there.
pub fn memw(src: &[u8], dest: &mut [u8], addr: usize) -> (r: Result<(), Error>)
    ensures
        r is Ok <==> span_fits(old(dest)@.len(), addr as nat, src@.len()),
        r is Ok ==> final(dest)@ == overwritten(old(dest)@, addr as int, src@),
        r is Err ==> r == Err::<(), Error>(Error::InvalidAccess) && final(dest)@ == old(dest)@,
{
    let len = dest.len();
    if !span_fits_exec(len, addr, src.len()) {
        return Err(Error::InvalidAccess);
    }
    let ghost before = dest@;
    let n = src.len();
    let mut i: usize = 0;
    while i < n
        invariant
            i <= n == src@.len(),
            addr + n <= before.len() <= usize::MAX,
            dest@ == overwritten(before, addr as int, src@.take(i as int)),
        decreases n - i,
    {
        dest[addr + i] = src[i];
        i = i + 1;
        assert(dest@ =~= overwritten(before, addr as int, src@.take(i as int)));
    }
    assert(src@.take(n as int) =~= src@);
    Ok(())
}

/// Fills all of `dest` with the bytes of `src` that start at `addr`.
///
/// Fails, leaving `dest` as it was, when that span does not lie inside `src`.
pub fn memr(dest: &mut [u8], src: &[u8], addr: usize) -> (r: Result<(), Error>)
    ensures
        r is Ok <==> span_fits(src@.len(), addr as nat, old(dest)@.len()),
        r is Ok ==> final(dest)@ == window(src@, addr as int, old(dest)@.len()),
        r is Err ==> r == Err::<(), Error>(Error::InvalidAccess) && final(dest)@ == old(dest)@,
{
    let n = dest.len();
    let len = src.len();
    if !span_fits_exec(len, addr, n) {
        return Err(Error::InvalidAccess);
    }
    let ghost before = dest@;
    let mut i: usize = 0;
    while i < n
        invariant
            i <= n == before.len(),
            dest@.len() == n,
            addr + n <= src@.len() <= usize::MAX,
            forall|j: int| 0 <= j < i ==> dest@[j] == src@[addr + j],
        decreases n - i,
    {
        dest[i] = src[addr + i];
        i = i + 1;
    }
    assert(dest@ =~= window(src@, addr as int, n as nat));
    Ok(())
}

/// Reads the four bytes that start at `addr`, in buffer order.
pub fn memr32(src: &[u8], addr: usize) -> (r: Result<[u8; 4], Error>)
    ensures
        r is Ok <==> span_fits(src@.len(), addr as nat, 4),
        r matches Ok(b) ==> b@ == window(src@, addr as int, 4),
        r is Err ==> r == Err::<[u8; 4], Error>(Error::InvalidAccess),
{
    let r = read::<[u8; 4]>(src, addr);
    proof {
        if let Ok(b) = r {
            lemma_concat_bytes_u8(b@);
        }
    }
    r
}

/// Reads the two bytes that start at `addr`, in buffer order.
pub fn memr16(src: &[u8], addr: usize) -> (r: Result<[u8; 2], Error>)
    ensures
        r is Ok <==> span_fits(src@.len(), addr as nat, 2),
        r matches Ok(b) ==> b@ == window(src@, addr as int, 2),
        r is Err ==> r == Err::<[u8; 2], Error>(Error::InvalidAccess),
{
    let r = read::<[u8; 2]>(src, addr);
    proof {
        if let Ok(b) = r {
            lemma_concat_bytes_u8(b@);
        }
    }
    r
}

/// Reads the byte at `addr`.
pub fn memr8(src: &[u8], addr: usize) -> (r: Result<u8, Error>)
    ensures
        r is Ok <==> span_fits(src@.len(), addr as nat, 1),
        r matches Ok(b) ==> b == src@[addr as int],
        r is Err ==> r == Err::<u8, Error>(Error::InvalidAccess),
{
    match read::<[u8; 1]>(src, addr) {
        Ok(b) => {
            proof {
                lemma_concat_bytes_u8(b@);
                assert(b@[0] == window(src@, addr as int, 1)[0]);
            }
            Ok(b[0])
        },
        Err(e) => Err(e),
    }
}

} // verus!
