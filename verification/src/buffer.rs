//! A byte slice with a consumption cursor.

use crate::codec::{
    compact_bytes_at, compact_size_at, read_bytes, read_compact_bytes, read_compact_size,
    read_i32_le, read_i64_le, read_u32_le, read_u64_le, scan_bytes, scan_i32_le, scan_i64_le,
    scan_u32_le, scan_u64_le, views, Scan,
};
use vstd::prelude::*;
use vstd::slice::slice_subrange;

verus! {

/// A read asked for more bytes than the buffer has left.
#[derive(Debug, Clone, Copy, PartialEq, Eq)]
pub struct EndOfBufferError;

/// An immutable byte slice and a cursor into it. Reads take their bytes at
/// the cursor and move it past them.
#[derive(Debug, Clone, Copy)]
pub struct Buffer<'a> {
    inner: &'a [u8],
    pos: usize,
}

/// A read through a buffer agrees with its model: it succeeds exactly when
/// the model does, with the model's value, and leaves the cursor where the
/// model says. Where it fails the cursor is left unspecified.
pub open spec fn advances<T: View>(r: Result<T, EndOfBufferError>, m: Scan<T::V>, after: int) -> bool {
    match m {
        Scan::Item { value, next } => r matches Ok(v) && v@ == value && after == next,
        Scan::Short { missing } => r is Err,
    }
}

/// As `advances`, for a read that yields a vector of items.
pub open spec fn advances_all<T: View>(
    r: Result<Vec<T>, EndOfBufferError>,
    m: Scan<Seq<T::V>>,
    after: int,
) -> bool {
    match m {
        Scan::Item { value, next } => r matches Ok(v) && views(v@) == value && after == next,
        Scan::Short { missing } => r is Err,
    }
}

impl<'a> Buffer<'a> {
    #[verifier::type_invariant]
    spec fn well_formed(self) -> bool {
        self.pos <= self.inner@.len()
    }

    /// All the bytes of the underlying slice, consumed or not.
    pub closed spec fn bytes(self) -> Seq<u8> {
        self.inner@
    }

    /// How many bytes have been consumed.
    pub closed spec fn cursor(self) -> int {
        self.pos as int
    }

    /// The cursor stands inside the bytes, or right after the last of them.
    pub open spec fn inside(self) -> bool {
        0 <= self.cursor() <= self.bytes().len()
    }

    /// A buffer over `inner`, with nothing consumed.
    pub fn new(inner: &'a [u8]) -> (r: Buffer<'a>)
        ensures
            r.bytes() == inner@,
            r.cursor() == 0,
            r.inside(),
    {
        Buffer { inner, pos: 0 }
    }

    /// The number of bytes not yet consumed.
    pub fn len(&self) -> (r: usize)
        ensures
            r == self.bytes().len() - self.cursor(),
            self.inside(),
    {
        proof {
            use_type_invariant(self);
        }
        self.inner.len() - self.pos
    }

    /// The whole underlying slice.
    pub fn whole(&self) -> (r: &'a [u8])
        ensures
            r@ == self.bytes(),
    {
        self.inner
    }

    /// The number of bytes consumed so far.
    pub fn position(&self) -> (r: usize)
        ensures
            r == self.cursor(),
            self.inside(),
    {
        proof {
            use_type_invariant(self);
        }
        self.pos
    }

    /// The bytes consumed since `earlier`, an earlier state of this buffer.
    pub fn consumed_since(&self, earlier: Buffer<'a>) -> (r: &'a [u8])
        requires
            earlier.bytes() == self.bytes(),
            earlier.cursor() <= self.cursor(),
        ensures
            r@ == self.bytes().subrange(earlier.cursor(), self.cursor()),
    {
        proof {
            use_type_invariant(self);
        }
        slice_subrange(self.inner, earlier.pos, self.pos)
    }

    /// Reads a little-endian `u32`.
    pub fn parse_u32(&mut self) -> (r: Result<u32, EndOfBufferError>)
        ensures
            old(self).inside(),
            final(self).inside(),
            final(self).bytes() == old(self).bytes(),
            advances(
                r,
                scan_u32_le(old(self).bytes(), old(self).cursor()),
                final(self).cursor(),
            ),
    {
        proof {
            use_type_invariant(&*self);
        }
        match read_u32_le(self.inner, self.pos) {
            Ok((v, next)) => {
                self.pos = next;
                Ok(v)
            },
            Err(_) => Err(EndOfBufferError),
        }
    }

    /// Reads a little-endian `u64`.
    pub fn parse_u64(&mut self) -> (r: Result<u64, EndOfBufferError>)
        ensures
            old(self).inside(),
            final(self).inside(),
            final(self).bytes() == old(self).bytes(),
            advances(
                r,
                scan_u64_le(old(self).bytes(), old(self).cursor()),
                final(self).cursor(),
            ),
    {
        proof {
            use_type_invariant(&*self);
        }
        match read_u64_le(self.inner, self.pos) {
            Ok((v, next)) => {
                self.pos = next;
                Ok(v)
            },
            Err(_) => Err(EndOfBufferError),
        }
    }

    /// Reads a little-endian `i32`.
    pub fn parse_i32(&mut self) -> (r: Result<i32, EndOfBufferError>)
        ensures
            old(self).inside(),
            final(self).inside(),
            final(self).bytes() == old(self).bytes(),
            advances(
                r,
                scan_i32_le(old(self).bytes(), old(self).cursor()),
                final(self).cursor(),
            ),
    {
        proof {
            use_type_invariant(&*self);
        }
        match read_i32_le(self.inner, self.pos) {
            Ok((v, next)) => {
                self.pos = next;
                Ok(v)
            },
            Err(_) => Err(EndOfBufferError),
        }
    }

    /// Reads a little-endian `i64`.
    pub fn parse_i64(&mut self) -> (r: Result<i64, EndOfBufferError>)
        ensures
            old(self).inside(),
            final(self).inside(),
            final(self).bytes() == old(self).bytes(),
            advances(
                r,
                scan_i64_le(old(self).bytes(), old(self).cursor()),
                final(self).cursor(),
            ),
    {
        proof {
            use_type_invariant(&*self);
        }
        match read_i64_le(self.inner, self.pos) {
            Ok((v, next)) => {
                self.pos = next;
                Ok(v)
            },
            Err(_) => Err(EndOfBufferError),
        }
    }

    /// Reads a compact size.
    pub fn parse_compact_size(&mut self) -> (r: Result<u64, EndOfBufferError>)
        ensures
            old(self).inside(),
            final(self).inside(),
            final(self).bytes() == old(self).bytes(),
            advances(
                r,
                compact_size_at(old(self).bytes(), old(self).cursor()),
                final(self).cursor(),
            ),
    {
        proof {
            use_type_invariant(&*self);
        }
        match read_compact_size(self.inner, self.pos) {
            Ok((v, next)) => {
                self.pos = next;
                Ok(v)
            },
            Err(_) => Err(EndOfBufferError),
        }
    }

    /// Borrows the next `count` bytes.
    pub fn parse_bytes(&mut self, count: usize) -> (r: Result<&'a [u8], EndOfBufferError>)
        ensures
            old(self).inside(),
            final(self).inside(),
            final(self).bytes() == old(self).bytes(),
            advances(
                r,
                scan_bytes(old(self).bytes(), old(self).cursor(), count as int),
                final(self).cursor(),
            ),
    {
        proof {
            use_type_invariant(&*self);
        }
        match read_bytes(self.inner, self.pos, count as u64) {
            Ok((v, next)) => {
                self.pos = next;
                Ok(v)
            },
            Err(_) => Err(EndOfBufferError),
        }
    }

    /// Reads a compact size and borrows that many bytes after it.
    pub fn parse_compact_size_bytes(&mut self) -> (r: Result<&'a [u8], EndOfBufferError>)
        ensures
            old(self).inside(),
            final(self).inside(),
            final(self).bytes() == old(self).bytes(),
            advances(
                r,
                compact_bytes_at(old(self).bytes(), old(self).cursor()),
                final(self).cursor(),
            ),
    {
        proof {
            use_type_invariant(&*self);
        }
        match read_compact_bytes(self.inner, self.pos) {
            Ok((v, next)) => {
                self.pos = next;
                Ok(v)
            },
            Err(_) => Err(EndOfBufferError),
        }
    }
}

} // verus!
