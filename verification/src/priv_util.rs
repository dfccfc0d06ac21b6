//! Bounds-checked reads of big-endian integers and NUL-terminated byte strings.
use vstd::prelude::*;

verus! {

#[derive(Debug, Copy, Clone)]
pub enum SliceReadError {
    /// A read of the given width at the given position would leave the buffer.
    InvalidOffset(usize, usize),
    UnexpectedEndOfInput,
}

pub type SliceReadResult<T> = Result<T, SliceReadError>;

/// The big-endian value of the four bytes of `s` that start at `pos`.
pub open spec fn spec_be_u32(s: Seq<u8>, pos: int) -> int
    recommends
        0 <= pos,
        pos + 4 <= s.len(),
{
    s[pos] as int * 0x100_0000 + s[pos + 1] as int * 0x1_0000 + s[pos + 2] as int * 0x100 + s[pos
        + 3] as int
}

/// The big-endian value of the eight bytes of `s` that start at `pos`.
pub open spec fn spec_be_u64(s: Seq<u8>, pos: int) -> int
    recommends
        0 <= pos,
        pos + 8 <= s.len(),
{
    spec_be_u32(s, pos) * 0x1_0000_0000 + spec_be_u32(s, pos + 4)
}

/// The first index in `[pos, end)` at which `s` holds a zero byte, or `end` when every byte
/// of that range is non-zero (also when the range is empty).
pub open spec fn spec_find_nul(s: Seq<u8>, pos: int, end: int) -> int
    decreases end - pos,
{
    if pos >= end {
        end
    } else if s[pos] == 0 {
        pos
    } else {
        spec_find_nul(s, pos + 1, end)
    }
}

/// Where a scan of at most `max_len` bytes from `pos` stops in a buffer of `len` bytes.
pub open spec fn spec_scan_end(len: int, pos: int, max_len: int) -> int {
    if pos + max_len < len {
        pos + max_len
    } else {
        len
    }
}

/// `spec_find_nul` returns the first zero byte of the range, if it has one.
pub proof fn lemma_find_nul(s: Seq<u8>, pos: int, end: int)
    requires
        0 <= pos <= end <= s.len(),
    ensures
        pos <= spec_find_nul(s, pos, end) <= end,
        spec_find_nul(s, pos, end) < end ==> s[spec_find_nul(s, pos, end)] == 0,
        forall|j: int| pos <= j < spec_find_nul(s, pos, end) ==> s[j] != 0,
    decreases end - pos,
{
    if pos < end && s[pos] != 0 {
        lemma_find_nul(s, pos + 1, end);
    }
}

/// A scan that has passed only non-zero bytes up to `cur` finds what a scan from `cur` finds.
pub proof fn lemma_find_nul_skip(s: Seq<u8>, pos: int, cur: int, end: int)
    requires
        0 <= pos <= cur <= end <= s.len(),
        forall|j: int| pos <= j < cur ==> s[j] != 0,
    ensures
        spec_find_nul(s, pos, end) == spec_find_nul(s, cur, end),
    decreases cur - pos,
{
    if pos < cur {
        lemma_find_nul_skip(s, pos + 1, cur, end);
    }
}

pub trait SliceRead<'a> {
    /// The bytes that are read.
    spec fn bytes(&self) -> Seq<u8>;

    /// Reads a big-endian `u32` at `pos`. Token reads use it: the tokenizer only
    /// hands it offsets that it has aligned itself.
    fn unchecked_read_be_u32(&self, pos: usize) -> (r: SliceReadResult<u32>)
        ensures
            pos + 4 <= self.bytes().len() ==> r == Ok::<u32, SliceReadError>(
                spec_be_u32(self.bytes(), pos as int) as u32,
            ),
            pos + 4 > self.bytes().len() ==> r == Err::<u32, SliceReadError>(
                SliceReadError::InvalidOffset(pos, 4),
            ),
    ;

    /// Reads a big-endian `u64` at `pos`, as `unchecked_read_be_u32` does.
    fn unchecked_read_be_u64(&self, pos: usize) -> (r: SliceReadResult<u64>)
        ensures
            pos + 8 <= self.bytes().len() ==> r == Ok::<u64, SliceReadError>(
                spec_be_u64(self.bytes(), pos as int) as u64,
            ),
            pos + 8 > self.bytes().len() ==> r == Err::<u64, SliceReadError>(
                SliceReadError::InvalidOffset(pos, 8),
            ),
    ;

    /// Reads a big-endian `u32` at any offset `pos`.
    fn read_be_u32(&self, pos: usize) -> (r: SliceReadResult<u32>)
        ensures
            pos + 4 <= self.bytes().len() ==> r == Ok::<u32, SliceReadError>(
                spec_be_u32(self.bytes(), pos as int) as u32,
            ),
            pos + 4 > self.bytes().len() ==> r == Err::<u32, SliceReadError>(
                SliceReadError::UnexpectedEndOfInput,
            ),
    ;

    /// Reads a big-endian `u64` at any offset `pos`.
    fn read_be_u64(&self, pos: usize) -> (r: SliceReadResult<u64>)
        ensures
            pos + 8 <= self.bytes().len() ==> r == Ok::<u64, SliceReadError>(
                spec_be_u64(self.bytes(), pos as int) as u64,
            ),
            pos + 8 > self.bytes().len() ==> r == Err::<u64, SliceReadError>(
                SliceReadError::UnexpectedEndOfInput,
            ),
    ;

    /// Returns the bytes from `pos` up to, and without, the first zero byte at or after
    /// `pos`. Fails when no zero byte follows.
    fn read_bstring0(&self, pos: usize) -> (r: SliceReadResult<&'a [u8]>)
        ensures
            spec_bstring0(self.bytes(), pos as int, self.bytes().len() as int) matches Some(s)
                ==> r matches Ok(name) && name@ == s,
            spec_bstring0(self.bytes(), pos as int, self.bytes().len() as int) is None ==> r
                matches Err(SliceReadError::UnexpectedEndOfInput),
    ;

    /// As `read_bstring0`, but the zero byte is looked for among the first `len` bytes from
    /// `pos` only.
    fn nread_bstring0(&self, pos: usize, len: usize) -> (r: SliceReadResult<&'a [u8]>)
        ensures
            spec_bstring0(
                self.bytes(),
                pos as int,
                spec_scan_end(self.bytes().len() as int, pos as int, len as int),
            ) matches Some(s) ==> r matches Ok(name) && name@ == s,
            spec_bstring0(
                self.bytes(),
                pos as int,
                spec_scan_end(self.bytes().len() as int, pos as int, len as int),
            ) is None ==> r matches Err(SliceReadError::UnexpectedEndOfInput),
    ;
}

/// The bytes of `s` from `pos` up to its first zero byte before `end`; `None` when
/// `[pos, end)` holds no zero byte.
pub open spec fn spec_bstring0(s: Seq<u8>, pos: int, end: int) -> Option<Seq<u8>> {
    if pos < end && spec_find_nul(s, pos, end) < end {
        Some(s.subrange(pos, spec_find_nul(s, pos, end)))
    } else {
        None
    }
}

impl<'a> SliceRead<'a> for &'a [u8] {
    open spec fn bytes(&self) -> Seq<u8> {
        (*self)@
    }

    fn unchecked_read_be_u32(&self, pos: usize) -> (r: SliceReadResult<u32>) {
        match self.read_be_u32(pos) {
            Ok(v) => Ok(v),
            Err(_) => Err(SliceReadError::InvalidOffset(pos, 4)),
        }
    }

    fn unchecked_read_be_u64(&self, pos: usize) -> (r: SliceReadResult<u64>) {
        match self.read_be_u64(pos) {
            Ok(v) => Ok(v),
            Err(_) => Err(SliceReadError::InvalidOffset(pos, 8)),
        }
    }

    fn read_be_u32(&self, pos: usize) -> (r: SliceReadResult<u32>) {
        let buf: &[u8] = *self;
        let len: usize = buf.len();
        assert(buf@ == self.bytes());
        assert(len == buf@.len());
        if pos > len || len - pos < 4 {
            return Err(SliceReadError::UnexpectedEndOfInput);
        }
        let b0: u32 = buf[pos] as u32;
        let b1: u32 = buf[pos + 1] as u32;
        let b2: u32 = buf[pos + 2] as u32;
        let b3: u32 = buf[pos + 3] as u32;
        Ok(b0 * 0x100_0000 + b1 * 0x1_0000 + b2 * 0x100 + b3)
    }

    fn read_be_u64(&self, pos: usize) -> (r: SliceReadResult<u64>) {
        let buf: &[u8] = *self;
        let len: usize = buf.len();
        if pos > len || len - pos < 8 {
            return Err(SliceReadError::UnexpectedEndOfInput);
        }
        match (self.read_be_u32(pos), self.read_be_u32(pos + 4)) {
            (Ok(hi), Ok(lo)) => Ok(hi as u64 * 0x1_0000_0000 + lo as u64),
            _ => Err(SliceReadError::UnexpectedEndOfInput),
        }
    }

    fn read_bstring0(&self, pos: usize) -> (r: SliceReadResult<&'a [u8]>) {
        let buf: &'a [u8] = *self;
        let end: usize = buf.len();
        scan_bstring0(buf, pos, end)
    }

    fn nread_bstring0(&self, pos: usize, len: usize) -> (r: SliceReadResult<&'a [u8]>) {
        let buf: &'a [u8] = *self;
        let end: usize = if pos < buf.len() && len < buf.len() - pos {
            pos + len
        } else {
            buf.len()
        };
        scan_bstring0(buf, pos, end)
    }
}

/// Looks for the first zero byte of `buf` in `[pos, end)` and returns the bytes before it.
fn scan_bstring0<'a>(buf: &'a [u8], pos: usize, end: usize) -> (r: SliceReadResult<&'a [u8]>)
    requires
        end <= buf@.len(),
    ensures
        spec_bstring0(buf@, pos as int, end as int) matches Some(s) ==> r matches Ok(name)
            && name@ == s,
        spec_bstring0(buf@, pos as int, end as int) is None ==> r matches Err(
            SliceReadError::UnexpectedEndOfInput,
        ),
{
    if pos >= end {
        return Err(SliceReadError::UnexpectedEndOfInput);
    }
    let mut cur: usize = pos;
    while cur < end
        invariant
            pos <= cur <= end <= buf@.len(),
            forall|j: int| pos <= j < cur ==> buf@[j] != 0,
        decreases end - cur,
    {
        if buf[cur] == 0 {
            proof {
                lemma_find_nul_skip(buf@, pos as int, cur as int, end as int);
            }
            return Ok(&buf[pos..cur]);
        }
        cur += 1;
    }
    proof {
        lemma_find_nul_skip(buf@, pos as int, end as int, end as int);
    }
    Err(SliceReadError::UnexpectedEndOfInput)
}

} // verus!
