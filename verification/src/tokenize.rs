//! Splitting an input byte stream on a set of delimiter bytes, and cleaning
//! each raw run into a token: leading and trailing delimiter bytes are
//! stripped, a run of nothing but delimiters yields no token, and the
//! remaining bytes are decoded as UTF-8 text.

use vstd::prelude::*;
use vstd::utf8::{decode_utf8, valid_utf8};

verus! {

/// The delimiter byte set chosen from the configuration: the bytes of the
/// custom delimiter string when one is given, with the null byte appended
/// in null-separator mode; otherwise the null byte alone, or the default
/// set of newline, tab and space.
#[verifier::loop_isolation(false)]
pub fn select_delims(delim: Option<String>, null_sep: bool) -> (r: Vec<u8>)
    ensures
        match delim {
            None => if null_sep {
                r@ == seq![0u8]
            } else {
                r@ == seq![10u8, 9u8, 32u8]
            },
            Some(s) => if null_sep {
                r@ == vstd::utf8::encode_utf8(s@).push(0u8)
            } else {
                r@ == vstd::utf8::encode_utf8(s@)
            },
        },
{
    match delim {
        None => {
            let mut d: Vec<u8> = Vec::new();
            if null_sep {
                d.push(0);
                proof {
                    assert(d@ =~= seq![0u8]);
                }
            } else {
                d.push(10);
                d.push(9);
                d.push(32);
                proof {
                    assert(d@ =~= seq![10u8, 9u8, 32u8]);
                }
            }
            d
        },
        Some(v) => {
            let bytes: &[u8] = v.as_str().as_bytes();
            let n: usize = bytes.len();
            let mut d: Vec<u8> = Vec::new();
            let mut i: usize = 0;
            while i < n
                invariant
                    0 <= i <= n,
                    d@ == bytes@.take(i as int),
                decreases n - i,
            {
                d.push(bytes[i]);
                proof {
                    assert(d@ =~= bytes@.take(i + 1 as int));
                }
                i = i + 1;
            }
            proof {
                assert(bytes@.take(n as int) =~= bytes@);
            }
            if null_sep {
                d.push(0);
            }
            d
        },
    }
}

/// Index of the first byte of `s` that belongs to `delims`, or `s.len()`
/// when no byte of `s` does.
pub open spec fn first_delim_pos(delims: Seq<u8>, s: Seq<u8>) -> int
    decreases s.len(),
{
    if s.len() == 0 {
        0
    } else if delims.contains(s[0]) {
        0
    } else {
        1 + first_delim_pos(delims, s.drop_first())
    }
}

pub proof fn lemma_first_delim_pos(delims: Seq<u8>, s: Seq<u8>)
    ensures
        0 <= first_delim_pos(delims, s) <= s.len(),
        first_delim_pos(delims, s) < s.len() ==> delims.contains(s[first_delim_pos(delims, s)]),
        forall|j: int| 0 <= j < first_delim_pos(delims, s) ==> !delims.contains(s[j]),
    decreases s.len(),
{
    if s.len() > 0 && !delims.contains(s[0]) {
        lemma_first_delim_pos(delims, s.drop_first());
        assert forall|j: int| 0 <= j < first_delim_pos(delims, s) implies !delims.contains(
            s[j],
        ) by {
            if j > 0 {
                assert(!delims.contains(s.drop_first()[j - 1]));
            }
        }
    }
}

/// Index of the first byte of `s` outside `delims`, or `s.len()` when every
/// byte of `s` is a delimiter.
pub open spec fn first_keep_pos(delims: Seq<u8>, s: Seq<u8>) -> int
    decreases s.len(),
{
    if s.len() == 0 {
        0
    } else if !delims.contains(s[0]) {
        0
    } else {
        1 + first_keep_pos(delims, s.drop_first())
    }
}

pub proof fn lemma_first_keep_pos(delims: Seq<u8>, s: Seq<u8>)
    ensures
        0 <= first_keep_pos(delims, s) <= s.len(),
        first_keep_pos(delims, s) < s.len() ==> !delims.contains(s[first_keep_pos(delims, s)]),
        forall|j: int| 0 <= j < first_keep_pos(delims, s) ==> delims.contains(s[j]),
    decreases s.len(),
{
    if s.len() > 0 && delims.contains(s[0]) {
        lemma_first_keep_pos(delims, s.drop_first());
        assert forall|j: int| 0 <= j < first_keep_pos(delims, s) implies delims.contains(
            s[j],
        ) by {
            if j > 0 {
                assert(delims.contains(s.drop_first()[j - 1]));
            }
        }
    }
}

/// Length of `s` once trailing delimiter bytes are stripped.
pub open spec fn trim_end_len(delims: Seq<u8>, s: Seq<u8>) -> int
    decreases s.len(),
{
    if s.len() == 0 {
        0
    } else if delims.contains(s.last()) {
        trim_end_len(delims, s.drop_last())
    } else {
        s.len() as int
    }
}

pub proof fn lemma_trim_end_len(delims: Seq<u8>, s: Seq<u8>)
    ensures
        0 <= trim_end_len(delims, s) <= s.len(),
        trim_end_len(delims, s) > 0 ==> !delims.contains(s[trim_end_len(delims, s) - 1]),
        forall|j: int| trim_end_len(delims, s) <= j < s.len() ==> delims.contains(s[j]),
    decreases s.len(),
{
    if s.len() > 0 && delims.contains(s.last()) {
        lemma_trim_end_len(delims, s.drop_last());
        assert forall|j: int| trim_end_len(delims, s) <= j < s.len() implies delims.contains(
            s[j],
        ) by {
            if j < s.len() - 1 {
                assert(delims.contains(s.drop_last()[j]));
            }
        }
    }
}

/// The token that remains of `s` once leading and trailing delimiter bytes
/// are stripped; `None` when every byte of `s` is a delimiter.
pub open spec fn spec_trim(delims: Seq<u8>, s: Seq<u8>) -> Option<Seq<u8>> {
    let lo = first_keep_pos(delims, s);
    let hi = trim_end_len(delims, s);
    if lo == s.len() {
        None
    } else {
        Some(s.subrange(lo, hi))
    }
}

/// When some byte of `s` is kept, the kept range is non-empty and its two
/// border bytes are not delimiters.
pub proof fn lemma_spec_trim_bounds(delims: Seq<u8>, s: Seq<u8>)
    requires
        first_keep_pos(delims, s) < s.len(),
    ensures
        first_keep_pos(delims, s) < trim_end_len(delims, s) <= s.len(),
{
    lemma_first_keep_pos(delims, s);
    lemma_trim_end_len(delims, s);
    let lo = first_keep_pos(delims, s);
    if trim_end_len(delims, s) <= lo {
        assert(delims.contains(s[lo]));
    }
}

/// Whether `b` occurs in `delims`.
fn contains_byte(delims: &[u8], b: u8) -> (r: bool)
    ensures
        r == delims@.contains(b),
{
    let n: usize = delims.len();
    let mut i: usize = 0;
    while i < n
        invariant
            0 <= i <= n,
            n == delims@.len(),
            forall|j: int| 0 <= j < i ==> delims@[j] != b,
        decreases n - i,
    {
        if delims[i] == b {
            return true;
        }
        i = i + 1;
    }
    false
}

/// Returns the index of the first byte of `s` that belongs to `delims`, or
/// `s.len()` when no byte of `s` does.
#[verifier::loop_isolation(false)]
fn find_first_delim(delims: &[u8], s: &[u8]) -> (r: usize)
    ensures
        r == first_delim_pos(delims@, s@),
{
    proof {
        lemma_first_delim_pos(delims@, s@);
    }
    let n: usize = s.len();
    let mut i: usize = 0;
    while i < n
        invariant
            0 <= i <= n,
            forall|j: int| 0 <= j < i ==> !delims@.contains(s@[j]),
        decreases n - i,
    {
        if contains_byte(delims, s[i]) {
            proof {
                if first_delim_pos(delims@, s@) < i {
                    assert(!delims@.contains(s@[first_delim_pos(delims@, s@)]));
                }
            }
            return i;
        }
        i = i + 1;
    }
    proof {
        if first_delim_pos(delims@, s@) < n {
            assert(!delims@.contains(s@[first_delim_pos(delims@, s@)]));
        }
    }
    n
}

/// Strips leading and trailing delimiter bytes from `arg`; `None` when every
/// byte of `arg` is a delimiter.
#[verifier::loop_isolation(false)]
fn trim_token<'a>(delims: &[u8], arg: &'a [u8]) -> (r: Option<&'a [u8]>)
    ensures
        match spec_trim(delims@, arg@) {
            Some(t) => r matches Some(b) && b@ == t,
            None => r is None,
        },
{
    proof {
        lemma_first_keep_pos(delims@, arg@);
        lemma_trim_end_len(delims@, arg@);
    }
    let n: usize = arg.len();
    let mut lo: usize = 0;
    while lo < n && contains_byte(delims, arg[lo])
        invariant
            0 <= lo <= first_keep_pos(delims@, arg@),
        decreases n - lo,
    {
        lo = lo + 1;
    }
    if lo == n {
        return None;
    }
    proof {
        assert(lo == first_keep_pos(delims@, arg@));
        lemma_spec_trim_bounds(delims@, arg@);
    }
    let mut hi: usize = n;
    while hi > 0 && contains_byte(delims, arg[hi - 1])
        invariant
            trim_end_len(delims@, arg@) <= hi <= n,
        decreases hi,
    {
        hi = hi - 1;
    }
    proof {
        assert(hi == trim_end_len(delims@, arg@));
    }
    Some(vstd::slice::slice_subrange(arg, lo, hi))
}

/// Relies on `core::str::from_utf8`: it succeeds exactly on a valid UTF-8
/// encoding and returns the text those bytes encode.
#[verifier::external_body]
fn bytes_to_str<'a>(v: &'a [u8]) -> (r: Option<&'a str>)
    ensures
        match r {
            Some(s) => valid_utf8(v@) && s@ == decode_utf8(v@),
            None => !valid_utf8(v@),
        },
{
    core::str::from_utf8(v).ok()
}

/// A token's bytes were not valid UTF-8 text.
#[derive(Clone, Copy, Debug, PartialEq, Eq, Structural)]
pub struct DecodeError;

/// Strips leading and trailing delimiter bytes from `arg` and decodes the
/// rest as text. `None` when every byte of `arg` is a delimiter. The caller
/// rules out tokens that are not valid UTF-8; `try_clean_arg` reports them
/// instead.
pub fn clean_arg<'a>(delims: &[u8], arg: &'a [u8]) -> (r: Option<&'a str>)
    requires
        spec_trim(delims@, arg@) matches Some(t) ==> valid_utf8(t),
    ensures
        match spec_trim(delims@, arg@) {
            Some(t) => r matches Some(s) && s@ == decode_utf8(t),
            None => r is None,
        },
{
    match trim_token(delims, arg) {
        None => None,
        Some(kept) => match bytes_to_str(kept) {
            Some(s) => Some(s),
            None => {
                proof {
                    assert(false);
                }
                unreached()
            },
        },
    }
}

/// Strips leading and trailing delimiter bytes from `arg` and decodes the
/// rest as text. `Ok(None)` when every byte of `arg` is a delimiter; an
/// error when the kept bytes are not valid UTF-8.
pub fn try_clean_arg<'a>(delims: &[u8], arg: &'a [u8]) -> (r: Result<
    Option<&'a str>,
    DecodeError,
>)
    ensures
        match spec_trim(delims@, arg@) {
            Some(t) => (valid_utf8(t) ==> (r matches Ok(o) && o matches Some(s) && s@
                == decode_utf8(t))) && (!valid_utf8(t) ==> r is Err),
            None => r matches Ok(o) && o is None,
        },
{
    match trim_token(delims, arg) {
        None => Ok(None),
        Some(kept) => match bytes_to_str(kept) {
            Some(s) => Ok(Some(s)),
            None => Err(DecodeError),
        },
    }
}

/// What one step of the splitting loop asks of its driver.
pub enum SplitStep {
    /// A raw run ending at (and including) a delimiter byte, or the final
    /// unterminated run at end of input.
    Token(Vec<u8>),
    /// No delimiter in the buffered bytes yet: more input is needed.
    NeedRead,
    /// End of input with nothing buffered.
    Finished,
}

/// Splits a byte stream into raw runs, each run ending at the first
/// delimiter byte seen since the previous run. The driver feeds bytes in
/// with `push_bytes` and asks for runs with `next_split`; the resulting
/// sequence of runs is finite and not restartable.
pub struct SplitMany {
    delims: Vec<u8>,
    next: Vec<u8>,
}

impl SplitMany {
    /// The delimiter byte set.
    pub closed spec fn spec_delims(&self) -> Seq<u8> {
        self.delims@
    }

    /// The bytes read from the stream but not yet handed out.
    pub closed spec fn pending(&self) -> Seq<u8> {
        self.next@
    }

    pub fn new(delims: Vec<u8>) -> (r: SplitMany)
        ensures
            r.spec_delims() == delims@,
            r.pending() == Seq::<u8>::empty(),
    {
        SplitMany { delims, next: Vec::new() }
    }

    /// Buffers bytes read from the input stream.
    #[verifier::loop_isolation(false)]
    pub fn push_bytes(&mut self, bytes: &[u8])
        ensures
            final(self).spec_delims() == old(self).spec_delims(),
            final(self).pending() == old(self).pending() + bytes@,
    {
        let n: usize = bytes.len();
        let mut k: usize = 0;
        while k < n
            invariant
                0 <= k <= n,
                self.delims@ == old(self).delims@,
                self.next@ == old(self).next@ + bytes@.take(k as int),
            decreases n - k,
        {
            self.next.push(bytes[k]);
            proof {
                assert(old(self).next@ + bytes@.take(k + 1 as int) =~= (old(self).next@
                    + bytes@.take(k as int)).push(bytes@[k as int]));
            }
            k = k + 1;
        }
        proof {
            assert(bytes@.take(n as int) =~= bytes@);
        }
    }

    /// One step of the splitting loop. Yields the next raw run if a
    /// delimiter is buffered; otherwise asks for more input, unless the
    /// stream has ended, in which case any remaining bytes form the last
    /// run.
    pub fn next_split(&mut self, eof: bool) -> (r: SplitStep)
        ensures
            final(self).spec_delims() == old(self).spec_delims(),
            ({
                let d = old(self).spec_delims();
                let p = old(self).pending();
                let cut = first_delim_pos(d, p);
                if cut < p.len() {
                    &&& r matches SplitStep::Token(t) && t@ == p.take(cut + 1)
                    &&& final(self).pending() == p.skip(cut + 1)
                } else if !eof {
                    &&& r is NeedRead
                    &&& final(self).pending() == p
                } else if p.len() > 0 {
                    &&& r matches SplitStep::Token(t) && t@ == p
                    &&& final(self).pending().len() == 0
                } else {
                    &&& r is Finished
                    &&& final(self).pending() == p
                }
            }),
    {
        proof {
            lemma_first_delim_pos(self.delims@, self.next@);
        }
        let n: usize = self.next.len();
        let cut = find_first_delim(self.delims.as_slice(), self.next.as_slice());
        if cut < n {
            let mut tok = self.next.split_off(0);
            let rest = tok.split_off(cut + 1);
            self.next = rest;
            proof {
                assert(tok@ =~= old(self).next@.take(cut + 1));
                assert(self.next@ =~= old(self).next@.skip(cut + 1));
            }
            SplitStep::Token(tok)
        } else if !eof {
            SplitStep::NeedRead
        } else if n > 0 {
            let tok = self.next.split_off(0);
            proof {
                assert(tok@ =~= old(self).next@);
            }
            SplitStep::Token(tok)
        } else {
            SplitStep::Finished
        }
    }
}

} // verus!
