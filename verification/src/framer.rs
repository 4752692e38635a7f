use vstd::prelude::*;
use vstd::assert_seqs_equal;
use crate::bytes::find_byte;

verus! {

/// The line terminator: ASCII line feed.
pub open spec fn nl() -> u8 {
    10
}

/// The complete, terminator-included lines at the front of `s`, in order.
pub open spec fn complete_lines(s: Seq<u8>) -> Seq<Seq<u8>>
    decreases s.len(),
{
    let i = find_byte(s, nl(), 0);
    if 0 <= i < s.len() {
        seq![s.take(i + 1)] + complete_lines(s.skip(i + 1))
    } else {
        Seq::empty()
    }
}

/// What is left of `s` after every complete line has been taken.
pub open spec fn line_rest(s: Seq<u8>) -> Seq<u8>
    decreases s.len(),
{
    let i = find_byte(s, nl(), 0);
    if 0 <= i < s.len() {
        line_rest(s.skip(i + 1))
    } else {
        s
    }
}

/// Reassembles newline-terminated lines out of a byte stream that arrives
/// in chunks of any size.
pub struct LineFramer {
    buf: Vec<u8>,
}

impl View for LineFramer {
    type V = Seq<u8>;

    closed spec fn view(&self) -> Seq<u8> {
        self.buf@
    }
}

impl LineFramer {
    /// An empty reassembly buffer.
    pub fn new() -> (r: LineFramer)
        ensures
            r@ == Seq::<u8>::empty(),
    {
        LineFramer { buf: Vec::new() }
    }

    /// Append one received chunk to the buffer.
    pub fn push_chunk(&mut self, chunk: &[u8])
        ensures
            final(self)@ == old(self)@ + chunk@,
    {
        crate::bytes::push_all(&mut self.buf, chunk);
    }

    /// Take the first complete line, terminator included, off the buffer.
    /// Returns nothing while the buffer holds no terminator.
    pub fn next_line(&mut self) -> (r: Option<Vec<u8>>)
        ensures
            match r {
                Some(line) => {
                    &&& 1 <= line@.len() <= old(self)@.len()
                    &&& find_byte(old(self)@, nl(), 0) == line@.len() - 1
                    &&& line@ == old(self)@.take(line@.len() as int)
                    &&& final(self)@ == old(self)@.skip(line@.len() as int)
                },
                None => {
                    &&& find_byte(old(self)@, nl(), 0) == -1
                    &&& final(self)@ == old(self)@
                },
            },
    {
        let n = self.buf.len();
        let pos = crate::bytes::scan_byte(self.buf.as_slice(), 10, 0);
        match pos {
            None => None,
            Some(i) => {
                let line = crate::bytes::copy_range(self.buf.as_slice(), 0, i + 1);
                let rest = crate::bytes::copy_range(self.buf.as_slice(), i + 1, n);
                proof {
                    assert_seqs_equal!(line@ == self.buf@.take(i + 1));
                    assert_seqs_equal!(rest@ == self.buf@.skip(i + 1));
                }
                self.buf = rest;
                Some(line)
            },
        }
    }
}

impl LineFramer {
    /// Take every complete line off the buffer, in order, leaving only
    /// the unterminated leftover.
    pub fn take_lines(&mut self) -> (r: Vec<Vec<u8>>)
        ensures
            r@.map_values(|v: Vec<u8>| v@) == complete_lines(old(self)@),
            final(self)@ == line_rest(old(self)@),
    {
        let ghost orig = self@;
        let mut r: Vec<Vec<u8>> = Vec::new();
        proof {
            assert_seqs_equal!(r@.map_values(|v: Vec<u8>| v@) == Seq::<Seq<u8>>::empty());
        }
        loop
            invariant
                orig == old(self)@,
                complete_lines(orig) == r@.map_values(|v: Vec<u8>| v@) + complete_lines(self@),
                line_rest(orig) == line_rest(self@),
            decreases self@.len(),
        {
            let ghost before = self@;
            let ghost prior = r@.map_values(|v: Vec<u8>| v@);
            match self.next_line() {
                None => {
                    proof {
                        lemma_find_byte_bounds(before, nl(), 0);
                        assert(complete_lines(before) == Seq::<Seq<u8>>::empty());
                        assert(line_rest(before) == before);
                        assert_seqs_equal!(complete_lines(orig)
                            == r@.map_values(|v: Vec<u8>| v@));
                    }
                    return r;
                },
                Some(line) => {
                    let ghost lv = line@;
                    proof {
                        lemma_extract_line(before, line@.len() as int);
                    }
                    r.push(line);
                    proof {
                        assert_seqs_equal!(r@.map_values(|v: Vec<u8>| v@) == prior + seq![lv]);
                        assert_seqs_equal!(complete_lines(orig)
                            == r@.map_values(|v: Vec<u8>| v@) + complete_lines(self@));
                    }
                },
            }
        }
    }
}

/// A found terminator lies inside the searched range, is the byte sought,
/// and nothing before it in the range is.
pub proof fn lemma_find_byte_bounds(s: Seq<u8>, b: u8, i: int)
    requires
        0 <= i <= s.len(),
    ensures
        find_byte(s, b, i) == -1 ==> forall|j: int| i <= j < s.len() ==> s[j] != b,
        find_byte(s, b, i) != -1 ==> i <= find_byte(s, b, i) < s.len() && s[find_byte(s, b, i)]
            == b && forall|j: int| i <= j < find_byte(s, b, i) ==> s[j] != b,
    decreases s.len() - i,
{
    if i < s.len() && s[i] != b {
        lemma_find_byte_bounds(s, b, i + 1);
    }
}

/// In a concatenation whose left part holds a terminator, the first
/// terminator of the whole is the first terminator of the left part.
proof fn lemma_find_byte_concat(s: Seq<u8>, t: Seq<u8>, b: u8, i: int)
    requires
        0 <= i <= s.len(),
    ensures
        find_byte(s, b, i) >= 0 ==> find_byte(s + t, b, i) == find_byte(s, b, i),
        find_byte(s, b, i) < 0 ==> find_byte(s + t, b, i) == find_byte(t, b, 0) + (
        if find_byte(t, b, 0) >= 0 {
            s.len() as int
        } else {
            0
        }),
    decreases s.len() + t.len() + 1 - i,
{
    if i < s.len() {
        assert((s + t)[i] == s[i]);
        if s[i] == b {
            assert(find_byte(s, b, i) == i);
            assert(find_byte(s + t, b, i) == i);
        } else {
            lemma_find_byte_concat(s, t, b, i + 1);
            assert(find_byte(s, b, i) == find_byte(s, b, i + 1));
            assert(find_byte(s + t, b, i) == find_byte(s + t, b, i + 1));
        }
    } else {
        assert(i == s.len());
        assert(find_byte(s, b, i) == -1);
        lemma_find_byte_bounds(t, b, 0);
        lemma_find_byte_shift(s, t, b, 0);
        assert(find_byte(s + t, b, s.len() as int + 0) == find_byte(s + t, b, i));
    }
}

/// Searching the right part of a concatenation is searching the whole
/// from the seam.
proof fn lemma_find_byte_shift(s: Seq<u8>, t: Seq<u8>, b: u8, j: int)
    requires
        0 <= j <= t.len(),
    ensures
        find_byte(t, b, j) >= 0 ==> find_byte(s + t, b, s.len() + j) == s.len() + find_byte(t, b, j),
        find_byte(t, b, j) < 0 ==> find_byte(s + t, b, s.len() + j) == -1,
    decreases t.len() + 1 - j,
{
    if j < t.len() {
        assert((s + t)[s.len() + j] == t[j]);
        if t[j] != b {
            lemma_find_byte_shift(s, t, b, j + 1);
        }
    }
}

/// Chunking invariance: delivering `s` and then `t` yields exactly the
/// lines of `s`, then the lines of the leftover of `s` followed by `t`;
/// and the leftover byte count does not depend on where the stream was cut.
/// Applied chunk by chunk, any chunking of one byte stream reconstructs
/// one and the same sequence of lines.
pub proof fn lemma_chunking_invariance(s: Seq<u8>, t: Seq<u8>)
    ensures
        complete_lines(s + t) == complete_lines(s) + complete_lines(line_rest(s) + t),
        line_rest(s + t) == line_rest(line_rest(s) + t),
    decreases s.len(),
{
    let i = find_byte(s, nl(), 0);
    lemma_find_byte_bounds(s, nl(), 0);
    lemma_find_byte_concat(s, t, nl(), 0);
    if i < 0 {
        assert(complete_lines(s) == Seq::<Seq<u8>>::empty());
        assert(line_rest(s) == s);
        assert_seqs_equal!(complete_lines(s + t) == complete_lines(s) + complete_lines(line_rest(s) + t));
    } else {
        assert(find_byte(s + t, nl(), 0) == i);
        assert_seqs_equal!((s + t).take(i + 1) == s.take(i + 1));
        assert_seqs_equal!((s + t).skip(i + 1) == s.skip(i + 1) + t);
        lemma_chunking_invariance(s.skip(i + 1), t);
        assert(complete_lines(s + t) == seq![s.take(i + 1)] + complete_lines(s.skip(i + 1) + t));
        assert(complete_lines(s) + complete_lines(line_rest(s) + t) == (seq![s.take(i + 1)]
            + complete_lines(s.skip(i + 1))) + complete_lines(line_rest(s.skip(i + 1)) + t));
        assert_seqs_equal!(complete_lines(s + t) ==
            complete_lines(s) + complete_lines(line_rest(s) + t));
    }
}

/// Taking one line off the buffer agrees with the spec-level framing:
/// the extracted line is the head of `complete_lines` and the rest keeps
/// the tail and the leftover.
pub proof fn lemma_extract_line(s: Seq<u8>, n: int)
    requires
        find_byte(s, nl(), 0) == n - 1,
        1 <= n <= s.len(),
    ensures
        complete_lines(s) == seq![s.take(n)] + complete_lines(s.skip(n)),
        line_rest(s) == line_rest(s.skip(n)),
{
}

} // verus!
