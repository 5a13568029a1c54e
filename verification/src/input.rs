//! Buffered, consuming view over a request body.
//!
//! The stream owns a byte buffer seeded from the fully read request body.
//! Every read operation removes what it returns from the front of the
//! buffer; the buffer only shrinks, and there is no rewind.

use vstd::prelude::*;
use crate::scan::{find_byte, find_byte_in, lemma_find_byte_bounds};

verus! {

/// The line terminator recognized by the input stream.
pub const LINE_TERMINATOR: u8 = 10;

/// How many bytes a read of `n` takes from a buffer holding `avail` bytes.
pub open spec fn read_len(n: int, avail: int) -> int {
    if n <= avail {
        n
    } else {
        avail
    }
}

/// The lines of `s`: the buffer split at each terminator, the terminator
/// belonging to no line. A trailing terminator yields a final empty line,
/// so the split of a buffer always has at least one line and joining the
/// lines with one terminator between them rebuilds the buffer exactly.
pub open spec fn line_split(s: Seq<u8>) -> Seq<Seq<u8>>
    decreases s.len(),
{
    let i = find_byte(s, LINE_TERMINATOR);
    if 0 <= i && i < s.len() {
        seq![s.take(i)] + line_split(s.skip(i + 1))
    } else {
        seq![s]
    }
}

/// The lines joined with a single terminator between consecutive lines.
pub open spec fn line_join(ls: Seq<Seq<u8>>) -> Seq<u8>
    decreases ls.len(),
{
    if ls.len() == 0 {
        Seq::empty()
    } else if ls.len() == 1 {
        ls[0]
    } else {
        ls[0] + seq![LINE_TERMINATOR] + line_join(ls.skip(1))
    }
}

/// Every buffer, the empty one included, splits into at least one line.
pub proof fn lemma_line_split_nonempty(s: Seq<u8>)
    ensures
        line_split(s).len() >= 1,
{
    let i = find_byte(s, LINE_TERMINATOR);
    if 0 <= i && i < s.len() {
    } else {
    }
}

/// Splitting a buffer into lines and joining the lines again rebuilds the
/// buffer exactly.
pub proof fn lemma_line_round_trip(s: Seq<u8>)
    ensures
        line_join(line_split(s)) == s,
    decreases s.len(),
{
    lemma_find_byte_bounds(s, LINE_TERMINATOR);
    let i = find_byte(s, LINE_TERMINATOR);
    if 0 <= i && i < s.len() {
        lemma_line_round_trip(s.skip(i + 1));
        lemma_line_split_nonempty(s.skip(i + 1));
        let rest = line_split(s.skip(i + 1));
        let ls = seq![s.take(i)] + rest;
        assert(ls.skip(1) =~= rest);
        if rest.len() == 1 {
            assert(line_join(ls) == s.take(i) + seq![LINE_TERMINATOR] + line_join(rest));
        } else {
            assert(line_join(ls) == s.take(i) + seq![LINE_TERMINATOR] + line_join(rest));
        }
        assert(s[i] == LINE_TERMINATOR);
        assert(s.take(i) + seq![LINE_TERMINATOR] + s.skip(i + 1) =~= s);
    } else {
        assert(line_split(s) == seq![s]);
    }
}

/// Buffered, consuming request-body stream handed to the application.
pub struct InputStream {
    buffer: Vec<u8>,
}

impl View for InputStream {
    type V = Seq<u8>;

    closed spec fn view(&self) -> Seq<u8> {
        self.buffer@
    }
}

impl InputStream {
    /// A stream over the fully read request body.
    pub fn new(body: Vec<u8>) -> (s: Self)
        ensures
            s@ == body@,
    {
        InputStream { buffer: body }
    }

    /// How many bytes remain unread.
    pub fn remaining(&self) -> (n: usize)
        ensures
            n == self@.len(),
    {
        self.buffer.len()
    }

    /// Up to `n` bytes from the front of the buffer: never more than
    /// requested nor more than remain, and exactly what is returned is
    /// consumed, so the returned bytes followed by the bytes left over are
    /// the old buffer unchanged.
    pub fn read(&mut self, n: usize) -> (r: Vec<u8>)
        ensures
            r@.len() <= n,
            r@.len() <= old(self)@.len(),
            r@ == old(self)@.take(read_len(n as int, old(self)@.len() as int)),
            final(self)@ == old(self)@.skip(read_len(n as int, old(self)@.len() as int)),
            r@ + final(self)@ == old(self)@,
    {
        let k: usize = if n <= self.buffer.len() {
            n
        } else {
            self.buffer.len()
        };
        let mut head = self.buffer.split_off(k);
        core::mem::swap(&mut self.buffer, &mut head);
        proof {
            assert(head@ =~= old(self)@.take(k as int));
            assert(self.buffer@ =~= old(self)@.skip(k as int));
            assert(head@ + self.buffer@ =~= old(self)@);
        }
        head
    }

    /// The bytes before the first line terminator; the terminator itself is
    /// consumed from the buffer but excluded from the returned value. With
    /// no terminator left, the whole rest of the buffer is returned and
    /// consumed.
    pub fn readline(&mut self) -> (r: Vec<u8>)
        ensures
            r@ == old(self)@.take(find_byte(old(self)@, LINE_TERMINATOR)),
            final(self)@ == (if find_byte(old(self)@, LINE_TERMINATOR) < old(self)@.len() {
                old(self)@.skip(find_byte(old(self)@, LINE_TERMINATOR) + 1)
            } else {
                Seq::<u8>::empty()
            }),
            old(self)@ == (if find_byte(old(self)@, LINE_TERMINATOR) < old(self)@.len() {
                r@ + seq![LINE_TERMINATOR] + final(self)@
            } else {
                r@ + final(self)@
            }),
    {
        proof {
            lemma_find_byte_bounds(old(self)@, LINE_TERMINATOR);
        }
        let k: usize = find_byte_in(&self.buffer, LINE_TERMINATOR);
        if k < self.buffer.len() {
            let mut head = self.buffer.split_off(k);
            core::mem::swap(&mut self.buffer, &mut head);
            // the buffer now starts with the terminator; drop it
            self.buffer.remove(0);
            proof {
                assert(head@ =~= old(self)@.take(k as int));
                assert(self.buffer@ =~= old(self)@.skip(k as int + 1));
                assert(old(self)@ =~= head@ + seq![LINE_TERMINATOR] + self.buffer@);
            }
            head
        } else {
            let mut head = Vec::new();
            core::mem::swap(&mut self.buffer, &mut head);
            proof {
                assert(head@ =~= old(self)@.take(k as int));
                assert(old(self)@ =~= head@ + self.buffer@);
            }
            head
        }
    }

    /// Every remaining line, in order; the buffer is drained. The hint is
    /// advisory and ignored. The returned lines are exactly the line split
    /// of the remaining buffer, so joining them with single terminators
    /// rebuilds it.
    pub fn readlines(&mut self, _hint: u64) -> (r: Vec<Vec<u8>>)
        ensures
            r.deep_view() == line_split(old(self)@),
            final(self)@ == Seq::<u8>::empty(),
    {
        let ghost orig = self@;
        let mut lines: Vec<Vec<u8>> = Vec::new();
        let mut done = false;
        while !done
            invariant
                !done ==> line_split(orig) == lines.deep_view() + line_split(self@),
                done ==> line_split(orig) == lines.deep_view() && self@.len() == 0,
            decreases (if done {
                0int
            } else {
                self@.len() as int + 1
            }),
        {
            proof {
                lemma_find_byte_bounds(self@, LINE_TERMINATOR);
            }
            let ghost pre = self@;
            let ghost prev_lines = lines.deep_view();
            let k: usize = find_byte_in(&self.buffer, LINE_TERMINATOR);
            done = k == self.buffer.len();
            let line = self.readline();
            lines.push(line);
            proof {
                assert(lines.deep_view() =~~= prev_lines.push(line@));
                if find_byte(pre, LINE_TERMINATOR) < pre.len() {
                    assert(line_split(pre) == seq![pre.take(find_byte(pre, LINE_TERMINATOR))]
                        + line_split(self@));
                    assert(line_split(orig) =~= lines.deep_view() + line_split(self@));
                } else {
                    assert(line@ =~= pre);
                    assert(line_split(pre) =~= seq![pre]);
                    assert(line_split(orig) =~= lines.deep_view());
                }
            }
        }
        lines
    }

    /// One iteration step over the stream: the next line, or nothing once
    /// the buffer is empty.
    pub fn next_line(&mut self) -> (r: Option<Vec<u8>>)
        ensures
            r is Some <==> old(self)@.len() > 0,
            r matches Some(line) ==> {
                &&& line@ == old(self)@.take(find_byte(old(self)@, LINE_TERMINATOR))
                &&& final(self)@ == (if find_byte(old(self)@, LINE_TERMINATOR) < old(
                    self,
                )@.len() {
                    old(self)@.skip(find_byte(old(self)@, LINE_TERMINATOR) + 1)
                } else {
                    Seq::<u8>::empty()
                })
            },
            r is None ==> final(self)@ == old(self)@,
    {
        if self.buffer.len() == 0 {
            None
        } else {
            Some(self.readline())
        }
    }
}

} // verus!
