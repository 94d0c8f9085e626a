//! The run-length summary that stands for the content of a large file.
//!
//! The bytes are cut into segments. A byte repeated `n` times in a row is a
//! run, written as `n/'c'`; the bytes between runs form a literal, written
//! as `#len'text'`, where `len` is the length of the text in UTF-8. Every
//! byte is read as the character with that code point. A file that begins
//! with a zero byte begins with a run, even if that run has length one.
//! The segments give the bytes back: nothing of the content is lost.

use vstd::prelude::*;
use vstd::string::StringExecFns;
use vstd::utf8::encode_utf8;
use crate::text::{chars_of, int_text, nat_text, push_decimal};

verus! {

/// One segment of a summary.
pub enum Segment {
    /// `count` times the character `unit`.
    Run { unit: char, count: int },
    /// The characters of `text`, as they are.
    Literal { text: Seq<char> },
}

/// How a run is written.
pub open spec fn run_text(unit: char, count: int) -> Seq<char> {
    int_text(count) + seq!['/', '\''] + seq![unit] + seq!['\'']
}

/// How a literal is written. An empty literal is not written at all.
pub open spec fn literal_text(text: Seq<char>) -> Seq<char> {
    if text.len() == 0 {
        Seq::empty()
    } else {
        seq!['#'] + nat_text(encode_utf8(text).len()) + seq!['\''] + text + seq!['\'']
    }
}

impl Segment {
    /// How the segment is written.
    pub open spec fn text(self) -> Seq<char> {
        match self {
            Segment::Run { unit, count } => run_text(unit, count),
            Segment::Literal { text } => literal_text(text),
        }
    }

    /// The characters the segment stands for.
    pub open spec fn expand(self) -> Seq<char> {
        match self {
            Segment::Run { unit, count } => Seq::new(count as nat, |i: int| unit),
            Segment::Literal { text } => text,
        }
    }
}

/// The segments written one behind the other.
pub open spec fn render(segments: Seq<Segment>) -> Seq<char>
    decreases segments.len(),
{
    if segments.len() == 0 {
        Seq::empty()
    } else {
        render(segments.drop_last()) + segments.last().text()
    }
}

/// The characters the segments stand for.
pub open spec fn expand(segments: Seq<Segment>) -> Seq<char>
    decreases segments.len(),
{
    if segments.len() == 0 {
        Seq::empty()
    } else {
        expand(segments.drop_last()) + segments.last().expand()
    }
}

/// Where the scan of a file stands: the segments that are complete, the
/// last character seen, and the segment being built, which is a run of
/// `count` times `prev` when `count` is not zero and the literal otherwise.
pub struct Scan {
    pub closed: Seq<Segment>,
    pub prev: char,
    pub count: int,
    pub literal: Seq<char>,
}

/// `closed` with the literal behind it, if it is not empty.
pub open spec fn with_literal(closed: Seq<Segment>, literal: Seq<char>) -> Seq<Segment> {
    if literal.len() == 0 {
        closed
    } else {
        closed.push(Segment::Literal { text: literal })
    }
}

impl Scan {
    /// Before the first byte. The last character seen is taken to be the
    /// zero character.
    pub open spec fn start() -> Scan {
        Scan { closed: Seq::empty(), prev: '\0', count: 0, literal: Seq::empty() }
    }

    /// After one more character. A repeat lengthens the run, or ends the
    /// literal before the repeated character and starts a run of two. Any
    /// other character ends a run and goes into the literal.
    pub open spec fn step(self, next: char) -> Scan {
        if next == self.prev {
            if self.literal.len() == 0 {
                Scan { count: self.count + 1, ..self }
            } else {
                Scan {
                    closed: with_literal(self.closed, self.literal.drop_last()),
                    prev: next,
                    count: 2,
                    literal: Seq::empty(),
                }
            }
        } else {
            Scan {
                closed: if self.count != 0 {
                    self.closed.push(Segment::Run { unit: self.prev, count: self.count })
                } else {
                    self.closed
                },
                prev: next,
                count: 0,
                literal: self.literal.push(next),
            }
        }
    }

    /// All segments, the one being built included.
    pub open spec fn finish(self) -> Seq<Segment> {
        if self.count != 0 {
            self.closed.push(Segment::Run { unit: self.prev, count: self.count })
        } else {
            with_literal(self.closed, self.literal)
        }
    }

    /// What holds of every scan: a run and a literal are never open at the
    /// same time, and an open literal ends with the last character seen.
    pub open spec fn wf(self) -> bool {
        &&& self.count >= 0
        &&& self.count != 0 ==> self.literal.len() == 0
        &&& self.literal.len() > 0 ==> self.literal.last() == self.prev
        &&& self.count == 0 && self.literal.len() == 0 ==> self.closed.len() == 0 && self.prev
            == '\0'
    }
}

/// The scan after the first `n` bytes of `data`.
pub open spec fn scan(data: Seq<u8>, n: int) -> Scan
    decreases n,
{
    if n <= 0 {
        Scan::start()
    } else {
        scan(data, n - 1).step(data[n - 1] as char)
    }
}

/// The segments of `data`.
pub open spec fn segments(data: Seq<u8>) -> Seq<Segment> {
    scan(data, data.len() as int).finish()
}

/// The summary of `data`.
pub open spec fn summary(data: Seq<u8>) -> Seq<char> {
    render(segments(data))
}

/// One more segment adds its text and its characters at the end.
pub proof fn lemma_push_segment(segments: Seq<Segment>, last: Segment)
    ensures
        render(segments.push(last)) == render(segments) + last.text(),
        expand(segments.push(last)) == expand(segments) + last.expand(),
{
    assert(segments.push(last).drop_last() =~= segments);
}

/// The scan keeps its shape, counts no more than it has read, and loses
/// nothing: the closed segments and the open one stand for the bytes read.
pub proof fn lemma_scan(data: Seq<u8>, n: int)
    requires
        0 <= n <= data.len(),
    ensures
        scan(data, n).wf(),
        scan(data, n).count <= n,
        expand(scan(data, n).finish()) == chars_of(data.take(n)),
    decreases n,
{
    let s = scan(data, n);
    if n > 0 {
        lemma_scan(data, n - 1);
        let p = scan(data, n - 1);
        let next = data[n - 1] as char;
        let read = chars_of(data.take(n - 1));
        if p.count != 0 {
            let run = Segment::Run { unit: p.prev, count: p.count };
            lemma_push_segment(p.closed, run);
            if next == p.prev {
                let longer = Segment::Run { unit: p.prev, count: p.count + 1 };
                lemma_push_segment(s.closed, longer);
                assert(expand(s.finish()) =~= read.push(next));
            } else {
                let lit = Segment::Literal { text: seq![next] };
                lemma_push_segment(s.closed, lit);
                assert(s.literal =~= seq![next]);
            }
        } else if p.literal.len() == 0 {
            if next == p.prev {
                let run = Segment::Run { unit: next, count: 1 };
                lemma_push_segment(s.closed, run);
            } else {
                let lit = Segment::Literal { text: seq![next] };
                lemma_push_segment(s.closed, lit);
            }
        } else {
            let open = Segment::Literal { text: p.literal };
            lemma_push_segment(p.closed, open);
            if next == p.prev {
                let head = p.literal.drop_last();
                let run = Segment::Run { unit: next, count: 2 };
                lemma_push_segment(s.closed, run);
                if head.len() > 0 {
                    lemma_push_segment(p.closed, Segment::Literal { text: head });
                }
                assert(expand(s.finish()) =~= read.push(next));
            } else {
                let longer = Segment::Literal { text: p.literal.push(next) };
                lemma_push_segment(s.closed, longer);
            }
        }
    }
}

/// The summary loses nothing: its segments stand for exactly the bytes that
/// were summarized, so two files with the same segments have the same
/// content.
pub proof fn law_summary_lossless(data: Seq<u8>)
    ensures
        expand(segments(data)) == chars_of(data),
{
    lemma_scan(data, data.len() as int);
}

/// Writes the run of `count` times `prev` behind `out`.
pub fn push_iter(prev: char, count: i32, out: &mut String)
    ensures
        final(out)@ == old(out)@ + run_text(prev, count as int),
{
    if count < 0 {
        out.push('-');
        push_decimal(out, (-(count as i64)) as u64);
    } else {
        push_decimal(out, count as u64);
    }
    out.push('/');
    out.push('\'');
    out.push(prev);
    out.push('\'');
}

/// Writes the literal `full_str` behind `out`, or nothing if it is empty.
pub fn push_str(full_str: &String, out: &mut String)
    ensures
        final(out)@ == old(out)@ + literal_text(full_str@),
{
    if full_str.as_str().is_empty() {
        return ;
    }
    let len: usize = full_str.as_str().as_bytes().len();
    out.push('#');
    push_decimal(out, len as u64);
    out.push('\'');
    out.append(full_str.as_str());
    out.push('\'');
}

/// The summary of `data`. The length of a run is counted in an `i32`, which
/// bounds the input.
pub fn compr_str(data: &[u8]) -> (out: String)
    requires
        data@.len() <= i32::MAX,
    ensures
        out@ == summary(data@),
{
    let mut prev: char = '\0';
    let mut count: i32 = 0;
    let mut full_str = String::new();
    let mut out = String::new();
    let n: usize = data.len();
    let mut i: usize = 0;
    while i < n
        invariant
            i <= n,
            n == data@.len(),
            n <= i32::MAX,
            prev == scan(data@, i as int).prev,
            count == scan(data@, i as int).count,
            full_str@ == scan(data@, i as int).literal,
            out@ == render(scan(data@, i as int).closed),
        decreases n - i,
    {
        let ghost before = scan(data@, i as int);
        proof {
            lemma_scan(data@, i as int);
        }
        let next: char = data[i] as char;
        if next == prev {
            if full_str.as_str().is_empty() {
                count += 1;
            } else {
                full_str.pop();
                push_str(&full_str, &mut out);
                full_str.clear();
                count = 2;
                proof {
                    let head = before.literal.drop_last();
                    if head.len() > 0 {
                        lemma_push_segment(before.closed, Segment::Literal { text: head });
                    }
                }
            }
        } else {
            if count != 0 {
                push_iter(prev, count, &mut out);
                count = 0;
                proof {
                    lemma_push_segment(
                        before.closed,
                        Segment::Run { unit: before.prev, count: before.count },
                    );
                }
            }
            full_str.push(next);
        }
        prev = next;
        i += 1;
    }
    let ghost last = scan(data@, n as int);
    if count != 0 {
        push_iter(prev, count, &mut out);
        proof {
            lemma_push_segment(last.closed, Segment::Run { unit: last.prev, count: last.count });
        }
    } else {
        push_str(&full_str, &mut out);
        proof {
            if last.literal.len() > 0 {
                lemma_push_segment(last.closed, Segment::Literal { text: last.literal });
            }
        }
    }
    out
}

} // verus!
