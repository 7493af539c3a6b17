//! Splitting a file's text into chunks of a fixed number of lines.

use vstd::prelude::*;
use vstd::std_specs::iter::IteratorSpec;
use crate::text::{all_white_space, is_blank, join_range, joined, push_char, views};

verus! {

/// How many lines make one chunk.
pub const LINES_PER_CHUNK: usize = 10;

/// A line without the carriage return that precedes its newline.
pub open spec fn strip_cr(line: Seq<char>) -> Seq<char> {
    if line.len() > 0 && line.last() == '\r' {
        line.drop_last()
    } else {
        line
    }
}

/// After reading `s`: the lines that a newline has ended, and the line
/// still open.
pub open spec fn line_scan(s: Seq<char>) -> (Seq<Seq<char>>, Seq<char>)
    decreases s.len(),
{
    if s.len() == 0 {
        (Seq::empty(), Seq::empty())
    } else {
        let (done, open) = line_scan(s.drop_last());
        if s.last() == '\n' {
            (done.push(strip_cr(open)), Seq::empty())
        } else {
            (done, open.push(s.last()))
        }
    }
}

/// The lines of `s`, as `str::lines` yields them: split at `\n` or `\r\n`,
/// terminators removed, and no empty line after a final terminator.
pub open spec fn lines_of(s: Seq<char>) -> Seq<Seq<char>> {
    let (done, open) = line_scan(s);
    if open.len() == 0 {
        done
    } else {
        done.push(open)
    }
}

/// The `k`-th group of lines, joined by newlines.
pub open spec fn window(lines: Seq<Seq<char>>, k: int) -> Seq<char> {
    let lo = k * LINES_PER_CHUNK;
    let hi = if lo + LINES_PER_CHUNK <= lines.len() {
        lo + LINES_PER_CHUNK
    } else {
        lines.len() as int
    };
    joined(lines.subrange(lo, hi), seq!['\n'])
}

/// All groups of lines, in order; the last one may be shorter.
pub open spec fn windows(lines: Seq<Seq<char>>) -> Seq<Seq<char>> {
    Seq::new(
        ((lines.len() + LINES_PER_CHUNK - 1) / LINES_PER_CHUNK as int) as nat,
        |k: int| window(lines, k),
    )
}

/// Whether a chunk holds anything but white space.
pub open spec fn has_content() -> spec_fn(Seq<char>) -> bool {
    |c: Seq<char>| !all_white_space(c)
}

/// The chunks of a text: its groups of lines that are not all white space.
pub open spec fn chunks_of(text: Seq<char>) -> Seq<Seq<char>> {
    windows(lines_of(text)).filter(has_content())
}

/// The lines of `text`, as `str::lines` yields them.
pub fn split_lines(text: &str) -> (r: Vec<String>)
    ensures
        views(r@) == lines_of(text@),
{
    let ghost all = text@;
    let mut it = text.chars();
    let mut done: Vec<String> = Vec::new();
    let mut open = String::new();
    let mut held_cr = false;
    let ghost mut i: int = 0;
    loop
        invariant
            all == text@,
            0 <= i <= all.len(),
            it.remaining() == all.subrange(i, all.len() as int),
            it.obeys_prophetic_iter_laws(),
            views(done@) == line_scan(all.subrange(0, i)).0,
            line_scan(all.subrange(0, i)).1 == (if held_cr {
                open@.push('\r')
            } else {
                open@
            }),
            !held_cr ==> (open@.len() == 0 || open@.last() != '\r'),
        decreases all.len() - i,
    {
        proof {
            broadcast use vstd::string::group_string_axioms;
        }
        match it.next() {
            None => {
                proof {
                    assert(all.subrange(0, i) =~= all);
                }
                if held_cr {
                    push_char(&mut open, '\r');
                }
                if !open.as_str().is_empty() {
                    proof {
                        assert(open@.len() > 0);
                    }
                    done.push(open);
                    assert(views(done@) =~= lines_of(all));
                } else {
                    proof {
                        assert(open@.len() == 0);
                    }
                }
                return done;
            },
            Some(c) => {
                let ghost pre = all.subrange(0, i);
                let ghost next = all.subrange(0, i + 1);
                assert(next.drop_last() =~= pre);
                assert(next.last() == c);
                if c == '\n' {
                    proof {
                        assert(open@.push('\r').drop_last() =~= open@);
                        assert(strip_cr(line_scan(pre).1) == open@);
                    }
                    let line = open;
                    open = String::new();
                    held_cr = false;
                    done.push(line);
                    assert(views(done@) =~= line_scan(next).0);
                    assert(line_scan(next).1 =~= open@);
                } else {
                    if held_cr {
                        push_char(&mut open, '\r');
                    }
                    if c == '\r' {
                        held_cr = true;
                    } else {
                        held_cr = false;
                        push_char(&mut open, c);
                    }
                }
                proof {
                    i = i + 1;
                }
            },
        }
    }
}

/// Splits `text` into chunks of `LINES_PER_CHUNK` lines joined by `\n`,
/// leaving out chunks that are white space only.
pub fn chunk_text(text: &str) -> (r: Vec<String>)
    ensures
        views(r@) == chunks_of(text@),
{
    let lines = split_lines(text);
    let ghost ls = lines_of(text@);
    let n = lines.len();
    let mut out: Vec<String> = Vec::new();
    let mut lo: usize = 0;
    let ghost mut k: int = 0;
    while lo < n
        invariant
            n == lines@.len(),
            views(lines@) == ls,
            lo < n ==> lo == k * LINES_PER_CHUNK,
            0 <= k,
            k <= windows(ls).len(),
            lo < n ==> k < windows(ls).len(),
            lo >= n ==> k == windows(ls).len(),
            views(out@) == windows(ls).take(k).filter(has_content()),
        decreases n - lo,
    {
        let hi = if n - lo >= LINES_PER_CHUNK {
            lo + LINES_PER_CHUNK
        } else {
            n
        };
        let chunk = join_range(&lines, lo, hi, "\n");
        proof {
            reveal_strlit("\n");
            assert("\n"@ =~= seq!['\n']);
            assert(views(lines@.subrange(lo as int, hi as int)) =~= ls.subrange(lo as int, hi as int));
            assert(chunk@ == window(ls, k));
            assert(windows(ls).take(k + 1).drop_last() =~= windows(ls).take(k));
            assert(windows(ls).take(k + 1).last() == chunk@);
        }
        let ghost before = views(out@);
        let ghost cv = chunk@;
        let blank = is_blank(chunk.as_str());
        assert(blank == all_white_space(cv));
        if !blank {
            out.push(chunk);
            assert(views(out@) =~= before.push(cv));
            assert(has_content()(cv));
            assert(views(out@) =~= windows(ls).take(k + 1).filter(has_content())) by {
                reveal(Seq::filter);
            }
        } else {
            assert(views(out@) =~= windows(ls).take(k + 1).filter(has_content())) by {
                reveal(Seq::filter);
            }
        }
        proof {
            let w = (n + LINES_PER_CHUNK - 1) / LINES_PER_CHUNK as int;
            assert(windows(ls).len() == w);
            if hi < n {
                assert(k + 1 < w);
            } else {
                assert(k + 1 == w);
            }
        }
        lo = hi;
        proof {
            k = k + 1;
        }
    }
    assert(windows(ls).take(k) =~= windows(ls));
    out
}

/// Chunking is deterministic: the same text always gives the same chunks,
/// and so the same digests.
pub proof fn lemma_chunking_deterministic(a: Seq<char>, b: Seq<char>)
    requires
        a == b,
    ensures
        chunks_of(a) == chunks_of(b),
        chunks_of(a).map_values(|c: Seq<char>| crate::digest::chunk_digest(c)) == chunks_of(
            b,
        ).map_values(|c: Seq<char>| crate::digest::chunk_digest(c)),
{
}

} // verus!
