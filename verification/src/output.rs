//! Processing of one invocation's captured output: split the captured text
//! into lines, trim surrounding whitespace from each, and classify every
//! line, stdout before stderr.

use vstd::prelude::*;

use crate::cycle::classify_all;
use crate::cycle::classify_lines;
use crate::msg::Msg;
use crate::msg::first_index_of;
use crate::msg::lemma_first_index_of;

verus! {

/// The characters trimming removes: the Unicode white-space set.
pub open spec fn is_space(c: char) -> bool {
    ||| c == '\u{9}'
    ||| c == '\u{a}'
    ||| c == '\u{b}'
    ||| c == '\u{c}'
    ||| c == '\u{d}'
    ||| c == ' '
    ||| c == '\u{85}'
    ||| c == '\u{a0}'
    ||| c == '\u{1680}'
    ||| c == '\u{2000}'
    ||| c == '\u{2001}'
    ||| c == '\u{2002}'
    ||| c == '\u{2003}'
    ||| c == '\u{2004}'
    ||| c == '\u{2005}'
    ||| c == '\u{2006}'
    ||| c == '\u{2007}'
    ||| c == '\u{2008}'
    ||| c == '\u{2009}'
    ||| c == '\u{200a}'
    ||| c == '\u{2028}'
    ||| c == '\u{2029}'
    ||| c == '\u{202f}'
    ||| c == '\u{205f}'
    ||| c == '\u{3000}'
}

/// Whether `c` is in the white-space set trimming removes.
fn is_space_char(c: char) -> (r: bool)
    ensures
        r == is_space(c),
{
    c == '\u{9}' || c == '\u{a}' || c == '\u{b}' || c == '\u{c}' || c == '\u{d}' || c == ' '
        || c == '\u{85}' || c == '\u{a0}' || c == '\u{1680}' || c == '\u{2000}' || c == '\u{2001}'
        || c == '\u{2002}' || c == '\u{2003}' || c == '\u{2004}' || c == '\u{2005}'
        || c == '\u{2006}' || c == '\u{2007}' || c == '\u{2008}' || c == '\u{2009}'
        || c == '\u{200a}' || c == '\u{2028}' || c == '\u{2029}' || c == '\u{202f}'
        || c == '\u{205f}' || c == '\u{3000}'
}

/// `s` with its leading white space removed.
pub open spec fn trim_front(s: Seq<char>) -> Seq<char>
    decreases s.len(),
{
    if s.len() > 0 && is_space(s[0]) {
        trim_front(s.subrange(1, s.len() as int))
    } else {
        s
    }
}

/// `s` with its trailing white space removed.
pub open spec fn trim_back(s: Seq<char>) -> Seq<char>
    decreases s.len(),
{
    if s.len() > 0 && is_space(s[s.len() - 1]) {
        trim_back(s.subrange(0, s.len() - 1))
    } else {
        s
    }
}

/// `s` with surrounding white space removed.
pub open spec fn trim_of(s: Seq<char>) -> Seq<char> {
    trim_back(trim_front(s))
}

/// Dropping `a` leading white-space characters, up to the first character
/// that is none, is what `trim_front` does.
proof fn lemma_trim_front(s: Seq<char>, a: int)
    requires
        0 <= a <= s.len(),
        forall|j: int| 0 <= j < a ==> is_space(s[j]),
        a < s.len() ==> !is_space(s[a]),
    ensures
        trim_front(s) == s.subrange(a, s.len() as int),
    decreases a,
{
    if a == 0 {
        assert(s.subrange(0, s.len() as int) =~= s);
    } else {
        let tail = s.subrange(1, s.len() as int);
        assert forall|j: int| 0 <= j < a - 1 implies is_space(tail[j]) by {
            assert(tail[j] == s[j + 1]);
        }
        lemma_trim_front(tail, a - 1);
        assert(tail.subrange(a - 1, tail.len() as int) =~= s.subrange(a, s.len() as int));
    }
}

/// Dropping trailing white-space characters, back to the last character that
/// is none, is what `trim_back` does.
proof fn lemma_trim_back(s: Seq<char>, b: int)
    requires
        0 <= b <= s.len(),
        forall|j: int| b <= j < s.len() ==> is_space(s[j]),
        b > 0 ==> !is_space(s[b - 1]),
    ensures
        trim_back(s) == s.subrange(0, b),
    decreases s.len(),
{
    if b == s.len() {
        assert(s.subrange(0, s.len() as int) =~= s);
    } else {
        let head = s.subrange(0, s.len() - 1);
        assert forall|j: int| b <= j < head.len() implies is_space(head[j]) by {
            assert(head[j] == s[j]);
        }
        lemma_trim_back(head, b);
        assert(head.subrange(0, b) =~= s.subrange(0, b));
    }
}

/// `s` with surrounding white space removed, as an owned string.
pub fn trim_line(s: &str) -> (r: String)
    ensures
        r@ == trim_of(s@),
{
    let n = s.unicode_len();
    let mut a: usize = 0;
    while a < n && is_space_char(s.get_char(a))
        invariant
            0 <= a <= n,
            n == s@.len(),
            forall|j: int| 0 <= j < a ==> is_space(s@[j]),
        decreases n - a,
    {
        a += 1;
    }
    let mut b: usize = n;
    while b > a && is_space_char(s.get_char(b - 1))
        invariant
            a <= b <= n,
            n == s@.len(),
            forall|j: int| b <= j < n ==> is_space(s@[j]),
        decreases b,
    {
        b -= 1;
    }
    let t = s.substring_char(a, b);
    proof {
        lemma_trim_front(s@, a as int);
        let f = s@.subrange(a as int, n as int);
        assert forall|j: int| b - a <= j < f.len() implies is_space(f[j]) by {
            assert(f[j] == s@[a + j]);
        }
        lemma_trim_back(f, b - a);
        assert(t@ =~= f.subrange(0, b - a));
    }
    String::from_str(t)
}

/// The lines of captured output: the segments between `\n` characters, with
/// no trailing empty segment when the text ends in `\n`, and none at all
/// when the text is empty.
pub open spec fn split_lines(s: Seq<char>) -> Seq<Seq<char>>
    decreases s.len(),
        via split_lines_decreases
{
    if s.len() == 0 {
        Seq::empty()
    } else {
        let i = first_index_of(s, '\n');
        if i >= s.len() {
            seq![s]
        } else {
            seq![s.subrange(0, i)] + split_lines(s.subrange(i + 1, s.len() as int))
        }
    }
}

#[via_fn]
proof fn split_lines_decreases(s: Seq<char>) {
    lemma_first_index_of(s, '\n');
}

/// The lines of captured output, each with surrounding white space removed.
pub open spec fn trimmed_lines(s: Seq<char>) -> Seq<Seq<char>> {
    split_lines(s).map_values(|l: Seq<char>| trim_of(l))
}

/// The position of the first `\n` at or after `start`, or the text's length
/// when there is none.
fn find_newline(s: &str, start: usize) -> (i: usize)
    requires
        start <= s@.len(),
    ensures
        start <= i <= s@.len(),
        forall|j: int| start <= j < i ==> s@[j] != '\n',
        i < s@.len() ==> s@[i as int] == '\n',
{
    let n = s.unicode_len();
    let mut i: usize = start;
    while i < n
        invariant
            start <= i <= n,
            n == s@.len(),
            forall|j: int| start <= j < i ==> s@[j] != '\n',
        decreases n - i,
    {
        if s.get_char(i) == '\n' {
            return i;
        }
        i += 1;
    }
    n
}

/// Split captured output into lines and trim each, in order.
pub fn split_trim_lines(s: &str) -> (r: Vec<String>)
    ensures
        r.deep_view() == trimmed_lines(s@),
{
    let n = s.unicode_len();
    let mut r: Vec<String> = Vec::new();
    let mut start: usize = 0;
    proof {
        assert(s@.subrange(0, n as int) =~= s@);
        assert(r.deep_view() + trimmed_lines(s@) =~= trimmed_lines(s@));
    }
    while start < n
        invariant
            0 <= start <= n,
            n == s@.len(),
            trimmed_lines(s@) == r.deep_view() + trimmed_lines(
                s@.subrange(start as int, n as int),
            ),
        decreases n - start,
    {
        let i = find_newline(s, start);
        let line = s.substring_char(start, i);
        let t = trim_line(line);
        proof {
            let rest = s@.subrange(start as int, n as int);
            lemma_first_index_of(rest, '\n');
            assert forall|j: int| 0 <= j < i - start implies rest[j] != '\n' by {
                assert(rest[j] == s@[start + j]);
            }
            if i < n {
                assert(rest[i - start] == s@[i as int]);
            }
            assert(first_index_of(rest, '\n') == i - start);
            assert(rest.subrange(0, i - start) =~= line@);
            if i < n {
                assert(rest.subrange(i - start + 1, rest.len() as int) =~= s@.subrange(
                    i + 1,
                    n as int,
                ));
                assert(split_lines(rest) == seq![line@] + split_lines(
                    s@.subrange(i + 1, n as int),
                ));
            } else {
                assert(rest =~= line@);
                assert(split_lines(rest) == seq![line@]);
                assert(s@.subrange(n as int, n as int) =~= Seq::<char>::empty());
            }
        }
        r.push(t);
        proof {
            let next: int = if i < n {
                i as int + 1
            } else {
                n as int
            };
            assert(trimmed_lines(s@) =~= r.deep_view() + trimmed_lines(
                s@.subrange(next, n as int),
            ));
        }
        start = if i < n {
            i + 1
        } else {
            n
        };
    }
    proof {
        assert(s@.subrange(n as int, n as int) =~= Seq::<char>::empty());
        assert(trimmed_lines(s@) =~= r.deep_view());
    }
    r
}

/// Classify one invocation's captured output: one message per trimmed line,
/// all stdout lines first, then all stderr lines.
pub fn classify_captured(stdout_text: &str, stderr_text: &str) -> (r: Vec<Msg>)
    ensures
        r.deep_view() == classify_all(trimmed_lines(stdout_text@) + trimmed_lines(stderr_text@)),
{
    let mut lines = split_trim_lines(stdout_text);
    let mut err_lines = split_trim_lines(stderr_text);
    lines.append(&mut err_lines);
    proof {
        assert(lines.deep_view() =~= trimmed_lines(stdout_text@) + trimmed_lines(stderr_text@));
    }
    classify_lines(&lines)
}

} // verus!
