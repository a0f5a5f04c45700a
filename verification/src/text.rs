//! Text helpers: splitting into lines, trimming, and rendering counts.
//!
//! Lines are separated by `'\n'`; a separator preceded by `'\r'` consumes
//! that carriage return too, and a final line needs no terminator. Trimming
//! removes the blank characters that can pad a configuration line: spaces,
//! tabs and stray carriage returns.

use vstd::prelude::*;
use vstd::string::StrSliceExecFns;
use vstd::string::StringExecFns;

verus! {

/// Index of the first `'\n'` in `s`, or `s.len()` when there is none.
pub open spec fn first_newline(s: Seq<char>) -> int
    decreases s.len(),
{
    if s.len() == 0 {
        0
    } else if s[0] == '\n' {
        0
    } else {
        1 + first_newline(s.drop_first())
    }
}

pub proof fn lemma_first_newline(s: Seq<char>)
    ensures
        ({
            let f = first_newline(s);
            &&& 0 <= f <= s.len()
            &&& f < s.len() ==> s[f] == '\n'
            &&& forall|i: int| 0 <= i < f ==> s[i] != '\n'
        }),
    decreases s.len(),
{
    if s.len() == 0 {
    } else if s[0] == '\n' {
    } else {
        lemma_first_newline(s.drop_first());
        let f = first_newline(s);
        assert forall|i: int| 0 <= i < f implies s[i] != '\n' by {
            if i > 0 {
                assert(s.drop_first()[i - 1] == s[i]);
            }
        }
    }
}

/// Conversely: a `'\n'` at `f` with none before it is the first one.
pub proof fn lemma_first_newline_at(s: Seq<char>, f: int)
    requires
        0 <= f <= s.len(),
        f < s.len() ==> s[f] == '\n',
        f == s.len() ==> forall|i: int| 0 <= i < s.len() ==> s[i] != '\n',
        forall|i: int| 0 <= i < f ==> s[i] != '\n',
    ensures
        first_newline(s) == f,
    decreases s.len(),
{
    if s.len() == 0 {
    } else if s[0] == '\n' {
    } else {
        assert(forall|i: int| 0 <= i < s.drop_first().len() ==> s.drop_first()[i] == s[i + 1]);
        lemma_first_newline_at(s.drop_first(), f - 1);
    }
}

/// Drops one trailing carriage return: the remainder of a `"\r\n"` separator
/// once the `'\n'` is consumed.
pub open spec fn chomp_cr(raw: Seq<char>) -> Seq<char> {
    if raw.len() > 0 && raw.last() == '\r' {
        raw.drop_last()
    } else {
        raw
    }
}

/// The lines of `s`: split at each `'\n'` (consuming a preceding `'\r'`),
/// with an optional final terminator producing no empty last line.
pub open spec fn split_lines(s: Seq<char>) -> Seq<Seq<char>>
    decreases s.len(),
{
    if s.len() == 0 {
        seq![]
    } else {
        let f = first_newline(s);
        if 0 <= f < s.len() {
            seq![chomp_cr(s.subrange(0, f))] + split_lines(s.subrange(f + 1, s.len() as int))
        } else {
            seq![s]
        }
    }
}

/// The views of a list of owned strings.
pub open spec fn str_views(v: Seq<String>) -> Seq<Seq<char>> {
    Seq::new(v.len(), |k: int| v[k]@)
}

/// Splits `s` into its lines, as `split_lines` describes.
pub fn lines_of(s: &str) -> (r: Vec<String>)
    ensures
        str_views(r@) == split_lines(s@),
{
    let n = s.unicode_len();
    let mut out: Vec<String> = Vec::new();
    let mut start: usize = 0;
    let mut i: usize = 0;
    proof {
        assert(s@.subrange(0, n as int) =~= s@);
        assert(str_views(out@) + split_lines(s@) =~= split_lines(s@));
    }
    while i < n
        invariant
            n == s@.len(),
            start <= i <= n,
            split_lines(s@) == str_views(out@) + split_lines(
                s@.subrange(start as int, n as int),
            ),
            forall|t: int| start <= t < i ==> s@[t] != '\n',
        decreases n - i,
    {
        if s.get_char(i) == '\n' {
            let end = if i > start && s.get_char(i - 1) == '\r' {
                i - 1
            } else {
                i
            };
            let line = String::from_str(s.substring_char(start, end));
            proof {
                let rem = s@.subrange(start as int, n as int);
                let f = i - start;
                assert(rem[f as int] == s@[i as int]);
                assert forall|t: int| 0 <= t < f implies rem[t] != '\n' by {
                    assert(rem[t] == s@[start + t]);
                }
                lemma_first_newline_at(rem, f as int);
                let raw = rem.subrange(0, f as int);
                assert(raw =~= s@.subrange(start as int, i as int));
                if i > start && s@[i - 1] == '\r' {
                    assert(raw.last() == s@[i - 1]);
                    assert(chomp_cr(raw) =~= s@.subrange(start as int, end as int));
                } else {
                    if raw.len() > 0 {
                        assert(raw.last() == s@[i - 1]);
                    }
                    assert(chomp_cr(raw) =~= s@.subrange(start as int, end as int));
                }
                assert(rem.subrange(f + 1, rem.len() as int) =~= s@.subrange(
                    i + 1,
                    n as int,
                ));
                assert(split_lines(rem) == seq![line@] + split_lines(
                    s@.subrange(i + 1, n as int),
                ));
                assert(str_views(out@.push(line)) =~= str_views(out@) + seq![line@]);
                assert(str_views(out@) + (seq![line@] + split_lines(
                    s@.subrange(i + 1, n as int),
                )) =~= str_views(out@.push(line)) + split_lines(s@.subrange(i + 1, n as int)));
            }
            out.push(line);
            start = i + 1;
        }
        i = i + 1;
    }
    let ghost rem = s@.subrange(start as int, n as int);
    if start < n {
        let line = String::from_str(s.substring_char(start, n));
        proof {
            assert forall|t: int| 0 <= t < rem.len() implies rem[t] != '\n' by {
                assert(rem[t] == s@[start + t]);
            }
            lemma_first_newline_at(rem, rem.len() as int);
            assert(split_lines(rem) == seq![rem]);
            assert(line@ =~= rem);
            assert(str_views(out@.push(line)) =~= str_views(out@) + seq![rem]);
            assert(str_views(out@) + split_lines(rem) =~= str_views(out@.push(line)));
        }
        out.push(line);
    } else {
        proof {
            assert(rem =~= Seq::<char>::empty());
            assert(split_lines(rem) == Seq::<Seq<char>>::empty());
            assert(str_views(out@) + split_lines(rem) =~= str_views(out@));
        }
    }
    out
}

/// Lines joined back together with `'\n'` between them (no terminator).
pub open spec fn join_lines(ls: Seq<Seq<char>>) -> Seq<char>
    decreases ls.len(),
{
    if ls.len() == 0 {
        seq![]
    } else if ls.len() == 1 {
        ls[0]
    } else {
        ls[0] + seq!['\n'] + join_lines(ls.drop_first())
    }
}

/// Joining one more line appends a separator and the line.
pub proof fn lemma_join_lines_take_succ(q: Seq<Seq<char>>, t: int)
    requires
        1 <= t < q.len(),
    ensures
        join_lines(q.take(t + 1)) == join_lines(q.take(t)) + seq!['\n'] + q[t],
    decreases t,
{
    if t == 1 {
        assert(q.take(2).drop_first() =~= seq![q[1]]);
        assert(q.take(1) =~= seq![q[0]]);
        assert(join_lines(seq![q[1]]) == q[1]);
        assert(q.take(2)[0] + seq!['\n'] + q[1] =~= q[0] + seq!['\n'] + q[1]);
        assert(join_lines(q.take(1)) + seq!['\n'] + q[1] =~= q[0] + seq!['\n'] + q[1]);
    } else {
        lemma_join_lines_take_succ(q.drop_first(), t - 1);
        assert(q.take(t + 1).drop_first() =~= q.drop_first().take(t));
        assert(q.take(t).drop_first() =~= q.drop_first().take(t - 1));
        assert(q.take(t + 1).len() == t + 1);
        assert(join_lines(q.take(t + 1)) == q[0] + seq!['\n'] + join_lines(q.drop_first().take(t)));
        assert(join_lines(q.take(t)) == q[0] + seq!['\n'] + join_lines(
            q.drop_first().take(t - 1),
        ));
        assert(q.drop_first()[t - 1] == q[t]);
        assert(q[0] + seq!['\n'] + (join_lines(q.drop_first().take(t - 1)) + seq!['\n'] + q[t])
            =~= (q[0] + seq!['\n'] + join_lines(q.drop_first().take(t - 1))) + seq!['\n'] + q[t]);
    }
}

/// A padding character: blank space that may surround a configuration value
/// on its line (a stray carriage return included).
pub open spec fn is_pad(c: char) -> bool {
    c == ' ' || c == '\t' || c == '\r'
}

pub open spec fn trim_leading(s: Seq<char>) -> Seq<char>
    decreases s.len(),
{
    if s.len() > 0 && is_pad(s[0]) {
        trim_leading(s.drop_first())
    } else {
        s
    }
}

pub open spec fn trim_trailing(s: Seq<char>) -> Seq<char>
    decreases s.len(),
{
    if s.len() > 0 && is_pad(s.last()) {
        trim_trailing(s.drop_last())
    } else {
        s
    }
}

/// `s` with leading and trailing padding removed.
pub open spec fn trim_pad(s: Seq<char>) -> Seq<char> {
    trim_trailing(trim_leading(s))
}

fn is_pad_char(c: char) -> (r: bool)
    ensures
        r == is_pad(c),
{
    c == ' ' || c == '\t' || c == '\r'
}

/// Removes leading and trailing padding from `s`.
pub fn trim<'a>(s: &'a str) -> (r: &'a str)
    ensures
        r@ == trim_pad(s@),
{
    let n = s.unicode_len();
    let mut a: usize = 0;
    proof {
        assert(s@.subrange(0, n as int) =~= s@);
    }
    while a < n
        invariant
            n == s@.len(),
            a <= n,
            trim_leading(s@) == trim_leading(s@.subrange(a as int, n as int)),
        ensures
            a <= n,
            trim_leading(s@) == s@.subrange(a as int, n as int),
        decreases n - a,
    {
        if !is_pad_char(s.get_char(a)) {
            proof {
                assert(s@.subrange(a as int, n as int)[0] == s@[a as int]);
            }
            break;
        }
        proof {
            let cur = s@.subrange(a as int, n as int);
            assert(cur[0] == s@[a as int]);
            assert(cur.drop_first() =~= s@.subrange(a + 1, n as int));
        }
        a = a + 1;
    }
    let mut b: usize = n;
    while b > a
        invariant
            n == s@.len(),
            a <= b <= n,
            trim_trailing(s@.subrange(a as int, n as int)) == trim_trailing(
                s@.subrange(a as int, b as int),
            ),
        ensures
            a <= b <= n,
            trim_trailing(s@.subrange(a as int, n as int)) == s@.subrange(a as int, b as int),
        decreases b - a,
    {
        if !is_pad_char(s.get_char(b - 1)) {
            proof {
                let cur = s@.subrange(a as int, b as int);
                assert(cur.last() == s@[b - 1]);
            }
            break;
        }
        proof {
            let cur = s@.subrange(a as int, b as int);
            assert(cur.last() == s@[b - 1]);
            assert(cur.drop_last() =~= s@.subrange(a as int, b - 1));
        }
        b = b - 1;
    }
    s.substring_char(a, b)
}

/// The character of a single decimal digit.
pub open spec fn digit_char(d: int) -> char {
    if d == 0 {
        '0'
    } else if d == 1 {
        '1'
    } else if d == 2 {
        '2'
    } else if d == 3 {
        '3'
    } else if d == 4 {
        '4'
    } else if d == 5 {
        '5'
    } else if d == 6 {
        '6'
    } else if d == 7 {
        '7'
    } else if d == 8 {
        '8'
    } else {
        '9'
    }
}

/// The decimal rendering of a non-negative integer, most significant digit
/// first, without leading zeros (except for zero itself).
pub open spec fn dec_str(n: int) -> Seq<char>
    decreases n,
{
    if n < 10 {
        seq![digit_char(n)]
    } else {
        dec_str(n / 10) + seq![digit_char(n % 10)]
    }
}

fn digit_str(d: usize) -> (r: &'static str)
    requires
        d < 10,
    ensures
        r@ == seq![digit_char(d as int)],
{
    proof {
        reveal_strlit("0");
        reveal_strlit("1");
        reveal_strlit("2");
        reveal_strlit("3");
        reveal_strlit("4");
        reveal_strlit("5");
        reveal_strlit("6");
        reveal_strlit("7");
        reveal_strlit("8");
        reveal_strlit("9");
    }
    match d {
        0 => "0",
        1 => "1",
        2 => "2",
        3 => "3",
        4 => "4",
        5 => "5",
        6 => "6",
        7 => "7",
        8 => "8",
        _ => "9",
    }
}

/// Renders a count in decimal.
pub fn format_count(n: usize) -> (r: String)
    ensures
        r@ == dec_str(n as int),
    decreases n,
{
    if n < 10 {
        String::from_str(digit_str(n))
    } else {
        let mut s = format_count(n / 10);
        s.append(digit_str(n % 10));
        s
    }
}

} // verus!
