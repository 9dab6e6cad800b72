use vstd::prelude::*;

use crate::text::{decimal, decimal_digit, string_of};

verus! {

/// The Unicode `White_Space` characters, the ones `char::is_whitespace` accepts.
pub open spec fn is_white_space(c: char) -> bool {
    ||| '\t' <= c <= '\r'
    ||| c == ' '
    ||| c == '\u{85}'
    ||| c == '\u{A0}'
    ||| c == '\u{1680}'
    ||| '\u{2000}' <= c <= '\u{200A}'
    ||| c == '\u{2028}'
    ||| c == '\u{2029}'
    ||| c == '\u{202F}'
    ||| c == '\u{205F}'
    ||| c == '\u{3000}'
}

/// Whether `c` is white space.
pub fn white_space(c: char) -> (b: bool)
    ensures
        b == is_white_space(c),
{
    ('\t' <= c && c <= '\r') || c == ' ' || c == '\u{85}' || c == '\u{A0}' || c == '\u{1680}' || (
    '\u{2000}' <= c && c <= '\u{200A}') || c == '\u{2028}' || c == '\u{2029}' || c == '\u{202F}'
        || c == '\u{205F}' || c == '\u{3000}'
}

/// The pieces of `s` between occurrences of `sep`, scanning from `pos` with the current piece
/// starting at `start` (`str::split` with a character separator).
pub open spec fn split_from(s: Seq<char>, sep: char, start: int, pos: int) -> Seq<Seq<char>>
    decreases s.len() - pos,
{
    if pos >= s.len() {
        seq![s.subrange(start, s.len() as int)]
    } else if s[pos] == sep {
        seq![s.subrange(start, pos)] + split_from(s, sep, pos + 1, pos + 1)
    } else {
        split_from(s, sep, start, pos + 1)
    }
}

/// `s.split(sep)`: the pieces between the separators, empty pieces included.
pub open spec fn split_char(s: Seq<char>, sep: char) -> Seq<Seq<char>> {
    split_from(s, sep, 0, 0)
}

/// `str::splitn(n, sep)` from `pos`, the current piece starting at `start`: at most `n`
/// pieces, the last one holding the rest of the string.
pub open spec fn splitn_from(s: Seq<char>, sep: char, n: int, start: int, pos: int) -> Seq<Seq<char>>
    decreases s.len() - pos,
{
    if pos >= s.len() || n <= 1 {
        seq![s.subrange(start, s.len() as int)]
    } else if s[pos] == sep {
        seq![s.subrange(start, pos)] + splitn_from(s, sep, n - 1, pos + 1, pos + 1)
    } else {
        splitn_from(s, sep, n, start, pos + 1)
    }
}

/// `s.splitn(n, sep)` for `n >= 1`.
pub open spec fn splitn_char(s: Seq<char>, n: int, sep: char) -> Seq<Seq<char>> {
    splitn_from(s, sep, n, 0, 0)
}

/// The runs of non-white-space characters of `s` from `pos`, the current run starting at
/// `start` (`str::split_whitespace`).
pub open spec fn words_from(s: Seq<char>, start: int, pos: int) -> Seq<Seq<char>>
    decreases s.len() - pos,
{
    if pos >= s.len() {
        if start < s.len() {
            seq![s.subrange(start, s.len() as int)]
        } else {
            seq![]
        }
    } else if is_white_space(s[pos]) {
        (if start < pos {
            seq![s.subrange(start, pos)]
        } else {
            seq![]
        }) + words_from(s, pos + 1, pos + 1)
    } else {
        words_from(s, start, pos + 1)
    }
}

/// `s.split_whitespace()`.
pub open spec fn words(s: Seq<char>) -> Seq<Seq<char>> {
    words_from(s, 0, 0)
}

/// A line without its carriage return, when it ends with one.
pub open spec fn strip_cr(l: Seq<char>) -> Seq<char> {
    if l.len() > 0 && l.last() == '\r' {
        l.drop_last()
    } else {
        l
    }
}

/// `s.lines()`: the pieces ended by `'\n'` without a trailing `'\r'`, then the rest of the
/// string when it is not empty.
pub open spec fn lines(s: Seq<char>) -> Seq<Seq<char>> {
    let pieces = split_char(s, '\n');
    let ended = pieces.drop_last().map_values(|l: Seq<char>| strip_cr(l));
    if pieces.last().len() > 0 {
        ended.push(pieces.last())
    } else {
        ended
    }
}

/// `s` without leading white space.
pub open spec fn trim_start(s: Seq<char>) -> Seq<char>
    decreases s.len(),
{
    if s.len() > 0 && is_white_space(s[0]) {
        trim_start(s.drop_first())
    } else {
        s
    }
}

/// `s` without trailing white space.
pub open spec fn trim_end(s: Seq<char>) -> Seq<char>
    decreases s.len(),
{
    if s.len() > 0 && is_white_space(s.last()) {
        trim_end(s.drop_last())
    } else {
        s
    }
}

/// `s.trim()`.
pub open spec fn trim(s: Seq<char>) -> Seq<char> {
    trim_end(trim_start(s))
}

/// An ASCII decimal digit.
pub open spec fn is_digit(c: char) -> bool {
    '0' <= c <= '9'
}

/// The value of a string of decimal digits.
pub open spec fn digits_value(s: Seq<char>) -> int
    decreases s.len(),
{
    if s.len() == 0 {
        0
    } else {
        digits_value(s.drop_last()) * 10 + (s.last() as int - '0' as int)
    }
}

/// `s` without one leading `'+'`.
pub open spec fn unsigned_digits(s: Seq<char>) -> Seq<char> {
    if s.len() > 0 && s[0] == '+' {
        s.drop_first()
    } else {
        s
    }
}

/// `s.parse::<u32>()`: an optional `'+'`, then at least one decimal digit and nothing else,
/// with a value that fits in a `u32`.
pub open spec fn parse_u32_spec(s: Seq<char>) -> Option<u32> {
    let d = unsigned_digits(s);
    if d.len() > 0 && (forall|i: int| 0 <= i < d.len() ==> is_digit(#[trigger] d[i]))
        && digits_value(d) <= u32::MAX {
        Some(digits_value(d) as u32)
    } else {
        None
    }
}

proof fn lemma_split_step(s: Seq<char>, sep: char, start: int, pos: int)
    requires
        0 <= start <= pos < s.len(),
    ensures
        s[pos] == sep ==> split_from(s, sep, start, pos) == seq![s.subrange(start, pos)]
            + split_from(s, sep, pos + 1, pos + 1),
        s[pos] != sep ==> split_from(s, sep, start, pos) == split_from(s, sep, start, pos + 1),
{
}

/// `v.split(sep)`, every piece as a `String`.
pub fn split_on(v: &Vec<char>, sep: char) -> (out: Vec<String>)
    ensures
        out.deep_view() == split_char(v@, sep),
{
    let mut out: Vec<String> = Vec::new();
    let mut start: usize = 0;
    let mut pos: usize = 0;
    while pos < v.len()
        invariant
            start <= pos <= v@.len(),
            out.deep_view() + split_from(v@, sep, start as int, pos as int) == split_char(v@, sep),
        decreases v@.len() - pos,
    {
        proof {
            lemma_split_step(v@, sep, start as int, pos as int);
        }
        if v[pos] == sep {
            let ghost before = out.deep_view();
            let piece = string_of(v, start, pos);
            out.push(piece);
            proof {
                assert(out.deep_view() =~= before.push(piece@));
                assert(before + (seq![piece@] + split_from(v@, sep, pos + 1, pos + 1)) =~= out.deep_view()
                    + split_from(v@, sep, pos + 1, pos + 1));
            }
            start = pos + 1;
        }
        pos = pos + 1;
    }
    let ghost before = out.deep_view();
    let piece = string_of(v, start, v.len());
    out.push(piece);
    proof {
        assert(out.deep_view() =~= before.push(piece@));
        assert(before + seq![piece@] =~= out.deep_view());
    }
    out
}

proof fn lemma_splitn_step(s: Seq<char>, sep: char, n: int, start: int, pos: int)
    requires
        0 <= start <= pos < s.len(),
        n > 1,
    ensures
        s[pos] == sep ==> splitn_from(s, sep, n, start, pos) == seq![s.subrange(start, pos)]
            + splitn_from(s, sep, n - 1, pos + 1, pos + 1),
        s[pos] != sep ==> splitn_from(s, sep, n, start, pos) == splitn_from(s, sep, n, start, pos + 1),
{
}

/// `v.splitn(n, sep)`, every piece as a `String`.
pub fn splitn_on(v: &Vec<char>, n: usize, sep: char) -> (out: Vec<String>)
    requires
        n >= 1,
    ensures
        out.deep_view() == splitn_char(v@, n as int, sep),
{
    let mut out: Vec<String> = Vec::new();
    let mut start: usize = 0;
    let mut pos: usize = 0;
    let mut left: usize = n;
    while pos < v.len() && left > 1
        invariant
            start <= pos <= v@.len(),
            1 <= left <= n,
            out.deep_view() + splitn_from(v@, sep, left as int, start as int, pos as int) == splitn_char(
                v@,
                n as int,
                sep,
            ),
        decreases v@.len() - pos,
    {
        proof {
            lemma_splitn_step(v@, sep, left as int, start as int, pos as int);
        }
        if v[pos] == sep {
            let ghost before = out.deep_view();
            let piece = string_of(v, start, pos);
            out.push(piece);
            proof {
                assert(out.deep_view() =~= before.push(piece@));
                assert(before + (seq![piece@] + splitn_from(v@, sep, left - 1, pos + 1, pos + 1))
                    =~= out.deep_view() + splitn_from(v@, sep, left - 1, pos + 1, pos + 1));
            }
            start = pos + 1;
            left = left - 1;
        }
        pos = pos + 1;
    }
    let ghost before = out.deep_view();
    let piece = string_of(v, start, v.len());
    out.push(piece);
    proof {
        assert(out.deep_view() =~= before.push(piece@));
        assert(before + seq![piece@] =~= out.deep_view());
    }
    out
}

proof fn lemma_words_step(s: Seq<char>, start: int, pos: int)
    requires
        0 <= start <= pos < s.len(),
    ensures
        is_white_space(s[pos]) ==> words_from(s, start, pos) == (if start < pos {
            seq![s.subrange(start, pos)]
        } else {
            seq![]
        }) + words_from(s, pos + 1, pos + 1),
        !is_white_space(s[pos]) ==> words_from(s, start, pos) == words_from(s, start, pos + 1),
{
}

/// `v.split_whitespace()`, every word as a `String`.
pub fn words_of(v: &Vec<char>) -> (out: Vec<String>)
    ensures
        out.deep_view() == words(v@),
{
    let mut out: Vec<String> = Vec::new();
    let mut start: usize = 0;
    let mut pos: usize = 0;
    while pos < v.len()
        invariant
            start <= pos <= v@.len(),
            out.deep_view() + words_from(v@, start as int, pos as int) == words(v@),
        decreases v@.len() - pos,
    {
        proof {
            lemma_words_step(v@, start as int, pos as int);
        }
        if white_space(v[pos]) {
            if start < pos {
                let ghost before = out.deep_view();
                let piece = string_of(v, start, pos);
                out.push(piece);
                proof {
                    assert(out.deep_view() =~= before.push(piece@));
                    assert(before + (seq![piece@] + words_from(v@, pos + 1, pos + 1)) =~= out.deep_view()
                        + words_from(v@, pos + 1, pos + 1));
                }
            } else {
                proof {
                    assert(seq![] + words_from(v@, pos + 1, pos + 1) =~= words_from(v@, pos + 1, pos + 1));
                }
            }
            start = pos + 1;
        }
        pos = pos + 1;
    }
    if start < v.len() {
        let ghost before = out.deep_view();
        let piece = string_of(v, start, v.len());
        out.push(piece);
        proof {
            assert(out.deep_view() =~= before.push(piece@));
            assert(before + seq![piece@] =~= out.deep_view());
        }
    } else {
        proof {
            assert(out.deep_view() + seq![] =~= out.deep_view());
        }
    }
    out
}

/// `v.lines()`, every line as a `String`.
pub fn lines_of(v: &Vec<char>) -> (out: Vec<String>)
    ensures
        out.deep_view() == lines(v@),
{
    let pieces = split_on(v, '\n');
    let ghost ps = split_char(v@, '\n');
    proof {
        lemma_split_nonempty(v@, '\n', 0, 0);
    }
    let k = pieces.len() - 1;
    let mut out: Vec<String> = Vec::new();
    for i in 0..k
        invariant
            k + 1 == pieces@.len(),
            pieces.deep_view() == ps,
            out.deep_view() =~= ps.take(i as int).map_values(|l: Seq<char>| strip_cr(l)),
    {
        let p = &pieces[i];
        proof {
            assert(pieces.deep_view()[i as int] == p@);
        }
        let chars = crate::text::chars_of(p.as_str());
        let m = chars.len();
        let line = if m > 0 && chars[m - 1] == '\r' {
            string_of(&chars, 0, m - 1)
        } else {
            string_of(&chars, 0, m)
        };
        let ghost before = out.deep_view();
        out.push(line);
        proof {
            assert(chars@.subrange(0, m as int) =~= chars@);
            if m > 0 && chars@[m - 1] == '\r' {
                assert(chars@.subrange(0, m - 1) =~= chars@.drop_last());
            }
            assert(out.deep_view() =~= before.push(line@));
            assert(ps.take(i + 1).map_values(|l: Seq<char>| strip_cr(l)) =~= ps.take(i as int).map_values(
                |l: Seq<char>| strip_cr(l),
            ).push(strip_cr(ps[i as int])));
        }
    }
    let last = &pieces[k];
    proof {
        assert(pieces.deep_view()[k as int] == last@);
        assert(ps.take(k as int) =~= ps.drop_last());
    }
    if !last.as_str().is_empty() {
        let ghost before = out.deep_view();
        out.push(last.clone());
        proof {
            assert(out.deep_view() =~= before.push(last@));
        }
    }
    out
}

/// `split_char` yields at least one piece.
pub proof fn lemma_split_nonempty(s: Seq<char>, sep: char, start: int, pos: int)
    requires
        0 <= start <= pos <= s.len(),
    ensures
        split_from(s, sep, start, pos).len() >= 1,
    decreases s.len() - pos,
{
    if pos < s.len() {
        lemma_split_nonempty(s, sep, if s[pos] == sep {
            pos + 1
        } else {
            start
        }, pos + 1);
    }
}

/// `v.trim()` as a `String`.
pub fn trim_of(v: &Vec<char>) -> (out: String)
    ensures
        out@ == trim(v@),
{
    let n = v.len();
    let mut a: usize = 0;
    proof {
        assert(v@.subrange(0, n as int) =~= v@);
    }
    while a < n && white_space(v[a])
        invariant
            a <= n == v@.len(),
            trim_start(v@.subrange(a as int, n as int)) == trim_start(v@),
        decreases n - a,
    {
        proof {
            assert(v@.subrange(a as int, n as int).drop_first() =~= v@.subrange(a + 1, n as int));
        }
        a = a + 1;
    }
    proof {
        assert(v@.subrange(0, n as int) =~= v@);
    }
    let mut b: usize = n;
    while b > a && white_space(v[b - 1])
        invariant
            a <= b <= n == v@.len(),
            trim_start(v@) == v@.subrange(a as int, n as int),
            trim_end(v@.subrange(a as int, b as int)) == trim(v@),
        decreases b,
    {
        proof {
            assert(v@.subrange(a as int, b as int).drop_last() =~= v@.subrange(a as int, b - 1));
        }
        b = b - 1;
    }
    string_of(v, a, b)
}

proof fn lemma_digits_value_nonneg(s: Seq<char>)
    requires
        forall|i: int| 0 <= i < s.len() ==> is_digit(#[trigger] s[i]),
    ensures
        digits_value(s) >= 0,
    decreases s.len(),
{
    if s.len() > 0 {
        lemma_digits_value_nonneg(s.drop_last());
    }
}

proof fn lemma_digits_value_grows(s: Seq<char>, i: int)
    requires
        0 <= i <= s.len(),
        forall|j: int| 0 <= j < s.len() ==> is_digit(#[trigger] s[j]),
    ensures
        digits_value(s.take(i)) <= digits_value(s),
    decreases s.len() - i,
{
    if i < s.len() {
        lemma_digits_value_grows(s, i + 1);
        assert(s.take(i + 1).drop_last() =~= s.take(i));
        lemma_digits_value_nonneg(s.take(i));
    } else {
        assert(s.take(i) =~= s);
    }
}

/// `v.parse::<u32>().ok()`.
pub fn parse_u32(v: &Vec<char>) -> (r: Option<u32>)
    ensures
        r == parse_u32_spec(v@),
{
    let n = v.len();
    let first: usize = if n > 0 && v[0] == '+' {
        1
    } else {
        0
    };
    let ghost d = v@.subrange(first as int, n as int);
    proof {
        if n > 0 && v@[0] == '+' {
            assert(d =~= v@.drop_first());
        } else {
            assert(d =~= v@);
        }
    }
    proof {
        assert(d == unsigned_digits(v@));
    }
    if first == n {
        return None;
    }
    let mut acc: u64 = 0;
    let mut i: usize = first;
    while i < n
        invariant
            first <= i <= n == v@.len(),
            first < n,
            d == v@.subrange(first as int, n as int),
            d == unsigned_digits(v@),
            forall|j: int| 0 <= j < i - first ==> is_digit(#[trigger] d[j]),
            acc == digits_value(d.take(i - first)),
            acc <= u32::MAX,
        decreases n - i,
    {
        let c = v[i];
        if !('0' <= c && c <= '9') {
            proof {
                assert(d[i - first] == c);
                assert(!is_digit(d[i - first]));
            }
            return None;
        }
        let digit = (c as u32 - '0' as u32) as u64;
        let next = acc * 10 + digit;
        proof {
            assert(d.take(i + 1 - first).drop_last() =~= d.take(i - first));
            assert(d.take(i + 1 - first).last() == c);
            assert(digits_value(d.take(i + 1 - first)) == digits_value(d.take(i - first)) * 10 + (c as int
                - '0' as int));
            assert(next == digits_value(d.take(i + 1 - first)));
        }
        if next > 4294967295 {
            proof {
                let k = i + 1 - first;
                if forall|j: int| 0 <= j < d.len() ==> is_digit(#[trigger] d[j]) {
                    lemma_digits_value_grows(d, k);
                }
            }
            return None;
        }
        acc = next;
        i = i + 1;
    }
    proof {
        assert(d.take(n - first) =~= d);
    }
    Some(acc as u32)
}

/// The pieces joined back together, `sep` between neighbours (`slice::join`).
pub open spec fn join_with(pieces: Seq<Seq<char>>, sep: char) -> Seq<char>
    decreases pieces.len(),
{
    if pieces.len() == 0 {
        Seq::empty()
    } else if pieces.len() == 1 {
        pieces[0]
    } else {
        pieces[0] + seq![sep] + join_with(pieces.drop_first(), sep)
    }
}

proof fn lemma_split_from_join(s: Seq<char>, sep: char, start: int, pos: int)
    requires
        0 <= start <= pos <= s.len(),
        forall|i: int| start <= i < pos ==> s[i] != sep,
    ensures
        join_with(split_from(s, sep, start, pos), sep) == s.subrange(start, s.len() as int),
        forall|i: int| 0 <= i < split_from(s, sep, start, pos).len() ==> !(#[trigger] split_from(
            s,
            sep,
            start,
            pos,
        )[i]).contains(sep),
    decreases s.len() - pos,
{
    if pos >= s.len() {
        let piece = s.subrange(start, s.len() as int);
        assert(split_from(s, sep, start, pos) == seq![piece]);
        assert forall|i: int| 0 <= i < split_from(s, sep, start, pos).len() implies !(#[trigger] split_from(
            s,
            sep,
            start,
            pos,
        )[i]).contains(sep) by {
            if piece.contains(sep) {
                let j = choose|j: int| 0 <= j < piece.len() && piece[j] == sep;
                assert(s[start + j] == sep);
            }
        }
    } else if s[pos] == sep {
        let piece = s.subrange(start, pos);
        let rest = split_from(s, sep, pos + 1, pos + 1);
        lemma_split_from_join(s, sep, pos + 1, pos + 1);
        lemma_split_nonempty(s, sep, pos + 1, pos + 1);
        let all = seq![piece] + rest;
        assert(split_from(s, sep, start, pos) == all);
        assert(all.drop_first() =~= rest);
        assert(all[0] == piece);
        assert(join_with(all, sep) == piece + seq![sep] + join_with(rest, sep));
        assert(piece + seq![sep] + s.subrange(pos + 1, s.len() as int) =~= s.subrange(start, s.len() as int));
        assert forall|i: int| 0 <= i < all.len() implies !(#[trigger] all[i]).contains(sep) by {
            if i == 0 {
                if piece.contains(sep) {
                    let j = choose|j: int| 0 <= j < piece.len() && piece[j] == sep;
                    assert(s[start + j] == sep);
                }
            } else {
                assert(all[i] == rest[i - 1]);
            }
        }
    } else {
        lemma_split_from_join(s, sep, start, pos + 1);
    }
}

/// Splitting at a separator and joining the pieces with it gives the string back, and no
/// piece holds the separator.
pub proof fn law_split_then_join(s: Seq<char>, sep: char)
    ensures
        join_with(split_char(s, sep), sep) == s,
        forall|i: int| 0 <= i < split_char(s, sep).len() ==> !(#[trigger] split_char(s, sep)[i]).contains(sep),
{
    lemma_split_from_join(s, sep, 0, 0);
    assert(s.subrange(0, s.len() as int) =~= s);
}

/// No line holds a line feed.
pub proof fn law_lines_hold_no_newline(s: Seq<char>)
    ensures
        forall|i: int| 0 <= i < lines(s).len() ==> !(#[trigger] lines(s)[i]).contains('\n'),
{
    let pieces = split_char(s, '\n');
    law_split_then_join(s, '\n');
    lemma_split_nonempty(s, '\n', 0, 0);
    assert forall|i: int| 0 <= i < lines(s).len() implies !(#[trigger] lines(s)[i]).contains('\n') by {
        if i < pieces.len() - 1 {
            let p = pieces[i];
            assert(!p.contains('\n'));
            assert(lines(s)[i] == strip_cr(p));
            if strip_cr(p).contains('\n') {
                let j = choose|j: int| 0 <= j < strip_cr(p).len() && strip_cr(p)[j] == '\n';
                assert(p[j] == '\n');
            }
        } else {
            assert(lines(s)[i] == pieces.last());
            assert(!pieces[pieces.len() - 1].contains('\n'));
        }
    }
}

/// Decimal renderings consist of digits and denote the number rendered.
pub proof fn law_decimal_denotes(n: nat)
    ensures
        decimal(n).len() > 0,
        forall|i: int| 0 <= i < decimal(n).len() ==> is_digit(#[trigger] decimal(n)[i]),
        digits_value(decimal(n)) == n,
    decreases n,
{
    if n >= 10 {
        law_decimal_denotes(n / 10);
        let d = decimal(n);
        assert(d.drop_last() =~= decimal(n / 10));
        assert(d.last() == decimal_digit((n % 10) as int));
        assert forall|i: int| 0 <= i < d.len() implies is_digit(#[trigger] d[i]) by {
            if i < d.len() - 1 {
                assert(d[i] == decimal(n / 10)[i]);
            }
        }
    } else {
        assert(digits_value(decimal(n)) == digits_value(decimal(n).drop_last()) * 10 + (decimal(n).last() as int
            - '0' as int));
        assert(decimal(n).drop_last() =~= Seq::<char>::empty());
    }
}

/// Parsing the decimal rendering of a number gives the number back.
pub proof fn law_parse_decimal_round_trip(n: u32)
    ensures
        parse_u32_spec(decimal(n as nat)) == Some(n),
{
    law_decimal_denotes(n as nat);
    assert(is_digit(decimal(n as nat)[0]));
    assert(unsigned_digits(decimal(n as nat)) == decimal(n as nat));
}

/// Different numbers have different decimal renderings.
pub proof fn law_decimal_injective(a: nat, b: nat)
    ensures
        decimal(a) == decimal(b) ==> a == b,
{
    law_decimal_denotes(a);
    law_decimal_denotes(b);
}

} // verus!
