//! Plain-text helpers: character vectors, separator splitting, line
//! splitting, and decimal reading and writing for 32-bit counters.

use vstd::prelude::*;
use vstd::string::*;

verus! {

/// Relies on std's `String::push`: appends one character.
#[verifier::external_body]
pub fn push_char(s: &mut String, c: char)
    ensures
        final(s)@ == old(s)@.push(c),
{
    s.push(c);
}

/// The characters of `s`, as a vector.
pub fn to_chars(s: &str) -> (r: Vec<char>)
    ensures
        r@ == s@,
{
    let n = s.unicode_len();
    let mut r: Vec<char> = Vec::new();
    let mut i: usize = 0;
    while i < n
        invariant
            n == s@.len(),
            i <= n,
            r@ == s@.take(i as int),
        decreases n - i,
    {
        r.push(s.get_char(i));
        i = i + 1;
        proof {
            assert(r@ =~= s@.take(i as int));
        }
    }
    proof {
        assert(s@.take(n as int) =~= s@);
    }
    r
}

/// One string holding exactly the characters of `v`.
pub fn chars_to_string(v: &Vec<char>) -> (r: String)
    ensures
        r@ == v@,
{
    let mut r = String::new();
    let mut i: usize = 0;
    while i < v.len()
        invariant
            i <= v@.len(),
            r@ == v@.take(i as int),
        decreases v@.len() - i,
    {
        push_char(&mut r, v[i]);
        i = i + 1;
        proof {
            assert(r@ =~= v@.take(i as int));
        }
    }
    proof {
        assert(v@.take(v@.len() as int) =~= v@);
    }
    r
}

/// The pieces of `s` between occurrences of `sep`. Every occurrence cuts,
/// so adjacent separators give empty pieces, and the result always holds at
/// least one piece (an empty text gives one empty piece).
pub open spec fn split_text(s: Seq<char>, sep: char) -> Seq<Seq<char>>
    decreases s.len(),
{
    if s.len() == 0 {
        seq![Seq::<char>::empty()]
    } else if s[0] == sep {
        seq![Seq::<char>::empty()] + split_text(s.skip(1), sep)
    } else {
        let rest = split_text(s.skip(1), sep);
        seq![seq![s[0]] + rest[0]] + rest.skip(1)
    }
}

proof fn lemma_split_nonempty(s: Seq<char>, sep: char)
    ensures
        split_text(s, sep).len() >= 1,
    decreases s.len(),
{
    if s.len() != 0 {
        lemma_split_nonempty(s.skip(1), sep);
    }
}

/// A text without the separator is a single piece.
pub proof fn lemma_split_no_sep(s: Seq<char>, sep: char)
    requires
        forall|i: int| 0 <= i < s.len() ==> s[i] != sep,
    ensures
        split_text(s, sep) == seq![s],
    decreases s.len(),
{
    if s.len() == 0 {
        assert(split_text(s, sep) =~~= seq![s]);
    } else {
        lemma_split_no_sep(s.skip(1), sep);
        assert(split_text(s, sep) =~~= seq![s]);
    }
}

/// Splitting at a separator that the left part does not contain cuts exactly
/// there.
pub proof fn lemma_split_concat(a: Seq<char>, b: Seq<char>, sep: char)
    requires
        forall|i: int| 0 <= i < a.len() ==> a[i] != sep,
    ensures
        split_text(a + seq![sep] + b, sep) == seq![a] + split_text(b, sep),
    decreases a.len(),
{
    let s = a + seq![sep] + b;
    if a.len() == 0 {
        assert(s =~= seq![sep] + b);
        assert(s[0] == sep);
        assert(s.skip(1) =~= b);
        assert(split_text(s, sep) =~~= seq![a] + split_text(b, sep));
    } else {
        lemma_split_concat(a.skip(1), b, sep);
        assert(s[0] == a[0]);
        assert(s[0] != sep);
        assert(s.skip(1) =~= a.skip(1) + seq![sep] + b);
        let rest = split_text(s.skip(1), sep);
        lemma_split_nonempty(b, sep);
        assert(rest == seq![a.skip(1)] + split_text(b, sep));
        assert(rest[0] == a.skip(1));
        assert(seq![s[0]] + rest[0] =~= a);
        assert(rest.skip(1) =~= split_text(b, sep));
        assert(split_text(s, sep) =~~= seq![a] + split_text(b, sep));
    }
}

/// The first piece of `ss` with `p` put in front of it.
spec fn prepend_first(p: Seq<char>, ss: Seq<Seq<char>>) -> Seq<Seq<char>> {
    seq![p + ss[0]] + ss.skip(1)
}

/// The pieces of `v` between occurrences of `sep` (see `split_text`).
pub fn split_chars(v: &Vec<char>, sep: char) -> (r: Vec<Vec<char>>)
    ensures
        r.deep_view() == split_text(v@, sep),
{
    let mut out: Vec<Vec<char>> = Vec::new();
    let mut cur: Vec<char> = Vec::new();
    let mut i: usize = 0;
    proof {
        lemma_split_nonempty(v@, sep);
        assert(v@.skip(0) =~= v@);
        assert(prepend_first(cur@, split_text(v@, sep)) =~~= split_text(v@, sep));
    }
    while i < v.len()
        invariant
            i <= v@.len(),
            split_text(v@, sep) =~~= out.deep_view() + prepend_first(
                cur@,
                split_text(v@.skip(i as int), sep),
            ),
        decreases v@.len() - i,
    {
        let ghost s_i = v@.skip(i as int);
        proof {
            assert(s_i.len() > 0);
            assert(s_i[0] == v@[i as int]);
            assert(s_i.skip(1) =~= v@.skip(i as int + 1));
            lemma_split_nonempty(v@.skip(i as int + 1), sep);
        }
        let c = v[i];
        if c == sep {
            let ghost old_out = out.deep_view();
            let ghost old_cur = cur@;
            let done = cur;
            cur = Vec::new();
            out.push(done);
            proof {
                let rest = split_text(v@.skip(i as int + 1), sep);
                assert(split_text(s_i, sep) == seq![Seq::<char>::empty()] + rest);
                assert(prepend_first(old_cur, split_text(s_i, sep)) =~~= seq![old_cur] + rest);
                assert(out.deep_view() =~~= old_out.push(old_cur));
                assert(prepend_first(cur@, rest) =~~= rest);
                assert(split_text(v@, sep) =~~= out.deep_view() + prepend_first(cur@, rest));
            }
        } else {
            let ghost old_cur = cur@;
            cur.push(c);
            proof {
                let rest = split_text(v@.skip(i as int + 1), sep);
                assert(split_text(s_i, sep) == seq![seq![s_i[0]] + rest[0]] + rest.skip(1));
                assert(prepend_first(old_cur, split_text(s_i, sep)) =~~= prepend_first(
                    cur@,
                    rest,
                ));
                assert(split_text(v@, sep) =~~= out.deep_view() + prepend_first(cur@, rest));
            }
        }
        i = i + 1;
    }
    proof {
        assert(v@.skip(v@.len() as int) =~= Seq::<char>::empty());
        assert(split_text(Seq::<char>::empty(), sep) == seq![Seq::<char>::empty()]);
        assert(prepend_first(cur@, seq![Seq::<char>::empty()]) =~~= seq![cur@]);
    }
    let ghost old_out = out.deep_view();
    let ghost last = cur@;
    out.push(cur);
    proof {
        assert(out.deep_view() =~~= old_out.push(last));
        assert(out.deep_view() =~~= split_text(v@, sep));
    }
    out
}

/// `l` without one trailing carriage return, if it ends in one.
pub open spec fn strip_cr(l: Seq<char>) -> Seq<char> {
    if l.len() > 0 && l.last() == '\r' {
        l.drop_last()
    } else {
        l
    }
}

/// The lines of `s`: pieces between newlines, a final empty piece dropped,
/// and one trailing carriage return removed from each line.
pub open spec fn lines_text(s: Seq<char>) -> Seq<Seq<char>> {
    let raw = split_text(s, '\n');
    let kept = if raw.last().len() == 0 {
        raw.drop_last()
    } else {
        raw
    };
    Seq::new(kept.len(), |i: int| strip_cr(kept[i]))
}

/// The lines of `v` (see `lines_text`).
pub fn lines_of(v: &Vec<char>) -> (r: Vec<Vec<char>>)
    ensures
        r.deep_view() == lines_text(v@),
{
    let raw = split_chars(v, '\n');
    proof {
        lemma_split_nonempty(v@, '\n');
    }
    let n = if raw[raw.len() - 1].len() == 0 {
        raw.len() - 1
    } else {
        raw.len()
    };
    let ghost kept = if split_text(v@, '\n').last().len() == 0 {
        split_text(v@, '\n').drop_last()
    } else {
        split_text(v@, '\n')
    };
    proof {
        assert(raw.deep_view().last() == raw@[raw@.len() - 1].deep_view());
        assert(n as int == kept.len());
        assert(forall|j: int| 0 <= j < kept.len() ==> kept[j] == raw.deep_view()[j]);
    }
    let mut out: Vec<Vec<char>> = Vec::new();
    let mut i: usize = 0;
    while i < n
        invariant
            i <= n,
            n as int == kept.len(),
            kept.len() <= raw@.len(),
            forall|j: int| 0 <= j < kept.len() ==> kept[j] == raw.deep_view()[j],
            raw.deep_view().len() == raw@.len(),
            out.deep_view().len() == i as int,
            forall|j: int| 0 <= j < i as int ==> out.deep_view()[j] == strip_cr(kept[j]),
        decreases n - i,
    {
        let line = &raw[i];
        let m = if line.len() > 0 && line[line.len() - 1] == '\r' {
            line.len() - 1
        } else {
            line.len()
        };
        let mut l2: Vec<char> = Vec::new();
        let mut j: usize = 0;
        while j < m
            invariant
                j <= m,
                m <= line@.len(),
                l2@ == line@.take(j as int),
            decreases m - j,
        {
            l2.push(line[j]);
            j = j + 1;
            proof {
                assert(l2@ =~= line@.take(j as int));
            }
        }
        proof {
            assert(line@ == raw.deep_view()[i as int]);
            assert(l2@ =~= strip_cr(kept[i as int]));
        }
        let ghost old_dv = out.deep_view();
        let ghost piece = l2@;
        out.push(l2);
        proof {
            assert(out.deep_view() =~~= old_dv.push(piece));
        }
        i = i + 1;
    }
    proof {
        assert(out.deep_view() =~~= lines_text(v@));
    }
    out
}

/// The value of a decimal digit character.
pub open spec fn digit_val(c: char) -> int {
    c as u32 - '0' as u32
}

pub open spec fn is_digit(c: char) -> bool {
    ('0' as u32) <= (c as u32) <= ('9' as u32)
}

pub open spec fn all_digits(s: Seq<char>) -> bool {
    s.len() > 0 && forall|i: int| 0 <= i < s.len() ==> is_digit(#[trigger] s[i])
}

/// The numeric value of a run of decimal digits.
pub open spec fn digits_val(s: Seq<char>) -> int
    decreases s.len(),
{
    if s.len() == 0 {
        0
    } else {
        digits_val(s.drop_last()) * 10 + digit_val(s.last())
    }
}

/// The digits without an optional leading plus sign.
pub open spec fn num_body(s: Seq<char>) -> Seq<char> {
    if s.len() > 0 && s[0] == '+' {
        s.skip(1)
    } else {
        s
    }
}

/// What std's `u32` parse accepts: an optional plus sign, then one or more
/// decimal digits whose value fits in 32 bits.
pub open spec fn parse_u32_text(s: Seq<char>) -> Option<u32> {
    let b = num_body(s);
    if all_digits(b) && digits_val(b) <= u32::MAX {
        Some(digits_val(b) as u32)
    } else {
        None
    }
}

/// A digit run's value only grows as the run extends.
proof fn lemma_digits_val_prefix(s: Seq<char>, m: int)
    requires
        0 <= m <= s.len(),
        forall|i: int| 0 <= i < s.len() ==> is_digit(#[trigger] s[i]),
    ensures
        digits_val(s) >= digits_val(s.take(m)),
        digits_val(s) >= 0,
    decreases s.len(),
{
    if s.len() == 0 {
        assert(s.take(m) =~= s);
    } else if m == s.len() {
        assert(s.take(m) =~= s);
        lemma_digits_val_prefix(s.drop_last(), s.len() - 1);
    } else {
        lemma_digits_val_prefix(s.drop_last(), m);
        assert(s.drop_last().take(m) =~= s.take(m));
    }
}

/// The value of the digits of `v`, by std's `u32` parsing rule.
pub fn parse_u32(v: &Vec<char>) -> (r: Option<u32>)
    ensures
        r == parse_u32_text(v@),
{
    let start: usize = if v.len() > 0 && v[0] == '+' {
        1
    } else {
        0
    };
    let ghost b = num_body(v@);
    proof {
        assert(b =~= v@.skip(start as int));
    }
    if v.len() == start {
        proof {
            assert(b.len() == 0);
        }
        return None;
    }
    let mut acc: u64 = 0;
    let mut i: usize = start;
    while i < v.len()
        invariant
            start <= i <= v@.len(),
            b == num_body(v@),
            b == v@.skip(start as int),
            b.len() == v@.len() - start,
            forall|j: int| 0 <= j < i - start ==> is_digit(#[trigger] b[j]),
            acc as int == digits_val(b.take(i - start)),
            acc <= u32::MAX,
        decreases v@.len() - i,
    {
        let c = v[i];
        proof {
            assert(b[i - start] == v@[i as int]);
        }
        let u = c as u32;
        if u < 48 || u > 57 {
            proof {
                assert(!is_digit(b[i - start]));
                assert(!all_digits(b));
                assert(parse_u32_text(v@) == None::<u32>);
            }
            return None;
        }
        let d: u64 = (u - 48) as u64;
        proof {
            assert(is_digit(b[i - start]));
            assert(d as int == digit_val(b[i - start]));
            assert(b.take(i - start + 1).drop_last() =~= b.take(i - start));
            assert(b.take(i - start + 1).last() == b[i - start]);
        }
        let next: u64 = acc * 10 + d;
        if next > 0xFFFF_FFFF {
            proof {
                assert(digits_val(b.take(i - start + 1)) == acc * 10 + d);
                if all_digits(b) {
                    lemma_digits_val_prefix(b, i - start + 1);
                    assert(digits_val(b) > u32::MAX);
                }
                assert(parse_u32_text(v@) == None::<u32>);
            }
            return None;
        }
        acc = next;
        i = i + 1;
    }
    proof {
        assert(b.take(i - start) =~= b);
        assert(all_digits(b));
    }
    Some(acc as u32)
}

/// The decimal text of a non-negative number: just `0` for zero, otherwise
/// the usual digits with no leading zero.
pub open spec fn dec_text(n: int) -> Seq<char>
    decreases n,
{
    if n < 10 {
        seq![dec_digit(n)]
    } else {
        dec_text(n / 10).push(dec_digit(n % 10))
    }
}

/// The character of one decimal digit.
pub open spec fn dec_digit(d: int) -> char {
    if d == 0 {
        '0'
    } else if d == 1 {
        '1'
    } else if d == 2 {
        '2'
    } else if d == 3 {
        '3'
    } else if d == 4 {
        '4'
    } else if d == 5 {
        '5'
    } else if d == 6 {
        '6'
    } else if d == 7 {
        '7'
    } else if d == 8 {
        '8'
    } else {
        '9'
    }
}

/// Decimal text is all digits and starts with no plus sign, and reading it
/// back gives the number itself.
pub proof fn lemma_dec_text_parses(n: int)
    requires
        0 <= n <= u32::MAX,
    ensures
        all_digits(dec_text(n)),
        digits_val(dec_text(n)) == n,
        dec_text(n)[0] != '+',
        forall|i: int| 0 <= i < dec_text(n).len() ==> is_digit(#[trigger] dec_text(n)[i]),
        parse_u32_text(dec_text(n)) == Some(n as u32),
    decreases n,
{
    assert(forall|d: int| 0 <= d <= 9 ==> is_digit(#[trigger] dec_digit(d)));
    assert(forall|d: int| 0 <= d <= 9 ==> digit_val(#[trigger] dec_digit(d)) == d);
    if n < 10 {
        let s = dec_text(n);
        assert(s.drop_last() =~= Seq::<char>::empty());
        assert(digits_val(Seq::<char>::empty()) == 0);
        assert(digits_val(s) == digit_val(dec_digit(n)));
    } else {
        lemma_dec_text_parses(n / 10);
        let p = dec_text(n / 10);
        let s = dec_text(n);
        assert(s == p.push(dec_digit(n % 10)));
        assert(s.drop_last() =~= p);
        assert(s.last() == dec_digit(n % 10));
        assert(digits_val(s) == digits_val(p) * 10 + digit_val(dec_digit(n % 10)));
        assert(digits_val(s) == (n / 10) * 10 + n % 10);
        assert((n / 10) * 10 + n % 10 == n) by {
            vstd::arithmetic::div_mod::lemma_fundamental_div_mod(n, 10);
        }
        assert(forall|i: int| 0 <= i < s.len() ==> is_digit(#[trigger] s[i]));
    }
    let b = num_body(dec_text(n));
    assert(dec_text(n)[0] != '+') by {
        assert(is_digit(dec_text(n)[0]));
    }
    assert(b == dec_text(n));
}

/// The decimal text of `n`.
pub fn u32_string(n: u32) -> (r: String)
    ensures
        r@ == dec_text(n as int),
    decreases n,
{
    if n < 10 {
        let mut r = String::new();
        let c = digit_char(n);
        push_char(&mut r, c);
        proof {
            assert(r@ =~= dec_text(n as int));
        }
        r
    } else {
        let mut r = u32_string(n / 10);
        let c = digit_char(n % 10);
        push_char(&mut r, c);
        r
    }
}

/// The character of the decimal digit `d`.
fn digit_char(d: u32) -> (c: char)
    requires
        d <= 9,
    ensures
        c == dec_digit(d as int),
{
    match d {
        0 => '0',
        1 => '1',
        2 => '2',
        3 => '3',
        4 => '4',
        5 => '5',
        6 => '6',
        7 => '7',
        8 => '8',
        _ => '9',
    }
}

} // verus!
