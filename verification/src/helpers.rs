//! Small shared utilities: bit-length computation, decimal formatting
//! and parsing, and token handling for tab-delimited source lines.

use vstd::prelude::*;

verus! {

use crate::spec_bit_len;
use vstd::arithmetic::power2::pow2;
use vstd::arithmetic::power2::lemma2_to64;

/// `spec_bit_len(n) <= k` whenever `n < 2^k`.
proof fn lemma_bit_len_le(n: nat, k: nat)
    requires
        n < pow2(k),
    ensures
        spec_bit_len(n) <= k,
    decreases k,
{
    vstd::arithmetic::power2::lemma_pow2_pos(k);
    if n == 0 {
    } else {
        if k == 0 {
            assert(pow2(0) == 1) by {
                lemma2_to64();
            }
        } else {
            assert(pow2(k) == 2 * pow2((k - 1) as nat)) by {
                vstd::arithmetic::power2::lemma_pow2_unfold(k);
            }
            lemma_bit_len_le(n / 2, (k - 1) as nat);
        }
    }
}

/// A value is below two to its own bit length.
pub proof fn lemma_bit_len_pow2(n: nat)
    ensures
        n < pow2(spec_bit_len(n)),
    decreases n,
{
    if n == 0 {
        assert(pow2(0) == 1) by {
            lemma2_to64();
        }
    } else {
        lemma_bit_len_pow2(n / 2);
        assert(pow2(spec_bit_len(n)) == 2 * pow2(spec_bit_len(n / 2))) by {
            vstd::arithmetic::power2::lemma_pow2_unfold(spec_bit_len(n));
        }
    }
}

/// Any usize value has bit length at most 64.
pub proof fn lemma_bit_len_usize(n: usize)
    ensures
        spec_bit_len(n as nat) <= 64,
{
    assert(pow2(64) == 0x10000000000000000) by {
        lemma2_to64();
    }
    lemma_bit_len_le(n as nat, 64);
}

/// The whitespace characters this crate's parsers recognise: space,
/// tab, newline, carriage return, vertical tab, form feed.
pub open spec fn spec_is_space(c: char) -> bool {
    c == ' ' || c == '\t' || c == '\n' || c == '\r' || c == '\u{b}' || c == '\u{c}'
}

/// Whether `c` is one of the recognised whitespace characters.
pub fn is_space(c: char) -> (r: bool)
    ensures
        r == spec_is_space(c),
{
    c == ' ' || c == '\t' || c == '\n' || c == '\r' || c == '\u{b}' || c == '\u{c}'
}

/// Whether `c` is a decimal digit.
pub open spec fn spec_is_digit(c: char) -> bool {
    '0' <= c && c <= '9'
}

/// The value of the decimal digit `c`.
pub open spec fn spec_digit_val(c: char) -> nat {
    (c as nat - 48) as nat
}

/// Whether `c` is a decimal digit.
pub fn is_digit(c: char) -> (r: bool)
    ensures
        r == spec_is_digit(c),
{
    '0' <= c && c <= '9'
}

/// The value of the decimal digit `c`.
pub fn digit_val(c: char) -> (r: usize)
    requires
        spec_is_digit(c),
    ensures
        r == spec_digit_val(c),
{
    (c as u32 as usize) - 48
}

/// The characters of `s`, in order.
pub fn chars_of(s: &str) -> (v: Vec<char>)
    ensures
        v@ == s@,
{
    let n = s.unicode_len();
    let mut v: Vec<char> = Vec::new();
    let mut i: usize = 0;
    while i < n
        invariant
            0 <= i <= n,
            n == s@.len(),
            v@ =~= s@.take(i as int),
        decreases n - i,
    {
        proof {
            assert(s@.take(i + 1) =~= s@.take(i as int).push(s@[i as int]));
        }
        v.push(s.get_char(i));
        i = i + 1;
    }
    proof {
        assert(s@.take(s@.len() as int) =~= s@);
    }
    v
}

/// Relies on `String::from_iter` over `char`: collecting characters
/// yields the string of exactly those characters in order.
#[verifier::external_body]
pub fn chars_to_string(v: &Vec<char>) -> (s: String)
    ensures
        s@ == v@,
{
    v.iter().collect()
}

/// The characters `cs[a..b]`, copied out.
pub fn copy_range(cs: &Vec<char>, a: usize, b: usize) -> (v: Vec<char>)
    requires
        a <= b <= cs@.len(),
    ensures
        v@ == cs@.subrange(a as int, b as int),
{
    let mut v: Vec<char> = Vec::new();
    let mut i: usize = a;
    while i < b
        invariant
            a <= i <= b <= cs@.len(),
            v@ =~= cs@.subrange(a as int, i as int),
        decreases b - i,
    {
        proof {
            assert(cs@.subrange(a as int, i + 1) =~= cs@.subrange(a as int, i as int).push(
                cs@[i as int],
            ));
        }
        v.push(cs[i]);
        i = i + 1;
    }
    v
}

/// Digit-by-digit accumulation of a decimal value, left to right:
/// `None` once a non-digit is seen or the value no longer fits.
pub open spec fn spec_digits_fold(s: Seq<char>, acc: Option<usize>) -> Option<usize>
    decreases s.len(),
{
    if s.len() == 0 {
        acc
    } else {
        match acc {
            None => None,
            Some(v) => if !spec_is_digit(s[0]) {
                None
            } else if v > (usize::MAX - spec_digit_val(s[0])) / 10 {
                spec_digits_fold(s.drop_first(), None)
            } else {
                spec_digits_fold(
                    s.drop_first(),
                    Some((10 * v + spec_digit_val(s[0])) as usize),
                )
            },
        }
    }
}

/// The non-negative integer a token denotes: an optional `+` sign,
/// then at least one decimal digit, with a value that fits in
/// `usize`; anything else denotes nothing.
pub open spec fn spec_parse_usize(s: Seq<char>) -> Option<usize> {
    let t = if s.len() >= 1 && s[0] == '+' {
        s.drop_first()
    } else {
        s
    };
    if t.len() == 0 {
        None
    } else {
        spec_digits_fold(t, Some(0))
    }
}

/// Parses a non-negative decimal integer, exactly as
/// `spec_parse_usize` describes.
pub fn parse_usize(cs: &Vec<char>) -> (r: Option<usize>)
    ensures
        r == spec_parse_usize(cs@),
{
    let ghost t = if cs@.len() >= 1 && cs@[0] == '+' {
        cs@.drop_first()
    } else {
        cs@
    };
    let mut i: usize = 0;
    if cs.len() >= 1 && cs[0] == '+' {
        i = 1;
    }
    if i >= cs.len() {
        return None;
    }
    let mut acc: usize = 0;
    let mut ok: bool = true;
    let ghost start = i as int;
    proof {
        if cs@.len() >= 1 && cs@[0] == '+' {
            assert(cs@.drop_first() =~= cs@.skip(1));
        }
        assert(cs@.skip(0) =~= cs@);
    }
    while i < cs.len()
        invariant
            start <= i <= cs@.len(),
            t == cs@.skip(start),
            t.len() >= 1,
            spec_digits_fold(t, Some(0)) == spec_digits_fold(
                cs@.skip(i as int),
                if ok {
                    Some(acc)
                } else {
                    None
                },
            ),
        decreases cs@.len() - i,
    {
        let c = cs[i];
        proof {
            assert(cs@.skip(i as int)[0] == cs@[i as int]);
            assert(cs@.skip(i as int).drop_first() =~= cs@.skip(i + 1));
        }
        if ok {
            if !is_digit(c) {
                ok = false;
            } else {
                let d = digit_val(c);
                if acc > (usize::MAX - d) / 10 {
                    ok = false;
                } else {
                    acc = 10 * acc + d;
                }
            }
        }
        i = i + 1;
    }
    proof {
        assert(cs@.skip(cs@.len() as int) =~= Seq::<char>::empty());
    }
    if ok {
        Some(acc)
    } else {
        None
    }
}

/// The first index of a tab character in `s`.
pub open spec fn spec_tab_index(s: Seq<char>) -> Option<int>
    decreases s.len(),
{
    if s.len() == 0 {
        None
    } else if s[0] == '\t' {
        Some(0)
    } else {
        match spec_tab_index(s.drop_first()) {
            Some(i) => Some(i + 1),
            None => None,
        }
    }
}

/// A found tab index lies within the sequence and holds a tab.
pub proof fn lemma_tab_index_valid(s: Seq<char>, k: int)
    requires
        spec_tab_index(s) == Some(k),
    ensures
        0 <= k < s.len(),
        s[k] == '\t',
    decreases s.len(),
{
    if s.len() > 0 && s[0] != '\t' {
        lemma_tab_index_valid(s.drop_first(), k - 1);
    }
}

/// `s` split at every tab character; always at least one piece.
pub open spec fn spec_split_tabs(s: Seq<char>) -> Seq<Seq<char>>
    decreases s.len(),
{
    match spec_tab_index(s) {
        Some(i) => if 0 <= i < s.len() {
            seq![s.take(i)] + spec_split_tabs(s.skip(i + 1))
        } else {
            seq![s]
        },
        None => seq![s],
    }
}

/// The fields of a tab-delimited source line: everything after the
/// first tab, split at tabs.  The text before the first tab is the
/// line's leading whitespace, not a field.
pub open spec fn spec_tokens(s: Seq<char>) -> Seq<Seq<char>> {
    spec_split_tabs(s).drop_first()
}

/// The first index of a tab at or after `pos` in `cs`.
fn find_tab(cs: &Vec<char>, pos: usize) -> (r: Option<usize>)
    requires
        pos <= cs@.len(),
    ensures
        (match spec_tab_index(cs@.skip(pos as int)) {
            None => r is None,
            Some(k) => r == Some((pos + k) as usize),
        }),
{
    let mut cur = pos;
    while cur < cs.len()
        invariant
            pos <= cur <= cs@.len(),
            cs@.len() == cs.len(),
            (match spec_tab_index(cs@.skip(cur as int)) {
                None => spec_tab_index(cs@.skip(pos as int)) is None,
                Some(k) => spec_tab_index(cs@.skip(pos as int)) == Some(k + cur - pos),
            }),
        decreases cs@.len() - cur,
    {
        proof {
            assert(cs@.skip(cur as int)[0] == cs@[cur as int]);
            assert(cs@.skip(cur as int).drop_first() =~= cs@.skip(cur + 1));
        }
        if cs[cur] == '\t' {
            return Some(cur);
        }
        cur = cur + 1;
    }
    proof {
        assert(cs@.skip(cur as int).len() == 0);
    }
    None
}

/// Splits a whitespace-leading source line at its tabs and hands
/// back the fields after the first tab.
pub fn get_tokens(line: &str) -> (tokens: Vec<String>)
    ensures
        tokens@.map_values(|t: String| t@) == spec_tokens(line@),
{
    let cs = chars_of(line);
    let mut parts: Vec<String> = Vec::new();
    let mut start: usize = 0;
    let mut first_done: bool = false;
    let ghost mut first_piece: Seq<char> = Seq::empty();
    proof {
        assert(cs@.skip(0) =~= cs@);
    }
    loop
        invariant
            start <= cs@.len(),
            cs@.len() == cs.len(),
            cs@ == line@,
            if first_done {
                spec_split_tabs(line@) =~= seq![first_piece] + parts@.map_values(
                    |t: String| t@,
                ) + spec_split_tabs(cs@.skip(start as int))
            } else {
                parts@.len() == 0 && start == 0
            },
        decreases cs@.len() - start,
    {
        let next = find_tab(&cs, start);
        match next {
            Some(j) => {
                proof {
                    assert(spec_tab_index(cs@.skip(start as int)) is Some);
                    let k = spec_tab_index(cs@.skip(start as int))->Some_0;
                    lemma_tab_index_valid(cs@.skip(start as int), k);
                    assert(k == j - start);
                    assert(cs@.skip(start as int).take(j - start) =~= cs@.subrange(
                        start as int,
                        j as int,
                    ));
                    assert(cs@.skip(start as int).skip(j - start + 1) =~= cs@.skip(j + 1));
                }
                let ghost old_parts = parts@;
                proof {
                    assert(spec_split_tabs(cs@.skip(start as int)) =~= seq![
                        cs@.subrange(start as int, j as int),
                    ] + spec_split_tabs(cs@.skip(j + 1)));
                }
                if !first_done {
                    proof {
                        first_piece = cs@.subrange(0, j as int);
                        assert(cs@.skip(0) =~= cs@);
                        assert(spec_split_tabs(line@) =~= seq![first_piece] + spec_split_tabs(
                            cs@.skip(j + 1),
                        ));
                    }
                    first_done = true;
                } else {
                    let seg = copy_range(&cs, start, j);
                    parts.push(chars_to_string(&seg));
                    proof {
                        assert(parts@.map_values(|t: String| t@) =~= old_parts.map_values(
                            |t: String| t@,
                        ).push(cs@.subrange(start as int, j as int)));
                        assert(seq![first_piece] + parts@.map_values(|t: String| t@)
                            + spec_split_tabs(cs@.skip(j + 1)) =~= seq![first_piece]
                            + old_parts.map_values(|t: String| t@) + spec_split_tabs(
                            cs@.skip(start as int),
                        ));
                    }
                }
                start = j + 1;
            },
            None => {
                let ghost old_parts = parts@;
                if !first_done {
                    proof {
                        assert(cs@.skip(0) =~= cs@);
                        assert(spec_split_tabs(line@) =~= seq![line@]);
                        assert(spec_tokens(line@) =~= Seq::<Seq<char>>::empty());
                        assert(parts@.map_values(|t: String| t@) =~= Seq::<Seq<char>>::empty());
                    }
                    return parts;
                }
                let seg = copy_range(&cs, start, cs.len());
                parts.push(chars_to_string(&seg));
                proof {
                    assert(cs@.subrange(start as int, cs@.len() as int) =~= cs@.skip(
                        start as int,
                    ));
                    assert(parts@.map_values(|t: String| t@) =~= old_parts.map_values(
                        |t: String| t@,
                    ).push(cs@.skip(start as int)));
                    assert(spec_split_tabs(cs@.skip(start as int)) =~= seq![
                        cs@.skip(start as int),
                    ]);
                    assert(spec_split_tabs(line@) =~= seq![first_piece] + parts@.map_values(
                        |t: String| t@,
                    ));
                    assert(parts@.map_values(|t: String| t@) =~= spec_tokens(line@));
                }
                return parts;
            },
        }
    }
}

/// Whether two character vectors hold the same characters.
pub fn chars_eq(a: &Vec<char>, b: &Vec<char>) -> (r: bool)
    ensures
        r == (a@ == b@),
{
    if a.len() != b.len() {
        return false;
    }
    let mut i: usize = 0;
    while i < a.len()
        invariant
            0 <= i <= a@.len(),
            a@.len() == b@.len(),
            forall|j: int| 0 <= j < i ==> a@[j] == b@[j],
        decreases a@.len() - i,
    {
        if a[i] != b[i] {
            return false;
        }
        i = i + 1;
    }
    proof {
        assert(a@ =~= b@);
    }
    true
}

/// `s` with leading and trailing whitespace removed.
pub open spec fn spec_trim(s: Seq<char>) -> Seq<char>
    decreases s.len(),
{
    if s.len() > 0 && spec_is_space(s[0]) {
        spec_trim(s.drop_first())
    } else if s.len() > 0 && spec_is_space(s.last()) {
        spec_trim(s.drop_last())
    } else {
        s
    }
}

/// Removes leading and trailing whitespace.
pub fn trim_chars(cs: &Vec<char>) -> (r: Vec<char>)
    ensures
        r@ == spec_trim(cs@),
{
    let mut a: usize = 0;
    proof {
        assert(cs@.skip(0) =~= cs@);
    }
    while a < cs.len() && is_space(cs[a])
        invariant
            0 <= a <= cs@.len(),
            cs@.len() == cs.len(),
            spec_trim(cs@) == spec_trim(cs@.skip(a as int)),
        decreases cs@.len() - a,
    {
        proof {
            assert(cs@.skip(a as int)[0] == cs@[a as int]);
            assert(cs@.skip(a as int).drop_first() =~= cs@.skip(a + 1));
        }
        a = a + 1;
    }
    let mut b: usize = cs.len();
    proof {
        assert(cs@.subrange(a as int, b as int) =~= cs@.skip(a as int));
    }
    while b > a && is_space(cs[b - 1])
        invariant
            a <= b <= cs@.len(),
            cs@.len() == cs.len(),
            a < cs@.len() ==> !spec_is_space(cs@[a as int]),
            spec_trim(cs@) == spec_trim(cs@.subrange(a as int, b as int)),
        decreases b,
    {
        proof {
            let seg = cs@.subrange(a as int, b as int);
            assert(seg.last() == cs@[b - 1]);
            assert(seg[0] == cs@[a as int]);
            assert(seg.drop_last() =~= cs@.subrange(a as int, b - 1));
        }
        b = b - 1;
    }
    proof {
        let seg = cs@.subrange(a as int, b as int);
        if seg.len() > 0 {
            assert(seg[0] == cs@[a as int]);
            assert(seg.last() == cs@[b - 1]);
        }
        assert(spec_trim(seg) == seg);
    }
    copy_range(cs, a, b)
}

/// The next field of a line, if it is present and non-empty,
/// trimmed of surrounding whitespace.
pub open spec fn spec_next_token(toks: Seq<Seq<char>>, i: int) -> Option<Seq<char>> {
    if 0 <= i < toks.len() && toks[i].len() > 0 {
        Some(spec_trim(toks[i]))
    } else {
        None
    }
}

/// Takes field `index` of the token list: absent and empty fields
/// give nothing, anything else is handed back trimmed.
pub fn next_token(tokens: &Vec<String>, index: usize) -> (r: Option<String>)
    ensures
        (match r {
            Some(t) => spec_next_token(tokens@.map_values(|t2: String| t2@), index as int)
                == Some(t@),
            None => spec_next_token(tokens@.map_values(|t2: String| t2@), index as int) is None,
        }),
{
    proof {
        if (index as int) < tokens@.len() {
            assert(tokens@.map_values(|t2: String| t2@)[index as int] == tokens@[index as int]@);
        }
    }
    if index >= tokens.len() {
        return None;
    }
    let tok = &tokens[index];
    if tok.as_str().unicode_len() == 0 {
        return None;
    }
    let cs = chars_of(tok.as_str());
    let trimmed = trim_chars(&cs);
    Some(chars_to_string(&trimmed))
}

/// What a boolean field denotes: exactly `true` or `false`.
pub open spec fn spec_parse_bool(s: Seq<char>) -> Option<bool> {
    if s == seq!['t', 'r', 'u', 'e'] {
        Some(true)
    } else if s == seq!['f', 'a', 'l', 's', 'e'] {
        Some(false)
    } else {
        None
    }
}

/// Parses a boolean field.
pub fn parse_bool(cs: &Vec<char>) -> (r: Option<bool>)
    ensures
        r == spec_parse_bool(cs@),
{
    if cs.len() == 4 && cs[0] == 't' && cs[1] == 'r' && cs[2] == 'u' && cs[3] == 'e' {
        proof {
            assert(cs@ =~= seq!['t', 'r', 'u', 'e']);
        }
        Some(true)
    } else if cs.len() == 5 && cs[0] == 'f' && cs[1] == 'a' && cs[2] == 'l' && cs[3] == 's'
        && cs[4] == 'e' {
        proof {
            assert(cs@ =~= seq!['f', 'a', 'l', 's', 'e']);
        }
        Some(false)
    } else {
        proof {
            assert(cs@ != seq!['t', 'r', 'u', 'e'] && cs@ != seq!['f', 'a', 'l', 's', 'e']) by {
                if cs@ == seq!['t', 'r', 'u', 'e'] {
                    assert(cs@.len() == 4 && cs@[0] == 't' && cs@[1] == 'r' && cs@[2] == 'u'
                        && cs@[3] == 'e');
                }
                if cs@ == seq!['f', 'a', 'l', 's', 'e'] {
                    assert(cs@.len() == 5 && cs@[0] == 'f' && cs@[1] == 'a' && cs@[2] == 'l'
                        && cs@[3] == 's' && cs@[4] == 'e');
                }
            }
        }
        None
    }
}

/// What a state or argument field denotes as a 32-bit value.
pub open spec fn spec_parse_u32(s: Seq<char>) -> Option<u32> {
    match spec_parse_usize(s) {
        Some(v) => if v <= u32::MAX {
            Some(v as u32)
        } else {
            None
        },
        None => None,
    }
}

/// Parses a non-negative decimal integer into 32 bits.
pub fn parse_u32(cs: &Vec<char>) -> (r: Option<u32>)
    ensures
        r == spec_parse_u32(cs@),
{
    match parse_usize(cs) {
        Some(v) => if v <= u32::MAX as usize {
            Some(v as u32)
        } else {
            None
        },
        None => None,
    }
}

/// The character for the decimal digit `d`.
pub open spec fn spec_digit_char(d: nat) -> char {
    ((48 + d) as u8) as char
}

/// The decimal form of `n`, most significant digit first.
pub open spec fn spec_digits_chars(n: nat) -> Seq<char>
    decreases n,
{
    if n < 10 {
        seq![spec_digit_char(n)]
    } else {
        spec_digits_chars(n / 10).push(spec_digit_char(n % 10))
    }
}

/// Appends the decimal form of `n` to `out`.
pub fn push_digits(n: usize, out: &mut Vec<char>)
    ensures
        final(out)@ == old(out)@ + spec_digits_chars(n as nat),
    decreases n,
{
    let ghost base = out@;
    if n >= 10 {
        push_digits(n / 10, out);
    }
    let d = n % 10;
    let c = (48u8 + d as u8) as char;
    out.push(c);
    proof {
        assert(c == spec_digit_char((n % 10) as nat));
        if n < 10 {
            assert(out@ =~= base + seq![spec_digit_char(n as nat)]);
        } else {
            assert(out@ =~= base + spec_digits_chars((n / 10) as nat).push(
                spec_digit_char((n % 10) as nat),
            ));
        }
    }
}

/// Number of bits needed to write `n` in binary: the index of its
/// highest set bit plus one, and zero for zero.
pub fn largest_bit(n: usize) -> (r: u32)
    ensures
        r == spec_bit_len(n as nat),
{
    proof {
        lemma_bit_len_usize(n);
    }
    let mut m = n;
    let mut c: u32 = 0;
    while m > 0
        invariant
            c + spec_bit_len(m as nat) == spec_bit_len(n as nat),
            spec_bit_len(n as nat) <= 64,
        decreases m,
    {
        m = m / 2;
        c = c + 1;
    }
    c
}

/// Appends the characters of `s` to `out`.
pub fn append_str(out: &mut Vec<char>, s: &str)
    ensures
        final(out)@ == old(out)@ + s@,
{
    let cs = chars_of(s);
    append_chars(out, &cs);
}

/// Appends the characters of `s` to `out`.
pub fn append_chars(out: &mut Vec<char>, s: &Vec<char>)
    ensures
        final(out)@ == old(out)@ + s@,
{
    let ghost base = out@;
    let mut i: usize = 0;
    while i < s.len()
        invariant
            0 <= i <= s@.len(),
            out@ =~= base + s@.take(i as int),
        decreases s@.len() - i,
    {
        proof {
            assert(s@.take(i + 1) =~= s@.take(i as int).push(s@[i as int]));
        }
        out.push(s[i]);
        i = i + 1;
    }
    proof {
        assert(out@ =~= base + s@);
    }
}

/// How many decimal digits `n` has.
pub fn count_digits(n: usize) -> (r: usize)
    ensures
        r == crate::rle::spec_digit_count(n as nat),
{
    proof {
        crate::rle::lemma_digit_count_usize(n);
    }
    let mut m = n;
    let mut c: usize = 1;
    while m >= 10
        invariant
            c >= 1,
            c + crate::rle::spec_digit_count(m as nat) == 1 + crate::rle::spec_digit_count(
                n as nat,
            ),
            crate::rle::spec_digit_count(m as nat) + c <= 21,
        decreases m,
    {
        m = m / 10;
        c = c + 1;
    }
    c
}

/// Grows `vec` with copies of `item` until it is `len` long; hands
/// back how many were added.
pub fn extend_vec_to<T: Copy>(vec: &mut Vec<T>, item: T, len: usize) -> (r: usize)
    ensures
        old(vec)@.len() >= len ==> final(vec)@ == old(vec)@ && r == 0,
        old(vec)@.len() < len ==> final(vec)@ == old(vec)@ + Seq::new(
            (len - old(vec)@.len()) as nat,
            |i: int| item,
        ) && r == len - old(vec)@.len(),
{
    let ghost base = vec@;
    let before = vec.len();
    while vec.len() < len
        invariant
            vec@.len() >= base.len(),
            vec@.len() <= len || vec@.len() == base.len(),
            before == base.len(),
            vec@ =~= base + Seq::new((vec@.len() - base.len()) as nat, |i: int| item),
        decreases len - vec@.len(),
    {
        let ghost k = (vec@.len() - base.len()) as nat;
        vec.push(item);
        proof {
            assert(Seq::new(k + 1, |i: int| item) =~= Seq::new(k, |i: int| item).push(item));
        }
    }
    proof {
        if base.len() >= len {
            assert(vec@ =~= base);
        }
    }
    vec.len() - before
}

/// `s` broken into lines of at most `max` characters, split exactly
/// every `max` characters.
pub open spec fn spec_break(s: Seq<char>, max: nat) -> Seq<char>
    decreases s.len(),
    when max >= 1
{
    if s.len() <= max {
        s
    } else {
        s.take(max as int) + seq!['\n'] + spec_break(s.skip(max as int), max)
    }
}

/// Inserts a newline after every `max_line_length` characters of
/// `string`.
pub fn break_string(string: &str, max_line_length: usize) -> (r: String)
    requires
        max_line_length >= 1,
    ensures
        r@ == spec_break(string@, max_line_length as nat),
{
    let cs = chars_of(string);
    let mut out: Vec<char> = Vec::new();
    let mut pos: usize = 0;
    proof {
        assert(cs@.skip(0) =~= cs@);
    }
    while pos < cs.len()
        invariant
            0 <= pos <= cs@.len(),
            cs@.len() == cs.len(),
            max_line_length >= 1,
            spec_break(cs@, max_line_length as nat) == out@ + spec_break(
                cs@.skip(pos as int),
                max_line_length as nat,
            ),
        decreases cs@.len() - pos,
    {
        let end = if cs.len() - pos > max_line_length {
            pos + max_line_length
        } else {
            cs.len()
        };
        let ghost rest = cs@.skip(pos as int);
        let mut i = pos;
        let ghost mid = out@;
        while i < end
            invariant
                pos <= i <= end <= cs@.len(),
                out@ =~= mid + cs@.subrange(pos as int, i as int),
            decreases end - i,
        {
            proof {
                assert(cs@.subrange(pos as int, i + 1) =~= cs@.subrange(
                    pos as int,
                    i as int,
                ).push(cs@[i as int]));
            }
            out.push(cs[i]);
            i = i + 1;
        }
        proof {
            assert(cs@.subrange(pos as int, end as int) =~= rest.take(end - pos));
        }
        if end < cs.len() {
            out.push('\n');
            proof {
                assert(rest.len() > max_line_length);
                assert(rest.skip(max_line_length as int) =~= cs@.skip(end as int));
                assert(out@ =~= mid + (rest.take(max_line_length as int) + seq!['\n']));
            }
        } else {
            proof {
                assert(rest.len() <= max_line_length);
                assert(rest.take(end - pos) =~= rest);
                assert(cs@.skip(end as int).len() == 0);
            }
        }
        pos = end;
    }
    proof {
        assert(cs@.skip(cs@.len() as int) =~= Seq::<char>::empty());
    }
    chars_to_string(&out)
}

/// What a typed reply to the yes/no prompt means: yes for a leading
/// `Y`, no for a leading `N` or an empty reply, and nothing (ask
/// again) for anything else.  Case does not matter.
pub open spec fn spec_answer(s: Seq<char>) -> Option<bool> {
    let t = spec_trim(s);
    if t.len() == 0 {
        Some(false)
    } else if t[0] == 'Y' || t[0] == 'y' {
        Some(true)
    } else if t[0] == 'N' || t[0] == 'n' {
        Some(false)
    } else {
        None
    }
}

/// Reads a typed reply to the yes/no prompt, as `spec_answer`
/// describes.
pub fn answer_of_line(line: &str) -> (r: Option<bool>)
    ensures
        r == spec_answer(line@),
{
    let cs = chars_of(line);
    let t = trim_chars(&cs);
    if t.len() == 0 {
        Some(false)
    } else {
        let c = t[0];
        if c == 'Y' || c == 'y' {
            Some(true)
        } else if c == 'N' || c == 'n' {
            Some(false)
        } else {
            None
        }
    }
}

} // verus!
