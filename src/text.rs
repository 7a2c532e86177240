//! Character-level helpers shared by the parsers: whitespace tokens, text
//! equality, case folding, and integers in decimal or hexadecimal.
use vstd::prelude::*;
use vstd::string::*;

verus! {

// ---------------------------------------------------------------------------
// Whitespace and tokens
// ---------------------------------------------------------------------------

/// The characters that carry Unicode's White_Space property.
pub open spec fn is_white(c: char) -> bool {
    let u = c as u32;
    (0x9 <= u && u <= 0xd) || u == 0x20 || u == 0x85 || u == 0xa0 || u == 0x1680 || (0x2000 <= u
        && u <= 0x200a) || u == 0x2028 || u == 0x2029 || u == 0x202f || u == 0x205f || u == 0x3000
}

pub fn is_white_char(c: char) -> (r: bool)
    ensures
        r == is_white(c),
{
    let u = c as u32;
    (0x9 <= u && u <= 0xd) || u == 0x20 || u == 0x85 || u == 0xa0 || u == 0x1680 || (0x2000 <= u
        && u <= 0x200a) || u == 0x2028 || u == 0x2029 || u == 0x202f || u == 0x205f || u == 0x3000
}

/// The first position at or after `i` that does not hold whitespace.
pub open spec fn skip_white(s: Seq<char>, i: int) -> int
    decreases s.len() - i,
{
    if 0 <= i < s.len() && is_white(s[i]) {
        skip_white(s, i + 1)
    } else {
        i
    }
}

/// The first position at or after `i` that holds whitespace (or the end).
pub open spec fn skip_word(s: Seq<char>, i: int) -> int
    decreases s.len() - i,
{
    if 0 <= i < s.len() && !is_white(s[i]) {
        skip_word(s, i + 1)
    } else {
        i
    }
}

/// Bounds `(start, end)` of the first whitespace-separated token at or after `i`.
pub open spec fn token_after(s: Seq<char>, i: int) -> Option<(int, int)> {
    let a = skip_white(s, i);
    if a >= s.len() {
        None
    } else {
        Some((a, skip_word(s, a)))
    }
}

pub proof fn lemma_skip_white_bounds(s: Seq<char>, i: int)
    requires
        0 <= i <= s.len(),
    ensures
        i <= skip_white(s, i) <= s.len(),
        skip_white(s, i) < s.len() ==> !is_white(s[skip_white(s, i)]),
    decreases s.len() - i,
{
    if i < s.len() && is_white(s[i]) {
        lemma_skip_white_bounds(s, i + 1);
    }
}

pub proof fn lemma_skip_word_bounds(s: Seq<char>, i: int)
    requires
        0 <= i <= s.len(),
    ensures
        i <= skip_word(s, i) <= s.len(),
    decreases s.len() - i,
{
    if i < s.len() && !is_white(s[i]) {
        lemma_skip_word_bounds(s, i + 1);
    }
}

fn skip_white_from(s: &str, len: usize, i: usize) -> (r: usize)
    requires
        len == s@.len(),
        i <= len,
    ensures
        r == skip_white(s@, i as int),
        i <= r <= len,
{
    let mut j: usize = i;
    while j < len && is_white_char(s.get_char(j))
        invariant
            i <= j <= len,
            len == s@.len(),
            skip_white(s@, j as int) == skip_white(s@, i as int),
        decreases len - j,
    {
        j = j + 1;
    }
    j
}

fn skip_word_from(s: &str, len: usize, i: usize) -> (r: usize)
    requires
        len == s@.len(),
        i <= len,
    ensures
        r == skip_word(s@, i as int),
        i <= r <= len,
{
    let mut j: usize = i;
    while j < len && !is_white_char(s.get_char(j))
        invariant
            i <= j <= len,
            len == s@.len(),
            skip_word(s@, j as int) == skip_word(s@, i as int),
        decreases len - j,
    {
        j = j + 1;
    }
    j
}

/// Finds the next whitespace-separated token of `s` at or after position `from`.
pub fn next_token(s: &str, len: usize, from: usize) -> (r: Option<(usize, usize)>)
    requires
        len == s@.len(),
        from <= len,
    ensures
        match r {
            Some((a, b)) => token_after(s@, from as int) == Some((a as int, b as int)) && from
                <= a < b <= len,
            None => token_after(s@, from as int) is None,
        },
{
    let a = skip_white_from(s, len, from);
    if a >= len {
        None
    } else {
        let b = skip_word_from(s, len, a);
        proof {
            lemma_skip_white_bounds(s@, from as int);
            lemma_skip_word_bounds(s@, a + 1);
        }
        Some((a, b))
    }
}

// ---------------------------------------------------------------------------
// Equality and case folding
// ---------------------------------------------------------------------------

/// Character-by-character equality of two strings.
pub fn text_eq(a: &str, b: &str) -> (r: bool)
    ensures
        r == (a@ == b@),
{
    let n = a.unicode_len();
    let m = b.unicode_len();
    if n != m {
        return false;
    }
    let mut i: usize = 0;
    while i < n
        invariant
            n == a@.len(),
            m == b@.len(),
            n == m,
            i <= n,
            forall|k: int| 0 <= k < i ==> a@[k] == b@[k],
        decreases n - i,
    {
        if a.get_char(i) != b.get_char(i) {
            return false;
        }
        i = i + 1;
    }
    assert(a@ =~= b@);
    true
}

/// What `str::to_lowercase` returns for the given characters.
pub uninterp spec fn lower_of(s: Seq<char>) -> Seq<char>;

/// A character that lower-casing leaves as it is: an ASCII lower-case letter,
/// an ASCII digit, or `_`.
pub open spec fn is_plain_lower(c: char) -> bool {
    let u = c as u32;
    (0x61 <= u && u <= 0x7a) || (0x30 <= u && u <= 0x39) || u == 0x5f
}

/// Text made only of characters that lower-casing leaves as they are.
pub open spec fn plain_lower_text(s: Seq<char>) -> bool {
    forall|i: int| 0 <= i < s.len() ==> is_plain_lower(#[trigger] s[i])
}

/// Lower-cased text: text made only of ASCII lower-case letters, digits and
/// `_` is its own lower case; any other text has the lower case `lower_of`.
pub open spec fn lowered(s: Seq<char>) -> Seq<char> {
    if plain_lower_text(s) {
        s
    } else {
        lower_of(s)
    }
}

/// Relies on `str::to_lowercase`: its result depends on the characters alone,
/// and ASCII lower-case letters, digits and `_` are their own lower case.
#[verifier::external_body]
pub(crate) fn lowercase(s: &str) -> (r: String)
    ensures
        r@ == lowered(s@),
        !plain_lower_text(s@) ==> r@ == lower_of(s@),
{
    s.to_lowercase()
}

// ---------------------------------------------------------------------------
// Integers
// ---------------------------------------------------------------------------

/// The value of one digit in the given radix (up to 36), if it is one.
pub open spec fn digit_value(c: char, radix: nat) -> Option<nat> {
    let u = c as u32 as int;
    let v: int = if 0x30 <= u <= 0x39 {
        u - 0x30
    } else if 0x61 <= u <= 0x7a {
        u - 0x61 + 10
    } else if 0x41 <= u <= 0x5a {
        u - 0x41 + 10
    } else {
        36
    };
    if v < radix {
        Some(v as nat)
    } else {
        None
    }
}

/// The value of a non-empty run of digits, most significant first.
pub open spec fn digits_value(s: Seq<char>, radix: nat) -> Option<nat>
    decreases s.len(),
{
    if s.len() == 0 {
        None
    } else if s.len() == 1 {
        digit_value(s[0], radix)
    } else {
        match (digits_value(s.drop_last(), radix), digit_value(s.last(), radix)) {
            (Some(a), Some(d)) => Some(a * radix + d),
            _ => None,
        }
    }
}

/// `o`, when it holds a value no larger than `max`.
pub open spec fn within(o: Option<nat>, max: nat) -> Option<nat> {
    match o {
        Some(v) => if v <= max {
            Some(v)
        } else {
            None
        },
        None => None,
    }
}

/// An unsigned number: an optional `+`, then at least one digit, at most `max`.
pub open spec fn unsigned_value(s: Seq<char>, radix: nat, max: nat) -> Option<nat> {
    let digits = if s.len() > 0 && s[0] == '+' {
        s.skip(1)
    } else {
        s
    };
    within(digits_value(digits, radix), max)
}

/// A decimal `i32`: an optional sign, then at least one digit, in range.
pub open spec fn i32_value(s: Seq<char>) -> Option<int> {
    if s.len() > 0 && s[0] == '-' {
        match within(digits_value(s.skip(1), 10), 0x8000_0000) {
            Some(v) => Some(-v),
            None => None,
        }
    } else {
        match unsigned_value(s, 10, 0x7fff_ffff) {
            Some(v) => Some(v as int),
            None => None,
        }
    }
}

proof fn lemma_digits_invalid(s: Seq<char>, radix: nat, k: int)
    requires
        0 <= k < s.len(),
        digit_value(s[k], radix) is None,
    ensures
        digits_value(s, radix) is None,
    decreases s.len(),
{
    if s.len() > 1 && k < s.len() - 1 {
        lemma_digits_invalid(s.drop_last(), radix, k);
    }
}

proof fn lemma_digits_prefix(s: Seq<char>, radix: nat, k: int)
    requires
        digits_value(s, radix) is Some,
        1 <= k <= s.len(),
        radix >= 1,
    ensures
        digits_value(s.take(k), radix) is Some,
        digits_value(s.take(k), radix)->0 <= digits_value(s, radix)->0,
    decreases s.len(),
{
    if k == s.len() {
        assert(s.take(k) =~= s);
    } else {
        let t = s.drop_last();
        let a = digits_value(t, radix)->0;
        let d = digit_value(s.last(), radix)->0;
        assert(a * radix >= a) by (nonlinear_arith)
            requires
                radix >= 1,
                a >= 0,
        ;
        lemma_digits_prefix(t, radix, k);
        assert(t.take(k) =~= s.take(k));
    }
}

fn digit_of(c: char, radix: u32) -> (r: Option<u32>)
    requires
        2 <= radix <= 36,
    ensures
        match r {
            Some(x) => digit_value(c, radix as nat) == Some(x as nat),
            None => digit_value(c, radix as nat) is None,
        },
{
    let u = c as u32;
    let v: u32 = if 0x30 <= u && u <= 0x39 {
        u - 0x30
    } else if 0x61 <= u && u <= 0x7a {
        u - 0x61 + 10
    } else if 0x41 <= u && u <= 0x5a {
        u - 0x41 + 10
    } else {
        36
    };
    if v < radix {
        Some(v)
    } else {
        None
    }
}

/// Reads the digits of `s` from position `start` to its end.
fn digits_from(s: &str, len: usize, start: usize, radix: u32, max: u64) -> (r: Option<u64>)
    requires
        len == s@.len(),
        start <= len,
        2 <= radix <= 36,
    ensures
        match r {
            Some(v) => within(digits_value(s@.skip(start as int), radix as nat), max as nat) == Some(
                v as nat,
            ),
            None => within(digits_value(s@.skip(start as int), radix as nat), max as nat) is None,
        },
{
    let ghost t = s@.skip(start as int);
    if start == len {
        return None;
    }
    let mut i: usize = start;
    let mut acc: u64 = 0;
    while i < len
        invariant
            len == s@.len(),
            start < len,
            start <= i <= len,
            2 <= radix <= 36,
            t == s@.skip(start as int),
            acc <= max,
            i == start ==> acc == 0,
            i > start ==> digits_value(t.take(i - start), radix as nat) == Some(acc as nat),
        decreases len - i,
    {
        let c = s.get_char(i);
        let k = i - start;
        proof {
            assert(t[k as int] == c);
        }
        match digit_of(c, radix) {
            None => {
                proof {
                    lemma_digits_invalid(t, radix as nat, k as int);
                }
                return None;
            },
            Some(x) => {
                let q = if (x as u64) <= max {
                    (max - x as u64) / (radix as u64)
                } else {
                    0
                };
                proof {
                    if k > 0 {
                        assert(t.take(k + 1).drop_last() =~= t.take(k as int));
                    }
                    assert(t.take(k + 1).last() == c);
                    assert(t.take(k + 1).len() == k + 1);
                }
                if (x as u64) > max || acc > q {
                    proof {
                        let next = t.take(k + 1);
                        let nv = digits_value(next, radix as nat)->0;
                        let (a, r, xx, mx, qq) = (acc as int, radix as int, x as int, max as int, q as int);
                        if k > 0 {
                            assert(nv == a * r + xx);
                        }
                        if xx <= mx && a > qq {
                            let m = mx - xx;
                            vstd::arithmetic::div_mod::lemma_fundamental_div_mod(m, r);
                            vstd::arithmetic::div_mod::lemma_mod_pos_bound(m, r);
                            assert(a * r + xx > mx) by (nonlinear_arith)
                                requires
                                    a >= qq + 1,
                                    qq == m / r,
                                    m == r * (m / r) + m % r,
                                    m % r < r,
                                    m == mx - xx,
                                    r > 0,
                            ;
                            assert(a > 0);
                        }
                        assert(nv > mx) by (nonlinear_arith)
                            requires
                                k > 0 ==> nv == a * r + xx,
                                k == 0 ==> nv == xx,
                                xx > mx || (a * r + xx > mx && a > 0),
                                a > 0 ==> k > 0,
                                a >= 0,
                                r > 0,
                        ;
                        if digits_value(t, radix as nat) is Some {
                            lemma_digits_prefix(t, radix as nat, k + 1);
                        }
                    }
                    return None;
                }
                proof {
                    let (a, r, xx, mx, qq) = (acc as int, radix as int, x as int, max as int, q as int);
                    let m = mx - xx;
                    vstd::arithmetic::div_mod::lemma_fundamental_div_mod(m, r);
                    vstd::arithmetic::div_mod::lemma_mod_pos_bound(m, r);
                    assert(a * r + xx <= mx) by (nonlinear_arith)
                        requires
                            a <= qq,
                            qq == m / r,
                            m == r * (m / r) + m % r,
                            m % r >= 0,
                            m == mx - xx,
                            r > 0,
                    ;
                    let next = t.take(k + 1);
                    if k > 0 {
                        assert(digits_value(next, radix as nat) == Some((a * r + xx) as nat));
                    } else {
                        assert(digits_value(next, radix as nat) == Some(xx as nat));
                    }
                }
                acc = acc * (radix as u64) + x as u64;
                i = i + 1;
            },
        }
    }
    proof {
        assert(t.take(len - start) =~= t);
    }
    Some(acc)
}

/// Parses an unsigned number in the given radix, as `from_str_radix` of std
/// reads it: an optional `+`, then digits only, with a value of at most `max`.
pub fn parse_unsigned(s: &str, radix: u32, max: u64) -> (r: Option<u64>)
    requires
        2 <= radix <= 36,
    ensures
        match r {
            Some(v) => unsigned_value(s@, radix as nat, max as nat) == Some(v as nat),
            None => unsigned_value(s@, radix as nat, max as nat) is None,
        },
{
    let len = s.unicode_len();
    if len > 0 && s.get_char(0) == '+' {
        digits_from(s, len, 1, radix, max)
    } else {
        assert(s@.skip(0) =~= s@);
        digits_from(s, len, 0, radix, max)
    }
}

/// Parses a decimal `i32` as `str::parse` reads one.
pub fn parse_i32(s: &str) -> (r: Option<i32>)
    ensures
        match r {
            Some(v) => i32_value(s@) == Some(v as int),
            None => i32_value(s@) is None,
        },
{
    let len = s.unicode_len();
    if len > 0 && s.get_char(0) == '-' {
        match digits_from(s, len, 1, 10, 0x8000_0000) {
            Some(v) => Some((0 - (v as i64)) as i32),
            None => None,
        }
    } else {
        match parse_unsigned(s, 10, 0x7fff_ffff) {
            Some(v) => Some(v as i32),
            None => None,
        }
    }
}

/// The decimal digit character for `d < 10`.
pub open spec fn digit_char(d: nat) -> char {
    if d == 0 {
        '0'
    } else if d == 1 {
        '1'
    } else if d == 2 {
        '2'
    } else if d == 3 {
        '3'
    } else if d == 4 {
        '4'
    } else if d == 5 {
        '5'
    } else if d == 6 {
        '6'
    } else if d == 7 {
        '7'
    } else if d == 8 {
        '8'
    } else {
        '9'
    }
}

/// The decimal digits of `n`, with no leading zero.
pub open spec fn nat_text(n: nat) -> Seq<char>
    decreases n,
{
    if n < 10 {
        seq![digit_char(n)]
    } else {
        nat_text(n / 10) + seq![digit_char(n % 10)]
    }
}

/// The decimal text of `v`, with a leading `-` when it is negative.
pub open spec fn int_text(v: int) -> Seq<char> {
    if v < 0 {
        seq!['-'] + nat_text((-v) as nat)
    } else {
        nat_text(v as nat)
    }
}

fn digit_str(d: u32) -> (r: &'static str)
    requires
        d < 10,
    ensures
        r@ == seq![digit_char(d as nat)],
{
    if d == 0 {
        proof {
            reveal_strlit("0");
        }
        "0"
    } else if d == 1 {
        proof {
            reveal_strlit("1");
        }
        "1"
    } else if d == 2 {
        proof {
            reveal_strlit("2");
        }
        "2"
    } else if d == 3 {
        proof {
            reveal_strlit("3");
        }
        "3"
    } else if d == 4 {
        proof {
            reveal_strlit("4");
        }
        "4"
    } else if d == 5 {
        proof {
            reveal_strlit("5");
        }
        "5"
    } else if d == 6 {
        proof {
            reveal_strlit("6");
        }
        "6"
    } else if d == 7 {
        proof {
            reveal_strlit("7");
        }
        "7"
    } else if d == 8 {
        proof {
            reveal_strlit("8");
        }
        "8"
    } else {
        proof {
            reveal_strlit("9");
        }
        "9"
    }
}

fn push_nat_text(out: &mut String, n: u32)
    ensures
        final(out)@ == old(out)@ + nat_text(n as nat),
    decreases n,
{
    if n >= 10 {
        push_nat_text(out, n / 10);
    }
    out.append(digit_str(n % 10));
    proof {
        if n >= 10 {
            assert(old(out)@ + nat_text(n as nat) =~= old(out)@ + nat_text((n / 10) as nat) + seq![
                digit_char((n % 10) as nat),
            ]);
        }
    }
}

/// Appends the decimal text of `v` to `out`.
pub fn push_int_text(out: &mut String, v: i32)
    ensures
        final(out)@ == old(out)@ + int_text(v as int),
{
    if v < 0 {
        proof {
            reveal_strlit("-");
        }
        out.append("-");
        push_nat_text(out, (0 - (v as i64)) as u32);
        assert(final(out)@ =~= old(out)@ + int_text(v as int));
    } else {
        push_nat_text(out, v as u32);
    }
}

proof fn lemma_digit_char(d: nat)
    requires
        d < 10,
    ensures
        digit_value(digit_char(d), 10) == Some(d),
        !is_white(digit_char(d)),
        digit_char(d) != '+',
        digit_char(d) != '-',
{
}

/// The digits of `n` read back as `n`.
proof fn lemma_nat_text(n: nat)
    ensures
        digits_value(nat_text(n), 10) == Some(n),
        nat_text(n).len() >= 1,
        forall|i: int|
            0 <= i < nat_text(n).len() ==> digit_value(#[trigger] nat_text(n)[i], 10) is Some
                && !is_white(nat_text(n)[i]) && nat_text(n)[i] != '+' && nat_text(n)[i] != '-',
    decreases n,
{
    if n < 10 {
        lemma_digit_char(n);
    } else {
        lemma_nat_text(n / 10);
        lemma_digit_char(n % 10);
        let s = nat_text(n);
        assert(s.drop_last() =~= nat_text(n / 10));
        assert(n == (n / 10) * 10 + n % 10);
        assert forall|i: int| 0 <= i < s.len() implies digit_value(#[trigger] s[i], 10) is Some
            && !is_white(s[i]) && s[i] != '+' && s[i] != '-' by {
            if i < s.len() - 1 {
                assert(s[i] == nat_text(n / 10)[i]);
            }
        }
    }
}

/// The decimal text of an `i32` parses back to the same value.
pub proof fn lemma_int_text_round_trip(v: int)
    requires
        -0x8000_0000 <= v <= 0x7fff_ffff,
    ensures
        i32_value(int_text(v)) == Some(v),
        int_text(v).len() >= 1,
        forall|i: int| 0 <= i < int_text(v).len() ==> !is_white(#[trigger] int_text(v)[i]),
{
    if v < 0 {
        let n = (-v) as nat;
        lemma_nat_text(n);
        let s = int_text(v);
        assert(s.skip(1) =~= nat_text(n));
        assert forall|i: int| 0 <= i < s.len() implies !is_white(#[trigger] s[i]) by {
            if i > 0 {
                assert(s[i] == nat_text(n)[i - 1]);
            }
        }
    } else {
        lemma_nat_text(v as nat);
        assert(nat_text(v as nat)[0] != '+');
    }
}

} // verus!
