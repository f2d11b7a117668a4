//! Text routines shared by the other modules: building strings, decimal
//! numbers, searching, trimming and splitting.
//!
//! A string is modelled by the sequence of its characters.

use vstd::prelude::*;

verus! {

/// `String::push` appends one character.
pub assume_specification[ String::push ](s: &mut String, c: char)
    ensures
        final(s)@ == old(s)@.push(c),
;

/// `String::push_str` appends all characters of a string slice.
pub assume_specification[ String::push_str ](s: &mut String, t: &str)
    ensures
        final(s)@ == old(s)@ + t@,
;

/// The lowercase form of a text, by the case tables of the Unicode standard.
pub uninterp spec fn lowercase(s: Seq<char>) -> Seq<char>;

/// `str::to_lowercase` returns the lowercase form of the text. The contract
/// gives that form a name and says two things of it: the form of the empty text
/// is empty, and a text that is in lowercase is its own form. What single
/// characters become is left unsaid.
pub assume_specification[ str::to_lowercase ](s: &str) -> (out: String)
    ensures
        out@ == lowercase(s@),
        s@.len() == 0 ==> out@.len() == 0,
        lowercase(out@) == out@,
;

/// The character sequences of a list of strings.
pub open spec fn views(v: Seq<String>) -> Seq<Seq<char>> {
    v.map_values(|s: String| s@)
}

/// The text of an optional string.
pub open spec fn opt_view(o: Option<String>) -> Option<Seq<char>> {
    match o {
        Some(s) => Some(s@),
        None => None,
    }
}

/// The characters of `s`, in order.
pub fn chars_of(s: &str) -> (out: Vec<char>)
    ensures
        out@ == s@,
{
    let mut out: Vec<char> = Vec::new();
    for c in it: s.chars()
        invariant
            out@ == s@.take(it.index() as int),
            it.seq() == s@,
    {
        out.push(c);
    }
    out
}

/// The string made of the characters `from..to` of `cs`.
pub fn string_of(cs: &Vec<char>, from: usize, to: usize) -> (out: String)
    requires
        from <= to <= cs.len(),
    ensures
        out@ == cs@.subrange(from as int, to as int),
{
    let mut out: String = String::new();
    let mut i: usize = from;
    while i < to
        invariant
            from <= i <= to <= cs.len(),
            out@ == cs@.subrange(from as int, i as int),
        decreases to - i,
    {
        out.push(cs[i]);
        i = i + 1;
        assert(cs@.subrange(from as int, i as int) =~= cs@.subrange(from as int, i - 1).push(
            cs@[i - 1],
        ));
    }
    out
}

/// Whether two texts are equal.
pub fn eq_str(a: &str, b: &str) -> (r: bool)
    ensures
        r == (a@ == b@),
{
    let x: Vec<char> = chars_of(a);
    let y: Vec<char> = chars_of(b);
    if x.len() != y.len() {
        return false;
    }
    let mut i: usize = 0;
    while i < x.len()
        invariant
            x@ == a@,
            y@ == b@,
            x.len() == y.len(),
            i <= x.len(),
            forall|k: int| 0 <= k < i ==> x@[k] == y@[k],
        decreases x.len() - i,
    {
        if x[i] != y[i] {
            return false;
        }
        i = i + 1;
    }
    assert(a@ =~= b@);
    true
}

/// Whether two optional texts are equal.
pub fn eq_opt_str(a: &Option<String>, b: &Option<String>) -> (r: bool)
    ensures
        r == (opt_view(*a) == opt_view(*b)),
{
    match (a, b) {
        (Some(x), Some(y)) => eq_str(x.as_str(), y.as_str()),
        (None, None) => true,
        _ => false,
    }
}

/// A copy of `s`.
pub fn copy_str(s: &String) -> (out: String)
    ensures
        out == *s,
{
    s.clone()
}

/// A copy of an optional string.
pub fn copy_opt(o: &Option<String>) -> (out: Option<String>)
    ensures
        out == *o,
{
    match o {
        Some(s) => Some(s.clone()),
        None => None,
    }
}

/// A copy of a list of strings.
pub fn copy_list(v: &Vec<String>) -> (out: Vec<String>)
    ensures
        views(out@) == views(v@),
{
    let mut out: Vec<String> = Vec::new();
    let mut i: usize = 0;
    while i < v.len()
        invariant
            i <= v.len(),
            views(out@) == views(v@.take(i as int)),
        decreases v.len() - i,
    {
        out.push(v[i].clone());
        i = i + 1;
        assert(v@.take(i as int) =~= v@.take(i - 1).push(v@[i - 1]));
        assert(views(v@.take(i as int)) =~= views(v@.take(i - 1)).push(v@[i - 1]@));
        assert(views(out@) =~= views(out@.drop_last()).push(out@.last()@));
        assert(out@.drop_last() =~= out@.take(i - 1));
    }
    assert(v@.take(v@.len() as int) =~= v@);
    out
}

/// Whether the list holds the text `s`.
pub fn list_contains(v: &Vec<String>, s: &str) -> (r: bool)
    ensures
        r == views(v@).contains(s@),
{
    let mut i: usize = 0;
    while i < v.len()
        invariant
            i <= v.len(),
            forall|k: int| 0 <= k < i ==> views(v@)[k] != s@,
        decreases v.len() - i,
    {
        if eq_str(v[i].as_str(), s) {
            assert(views(v@)[i as int] == s@);
            return true;
        }
        i = i + 1;
    }
    false
}

// ---- Numbers ----------------------------------------------------------------

/// The decimal digit `d`.
pub open spec fn digit(d: int) -> char {
    if d == 0 {
        '0'
    } else if d == 1 {
        '1'
    } else if d == 2 {
        '2'
    } else if d == 3 {
        '3'
    } else if d == 4 {
        '4'
    } else if d == 5 {
        '5'
    } else if d == 6 {
        '6'
    } else if d == 7 {
        '7'
    } else if d == 8 {
        '8'
    } else {
        '9'
    }
}

/// The value of a decimal digit, -1 for any other character.
pub open spec fn digit_value(c: char) -> int {
    if '0' <= c && c <= '9' {
        c as int - '0' as int
    } else {
        -1
    }
}

/// `n` written in decimal, without leading zeros.
pub open spec fn decimal(n: nat) -> Seq<char>
    decreases n,
{
    if n < 10 {
        seq![digit(n as int)]
    } else {
        decimal(n / 10).push(digit((n % 10) as int))
    }
}

/// `n` written in decimal, with a leading minus sign where it is negative.
pub open spec fn signed_decimal(n: int) -> Seq<char> {
    if n < 0 {
        seq!['-'] + decimal((-n) as nat)
    } else {
        decimal(n as nat)
    }
}

/// `n` zeros.
pub open spec fn zeros(n: nat) -> Seq<char> {
    Seq::new(n, |i: int| '0')
}

/// `n` in decimal, padded with leading zeros to at least `width` digits.
pub open spec fn padded_decimal(n: nat, width: nat) -> Seq<char> {
    if decimal(n).len() < width {
        zeros((width - decimal(n).len()) as nat) + decimal(n)
    } else {
        decimal(n)
    }
}

fn digit_char(d: u64) -> (c: char)
    requires
        d < 10,
    ensures
        c == digit(d as int),
{
    if d == 0 {
        '0'
    } else if d == 1 {
        '1'
    } else if d == 2 {
        '2'
    } else if d == 3 {
        '3'
    } else if d == 4 {
        '4'
    } else if d == 5 {
        '5'
    } else if d == 6 {
        '6'
    } else if d == 7 {
        '7'
    } else if d == 8 {
        '8'
    } else {
        '9'
    }
}

/// Appends `n` in decimal.
pub fn push_decimal(out: &mut String, n: u64)
    ensures
        final(out)@ == old(out)@ + decimal(n as nat),
    decreases n,
{
    if n >= 10 {
        push_decimal(out, n / 10);
    }
    out.push(digit_char(n % 10));
    assert(out@ =~= old(out)@ + decimal(n as nat));
}

/// Appends `n` in decimal, with a minus sign where it is negative.
pub fn push_signed(out: &mut String, n: i64)
    ensures
        final(out)@ == old(out)@ + signed_decimal(n as int),
{
    if n < 0 {
        out.push('-');
        let m: i128 = -(n as i128);
        push_decimal(out, m as u64);
        assert(out@ =~= old(out)@ + signed_decimal(n as int));
    } else {
        push_decimal(out, n as u64);
    }
}

/// Appends `n` in decimal, padded with zeros to at least `width` digits.
pub fn push_padded(out: &mut String, n: u64, width: usize)
    ensures
        final(out)@ == old(out)@ + padded_decimal(n as nat, width as nat),
    decreases width,
{
    if width <= 1 {
        push_decimal(out, n);
        assert(decimal(n as nat).len() >= 1);
    } else {
        let last: char = digit_char(n % 10);
        if n >= 10 {
            push_padded(out, n / 10, width - 1);
            out.push(last);
        } else {
            push_zeros(out, width - 1);
            out.push(last);
        }
        assert(out@ =~= old(out)@ + padded_decimal(n as nat, width as nat));
    }
}

fn push_zeros(out: &mut String, n: usize)
    ensures
        final(out)@ == old(out)@ + zeros(n as nat),
    decreases n,
{
    if n > 0 {
        push_zeros(out, n - 1);
        out.push('0');
    }
    assert(out@ =~= old(out)@ + zeros(n as nat));
}

/// The number whose decimal digits are `s`, read from the left.
pub open spec fn digits_value(s: Seq<char>) -> int
    decreases s.len(),
{
    if s.len() == 0 {
        0
    } else {
        digits_value(s.drop_last()) * 10 + digit_value(s.last())
    }
}

/// Whether every character of `s` is a decimal digit.
pub open spec fn all_digits(s: Seq<char>) -> bool {
    forall|i: int| 0 <= i < s.len() ==> digit_value(#[trigger] s[i]) >= 0
}

/// The text without one leading plus sign.
pub open spec fn without_plus(s: Seq<char>) -> Seq<char> {
    if s.len() > 0 && s[0] == '+' {
        s.skip(1)
    } else {
        s
    }
}

/// The number that a decimal text stands for: digits, at least one, after an
/// optional plus sign.
pub open spec fn parsed(s: Seq<char>) -> Option<int> {
    let d = without_plus(s);
    if d.len() > 0 && all_digits(d) {
        Some(digits_value(d))
    } else {
        None
    }
}

/// The `u64` that a decimal text stands for, where it fits.
pub open spec fn parsed_u64(s: Seq<char>) -> Option<u64> {
    match parsed(s) {
        Some(n) => if n <= u64::MAX {
            Some(n as u64)
        } else {
            None
        },
        None => None,
    }
}

proof fn lemma_digits_value_nonneg(s: Seq<char>)
    requires
        all_digits(s),
    ensures
        digits_value(s) >= 0,
    decreases s.len(),
{
    if s.len() > 0 {
        assert(all_digits(s.drop_last())) by {
            assert forall|i: int| 0 <= i < s.drop_last().len() implies digit_value(
                #[trigger] s.drop_last()[i],
            ) >= 0 by {
                assert(s.drop_last()[i] == s[i]);
            }
        }
        lemma_digits_value_nonneg(s.drop_last());
        assert(digit_value(s[s.len() - 1]) >= 0);
    }
}

proof fn lemma_digits_value_prefix(s: Seq<char>, k: int)
    requires
        all_digits(s),
        0 <= k <= s.len(),
    ensures
        0 <= digits_value(s.take(k)) <= digits_value(s),
    decreases s.len() - k,
{
    assert forall|i: int| 0 <= i < s.take(k).len() implies digit_value(
        #[trigger] s.take(k)[i],
    ) >= 0 by {
        assert(s.take(k)[i] == s[i]);
    }
    lemma_digits_value_nonneg(s.take(k));
    if k == s.len() {
        assert(s.take(k) =~= s);
    } else {
        lemma_digits_value_prefix(s, k + 1);
        assert(s.take(k + 1).drop_last() =~= s.take(k));
        assert(s.take(k + 1).last() == s[k]);
        assert(digit_value(s[k]) >= 0);
    }
}

/// Reads a decimal text: an optional plus sign, then digits, at least one;
/// `None` for any other text and for a number that does not fit.
pub fn parse_u64(s: &str) -> (out: Option<u64>)
    ensures
        out == parsed_u64(s@),
{
    let cs: Vec<char> = chars_of(s);
    let start: usize = if cs.len() > 0 && cs[0] == '+' {
        1
    } else {
        0
    };
    let ghost d = without_plus(s@);
    assert(d =~= cs@.subrange(start as int, cs@.len() as int));
    if cs.len() == start {
        return None;
    }
    let mut i: usize = start;
    let mut acc: u64 = 0;
    let mut over: bool = false;
    while i < cs.len()
        invariant
            start <= i <= cs.len(),
            d == cs@.subrange(start as int, cs@.len() as int),
            d == without_plus(s@),
            all_digits(d.take(i - start)),
            !over ==> acc == digits_value(d.take(i - start)),
            over ==> digits_value(d.take(i - start)) > u64::MAX,
        decreases cs.len() - i,
    {
        let c: char = cs[i];
        let ghost k = i - start;
        proof {
            assert(d.take(k + 1).drop_last() =~= d.take(k));
            assert(d.take(k + 1).last() == c);
            lemma_digits_value_nonneg(d.take(k));
        }
        if c < '0' || c > '9' {
            assert(digit_value(d[k]) < 0);
            return None;
        }
        let v: u64 = c as u64 - '0' as u64;
        assert(all_digits(d.take(k + 1))) by {
            assert forall|j: int| 0 <= j < d.take(k + 1).len() implies digit_value(
                #[trigger] d.take(k + 1)[j],
            ) >= 0 by {
                if j < k {
                    assert(d.take(k + 1)[j] == d.take(k)[j]);
                }
            }
        }
        if !over {
            match acc.checked_mul(10) {
                Some(m) => match m.checked_add(v) {
                    Some(n) => {
                        acc = n;
                    },
                    None => {
                        over = true;
                    },
                },
                None => {
                    over = true;
                },
            }
        }
        i = i + 1;
    }
    assert(d.take(cs.len() - start) =~= d);
    if over {
        None
    } else {
        Some(acc)
    }
}

/// A number written in decimal reads back as itself.
pub proof fn law_decimal_reads_back(n: nat)
    ensures
        parsed(decimal(n)) == Some(n as int),
{
    lemma_decimal(n);
    assert(without_plus(decimal(n)) =~= decimal(n)) by {
        assert(digit_value(decimal(n)[0]) >= 0);
    }
}

pub proof fn lemma_decimal(n: nat)
    ensures
        decimal(n).len() > 0,
        all_digits(decimal(n)),
        digits_value(decimal(n)) == n,
    decreases n,
{
    if n < 10 {
        assert(decimal(n).drop_last() =~= Seq::<char>::empty());
        assert(digits_value(decimal(n).drop_last()) == 0);
    } else {
        lemma_decimal(n / 10);
        let s = decimal(n);
        assert(s.drop_last() =~= decimal(n / 10));
        assert forall|i: int| 0 <= i < s.len() implies digit_value(#[trigger] s[i]) >= 0 by {
            if i < s.len() - 1 {
                assert(s[i] == decimal(n / 10)[i]);
            }
        }
    }
}

// ---- Numbers with a sign ----------------------------------------------------

/// The number that a decimal text with an optional sign stands for.
pub open spec fn parsed_int(s: Seq<char>) -> Option<int> {
    if s.len() > 0 && s[0] == '-' {
        let d = s.skip(1);
        if d.len() > 0 && all_digits(d) {
            Some(-digits_value(d))
        } else {
            None
        }
    } else {
        parsed(s)
    }
}

/// The `i64` that a decimal text stands for, where it fits.
pub open spec fn parsed_i64(s: Seq<char>) -> Option<i64> {
    match parsed_int(s) {
        Some(n) => if i64::MIN <= n <= i64::MAX {
            Some(n as i64)
        } else {
            None
        },
        None => None,
    }
}

/// Reads a decimal text with an optional sign.
pub fn parse_i64(s: &str) -> (out: Option<i64>)
    ensures
        out == parsed_i64(s@),
{
    let cs: Vec<char> = chars_of(s);
    if cs.len() > 0 && cs[0] == '-' {
        let rest: String = string_of(&cs, 1, cs.len());
        assert(rest@ =~= s@.skip(1));
        if cs.len() > 1 && cs[1] == '+' {
            assert(s@.skip(1)[0] == '+');
            assert(digit_value('+') < 0);
            return None;
        }
        assert(without_plus(rest@) =~= rest@);
        proof {
            if all_digits(rest@) {
                lemma_digits_value_nonneg(rest@);
            }
        }
        match parse_u64(rest.as_str()) {
            Some(n) => {
                if n <= 0x7fff_ffff_ffff_ffff {
                    Some(-(n as i64))
                } else if n == 0x8000_0000_0000_0000 {
                    Some(i64::MIN)
                } else {
                    None
                }
            },
            None => None,
        }
    } else {
        proof {
            if all_digits(without_plus(s@)) {
                lemma_digits_value_nonneg(without_plus(s@));
            }
        }
        match parse_u64(s) {
            Some(n) => {
                if n <= 0x7fff_ffff_ffff_ffff {
                    Some(n as i64)
                } else {
                    None
                }
            },
            None => None,
        }
    }
}

/// The `i32` that a decimal text stands for, where it fits.
pub open spec fn parsed_i32(s: Seq<char>) -> Option<i32> {
    match parsed_int(s) {
        Some(n) => if i32::MIN <= n <= i32::MAX {
            Some(n as i32)
        } else {
            None
        },
        None => None,
    }
}

/// Reads a decimal text with an optional sign.
pub fn parse_i32(s: &str) -> (out: Option<i32>)
    ensures
        out == parsed_i32(s@),
{
    match parse_i64(s) {
        Some(n) => {
            if -0x8000_0000 <= n && n <= 0x7fff_ffff {
                Some(n as i32)
            } else {
                None
            }
        },
        None => None,
    }
}

// ---- Lengths in bytes -------------------------------------------------------

/// How many bytes a character takes in UTF-8.
pub open spec fn char_width(c: char) -> int {
    if (c as int) < 0x80 {
        1
    } else if (c as int) < 0x800 {
        2
    } else if (c as int) < 0x1_0000 {
        3
    } else {
        4
    }
}

/// How many bytes the first `n` characters take in UTF-8.
pub open spec fn byte_len(s: Seq<char>, n: int) -> int
    decreases n,
{
    if n <= 0 {
        0
    } else {
        byte_len(s, n - 1) + char_width(s[n - 1])
    }
}

/// How many characters at the start take exactly `bytes` bytes, among the
/// first `n`.
pub open spec fn prefix_chars(s: Seq<char>, bytes: int, n: int) -> Option<int>
    decreases n + 1,
{
    if n < 0 {
        None
    } else if byte_len(s, n) == bytes {
        Some(n)
    } else {
        prefix_chars(s, bytes, n - 1)
    }
}

fn width_of(c: char) -> (w: usize)
    ensures
        w == char_width(c),
{
    let u: u32 = c as u32;
    if u < 0x80 {
        1
    } else if u < 0x800 {
        2
    } else if u < 0x1_0000 {
        3
    } else {
        4
    }
}

proof fn lemma_byte_len(s: Seq<char>, a: int, b: int)
    requires
        0 <= a <= b,
    ensures
        byte_len(s, a) + (b - a) <= byte_len(s, b),
    decreases b,
{
    if a < b {
        lemma_byte_len(s, a, b - 1);
    }
}

proof fn lemma_prefix_chars(s: Seq<char>, bytes: int, at: int, n: int)
    requires
        0 <= at <= n,
        byte_len(s, at) <= bytes,
        at < n ==> byte_len(s, at + 1) > bytes,
    ensures
        prefix_chars(s, bytes, n) == (if byte_len(s, at) == bytes {
            Some(at)
        } else {
            None::<int>
        }),
    decreases n,
{
    if at < n {
        lemma_byte_len(s, at + 1, n);
        lemma_prefix_chars(s, bytes, at, n - 1);
    } else if byte_len(s, at) < bytes {
        lemma_no_prefix(s, bytes, n);
    }
}

proof fn lemma_no_prefix(s: Seq<char>, bytes: int, n: int)
    requires
        0 <= n,
        byte_len(s, n) < bytes,
    ensures
        prefix_chars(s, bytes, n) is None,
    decreases n,
{
    if n > 0 {
        lemma_byte_len(s, n - 1, n);
        lemma_no_prefix(s, bytes, n - 1);
    } else {
        assert(prefix_chars(s, bytes, -1) is None);
    }
}

/// Whether the text takes more than `limit` bytes.
pub fn longer_than(s: &str, limit: usize) -> (r: bool)
    requires
        limit <= 0x1000,
    ensures
        r == (byte_len(s@, s@.len() as int) > limit),
{
    let cs: Vec<char> = chars_of(s);
    let mut bytes: usize = 0;
    let mut i: usize = 0;
    while i < cs.len()
        invariant
            i <= cs.len(),
            cs@ == s@,
            limit <= 0x1000,
            bytes <= limit,
            bytes == byte_len(cs@, i as int),
        decreases cs.len() - i,
    {
        bytes = bytes + width_of(cs[i]);
        i = i + 1;
        if bytes > limit {
            proof {
                lemma_byte_len(cs@, i as int, cs@.len() as int);
            }
            return true;
        }
    }
    false
}

/// The characters at the start that take exactly `bytes` bytes; `None` where
/// that splits a character or the text is shorter.
pub fn byte_prefix(s: &str, bytes: usize) -> (out: Option<String>)
    requires
        bytes <= 0x1000,
    ensures
        match out {
            Some(p) => prefix_chars(s@, bytes as int, s@.len() as int) matches Some(n) && 0 <= n
                <= s@.len() && p@ == s@.take(n),
            None => prefix_chars(s@, bytes as int, s@.len() as int) is None,
        },
{
    let cs: Vec<char> = chars_of(s);
    let mut sum: usize = 0;
    let mut i: usize = 0;
    while i < cs.len() && sum + width_of(cs[i]) <= bytes
        invariant
            i <= cs.len(),
            cs@ == s@,
            bytes <= 0x1000,
            sum <= bytes,
            sum == byte_len(cs@, i as int),
        decreases cs.len() - i,
    {
        sum = sum + width_of(cs[i]);
        i = i + 1;
    }
    proof {
        lemma_prefix_chars(s@, bytes as int, i as int, s@.len() as int);
    }
    if sum == bytes {
        let out: String = string_of(&cs, 0, i);
        assert(out@ =~= s@.take(i as int));
        Some(out)
    } else {
        None
    }
}

} // verus!
