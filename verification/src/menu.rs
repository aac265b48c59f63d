//! Validation of numeric menu choices.
//!
//! The selection menu prints a 1-based numbered list and prompts until a
//! line validates. Prompting is I/O and lives in the front end; what makes
//! a line valid — trimmed, an integer, within the menu — is decided here.

use vstd::prelude::*;
use vstd::string::*;

verus! {

/// Whether `c` is a whitespace character, by the Unicode `White_Space`
/// property that line trimming goes by.
pub open spec fn is_space(c: char) -> bool {
    let u = c as u32;
    ||| u == 0x20
    ||| (0x9 <= u && u <= 0xd)
    ||| u == 0x85
    ||| u == 0xa0
    ||| u == 0x1680
    ||| (0x2000 <= u && u <= 0x200a)
    ||| u == 0x2028
    ||| u == 0x2029
    ||| u == 0x202f
    ||| u == 0x205f
    ||| u == 0x3000
}

fn is_space_char(c: char) -> (r: bool)
    ensures
        r == is_space(c),
{
    let u = c as u32;
    u == 0x20 || (0x9 <= u && u <= 0xd) || u == 0x85 || u == 0xa0 || u == 0x1680 || (0x2000 <= u
        && u <= 0x200a) || u == 0x2028 || u == 0x2029 || u == 0x202f || u == 0x205f || u == 0x3000
}

/// `s` with its leading whitespace removed.
pub open spec fn trim_start_spec(s: Seq<char>) -> Seq<char>
    decreases s.len(),
{
    if s.len() > 0 && is_space(s[0]) {
        trim_start_spec(s.subrange(1, s.len() as int))
    } else {
        s
    }
}

/// `s` with its trailing whitespace removed.
pub open spec fn trim_end_spec(s: Seq<char>) -> Seq<char>
    decreases s.len(),
{
    if s.len() > 0 && is_space(s[s.len() - 1]) {
        trim_end_spec(s.subrange(0, s.len() - 1))
    } else {
        s
    }
}

/// `s` with whitespace removed from both ends.
pub open spec fn trimmed(s: Seq<char>) -> Seq<char> {
    trim_end_spec(trim_start_spec(s))
}

proof fn lemma_trim_start_at(s: Seq<char>, a: int)
    requires
        0 <= a <= s.len(),
        forall|k: int| 0 <= k < a ==> is_space(s[k]),
        a == s.len() || !is_space(s[a]),
    ensures
        trim_start_spec(s) == s.subrange(a, s.len() as int),
    decreases a,
{
    if a == 0 {
        assert(s.subrange(0, s.len() as int) =~= s);
    } else {
        let t = s.subrange(1, s.len() as int);
        lemma_trim_start_at(t, a - 1);
        assert(t.subrange(a - 1, t.len() as int) =~= s.subrange(a, s.len() as int));
    }
}

proof fn lemma_trim_end_at(s: Seq<char>, b: int)
    requires
        0 <= b <= s.len(),
        forall|k: int| b <= k < s.len() ==> is_space(s[k]),
        b == 0 || !is_space(s[b - 1]),
    ensures
        trim_end_spec(s) == s.subrange(0, b),
    decreases s.len() - b,
{
    if b == s.len() {
        assert(s.subrange(0, s.len() as int) =~= s);
    } else {
        let t = s.subrange(0, s.len() - 1);
        lemma_trim_end_at(t, b);
        assert(t.subrange(0, b) =~= s.subrange(0, b));
    }
}

/// Removes whitespace from both ends of `s`.
pub fn trim(s: &str) -> (r: String)
    ensures
        r@ == trimmed(s@),
{
    let n = s.unicode_len();
    let mut a: usize = 0;
    while a < n && is_space_char(s.get_char(a))
        invariant
            n == s@.len(),
            a <= n,
            forall|k: int| 0 <= k < a ==> is_space(s@[k]),
        decreases n - a,
    {
        a = a + 1;
    }
    proof {
        lemma_trim_start_at(s@, a as int);
    }
    let mut b: usize = n;
    while b > a && is_space_char(s.get_char(b - 1))
        invariant
            n == s@.len(),
            a <= b <= n,
            forall|k: int| b <= k < n ==> is_space(s@[k]),
        decreases b,
    {
        b = b - 1;
    }
    proof {
        let t = s@.subrange(a as int, n as int);
        lemma_trim_end_at(t, b - a);
        assert(t.subrange(0, b - a) =~= s@.subrange(a as int, b as int));
    }
    s.substring_char(a, b).to_owned()
}

/// Whether `c` is an ASCII decimal digit.
pub open spec fn is_digit(c: char) -> bool {
    48 <= c as u32 <= 57
}

/// The value of an ASCII decimal digit.
pub open spec fn digit_val(c: char) -> int {
    c as u32 - 48
}

/// Whether every character of `s` is an ASCII decimal digit.
pub open spec fn all_digits(s: Seq<char>) -> bool {
    forall|i: int| 0 <= i < s.len() ==> is_digit(#[trigger] s[i])
}

/// The value of a digit string, most significant digit first.
pub open spec fn digits_val(s: Seq<char>) -> int
    decreases s.len(),
{
    if s.len() == 0 {
        0
    } else {
        digits_val(s.subrange(0, s.len() - 1)) * 10 + digit_val(s[s.len() - 1])
    }
}

/// The digit part of an integer literal: everything after a leading sign.
pub open spec fn int_digits(s: Seq<char>) -> Seq<char> {
    if s.len() > 0 && (s[0] == '+' || s[0] == '-') {
        s.subrange(1, s.len() as int)
    } else {
        s
    }
}

/// The sign of an integer literal.
pub open spec fn int_sign(s: Seq<char>) -> int {
    if s.len() > 0 && s[0] == '-' {
        -1
    } else {
        1
    }
}

/// The reading of `s` as a 32-bit signed decimal integer: an optional sign,
/// then one or more ASCII digits, the value within the type's range —
/// `None` on anything else.
pub open spec fn spec_parse_i32(s: Seq<char>) -> Option<int> {
    let ds = int_digits(s);
    let v = int_sign(s) * digits_val(ds);
    if ds.len() >= 1 && all_digits(ds) && i32::MIN <= v <= i32::MAX {
        Some(v)
    } else {
        None
    }
}

proof fn lemma_digits_val_nonneg(s: Seq<char>)
    requires
        all_digits(s),
    ensures
        digits_val(s) >= 0,
    decreases s.len(),
{
    if s.len() > 0 {
        let t = s.subrange(0, s.len() - 1);
        lemma_digits_val_nonneg(t);
    }
}

proof fn lemma_digits_val_prefix_le(s: Seq<char>, m: int)
    requires
        all_digits(s),
        0 <= m <= s.len(),
    ensures
        digits_val(s.subrange(0, m)) <= digits_val(s),
    decreases s.len() - m,
{
    if m == s.len() {
        assert(s.subrange(0, s.len() as int) =~= s);
    } else {
        let t = s.subrange(0, s.len() - 1);
        assert(t.subrange(0, m) =~= s.subrange(0, m));
        lemma_digits_val_prefix_le(t, m);
        lemma_digits_val_nonneg(t);
    }
}

/// Reads `s` as a 32-bit signed decimal integer, as `spec_parse_i32`
/// describes.
pub fn parse_i32(s: &str) -> (r: Option<i32>)
    ensures
        match r {
            Some(v) => spec_parse_i32(s@) == Some(v as int),
            None => spec_parse_i32(s@) is None,
        },
{
    let n = s.unicode_len();
    if n == 0 {
        return None;
    }
    let c0 = s.get_char(0);
    let neg = c0 == '-';
    let start: usize = if c0 == '-' || c0 == '+' {
        1
    } else {
        0
    };
    if start == n {
        return None;
    }
    let ghost ds = int_digits(s@);
    proof {
        assert(ds =~= s@.subrange(start as int, n as int));
    }
    let mut acc: i64 = 0;
    let mut i: usize = start;
    while i < n
        invariant
            start <= i <= n,
            n == s@.len(),
            start < n,
            ds == s@.subrange(start as int, n as int),
            ds == int_digits(s@),
            neg == (int_sign(s@) == -1),
            all_digits(ds.subrange(0, i - start)),
            acc == digits_val(ds.subrange(0, i - start)),
            0 <= acc <= 0x8000_0000,
        decreases n - i,
    {
        let c = s.get_char(i);
        let u = c as u32;
        if !(48 <= u && u <= 57) {
            proof {
                assert(ds[i - start] == s@[i as int]);
                assert(!is_digit(ds[i - start]));
            }
            return None;
        }
        let ghost prev = ds.subrange(0, i - start);
        acc = acc * 10 + ((u - 48) as i64);
        proof {
            assert(ds.subrange(0, i - start + 1) =~= prev.push(ds[i - start]));
            assert(ds.subrange(0, i - start + 1).subrange(0, i - start) =~= prev);
        }
        if acc > 0x8000_0000 {
            proof {
                if all_digits(ds) {
                    lemma_digits_val_prefix_le(ds, i - start + 1);
                }
            }
            return None;
        }
        i = i + 1;
    }
    proof {
        assert(ds.subrange(0, n - start) =~= ds);
    }
    if neg {
        Some((-acc) as i32)
    } else {
        if acc > 0x7fff_ffff {
            return None;
        }
        Some(acc as i32)
    }
}

/// The zero-based index a line of menu input selects from an
/// `n_items`-long menu: the trimmed line must read as an integer between 1
/// and `n_items`, and selects that value minus one. Anything else selects
/// nothing, which the front end answers with a corrective re-prompt —
/// invalid input is never fatal.
pub open spec fn spec_choice(line: Seq<char>, n_items: int) -> Option<int> {
    match spec_parse_i32(trimmed(line)) {
        Some(v) => if 1 <= v <= n_items {
            Some(v - 1)
        } else {
            None
        },
        None => None,
    }
}

/// Validates one line of menu input, as `spec_choice` describes.
pub fn parse_choice(line: &str, n_items: usize) -> (r: Option<usize>)
    requires
        n_items <= i32::MAX as usize,
    ensures
        match r {
            Some(i) => spec_choice(line@, n_items as int) == Some(i as int),
            None => spec_choice(line@, n_items as int) is None,
        },
{
    let t = trim(line);
    match parse_i32(t.as_str()) {
        Some(v) => {
            if 1 <= v && (v as usize) <= n_items {
                Some((v - 1) as usize)
            } else {
                None
            }
        },
        None => None,
    }
}

} // verus!
