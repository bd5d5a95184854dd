//! Text helpers of the engine: the whitespace trim and decimal parse that
//! the Input command applies to a line, and the decimal rendering that the
//! Output command uses in numeric mode.

use vstd::prelude::*;

verus! {

/// Whitespace stripped from both ends of an input line before parsing.
pub open spec fn is_space(c: char) -> bool {
    c == ' ' || c == '\t' || c == '\n' || c == '\r'
}

/// The line with its leading whitespace removed.
pub open spec fn trim_front(s: Seq<char>) -> Seq<char>
    decreases s.len(),
{
    if s.len() > 0 && is_space(s[0]) {
        trim_front(s.drop_first())
    } else {
        s
    }
}

/// The line with its trailing whitespace removed.
pub open spec fn trim_back(s: Seq<char>) -> Seq<char>
    decreases s.len(),
{
    if s.len() > 0 && is_space(s.last()) {
        trim_back(s.drop_last())
    } else {
        s
    }
}

/// The line with surrounding whitespace removed.
pub open spec fn trim_spec(s: Seq<char>) -> Seq<char> {
    trim_back(trim_front(s))
}

/// The value of a decimal digit character, `-1` for any other character.
pub open spec fn digit_int(c: char) -> int {
    match c {
        '0' => 0,
        '1' => 1,
        '2' => 2,
        '3' => 3,
        '4' => 4,
        '5' => 5,
        '6' => 6,
        '7' => 7,
        '8' => 8,
        '9' => 9,
        _ => -1,
    }
}

/// Whether a character is a decimal digit.
pub open spec fn is_digit(c: char) -> bool {
    digit_int(c) >= 0
}

/// Whether every character of the text is a decimal digit.
pub open spec fn all_digits(s: Seq<char>) -> bool {
    forall|i: int| 0 <= i < s.len() ==> is_digit(s[i])
}

/// The number an all-digit text denotes in decimal.
pub open spec fn digits_val(s: Seq<char>) -> int
    decreases s.len(),
{
    if s.len() == 0 {
        0
    } else {
        digits_val(s.drop_last()) * 10 + digit_int(s.last())
    }
}

/// What an already-trimmed input line stores in the current cell: a
/// non-empty all-digit text whose value is at most 255 stores that value;
/// anything else is rejected.
pub open spec fn parse_byte_spec(s: Seq<char>) -> Option<u8> {
    if s.len() > 0 && all_digits(s) && digits_val(s) <= 255 {
        Some(digits_val(s) as u8)
    } else {
        None
    }
}

/// An all-digit text has a nonnegative value.
proof fn lemma_digits_val_nonneg(s: Seq<char>)
    requires
        all_digits(s),
    ensures
        digits_val(s) >= 0,
    decreases s.len(),
{
    if s.len() > 0 {
        lemma_digits_val_nonneg(s.drop_last());
    }
}

/// Extending an all-digit text never lowers its value.
proof fn lemma_digits_val_mono(s: Seq<char>, j: int)
    requires
        all_digits(s),
        0 <= j <= s.len(),
    ensures
        digits_val(s.subrange(0, j)) <= digits_val(s),
    decreases s.len() - j,
{
    if j == s.len() {
        assert(s.subrange(0, j) =~= s);
    } else {
        let shorter = s.subrange(0, j);
        let longer = s.subrange(0, j + 1);
        assert(longer.drop_last() =~= shorter);
        assert(all_digits(shorter));
        lemma_digits_val_nonneg(shorter);
        assert(digits_val(longer) == digits_val(shorter) * 10 + digit_int(s[j]));
        lemma_digits_val_mono(s, j + 1);
    }
}

/// Skipping an all-space prefix computes `trim_front`.
proof fn lemma_trim_front_skip(s: Seq<char>, a: int)
    requires
        0 <= a <= s.len(),
        forall|i: int| 0 <= i < a ==> is_space(#[trigger] s[i]),
        a < s.len() ==> !is_space(s[a]),
    ensures
        trim_front(s) == s.subrange(a, s.len() as int),
    decreases a,
{
    if a == 0 {
        assert(s.subrange(0, s.len() as int) =~= s);
    } else {
        let t = s.drop_first();
        assert(forall|i: int| 0 <= i < a - 1 ==> is_space(#[trigger] t[i]));
        lemma_trim_front_skip(t, a - 1);
        assert(t.subrange(a - 1, t.len() as int) =~= s.subrange(a, s.len() as int));
    }
}

/// Dropping an all-space suffix computes `trim_back`.
proof fn lemma_trim_back_skip(s: Seq<char>, b: int)
    requires
        0 <= b <= s.len(),
        forall|i: int| b <= i < s.len() ==> is_space(#[trigger] s[i]),
        b > 0 ==> !is_space(s[b - 1]),
    ensures
        trim_back(s) == s.subrange(0, b),
    decreases s.len() - b,
{
    if b == s.len() {
        assert(s.subrange(0, b) =~= s);
    } else {
        let t = s.drop_last();
        assert(forall|i: int| b <= i < t.len() ==> is_space(#[trigger] t[i]));
        lemma_trim_back_skip(t, b);
        assert(t.subrange(0, b) =~= s.subrange(0, b));
    }
}

/// Whether a character is whitespace that trimming removes.
fn is_space_char(c: char) -> (r: bool)
    ensures
        r == is_space(c),
{
    c == ' ' || c == '\t' || c == '\n' || c == '\r'
}

/// The value of a decimal digit character, if it is one.
fn digit_of_char(c: char) -> (r: Option<u8>)
    ensures
        match r {
            Some(d) => digit_int(c) == d as int,
            None => !is_digit(c),
        },
{
    match c {
        '0' => Some(0),
        '1' => Some(1),
        '2' => Some(2),
        '3' => Some(3),
        '4' => Some(4),
        '5' => Some(5),
        '6' => Some(6),
        '7' => Some(7),
        '8' => Some(8),
        '9' => Some(9),
        _ => None,
    }
}

/// Parses one input line as the Input command does: surrounding whitespace
/// is trimmed, and what remains must be a non-empty decimal number no larger
/// than 255; otherwise the line is rejected.
pub fn parse_input_line(line: &str) -> (r: Option<u8>)
    ensures
        r == parse_byte_spec(trim_spec(line@)),
{
    let ghost s = line@;
    let n: usize = line.unicode_len();
    let mut a: usize = 0;
    loop
        invariant
            s == line@,
            n == s.len(),
            a <= n,
            forall|i: int| 0 <= i < a ==> is_space(#[trigger] s[i]),
        ensures
            s == line@,
            n == s.len(),
            a <= n,
            forall|i: int| 0 <= i < a ==> is_space(#[trigger] s[i]),
            a < n ==> !is_space(s[a as int]),
        decreases n - a,
    {
        if a >= n {
            break;
        }
        let c = line.get_char(a);
        if !is_space_char(c) {
            break;
        }
        a += 1;
    }
    proof {
        lemma_trim_front_skip(s, a as int);
    }
    let ghost f = s.subrange(a as int, n as int);
    let mut b: usize = n;
    loop
        invariant
            s == line@,
            n == s.len(),
            a <= b <= n,
            f == s.subrange(a as int, n as int),
            trim_front(s) == f,
            forall|i: int| b <= i < n ==> is_space(#[trigger] s[i]),
        ensures
            s == line@,
            n == s.len(),
            a <= b <= n,
            forall|i: int| b <= i < n ==> is_space(#[trigger] s[i]),
            b > a ==> !is_space(s[b - 1]),
        decreases b,
    {
        if b <= a {
            break;
        }
        let c = line.get_char(b - 1);
        if !is_space_char(c) {
            break;
        }
        b -= 1;
    }
    proof {
        assert(forall|i: int| b - a <= i < f.len() ==> is_space(#[trigger] f[i]));
        lemma_trim_back_skip(f, b - a);
    }
    let ghost t = f.subrange(0, b - a);
    proof {
        assert(trim_spec(s) == t);
    }
    if a == b {
        return None;
    }
    let mut i: usize = a;
    let mut acc: u16 = 0;
    while i < b
        invariant
            s == line@,
            n == s.len(),
            a <= i <= b <= n,
            a < b,
            t == f.subrange(0, b - a),
            f == s.subrange(a as int, n as int),
            trim_spec(s) == t,
            all_digits(t.subrange(0, i - a)),
            acc <= 255,
            acc as int == digits_val(t.subrange(0, i - a)),
        decreases b - i,
    {
        let c = line.get_char(i);
        proof {
            assert(t[i - a] == c);
            assert(t.subrange(0, i - a + 1).drop_last() =~= t.subrange(0, i - a));
        }
        let d: u8;
        match digit_of_char(c) {
            Some(v) => {
                d = v;
            }
            None => {
                proof {
                    assert(!all_digits(t));
                }
                return None;
            }
        }
        let next: u16 = acc * 10 + (d as u16);
        proof {
            assert(next as int == digits_val(t.subrange(0, i - a + 1)));
        }
        if next > 255 {
            proof {
                if all_digits(t) && digits_val(t) <= 255 {
                    lemma_digits_val_mono(t, i - a + 1);
                }
            }
            return None;
        }
        acc = next;
        i += 1;
    }
    proof {
        assert(t.subrange(0, b - a) =~= t);
    }
    Some(acc as u8)
}

/// The character of one decimal digit.
pub open spec fn digit_char(d: int) -> char {
    if d == 0 {
        '0'
    } else if d == 1 {
        '1'
    } else if d == 2 {
        '2'
    } else if d == 3 {
        '3'
    } else if d == 4 {
        '4'
    } else if d == 5 {
        '5'
    } else if d == 6 {
        '6'
    } else if d == 7 {
        '7'
    } else if d == 8 {
        '8'
    } else {
        '9'
    }
}

/// The decimal text of a byte: one to three digits, with no leading zero
/// except for the value 0 itself.
pub open spec fn decimal_spec(b: u8) -> Seq<char> {
    if b < 10 {
        seq![digit_char(b as int)]
    } else if b < 100 {
        seq![digit_char(b as int / 10), digit_char(b as int % 10)]
    } else {
        seq![
            digit_char(b as int / 100),
            digit_char((b as int / 10) % 10),
            digit_char(b as int % 10),
        ]
    }
}

/// The character of one decimal digit.
fn digit_char_of(d: u8) -> (c: char)
    requires
        d < 10,
    ensures
        c == digit_char(d as int),
{
    match d {
        0 => '0',
        1 => '1',
        2 => '2',
        3 => '3',
        4 => '4',
        5 => '5',
        6 => '6',
        7 => '7',
        8 => '8',
        _ => '9',
    }
}

/// Renders a byte as its decimal text, as the Output command does in
/// numeric mode.
pub fn decimal_chars(b: u8) -> (r: Vec<char>)
    ensures
        r@ == decimal_spec(b),
{
    let mut out: Vec<char> = Vec::new();
    if b >= 100 {
        out.push(digit_char_of(b / 100));
    }
    if b >= 10 {
        out.push(digit_char_of((b / 10) % 10));
    }
    out.push(digit_char_of(b % 10));
    proof {
        assert(out@ =~= decimal_spec(b));
    }
    out
}

} // verus!
