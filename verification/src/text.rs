//! Text: decimal numbers, padding and byte lengths.
use vstd::prelude::*;
use vstd::utf8::*;

verus! {

/// The character of a decimal digit.
pub open spec fn digit(d: nat) -> char
    recommends
        d < 10,
{
    (48 + d) as char
}

/// The decimal digits of `n`, most significant first.
pub open spec fn digits(n: nat) -> Seq<char>
    decreases n,
{
    if n < 10 {
        seq![digit(n)]
    } else {
        digits(n / 10).push(digit(n % 10))
    }
}

/// `n` in decimal, with a minus sign where it is negative.
pub open spec fn decimal(n: int) -> Seq<char> {
    if n < 0 {
        seq!['-'] + digits((-n) as nat)
    } else {
        digits(n as nat)
    }
}

/// `n` spaces.
pub open spec fn spaces(n: nat) -> Seq<char> {
    Seq::new(n, |i: int| ' ')
}

/// `s` preceded by as many spaces as bring it to `width` characters.
pub open spec fn pad_left(s: Seq<char>, width: nat) -> Seq<char> {
    if s.len() < width {
        spaces((width - s.len()) as nat) + s
    } else {
        s
    }
}

/// The number of bytes of `s` in UTF-8.
pub open spec fn byte_len(s: Seq<char>) -> nat {
    encode_utf8(s).len()
}

fn digit_text(d: u64) -> (r: &'static str)
    requires
        d < 10,
    ensures
        r@ == seq![digit(d as nat)],
{
    proof {
        reveal_strlit("0");
        reveal_strlit("1");
        reveal_strlit("2");
        reveal_strlit("3");
        reveal_strlit("4");
        reveal_strlit("5");
        reveal_strlit("6");
        reveal_strlit("7");
        reveal_strlit("8");
        reveal_strlit("9");
    }
    match d {
        0 => "0",
        1 => "1",
        2 => "2",
        3 => "3",
        4 => "4",
        5 => "5",
        6 => "6",
        7 => "7",
        8 => "8",
        _ => "9",
    }
}

fn digits_text(n: u64) -> (r: String)
    ensures
        r@ == digits(n as nat),
    decreases n,
{
    if n < 10 {
        digit_text(n).to_string()
    } else {
        let mut r = digits_text(n / 10);
        r.append(digit_text(n % 10));
        assert(r@ =~= digits(n as nat));
        r
    }
}

/// A position or count in decimal.
pub fn count_text(n: usize) -> (r: String)
    ensures
        r@ == decimal(n as int),
{
    digits_text(n as u64)
}

/// An exit code in decimal.
pub fn code_text(n: i32) -> (r: String)
    ensures
        r@ == decimal(n as int),
{
    if n < 0 {
        let mut r = "-".to_string();
        let magnitude: u64 = (-(n as i64)) as u64;
        let rest = digits_text(magnitude);
        r.append(rest.as_str());
        proof {
            reveal_strlit("-");
        }
        assert(r@ =~= decimal(n as int));
        r
    } else {
        digits_text(n as u64)
    }
}

/// `s`, right-aligned in a column of `width` characters; a longer `s` stays as it is.
pub fn padded(s: &str, width: usize) -> (r: String)
    ensures
        r@ == pad_left(s@, width as nat),
{
    let have: usize = s.unicode_len();
    let mut r = String::new();
    let mut at: usize = have;
    while at < width
        invariant
            have == s@.len(),
            have <= at,
            at <= width || at == have,
            r@ == spaces((at - have) as nat),
        decreases width - at,
    {
        r.append(" ");
        proof {
            reveal_strlit(" ");
        }
        at = at + 1;
        assert(r@ =~= spaces((at - have) as nat));
    }
    r.append(s);
    assert(r@ =~= pad_left(s@, width as nat));
    r
}

/// The number of bytes that `s` takes.
pub fn byte_count(s: &str) -> (r: usize)
    ensures
        r == byte_len(s@),
{
    s.as_bytes().len()
}

/// `a` followed by `b`.
pub fn joined(a: &str, b: &str) -> (r: String)
    ensures
        r@ == a@ + b@,
{
    let mut r = a.to_string();
    r.append(b);
    r
}

} // verus!
