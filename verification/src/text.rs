//! Text building blocks shared by the renderer and the leaf impls:
//! indentation, decimal formatting of integers, and string quoting.

use vstd::prelude::*;

verus! {

/// `n` spaces.
pub open spec fn spaces(n: nat) -> Seq<char>
    decreases n,
{
    if n == 0 {
        Seq::empty()
    } else {
        spaces((n - 1) as nat).push(' ')
    }
}

/// A run of `n` spaces is `n` characters long.
pub broadcast proof fn lemma_spaces_len(n: nat)
    ensures
        (#[trigger] spaces(n)).len() == n,
    decreases n,
{
    if n > 0 {
        lemma_spaces_len((n - 1) as nat);
    }
}

/// Runs of spaces concatenate.
pub proof fn lemma_spaces_add(a: nat, b: nat)
    ensures
        spaces(a + b) == spaces(a) + spaces(b),
    decreases b,
{
    if b == 0 {
        assert(spaces(a + 0) =~= spaces(a) + spaces(0));
    } else {
        lemma_spaces_add(a, (b - 1) as nat);
        assert(spaces(a + b) =~= spaces(a) + spaces(b));
    }
}

/// Appends one indentation step (four spaces) to a pad of spaces.
pub fn indent_one(pad: &String) -> (r: String)
    requires
        exists|n: nat| pad@ == spaces(n),
    ensures
        r@ == pad@ + spaces(4),
{
    proof {
        reveal_strlit("    ");
        assert("    "@ =~= spaces(4)) by {
            reveal_with_fuel(spaces, 5);
        }
    }
    let mut r = pad.clone();
    r.append("    ");
    r
}

/// The decimal digit `d` as a character; meaningful for `d < 10`.
pub open spec fn dec_digit(d: nat) -> char {
    if d == 0 {
        '0'
    } else if d == 1 {
        '1'
    } else if d == 2 {
        '2'
    } else if d == 3 {
        '3'
    } else if d == 4 {
        '4'
    } else if d == 5 {
        '5'
    } else if d == 6 {
        '6'
    } else if d == 7 {
        '7'
    } else if d == 8 {
        '8'
    } else {
        '9'
    }
}

/// The canonical decimal form of a natural number: no sign, no leading
/// zeros (a single `0` for zero).
pub open spec fn dec_nat(n: nat) -> Seq<char>
    decreases n,
{
    if n < 10 {
        seq![dec_digit(n)]
    } else {
        dec_nat(n / 10).push(dec_digit(n % 10))
    }
}

/// The canonical decimal form of an integer: a `-` sign for negatives.
pub open spec fn dec_int(i: int) -> Seq<char> {
    if i < 0 {
        seq!['-'] + dec_nat((-i) as nat)
    } else {
        dec_nat(i as nat)
    }
}

fn digit_str(d: u64) -> (r: &'static str)
    requires
        d < 10,
    ensures
        r@ == seq![dec_digit(d as nat)],
{
    proof {
        reveal_strlit("0");
        reveal_strlit("1");
        reveal_strlit("2");
        reveal_strlit("3");
        reveal_strlit("4");
        reveal_strlit("5");
        reveal_strlit("6");
        reveal_strlit("7");
        reveal_strlit("8");
        reveal_strlit("9");
    }
    let r = match d {
        0 => "0",
        1 => "1",
        2 => "2",
        3 => "3",
        4 => "4",
        5 => "5",
        6 => "6",
        7 => "7",
        8 => "8",
        _ => "9",
    };
    proof {
        assert(r@ =~= seq![dec_digit(d as nat)]);
    }
    r
}

/// Renders `n` in decimal.
pub fn fmt_u64(n: u64) -> (s: String)
    ensures
        s@ == dec_nat(n as nat),
    decreases n,
{
    if n < 10 {
        digit_str(n).to_owned()
    } else {
        let mut s = fmt_u64(n / 10);
        s.append(digit_str(n % 10));
        proof {
            assert(s@ =~= dec_nat(n as nat));
        }
        s
    }
}

/// Renders `i` in decimal, with a sign for negatives.
pub fn fmt_i64(i: i64) -> (s: String)
    ensures
        s@ == dec_int(i as int),
{
    if i >= 0 {
        fmt_u64(i as u64)
    } else {
        let mag: u64 = (-(i as i128)) as u64;
        proof {
            reveal_strlit("-");
            assert(mag as nat == (-(i as int)) as nat);
        }
        let mut s = "-".to_owned();
        s.append(fmt_u64(mag).as_str());
        proof {
            assert("-"@ =~= seq!['-']) by {
                reveal_strlit("-");
            }
            assert(s@ =~= dec_int(i as int));
        }
        s
    }
}

/// How one character appears inside a quoted string literal: quotes,
/// backslashes and the common control characters are escaped, every other
/// character stands for itself.
pub open spec fn esc_char(c: char) -> Seq<char> {
    if c == '"' {
        seq!['\\', '"']
    } else if c == '\\' {
        seq!['\\', '\\']
    } else if c == '\n' {
        seq!['\\', 'n']
    } else if c == '\r' {
        seq!['\\', 'r']
    } else if c == '\t' {
        seq!['\\', 't']
    } else {
        seq![c]
    }
}

/// The body of a quoted string literal, character by character.
pub open spec fn esc_seq(s: Seq<char>) -> Seq<char>
    decreases s.len(),
{
    if s.len() == 0 {
        Seq::empty()
    } else {
        esc_seq(s.drop_last()) + esc_char(s.last())
    }
}

/// A string as it appears as a literal token: quoted and escaped.
pub open spec fn quoted(s: Seq<char>) -> Seq<char> {
    seq!['"'] + esc_seq(s) + seq!['"']
}

/// Relies on `String::push`: appends exactly the given character.
#[verifier::external_body]
pub(crate) fn push_char(s: &mut String, c: char)
    ensures
        final(s)@ == old(s)@ + seq![c],
{
    s.push(c);
}

/// Renders `s` as a quoted, escaped string literal token.
pub fn quote_str(s: &str) -> (r: String)
    ensures
        r@ == quoted(s@),
{
    let mut out = String::new();
    push_char(&mut out, '"');
    proof {
        assert(out@ =~= seq!['"'] + esc_seq(s@.take(0)));
    }
    let len = s.unicode_len();
    let mut i: usize = 0;
    while i < len
        invariant
            i <= len,
            len == s@.len(),
            out@ == seq!['"'] + esc_seq(s@.take(i as int)),
        decreases len - i,
    {
        let c = s.get_char(i);
        if c == '"' || c == '\\' {
            push_char(&mut out, '\\');
            push_char(&mut out, c);
        } else if c == '\n' {
            push_char(&mut out, '\\');
            push_char(&mut out, 'n');
        } else if c == '\r' {
            push_char(&mut out, '\\');
            push_char(&mut out, 'r');
        } else if c == '\t' {
            push_char(&mut out, '\\');
            push_char(&mut out, 't');
        } else {
            push_char(&mut out, c);
        }
        proof {
            assert(s@.take(i + 1).drop_last() =~= s@.take(i as int));
            assert(s@.take(i + 1).last() == s@[i as int]);
            assert(out@ =~= seq!['"'] + esc_seq(s@.take(i + 1)));
        }
        i = i + 1;
    }
    push_char(&mut out, '"');
    proof {
        assert(s@.take(len as int) =~= s@);
        assert(out@ =~= quoted(s@));
    }
    out
}

} // verus!
