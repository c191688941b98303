//! Decimal numbers and file paths as text.
use vstd::prelude::*;

verus! {

/// The character that writes the digit `d`.
pub open spec fn digit_char(d: nat) -> char {
    if d == 0 {
        '0'
    } else if d == 1 {
        '1'
    } else if d == 2 {
        '2'
    } else if d == 3 {
        '3'
    } else if d == 4 {
        '4'
    } else if d == 5 {
        '5'
    } else if d == 6 {
        '6'
    } else if d == 7 {
        '7'
    } else if d == 8 {
        '8'
    } else {
        '9'
    }
}

/// `n` in base ten, without leading zeros.
pub open spec fn decimal(n: nat) -> Seq<char>
    decreases n,
{
    if n < 10 {
        seq![digit_char(n)]
    } else {
        decimal(n / 10).push(digit_char(n % 10))
    }
}

/// The text of one digit.
fn digit_str(d: u64) -> (s: &'static str)
    requires
        d < 10,
    ensures
        s@ == seq![digit_char(d as nat)],
{
    proof {
        reveal_strlit("0");
        reveal_strlit("1");
        reveal_strlit("2");
        reveal_strlit("3");
        reveal_strlit("4");
        reveal_strlit("5");
        reveal_strlit("6");
        reveal_strlit("7");
        reveal_strlit("8");
        reveal_strlit("9");
    }
    match d {
        0 => "0",
        1 => "1",
        2 => "2",
        3 => "3",
        4 => "4",
        5 => "5",
        6 => "6",
        7 => "7",
        8 => "8",
        _ => "9",
    }
}

/// Writes `n` in base ten.
pub fn decimal_string(n: u64) -> (s: String)
    ensures
        s@ == decimal(n as nat),
    decreases n,
{
    if n < 10 {
        String::from_str(digit_str(n))
    } else {
        let mut s = decimal_string(n / 10);
        s.append(digit_str(n % 10));
        s
    }
}

/// `base` extended by the relative path `part`, with one separator between
/// them unless `base` is empty or already ends in one.
pub open spec fn joined(base: Seq<char>, part: Seq<char>) -> Seq<char> {
    if base.len() == 0 || base.last() == '/' {
        base + part
    } else {
        base + "/"@ + part
    }
}

/// Extends a path by a relative one.
pub fn join_path(base: &str, part: &str) -> (path: String)
    ensures
        path@ == joined(base@, part@),
{
    let mut path = String::from_str(base);
    let len: usize = base.unicode_len();
    if len > 0 && base.get_char(len - 1) != '/' {
        path.append("/");
    }
    path.append(part);
    path
}

/// Numbers that are written alike are equal.
pub proof fn decimal_is_injective(a: nat, b: nat)
    requires
        decimal(a) == decimal(b),
    ensures
        a == b,
    decreases a,
{
    let (da, db) = (decimal(a), decimal(b));
    assert(da.len() >= 1 && db.len() >= 1) by {
        decimal_is_not_empty(a);
        decimal_is_not_empty(b);
    }
    assert(da.last() == digit_char(a % 10));
    assert(db.last() == digit_char(b % 10));
    assert(a % 10 == b % 10);
    if a >= 10 && b >= 10 {
        assert(da.drop_last() == decimal(a / 10));
        assert(db.drop_last() == decimal(b / 10));
        decimal_is_injective(a / 10, b / 10);
    } else if a >= 10 {
        decimal_is_not_empty(a / 10);
    } else if b >= 10 {
        decimal_is_not_empty(b / 10);
    }
}

/// Every number has at least one digit.
proof fn decimal_is_not_empty(n: nat)
    ensures
        decimal(n).len() >= 1,
{
}

/// The number that a row of digits stands for.
pub open spec fn digits_value(digits: Seq<char>) -> int
    decreases digits.len(),
{
    if digits.len() == 0 {
        0
    } else {
        10 * digits_value(digits.drop_last()) + (digits.last() as int - '0' as int)
    }
}

/// A written number reads back as itself. It is made of digits, and of no more
/// than it takes.
pub proof fn written_numbers_read_back(n: nat)
    ensures
        digits_value(decimal(n)) == n,
        forall|k: int| 0 <= k < decimal(n).len() ==> '0' <= #[trigger] decimal(n)[k] <= '9',
        decimal(n).len() >= 1,
        n > 0 ==> decimal(n)[0] != '0',
    decreases n,
{
    if n < 10 {
        assert(decimal(n).drop_last() =~= Seq::<char>::empty());
        assert(digits_value(Seq::<char>::empty()) == 0);
    } else {
        written_numbers_read_back(n / 10);
        assert(decimal(n).drop_last() =~= decimal(n / 10));
    }
}

/// A joined path begins with the one path and ends with the other. At most one
/// separator is put between them: one where there was none, and none before a
/// path that begins nothing.
pub proof fn joined_paths_hold_both(base: Seq<char>, part: Seq<char>)
    ensures
        joined(base, part).len() >= base.len() + part.len(),
        joined(base, part).take(base.len() as int) == base,
        joined(base, part).skip(joined(base, part).len() - part.len()) == part,
        base.len() > 0 && base.last() != '/' ==> joined(base, part).len() == base.len() + 1
            + part.len() && joined(base, part)[base.len() as int] == '/',
        base.len() == 0 || base.last() == '/' ==> joined(base, part).len() == base.len()
            + part.len(),
{
    reveal_strlit("/");
    assert(joined(base, part).take(base.len() as int) =~= base);
    assert(joined(base, part).skip(joined(base, part).len() - part.len()) =~= part);
}

} // verus!
