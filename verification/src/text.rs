//! Numbers as text.

use vstd::prelude::*;
use vstd::string::StringExecFns;

verus! {

/// The character of a digit below sixteen.
pub open spec fn digit(d: int) -> char {
    if d < 10 {
        (48 + d) as char
    } else {
        (87 + d) as char
    }
}

/// A natural number in the decimal system.
pub open spec fn natural(n: nat) -> Seq<char>
    decreases n,
{
    if n < 10 {
        seq![digit(n as int)]
    } else {
        natural(n / 10).push(digit((n % 10) as int))
    }
}

/// A number in the decimal system.
pub open spec fn decimal(n: int) -> Seq<char> {
    if n < 0 {
        seq!['-'] + natural((-n) as nat)
    } else {
        natural(n as nat)
    }
}

/// Bytes in the hexadecimal system, two digits each.
pub open spec fn hex(bytes: Seq<u8>) -> Seq<char>
    decreases bytes.len(),
{
    if bytes.len() == 0 {
        Seq::empty()
    } else {
        hex(bytes.drop_last()).push(digit((bytes.last() / 16) as int)).push(
            digit((bytes.last() % 16) as int),
        )
    }
}

/// Appends a digit.
fn append_digit(s: &mut String, d: u8)
    requires
        d < 16,
    ensures
        final(s)@ == old(s)@.push(digit(d as int)),
{
    proof {
        reveal_strlit("0");
        reveal_strlit("1");
        reveal_strlit("2");
        reveal_strlit("3");
        reveal_strlit("4");
        reveal_strlit("5");
        reveal_strlit("6");
        reveal_strlit("7");
        reveal_strlit("8");
        reveal_strlit("9");
        reveal_strlit("a");
        reveal_strlit("b");
        reveal_strlit("c");
        reveal_strlit("d");
        reveal_strlit("e");
        reveal_strlit("f");
    }
    let c: &str = match d {
        0 => "0",
        1 => "1",
        2 => "2",
        3 => "3",
        4 => "4",
        5 => "5",
        6 => "6",
        7 => "7",
        8 => "8",
        9 => "9",
        10 => "a",
        11 => "b",
        12 => "c",
        13 => "d",
        14 => "e",
        _ => "f",
    };
    assert(c@ =~= seq![digit(d as int)]);
    s.append(c);
    assert(s@ =~= old(s)@.push(digit(d as int)));
}

/// Appends a number in the decimal system.
pub fn append_u64(s: &mut String, n: u64)
    ensures
        final(s)@ == old(s)@ + decimal(n as int),
    decreases n,
{
    if n >= 10 {
        append_u64(s, n / 10);
    }
    append_digit(s, (n % 10) as u8);
    assert(s@ =~= old(s)@ + decimal(n as int));
}

/// Appends a number in the decimal system.
pub fn append_i32(s: &mut String, n: i32)
    ensures
        final(s)@ == old(s)@ + decimal(n as int),
{
    if n < 0 {
        proof {
            reveal_strlit("-");
        }
        s.append("-");
        append_u64(s, (-(n as i64)) as u64);
        assert(s@ =~= old(s)@ + decimal(n as int));
    } else {
        append_u64(s, n as u64);
    }
}

/// Writes bytes in the hexadecimal system.
pub fn hex_dump(buf: &Vec<u8>) -> (r: String)
    ensures
        r@ == hex(buf@),
{
    let mut s: String = String::new();
    let mut i: usize = 0;
    assert(buf@.take(0) =~= Seq::<u8>::empty());
    assert(s@ =~= hex(buf@.take(0)));
    while i < buf.len()
        invariant
            i <= buf@.len(),
            s@ == hex(buf@.take(i as int)),
        decreases buf@.len() - i,
    {
        assert(buf@.take(i + 1).drop_last() =~= buf@.take(i as int));
        append_digit(&mut s, buf[i] / 16);
        append_digit(&mut s, buf[i] % 16);
        i += 1;
    }
    assert(buf@.take(i as int) =~= buf@);
    s
}

/// A dump has two digits for each byte.
pub proof fn hex_has_two_digits_a_byte(bytes: Seq<u8>)
    ensures
        hex(bytes).len() == 2 * bytes.len(),
    decreases bytes.len(),
{
    if bytes.len() > 0 {
        hex_has_two_digits_a_byte(bytes.drop_last());
    }
}

/// The number that some decimal digits stand for.
pub open spec fn value_of(digits: Seq<char>) -> nat
    decreases digits.len(),
{
    if digits.len() == 0 {
        0
    } else {
        10 * value_of(digits.drop_last()) + (digits.last() as nat - '0' as nat) as nat
    }
}

/// A number is read back from its decimal digits. All of them are digits, and none but that
/// of zero starts with a zero.
pub proof fn decimal_digits_are_read_back(n: nat)
    ensures
        value_of(natural(n)) == n,
        natural(n).len() > 0,
        forall|i: int| 0 <= i < natural(n).len() ==> '0' <= #[trigger] natural(n)[i] <= '9',
        natural(n).len() > 1 ==> natural(n)[0] != '0',
        decimal(n as int) == natural(n),
        n > 0 ==> decimal(-n) == seq!['-'] + natural(n),
    decreases n,
{
    reveal_with_fuel(value_of, 2);
    if n >= 10 {
        decimal_digits_are_read_back(n / 10);
        let d = natural(n / 10);
        assert(natural(n).drop_last() =~= d);
        assert forall|i: int| 0 <= i < natural(n).len() implies '0' <= #[trigger] natural(n)[i]
            <= '9' by {
            if i < d.len() {
                assert(natural(n)[i] == d[i]);
            }
        }
        assert(natural(n)[0] == d[0]);
        if d.len() == 1 {
            assert(value_of(d) == 10 * value_of(d.drop_last()) + (d.last() as nat - '0' as nat)
                as nat);
            assert(d.drop_last().len() == 0);
        }
    }
}

/// The number that a hexadecimal digit stands for.
pub open spec fn hex_value(c: char) -> int {
    if '0' <= c <= '9' {
        c as int - '0' as int
    } else {
        10 + (c as int - 'a' as int)
    }
}

/// A byte is read back from its two hexadecimal digits, the high one first.
pub proof fn bytes_are_read_back_from_hex(bytes: Seq<u8>, i: int)
    requires
        0 <= i < bytes.len(),
    ensures
        hex(bytes).len() == 2 * bytes.len(),
        16 * hex_value(hex(bytes)[2 * i]) + hex_value(hex(bytes)[2 * i + 1]) == bytes[i],
        0 <= hex_value(hex(bytes)[2 * i]) < 16,
        0 <= hex_value(hex(bytes)[2 * i + 1]) < 16,
    decreases bytes.len(),
{
    hex_has_two_digits_a_byte(bytes);
    hex_has_two_digits_a_byte(bytes.drop_last());
    if i < bytes.len() - 1 {
        bytes_are_read_back_from_hex(bytes.drop_last(), i);
    } else {
        let b = bytes.last();
        assert(16 * (b / 16) + b % 16 == b);
    }
}

} // verus!
