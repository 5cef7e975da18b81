//! Text: numbers in decimal and hexadecimal.

use vstd::prelude::*;

verus! {

/// The digit of value `d`, letters in upper case.
pub open spec fn digit(d: int) -> char {
    if d < 10 {
        (48 + d) as char
    } else {
        (55 + d) as char
    }
}

/// The digit of value `d`, letters in lower case.
pub open spec fn small_digit(d: int) -> char {
    if d < 10 {
        (48 + d) as char
    } else {
        (87 + d) as char
    }
}

/// `n` in decimal.
pub open spec fn dec(n: nat) -> Seq<char>
    decreases n,
{
    if n < 10 {
        seq![digit(n as int)]
    } else {
        dec(n / 10).push(digit((n % 10) as int))
    }
}

/// `n` in hexadecimal, letters in upper case.
pub open spec fn hex(n: nat) -> Seq<char>
    decreases n,
{
    if n < 16 {
        seq![digit(n as int)]
    } else {
        hex(n / 16).push(digit((n % 16) as int))
    }
}

/// The last `k` hexadecimal digits of `n`, letters in upper case.
pub open spec fn hex_digits(n: nat, k: nat) -> Seq<char>
    decreases k,
{
    if k == 0 {
        Seq::empty()
    } else {
        hex_digits(n / 16, (k - 1) as nat).push(digit((n % 16) as int))
    }
}

/// Append the digit of value `d`.
pub fn push_digit(s: &mut String, d: u8)
    requires
        d < 16,
    ensures
        final(s)@ == old(s)@.push(digit(d as int)),
{
    proof {
        reveal_strlit("0");
        reveal_strlit("1");
        reveal_strlit("2");
        reveal_strlit("3");
        reveal_strlit("4");
        reveal_strlit("5");
        reveal_strlit("6");
        reveal_strlit("7");
        reveal_strlit("8");
        reveal_strlit("9");
        reveal_strlit("A");
        reveal_strlit("B");
        reveal_strlit("C");
        reveal_strlit("D");
        reveal_strlit("E");
        reveal_strlit("F");
    }
    let t: &str = match d {
        0 => "0",
        1 => "1",
        2 => "2",
        3 => "3",
        4 => "4",
        5 => "5",
        6 => "6",
        7 => "7",
        8 => "8",
        9 => "9",
        10 => "A",
        11 => "B",
        12 => "C",
        13 => "D",
        14 => "E",
        _ => "F",
    };
    assert(t@ =~= seq![digit(d as int)]);
    s.append(t);
    assert(s@ =~= old(s)@.push(digit(d as int)));
}

/// Append the digit of value `d`, letters in lower case.
pub fn push_small_digit(s: &mut String, d: u8)
    requires
        d < 16,
    ensures
        final(s)@ == old(s)@.push(small_digit(d as int)),
{
    proof {
        reveal_strlit("a");
        reveal_strlit("b");
        reveal_strlit("c");
        reveal_strlit("d");
        reveal_strlit("e");
        reveal_strlit("f");
    }
    if d < 10 {
        push_digit(s, d);
        return;
    }
    let t: &str = match d {
        10 => "a",
        11 => "b",
        12 => "c",
        13 => "d",
        14 => "e",
        _ => "f",
    };
    assert(t@ =~= seq![small_digit(d as int)]);
    s.append(t);
    assert(s@ =~= old(s)@.push(small_digit(d as int)));
}

/// Append `n` in decimal.
pub fn push_dec(s: &mut String, n: u64)
    ensures
        final(s)@ == old(s)@ + dec(n as nat),
    decreases n,
{
    if n >= 10 {
        push_dec(s, n / 10);
    }
    push_digit(s, (n % 10) as u8);
    assert(s@ =~= old(s)@ + dec(n as nat));
}

/// Append `n` in hexadecimal, letters in upper case.
pub fn push_hex(s: &mut String, n: u64)
    ensures
        final(s)@ == old(s)@ + hex(n as nat),
    decreases n,
{
    if n >= 16 {
        push_hex(s, n / 16);
    }
    push_digit(s, (n % 16) as u8);
    assert(s@ =~= old(s)@ + hex(n as nat));
}

/// Append the last `k` hexadecimal digits of `n`, letters in upper case.
pub fn push_hex_digits(s: &mut String, n: u64, k: u32)
    ensures
        final(s)@ == old(s)@ + hex_digits(n as nat, k as nat),
    decreases k,
{
    if k > 0 {
        push_hex_digits(s, n / 16, k - 1);
        push_digit(s, (n % 16) as u8);
    }
    assert(s@ =~= old(s)@ + hex_digits(n as nat, k as nat));
}

/// `n` in hexadecimal, letters in lower case.
pub open spec fn small_hex(n: nat) -> Seq<char>
    decreases n,
{
    if n < 16 {
        seq![small_digit(n as int)]
    } else {
        small_hex(n / 16).push(small_digit((n % 16) as int))
    }
}

/// The last `k` hexadecimal digits of `n`, letters in lower case.
pub open spec fn small_hex_digits(n: nat, k: nat) -> Seq<char>
    decreases k,
{
    if k == 0 {
        Seq::empty()
    } else {
        small_hex_digits(n / 16, (k - 1) as nat).push(small_digit((n % 16) as int))
    }
}

/// Append `n` in hexadecimal, letters in lower case.
pub fn push_small_hex(s: &mut String, n: u64)
    ensures
        final(s)@ == old(s)@ + small_hex(n as nat),
    decreases n,
{
    if n >= 16 {
        push_small_hex(s, n / 16);
    }
    push_small_digit(s, (n % 16) as u8);
    assert(s@ =~= old(s)@ + small_hex(n as nat));
}

/// Append the last `k` hexadecimal digits of `n`, letters in lower case.
pub fn push_small_hex_digits(s: &mut String, n: u64, k: u32)
    ensures
        final(s)@ == old(s)@ + small_hex_digits(n as nat, k as nat),
    decreases k,
{
    if k > 0 {
        push_small_hex_digits(s, n / 16, k - 1);
        push_small_digit(s, (n % 16) as u8);
    }
    assert(s@ =~= old(s)@ + small_hex_digits(n as nat, k as nat));
}

/// `t` with zeros in front, so that it has at least `k` characters.
pub open spec fn padded(t: Seq<char>, k: nat) -> Seq<char>
    decreases k - t.len(),
{
    if t.len() >= k {
        t
    } else {
        padded(seq!['0'] + t, k)
    }
}

/// Append `t` with zeros in front, so that it has at least `k` characters.
pub fn push_padded(s: &mut String, t: &str, k: usize)
    ensures
        final(s)@ == old(s)@ + padded(t@, k as nat),
{
    let mut n: usize = t.unicode_len();
    let mut u: String = t.to_owned();
    while n < k
        invariant
            n == u@.len(),
            padded(u@, k as nat) == padded(t@, k as nat),
        decreases k - n,
    {
        let mut v: String = "0".to_owned();
        proof {
            reveal_strlit("0");
        }
        v.append(u.as_str());
        assert(v@ =~= seq!['0'] + u@);
        u = v;
        n = n + 1;
    }
    s.append(u.as_str());
}

/// What a list of strings says.
pub open spec fn texts(v: Seq<String>) -> Seq<Seq<char>> {
    Seq::new(v.len(), |i: int| v[i]@)
}

/// Append a string to a list.
pub fn push_text(v: &mut Vec<String>, t: String)
    ensures
        texts(final(v)@) == texts(old(v)@).push(t@),
{
    v.push(t);
    assert(texts(v@) =~= texts(old(v)@).push(t@));
}

/// Append a literal to a list.
pub fn push_str(v: &mut Vec<String>, t: &str)
    ensures
        texts(final(v)@) == texts(old(v)@).push(t@),
{
    push_text(v, t.to_owned());
}

/// `a`, `n` in hexadecimal, `b`.
pub fn with_hex(a: &str, n: u64, b: &str) -> (r: String)
    ensures
        r@ == a@ + hex(n as nat) + b@,
{
    let mut s: String = a.to_owned();
    push_hex(&mut s, n);
    s.append(b);
    s
}

/// `a`, `n` in decimal, `b`.
pub fn with_dec(a: &str, n: u64, b: &str) -> (r: String)
    ensures
        r@ == a@ + dec(n as nat) + b@,
{
    let mut s: String = a.to_owned();
    push_dec(&mut s, n);
    s.append(b);
    s
}

} // verus!
