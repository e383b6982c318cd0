//! Identifiers and fresh-name generation.
//!
//! Fresh names are formed from a monotone counter: `@v<n>` for variables
//! introduced by normalization, `$r_<name><n>` and `$b_<name><n>` for the
//! indirect-call variables and lifted function labels introduced by closure
//! conversion. The decimal rendering of the counter is verified against the
//! spec-level `dec_rep`.

use vstd::prelude::*;
use vstd::string::StringExecFns;

verus! {

/// Textual identifier, unique within one pipeline run.
pub type Id = String;

/// Relies on String::push of std: appends exactly the one character.
pub assume_specification [ String::push ](s: &mut String, c: char)
    ensures
        final(s)@ == old(s)@.push(c),
;

/// The decimal digit character for `n < 10`.
pub open spec fn dec_digit(n: nat) -> char {
    if n == 0 {
        '0'
    } else if n == 1 {
        '1'
    } else if n == 2 {
        '2'
    } else if n == 3 {
        '3'
    } else if n == 4 {
        '4'
    } else if n == 5 {
        '5'
    } else if n == 6 {
        '6'
    } else if n == 7 {
        '7'
    } else if n == 8 {
        '8'
    } else {
        '9'
    }
}

/// Decimal rendering of `n`, most significant digit first.
pub open spec fn dec_rep(n: nat) -> Seq<char>
    decreases n,
{
    if n < 10 {
        seq![dec_digit(n)]
    } else {
        dec_rep(n / 10).push(dec_digit(n % 10))
    }
}

/// Name of the `n`-th variable introduced by normalization: `@v<n>`.
pub open spec fn norm_name(n: nat) -> Seq<char> {
    seq!['@', 'v'] + dec_rep(n)
}

/// Name formed by closure conversion: `$<prefix>_<base><n>`.
pub open spec fn fun_name(prefix: char, base: Seq<char>, n: nat) -> Seq<char> {
    seq!['$', prefix, '_'] + base + dec_rep(n)
}

fn digit_str(d: u64) -> (s: &'static str)
    requires
        d < 10,
    ensures
        s@ == seq![dec_digit(d as nat)],
{
    proof {
        reveal_strlit("0");
        reveal_strlit("1");
        reveal_strlit("2");
        reveal_strlit("3");
        reveal_strlit("4");
        reveal_strlit("5");
        reveal_strlit("6");
        reveal_strlit("7");
        reveal_strlit("8");
        reveal_strlit("9");
    }
    if d == 0 {
        "0"
    } else if d == 1 {
        "1"
    } else if d == 2 {
        "2"
    } else if d == 3 {
        "3"
    } else if d == 4 {
        "4"
    } else if d == 5 {
        "5"
    } else if d == 6 {
        "6"
    } else if d == 7 {
        "7"
    } else if d == 8 {
        "8"
    } else {
        "9"
    }
}

/// Decimal rendering of `n` as a string.
pub fn u64_dec(n: u64) -> (s: String)
    ensures
        s@ == dec_rep(n as nat),
    decreases n,
{
    if n < 10 {
        digit_str(n).to_owned()
    } else {
        let mut s = u64_dec(n / 10);
        s.append(digit_str(n % 10));
        assert(s@ == dec_rep(n as nat));
        s
    }
}

/// The `n`-th fresh variable of normalization, `@v<n>`.
pub fn make_norm_name(n: u64) -> (s: String)
    ensures
        s@ == norm_name(n as nat),
{
    proof {
        reveal_strlit("@v");
    }
    let mut s = "@v".to_owned();
    let digits = u64_dec(n);
    s.append(digits.as_str());
    assert(s@ == norm_name(n as nat));
    s
}

fn prefix_str(prefix: char) -> (s: &'static str)
    requires
        prefix == 'r' || prefix == 'b',
    ensures
        prefix == 'r' ==> s@ == seq!['$', 'r', '_'],
        prefix == 'b' ==> s@ == seq!['$', 'b', '_'],
{
    proof {
        reveal_strlit("$r_");
        reveal_strlit("$b_");
    }
    if prefix == 'r' {
        "$r_"
    } else {
        "$b_"
    }
}

/// A fresh name of closure conversion: `$<prefix>_<base><n>`.
pub fn make_fun_name(prefix: char, base: &str, n: u64) -> (s: String)
    requires
        prefix == 'r' || prefix == 'b',
    ensures
        s@ == fun_name(prefix, base@, n as nat),
{
    let mut s = prefix_str(prefix).to_owned();
    s.append(base);
    let digits = u64_dec(n);
    s.append(digits.as_str());
    assert(s@ == fun_name(prefix, base@, n as nat));
    s
}

/// Decimal rendering of a signed value: a minus sign, then the digits.
pub open spec fn int_rep(n: int) -> Seq<char> {
    if n < 0 {
        seq!['-'] + dec_rep((-n) as nat)
    } else {
        dec_rep(n as nat)
    }
}

/// Decimal rendering of `n` as a string, sign included.
pub fn i64_dec(n: i64) -> (s: String)
    ensures
        s@ == int_rep(n as int),
{
    proof {
        reveal_strlit("-");
    }
    if n < 0 {
        let mut s = "-".to_owned();
        let mag: u64 = if n == i64::MIN {
            0x8000_0000_0000_0000u64
        } else {
            (-n) as u64
        };
        let digits = u64_dec(mag);
        s.append(digits.as_str());
        assert(s@ == int_rep(n as int));
        s
    } else {
        u64_dec(n as u64)
    }
}

/// Decimal rendering of `n` as a string, sign included.
pub fn i32_dec(n: i32) -> (s: String)
    ensures
        s@ == int_rep(n as int),
{
    i64_dec(n as i64)
}

} // verus!
