//! Verified decimal rendering: integers, the two-decimal average of an
//! aggregation, and joining rendered pieces with separators.

use vstd::prelude::*;

verus! {

/// The character for a single decimal digit.
pub open spec fn digit_char(d: int) -> char {
    if d == 0 {
        '0'
    } else if d == 1 {
        '1'
    } else if d == 2 {
        '2'
    } else if d == 3 {
        '3'
    } else if d == 4 {
        '4'
    } else if d == 5 {
        '5'
    } else if d == 6 {
        '6'
    } else if d == 7 {
        '7'
    } else if d == 8 {
        '8'
    } else {
        '9'
    }
}

fn digit_to_char(d: u64) -> (r: char)
    requires
        d < 10,
    ensures
        r == digit_char(d as int),
{
    if d == 0 {
        '0'
    } else if d == 1 {
        '1'
    } else if d == 2 {
        '2'
    } else if d == 3 {
        '3'
    } else if d == 4 {
        '4'
    } else if d == 5 {
        '5'
    } else if d == 6 {
        '6'
    } else if d == 7 {
        '7'
    } else if d == 8 {
        '8'
    } else {
        '9'
    }
}

/// The decimal digits of `n`, most significant first, no leading zeros
/// except for `n == 0` itself.
pub open spec fn dec_digits(n: nat) -> Seq<char>
    decreases n,
{
    if n < 10 {
        seq![digit_char(n as int)]
    } else {
        dec_digits(n / 10) + seq![digit_char((n % 10) as int)]
    }
}

/// The decimal rendering of an integer, with a leading minus when negative.
pub open spec fn dec_int(v: int) -> Seq<char> {
    if v < 0 {
        seq!['-'] + dec_digits((-v) as nat)
    } else {
        dec_digits(v as nat)
    }
}

/// Relies on `String::push`: appends the character to the end of the string.
#[verifier::external_body]
fn push_char(s: &mut String, c: char)
    ensures
        final(s)@ == old(s)@.push(c),
{
    s.push(c);
}

pub fn u64_to_string(x: u64) -> (r: String)
    ensures
        r@ == dec_digits(x as nat),
{
    let mut digs: Vec<char> = Vec::new();
    let mut v: u64 = x;
    loop
        invariant_except_break
            digs@.len() == 0 ==> v == x,
            digs@.len() == 0 || v > 0,
            digs@.len() > 0 && v > 0 ==> dec_digits(x as nat) == dec_digits(v as nat)
                + digs@.reverse(),
        ensures
            digs@.len() > 0,
            dec_digits(x as nat) == digs@.reverse(),
        decreases v, (if digs@.len() == 0 { 1int } else { 0int }),
    {
        let ghost old_digs = digs@;
        let ghost old_v = v;
        let d = v % 10;
        digs.push(digit_to_char(d));
        v = v / 10;
        proof {
            assert(digs@.reverse() =~= seq![digit_char(d as int)] + old_digs.reverse());
            if old_digs.len() == 0 {
                if old_v >= 10 {
                    assert(dec_digits(x as nat) == dec_digits((old_v / 10) as nat) + seq![
                        digit_char((old_v % 10) as int),
                    ]);
                    assert(dec_digits((old_v / 10) as nat) + digs@.reverse() =~= dec_digits(
                        x as nat,
                    ));
                } else {
                    assert(dec_digits(x as nat) =~= digs@.reverse());
                }
            } else {
                if old_v >= 10 {
                    assert(dec_digits(old_v as nat) == dec_digits((old_v / 10) as nat) + seq![
                        digit_char((old_v % 10) as int),
                    ]);
                    assert(dec_digits((old_v / 10) as nat) + digs@.reverse() =~= dec_digits(
                        old_v as nat,
                    ) + old_digs.reverse());
                } else {
                    assert(dec_digits(old_v as nat) =~= seq![digit_char(d as int)]);
                    assert(digs@.reverse() =~= dec_digits(old_v as nat) + old_digs.reverse());
                }
            }
        }
        if v == 0 {
            break;
        }
    }
    let mut r = String::new();
    let mut k = digs.len();
    proof {
        assert(digs@.skip(k as int).reverse() =~= Seq::<char>::empty());
    }
    while k > 0
        invariant
            k <= digs@.len(),
            dec_digits(x as nat) == digs@.reverse(),
            r@ == digs@.skip(k as int).reverse(),
        decreases k,
    {
        let ghost old_r = r@;
        k = k - 1;
        push_char(&mut r, digs[k]);
        proof {
            assert(digs@.skip(k as int).reverse() =~= old_r.push(digs@[k as int]));
        }
    }
    proof {
        assert(digs@.skip(0) =~= digs@);
    }
    r
}

pub fn i64_to_string(x: i64) -> (r: String)
    ensures
        r@ == dec_int(x as int),
{
    if x >= 0 {
        u64_to_string(x as u64)
    } else {
        let a: u64 = if x == i64::MIN {
            9223372036854775808u64
        } else {
            (-x) as u64
        };
        let mut r = "-".to_owned();
        proof {
            reveal_strlit("-");
            assert(r@ =~= seq!['-']);
        }
        let digits = u64_to_string(a);
        r.append(digits.as_str());
        r
    }
}

pub fn i32_to_string(x: i32) -> (r: String)
    ensures
        r@ == dec_int(x as int),
{
    i64_to_string(x as i64)
}

/// `a / b` scaled as-is, rounded to the nearest integer, ties to even.
pub open spec fn round_half_even(a: nat, b: nat) -> nat
    recommends
        b > 0,
{
    let q = a / b;
    let r = a % b;
    if 2 * r > b {
        (q + 1) as nat
    } else if 2 * r < b {
        q
    } else if q % 2 == 0 {
        q
    } else {
        (q + 1) as nat
    }
}

/// The two-decimal rendering of the average `sum / count`; an empty vector
/// renders as `0.00`. The exact rational is rounded to centesimals, ties to
/// even.
pub open spec fn avg_repr(sum: int, count: nat) -> Seq<char> {
    if count == 0 {
        seq!['0', '.', '0', '0']
    } else {
        let a = if sum < 0 {
            (-sum) as nat
        } else {
            sum as nat
        };
        let m = round_half_even(100 * a, count);
        (if sum < 0 {
            seq!['-']
        } else {
            Seq::<char>::empty()
        }) + dec_digits(m / 100) + seq!['.', digit_char(((m / 10) % 10) as int), digit_char(
            (m % 10) as int,
        )]
    }
}

pub fn avg_to_string(sum: i64, count: u64) -> (r: String)
    ensures
        r@ == avg_repr(sum as int, count as nat),
{
    if count == 0 {
        let r = "0.00".to_owned();
        proof {
            reveal_strlit("0.00");
            assert(r@ =~= seq!['0', '.', '0', '0']);
        }
        return r;
    }
    let a64: u64 = if sum >= 0 {
        sum as u64
    } else if sum == i64::MIN {
        9223372036854775808u64
    } else {
        (-sum) as u64
    };
    let a: u128 = 100u128 * (a64 as u128);
    let b: u128 = count as u128;
    let q: u128 = a / b;
    let rem: u128 = a % b;
    proof {
        assert(q * b + rem == a && 0 <= rem < b) by {
            vstd::arithmetic::div_mod::lemma_fundamental_div_mod(a as int, b as int);
        }
        assert(q <= a) by (nonlinear_arith)
            requires
                q * b + rem == a,
                0 <= rem,
                b >= 1,
                q >= 0,
        ;
    }
    let m: u128 = if 2 * rem > b {
        q + 1
    } else if 2 * rem < b {
        q
    } else if q % 2 == 0 {
        q
    } else {
        q + 1
    };
    let neg = sum < 0;
    let int_part: u64 = (m / 100) as u64;
    let d1: u64 = ((m / 10) % 10) as u64;
    let d0: u64 = (m % 10) as u64;
    let mut r = if neg {
        let s = "-".to_owned();
        proof {
            reveal_strlit("-");
            assert(s@ =~= seq!['-']);
        }
        s
    } else {
        String::new()
    };
    let digits = u64_to_string(int_part);
    r.append(digits.as_str());
    push_char(&mut r, '.');
    push_char(&mut r, digit_to_char(d1));
    push_char(&mut r, digit_to_char(d0));
    proof {
        let ghost spec_m = round_half_even(100 * (a64 as nat), count as nat);
        assert(m == spec_m);
        assert(r@ =~= avg_repr(sum as int, count as nat));
    }
    r
}

/// The pieces joined with the separator between consecutive pieces.
pub open spec fn join_spec(parts: Seq<Seq<char>>, sep: char) -> Seq<char>
    decreases parts.len(),
{
    if parts.len() == 0 {
        Seq::empty()
    } else if parts.len() == 1 {
        parts[0]
    } else {
        join_spec(parts.drop_last(), sep) + seq![sep] + parts.last()
    }
}

pub fn join_strings(parts: &Vec<String>, sep: char) -> (r: String)
    ensures
        r@ == join_spec(parts@.map_values(|x: String| x@), sep),
{
    let mut r = String::new();
    let ghost mapped = parts@.map_values(|x: String| x@);
    let mut i: usize = 0;
    proof {
        assert(mapped.take(0) =~= Seq::<Seq<char>>::empty());
    }
    while i < parts.len()
        invariant
            i <= parts@.len(),
            mapped == parts@.map_values(|x: String| x@),
            r@ == join_spec(mapped.take(i as int), sep),
        decreases parts@.len() - i,
    {
        if i > 0 {
            push_char(&mut r, sep);
        }
        r.append(parts[i].as_str());
        proof {
            let cur = mapped.take(i as int + 1);
            assert(cur.drop_last() =~= mapped.take(i as int));
            assert(cur.last() == mapped[i as int]);
            if i == 0 {
                assert(join_spec(cur, sep) == cur[0]);
            }
        }
        i = i + 1;
    }
    proof {
        assert(mapped.take(parts@.len() as int) =~= mapped);
    }
    r
}

} // verus!
