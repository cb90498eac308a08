//! Verified text utilities: character search, trimming, splitting, and
//! decimal integer parsing, with their specification-level counterparts.

use vstd::prelude::*;

verus! {

/// The whitespace characters the query parser strips at line ends.
pub open spec fn is_ws(c: char) -> bool {
    c == ' ' || c == '\t' || c == '\n' || c == '\r'
}

pub fn is_ws_exec(c: char) -> (r: bool)
    ensures
        r == is_ws(c),
{
    c == ' ' || c == '\t' || c == '\n' || c == '\r'
}

/// The index of the first occurrence of `c` in `s`, if any.
pub open spec fn find_spec(s: Seq<char>, c: char) -> Option<int>
    decreases s.len(),
{
    if s.len() == 0 {
        None
    } else if s[0] == c {
        Some(0int)
    } else {
        match find_spec(s.drop_first(), c) {
            Some(i) => Some(i + 1),
            None => None,
        }
    }
}

pub proof fn lemma_find_spec(s: Seq<char>, c: char)
    ensures
        match find_spec(s, c) {
            Some(i) => 0 <= i < s.len() && s[i] == c && forall|j: int| 0 <= j < i ==> s[j] != c,
            None => forall|j: int| 0 <= j < s.len() ==> s[j] != c,
        },
    decreases s.len(),
{
    if s.len() > 0 && s[0] != c {
        lemma_find_spec(s.drop_first(), c);
        let d = s.drop_first();
        match find_spec(d, c) {
            Some(i) => {
                assert(s[i + 1] == d[i]);
                assert forall|j: int| 0 <= j < i + 1 implies s[j] != c by {
                    if j >= 1 {
                        assert(d[j - 1] == s[j]);
                    }
                }
            },
            None => {
                assert forall|j: int| 0 <= j < s.len() implies s[j] != c by {
                    if j >= 1 {
                        assert(d[j - 1] == s[j]);
                    }
                }
            },
        }
    }
}

/// Exact string equality, decided character by character.
pub fn str_eq(a: &str, b: &str) -> (r: bool)
    ensures
        r == (a@ == b@),
{
    let na = a.unicode_len();
    let nb = b.unicode_len();
    if na != nb {
        return false;
    }
    let mut i: usize = 0;
    while i < na
        invariant
            na == a@.len(),
            na == b@.len(),
            0 <= i <= na,
            forall|j: int| 0 <= j < i ==> a@[j] == b@[j],
        decreases na - i,
    {
        if a.get_char(i) != b.get_char(i) {
            return false;
        }
        i = i + 1;
    }
    proof {
        assert(a@ =~= b@);
    }
    true
}

/// The first occurrence of `c` at or after position `from`.
pub fn find_from(s: &str, c: char, from: usize) -> (r: Option<usize>)
    requires
        from <= s@.len(),
    ensures
        match r {
            Some(i) => from <= i < s@.len() && s@[i as int] == c && forall|j: int|
                from <= j < i ==> s@[j] != c,
            None => forall|j: int| from <= j < s@.len() ==> s@[j] != c,
        },
{
    let n = s.unicode_len();
    let mut i: usize = from;
    while i < n
        invariant
            n == s@.len(),
            from <= i <= n,
            forall|j: int| from <= j < i ==> s@[j] != c,
        decreases n - i,
    {
        if s.get_char(i) == c {
            return Some(i);
        }
        i = i + 1;
    }
    None
}

/// An owned copy of the characters `[from, to)` of `s`.
pub fn substr(s: &str, from: usize, to: usize) -> (r: String)
    requires
        from <= to <= s@.len(),
    ensures
        r@ == s@.subrange(from as int, to as int),
{
    s.substring_char(from, to).to_owned()
}

/// `s` with leading whitespace removed.
pub open spec fn trim_front_spec(s: Seq<char>) -> Seq<char>
    decreases s.len(),
{
    if s.len() > 0 && is_ws(s[0]) {
        trim_front_spec(s.drop_first())
    } else {
        s
    }
}

/// `s` with trailing whitespace removed.
pub open spec fn trim_back_spec(s: Seq<char>) -> Seq<char>
    decreases s.len(),
{
    if s.len() > 0 && is_ws(s.last()) {
        trim_back_spec(s.drop_last())
    } else {
        s
    }
}

/// `s` with whitespace removed from both ends.
pub open spec fn trim_spec(s: Seq<char>) -> Seq<char> {
    trim_back_spec(trim_front_spec(s))
}

pub fn trim(s: &str) -> (r: String)
    ensures
        r@ == trim_spec(s@),
{
    let n = s.unicode_len();
    proof {
        assert(s@.subrange(0, n as int) =~= s@);
    }
    let mut a: usize = 0;
    while a < n && is_ws_exec(s.get_char(a))
        invariant
            n == s@.len(),
            0 <= a <= n,
            trim_front_spec(s@) == trim_front_spec(s@.subrange(a as int, n as int)),
        decreases n - a,
    {
        proof {
            let cur = s@.subrange(a as int, n as int);
            assert(cur.drop_first() =~= s@.subrange(a as int + 1, n as int));
        }
        a = a + 1;
    }
    proof {
        let cur = s@.subrange(a as int, n as int);
        if a < n {
            assert(trim_front_spec(cur) == cur);
        } else {
            assert(cur =~= Seq::<char>::empty());
        }
    }
    let mut b: usize = n;
    while b > a && is_ws_exec(s.get_char(b - 1))
        invariant
            n == s@.len(),
            0 <= a <= b <= n,
            trim_front_spec(s@) == s@.subrange(a as int, n as int),
            trim_back_spec(s@.subrange(a as int, n as int)) == trim_back_spec(
                s@.subrange(a as int, b as int),
            ),
        decreases b,
    {
        proof {
            let cur = s@.subrange(a as int, b as int);
            assert(cur.drop_last() =~= s@.subrange(a as int, b as int - 1));
        }
        b = b - 1;
    }
    proof {
        let cur = s@.subrange(a as int, b as int);
        if b > a {
            assert(trim_back_spec(cur) == cur);
        } else {
            assert(cur =~= Seq::<char>::empty());
        }
    }
    substr(s, a, b)
}

/// `s` with every trailing occurrence of `c` removed.
pub open spec fn trim_back_char_spec(s: Seq<char>, c: char) -> Seq<char>
    decreases s.len(),
{
    if s.len() > 0 && s.last() == c {
        trim_back_char_spec(s.drop_last(), c)
    } else {
        s
    }
}

pub fn trim_back_char(s: &str, c: char) -> (r: String)
    ensures
        r@ == trim_back_char_spec(s@, c),
{
    let n = s.unicode_len();
    proof {
        assert(s@.subrange(0, n as int) =~= s@);
    }
    let mut b: usize = n;
    while b > 0 && s.get_char(b - 1) == c
        invariant
            n == s@.len(),
            0 <= b <= n,
            trim_back_char_spec(s@, c) == trim_back_char_spec(s@.subrange(0, b as int), c),
        decreases b,
    {
        proof {
            let cur = s@.subrange(0, b as int);
            assert(cur.drop_last() =~= s@.subrange(0, b as int - 1));
        }
        b = b - 1;
    }
    proof {
        let cur = s@.subrange(0, b as int);
        if b > 0 {
            assert(trim_back_char_spec(cur, c) == cur);
        } else {
            assert(cur =~= Seq::<char>::empty());
        }
    }
    substr(s, 0, b)
}

/// The pieces of `s` between occurrences of `c`; always at least one piece.
pub open spec fn split_spec(s: Seq<char>, c: char) -> Seq<Seq<char>>
    decreases s.len(),
{
    match find_spec(s, c) {
        None => seq![s],
        Some(i) => if 0 <= i < s.len() {
            seq![s.take(i)] + split_spec(s.skip(i + 1), c)
        } else {
            seq![s]
        },
    }
}

/// Splits `s` at every occurrence of `c`.
pub fn split_all(s: &str, c: char) -> (r: Vec<String>)
    ensures
        r@.map_values(|x: String| x@) == split_spec(s@, c),
        r@.len() >= 1,
{
    let n = s.unicode_len();
    let mut out: Vec<String> = Vec::new();
    proof {
        assert(s@.subrange(0, n as int) =~= s@);
        assert(out@.map_values(|x: String| x@) + split_spec(s@, c) =~= split_spec(s@, c));
    }
    let mut start: usize = 0;
    loop
        invariant
            n == s@.len(),
            0 <= start <= n,
            split_spec(s@, c) == out@.map_values(|x: String| x@) + split_spec(
                s@.subrange(start as int, n as int),
                c,
            ),
        decreases n - start,
    {
        let found = find_from(s, c, start);
        proof {
            lemma_find_spec(s@.subrange(start as int, n as int), c);
        }
        let ghost m0 = out@.map_values(|x: String| x@);
        match found {
            Some(i) => {
                proof {
                    let rem = s@.subrange(start as int, n as int);
                    let k = i as int - start as int;
                    assert(forall|j: int|
                        0 <= j < rem.len() ==> #[trigger] rem[j] == s@[start as int + j]);
                    match find_spec(rem, c) {
                        Some(f) => {
                            assert(rem[k] == c);
                            assert(f == k);
                            assert(rem.take(k) =~= s@.subrange(start as int, i as int));
                            assert(rem.skip(k + 1) =~= s@.subrange(i as int + 1, n as int));
                            assert(split_spec(rem, c) == seq![rem.take(k)] + split_spec(
                                rem.skip(k + 1),
                                c,
                            ));
                        },
                        None => {
                            assert(rem[k] == c);
                            assert(false);
                        },
                    }
                }
                let piece = substr(s, start, i);
                proof {
                    let rem = s@.subrange(start as int, n as int);
                    let k = i as int - start as int;
                    assert(m0 + split_spec(rem, c) =~= (m0.push(rem.take(k))) + split_spec(
                        rem.skip(k + 1),
                        c,
                    ));
                }
                out.push(piece);
                proof {
                    assert(out@.map_values(|x: String| x@) =~= m0.push(
                        s@.subrange(start as int, i as int),
                    ));
                }
                start = i + 1;
            },
            None => {
                proof {
                    let rem = s@.subrange(start as int, n as int);
                    assert(forall|j: int|
                        0 <= j < rem.len() ==> #[trigger] rem[j] == s@[start as int + j]);
                    match find_spec(rem, c) {
                        Some(f) => {
                            assert(rem[f] == c);
                            assert(false);
                        },
                        None => {
                            assert(split_spec(rem, c) == seq![rem]);
                        },
                    }
                    assert(m0 + split_spec(rem, c) =~= m0.push(rem));
                }
                let piece = substr(s, start, n);
                out.push(piece);
                proof {
                    assert(out@.map_values(|x: String| x@) =~= m0.push(
                        s@.subrange(start as int, n as int),
                    ));
                }
                return out;
            },
        }
    }
}

/// A decimal digit.
pub open spec fn is_digit(c: char) -> bool {
    '0' <= c && c <= '9'
}

pub open spec fn digit_val(c: char) -> int {
    c as int - '0' as int
}

pub open spec fn all_digits(s: Seq<char>) -> bool {
    forall|i: int| 0 <= i < s.len() ==> is_digit(#[trigger] s[i])
}

/// The value of a digit string, most significant first.
pub open spec fn digits_val(s: Seq<char>) -> int
    decreases s.len(),
{
    if s.len() == 0 {
        0
    } else {
        digits_val(s.drop_last()) * 10 + digit_val(s.last())
    }
}

/// The integer a string denotes: an optional sign, then one or more digits.
pub open spec fn spec_parse_int(s: Seq<char>) -> Option<int> {
    let rest = if s.len() > 0 && (s[0] == '-' || s[0] == '+') {
        s.drop_first()
    } else {
        s
    };
    let neg = s.len() > 0 && s[0] == '-';
    if rest.len() > 0 && all_digits(rest) {
        Some(
            if neg {
                -digits_val(rest)
            } else {
                digits_val(rest)
            },
        )
    } else {
        None
    }
}

/// The string parsed as an `i32`, exactly as `str::parse::<i32>` accepts it.
pub open spec fn spec_parse_i32(s: Seq<char>) -> Option<i32> {
    match spec_parse_int(s) {
        Some(v) => if i32::MIN <= v <= i32::MAX {
            Some(v as i32)
        } else {
            None
        },
        None => None,
    }
}

/// The string parsed as a `u64` (no negative sign accepted).
pub open spec fn spec_parse_u64(s: Seq<char>) -> Option<u64> {
    match spec_parse_int(s) {
        Some(v) => if !(s.len() > 0 && s[0] == '-') && 0 <= v <= u64::MAX {
            Some(v as u64)
        } else {
            None
        },
        None => None,
    }
}

/// Digit strings grow monotonically with more digits.
proof fn lemma_digits_val_nonneg(s: Seq<char>)
    requires
        all_digits(s),
    ensures
        digits_val(s) >= 0,
    decreases s.len(),
{
    if s.len() > 0 {
        assert(forall|i: int| 0 <= i < s.len() - 1 ==> s.drop_last()[i] == s[i]);
        lemma_digits_val_nonneg(s.drop_last());
        assert(is_digit(s.last()));
    }
}

/// Parses the digits of `s` starting at `from`, accumulating their value.
/// Reports whether the value exceeds `u64::MAX`.
fn parse_digits(s: &str, from: usize) -> (r: Option<(u64, bool)>)
    requires
        from <= s@.len(),
    ensures
        ({
            let rest = s@.skip(from as int);
            match r {
                Some((acc, big)) => rest.len() > 0 && all_digits(rest) && (if big {
                    digits_val(rest) > u64::MAX
                } else {
                    acc == digits_val(rest)
                }),
                None => !(rest.len() > 0 && all_digits(rest)),
            }
        }),
{
    let n = s.unicode_len();
    if from >= n {
        proof {
            assert(s@.skip(from as int).len() == 0);
        }
        return None;
    }
    let mut acc: u128 = 0;
    let mut big = false;
    let mut i: usize = from;
    while i < n
        invariant
            n == s@.len(),
            from <= i <= n,
            all_digits(s@.subrange(from as int, i as int)),
            big ==> digits_val(s@.subrange(from as int, i as int)) > u64::MAX,
            !big ==> acc == digits_val(s@.subrange(from as int, i as int)) && acc <= u64::MAX,
        decreases n - i,
    {
        let c = s.get_char(i);
        if c < '0' || c > '9' {
            proof {
                let rest = s@.skip(from as int);
                assert(rest[i as int - from as int] == s@[i as int]);
                assert(!is_digit(rest[i as int - from as int]));
            }
            return None;
        }
        let d: u32 = (c as u32) - ('0' as u32);
        proof {
            let pref = s@.subrange(from as int, i as int);
            let pref2 = s@.subrange(from as int, i as int + 1);
            assert(pref2.drop_last() =~= pref);
            assert(pref2.last() == s@[i as int]);
            lemma_digits_val_nonneg(pref);
        }
        if big {
        } else {
            acc = acc * 10 + (d as u128);
            if acc > u64::MAX as u128 {
                big = true;
            }
        }
        i = i + 1;
    }
    proof {
        assert(s@.subrange(from as int, n as int) =~= s@.skip(from as int));
    }
    if big {
        Some((0, true))
    } else {
        Some((acc as u64, false))
    }
}

/// Parses `s` as `str::parse::<i32>` does: optional sign, then digits,
/// rejecting anything out of the `i32` range.
pub fn parse_i32(s: &str) -> (r: Option<i32>)
    ensures
        r == spec_parse_i32(s@),
{
    let n = s.unicode_len();
    let (neg, from): (bool, usize) = if n > 0 && s.get_char(0) == '-' {
        (true, 1)
    } else if n > 0 && s.get_char(0) == '+' {
        (false, 1)
    } else {
        (false, 0)
    };
    proof {
        if from == 1 {
            assert(s@.skip(1) =~= s@.drop_first());
        } else {
            assert(s@.skip(0) =~= s@);
        }
    }
    match parse_digits(s, from) {
        None => None,
        Some((acc, big)) => {
            if big {
                None
            } else if neg {
                if acc > 0x8000_0000u64 {
                    None
                } else {
                    Some((-(acc as i64)) as i32)
                }
            } else {
                if acc > 0x7fff_ffffu64 {
                    None
                } else {
                    Some(acc as i32)
                }
            }
        },
    }
}

/// Parses `s` as `str::parse::<u64>` accepts it (an optional leading `+`).
pub fn parse_u64(s: &str) -> (r: Option<u64>)
    ensures
        r == spec_parse_u64(s@),
{
    let n = s.unicode_len();
    let (neg, from): (bool, usize) = if n > 0 && s.get_char(0) == '-' {
        (true, 1)
    } else if n > 0 && s.get_char(0) == '+' {
        (false, 1)
    } else {
        (false, 0)
    };
    proof {
        if from == 1 {
            assert(s@.skip(1) =~= s@.drop_first());
        } else {
            assert(s@.skip(0) =~= s@);
        }
    }
    match parse_digits(s, from) {
        None => None,
        Some((acc, big)) => {
            if big || neg {
                if neg && !big {
                    proof {
                        lemma_digits_val_nonneg(s@.skip(from as int));
                    }
                }
                None
            } else {
                Some(acc)
            }
        },
    }
}

} // verus!
