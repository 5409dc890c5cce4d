//! Small text helpers: decimal numbers.
use vstd::prelude::*;

verus! {

/// The decimal digit character of a number below 10.
pub open spec fn decimal_char(d: nat) -> char {
    (('0' as nat) + d) as char
}

/// The decimal form of a number, without leading zeros.
pub open spec fn decimal(n: nat) -> Seq<char>
    decreases n,
{
    if n < 10 {
        seq![decimal_char(n)]
    } else {
        decimal(n / 10).push(decimal_char(n % 10))
    }
}

fn digit_str(d: u64) -> (r: &'static str)
    requires
        d < 10,
    ensures
        r@ == seq![decimal_char(d as nat)],
{
    match d {
        0 => {
            proof {
                reveal_strlit("0");
            }
            "0"
        },
        1 => {
            proof {
                reveal_strlit("1");
            }
            "1"
        },
        2 => {
            proof {
                reveal_strlit("2");
            }
            "2"
        },
        3 => {
            proof {
                reveal_strlit("3");
            }
            "3"
        },
        4 => {
            proof {
                reveal_strlit("4");
            }
            "4"
        },
        5 => {
            proof {
                reveal_strlit("5");
            }
            "5"
        },
        6 => {
            proof {
                reveal_strlit("6");
            }
            "6"
        },
        7 => {
            proof {
                reveal_strlit("7");
            }
            "7"
        },
        8 => {
            proof {
                reveal_strlit("8");
            }
            "8"
        },
        _ => {
            proof {
                reveal_strlit("9");
            }
            "9"
        },
    }
}

/// The decimal form of a number.
pub fn decimal_string(n: u64) -> (r: String)
    ensures
        r@ == decimal(n as nat),
    decreases n,
{
    if n < 10 {
        let mut s = String::new();
        s.append(digit_str(n));
        proof {
            assert(s@ =~= decimal(n as nat));
        }
        s
    } else {
        let mut s = decimal_string(n / 10);
        s.append(digit_str(n % 10));
        s
    }
}

/// The first `k` digits after the point of `rem / den`, for `rem < den`,
/// stopping early once the division comes out even.
pub open spec fn fraction_digits(rem: nat, den: nat, k: nat) -> Seq<char>
    decreases k,
{
    if k == 0 || rem == 0 || den == 0 {
        Seq::empty()
    } else {
        seq![decimal_char((rem * 10) / den)] + fraction_digits((rem * 10) % den, den, (k - 1) as nat)
    }
}

/// The decimal form of `num / den`: the whole part, then, when there is a
/// remainder, a point and up to eighteen digits of it.
pub open spec fn fraction_text(num: nat, den: nat) -> Seq<char> {
    decimal(num / den) + if num % den == 0 {
        Seq::<char>::empty()
    } else {
        "."@ + fraction_digits(num % den, den, 18)
    }
}

/// The decimal form of `num / den`, for a positive `den`.
pub fn fraction_string(num: u64, den: u64) -> (r: String)
    requires
        den > 0,
    ensures
        r@ == fraction_text(num as nat, den as nat),
{
    let mut s = decimal_string(num / den);
    let r0 = num % den;
    if r0 == 0 {
        proof {
            assert(s@ =~= fraction_text(num as nat, den as nat));
        }
        return s;
    }
    let ghost whole = fraction_text(num as nat, den as nat);
    let ghost start = s@;
    s.append(".");
    proof {
        reveal_strlit(".");
    }
    let mut rem: u64 = r0;
    let mut k: u64 = 18;
    proof {
        assert(whole =~= start + "."@ + fraction_digits(r0 as nat, den as nat, 18));
        assert(s@ + fraction_digits(rem as nat, den as nat, k as nat) =~= whole);
    }
    while k > 0 && rem > 0
        invariant
            den > 0,
            rem < den,
            s@ + fraction_digits(rem as nat, den as nat, k as nat) == whole,
        decreases k,
    {
        let t: u128 = (rem as u128) * 10;
        assert(t < (den as u128) * 10) by (nonlinear_arith)
            requires
                t == (rem as u128) * 10,
                rem < den,
        ;
        let d: u128 = t / (den as u128);
        assert(d < 10) by (nonlinear_arith)
            requires
                d == t / (den as u128),
                t < (den as u128) * 10,
                den > 0,
        ;
        let next: u128 = t % (den as u128);
        let ghost before = s@;
        s.append(digit_str(d as u64));
        proof {
            assert(fraction_digits(rem as nat, den as nat, k as nat) =~= seq![decimal_char(d as nat)]
                + fraction_digits(next as nat, den as nat, (k - 1) as nat));
            assert(s@ =~= before + seq![decimal_char(d as nat)]);
            assert(s@ + fraction_digits(next as nat, den as nat, (k - 1) as nat) =~= whole);
        }
        rem = next as u64;
        k = k - 1;
    }
    proof {
        assert(fraction_digits(rem as nat, den as nat, k as nat) =~= Seq::<char>::empty());
        assert(s@ =~= whole);
    }
    s
}

/// Whether two strings hold the same characters.
pub fn str_eq(a: &str, b: &str) -> (r: bool)
    ensures
        r == (a@ == b@),
{
    let n = a.unicode_len();
    let m = b.unicode_len();
    if n != m {
        return false;
    }
    let mut i: usize = 0;
    while i < n
        invariant
            n == a@.len(),
            m == b@.len(),
            n == m,
            i <= n,
            forall|k: int| 0 <= k < i ==> a@[k] == b@[k],
        decreases n - i,
    {
        if a.get_char(i) != b.get_char(i) {
            return false;
        }
        i = i + 1;
    }
    assert(a@ =~= b@);
    true
}

/// Whether `needle` occurs in `hay` as a run of consecutive characters.
pub open spec fn contains_run(hay: Seq<char>, needle: Seq<char>) -> bool {
    exists|k: int| 0 <= k <= hay.len() - needle.len() && #[trigger] hay.subrange(k, k + needle.len()) == needle
}

/// Decides [`contains_run`].
pub fn str_contains(hay: &str, needle: &str) -> (r: bool)
    ensures
        r == contains_run(hay@, needle@),
{
    let n = hay.unicode_len();
    let m = needle.unicode_len();
    if m > n {
        return false;
    }
    let mut k: usize = 0;
    while k <= n - m
        invariant
            n == hay@.len(),
            m == needle@.len(),
            m <= n,
            k <= n - m + 1,
            forall|q: int| 0 <= q < k ==> #[trigger] hay@.subrange(q, q + needle@.len()) != needle@,
        decreases n - m + 1 - k,
    {
        let mut i: usize = 0;
        let mut same = true;
        while i < m
            invariant
                n == hay@.len(),
                m == needle@.len(),
                k + m <= n,
                i <= m,
                same == forall|t: int| 0 <= t < i ==> hay@[k + t] == needle@[t],
            decreases m - i,
        {
            if hay.get_char(k + i) != needle.get_char(i) {
                same = false;
            }
            i = i + 1;
        }
        if same {
            assert(hay@.subrange(k as int, k + m) =~= needle@);
            return true;
        }
        proof {
            if hay@.subrange(k as int, k + needle@.len()) == needle@ {
                let t = choose|t: int| 0 <= t < m && hay@[k + t] != needle@[t];
                assert(hay@.subrange(k as int, k + needle@.len())[t] == hay@[k + t]);
            }
        }
        k = k + 1;
    }
    proof {
        if contains_run(hay@, needle@) {
            let q = choose|q: int|
                0 <= q <= hay@.len() - needle@.len() && #[trigger] hay@.subrange(q, q + needle@.len())
                    == needle@;
            assert(hay@.subrange(q, q + needle@.len()) != needle@);
        }
    }
    false
}

/// A string holding the characters of a literal.
pub fn owned(s: &str) -> (r: String)
    ensures
        r@ == s@,
{
    s.to_owned()
}

/// Strings joined with a separator between each two.
pub open spec fn joined(parts: Seq<Seq<char>>, sep: Seq<char>) -> Seq<char>
    decreases parts.len(),
{
    if parts.len() == 0 {
        Seq::empty()
    } else if parts.len() == 1 {
        parts[0]
    } else {
        joined(parts.drop_last(), sep) + sep + parts[parts.len() - 1]
    }
}

/// Joins strings with a separator between each two.
pub fn join_strings(parts: &Vec<String>, sep: &str) -> (r: String)
    ensures
        r@ == joined(parts@.map_values(|p: String| p@), sep@),
{
    let ghost ps = parts@.map_values(|p: String| p@);
    let mut out = String::new();
    let n = parts.len();
    proof {
        assert(ps.take(0) =~= Seq::<Seq<char>>::empty());
    }
    for i in 0..n
        invariant
            n == parts@.len(),
            ps == parts@.map_values(|p: String| p@),
            out@ == joined(ps.take(i as int), sep@),
    {
        proof {
            assert(ps.take(i + 1).drop_last() =~= ps.take(i as int));
            assert(ps.take(i + 1)[i as int] == parts@[i as int]@);
        }
        if i > 0 {
            out.append(sep);
        }
        out.append(parts[i].as_str());
    }
    proof {
        assert(ps.take(n as int) =~= ps);
    }
    out
}

/// Whether `s` starts with `prefix`.
pub open spec fn starts_with(s: Seq<char>, prefix: Seq<char>) -> bool {
    prefix.len() <= s.len() && s.subrange(0, prefix.len() as int) == prefix
}

/// Decides [`starts_with`].
pub fn str_starts_with(s: &str, prefix: &str) -> (r: bool)
    ensures
        r == starts_with(s@, prefix@),
{
    let n = s.unicode_len();
    let m = prefix.unicode_len();
    if m > n {
        return false;
    }
    let mut i: usize = 0;
    while i < m
        invariant
            n == s@.len(),
            m == prefix@.len(),
            m <= n,
            i <= m,
            forall|k: int| 0 <= k < i ==> s@[k] == prefix@[k],
        decreases m - i,
    {
        if s.get_char(i) != prefix.get_char(i) {
            proof {
                assert(s@.subrange(0, m as int)[i as int] != prefix@[i as int]);
            }
            return false;
        }
        i = i + 1;
    }
    assert(s@.subrange(0, m as int) =~= prefix@);
    true
}

} // verus!
