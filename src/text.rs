use vstd::prelude::*;
use vstd::string::{StrSliceExecFns, StringExecFns};

verus! {

/// Unicode White_Space, the set that `char::is_whitespace` tests.
pub open spec fn is_ws(c: char) -> bool {
    let u = c as u32;
    ||| 9 <= u <= 13
    ||| u == 32
    ||| u == 0x85
    ||| u == 0xA0
    ||| u == 0x1680
    ||| 0x2000 <= u <= 0x200A
    ||| u == 0x2028
    ||| u == 0x2029
    ||| u == 0x202F
    ||| u == 0x205F
    ||| u == 0x3000
}

/// `s` without its leading whitespace.
pub open spec fn trim_start_of(s: Seq<char>) -> Seq<char>
    decreases s.len(),
{
    if s.len() > 0 && is_ws(s[0]) {
        trim_start_of(s.subrange(1, s.len() as int))
    } else {
        s
    }
}

/// `s` without its trailing whitespace.
pub open spec fn trim_end_of(s: Seq<char>) -> Seq<char>
    decreases s.len(),
{
    if s.len() > 0 && is_ws(s[s.len() - 1]) {
        trim_end_of(s.subrange(0, s.len() - 1))
    } else {
        s
    }
}

/// `s` without leading and trailing whitespace.
pub open spec fn trimmed(s: Seq<char>) -> Seq<char> {
    trim_end_of(trim_start_of(s))
}

/// `s` with every trailing repetition of the nonempty `p` removed.
pub open spec fn strip_suffixes(s: Seq<char>, p: Seq<char>) -> Seq<char>
    decreases s.len(),
{
    if p.len() > 0 && s.len() >= p.len() && s.subrange(s.len() - p.len(), s.len() as int) == p {
        strip_suffixes(s.subrange(0, s.len() - p.len()), p)
    } else {
        s
    }
}

/// Whether every character of `s` is an ASCII digit.
pub open spec fn all_digits(s: Seq<char>) -> bool {
    forall|i: int| 0 <= i < s.len() ==> 48 <= (#[trigger] s[i]) as u32 <= 57
}

/// The number that the ASCII digits `s` spell in base 10.
pub open spec fn digits_value(s: Seq<char>) -> int
    decreases s.len(),
{
    if s.len() == 0 {
        0
    } else {
        digits_value(s.subrange(0, s.len() - 1)) * 10 + (s[s.len() - 1] as u32 - 48)
    }
}

/// The `i64` that `s` spells: an optional sign, then one or more digits, in range.
pub open spec fn parsed_i64(s: Seq<char>) -> Option<i64> {
    let neg = s.len() > 0 && s[0] == '-';
    let signed = s.len() > 0 && (s[0] == '-' || s[0] == '+');
    let body = if signed { s.subrange(1, s.len() as int) } else { s };
    let v = if neg { -digits_value(body) } else { digits_value(body) };
    if body.len() > 0 && all_digits(body) && i64::MIN <= v <= i64::MAX {
        Some(v as i64)
    } else {
        None
    }
}

/// The digit character of `d < 10`.
pub open spec fn digit_char(d: nat) -> char {
    ((d + '0' as nat) as u32) as char
}

/// Base-10 digits of `n`, without leading zeros.
pub open spec fn digits_of(n: nat) -> Seq<char>
    decreases n,
{
    if n < 10 {
        seq![digit_char(n)]
    } else {
        digits_of(n / 10) + seq![digit_char(n % 10)]
    }
}

/// Base-10 text of `n`, with a leading '-' when negative.
pub open spec fn decimal(n: int) -> Seq<char> {
    if n < 0 {
        seq!['-'] + digits_of((-n) as nat)
    } else {
        digits_of(n as nat)
    }
}

/// `s` with each non-overlapping occurrence of the nonempty `from`, left to
/// right, replaced by `to`.
pub open spec fn replaced(s: Seq<char>, from: Seq<char>, to: Seq<char>) -> Seq<char>
    decreases s.len(),
{
    if from.len() == 0 || s.len() < from.len() {
        s
    } else if s.subrange(0, from.len() as int) == from {
        to + replaced(s.subrange(from.len() as int, s.len() as int), from, to)
    } else {
        seq![s[0]] + replaced(s.subrange(1, s.len() as int), from, to)
    }
}

/// The one-character text of the digit `d`.
fn digit_text(d: u64) -> (r: &'static str)
    requires
        d < 10,
    ensures
        r@ == seq![digit_char(d as nat)],
{
    proof {
        reveal_strlit("0");
        reveal_strlit("1");
        reveal_strlit("2");
        reveal_strlit("3");
        reveal_strlit("4");
        reveal_strlit("5");
        reveal_strlit("6");
        reveal_strlit("7");
        reveal_strlit("8");
        reveal_strlit("9");
    }
    match d {
        0 => "0",
        1 => "1",
        2 => "2",
        3 => "3",
        4 => "4",
        5 => "5",
        6 => "6",
        7 => "7",
        8 => "8",
        _ => "9",
    }
}

/// Base-10 digits of `n`, without leading zeros.
fn digits_text(n: u64) -> (r: String)
    ensures
        r@ == digits_of(n as nat),
    decreases n,
{
    if n < 10 {
        digit_text(n).to_owned()
    } else {
        let mut r = digits_text(n / 10);
        r.append(digit_text(n % 10));
        r
    }
}

/// Base-10 text of `n`, with a leading '-' when negative.
pub fn int_text(n: i64) -> (r: String)
    ensures
        r@ == decimal(n as int),
{
    if n < 0 {
        let u: u64 = (0 - (n as i128)) as u64;
        proof {
            reveal_strlit("-");
        }
        let mut r = "-".to_owned();
        r.append(digits_text(u).as_str());
        r
    } else {
        digits_text(n as u64)
    }
}

/// Base-10 text of `n`.
pub fn count_text(n: usize) -> (r: String)
    ensures
        r@ == decimal(n as int),
{
    digits_text(n as u64)
}

/// `s` with each non-overlapping match of the nonempty `from`, left to right,
/// replaced by `to`.
pub fn replace_all(s: &str, from: &str, to: &str) -> (r: String)
    requires
        from@.len() > 0,
    ensures
        r@ == replaced(s@, from@, to@),
{
    let n = s.unicode_len();
    let m = from.unicode_len();
    let mut r = String::new();
    let mut i: usize = 0;
    proof {
        assert(s@.subrange(0, n as int) == s@);
    }
    while i < n
        invariant
            i <= n,
            n == s@.len(),
            m == from@.len(),
            m > 0,
            r@ + replaced(s@.subrange(i as int, n as int), from@, to@) == replaced(s@, from@, to@),
        decreases n - i,
    {
        let ghost rest = s@.subrange(i as int, n as int);
        if n - i >= m && matches_at(s, i, i + m, from, m) {
            proof {
                assert(rest.subrange(0, m as int) == s@.subrange(i as int, i + m));
                assert(rest.subrange(m as int, rest.len() as int) == s@.subrange(i + m, n as int));
                assert(r@ + to@ + replaced(s@.subrange(i + m, n as int), from@, to@) == r@ + (to@
                    + replaced(s@.subrange(i + m, n as int), from@, to@)));
            }
            r.append(to);
            i += m;
        } else {
            proof {
                if rest.len() >= m {
                    assert(rest.subrange(0, m as int) == s@.subrange(i as int, i + m));
                } else {
                    assert(rest == seq![rest[0]] + rest.subrange(1, rest.len() as int));
                    assert(replaced(rest.subrange(1, rest.len() as int), from@, to@) == rest.subrange(1, rest.len() as int));
                }
                assert(rest.subrange(1, rest.len() as int) == s@.subrange(i + 1, n as int));
                assert(r@ + s@.subrange(i as int, i + 1) + replaced(s@.subrange(i + 1, n as int), from@, to@) == r@ + (
                seq![rest[0]] + replaced(s@.subrange(i + 1, n as int), from@, to@)));
            }
            r.append(s.substring_char(i, i + 1));
            i += 1;
        }
    }
    proof {
        assert(r@ + Seq::<char>::empty() == r@);
    }
    r
}

/// The characters of `a` followed by those of `b`.
pub fn concatenated(a: &str, b: &str) -> (r: String)
    ensures
        r@ == a@ + b@,
{
    let mut r = a.to_owned();
    r.append(b);
    r
}

/// Whether `c` is Unicode whitespace.
pub fn is_whitespace(c: char) -> (r: bool)
    ensures
        r == is_ws(c),
{
    let u = c as u32;
    (9 <= u && u <= 13) || u == 32 || u == 0x85 || u == 0xA0 || u == 0x1680 || (0x2000 <= u && u
        <= 0x200A) || u == 0x2028 || u == 0x2029 || u == 0x202F || u == 0x205F || u == 0x3000
}

/// `s` without leading and trailing whitespace.
pub fn trim(s: &str) -> (r: &str)
    ensures
        r@ == trimmed(s@),
{
    let n = s.unicode_len();
    let mut i: usize = 0;
    proof {
        assert(s@.subrange(0, n as int) == s@);
    }
    while i < n && is_whitespace(s.get_char(i))
        invariant
            i <= n,
            n == s@.len(),
            trim_start_of(s@) == trim_start_of(s@.subrange(i as int, n as int)),
        decreases n - i,
    {
        proof {
            let t = s@.subrange(i as int, n as int);
            assert(t.subrange(1, t.len() as int) == s@.subrange(i + 1, n as int));
        }
        i += 1;
    }
    proof {
        assert(trim_start_of(s@) == s@.subrange(i as int, n as int));
    }
    let mut j: usize = n;
    while j > i && is_whitespace(s.get_char(j - 1))
        invariant
            i <= j <= n,
            n == s@.len(),
            trimmed(s@) == trim_end_of(s@.subrange(i as int, j as int)),
        decreases j,
    {
        proof {
            let t = s@.subrange(i as int, j as int);
            assert(t.subrange(0, t.len() - 1) == s@.subrange(i as int, j - 1));
        }
        j -= 1;
    }
    s.substring_char(i, j)
}

/// Whether the characters of `s` from `start` on are those of `p`.
pub(crate) fn matches_at(s: &str, start: usize, end: usize, p: &str, plen: usize) -> (r: bool)
    requires
        start <= end <= s@.len(),
        plen == p@.len(),
        end - start == plen,
    ensures
        r == (s@.subrange(start as int, end as int) == p@),
{
    let mut k: usize = 0;
    while k < plen
        invariant
            k <= plen,
            start <= end <= s@.len(),
            plen == p@.len(),
            end - start == plen,
            forall|q: int| 0 <= q < k ==> s@[start + q] == p@[q],
        decreases plen - k,
    {
        if s.get_char(start + k) != p.get_char(k) {
            proof {
                assert(s@.subrange(start as int, end as int)[k as int] != p@[k as int]);
            }
            return false;
        }
        k += 1;
    }
    proof {
        assert(s@.subrange(start as int, end as int) =~= p@);
    }
    true
}

/// `s` with every trailing repetition of `p` removed; unchanged when `p` is empty.
pub fn trim_end_matches<'a>(s: &'a str, p: &str) -> (r: &'a str)
    ensures
        r@ == strip_suffixes(s@, p@),
{
    let n = s.unicode_len();
    let plen = p.unicode_len();
    if plen == 0 {
        return s;
    }
    let mut j: usize = n;
    proof {
        assert(s@.subrange(0, n as int) == s@);
    }
    while j >= plen && matches_at(s, j - plen, j, p, plen)
        invariant
            j <= n,
            n == s@.len(),
            plen == p@.len(),
            plen > 0,
            strip_suffixes(s@, p@) == strip_suffixes(s@.subrange(0, j as int), p@),
        decreases j,
    {
        proof {
            let t = s@.subrange(0, j as int);
            assert(t.subrange(t.len() - plen, t.len() as int) == s@.subrange(j - plen, j as int));
            assert(t.subrange(0, t.len() - plen) == s@.subrange(0, j - plen));
        }
        j -= plen;
    }
    proof {
        let t = s@.subrange(0, j as int);
        if j >= plen {
            assert(t.subrange(t.len() - plen, t.len() as int) == s@.subrange(j - plen, j as int));
        }
    }
    s.substring_char(0, j)
}

/// Digits spell a nonnegative number.
proof fn lemma_digits_nonneg(s: Seq<char>)
    requires
        all_digits(s),
    ensures
        digits_value(s) >= 0,
    decreases s.len(),
{
    if s.len() > 0 {
        let t = s.subrange(0, s.len() - 1);
        assert forall|q: int| 0 <= q < t.len() implies 48 <= (#[trigger] t[q]) as u32 <= 57 by {
            assert(t[q] == s[q]);
        }
        lemma_digits_nonneg(t);
        assert(48 <= s[s.len() - 1] as u32);
    }
}

/// One more digit: the value is ten times the old one plus the digit.
proof fn lemma_digits_step(s: Seq<char>, start: int, i: int)
    requires
        0 <= start <= i < s.len(),
        all_digits(s.subrange(start, i)),
        48 <= s[i] as u32 <= 57,
    ensures
        digits_value(s.subrange(start, i + 1)) == digits_value(s.subrange(start, i)) * 10 + (s[i] as u32 - 48),
        all_digits(s.subrange(start, i + 1)),
{
    let prev = s.subrange(start, i);
    let next = s.subrange(start, i + 1);
    assert(next.subrange(0, next.len() - 1) == prev);
    assert(next[next.len() - 1] == s[i]);
    assert forall|q: int| 0 <= q < next.len() implies 48 <= (#[trigger] next[q]) as u32 <= 57 by {
        if q < prev.len() {
            assert(next[q] == prev[q]);
        }
    }
}

/// The value of `d`, capped just above `i64::MAX + 1`.
pub open spec fn capped(d: int) -> int {
    if d <= 0x8000_0000_0000_0000 { d } else { 0x8000_0000_0000_0001 }
}

/// The value of the digits of `s` from `start` to `n`, capped; `None` when one
/// of them is not a digit.
#[verifier::rlimit(40)]
fn digits_magnitude(s: &str, start: usize, n: usize) -> (r: Option<u128>)
    requires
        start <= n == s@.len(),
    ensures
        all_digits(s@.subrange(start as int, n as int)) ==> r == Some(capped(digits_value(s@.subrange(start as int, n as int))) as u128),
        !all_digits(s@.subrange(start as int, n as int)) ==> r is None,
{
    let mut acc: u128 = 0;
    let mut i: usize = start;
    while i < n
        invariant
            start <= i <= n,
            n == s@.len(),
            all_digits(s@.subrange(start as int, i as int)),
            acc <= 0x8000_0000_0000_0001,
            acc == capped(digits_value(s@.subrange(start as int, i as int))),
        decreases n - i,
    {
        let u = s.get_char(i) as u32;
        if u < 48 || u > 57 {
            proof {
                assert(s@.subrange(start as int, n as int)[i - start] == s@[i as int]);
            }
            return None;
        }
        proof {
            lemma_digits_step(s@, start as int, i as int);
        }
        if acc <= 0x8000_0000_0000_0000 {
            acc = acc * 10 + (u - 48) as u128;
            if acc > 0x8000_0000_0000_0000 {
                acc = 0x8000_0000_0000_0001;
            }
        } else {
            proof {
                let dp = digits_value(s@.subrange(start as int, i as int));
                assert(dp * 10 + (u - 48) > 0x8000_0000_0000_0000) by (nonlinear_arith)
                    requires
                        dp > 0x8000_0000_0000_0000,
                        u >= 48,
                ;
            }
        }
        i += 1;
    }
    Some(acc)
}

/// The `i64` that `s` spells: an optional sign, then one or more digits, in range.
pub fn parse_i64(s: &str) -> (r: Option<i64>)
    ensures
        r == parsed_i64(s@),
{
    let n = s.unicode_len();
    if n == 0 {
        return None;
    }
    let c0 = s.get_char(0);
    let neg = c0 == '-';
    let start: usize = if c0 == '-' || c0 == '+' { 1 } else { 0 };
    proof {
        assert(s@.subrange(0, n as int) == s@);
    }
    if start == n {
        return None;
    }
    let m = match digits_magnitude(s, start, n) {
        Some(m) => m,
        None => return None,
    };
    proof {
        assert(c0 == s@[0]);
        lemma_digits_nonneg(s@.subrange(start as int, n as int));
    }
    if neg {
        if m <= 0x8000_0000_0000_0000 {
            Some((0 - (m as i128)) as i64)
        } else {
            None
        }
    } else if m <= 0x7FFF_FFFF_FFFF_FFFF {
        Some(m as i64)
    } else {
        None
    }
}

/// Whether `a` and `b` hold the same characters.
pub fn same_text(a: &str, b: &str) -> (r: bool)
    ensures
        r == (a@ == b@),
{
    let n = a.unicode_len();
    let m = b.unicode_len();
    if n != m {
        return false;
    }
    let r = matches_at(a, 0, n, b, m);
    proof {
        assert(a@.subrange(0, n as int) == a@);
    }
    r
}

} // verus!
