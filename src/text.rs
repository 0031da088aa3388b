//! Character-level helpers: decimal rendering and parsing, whitespace,
//! ASCII case folding.
use vstd::prelude::*;

verus! {

/// The character of a decimal digit.
pub open spec fn digit_char(d: nat) -> char {
    if d == 0 {
        '0'
    } else if d == 1 {
        '1'
    } else if d == 2 {
        '2'
    } else if d == 3 {
        '3'
    } else if d == 4 {
        '4'
    } else if d == 5 {
        '5'
    } else if d == 6 {
        '6'
    } else if d == 7 {
        '7'
    } else if d == 8 {
        '8'
    } else {
        '9'
    }
}

/// Decimal rendering of a natural number, without leading zeros.
pub open spec fn dec(n: nat) -> Seq<char>
    decreases n,
{
    if n < 10 {
        seq![digit_char(n)]
    } else {
        dec(n / 10) + seq![digit_char(n % 10)]
    }
}

pub open spec fn pow10(k: nat) -> nat
    decreases k,
{
    if k == 0 {
        1
    } else {
        10 * pow10((k - 1) as nat)
    }
}

/// Decimal rendering left-padded with zeros to at least `width` digits.
pub open spec fn zpad(n: nat, width: nat) -> Seq<char>
    decreases width,
{
    if width <= 1 || n >= pow10((width - 1) as nat) {
        dec(n)
    } else {
        seq!['0'] + zpad(n, (width - 1) as nat)
    }
}

pub open spec fn is_digit(c: char) -> bool {
    '0' <= c && c <= '9'
}

pub open spec fn digit_value(c: char) -> nat {
    (c as u32 - '0' as u32) as nat
}

/// Value of a sequence of decimal digits (most significant first).
pub open spec fn digits_value(s: Seq<char>) -> nat
    decreases s.len(),
{
    if s.len() == 0 {
        0
    } else {
        digits_value(s.drop_last()) * 10 + digit_value(s.last())
    }
}

pub open spec fn all_digits(s: Seq<char>) -> bool {
    forall|i: int| 0 <= i < s.len() ==> is_digit(#[trigger] s[i])
}

/// What `u64::from_str` accepts: an optional `+`, then one or more
/// decimal digits whose value fits in 64 bits.
pub open spec fn parse_u64_spec(s: Seq<char>) -> Option<u64> {
    let body = if s.len() > 0 && s[0] == '+' {
        s.drop_first()
    } else {
        s
    };
    if body.len() > 0 && all_digits(body) && digits_value(body) <= u64::MAX {
        Some(digits_value(body) as u64)
    } else {
        None
    }
}

/// The characters that `char::is_whitespace` accepts (Unicode White_Space).
pub open spec fn is_space(c: char) -> bool {
    let u = c as u32;
    (0x09 <= u && u <= 0x0d) || u == 0x20 || u == 0x85 || u == 0xa0 || u == 0x1680 || (0x2000
        <= u && u <= 0x200a) || u == 0x2028 || u == 0x2029 || u == 0x202f || u == 0x205f || u
        == 0x3000
}

/// Code of `c` with ASCII upper-case letters folded to lower case.
pub open spec fn lower_code(c: char) -> u32 {
    if 'A' <= c && c <= 'Z' {
        (c as u32 + 32) as u32
    } else {
        c as u32
    }
}

/// Equal ignoring ASCII case (`eq_ignore_ascii_case`).
pub open spec fn ascii_ieq(a: Seq<char>, b: Seq<char>) -> bool {
    &&& a.len() == b.len()
    &&& forall|i: int| 0 <= i < a.len() ==> lower_code(#[trigger] a[i]) == lower_code(b[i])
}

/// The string literal of one decimal digit.
fn digit_str(d: u64) -> (r: &'static str)
    requires
        d < 10,
    ensures
        r@ == seq![digit_char(d as nat)],
{
    proof {
        reveal_strlit("0");
        reveal_strlit("1");
        reveal_strlit("2");
        reveal_strlit("3");
        reveal_strlit("4");
        reveal_strlit("5");
        reveal_strlit("6");
        reveal_strlit("7");
        reveal_strlit("8");
        reveal_strlit("9");
    }
    if d == 0 {
        "0"
    } else if d == 1 {
        "1"
    } else if d == 2 {
        "2"
    } else if d == 3 {
        "3"
    } else if d == 4 {
        "4"
    } else if d == 5 {
        "5"
    } else if d == 6 {
        "6"
    } else if d == 7 {
        "7"
    } else if d == 8 {
        "8"
    } else {
        "9"
    }
}

/// Appends the decimal rendering of `n`.
pub fn push_dec(s: &mut String, n: u64)
    ensures
        final(s)@ == old(s)@ + dec(n as nat),
    decreases n,
{
    if n >= 10 {
        push_dec(s, n / 10);
        s.append(digit_str(n % 10));
        proof {
            assert(final(s)@ =~= old(s)@ + dec(n as nat));
        }
    } else {
        s.append(digit_str(n));
    }
}

/// Index of the first character at or after `i` that is not whitespace.
pub open spec fn skip_space(s: Seq<char>, i: int) -> int
    decreases s.len() - i,
{
    if i >= s.len() {
        s.len() as int
    } else if is_space(s[i]) {
        skip_space(s, i + 1)
    } else {
        i
    }
}

/// End of `s[..e]` with trailing whitespace removed.
pub open spec fn skip_space_back(s: Seq<char>, e: int) -> int
    decreases e,
{
    if e <= 0 {
        0
    } else if is_space(s[e - 1]) {
        skip_space_back(s, e - 1)
    } else {
        e
    }
}

/// `s` without leading and trailing whitespace (`str::trim`).
pub open spec fn trim(s: Seq<char>) -> Seq<char> {
    let a = skip_space(s, 0);
    let e = skip_space_back(s, s.len() as int);
    if e <= a {
        Seq::empty()
    } else {
        s.subrange(a, e)
    }
}

/// Index of the first `c` at or after `i`, or the length when there is none.
pub open spec fn find_from(s: Seq<char>, c: char, i: int) -> int
    decreases s.len() - i,
{
    if i >= s.len() {
        s.len() as int
    } else if s[i] == c {
        i
    } else {
        find_from(s, c, i + 1)
    }
}

/// Index just after the last `c` before `e`, or 0 when there is none.
pub open spec fn after_last(s: Seq<char>, c: char, e: int) -> int
    decreases e,
{
    if e <= 0 {
        0
    } else if s[e - 1] == c {
        e
    } else {
        after_last(s, c, e - 1)
    }
}

pub proof fn lemma_find_from_bounds(s: Seq<char>, c: char, i: int)
    requires
        0 <= i <= s.len(),
    ensures
        i <= find_from(s, c, i) <= s.len(),
        find_from(s, c, i) < s.len() ==> s[find_from(s, c, i)] == c,
    decreases s.len() - i,
{
    if i < s.len() && s[i] != c {
        lemma_find_from_bounds(s, c, i + 1);
    }
}

pub proof fn lemma_after_last_bounds(s: Seq<char>, c: char, e: int)
    requires
        0 <= e <= s.len(),
    ensures
        0 <= after_last(s, c, e) <= e,
    decreases e,
{
    if e > 0 && s[e - 1] != c {
        lemma_after_last_bounds(s, c, e - 1);
    }
}

/// The characters of `s`.
pub fn chars_of(s: &str) -> (r: Vec<char>)
    ensures
        r@ == s@,
{
    let n = s.unicode_len();
    let mut out: Vec<char> = Vec::new();
    let mut i: usize = 0;
    while i < n
        invariant
            n == s@.len(),
            i <= n,
            out@ == s@.subrange(0, i as int),
        decreases n - i,
    {
        out.push(s.get_char(i));
        proof {
            assert(out@ =~= s@.subrange(0, i + 1));
        }
        i = i + 1;
    }
    proof {
        assert(out@ =~= s@);
    }
    out
}

pub fn is_space_exec(c: char) -> (r: bool)
    ensures
        r == is_space(c),
{
    let u = c as u32;
    (0x09 <= u && u <= 0x0d) || u == 0x20 || u == 0x85 || u == 0xa0 || u == 0x1680 || (0x2000 <= u
        && u <= 0x200a) || u == 0x2028 || u == 0x2029 || u == 0x202f || u == 0x205f || u == 0x3000
}

/// Bounds of `v[a..e]` with surrounding whitespace removed, as in `trim`.
pub fn trim_bounds(v: &[char]) -> (r: (usize, usize))
    ensures
        r.0 <= r.1 <= v@.len(),
        v@.subrange(r.0 as int, r.1 as int) == trim(v@),
{
    let n = v.len();
    let mut a: usize = 0;
    while a < n && is_space_exec(v[a])
        invariant
            a <= n == v@.len(),
            skip_space(v@, 0) == skip_space(v@, a as int),
        decreases n - a,
    {
        a = a + 1;
    }
    let mut e: usize = n;
    while e > 0 && is_space_exec(v[e - 1])
        invariant
            e <= n == v@.len(),
            skip_space_back(v@, n as int) == skip_space_back(v@, e as int),
        decreases e,
    {
        e = e - 1;
    }
    if e <= a {
        (a, a)
    } else {
        (a, e)
    }
}

/// First index of `c` in `v[i..]`, or the length.
pub fn find_char(v: &[char], c: char, i: usize) -> (r: usize)
    requires
        i <= v@.len(),
    ensures
        r == find_from(v@, c, i as int),
        i <= r <= v@.len(),
{
    proof {
        lemma_find_from_bounds(v@, c, i as int);
    }
    let mut j = i;
    while j < v.len() && v[j] != c
        invariant
            i <= j <= v@.len(),
            find_from(v@, c, i as int) == find_from(v@, c, j as int),
        decreases v@.len() - j,
    {
        j = j + 1;
    }
    j
}

/// Index just after the last `c` in `v[..e]`, or 0.
pub fn after_last_char(v: &[char], c: char, e: usize) -> (r: usize)
    requires
        e <= v@.len(),
    ensures
        r == after_last(v@, c, e as int),
        r <= e,
{
    proof {
        lemma_after_last_bounds(v@, c, e as int);
    }
    let mut j = e;
    while j > 0 && v[j - 1] != c
        invariant
            j <= e <= v@.len(),
            after_last(v@, c, e as int) == after_last(v@, c, j as int),
        decreases j,
    {
        j = j - 1;
    }
    j
}

/// Whether `v` starts with the characters of `p`.
pub fn starts_with_at(v: &[char], p: &[char]) -> (r: bool)
    ensures
        r == (p@.len() <= v@.len() && v@.subrange(0, p@.len() as int) == p@),
{
    if p.len() > v.len() {
        return false;
    }
    let mut i: usize = 0;
    while i < p.len()
        invariant
            i <= p@.len() <= v@.len(),
            v@.subrange(0, i as int) == p@.subrange(0, i as int),
        decreases p@.len() - i,
    {
        if v[i] != p[i] {
            proof {
                assert(v@.subrange(0, p@.len() as int)[i as int] != p@[i as int]);
            }
            return false;
        }
        proof {
            assert(v@.subrange(0, i + 1) =~= v@.subrange(0, i as int).push(v@[i as int]));
            assert(p@.subrange(0, i + 1) =~= p@.subrange(0, i as int).push(p@[i as int]));
        }
        i = i + 1;
    }
    proof {
        assert(p@.subrange(0, i as int) =~= p@);
    }
    true
}

/// Whether `c` occurs in `v`.
pub fn contains_char(v: &[char], c: char) -> (r: bool)
    ensures
        r == v@.contains(c),
{
    let j = find_char(v, c, 0);
    proof {
        lemma_find_from_bounds(v@, c, 0);
        if j < v@.len() {
            assert(v@[j as int] == c);
        }
        if j == v@.len() {
            assert forall|k: int| 0 <= k < v@.len() implies v@[k] != c by {
                lemma_find_from_none(v@, c, 0, k);
            }
        }
    }
    j < v.len()
}

proof fn lemma_find_from_none(s: Seq<char>, c: char, i: int, k: int)
    requires
        0 <= i <= k < s.len(),
        find_from(s, c, i) == s.len(),
    ensures
        s[k] != c,
    decreases k - i,
{
    if i < k {
        lemma_find_from_none(s, c, i + 1, k);
    }
}

pub proof fn lemma_digits_value_push(s: Seq<char>, c: char)
    ensures
        digits_value(s.push(c)) == digits_value(s) * 10 + digit_value(c),
{
    assert(s.push(c).drop_last() =~= s);
}

/// Parses `v[a..b]` as `u64::from_str` does.
pub fn parse_u64_at(v: &[char], a: usize, b: usize) -> (r: Option<u64>)
    requires
        a <= b <= v@.len(),
    ensures
        r == parse_u64_spec(v@.subrange(a as int, b as int)),
{
    let ghost s = v@.subrange(a as int, b as int);
    let mut i = a;
    if i < b && v[i] == '+' {
        i = i + 1;
    }
    let start = i;
    let ghost body = v@.subrange(start as int, b as int);
    proof {
        if a < b && v@[a as int] == '+' {
            assert(body =~= s.drop_first());
        } else {
            assert(body =~= s);
        }
    }
    if start == b {
        return None;
    }
    let mut acc: u64 = 0;
    let mut big = false;
    while i < b
        invariant
            start <= i <= b <= v@.len(),
            a <= start,
            body == v@.subrange(start as int, b as int),
            s == v@.subrange(a as int, b as int),
            (a < b && v@[a as int] == '+') ==> body == s.drop_first(),
            !(a < b && v@[a as int] == '+') ==> body == s,
            all_digits(v@.subrange(start as int, i as int)),
            !big ==> acc == digits_value(v@.subrange(start as int, i as int)),
            big ==> digits_value(v@.subrange(start as int, i as int)) > u64::MAX,
        decreases b - i,
    {
        let c = v[i];
        if !('0' <= c && c <= '9') {
            proof {
                    assert(body[i - start] == c);
                assert(!is_digit(body[i - start]));
                assert(!all_digits(body));
            }
            return None;
        }
        let d = (c as u32 - '0' as u32) as u64;
        proof {
            lemma_digits_value_push(v@.subrange(start as int, i as int), c);
            assert(v@.subrange(start as int, i + 1) =~= v@.subrange(start as int, i as int).push(c));
        }
        if !big {
            if acc > (u64::MAX - d) / 10 {
                big = true;
            } else {
                acc = acc * 10 + d;
            }
        }
        i = i + 1;
    }
    proof {
        assert(v@.subrange(start as int, i as int) =~= body);
    }
    if big {
        None
    } else {
        Some(acc)
    }
}

fn lower_code_exec(c: char) -> (r: u32)
    ensures
        r == lower_code(c),
{
    if 'A' <= c && c <= 'Z' {
        c as u32 + 32
    } else {
        c as u32
    }
}

/// Whether `a` equals `b` ignoring ASCII case.
pub fn ascii_ieq_exec(a: &[char], b: &[char]) -> (r: bool)
    ensures
        r == ascii_ieq(a@, b@),
{
    if a.len() != b.len() {
        return false;
    }
    let mut i: usize = 0;
    while i < a.len()
        invariant
            i <= a@.len() == b@.len(),
            forall|j: int| 0 <= j < i ==> lower_code(#[trigger] a@[j]) == lower_code(b@[j]),
        decreases a@.len() - i,
    {
        if lower_code_exec(a[i]) != lower_code_exec(b[i]) {
            return false;
        }
        i = i + 1;
    }
    true
}

/// Whether the characters of `a` and `b` are the same.
pub fn chars_eq(a: &[char], b: &[char]) -> (r: bool)
    ensures
        r == (a@ == b@),
{
    if a.len() != b.len() {
        return false;
    }
    let mut i: usize = 0;
    while i < a.len()
        invariant
            i <= a@.len() == b@.len(),
            forall|j: int| 0 <= j < i ==> a@[j] == b@[j],
        decreases a@.len() - i,
    {
        if a[i] != b[i] {
            return false;
        }
        i = i + 1;
    }
    proof {
        assert(a@ =~= b@);
    }
    true
}

fn pow10_exec(k: u32) -> (r: u64)
    requires
        k <= 6,
    ensures
        r == pow10(k as nat),
{
    proof {
        reveal_with_fuel(pow10, 7);
    }
    if k == 0 {
        1
    } else if k == 1 {
        10
    } else if k == 2 {
        100
    } else if k == 3 {
        1000
    } else if k == 4 {
        10000
    } else if k == 5 {
        100000
    } else {
        1000000
    }
}

/// Appends `n` in decimal, left-padded with zeros to `width` digits.
pub fn push_zpad(s: &mut String, n: u64, width: u32)
    requires
        width <= 7,
    ensures
        final(s)@ == old(s)@ + zpad(n as nat, width as nat),
    decreases width,
{
    if width <= 1 || n >= pow10_exec(width - 1) {
        push_dec(s, n);
    } else {
        s.append("0");
        proof {
            reveal_strlit("0");
        }
        let ghost mid = s@;
        push_zpad(s, n, width - 1);
        proof {
            assert(final(s)@ =~= old(s)@ + zpad(n as nat, width as nat));
        }
    }
}

/// `s` without one leading `+`.
pub open spec fn strip_plus(s: Seq<char>) -> Seq<char> {
    if s.len() > 0 && s[0] == '+' {
        s.drop_first()
    } else {
        s
    }
}

/// The first six fraction digits, padded with zeros.
pub open spec fn pad6(f: Seq<char>) -> Seq<char> {
    Seq::new(6, |j: int| if j < f.len() { f[j] } else { '0' })
}

/// Value of the first six fraction digits, in millionths.
pub open spec fn micro_fraction(f: Seq<char>) -> nat {
    digits_value(pad6(f))
}

/// A decimal number `digits[.digits]` (optional `+`, at least one digit)
/// in millionths, digits past the sixth decimal dropped; `None` when it is
/// malformed or too large.
pub open spec fn decimal_micros(s: Seq<char>) -> Option<u64> {
    let b = strip_plus(s);
    let d = find_from(b, '.', 0);
    let ip = b.subrange(0, d);
    let fp = if d < b.len() {
        b.subrange(d + 1, b.len() as int)
    } else {
        Seq::empty()
    };
    let v = digits_value(ip) * 1000000 + micro_fraction(fp);
    if all_digits(ip) && all_digits(fp) && ip.len() + fp.len() > 0 && v <= u64::MAX {
        Some(v as u64)
    } else {
        None
    }
}

/// Value of `v[a..b]` when it is all digits and fits in 64 bits (0 when
/// empty).
pub fn parse_digits_at(v: &[char], a: usize, b: usize) -> (r: Option<u64>)
    requires
        a <= b <= v@.len(),
    ensures
        r == if all_digits(v@.subrange(a as int, b as int)) && digits_value(
            v@.subrange(a as int, b as int),
        ) <= u64::MAX {
            Some(digits_value(v@.subrange(a as int, b as int)) as u64)
        } else {
            None::<u64>
        },
{
    let ghost body = v@.subrange(a as int, b as int);
    let mut acc: u64 = 0;
    let mut big = false;
    let mut i = a;
    while i < b
        invariant
            a <= i <= b <= v@.len(),
            body == v@.subrange(a as int, b as int),
            all_digits(v@.subrange(a as int, i as int)),
            !big ==> acc == digits_value(v@.subrange(a as int, i as int)),
            big ==> digits_value(v@.subrange(a as int, i as int)) > u64::MAX,
        decreases b - i,
    {
        let c = v[i];
        if !('0' <= c && c <= '9') {
            proof {
                assert(body[i - a] == c);
                assert(!is_digit(body[i - a]));
            }
            return None;
        }
        let d = (c as u32 - '0' as u32) as u64;
        proof {
            lemma_digits_value_push(v@.subrange(a as int, i as int), c);
            assert(v@.subrange(a as int, i + 1) =~= v@.subrange(a as int, i as int).push(c));
        }
        if !big {
            if acc > (u64::MAX - d) / 10 {
                big = true;
            } else {
                acc = acc * 10 + d;
            }
        }
        i = i + 1;
    }
    proof {
        assert(v@.subrange(a as int, i as int) =~= body);
    }
    if big {
        None
    } else {
        Some(acc)
    }
}

proof fn lemma_digits_value_bound(s: Seq<char>)
    requires
        all_digits(s),
    ensures
        digits_value(s) < pow10(s.len()),
    decreases s.len(),
{
    if s.len() > 0 {
        lemma_digits_value_bound(s.drop_last());
        assert(is_digit(s.last()));
    }
}

/// The fraction digits `v[a..b]` in millionths, when they are all digits.
fn fraction_micros(v: &[char], a: usize, b: usize) -> (r: Option<u64>)
    requires
        a <= b <= v@.len(),
    ensures
        r == if all_digits(v@.subrange(a as int, b as int)) {
            Some(micro_fraction(v@.subrange(a as int, b as int)) as u64)
        } else {
            None::<u64>
        },
        r matches Some(x) ==> x < 1000000,
        all_digits(v@.subrange(a as int, b as int)) ==> micro_fraction(v@.subrange(a as int, b as int)) < 1000000,
{
    if !parse_digits_at_any(v, a, b) {
        return None;
    }
    let ghost f = v@.subrange(a as int, b as int);
    let ghost p = pad6(f);
    let mut acc: u64 = 0;
    let mut j: usize = 0;
    while j < 6
        invariant
            j <= 6,
            a <= b <= v@.len(),
            f == v@.subrange(a as int, b as int),
            p == pad6(f),
            all_digits(f),
            acc == digits_value(p.subrange(0, j as int)),
            acc < pow10(j as nat),
        decreases 6 - j,
    {
        let c = if j < b - a {
            v[a + j]
        } else {
            '0'
        };
        proof {
            assert(p[j as int] == c);
            if j < b - a {
                assert(is_digit(f[j as int]));
            }
            lemma_digits_value_push(p.subrange(0, j as int), c);
            assert(p.subrange(0, j + 1) =~= p.subrange(0, j as int).push(c));
            reveal_with_fuel(pow10, 7);
        }
        let d = (c as u32 - '0' as u32) as u64;
        acc = acc * 10 + d;
        j = j + 1;
    }
    proof {
        assert(p.subrange(0, 6) =~= p);
        reveal_with_fuel(pow10, 7);
    }
    Some(acc)
}

/// Parses `v[a..b]` as a decimal number in millionths.
pub fn parse_decimal_micros_at(v: &[char], a: usize, b: usize) -> (r: Option<u64>)
    requires
        a <= b <= v@.len(),
    ensures
        r == decimal_micros(v@.subrange(a as int, b as int)),
{
    let ghost s = v@.subrange(a as int, b as int);
    let mut st = a;
    if st < b && v[st] == '+' {
        st = st + 1;
    }
    let ghost body = v@.subrange(st as int, b as int);
    proof {
        if a < b && v@[a as int] == '+' {
            assert(body =~= s.drop_first());
        } else {
            assert(body =~= s);
        }
        assert(body == strip_plus(s));
    }
    let d = find_char(v, '.', st);
    proof {
        lemma_find_from_shift(v@, st as int, b as int, d as int);
    }
    let ie = if d < b {
        d
    } else {
        b
    };
    let fa = if d < b {
        d + 1
    } else {
        b
    };
    proof {
        assert(v@.subrange(st as int, ie as int) =~= body.subrange(0, find_from(body, '.', 0)));
        if d < b {
            assert(v@.subrange(fa as int, b as int) =~= body.subrange(
                find_from(body, '.', 0) + 1,
                body.len() as int,
            ));
        } else {
            assert(v@.subrange(fa as int, b as int) =~= Seq::<char>::empty());
        }
    }
    if ie - st + (b - fa) == 0 {
        return None;
    }
    let int_part = parse_digits_at(v, st, ie);
    let frac = fraction_micros(v, fa, b);
    let ghost ip = v@.subrange(st as int, ie as int);
    let ghost fp = v@.subrange(fa as int, b as int);
    proof {
        let dd = find_from(body, '.', 0);
        assert((d < b) == (dd < body.len()));
        let fp2 = if dd < body.len() {
            body.subrange(dd + 1, body.len() as int)
        } else {
            Seq::<char>::empty()
        };
        assert(fp == fp2);
        assert(ip == body.subrange(0, dd));
        assert(ip.len() + fp.len() > 0);
    }
    match (int_part, frac) {
        (Some(ipv), Some(fr)) => {
            if ipv > (u64::MAX - fr) / 1000000 {
                proof {
                    assert(ipv * 1000000 + fr > u64::MAX) by (nonlinear_arith)
                        requires
                            ipv > (u64::MAX - fr) / 1000000,
                            fr < 1000000,
                    ;
                    assert(decimal_micros(s) == None::<u64>);
                }
                None
            } else {
                proof {
                    assert(ipv * 1000000 + fr <= u64::MAX) by (nonlinear_arith)
                        requires
                            ipv <= (u64::MAX - fr) / 1000000,
                            fr < 1000000,
                    ;
                    assert(decimal_micros(s) == Some((ipv * 1000000 + fr) as u64));
                }
                Some(ipv * 1000000 + fr)
            }
        },
        _ => {
            proof {
                if all_digits(ip) && all_digits(fp) {
                    assert(digits_value(ip) > u64::MAX);
                    assert(digits_value(ip) * 1000000 + micro_fraction(fp) > u64::MAX) by (nonlinear_arith)
                        requires
                            digits_value(ip) > u64::MAX,
                    ;
                }
            }
            None
        },
    }
}

/// Whether `v[a..b]` is all digits.
pub fn parse_digits_at_any(v: &[char], a: usize, b: usize) -> (r: bool)
    requires
        a <= b <= v@.len(),
    ensures
        r == all_digits(v@.subrange(a as int, b as int)),
{
    let mut i = a;
    while i < b
        invariant
            a <= i <= b <= v@.len(),
            all_digits(v@.subrange(a as int, i as int)),
        decreases b - i,
    {
        let c = v[i];
        if !('0' <= c && c <= '9') {
            proof {
                assert(v@.subrange(a as int, b as int)[i - a] == c);
            }
            return false;
        }
        proof {
            assert(v@.subrange(a as int, i + 1) =~= v@.subrange(a as int, i as int).push(c));
        }
        i = i + 1;
    }
    true
}

/// `find_from` on a slice of `s` starting at `a` agrees with `find_from` on
/// `s` itself, shifted.
pub proof fn lemma_find_from_shift(s: Seq<char>, a: int, b: int, d: int)
    requires
        0 <= a <= b <= s.len(),
        d == find_from(s, '.', a),
    ensures
        (if d < b { d } else { b }) - a == find_from(s.subrange(a, b), '.', 0),
{
    lemma_find_shift_from(s, a, b, a);
}

proof fn lemma_find_shift_from(s: Seq<char>, a: int, b: int, i: int)
    requires
        0 <= a <= i <= b <= s.len(),
    ensures
        ({
            let d = find_from(s, '.', i);
            (if d < b { d } else { b }) - a == find_from(s.subrange(a, b), '.', i - a)
        }),
    decreases b - i,
{
    lemma_find_from_bounds(s, '.', i);
    if i < b && s[i] != '.' {
        lemma_find_shift_from(s, a, b, i + 1);
    }
}

} // verus!
