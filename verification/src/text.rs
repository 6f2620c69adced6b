//! Character and string helpers shared by the salvage planner and the lab.
use vstd::prelude::*;
use vstd::string::*;

verus! {

/// The characters that a path component may keep unchanged.
pub open spec fn is_safe_component_char(c: char) -> bool {
    ('a' <= c <= 'z') || ('A' <= c <= 'Z') || ('0' <= c <= '9') || c == '-' || c == '_' || c == '.'
}

/// Replaces every unsafe character of a path component by `_`.
pub open spec fn sanitize_chars(s: Seq<char>) -> Seq<char> {
    Seq::new(s.len(), |i: int| if is_safe_component_char(s[i]) { s[i] } else { '_' })
}

/// What `sanitize_component` returns: the sanitized characters, or `_` when there are none.
pub open spec fn spec_sanitize_component(s: Seq<char>) -> Seq<char> {
    if s.len() == 0 { seq!['_'] } else { sanitize_chars(s) }
}

/// Appends one character to a string by calling `String::push`. Trusted:
/// the string afterwards holds its former characters followed by `c`, as
/// std documents for `push`.
#[verifier::external_body]
pub(crate) fn push_char(s: &mut String, c: char)
    ensures
        final(s)@ == old(s)@.push(c),
{
    s.push(c);
}

/// Whether `c` is an ASCII letter or digit, or one of `-`, `_`, `.`.
pub fn is_safe_component_char_exec(c: char) -> (r: bool)
    ensures
        r == is_safe_component_char(c),
{
    ('a' <= c && c <= 'z') || ('A' <= c && c <= 'Z') || ('0' <= c && c <= '9') || c == '-' || c
        == '_' || c == '.'
}

/// Makes a string safe to use as one path component: every character other
/// than an ASCII letter, digit, `-`, `_` or `.` becomes `_`, and an empty
/// input becomes `_`.
pub fn sanitize_component(value: &str) -> (out: String)
    ensures
        out@ == spec_sanitize_component(value@),
{
    let n = value.unicode_len();
    let mut out = String::new();
    let mut i: usize = 0;
    while i < n
        invariant
            n == value@.len(),
            i <= n,
            out@ == sanitize_chars(value@.subrange(0, i as int)),
        decreases n - i,
    {
        let ch = value.get_char(i);
        if is_safe_component_char_exec(ch) {
            push_char(&mut out, ch);
        } else {
            push_char(&mut out, '_');
        }
        assert(sanitize_chars(value@.subrange(0, i + 1)) =~= sanitize_chars(
            value@.subrange(0, i as int),
        ).push(if is_safe_component_char(ch) { ch } else { '_' }));
        i = i + 1;
    }
    assert(value@.subrange(0, n as int) =~= value@);
    if n == 0 {
        let mut u = String::new();
        push_char(&mut u, '_');
        assert(u@ =~= seq!['_']);
        u
    } else {
        out
    }
}

/// Whether two strings hold the same characters.
pub fn str_equals(a: &str, b: &str) -> (r: bool)
    ensures
        r == (a@ == b@),
{
    let n = a.unicode_len();
    let m = b.unicode_len();
    if n != m {
        return false;
    }
    let mut i: usize = 0;
    while i < n
        invariant
            n == a@.len(),
            m == b@.len(),
            n == m,
            i <= n,
            a@.subrange(0, i as int) =~= b@.subrange(0, i as int),
        decreases n - i,
    {
        if a.get_char(i) != b.get_char(i) {
            assert(a@[i as int] != b@[i as int]);
            return false;
        }
        assert(a@.subrange(0, i + 1) =~= a@.subrange(0, i as int).push(a@[i as int]));
        assert(b@.subrange(0, i + 1) =~= b@.subrange(0, i as int).push(b@[i as int]));
        i = i + 1;
    }
    assert(a@ =~= a@.subrange(0, n as int));
    assert(b@ =~= b@.subrange(0, n as int));
    true
}

/// Whether `s` begins with `prefix`.
pub fn str_starts_with(s: &str, prefix: &str) -> (r: bool)
    ensures
        r == (prefix@.len() <= s@.len() && s@.subrange(0, prefix@.len() as int) == prefix@),
{
    let n = s.unicode_len();
    let m = prefix.unicode_len();
    if m > n {
        return false;
    }
    let mut i: usize = 0;
    while i < m
        invariant
            n == s@.len(),
            m == prefix@.len(),
            m <= n,
            i <= m,
            s@.subrange(0, i as int) =~= prefix@.subrange(0, i as int),
        decreases m - i,
    {
        if s.get_char(i) != prefix.get_char(i) {
            assert(s@.subrange(0, m as int)[i as int] != prefix@[i as int]);
            return false;
        }
        assert(s@.subrange(0, i + 1) =~= s@.subrange(0, i as int).push(s@[i as int]));
        assert(prefix@.subrange(0, i + 1) =~= prefix@.subrange(0, i as int).push(
            prefix@[i as int],
        ));
        i = i + 1;
    }
    assert(prefix@ =~= prefix@.subrange(0, m as int));
    true
}

/// Appends all characters of `t` to `s`.
pub fn push_str(s: &mut String, t: &str)
    ensures
        final(s)@ == old(s)@ + t@,
{
    s.append(t);
}

/// Lexicographic order of character sequences by code point, which is the
/// order of `String`'s `Ord` (UTF-8 byte order agrees with code point order).
pub open spec fn chars_lt(a: Seq<char>, b: Seq<char>) -> bool
    decreases a.len(),
{
    if a.len() == 0 {
        b.len() > 0
    } else if b.len() == 0 {
        false
    } else if a[0] != b[0] {
        (a[0] as int) < (b[0] as int)
    } else {
        chars_lt(a.drop_first(), b.drop_first())
    }
}

/// `a` comes before `b` or equals it.
pub open spec fn chars_le(a: Seq<char>, b: Seq<char>) -> bool {
    chars_lt(a, b) || a == b
}

/// No sequence comes before itself.
pub proof fn lemma_chars_lt_irreflexive(a: Seq<char>)
    ensures
        !chars_lt(a, a),
    decreases a.len(),
{
    if a.len() > 0 {
        lemma_chars_lt_irreflexive(a.drop_first());
    }
}

/// Of two different sequences, one comes before the other.
pub proof fn lemma_chars_lt_total(a: Seq<char>, b: Seq<char>)
    ensures
        a == b || chars_lt(a, b) || chars_lt(b, a),
    decreases a.len(),
{
    if a.len() > 0 && b.len() > 0 && a[0] == b[0] {
        lemma_chars_lt_total(a.drop_first(), b.drop_first());
        if a.drop_first() == b.drop_first() {
            assert(a =~= seq![a[0]] + a.drop_first());
            assert(b =~= seq![b[0]] + b.drop_first());
        }
    } else if a.len() == 0 && b.len() == 0 {
        assert(a =~= b);
    } else if a.len() > 0 && b.len() > 0 {
        assert((a[0] as int) != (b[0] as int));
    }
}

/// Two sequences cannot each come before the other.
pub proof fn lemma_chars_lt_asymmetric(a: Seq<char>, b: Seq<char>)
    ensures
        !(chars_lt(a, b) && chars_lt(b, a)),
    decreases a.len(),
{
    if a.len() > 0 && b.len() > 0 && a[0] == b[0] {
        lemma_chars_lt_asymmetric(a.drop_first(), b.drop_first());
    }
}

/// The order is transitive.
pub proof fn lemma_chars_lt_transitive(a: Seq<char>, b: Seq<char>, c: Seq<char>)
    requires
        chars_lt(a, b),
        chars_lt(b, c),
    ensures
        chars_lt(a, c),
    decreases a.len(),
{
    if a.len() > 0 && b.len() > 0 && c.len() > 0 && a[0] == b[0] && b[0] == c[0] {
        lemma_chars_lt_transitive(a.drop_first(), b.drop_first(), c.drop_first());
    }
}

proof fn lemma_chars_lt_skip(a: Seq<char>, b: Seq<char>, i: int)
    requires
        0 <= i <= a.len(),
        i <= b.len(),
        a.subrange(0, i) == b.subrange(0, i),
    ensures
        chars_lt(a, b) == chars_lt(a.subrange(i, a.len() as int), b.subrange(i, b.len() as int)),
    decreases i,
{
    if i > 0 {
        assert(a[0] == a.subrange(0, i)[0]);
        assert(b[0] == b.subrange(0, i)[0]);
        assert(a.drop_first().subrange(0, i - 1) =~= a.subrange(0, i).drop_first());
        assert(b.drop_first().subrange(0, i - 1) =~= b.subrange(0, i).drop_first());
        lemma_chars_lt_skip(a.drop_first(), b.drop_first(), i - 1);
        assert(a.drop_first().subrange(i - 1, a.len() - 1) =~= a.subrange(i, a.len() as int));
        assert(b.drop_first().subrange(i - 1, b.len() - 1) =~= b.subrange(i, b.len() as int));
    } else {
        assert(a.subrange(0, a.len() as int) =~= a);
        assert(b.subrange(0, b.len() as int) =~= b);
    }
}

/// Whether `a` comes strictly before `b` in `String` order.
pub fn str_lt(a: &str, b: &str) -> (r: bool)
    ensures
        r == chars_lt(a@, b@),
{
    let n = a.unicode_len();
    let m = b.unicode_len();
    let mut i: usize = 0;
    while i < n && i < m
        invariant
            n == a@.len(),
            m == b@.len(),
            i <= n,
            i <= m,
            a@.subrange(0, i as int) =~= b@.subrange(0, i as int),
        decreases n - i,
    {
        let ca = a.get_char(i);
        let cb = b.get_char(i);
        if ca != cb {
            proof {
                lemma_chars_lt_skip(a@, b@, i as int);
                let sa = a@.subrange(i as int, n as int);
                let sb = b@.subrange(i as int, m as int);
                assert(sa[0] == ca && sb[0] == cb);
            }
            return ca < cb;
        }
        assert(a@.subrange(0, i + 1) =~= a@.subrange(0, i as int).push(a@[i as int]));
        assert(b@.subrange(0, i + 1) =~= b@.subrange(0, i as int).push(b@[i as int]));
        i = i + 1;
    }
    proof {
        lemma_chars_lt_skip(a@, b@, i as int);
    }
    i == n && i < m
}

/// The decimal digit of `d` (`d < 10`).
pub open spec fn digit_char(d: nat) -> char {
    ((d + 48) as u8) as char
}

/// The decimal rendering of `n`, without leading zeros (`0` for zero).
pub open spec fn decimal(n: nat) -> Seq<char>
    decreases n,
{
    if n < 10 {
        seq![digit_char(n)]
    } else {
        decimal(n / 10).push(digit_char(n % 10))
    }
}

/// `s` left-padded with `0` up to `width` characters.
pub open spec fn zero_pad(s: Seq<char>, width: nat) -> Seq<char> {
    if s.len() >= width {
        s
    } else {
        Seq::new((width - s.len()) as nat, |i: int| '0') + s
    }
}

/// The decimal rendering of an unsigned integer (what `{}` prints).
pub fn u64_to_decimal(n: u64) -> (r: String)
    ensures
        r@ == decimal(n as nat),
{
    let mut digits: Vec<char> = Vec::new();
    let mut m: u64 = n;
    let ghost mut acc: Seq<char> = seq![];
    // digits holds the rendering of n % 10^k in reverse, m == n / 10^k
    while m >= 10
        invariant
            m <= n,
            decimal(n as nat) == decimal(m as nat) + acc,
            digits@ == acc.reverse(),
            m > 0 || acc.len() > 0 || n == 0,
        decreases m,
    {
        let d = (m % 10) as u8;
        let c = ((d + 48) as char);
        digits.push(c);
        proof {
            assert(decimal(m as nat) == decimal((m / 10) as nat).push(digit_char((m % 10) as nat)));
            assert(c == digit_char((m % 10) as nat));
            assert(decimal((m / 10) as nat) + acc.insert(0, c) =~= decimal((m / 10) as nat).push(c) + acc);
            assert(acc.insert(0, c).reverse() =~= acc.reverse().push(c));
            acc = acc.insert(0, c);
        }
        m = m / 10;
    }
    let d = m as u8;
    let c = ((d + 48) as char);
    digits.push(c);
    proof {
        assert(decimal(m as nat) == seq![digit_char(m as nat)]);
        assert(c == digit_char(m as nat));
        assert(seq![c] + acc =~= acc.insert(0, c));
        assert(acc.insert(0, c).reverse() =~= acc.reverse().push(c));
        acc = acc.insert(0, c);
    }
    let mut out = String::new();
    let mut i: usize = digits.len();
    while i > 0
        invariant
            i <= digits@.len(),
            digits@ == acc.reverse(),
            out@ == acc.subrange(0, (digits@.len() - i) as int),
            acc.len() == digits@.len(),
        decreases i,
    {
        i = i - 1;
        push_char(&mut out, digits[i]);
        proof {
            let k = (digits@.len() - i - 1) as int;
            assert(digits@[i as int] == acc[k]);
            assert(acc.subrange(0, k + 1) =~= acc.subrange(0, k).push(acc[k]));
        }
    }
    proof {
        assert(acc.subrange(0, acc.len() as int) =~= acc);
    }
    out
}

/// Left-pads a string with `0` to at least `width` characters (what
/// `{:0width}` does to a number's digits).
pub fn pad_with_zeros(s: String, width: usize) -> (r: String)
    ensures
        r@ == zero_pad(s@, width as nat),
{
    let n = s.as_str().unicode_len();
    if n >= width {
        return s;
    }
    let mut out = String::new();
    let mut i: usize = 0;
    while i < width - n
        invariant
            n < width,
            n == s@.len(),
            i <= width - n,
            out@ == Seq::new(i as nat, |q: int| '0'),
        decreases width - n - i,
    {
        push_char(&mut out, '0');
        proof {
            assert(Seq::new((i + 1) as nat, |q: int| '0') =~= Seq::new(i as nat, |q: int| '0').push('0'));
        }
        i = i + 1;
    }
    push_str(&mut out, s.as_str());
    out
}


/// Every character is an ASCII digit.
pub open spec fn all_ascii_digits(s: Seq<char>) -> bool {
    forall|i: int| 0 <= i < s.len() ==> '0' <= #[trigger] s[i] <= '9'
}

/// The value of a string of ASCII digits, read in base 10.
pub open spec fn digits_value(s: Seq<char>) -> nat
    decreases s.len(),
{
    if s.len() == 0 {
        0
    } else {
        digits_value(s.drop_last()) * 10 + ((s.last() as int) - 48) as nat
    }
}

/// What `str::parse::<u32>` gives: an optional `+`, then one or more ASCII
/// digits whose value fits in 32 bits; anything else is refused.
pub open spec fn parse_u32_spec(s: Seq<char>) -> Option<u32> {
    let d = if s.len() > 0 && s[0] == '+' { s.subrange(1, s.len() as int) } else { s };
    if d.len() > 0 && all_ascii_digits(d) && digits_value(d) <= u32::MAX {
        Some(digits_value(d) as u32)
    } else {
        None
    }
}

proof fn lemma_digits_value_prefix(d: Seq<char>, k: int)
    requires
        0 <= k <= d.len(),
        all_ascii_digits(d),
    ensures
        digits_value(d.subrange(0, k)) <= digits_value(d),
    decreases d.len(),
{
    if k == d.len() {
        assert(d.subrange(0, k) =~= d);
    } else {
        lemma_digits_value_prefix(d.drop_last(), k);
        assert(d.drop_last().subrange(0, k) =~= d.subrange(0, k));
        assert('0' <= d[d.len() - 1] <= '9');
    }
}

/// Parses the characters `lo..hi` of `s` as `str::parse::<u32>` would.
pub fn parse_u32_range(s: &str, lo: usize, hi: usize) -> (r: Option<u32>)
    requires
        lo <= hi <= s@.len(),
    ensures
        r == parse_u32_spec(s@.subrange(lo as int, hi as int)),
{
    let ghost t = s@.subrange(lo as int, hi as int);
    let mut start = lo;
    if lo < hi && s.get_char(lo) == '+' {
        start = lo + 1;
    }
    let ghost d = s@.subrange(start as int, hi as int);
    proof {
        if lo < hi && t[0] == '+' {
            assert(d =~= t.subrange(1, t.len() as int));
        } else {
            assert(d =~= t);
        }
    }
    assert(parse_u32_spec(t) == (if d.len() > 0 && all_ascii_digits(d) && digits_value(d) <= u32::MAX {
        Some(digits_value(d) as u32)
    } else {
        None
    }));
    if start == hi {
        return None;
    }
    let mut acc: u64 = 0;
    let mut i = start;
    while i < hi
        invariant
            lo <= start <= i <= hi <= s@.len(),
            d == s@.subrange(start as int, hi as int),
            t == s@.subrange(lo as int, hi as int),
            parse_u32_spec(t) == (if d.len() > 0 && all_ascii_digits(d) && digits_value(d) <= u32::MAX {
                Some(digits_value(d) as u32)
            } else {
                None
            }),
            all_ascii_digits(s@.subrange(start as int, i as int)),
            acc == digits_value(s@.subrange(start as int, i as int)),
            acc <= u32::MAX,
        decreases hi - i,
    {
        let c = s.get_char(i);
        let ghost pre = s@.subrange(start as int, i as int);
        let ghost next = s@.subrange(start as int, i + 1);
        proof {
            assert(next.drop_last() =~= pre);
            assert(d.subrange(0, i - start) =~= pre);
            assert(d.subrange(0, i + 1 - start) =~= next);
        }
        if !('0' <= c && c <= '9') {
            proof {
                assert(d[i - start] == c);
                assert(!all_ascii_digits(d));
            }
            return None;
        }
        let x = (c as u32 - 48) as u64;
        acc = acc * 10 + x;
        proof {
            assert(all_ascii_digits(next));
            assert(digits_value(next) == digits_value(pre) * 10 + ((c as int) - 48) as nat);
        }
        if acc > 4294967295u64 {
            proof {
                assert(acc == digits_value(next));
                if all_ascii_digits(d) {
                    lemma_digits_value_prefix(d, i + 1 - start);
                    assert(digits_value(d) > u32::MAX);
                }
            }
            return None;
        }
        i = i + 1;
    }
    proof {
        assert(s@.subrange(start as int, i as int) =~= d);
    }
    Some(acc as u32)
}


/// The decimal rendering of a signed integer (what `{}` prints).
pub open spec fn signed_decimal(n: int) -> Seq<char> {
    if n < 0 { "-"@ + decimal((-n) as nat) } else { decimal(n as nat) }
}

/// Renders a signed integer in decimal.
pub fn i64_to_decimal(n: i64) -> (r: String)
    ensures
        r@ == signed_decimal(n as int),
{
    if n < 0 {
        let m: u64 = ((-(n + 1)) as u64) + 1;
        let mut out = String::from_str("-");
        let digits = u64_to_decimal(m);
        push_str(&mut out, digits.as_str());
        proof {
            reveal_strlit("-");
        }
        out
    } else {
        u64_to_decimal(n as u64)
    }
}


/// What `str::parse::<usize>` gives: an optional `+`, then one or more
/// ASCII digits whose value fits in `usize`; anything else is refused.
pub open spec fn parse_usize_spec(s: Seq<char>) -> Option<usize> {
    let d = if s.len() > 0 && s[0] == '+' { s.subrange(1, s.len() as int) } else { s };
    if d.len() > 0 && all_ascii_digits(d) && digits_value(d) <= usize::MAX {
        Some(digits_value(d) as usize)
    } else {
        None
    }
}

/// Parses a string as `str::parse::<usize>` would.
pub fn parse_usize(s: &str) -> (r: Option<usize>)
    ensures
        r == parse_usize_spec(s@),
{
    let n = s.unicode_len();
    let ghost t = s@;
    let mut start: usize = 0;
    if n > 0 && s.get_char(0) == '+' {
        start = 1;
    }
    let ghost d = s@.subrange(start as int, n as int);
    proof {
        if n > 0 && t[0] == '+' {
            assert(d =~= t.subrange(1, t.len() as int));
        } else {
            assert(d =~= t);
        }
    }
    assert(parse_usize_spec(t) == (if d.len() > 0 && all_ascii_digits(d) && digits_value(d) <= usize::MAX {
        Some(digits_value(d) as usize)
    } else {
        None
    }));
    if start == n {
        return None;
    }
    let mut acc: usize = 0;
    let mut i = start;
    while i < n
        invariant
            start <= i <= n,
            n == s@.len(),
            t == s@,
            d == s@.subrange(start as int, n as int),
            parse_usize_spec(t) == (if d.len() > 0 && all_ascii_digits(d) && digits_value(d) <= usize::MAX {
                Some(digits_value(d) as usize)
            } else {
                None
            }),
            all_ascii_digits(s@.subrange(start as int, i as int)),
            acc == digits_value(s@.subrange(start as int, i as int)),
        decreases n - i,
    {
        let c = s.get_char(i);
        let ghost pre = s@.subrange(start as int, i as int);
        let ghost next = s@.subrange(start as int, i + 1);
        proof {
            assert(next.drop_last() =~= pre);
            assert(d.subrange(0, i - start) =~= pre);
            assert(d.subrange(0, i + 1 - start) =~= next);
        }
        if !('0' <= c && c <= '9') {
            proof {
                assert(d[i - start] == c);
                assert(!all_ascii_digits(d));
            }
            return None;
        }
        let x = (c as u32 - 48) as usize;
        proof {
            assert(all_ascii_digits(next));
            assert(digits_value(next) == digits_value(pre) * 10 + ((c as int) - 48) as nat);
        }
        let m = match acc.checked_mul(10) {
            Some(m) => m,
            None => {
                proof {
                    assert(digits_value(next) > usize::MAX);
                    if all_ascii_digits(d) {
                        lemma_digits_value_prefix(d, i + 1 - start);
                    }
                }
                return None;
            },
        };
        acc = match m.checked_add(x) {
            Some(v) => v,
            None => {
                proof {
                    assert(digits_value(next) > usize::MAX);
                    if all_ascii_digits(d) {
                        lemma_digits_value_prefix(d, i + 1 - start);
                    }
                }
                return None;
            },
        };
        i = i + 1;
    }
    proof {
        assert(s@.subrange(start as int, i as int) =~= d);
    }
    Some(acc)
}


/// A sanitized component is never empty, keeps the length of a non-empty
/// input, and holds only safe characters: each input character is kept
/// when safe and replaced by `_` otherwise.
pub proof fn law_sanitized_component_is_safe(s: Seq<char>)
    ensures
        spec_sanitize_component(s).len() == if s.len() == 0 { 1 } else { s.len() },
        forall|i: int| 0 <= i < spec_sanitize_component(s).len() ==> is_safe_component_char(#[trigger] spec_sanitize_component(s)[i]),
        forall|i: int| 0 <= i < s.len() && is_safe_component_char(s[i]) ==> #[trigger] spec_sanitize_component(s)[i] == s[i],
{
}

} // verus!
