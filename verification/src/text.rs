//! Character-level text utilities: bridging `str`/`String` to `Vec<char>`,
//! substring search, trimming, ASCII case mapping, and decimal
//! rendering/parsing of integers. All scanning logic here is verified; the
//! only trusted item is the bridge that rebuilds a `String` from chars.

use vstd::prelude::*;

verus! {

/// Relies on `String`'s `FromIterator<char>`: collecting a sequence of chars
/// yields the string made of exactly those chars, in order.
#[verifier::external_body]
pub(crate) fn chars_to_string(cs: &Vec<char>) -> (r: String)
    ensures
        r@ == cs@,
{
    cs.iter().collect()
}

/// Collects the characters of a `str` into a vector.
pub fn str_to_chars(s: &str) -> (r: Vec<char>)
    ensures
        r@ == s@,
{
    let n = s.unicode_len();
    let mut r: Vec<char> = Vec::new();
    let mut i: usize = 0;
    while i < n
        invariant
            n == s@.len(),
            i <= n,
            r@ == s@.subrange(0, i as int),
        decreases n - i,
    {
        r.push(s.get_char(i));
        proof {
            assert(r@ =~= s@.subrange(0, i + 1));
        }
        i = i + 1;
    }
    proof {
        assert(r@ =~= s@);
    }
    r
}

/// Appends all characters of `s` to `out`.
pub fn push_str_chars(out: &mut Vec<char>, s: &str)
    ensures
        final(out)@ == old(out)@ + s@,
{
    let mut cs = str_to_chars(s);
    out.append(&mut cs);
}

/// Appends the character range `[lo, hi)` of `src` to `out`.
pub fn push_range(out: &mut Vec<char>, src: &Vec<char>, lo: usize, hi: usize)
    requires
        lo <= hi <= src@.len(),
    ensures
        final(out)@ == old(out)@ + src@.subrange(lo as int, hi as int),
{
    let mut i: usize = lo;
    while i < hi
        invariant
            lo <= i <= hi <= src@.len(),
            out@ == old(out)@ + src@.subrange(lo as int, i as int),
        decreases hi - i,
    {
        out.push(src[i]);
        proof {
            assert(old(out)@ + src@.subrange(lo as int, i + 1) =~= (old(out)@ + src@.subrange(
                lo as int,
                i as int,
            )).push(src@[i as int]));
        }
        i = i + 1;
    }
}

/// Compares two character vectors for equality of their contents.
pub fn chars_eq(a: &Vec<char>, b: &Vec<char>) -> (r: bool)
    ensures
        r <==> a@ == b@,
{
    if a.len() != b.len() {
        return false;
    }
    let n = a.len();
    let mut i: usize = 0;
    while i < n
        invariant
            n == a@.len() == b@.len(),
            i <= n,
            forall|k: int| 0 <= k < i ==> a@[k] == b@[k],
        decreases n - i,
    {
        if a[i] != b[i] {
            return false;
        }
        i = i + 1;
    }
    proof {
        assert(a@ =~= b@);
    }
    true
}

/// Whether `n` occurs in `h` starting exactly at index `i`.
pub open spec fn occurs_at(h: Seq<char>, n: Seq<char>, i: int) -> bool {
    &&& 0 <= i
    &&& i + n.len() <= h.len()
    &&& h.subrange(i, i + n.len() as int) == n
}

/// The first index at or after `from` where `n` occurs in `h`, if any.
pub open spec fn find_from(h: Seq<char>, n: Seq<char>, from: int) -> Option<int>
    decreases h.len() + 1 - from,
{
    if from < 0 || from + n.len() > h.len() {
        None
    } else if h.subrange(from, from + n.len() as int) == n {
        Some(from)
    } else {
        find_from(h, n, from + 1)
    }
}

/// A found index marks an occurrence, lies in range, and nothing earlier
/// (at or after `from`) matches; `None` means nothing matches at all.
pub proof fn lemma_find_from_spec(h: Seq<char>, n: Seq<char>, from: int)
    requires
        0 <= from,
    ensures
        match find_from(h, n, from) {
            Some(i) => occurs_at(h, n, i) && from <= i && forall|j: int|
                from <= j < i ==> !occurs_at(h, n, j),
            None => forall|j: int| from <= j ==> !occurs_at(h, n, j),
        },
    decreases h.len() + 1 - from,
{
    if from + n.len() > h.len() {
    } else if h.subrange(from, from + n.len() as int) == n {
    } else {
        lemma_find_from_spec(h, n, from + 1);
    }
}

/// Whether `needle` occurs in `hay` starting exactly at `at`.
pub fn match_at(hay: &Vec<char>, needle: &Vec<char>, at: usize) -> (r: bool)
    requires
        at + needle@.len() <= hay@.len(),
    ensures
        r <==> occurs_at(hay@, needle@, at as int),
{
    let hlen = hay.len();
    let n = needle.len();
    let mut j: usize = 0;
    while j < n
        invariant
            n == needle@.len(),
            hlen == hay@.len(),
            at + n <= hlen,
            j <= n,
            forall|k: int| 0 <= k < j ==> hay@[at + k] == needle@[k],
        decreases n - j,
    {
        if hay[at + j] != needle[j] {
            proof {
                assert(occurs_at(hay@, needle@, at as int) ==> hay@.subrange(
                    at as int,
                    at + n,
                )[j as int] == needle@[j as int]);
            }
            return false;
        }
        j = j + 1;
    }
    proof {
        assert(hay@.subrange(at as int, at + n) =~= needle@);
    }
    true
}

/// Finds the first occurrence of `needle` in `hay` at or after `from`.
pub fn find_sub(hay: &Vec<char>, needle: &Vec<char>, from: usize) -> (r: Option<usize>)
    ensures
        match r {
            Some(i) => from <= i && find_from(hay@, needle@, from as int) == Some(i as int),
            None => find_from(hay@, needle@, from as int) is None,
        },
{
    let h = hay.len();
    let n = needle.len();
    if n > h || from > h - n {
        return None;
    }
    if n == 0 {
        proof {
            assert(hay@.subrange(from as int, from as int) =~= needle@);
        }
        return Some(from);
    }
    let last = h - n;
    let mut i: usize = from;
    while i <= last
        invariant
            n == needle@.len(),
            h == hay@.len(),
            1 <= n <= h,
            last == h - n,
            from <= i <= last + 1,
            find_from(hay@, needle@, from as int) == find_from(hay@, needle@, i as int),
        decreases last + 1 - i,
    {
        if match_at(hay, needle, i) {
            return Some(i);
        }
        proof {
            assert(find_from(hay@, needle@, i as int) == find_from(hay@, needle@, i + 1));
        }
        i = i + 1;
    }
    None
}

/// ASCII whitespace, the set this layer strips when trimming.
pub open spec fn is_space(c: char) -> bool {
    c == ' ' || c == '\t' || c == '\n' || c == '\r'
}

/// `s` without its leading whitespace.
pub open spec fn trim_start_spec(s: Seq<char>) -> Seq<char>
    decreases s.len(),
{
    if s.len() > 0 && is_space(s[0]) {
        trim_start_spec(s.drop_first())
    } else {
        s
    }
}

/// `s` without its trailing whitespace.
pub open spec fn trim_end_spec(s: Seq<char>) -> Seq<char>
    decreases s.len(),
{
    if s.len() > 0 && is_space(s[s.len() - 1]) {
        trim_end_spec(s.drop_last())
    } else {
        s
    }
}

/// `s` without leading and trailing whitespace.
pub open spec fn trim_spec(s: Seq<char>) -> Seq<char> {
    trim_end_spec(trim_start_spec(s))
}

/// Strips leading and trailing ASCII whitespace.
pub fn trim_chars(cs: &Vec<char>) -> (r: Vec<char>)
    ensures
        r@ == trim_spec(cs@),
{
    let n = cs.len();
    let mut lo: usize = 0;
    proof {
        assert(cs@.skip(0) =~= cs@);
    }
    while lo < n && is_space_exec(cs[lo])
        invariant
            n == cs@.len(),
            lo <= n,
            trim_start_spec(cs@) == trim_start_spec(cs@.skip(lo as int)),
        decreases n - lo,
    {
        proof {
            assert(cs@.skip(lo as int).drop_first() =~= cs@.skip(lo + 1));
        }
        lo = lo + 1;
    }
    proof {
        assert(trim_start_spec(cs@.skip(lo as int)) == cs@.skip(lo as int));
    }
    let mut hi: usize = n;
    proof {
        assert(cs@.skip(lo as int).take(n - lo as int) =~= cs@.skip(lo as int));
    }
    while hi > lo && is_space_exec(cs[hi - 1])
        invariant
            n == cs@.len(),
            lo <= hi <= n,
            trim_start_spec(cs@) == cs@.skip(lo as int),
            trim_end_spec(cs@.skip(lo as int)) == trim_end_spec(
                cs@.skip(lo as int).take(hi - lo as int),
            ),
        decreases hi,
    {
        proof {
            assert(cs@.skip(lo as int).take(hi - lo as int).drop_last() =~= cs@.skip(
                lo as int,
            ).take(hi - 1 - lo as int));
        }
        hi = hi - 1;
    }
    proof {
        let mid = cs@.skip(lo as int).take(hi - lo as int);
        assert(trim_end_spec(mid) == mid);
    }
    let mut r: Vec<char> = Vec::new();
    push_range(&mut r, cs, lo, hi);
    proof {
        assert(r@ =~= cs@.skip(lo as int).take(hi - lo as int));
    }
    r
}

/// Whether `c` is ASCII whitespace.
pub fn is_space_exec(c: char) -> (r: bool)
    ensures
        r == is_space(c),
{
    c == ' ' || c == '\t' || c == '\n' || c == '\r'
}

/// ASCII-lowercases a single character; other characters pass unchanged.
pub open spec fn ascii_lower_char(c: char) -> char {
    if 'A' <= c <= 'Z' {
        ((c as u8) + 32) as char
    } else {
        c
    }
}

/// ASCII-uppercases a single character; other characters pass unchanged.
pub open spec fn ascii_upper_char(c: char) -> char {
    if 'a' <= c <= 'z' {
        ((c as u8) - 32) as char
    } else {
        c
    }
}

/// Character-wise ASCII lowercasing.
pub open spec fn ascii_lower(s: Seq<char>) -> Seq<char> {
    s.map_values(|c: char| ascii_lower_char(c))
}

/// Character-wise ASCII uppercasing.
pub open spec fn ascii_upper(s: Seq<char>) -> Seq<char> {
    s.map_values(|c: char| ascii_upper_char(c))
}

/// ASCII-lowercases every character of `cs`.
pub fn ascii_lower_chars(cs: &Vec<char>) -> (r: Vec<char>)
    ensures
        r@ == ascii_lower(cs@),
{
    let n = cs.len();
    let mut r: Vec<char> = Vec::new();
    let mut i: usize = 0;
    while i < n
        invariant
            n == cs@.len(),
            i <= n,
            r@ =~= ascii_lower(cs@).take(i as int),
        decreases n - i,
    {
        let c = cs[i];
        if 'A' <= c && c <= 'Z' {
            r.push(((c as u8) + 32) as char);
        } else {
            r.push(c);
        }
        i = i + 1;
    }
    proof {
        assert(r@ =~= ascii_lower(cs@));
    }
    r
}

/// ASCII-uppercases every character of `cs`.
pub fn ascii_upper_chars(cs: &Vec<char>) -> (r: Vec<char>)
    ensures
        r@ == ascii_upper(cs@),
{
    let n = cs.len();
    let mut r: Vec<char> = Vec::new();
    let mut i: usize = 0;
    while i < n
        invariant
            n == cs@.len(),
            i <= n,
            r@ =~= ascii_upper(cs@).take(i as int),
        decreases n - i,
    {
        let c = cs[i];
        if 'a' <= c && c <= 'z' {
            r.push(((c as u8) - 32) as char);
        } else {
            r.push(c);
        }
        i = i + 1;
    }
    proof {
        assert(r@ =~= ascii_upper(cs@));
    }
    r
}

/// The character for a decimal digit value.
pub open spec fn dec_digit(d: int) -> char {
    if d == 0 {
        '0'
    } else if d == 1 {
        '1'
    } else if d == 2 {
        '2'
    } else if d == 3 {
        '3'
    } else if d == 4 {
        '4'
    } else if d == 5 {
        '5'
    } else if d == 6 {
        '6'
    } else if d == 7 {
        '7'
    } else if d == 8 {
        '8'
    } else {
        '9'
    }
}

/// The usual decimal rendering of `n`: no sign, no leading zeros (except
/// for `0` itself).
pub open spec fn dec_rep(n: int) -> Seq<char>
    decreases n,
{
    if n < 10 {
        seq![dec_digit(n)]
    } else {
        dec_rep(n / 10).push(dec_digit(n % 10))
    }
}

/// The character for one decimal digit value.
pub fn dec_digit_exec(d: u64) -> (c: char)
    requires
        d < 10,
    ensures
        c == dec_digit(d as int),
{
    if d == 0 {
        '0'
    } else if d == 1 {
        '1'
    } else if d == 2 {
        '2'
    } else if d == 3 {
        '3'
    } else if d == 4 {
        '4'
    } else if d == 5 {
        '5'
    } else if d == 6 {
        '6'
    } else if d == 7 {
        '7'
    } else if d == 8 {
        '8'
    } else {
        '9'
    }
}

/// Appends the decimal rendering of `n` to `out`.
pub fn push_u64_dec(out: &mut Vec<char>, n: u64)
    ensures
        final(out)@ == old(out)@ + dec_rep(n as int),
    decreases n,
{
    if n < 10 {
        out.push(dec_digit_exec(n));
        proof {
            assert(final(out)@ =~= old(out)@ + dec_rep(n as int));
        }
    } else {
        push_u64_dec(out, n / 10);
        out.push(dec_digit_exec(n % 10));
        proof {
            assert(final(out)@ =~= old(out)@ + dec_rep(n as int));
        }
    }
}

/// Whether `c` is a decimal digit.
pub open spec fn is_dec_digit(c: char) -> bool {
    '0' <= c <= '9'
}

/// Whether every character of `s` is a decimal digit.
pub open spec fn all_digits(s: Seq<char>) -> bool {
    forall|i: int| 0 <= i < s.len() ==> is_dec_digit(#[trigger] s[i])
}

/// The numeric value of a digit string (most significant first).
pub open spec fn digits_val(s: Seq<char>) -> int
    decreases s.len(),
{
    if s.len() == 0 {
        0
    } else {
        digits_val(s.drop_last()) * 10 + (s[s.len() - 1] as int - 48)
    }
}

/// What `str::parse` to a (signed) integer accepts, before any range check:
/// an optional sign followed by at least one decimal digit, and nothing
/// else; the mathematical value is returned unbounded.
pub open spec fn parse_int_spec(s: Seq<char>) -> Option<int> {
    if s.len() == 0 {
        None
    } else {
        let neg = s[0] == '-';
        let signed = s[0] == '-' || s[0] == '+';
        let ds = if signed {
            s.drop_first()
        } else {
            s
        };
        if ds.len() > 0 && all_digits(ds) {
            if neg {
                Some(-digits_val(ds))
            } else {
                Some(digits_val(ds))
            }
        } else {
            None
        }
    }
}

/// Ten to the power `n`.
pub open spec fn pow10(n: nat) -> int
    decreases n,
{
    if n == 0 {
        1int
    } else {
        10 * pow10((n - 1) as nat)
    }
}

/// A digit string's value is non-negative and below ten to its length.
pub proof fn lemma_digits_val_bounds(s: Seq<char>)
    requires
        all_digits(s),
    ensures
        0 <= digits_val(s) < pow10(s.len()),
    decreases s.len(),
{
    if s.len() > 0 {
        assert(all_digits(s.drop_last()));
        lemma_digits_val_bounds(s.drop_last());
    }
}

/// A leading zero does not change a digit string's value.
pub proof fn lemma_digits_val_leading_zero(s: Seq<char>)
    requires
        s.len() > 0,
        s[0] == '0',
    ensures
        digits_val(s) == digits_val(s.drop_first()),
    decreases s.len(),
{
    if s.len() == 1 {
        assert(s.drop_first() =~= Seq::<char>::empty());
        assert(digits_val(s) == digits_val(s.drop_last()) * 10 + (s[0] as int - 48));
        assert(s.drop_last() =~= Seq::<char>::empty());
    } else {
        lemma_digits_val_leading_zero(s.drop_last());
        assert(s.drop_last().drop_first() =~= s.drop_first().drop_last());
        assert(digits_val(s) == digits_val(s.drop_last()) * 10 + (s[s.len() - 1] as int - 48));
        assert(digits_val(s.drop_first()) == digits_val(s.drop_first().drop_last()) * 10 + (
        s.drop_first()[s.drop_first().len() - 1] as int - 48));
        assert(s.drop_first()[s.drop_first().len() - 1] == s[s.len() - 1]);
    }
}

/// A digit string with a non-zero leading digit is at least ten to one
/// less than its length.
pub proof fn lemma_digits_val_lower(s: Seq<char>)
    requires
        all_digits(s),
        s.len() > 0,
        s[0] != '0',
    ensures
        digits_val(s) >= pow10((s.len() - 1) as nat),
    decreases s.len(),
{
    if s.len() == 1 {
        assert(digits_val(s.drop_last()) == 0);
    } else {
        assert(all_digits(s.drop_last()));
        lemma_digits_val_lower(s.drop_last());
        assert(s[s.len() - 1] as int - 48 >= 0);
        assert(pow10((s.len() - 1) as nat) == 10 * pow10((s.len() - 2) as nat));
        assert(digits_val(s.drop_last()) * 10 >= pow10((s.len() - 2) as nat) * 10);
    }
}

/// `pow10` never shrinks.
pub proof fn lemma_pow10_monotone(a: nat, b: nat)
    requires
        a <= b,
    ensures
        pow10(a) <= pow10(b),
    decreases b,
{
    if a < b {
        lemma_pow10_monotone(a, (b - 1) as nat);
        assert(pow10((b - 1) as nat) >= 1) by {
            lemma_pow10_monotone(0, (b - 1) as nat);
        }
    }
}

/// Whether `c` is a decimal digit.
pub fn is_dec_digit_exec(c: char) -> (r: bool)
    ensures
        r == is_dec_digit(c),
{
    '0' <= c && c <= '9'
}

/// Parses `cs` exactly as `str::parse::<i64>` does: optional sign, one or
/// more digits, nothing else, and the value must fit in an `i64`.
#[verifier::loop_isolation(false)]
pub fn parse_i64_chars(cs: &Vec<char>) -> (r: Option<i64>)
    ensures
        ({
            match parse_int_spec(cs@) {
                Some(v) => if i64::MIN <= v <= i64::MAX {
                    r == Some(v as i64)
                } else {
                    r is None
                },
                None => r is None,
            }
        }),
{
    let n = cs.len();
    if n == 0 {
        return None;
    }
    let c0 = cs[0];
    let neg = c0 == '-';
    let signed = neg || c0 == '+';
    let start: usize = if signed {
        1
    } else {
        0
    };
    let ghost ds = if signed {
        cs@.drop_first()
    } else {
        cs@
    };
    proof {
        assert(ds =~= cs@.subrange(start as int, n as int));
    }
    if start >= n {
        return None;
    }
    let mut i: usize = start;
    while i < n
        invariant
            n == cs@.len(),
            start <= i <= n,
            forall|k: int| start <= k < i ==> is_dec_digit(#[trigger] cs@[k]),
        decreases n - i,
    {
        if !is_dec_digit_exec(cs[i]) {
            proof {
                assert(ds[i - start] == cs@[i as int]);
            }
            return None;
        }
        i = i + 1;
    }
    proof {
        assert(all_digits(ds));
    }
    // Skip leading zeros; they do not change the value.
    let mut z: usize = start;
    while z < n && cs[z] == '0'
        invariant
            n == cs@.len(),
            start <= z <= n,
            digits_val(cs@.subrange(start as int, n as int)) == digits_val(
                cs@.subrange(z as int, n as int),
            ),
            forall|k: int| start <= k < n ==> is_dec_digit(#[trigger] cs@[k]),
        decreases n - z,
    {
        proof {
            lemma_digits_val_leading_zero(cs@.subrange(z as int, n as int));
            assert(cs@.subrange(z as int, n as int).drop_first() =~= cs@.subrange(
                z + 1,
                n as int,
            ));
        }
        z = z + 1;
    }
    let ghost stripped = cs@.subrange(z as int, n as int);
    proof {
        assert(all_digits(stripped));
        assert(digits_val(ds) == digits_val(stripped));
        lemma_digits_val_bounds(stripped);
    }
    let rem = n - z;
    if rem > 19 {
        proof {
            lemma_digits_val_lower(stripped);
            lemma_pow10_monotone(19, (rem - 1) as nat);
            assert(pow10(19) == 10000000000000000000) by {
                reveal_with_fuel(pow10, 21);
            }
        }
        return None;
    }
    let mut acc: u64 = 0;
    let mut j: usize = z;
    proof {
        assert(cs@.subrange(z as int, z as int) =~= Seq::<char>::empty());
        assert(pow10(19) == 10000000000000000000) by {
            reveal_with_fuel(pow10, 21);
        }
    }
    while j < n
        invariant
            n == cs@.len(),
            z <= j <= n,
            n - z <= 19,
            forall|k: int| start <= k < n ==> is_dec_digit(#[trigger] cs@[k]),
            z >= start,
            acc == digits_val(cs@.subrange(z as int, j as int)),
            acc < pow10((j - z) as nat),
            pow10(19) == 10000000000000000000,
        decreases n - j,
    {
        let ghost pre = cs@.subrange(z as int, j as int);
        let c = cs[j];
        let d: u64 = (c as u32 as u64) - 48;
        proof {
            assert(is_dec_digit(cs@[j as int]));
            lemma_pow10_monotone((j - z) as nat, 18);
            assert(pow10(18) * 10 == pow10(19));
        }
        acc = acc * 10 + d;
        proof {
            assert(cs@.subrange(z as int, j + 1).drop_last() =~= pre);
            assert(digits_val(cs@.subrange(z as int, j + 1)) == digits_val(pre) * 10 + (
            cs@[j as int] as int - 48));
            lemma_pow10_monotone(((j + 1) - z) as nat, 19);
        }
        j = j + 1;
    }
    proof {
        assert(cs@.subrange(z as int, n as int) =~= stripped);
        assert(acc == digits_val(ds));
    }
    if neg {
        if acc > 9223372036854775808 {
            return None;
        }
        if acc == 9223372036854775808 {
            Some(i64::MIN)
        } else {
            Some(-(acc as i64))
        }
    } else {
        if acc > 9223372036854775807 {
            return None;
        }
        Some(acc as i64)
    }
}

/// Parses `cs` exactly as `str::parse::<i8>` does.
pub fn parse_i8_chars(cs: &Vec<char>) -> (r: Option<i8>)
    ensures
        ({
            match parse_int_spec(cs@) {
                Some(v) => if -128 <= v <= 127 {
                    r == Some(v as i8)
                } else {
                    r is None
                },
                None => r is None,
            }
        }),
{
    match parse_i64_chars(cs) {
        Some(v) => if -128 <= v && v <= 127 {
            Some(v as i8)
        } else {
            None
        },
        None => None,
    }
}

} // verus!

