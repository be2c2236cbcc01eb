//! Character-level text utilities with exact specifications.
//!
//! Strings are reasoned about through their views, sequences of `char`.
use vstd::prelude::*;

verus! {

// ───────────────────────────── specifications ─────────────────────────────
/// Unicode `White_Space`, the set that `char::is_whitespace` documents.
pub open spec fn is_white_space(c: char) -> bool {
    let x = c as u32;
    ||| 9 <= x <= 13
    ||| x == 32
    ||| x == 0x85
    ||| x == 0xa0
    ||| x == 0x1680
    ||| 0x2000 <= x <= 0x200a
    ||| x == 0x2028
    ||| x == 0x2029
    ||| x == 0x202f
    ||| x == 0x205f
    ||| x == 0x3000
}

/// `s` without its leading white space.
pub open spec fn trim_start(s: Seq<char>) -> Seq<char>
    decreases s.len(),
{
    if s.len() > 0 && is_white_space(s[0]) {
        trim_start(s.drop_first())
    } else {
        s
    }
}

/// `s` without its trailing white space.
pub open spec fn trim_end(s: Seq<char>) -> Seq<char>
    decreases s.len(),
{
    if s.len() > 0 && is_white_space(s.last()) {
        trim_end(s.drop_last())
    } else {
        s
    }
}

/// `s` without leading and trailing white space (`str::trim`).
pub open spec fn trim(s: Seq<char>) -> Seq<char> {
    trim_end(trim_start(s))
}

/// `s` without every leading occurrence of `c` (`str::trim_start_matches`).
pub open spec fn strip_leading(s: Seq<char>, c: char) -> Seq<char>
    decreases s.len(),
{
    if s.len() > 0 && s[0] == c {
        strip_leading(s.drop_first(), c)
    } else {
        s
    }
}

/// `s` without every trailing occurrence of `c` (`str::trim_end_matches`).
pub open spec fn strip_trailing(s: Seq<char>, c: char) -> Seq<char>
    decreases s.len(),
{
    if s.len() > 0 && s.last() == c {
        strip_trailing(s.drop_last(), c)
    } else {
        s
    }
}

/// `p` is a prefix of `s`.
pub open spec fn has_prefix(s: Seq<char>, p: Seq<char>) -> bool {
    p.len() <= s.len() && s.take(p.len() as int) == p
}

/// `p` is a suffix of `s`.
pub open spec fn has_suffix(s: Seq<char>, p: Seq<char>) -> bool {
    p.len() <= s.len() && s.skip(s.len() - p.len()) == p
}

/// `p` occurs in `s` at position `i`.
pub open spec fn occurs_at(s: Seq<char>, p: Seq<char>, i: int) -> bool {
    0 <= i && i + p.len() <= s.len() && s.subrange(i, i + p.len()) == p
}

/// `p` occurs somewhere in `s` (`str::contains`).
pub open spec fn has_substring(s: Seq<char>, p: Seq<char>) -> bool {
    exists|i: int| occurs_at(s, p, i)
}

/// The pieces of `s` between occurrences of `sep` (`str::split` on a `char`).
pub open spec fn split_on(s: Seq<char>, sep: char) -> Seq<Seq<char>>
    decreases s.len(),
{
    if s.len() == 0 {
        seq![Seq::<char>::empty()]
    } else {
        let r = split_on(s.drop_last(), sep);
        if s.last() == sep {
            r.push(Seq::<char>::empty())
        } else {
            r.update(r.len() - 1, r.last().push(s.last()))
        }
    }
}

/// The ASCII digit for `d`, where `0 <= d < 10`.
pub open spec fn digit_char(d: int) -> char {
    (d + 48) as char
}

/// `c` is an ASCII decimal digit.
pub open spec fn is_digit(c: char) -> bool {
    48 <= c as u32 <= 57
}

/// The decimal representation of `n`, without sign or leading zeros.
pub open spec fn decimal(n: nat) -> Seq<char>
    decreases n,
{
    if n < 10 {
        seq![digit_char(n as int)]
    } else {
        decimal(n / 10).push(digit_char((n % 10) as int))
    }
}

/// The value of a sequence of decimal digits.
pub open spec fn digits_value(s: Seq<char>) -> nat
    decreases s.len(),
{
    if s.len() == 0 {
        0
    } else {
        digits_value(s.drop_last()) * 10 + ((s.last() as u32) - 48) as nat
    }
}

/// Every character of `s` is a decimal digit.
pub open spec fn all_digits(s: Seq<char>) -> bool {
    forall|i: int| 0 <= i < s.len() ==> #[trigger] is_digit(s[i])
}

/// What an unsigned integer's `from_str` accepts: an optional `+`, then at
/// least one decimal digit; the number it denotes, which must not exceed `max`.
pub open spec fn parse_unsigned(s: Seq<char>, max: nat) -> Option<nat> {
    let body = if s.len() > 0 && s[0] == '+' {
        s.drop_first()
    } else {
        s
    };
    if body.len() > 0 && all_digits(body) && digits_value(body) <= max {
        Some(digits_value(body))
    } else {
        None
    }
}

/// The decimal representation of `n` is a non-empty run of digits that
/// denotes `n`.
pub proof fn lemma_decimal_digits(n: nat)
    ensures
        decimal(n).len() > 0,
        all_digits(decimal(n)),
        digits_value(decimal(n)) == n,
    decreases n,
{
    if n >= 10 {
        lemma_decimal_digits(n / 10);
        let d = decimal(n / 10);
        let c = digit_char((n % 10) as int);
        assert(decimal(n) == d.push(c));
        assert(d.push(c).drop_last() =~= d);
        assert(c as u32 == (n % 10) + 48);
        assert(digits_value(d.push(c)) == digits_value(d) * 10 + ((c as u32) - 48) as nat);
        assert(n == (n / 10) * 10 + n % 10);
        assert forall|i: int| 0 <= i < d.push(c).len() implies #[trigger] is_digit(d.push(c)[i]) by {
            if i < d.len() {
                assert(d.push(c)[i] == d[i]);
            }
        }
    } else {
        assert(seq![digit_char(n as int)].drop_last() =~= Seq::<char>::empty());
        assert(digit_char(n as int) as u32 == n + 48);
        assert(digits_value(Seq::<char>::empty()) == 0);
        assert(is_digit(seq![digit_char(n as int)][0]));
    }
}

/// `u64::from_str`.
pub open spec fn parse_u64_spec(s: Seq<char>) -> Option<u64> {
    match parse_unsigned(s, u64::MAX as nat) {
        Some(v) => Some(v as u64),
        None => None,
    }
}

/// `usize::from_str`.
pub open spec fn parse_usize_spec(s: Seq<char>) -> Option<usize> {
    match parse_unsigned(s, usize::MAX as nat) {
        Some(v) => Some(v as usize),
        None => None,
    }
}

// ───────────────────────────── basic conversions ─────────────────────────────
/// The characters of `s`, in order.
pub fn chars_of(s: &str) -> (v: Vec<char>)
    ensures
        v@ == s@,
{
    let mut v: Vec<char> = Vec::new();
    for c in it: s.chars()
        invariant
            v@ == it.seq().take(it.index() as int),
            it.seq() == s@,
    {
        v.push(c);
    }
    v
}

/// Appends one character to `s` (`String::push`).
#[verifier::external_body]
pub(crate) fn push_char(s: &mut String, c: char)
    ensures
        final(s)@ == old(s)@.push(c),
{
    s.push(c);
}

/// A string holding the characters `v[lo..hi]`.
pub fn string_from_range(v: &Vec<char>, lo: usize, hi: usize) -> (s: String)
    requires
        lo <= hi <= v.len(),
    ensures
        s@ == v@.subrange(lo as int, hi as int),
{
    let mut s = String::new();
    let mut i = lo;
    while i < hi
        invariant
            lo <= i <= hi <= v.len(),
            s@ == v@.subrange(lo as int, i as int),
        decreases hi - i,
    {
        push_char(&mut s, v[i]);
        assert(v@.subrange(lo as int, i + 1) == v@.subrange(lo as int, i as int).push(v@[i as int]));
        i = i + 1;
    }
    s
}

/// A string holding exactly the characters of `v`.
pub fn string_from_chars(v: &Vec<char>) -> (s: String)
    ensures
        s@ == v@,
{
    let s = string_from_range(v, 0, v.len());
    assert(v@.subrange(0, v@.len() as int) == v@);
    s
}

/// A copy of `s`.
pub fn owned(s: &str) -> (r: String)
    ensures
        r@ == s@,
{
    s.to_owned()
}

/// `a` followed by `b`.
pub fn concat(a: &str, b: &str) -> (r: String)
    ensures
        r@ == a@ + b@,
{
    let mut r = a.to_owned();
    r.append(b);
    r
}

/// Character-wise equality of two strings.
pub fn str_eq(a: &str, b: &str) -> (r: bool)
    ensures
        r == (a@ == b@),
{
    let x = a.to_owned();
    let y = b.to_owned();
    x == y
}

// ───────────────────────────── white space ─────────────────────────────
/// `char::is_whitespace`.
pub fn is_whitespace(c: char) -> (r: bool)
    ensures
        r == is_white_space(c),
{
    let x = c as u32;
    (9 <= x && x <= 13) || x == 32 || x == 0x85 || x == 0xa0 || x == 0x1680 || (0x2000 <= x && x
        <= 0x200a) || x == 0x2028 || x == 0x2029 || x == 0x202f || x == 0x205f || x == 0x3000
}

proof fn lemma_skip_drop_first<A>(s: Seq<A>, i: int)
    requires
        0 <= i < s.len(),
    ensures
        s.skip(i).drop_first() == s.skip(i + 1),
{
    assert(s.skip(i).drop_first() =~= s.skip(i + 1));
}

proof fn lemma_take_drop_last<A>(s: Seq<A>, j: int)
    requires
        0 < j <= s.len(),
    ensures
        s.take(j).drop_last() == s.take(j - 1),
{
    assert(s.take(j).drop_last() =~= s.take(j - 1));
}

/// Index of the first character of `v[from..]` that is not white space
/// (`v.len()` if none); `trim_start` of `v[from..]` starts there.
fn first_non_space(v: &Vec<char>, from: usize) -> (i: usize)
    requires
        from <= v.len(),
    ensures
        from <= i <= v.len(),
        trim_start(v@.skip(from as int)) == v@.skip(i as int),
        i < v.len() ==> !is_white_space(v@[i as int]),
{
    let mut i = from;
    while i < v.len() && is_whitespace(v[i])
        invariant
            from <= i <= v.len(),
            trim_start(v@.skip(from as int)) == trim_start(v@.skip(i as int)),
        decreases v.len() - i,
    {
        proof {
            lemma_skip_drop_first(v@, i as int);
        }
        i = i + 1;
    }
    i
}

/// End of `v[..to]` once its trailing white space is removed.
fn end_non_space(v: &Vec<char>, to: usize) -> (j: usize)
    requires
        to <= v.len(),
    ensures
        j <= to,
        trim_end(v@.take(to as int)) == v@.take(j as int),
        j > 0 ==> !is_white_space(v@[j - 1]),
{
    let mut j = to;
    while j > 0 && is_whitespace(v[j - 1])
        invariant
            j <= to <= v.len(),
            trim_end(v@.take(to as int)) == trim_end(v@.take(j as int)),
        decreases j,
    {
        proof {
            lemma_take_drop_last(v@, j as int);
        }
        j = j - 1;
    }
    j
}

/// `str::trim`.
pub fn trim_str(s: &str) -> (r: String)
    ensures
        r@ == trim(s@),
{
    let v = chars_of(s);
    let i = first_non_space(&v, 0);
    assert(v@.skip(0) =~= v@);
    let j = end_non_space(&v, v.len());
    assert(v@.take(v@.len() as int) =~= v@);
    if j < i {
        proof {
            if i < v.len() {
                lemma_trim_end_keeps(v@, i as int);
            }
            assert(v@.skip(i as int) =~= Seq::<char>::empty());
        }
        String::new()
    } else {
        proof {
            lemma_trim_end_relative(v@, i as int, j as int);
        }
        string_from_range(&v, i, j)
    }
}

proof fn lemma_trim_end_keeps(s: Seq<char>, k: int)
    requires
        0 <= k < s.len(),
        !is_white_space(s[k]),
    ensures
        trim_end(s).len() > k,
    decreases s.len(),
{
    if s.len() > 0 && is_white_space(s.last()) {
        assert(s.drop_last()[k] == s[k]);
        lemma_trim_end_keeps(s.drop_last(), k);
    }
}

proof fn lemma_trim_end_is_take(s: Seq<char>)
    ensures
        trim_end(s) == s.take(trim_end(s).len() as int),
        trim_end(s).len() <= s.len(),
    decreases s.len(),
{
    if s.len() > 0 && is_white_space(s.last()) {
        lemma_trim_end_is_take(s.drop_last());
        assert(s.drop_last().take(trim_end(s).len() as int) =~= s.take(trim_end(s).len() as int));
    } else {
        assert(s.take(s.len() as int) =~= s);
    }
}

proof fn lemma_trim_end_relative(s: Seq<char>, i: int, j: int)
    requires
        0 <= i <= j <= s.len(),
        trim_end(s) == s.take(j),
        j > 0 ==> !is_white_space(s[j - 1]),
        i < s.len() ==> !is_white_space(s[i]),
    ensures
        trim_end(s.skip(i)) == s.subrange(i, j),
    decreases s.len(),
{
    if s.len() > 0 && is_white_space(s.last()) {
        lemma_trim_end_is_take(s.drop_last());
        assert(j < s.len());
        assert(s.drop_last().take(j) =~= s.take(j));
        lemma_trim_end_relative(s.drop_last(), i, j);
        assert(s.drop_last().skip(i) =~= s.skip(i).drop_last());
        assert(s.drop_last().subrange(i, j) =~= s.subrange(i, j));
    } else {
        assert(s.take(j).len() == j);
        assert(j == s.len());
        if i < s.len() {
            assert(s.skip(i).last() == s.last());
        }
        assert(s.skip(i) =~= s.subrange(i, j));
    }
}

/// `str::trim_start_matches` with a single character pattern.
pub fn strip_leading_char(s: &str, c: char) -> (r: String)
    ensures
        r@ == strip_leading(s@, c),
{
    let v = chars_of(s);
    let mut i: usize = 0;
    assert(v@.skip(0) =~= v@);
    while i < v.len() && v[i] == c
        invariant
            i <= v.len(),
            strip_leading(v@, c) == strip_leading(v@.skip(i as int), c),
        decreases v.len() - i,
    {
        proof {
            lemma_skip_drop_first(v@, i as int);
        }
        i = i + 1;
    }
    assert(v@.skip(i as int) =~= v@.subrange(i as int, v@.len() as int));
    string_from_range(&v, i, v.len())
}

/// `str::trim_end_matches` with a single character pattern.
pub fn strip_trailing_char(s: &str, c: char) -> (r: String)
    ensures
        r@ == strip_trailing(s@, c),
{
    let v = chars_of(s);
    let mut j: usize = v.len();
    assert(v@.take(v@.len() as int) =~= v@);
    while j > 0 && v[j - 1] == c
        invariant
            j <= v.len(),
            strip_trailing(v@, c) == strip_trailing(v@.take(j as int), c),
        decreases j,
    {
        proof {
            lemma_take_drop_last(v@, j as int);
        }
        j = j - 1;
    }
    assert(v@.take(j as int) =~= v@.subrange(0, j as int));
    string_from_range(&v, 0, j)
}

// ───────────────────────────── matching ─────────────────────────────
/// `p` occurs in `s` at `i`, compared character by character.
fn matches_at(s: &Vec<char>, p: &Vec<char>, i: usize) -> (r: bool)
    requires
        i + p.len() <= s.len(),
    ensures
        r == occurs_at(s@, p@, i as int),
{
    let mut k: usize = 0;
    while k < p.len()
        invariant
            i + p.len() <= s.len(),
            k <= p.len(),
            forall|m: int| 0 <= m < k ==> s@[i + m] == p@[m],
        decreases p.len() - k,
    {
        if s[i + k] != p[k] {
            assert(s@.subrange(i as int, i + p.len())[k as int] != p@[k as int]);
            return false;
        }
        k = k + 1;
    }
    assert(s@.subrange(i as int, i + p.len()) =~= p@);
    true
}

/// `str::starts_with` with a string pattern.
pub fn starts_with(s: &str, p: &str) -> (r: bool)
    ensures
        r == has_prefix(s@, p@),
{
    let sv = chars_of(s);
    let pv = chars_of(p);
    if pv.len() > sv.len() {
        return false;
    }
    let r = matches_at(&sv, &pv, 0);
    assert(sv@.subrange(0, pv@.len() as int) =~= sv@.take(pv@.len() as int));
    r
}

/// `str::ends_with` with a string pattern.
pub fn ends_with(s: &str, p: &str) -> (r: bool)
    ensures
        r == has_suffix(s@, p@),
{
    let sv = chars_of(s);
    let pv = chars_of(p);
    if pv.len() > sv.len() {
        return false;
    }
    let r = matches_at(&sv, &pv, sv.len() - pv.len());
    assert(sv@.subrange(sv@.len() - pv@.len(), sv@.len() as int) =~= sv@.skip(
        sv@.len() - pv@.len(),
    ));
    r
}

/// First position at which `p` occurs in `s`, if any.
pub fn find_sub(s: &Vec<char>, p: &Vec<char>) -> (r: Option<usize>)
    ensures
        match r {
            Some(i) => occurs_at(s@, p@, i as int) && forall|k: int|
                0 <= k < i ==> !occurs_at(s@, p@, k),
            None => !has_substring(s@, p@),
        },
{
    if p.len() > s.len() {
        return None;
    }
    let last = s.len() - p.len();
    let mut i: usize = 0;
    while i < last
        invariant
            last == s.len() - p.len(),
            p.len() <= s.len(),
            i <= last,
            forall|k: int| 0 <= k < i ==> !occurs_at(s@, p@, k),
        decreases last - i,
    {
        if matches_at(s, p, i) {
            return Some(i);
        }
        i = i + 1;
    }
    if matches_at(s, p, last) {
        Some(last)
    } else {
        None
    }
}

/// Last position at which `p` occurs in `s`, if any (`str::rfind`, counted
/// in characters).
pub fn rfind_sub(s: &Vec<char>, p: &Vec<char>) -> (r: Option<usize>)
    ensures
        match r {
            Some(i) => occurs_at(s@, p@, i as int) && forall|k: int|
                i < k ==> !occurs_at(s@, p@, k),
            None => !has_substring(s@, p@),
        },
{
    if p.len() > s.len() {
        return None;
    }
    let mut i: usize = s.len() - p.len();
    loop
        invariant
            p.len() <= s.len(),
            i <= s.len() - p.len(),
            forall|k: int| i < k ==> !occurs_at(s@, p@, k),
        decreases i,
    {
        if matches_at(s, p, i) {
            return Some(i);
        }
        if i == 0 {
            return None;
        }
        i = i - 1;
    }
}

/// `str::contains` with a string pattern.
pub fn contains_str(s: &str, p: &str) -> (r: bool)
    ensures
        r == has_substring(s@, p@),
{
    let sv = chars_of(s);
    let pv = chars_of(p);
    find_sub(&sv, &pv).is_some()
}

// ───────────────────────────── splitting ─────────────────────────────
/// The views of a list of strings.
pub open spec fn views(v: Seq<String>) -> Seq<Seq<char>> {
    v.map_values(|x: String| x@)
}

/// `str::split` on a single character, collected.
pub fn split_char(s: &str, sep: char) -> (r: Vec<String>)
    ensures
        views(r@) == split_on(s@, sep),
{
    let v = chars_of(s);
    let mut pieces: Vec<String> = Vec::new();
    let mut start: usize = 0;
    assert(v@.take(0) =~= Seq::<char>::empty());
    assert(views(pieces@).push(v@.subrange(0, 0)) =~= seq![Seq::<char>::empty()]);
    for i in 0..v.len()
        invariant
            start <= i <= v.len(),
            split_on(v@.take(i as int), sep) == views(pieces@).push(v@.subrange(start as int, i as int)),
    {
        let ghost before = views(pieces@);
        assert(v@.take(i + 1).drop_last() =~= v@.take(i as int));
        assert(v@.take(i + 1).last() == v@[i as int]);
        if v[i] == sep {
            let piece = string_from_range(&v, start, i);
            pieces.push(piece);
            start = i + 1;
            assert(views(pieces@) =~= before.push(piece@));
            assert(v@.subrange(start as int, (i + 1) as int) =~= Seq::<char>::empty());
        } else {
            assert(v@.subrange(start as int, i + 1) =~= v@.subrange(start as int, i as int).push(v@[i as int]));
        }
    }
    let last = string_from_range(&v, start, v.len());
    pieces.push(last);
    assert(v@.take(v@.len() as int) =~= v@);
    assert(views(pieces@) =~= split_on(v@, sep));
    pieces
}

// ───────────────────────────── numbers ─────────────────────────────
/// The ASCII digit for `d`.
pub fn digit(d: u64) -> (c: char)
    requires
        d < 10,
    ensures
        c == digit_char(d as int),
{
    let b: u8 = (d as u8) + 48;
    b as char
}

/// `u64::to_string`: the decimal representation of `n`.
pub fn decimal_string(n: u64) -> (r: String)
    ensures
        r@ == decimal(n as nat),
    decreases n,
{
    if n < 10 {
        let mut s = String::new();
        push_char(&mut s, digit(n));
        s
    } else {
        let mut s = decimal_string(n / 10);
        push_char(&mut s, digit(n % 10));
        s
    }
}

/// `digits_value` of a digit string is at least that of any of its prefixes.
proof fn lemma_digits_value_prefix(s: Seq<char>, k: int)
    requires
        0 <= k <= s.len(),
        all_digits(s),
    ensures
        digits_value(s.take(k)) <= digits_value(s),
    decreases s.len(),
{
    if k < s.len() {
        assert(is_digit(s[s.len() - 1]));
        assert forall|i: int| 0 <= i < s.drop_last().len() implies #[trigger] is_digit(
            s.drop_last()[i],
        ) by {
            assert(is_digit(s[i]));
        }
        lemma_digits_value_prefix(s.drop_last(), k);
        assert(s.drop_last().take(k) =~= s.take(k));
    } else {
        assert(s.take(k) =~= s);
    }
}

/// Unsigned decimal parsing as `from_str` does it, with `max` the largest
/// value of the target type.
pub fn parse_unsigned_with_max(s: &str, max: u64) -> (r: Option<u64>)
    requires
        max >= 9,
    ensures
        r == (match parse_unsigned(s@, max as nat) {
            Some(v) => Some(v as u64),
            None => None::<u64>,
        }),
{
    let v = chars_of(s);
    let start: usize = if v.len() > 0 && v[0] == '+' {
        1
    } else {
        0
    };
    let ghost body = if v@.len() > 0 && v@[0] == '+' {
        v@.drop_first()
    } else {
        v@
    };
    assert(body =~= v@.skip(start as int));
    if start == v.len() {
        return None;
    }
    let mut acc: u64 = 0;
    let mut i = start;
    assert(v@.subrange(start as int, start as int) =~= Seq::<char>::empty());
    while i < v.len()
        invariant
            start <= i <= v.len(),
            v@ == s@,
            max >= 9,
            body == (if v@.len() > 0 && v@[0] == '+' {
                v@.drop_first()
            } else {
                v@
            }),
            body == v@.skip(start as int),
            all_digits(v@.subrange(start as int, i as int)),
            acc as nat == digits_value(v@.subrange(start as int, i as int)),
            acc <= max,
        decreases v.len() - i,
    {
        let c = v[i];
        let x = c as u32;
        if x < 48 || x > 57 {
            proof {
                assert(body[i - start] == c);
                assert(!is_digit(body[i - start]));
                assert(!all_digits(body));
                assert(parse_unsigned(s@, max as nat).is_none());
            }
            return None;
        }
        let d = (x - 48) as u64;
        let ghost pre = v@.subrange(start as int, i as int);
        assert(v@.subrange(start as int, i + 1) =~= pre.push(c));
        assert(v@.subrange(start as int, i + 1).drop_last() =~= pre);
        if acc > (max - d) / 10 {
            proof {
                let next = v@.subrange(start as int, i + 1);
                assert(digits_value(next) == acc * 10 + d);
                assert(acc * 10 + d > max) by (nonlinear_arith)
                    requires
                        acc > (max - d) / 10,
                        d <= 9,
                ;
                if all_digits(body) {
                    assert(body.take(i + 1 - start) =~= next);
                    lemma_digits_value_prefix(body, i + 1 - start);
                }
            }
            return None;
        }
        assert(acc * 10 + d <= max) by (nonlinear_arith)
            requires
                acc <= (max - d) / 10,
                d <= 9,
        ;
        acc = acc * 10 + d;
        i = i + 1;
        assert(all_digits(v@.subrange(start as int, i as int))) by {
            assert forall|k: int| 0 <= k < v@.subrange(start as int, i as int).len() implies #[trigger] is_digit(
                v@.subrange(start as int, i as int)[k],
            ) by {
                if k < pre.len() {
                    assert(v@.subrange(start as int, i as int)[k] == pre[k]);
                }
            }
        }
    }
    assert(v@.subrange(start as int, v@.len() as int) =~= body);
    Some(acc)
}

/// `u64::from_str`.
pub fn parse_u64(s: &str) -> (r: Option<u64>)
    ensures
        r == parse_u64_spec(s@),
{
    parse_unsigned_with_max(s, u64::MAX)
}

/// `usize::from_str`.
pub fn parse_usize(s: &str) -> (r: Option<usize>)
    ensures
        r == parse_usize_spec(s@),
{
    match parse_unsigned_with_max(s, usize::MAX as u64) {
        Some(v) => Some(v as usize),
        None => None,
    }
}

/// `i32::from_str`: an optional sign, then at least one decimal digit,
/// denoting a value in the range of `i32`.
pub open spec fn parse_i32_spec(s: Seq<char>) -> Option<i32> {
    if s.len() > 0 && s[0] == '-' {
        let body = s.drop_first();
        if body.len() > 0 && all_digits(body) && digits_value(body) <= 0x8000_0000 {
            Some((0 - digits_value(body)) as i32)
        } else {
            None
        }
    } else {
        match parse_unsigned(s, 0x7fff_ffff) {
            Some(v) => Some(v as i32),
            None => None,
        }
    }
}

/// `s` parsed as an `i32`.
pub fn parse_i32(s: &str) -> (r: Option<i32>)
    ensures
        r == parse_i32_spec(s@),
{
    let v = chars_of(s);
    if v.len() > 0 && v[0] == '-' {
        let body = string_from_range(&v, 1, v.len());
        assert(body@ =~= v@.drop_first());
        if v.len() > 1 && v[1] == '+' {
            assert(!is_digit(body@[0]));
            return None;
        }
        match parse_unsigned_with_max(body.as_str(), 0x8000_0000) {
            Some(n) => {
                let m: i64 = 0 - (n as i64);
                Some(m as i32)
            },
            None => None,
        }
    } else {
        match parse_unsigned_with_max(s, 0x7fff_ffff) {
            Some(n) => Some(n as i32),
            None => None,
        }
    }
}

// ───────────────────────────── case ─────────────────────────────
/// What `str::to_lowercase` returns for a string: the Unicode lowercase
/// mapping of every character.
pub uninterp spec fn lowercase_of(s: Seq<char>) -> Seq<char>;

/// `str::to_lowercase`, whose result is named `lowercase_of`. Every
/// character lowercases to one or more characters, so the result is empty
/// exactly when `s` is.
#[verifier::external_body]
pub(crate) fn to_lowercase(s: &str) -> (r: String)
    ensures
        r@ == lowercase_of(s@),
        r@.len() == 0 <==> s@.len() == 0,
{
    s.to_lowercase()
}

} // verus!
