//! Bot identifiers of the form `<length>;<model>@<provider>`, where
//! `<length>` is the byte length of `<model>` in UTF-8.
use vstd::prelude::*;

use crate::text::{
    chars_of, decimal, is_digit, lemma_decimal_digits, parse_unsigned, parse_usize,
    parse_usize_spec, string_from_range,
};

verus! {

/// The number of bytes that `c` takes in UTF-8.
pub open spec fn utf8_width(c: char) -> nat {
    let x = c as u32;
    if x < 0x80 {
        1
    } else if x < 0x800 {
        2
    } else if x < 0x10000 {
        3
    } else {
        4
    }
}

/// The number of bytes that `s` takes in UTF-8.
pub open spec fn utf8_len(s: Seq<char>) -> nat
    decreases s.len(),
{
    if s.len() == 0 {
        0
    } else {
        utf8_width(s[0]) + utf8_len(s.drop_first())
    }
}

/// The index of the character that starts at byte `b` of `s` (`s.len()` for
/// the end); `None` when byte `b` is inside a character or past the end.
pub open spec fn char_at_byte(s: Seq<char>, b: nat) -> Option<nat>
    decreases s.len(),
{
    if b == 0 {
        Some(0)
    } else if s.len() == 0 {
        None
    } else if b < utf8_width(s[0]) {
        None
    } else {
        match char_at_byte(s.drop_first(), (b - utf8_width(s[0])) as nat) {
            Some(k) => Some(k + 1),
            None => None,
        }
    }
}

/// The index of the first `c` in `s`.
pub open spec fn first_index_of(s: Seq<char>, c: char) -> Option<nat>
    decreases s.len(),
{
    if s.len() == 0 {
        None
    } else if s[0] == c {
        Some(0)
    } else {
        match first_index_of(s.drop_first(), c) {
            Some(i) => Some(i + 1),
            None => None,
        }
    }
}

/// How a bot identifier splits: `None` for the fallback (no `;`, a length
/// that is not a number, or fewer bytes after the `;` than the length and the
/// separator need); else the model and provider parts.
pub open spec fn bot_id_split(s: Seq<char>) -> Option<(Seq<char>, Seq<char>)> {
    match first_index_of(s, ';') {
        None => None,
        Some(p) => match parse_usize_spec(s.take(p as int)) {
            None => None,
            Some(l) => {
                let rest = s.skip(p + 1 as int);
                if utf8_len(rest) >= l + 1 {
                    match char_at_byte(rest, l as nat) {
                        Some(k) => Some((rest.take(k as int), rest.skip(k + 1 as int))),
                        None => None,
                    }
                } else {
                    None
                }
            },
        },
    }
}

/// Splitting the identifier would cut a character apart (or the length is
/// the largest `usize`, so that the length plus the separator overflows).
pub open spec fn bot_id_faulty(s: Seq<char>) -> bool {
    match first_index_of(s, ';') {
        None => false,
        Some(p) => match parse_usize_spec(s.take(p as int)) {
            None => false,
            Some(l) => {
                let rest = s.skip(p + 1 as int);
                l == usize::MAX || (utf8_len(rest) >= l + 1 && match char_at_byte(rest, l as nat) {
                    Some(k) => utf8_width(rest[k as int]) != 1,
                    None => true,
                })
            },
        },
    }
}

/// The `(model, provider)` of a bot identifier, or two empty strings when it
/// does not have the expected form.
pub open spec fn bot_parts(s: Seq<char>) -> (Seq<char>, Seq<char>) {
    match bot_id_split(s) {
        Some(parts) => parts,
        None => (Seq::<char>::empty(), Seq::<char>::empty()),
    }
}

proof fn lemma_first_index_of(s: Seq<char>, c: char)
    ensures
        match first_index_of(s, c) {
            Some(i) => i < s.len() && s[i as int] == c && forall|j: int| 0 <= j < i ==> s[j] != c,
            None => forall|j: int| 0 <= j < s.len() ==> s[j] != c,
        },
    decreases s.len(),
{
    if s.len() > 0 && s[0] != c {
        lemma_first_index_of(s.drop_first(), c);
        assert forall|j: int| 0 < j < s.len() implies s[j] == s.drop_first()[j - 1] by {}
    }
}

proof fn lemma_utf8_width_pos(c: char)
    ensures
        1 <= utf8_width(c) <= 4,
{
}

proof fn lemma_utf8_len_push(s: Seq<char>, c: char)
    ensures
        utf8_len(s.push(c)) == utf8_len(s) + utf8_width(c),
    decreases s.len(),
{
    if s.len() > 0 {
        assert(s.push(c)[0] == s[0]);
        assert(s.push(c).drop_first() =~= s.drop_first().push(c));
        lemma_utf8_len_push(s.drop_first(), c);
    } else {
        assert(s.push(c)[0] == c);
        assert(s.push(c).drop_first() =~= Seq::<char>::empty());
        assert(utf8_len(Seq::<char>::empty()) == 0);
    }
}

proof fn lemma_utf8_len_split(s: Seq<char>, i: int)
    requires
        0 <= i <= s.len(),
    ensures
        utf8_len(s) == utf8_len(s.take(i)) + utf8_len(s.skip(i)),
    decreases s.len() - i,
{
    if i == s.len() {
        assert(s.take(i) =~= s);
        assert(s.skip(i) =~= Seq::<char>::empty());
    } else {
        lemma_utf8_len_split(s, i + 1);
        assert(s.take(i + 1) =~= s.take(i).push(s[i]));
        lemma_utf8_len_push(s.take(i), s[i]);
        assert(s.skip(i).drop_first() =~= s.skip(i + 1));
    }
}

/// Moving the start by one character shifts the byte offsets.
proof fn lemma_char_at_byte_skip(s: Seq<char>, i: int, b: nat)
    requires
        0 <= i < s.len(),
        b >= utf8_width(s[i]),
    ensures
        char_at_byte(s.skip(i), b) == (match char_at_byte(s.skip(i + 1), (b - utf8_width(s[i])) as nat) {
            Some(k) => Some(k + 1),
            None => None::<nat>,
        }),
{
    assert(s.skip(i).drop_first() =~= s.skip(i + 1));
    assert(s.skip(i)[0] == s[i]);
    lemma_utf8_width_pos(s[i]);
}

/// Index of the first `c` in `v`.
fn find_char(v: &Vec<char>, c: char) -> (r: Option<usize>)
    ensures
        r == (match first_index_of(v@, c) {
            Some(i) => Some(i as usize),
            None => None::<usize>,
        }),
{
    let mut i: usize = 0;
    assert(v@.skip(0) =~= v@);
    while i < v.len()
        invariant
            i <= v.len(),
            first_index_of(v@, c) == (match first_index_of(v@.skip(i as int), c) {
                Some(k) => Some((k + i) as nat),
                None => None::<nat>,
            }),
        decreases v.len() - i,
    {
        assert(v@.skip(i as int)[0] == v@[i as int]);
        if v[i] == c {
            return Some(i);
        }
        assert(v@.skip(i as int).drop_first() =~= v@.skip(i + 1));
        i = i + 1;
    }
    None
}

/// The byte width of `c`.
fn char_width(c: char) -> (w: usize)
    ensures
        w == utf8_width(c),
{
    let x = c as u32;
    if x < 0x80 {
        1
    } else if x < 0x800 {
        2
    } else if x < 0x10000 {
        3
    } else {
        4
    }
}

/// Splits a bot identifier into its model and provider parts; two empty
/// strings when it is not of the form `<length>;<model>@<provider>` (the
/// character after the model is skipped whatever it is).
pub fn parse_bot_id_string(bot_id: &str) -> (r: (String, String))
    requires
        !bot_id_faulty(bot_id@),
    ensures
        (r.0@, r.1@) == bot_parts(bot_id@),
{
    let v = chars_of(bot_id);
    proof {
        lemma_first_index_of(v@, ';');
    }
    let Some(p) = find_char(&v, ';') else {
        return (String::new(), String::new());
    };
    let head = string_from_range(&v, 0, p);
    assert(v@.subrange(0, p as int) =~= v@.take(p as int));
    let Some(l) = parse_usize(head.as_str()) else {
        return (String::new(), String::new());
    };
    let ghost rest = v@.skip(p + 1);
    // walk the characters after `;`, counting bytes, until `l` bytes are reached
    let mut i: usize = p + 1;
    let mut acc: usize = 0;
    assert(rest.take(0) =~= Seq::<char>::empty());
    while i < v.len() && acc < l
        invariant
            p + 1 <= i <= v.len(),
            v@ == bot_id@,
            !bot_id_faulty(bot_id@),
            first_index_of(v@, ';') == Some(p as nat),
            parse_usize_spec(v@.take(p as int)) == Some(l),
            rest == v@.skip(p + 1),
            l < usize::MAX,
            acc <= l,
            acc == utf8_len(rest.take(i - (p + 1))),
            char_at_byte(rest, l as nat) == (match char_at_byte(v@.skip(i as int), (l - acc) as nat) {
                Some(k) => Some((k + (i - (p + 1))) as nat),
                None => None::<nat>,
            }),
        decreases v.len() - i,
    {
        let w = char_width(v[i]);
        let ghost j = i - (p + 1);
        assert(rest.take(j + 1) =~= rest.take(j).push(v@[i as int]));
        proof {
            lemma_utf8_len_push(rest.take(j), v@[i as int]);
        }
        if w > l - acc {
            // byte `l` falls inside this character
            proof {
                assert(v@.skip(i as int)[0] == v@[i as int]);
                assert(char_at_byte(v@.skip(i as int), (l - acc) as nat) is None);
                lemma_utf8_len_split(rest, j + 1);
                assert(utf8_len(rest) >= l + 1);
            }
            assert(false);
            return (String::new(), String::new());
        }
        proof {
            lemma_char_at_byte_skip(v@, i as int, (l - acc) as nat);
        }
        acc = acc + w;
        i = i + 1;
    }
    let ghost j = i - (p + 1);
    if acc < l {
        // fewer than `l` bytes follow the `;`
        proof {
            assert(rest.take(j) =~= rest);
        }
        return (String::new(), String::new());
    }
    // byte `l` starts character `i`
    assert(char_at_byte(v@.skip(i as int), 0) == Some(0nat));
    if i == v.len() {
        // the model takes all that follows: no byte is left for the separator
        proof {
            assert(rest.take(j) =~= rest);
        }
        return (String::new(), String::new());
    }
    proof {
        lemma_utf8_len_split(rest, j);
        lemma_utf8_width_pos(v@[i as int]);
        assert(rest.skip(j)[0] == v@[i as int]);
        assert(rest.skip(j).drop_first() =~= rest.skip(j + 1));
        assert(utf8_len(rest) >= l + 1);
        assert(rest[j] == v@[i as int]);
    }
    let model = string_from_range(&v, p + 1, i);
    let provider = string_from_range(&v, i + 1, v.len());
    assert(v@.subrange(p + 1, i as int) =~= rest.take(j));
    assert(v@.subrange(i + 1, v@.len() as int) =~= rest.skip(j + 1));
    (model, provider)
}


/// A character boundary at byte `b` lies at character index `k`, which the
/// first `k` characters fill exactly.
pub proof fn lemma_char_at_byte_some(s: Seq<char>, b: nat)
    requires
        char_at_byte(s, b) is Some,
    ensures
        char_at_byte(s, b)->0 <= s.len(),
        utf8_len(s.take(char_at_byte(s, b)->0 as int)) == b,
    decreases s.len(),
{
    if b == 0 {
        assert(s.take(0) =~= Seq::<char>::empty());
    } else {
        let w = utf8_width(s[0]);
        lemma_char_at_byte_some(s.drop_first(), (b - w) as nat);
        let k = char_at_byte(s.drop_first(), (b - w) as nat)->0;
        assert(s.take(k + 1 as int).drop_first() =~= s.drop_first().take(k as int));
        assert(s.take(k + 1 as int)[0] == s[0]);
    }
}

/// A sequence takes at least one byte per character.
pub proof fn lemma_utf8_len_at_least_len(s: Seq<char>)
    ensures
        utf8_len(s) >= s.len(),
    decreases s.len(),
{
    if s.len() > 0 {
        lemma_utf8_width_pos(s[0]);
        lemma_utf8_len_at_least_len(s.drop_first());
    }
}

/// Two character boundaries at bytes `a <= b` come in order, and the
/// characters between them number at most `b - a`.
pub proof fn lemma_boundaries_ordered(s: Seq<char>, a: nat, b: nat)
    requires
        a <= b,
        char_at_byte(s, a) is Some,
        char_at_byte(s, b) is Some,
    ensures
        char_at_byte(s, a)->0 <= char_at_byte(s, b)->0 <= s.len(),
        char_at_byte(s, b)->0 - char_at_byte(s, a)->0 <= b - a,
{
    let ka = char_at_byte(s, a)->0 as int;
    let kb = char_at_byte(s, b)->0 as int;
    lemma_char_at_byte_some(s, a);
    lemma_char_at_byte_some(s, b);
    if ka > kb {
        lemma_utf8_len_split(s.take(ka), kb);
        assert(s.take(ka).take(kb) =~= s.take(kb));
        if a == b {
            lemma_utf8_len_at_least_len(s.take(ka).skip(kb));
        }
        assert(s.take(ka).skip(kb).len() > 0);
        assert(s.take(ka).skip(kb)[0] == s[kb]);
        lemma_utf8_width_pos(s[kb]);
        lemma_utf8_len_split(s.take(ka).skip(kb), 1);
        assert(s.take(ka).skip(kb).take(1) =~= seq![s[kb]]);
        assert(seq![s[kb]].drop_first() =~= Seq::<char>::empty());
    }
    lemma_utf8_len_split(s.take(kb), ka);
    assert(s.take(kb).take(ka) =~= s.take(ka));
    assert(s.take(kb).skip(ka) =~= s.subrange(ka, kb));
    lemma_utf8_len_at_least_len(s.subrange(ka, kb));
}

/// The index of the character that starts at byte `b` of `v`.
pub fn char_index_at_byte(v: &Vec<char>, b: usize) -> (r: Option<usize>)
    ensures
        r == (match char_at_byte(v@, b as nat) {
            Some(k) => Some(k as usize),
            None => None::<usize>,
        }),
{
    let mut i: usize = 0;
    let mut acc: usize = 0;
    assert(v@.skip(0) =~= v@);
    while i < v.len() && acc < b
        invariant
            i <= v.len(),
            acc <= b,
            char_at_byte(v@, b as nat) == (match char_at_byte(v@.skip(i as int), (b - acc) as nat) {
                Some(k) => Some((k + i) as nat),
                None => None::<nat>,
            }),
        decreases v.len() - i,
    {
        let w = char_width(v[i]);
        if w > b - acc {
            proof {
                assert(v@.skip(i as int)[0] == v@[i as int]);
            }
            return None;
        }
        proof {
            lemma_char_at_byte_skip(v@, i as int, (b - acc) as nat);
        }
        acc = acc + w;
        i = i + 1;
    }
    if acc < b {
        assert(v@.skip(i as int).len() == 0);
        return None;
    }
    proof {
        lemma_char_at_byte_some(v@, b as nat);
    }
    Some(i)
}


/// The identifier of the bot for model `m` at provider `p`:
/// `<byte length of m>;<m>@<p>`.
pub open spec fn bot_id_text(m: Seq<char>, p: Seq<char>) -> Seq<char> {
    decimal(utf8_len(m)) + seq![';'] + m + seq!['@'] + p
}

/// Where `a` holds no `c`, the first `c` of `a + b` is the first of `b`, moved.
proof fn lemma_first_index_of_after(a: Seq<char>, b: Seq<char>, c: char)
    requires
        forall|i: int| 0 <= i < a.len() ==> a[i] != c,
    ensures
        first_index_of(a + b, c) == (match first_index_of(b, c) {
            Some(k) => Some(k + a.len()),
            None => None::<nat>,
        }),
    decreases a.len(),
{
    if a.len() > 0 {
        assert((a + b)[0] == a[0]);
        assert((a + b).drop_first() =~= a.drop_first() + b);
        lemma_first_index_of_after(a.drop_first(), b, c);
    } else {
        assert(a + b =~= b);
    }
}

/// The byte length of `m` ends exactly at its last character, whatever follows.
proof fn lemma_char_at_byte_end(m: Seq<char>, t: Seq<char>)
    ensures
        char_at_byte(m + t, utf8_len(m)) == Some(m.len()),
    decreases m.len(),
{
    if m.len() > 0 {
        lemma_utf8_width_pos(m[0]);
        assert((m + t)[0] == m[0]);
        assert((m + t).drop_first() =~= m.drop_first() + t);
        lemma_char_at_byte_end(m.drop_first(), t);
    } else {
        assert(m + t =~= t);
    }
}

/// A bot identifier built from a model and a provider splits back into
/// them (where the model's byte length plus the separator fits a `usize`).
pub proof fn lemma_bot_id_round_trip(m: Seq<char>, p: Seq<char>)
    requires
        utf8_len(m) < usize::MAX,
    ensures
        !bot_id_faulty(bot_id_text(m, p)),
        bot_parts(bot_id_text(m, p)) == (m, p),
{
    let l = utf8_len(m);
    let d = decimal(l);
    let s = bot_id_text(m, p);
    let rest = m + seq!['@'] + p;
    lemma_decimal_digits(l);
    assert forall|i: int| 0 <= i < d.len() implies d[i] != ';' by {
        assert(is_digit(d[i]));
    }
    assert(s =~= d + (seq![';'] + rest));
    lemma_first_index_of_after(d, seq![';'] + rest, ';');
    assert((seq![';'] + rest)[0] == ';');
    assert(first_index_of(seq![';'] + rest, ';') == Some(0nat));
    assert(first_index_of(s, ';') == Some(d.len()));
    assert(s.take(d.len() as int) =~= d);
    assert(is_digit(d[0]));
    assert(parse_unsigned(d, usize::MAX as nat) == Some(l));
    assert(parse_usize_spec(d) == Some(l as usize));
    assert(s.skip(d.len() + 1 as int) =~= rest);
    // the model fills the first `l` bytes of what follows the `;`
    lemma_char_at_byte_end(m, seq!['@'] + p);
    assert(rest =~= m + (seq!['@'] + p));
    lemma_utf8_len_split(rest, m.len() as int);
    assert(rest.take(m.len() as int) =~= m);
    let tail = rest.skip(m.len() as int);
    assert(tail[0] == '@');
    lemma_utf8_width_pos(tail[0]);
    assert(utf8_len(tail) >= 1);
    assert(rest[m.len() as int] == '@');
    assert(utf8_width('@') == 1);
    assert(rest.take(m.len() as int) =~= m);
    assert(rest.skip(m.len() + 1 as int) =~= p);
}

} // verus!
