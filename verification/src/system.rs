//! Facts about the machine read from system tools' output: memory use from
//! `vm_stat` and `sysctl`, and whether a model's weight files are on disk.
use vstd::prelude::*;

use crate::text::{
    chars_of, contains_str, ends_with, find_sub, has_prefix, has_substring, has_suffix, occurs_at,
    parse_u64, parse_u64_spec, split_char, split_on, starts_with, string_from_range,
    strip_trailing, strip_trailing_char, trim, trim_str, views,
};

verus! {

// ───────────────────────────── lines ─────────────────────────────
/// The lines of `s` as `str::lines` yields them: split at `\n`, a `\r`
/// before a `\n` removed, and no empty line after a final `\n`.
pub open spec fn text_lines(s: Seq<char>) -> Seq<Seq<char>> {
    let pieces = split_on(s, '\n');
    let n: int = if pieces.last().len() == 0 {
        pieces.len() - 1
    } else {
        pieces.len() as int
    };
    Seq::new(
        n as nat,
        |i: int|
            if i < pieces.len() - 1 && pieces[i].len() > 0 && pieces[i].last() == '\r' {
                pieces[i].drop_last()
            } else {
                pieces[i]
            },
    )
}

proof fn lemma_split_on_nonempty(s: Seq<char>, c: char)
    ensures
        split_on(s, c).len() >= 1,
    decreases s.len(),
{
    if s.len() > 0 {
        lemma_split_on_nonempty(s.drop_last(), c);
    }
}

/// The lines of `s`.
pub fn lines_of(s: &str) -> (r: Vec<String>)
    ensures
        views(r@) == text_lines(s@),
{
    let pieces = split_char(s, '\n');
    let ghost ps = views(pieces@);
    proof {
        lemma_split_on_nonempty(s@, '\n');
    }
    let last_len = pieces[pieces.len() - 1].as_str().unicode_len();
    let n = if last_len == 0 {
        pieces.len() - 1
    } else {
        pieces.len()
    };
    let mut r: Vec<String> = Vec::new();
    for i in 0..n
        invariant
            ps == views(pieces@),
            ps == split_on(s@, '\n'),
            ps.len() == pieces.len(),
            n <= pieces.len(),
            n == (if ps.last().len() == 0 {
                ps.len() - 1
            } else {
                ps.len() as int
            }),
            views(r@) == text_lines(s@).take(i as int),
    {
        let v = chars_of(pieces[i].as_str());
        let line = if i + 1 < pieces.len() && v.len() > 0 && v[v.len() - 1] == '\r' {
            let l = string_from_range(&v, 0, v.len() - 1);
            assert(v@.subrange(0, v@.len() - 1) =~= v@.drop_last());
            l
        } else {
            pieces[i].clone()
        };
        let ghost before = views(r@);
        r.push(line);
        assert(views(r@) =~= before.push(line@));
        assert(text_lines(s@).take(i + 1) =~= text_lines(s@).take(i as int).push(text_lines(s@)[i as int]));
    }
    assert(text_lines(s@).take(n as int) =~= text_lines(s@));
    r
}

// ───────────────────────────── vm_stat ─────────────────────────────
/// The counters read from `vm_stat`.
#[derive(Debug, Clone, Copy, PartialEq, Eq, Structural)]
pub struct VmStats {
    pub page_size: u64,
    pub active: u64,
    pub wired: u64,
    pub compressed: u64,
}

/// The number after the first `:` of a `vm_stat` line, without white space
/// and trailing dots; `0` when there is none or it is not a number.
pub open spec fn vm_stat_value(line: Seq<char>) -> u64 {
    let pieces = split_on(line, ':');
    if pieces.len() < 2 {
        0
    } else {
        match parse_u64_spec(strip_trailing(trim(pieces[1]), '.')) {
            Some(v) => v,
            None => 0,
        }
    }
}

/// The value of a `vm_stat` counter line such as `Pages active: 12345.`.
pub fn parse_vm_stat_val(line: &str) -> (r: u64)
    ensures
        r == vm_stat_value(line@),
{
    let pieces = split_char(line, ':');
    if pieces.len() < 2 {
        return 0;
    }
    let t = trim_str(pieces[1].as_str());
    let d = strip_trailing_char(t.as_str(), '.');
    match parse_u64(d.as_str()) {
        Some(v) => v,
        None => 0,
    }
}

/// `i` is where `p` first occurs in `s`.
pub open spec fn is_first_occurrence(s: Seq<char>, p: Seq<char>, i: int) -> bool {
    occurs_at(s, p, i) && forall|k: int| 0 <= k < i ==> !occurs_at(s, p, k)
}

/// The page size stated in the header line, if it states one: the number
/// after the first `page size of `, up to the next space; `16384` when that
/// is not a number.
pub open spec fn header_page_size(line: Seq<char>) -> Option<u64> {
    if exists|i: int| is_first_occurrence(line, "page size of "@, i) {
        let i = choose|i: int| is_first_occurrence(line, "page size of "@, i);
        let rest = line.skip(i + 13);
        if exists|e: int| is_first_occurrence(rest, " "@, e) {
            let e = choose|e: int| is_first_occurrence(rest, " "@, e);
            match parse_u64_spec(rest.take(e)) {
                Some(v) => Some(v),
                None => Some(16384),
            }
        } else {
            None
        }
    } else {
        None
    }
}

/// The counters after reading the first `k` lines.
pub open spec fn vm_stats_upto(lines: Seq<Seq<char>>, k: int) -> VmStats
    decreases k,
{
    if k <= 0 {
        VmStats { page_size: 16384, active: 0, wired: 0, compressed: 0 }
    } else {
        let st = vm_stats_upto(lines, k - 1);
        let l = lines[k - 1];
        if has_prefix(l, "Mach Virtual Memory Statistics"@) {
            match header_page_size(l) {
                Some(p) => VmStats { page_size: p, ..st },
                None => st,
            }
        } else if has_substring(l, "Pages active"@) {
            VmStats { active: vm_stat_value(l), ..st }
        } else if has_substring(l, "Pages wired"@) {
            VmStats { wired: vm_stat_value(l), ..st }
        } else if has_substring(l, "Pages occupied by compressor"@) {
            VmStats { compressed: vm_stat_value(l), ..st }
        } else {
            st
        }
    }
}

proof fn lemma_first_occurrence_unique(s: Seq<char>, p: Seq<char>, i: int, j: int)
    requires
        is_first_occurrence(s, p, i),
        is_first_occurrence(s, p, j),
    ensures
        i == j,
{
    if i < j {
        assert(occurs_at(s, p, i));
    } else if j < i {
        assert(occurs_at(s, p, j));
    }
}

/// The page size of a header line, if it states one.
fn page_size_of(line: &str) -> (r: Option<u64>)
    ensures
        r == header_page_size(line@),
{
    let v = chars_of(line);
    let pat = chars_of("page size of ");
    proof {
        reveal_strlit("page size of ");
        reveal_strlit(" ");
    }
    match find_sub(&v, &pat) {
        None => {
            proof {
                if exists|i: int| is_first_occurrence(line@, "page size of "@, i) {
                    let i = choose|i: int| is_first_occurrence(line@, "page size of "@, i);
                    assert(occurs_at(line@, "page size of "@, i));
                }
            }
            None
        },
        Some(i) => {
            proof {
                assert(is_first_occurrence(line@, "page size of "@, i as int));
                let c = choose|k: int| is_first_occurrence(line@, "page size of "@, k);
                lemma_first_occurrence_unique(line@, "page size of "@, i as int, c);
                assert(pat@ == "page size of "@);
                assert(pat@.len() == 13);
                assert(occurs_at(v@, pat@, i as int));
                assert(i + 13 <= v@.len());
            }
            assert(i + 13 <= v.len());
            let start: usize = i + 13;
            let rest = string_from_range(&v, start, v.len());
            assert(v@.subrange(i + 13, v@.len() as int) =~= v@.skip(i + 13));
            let rv = chars_of(rest.as_str());
            let sp = chars_of(" ");
            match find_sub(&rv, &sp) {
                None => {
                    proof {
                        if exists|e: int| is_first_occurrence(rest@, " "@, e) {
                            let e = choose|e: int| is_first_occurrence(rest@, " "@, e);
                            assert(occurs_at(rest@, " "@, e));
                        }
                    }
                    None
                },
                Some(e) => {
                    proof {
                        assert(is_first_occurrence(rest@, " "@, e as int));
                        let c = choose|k: int| is_first_occurrence(rest@, " "@, k);
                        lemma_first_occurrence_unique(rest@, " "@, e as int, c);
                    }
                    let num = string_from_range(&rv, 0, e);
                    assert(rv@.subrange(0, e as int) =~= rv@.take(e as int));
                    match parse_u64(num.as_str()) {
                        Some(p) => Some(p),
                        None => Some(16384),
                    }
                },
            }
        },
    }
}

/// The counters in `vm_stat` output; a counter that no line states keeps
/// its default (page size `16384`, counts `0`), and a later line wins.
pub fn parse_vm_stat(output: &str) -> (r: VmStats)
    ensures
        r == vm_stats_upto(text_lines(output@), text_lines(output@).len() as int),
{
    let lines = lines_of(output);
    let ghost ls = views(lines@);
    let mut st = VmStats { page_size: 16384, active: 0, wired: 0, compressed: 0 };
    for k in 0..lines.len()
        invariant
            ls == views(lines@),
            ls.len() == lines.len(),
            st == vm_stats_upto(ls, k as int),
    {
        let l = lines[k].as_str();
        assert(ls[k as int] == l@);
        if starts_with(l, "Mach Virtual Memory Statistics") {
            match page_size_of(l) {
                Some(p) => {
                    st = VmStats { page_size: p, ..st };
                },
                None => {},
            }
        } else if contains_str(l, "Pages active") {
            st = VmStats { active: parse_vm_stat_val(l), ..st };
        } else if contains_str(l, "Pages wired") {
            st = VmStats { wired: parse_vm_stat_val(l), ..st };
        } else if contains_str(l, "Pages occupied by compressor") {
            st = VmStats { compressed: parse_vm_stat_val(l), ..st };
        }
    }
    st
}

/// The memory in use, in bytes: active, wired and compressed pages.
pub fn used_bytes(st: VmStats) -> (r: u64)
    requires
        st.active + st.wired + st.compressed <= u64::MAX,
        (st.active + st.wired + st.compressed) * st.page_size <= u64::MAX,
    ensures
        r == (st.active + st.wired + st.compressed) * st.page_size,
{
    let pages = st.active + st.wired + st.compressed;
    pages * st.page_size
}

/// The installed memory from `sysctl -n hw.memsize` output; `0` when it is
/// not a number.
pub fn parse_memsize(output: &str) -> (r: u64)
    ensures
        r == (match parse_u64_spec(trim(output@)) {
            Some(v) => v,
            None => 0,
        }),
{
    let t = trim_str(output);
    match parse_u64(t.as_str()) {
        Some(v) => v,
        None => 0,
    }
}

// ───────────────────────────── weight files ─────────────────────────────
/// What a file in a model's directory is.
#[derive(Debug, Clone, Copy, PartialEq, Eq, Structural)]
pub enum WeightFileKind {
    /// A GGUF file: one per quantisation, so its size tells variants apart.
    Gguf,
    /// A `.safetensors` or `.bin` weight file.
    Weights,
    /// Anything else.
    Other,
}

/// The kind of file named `name`.
pub fn weight_file_kind(name: &str) -> (r: WeightFileKind)
    ensures
        r == (if has_suffix(name@, ".gguf"@) {
            WeightFileKind::Gguf
        } else if has_suffix(name@, ".safetensors"@) || has_suffix(name@, ".bin"@) {
            WeightFileKind::Weights
        } else {
            WeightFileKind::Other
        }),
{
    if ends_with(name, ".gguf") {
        WeightFileKind::Gguf
    } else if ends_with(name, ".safetensors") || ends_with(name, ".bin") {
        WeightFileKind::Weights
    } else {
        WeightFileKind::Other
    }
}

/// `x` read as a signed 64-bit number (`x as i64`).
pub open spec fn as_signed(x: u64) -> int {
    if x <= i64::MAX {
        x as int
    } else {
        x - 0x1_0000_0000_0000_0000
    }
}

/// A GGUF file of `actual` bytes is the expected variant of `expected`
/// bytes when the sizes differ by at most 5% (a twentieth) of `expected`.
pub fn gguf_size_matches(actual: u64, expected: u64) -> (r: bool)
    requires
        i64::MIN <= as_signed(actual) - as_signed(expected) <= i64::MAX,
    ensures
        r == ({
            let d = as_signed(actual) - as_signed(expected);
            (if d < 0 {
                -d
            } else {
                d
            }) <= expected / 20
        }),
{
    let tolerance = expected / 20;
    let a = actual as i64;
    let e = expected as i64;
    assert(a == as_signed(actual)) by (bit_vector)
        requires
            a == actual as i64,
    ;
    assert(e == as_signed(expected)) by (bit_vector)
        requires
            e == expected as i64,
    ;
    let d = a - e;
    let mag: u64 = if d < 0 {
        if d == i64::MIN {
            0x8000_0000_0000_0000u64
        } else {
            (-d) as u64
        }
    } else {
        d as u64
    };
    mag <= tolerance
}

/// Whether a directory entry shows that the model's weights are present:
/// a weight file, or a GGUF file of the expected size (any size when none is
/// expected). `actual` is the entry's size, read only for a GGUF file when a
/// size is expected.
pub fn entry_has_weights(kind: WeightFileKind, expected: u64, actual: u64) -> (r: bool)
    requires
        kind == WeightFileKind::Gguf && expected > 0 ==> i64::MIN <= as_signed(actual) - as_signed(
            expected,
        ) <= i64::MAX,
    ensures
        r == (match kind {
            WeightFileKind::Weights => true,
            WeightFileKind::Other => false,
            WeightFileKind::Gguf => expected == 0 || {
                let d = as_signed(actual) - as_signed(expected);
                (if d < 0 {
                    -d
                } else {
                    d
                }) <= expected / 20
            },
        }),
{
    match kind {
        WeightFileKind::Weights => true,
        WeightFileKind::Other => false,
        WeightFileKind::Gguf => expected == 0 || gguf_size_matches(actual, expected),
    }
}

/// Models larger than 100 MiB are only counted as downloaded when their
/// weight files are found; smaller ones when their directory has any entry.
pub fn needs_weight_check(size_bytes: u64) -> (r: bool)
    ensures
        r == (size_bytes > 100 * 1024 * 1024),
{
    size_bytes > 100 * 1024 * 1024
}

/// Hidden entries (name starting with `.`) do not count as content.
pub fn is_hidden_entry(name: &str) -> (r: bool)
    ensures
        r == has_prefix(name@, "."@),
{
    starts_with(name, ".")
}

} // verus!
