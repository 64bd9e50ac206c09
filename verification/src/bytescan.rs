//! Verified byte-string scanning: substring search, whitespace trimming,
//! tokenization, line splitting, decimal numbers, suffix stripping.  The
//! backend-introspection parsers and the command protocol are built on
//! these.
use vstd::prelude::*;

verus! {

/// ASCII whitespace, as the tool output in question uses it.
pub open spec fn is_ws(b: u8) -> bool {
    b == 32 || b == 9 || b == 13 || b == 10
}

/// `needle` occurs in `hay` at position `i`.
pub open spec fn match_at(hay: Seq<u8>, needle: Seq<u8>, i: int) -> bool {
    0 <= i && i + needle.len() <= hay.len() && hay.subrange(i, i + needle.len()) == needle
}

/// `needle` occurs somewhere in `hay`.
pub open spec fn contains_seq(hay: Seq<u8>, needle: Seq<u8>) -> bool {
    exists|i: int| match_at(hay, needle, i)
}

/// Whether two byte strings are equal.
pub fn bytes_eq(a: &[u8], b: &[u8]) -> (r: bool)
    ensures
        r == (a@ == b@),
{
    if a.len() != b.len() {
        return false;
    }
    let mut i: usize = 0;
    while i < a.len()
        invariant
            a@.len() == b@.len(),
            i <= a@.len(),
            forall|j: int| 0 <= j < i ==> a@[j] == b@[j],
        decreases a@.len() - i,
    {
        if a[i] != b[i] {
            return false;
        }
        i = i + 1;
    }
    proof {
        assert(a@ =~= b@);
    }
    true
}

/// Whether `needle` occurs in `hay` at position `i`.
pub fn match_at_exec(hay: &[u8], needle: &[u8], i: usize) -> (r: bool)
    ensures
        r == match_at(hay@, needle@, i as int),
{
    if i > hay.len() || hay.len() - i < needle.len() {
        return false;
    }
    let mut j: usize = 0;
    while j < needle.len()
        invariant
            i + needle@.len() <= hay@.len(),
            j <= needle@.len(),
            forall|k: int| 0 <= k < j ==> hay@[i + k] == needle@[k],
        decreases needle@.len() - j,
    {
        let hl = hay.len();
        if hay[i + j] != needle[j] {
            proof {
                assert(hay@.subrange(i as int, i as int + needle@.len() as int)[j as int]
                    == hay@[i + j]);
            }
            return false;
        }
        j = j + 1;
    }
    proof {
        assert(hay@.subrange(i as int, i as int + needle@.len() as int) =~= needle@);
    }
    true
}

/// The position of the first occurrence of `needle` in `hay`, if any.
pub fn find_seq(hay: &[u8], needle: &[u8]) -> (r: Option<usize>)
    ensures
        match r {
            Some(i) => match_at(hay@, needle@, i as int) && forall|j: int|
                0 <= j < i ==> !match_at(hay@, needle@, j),
            None => !contains_seq(hay@, needle@),
        },
{
    if needle.len() == 0 {
        proof {
            assert(hay@.subrange(0, 0) =~= needle@);
        }
        return Some(0);
    }
    let mut i: usize = 0;
    while i < hay.len()
        invariant
            needle@.len() > 0,
            i <= hay@.len(),
            forall|j: int| 0 <= j < i ==> !match_at(hay@, needle@, j),
        decreases hay@.len() - i,
    {
        if match_at_exec(hay, needle, i) {
            return Some(i);
        }
        i = i + 1;
    }
    proof {
        assert(!contains_seq(hay@, needle@)) by {
            if contains_seq(hay@, needle@) {
                let j = choose|j: int| match_at(hay@, needle@, j);
                assert(j < hay@.len());
            }
        }
    }
    None
}

/// Whether `needle` occurs in `hay`.
pub fn contains_bytes(hay: &[u8], needle: &[u8]) -> (r: bool)
    ensures
        r == contains_seq(hay@, needle@),
{
    match find_seq(hay, needle) {
        Some(_) => true,
        None => false,
    }
}

/// Whether `hay` starts with `needle`.
pub fn starts_with(hay: &[u8], needle: &[u8]) -> (r: bool)
    ensures
        r == match_at(hay@, needle@, 0),
{
    match_at_exec(hay, needle, 0)
}

/// The position of the first occurrence of byte `b` at or after `from`.
pub fn find_byte_from(hay: &[u8], b: u8, from: usize) -> (r: Option<usize>)
    requires
        from <= hay@.len(),
    ensures
        match r {
            Some(i) => from <= i < hay@.len() && hay@[i as int] == b && forall|j: int|
                from <= j < i ==> hay@[j] != b,
            None => forall|j: int| from <= j < hay@.len() ==> hay@[j] != b,
        },
{
    let mut i: usize = from;
    while i < hay.len()
        invariant
            from <= i <= hay@.len(),
            forall|j: int| from <= j < i ==> hay@[j] != b,
        decreases hay@.len() - i,
    {
        if hay[i] == b {
            return Some(i);
        }
        i = i + 1;
    }
    None
}

/// A byte string without its leading ASCII whitespace.
pub open spec fn trim_start_spec(s: Seq<u8>) -> Seq<u8>
    decreases s.len(),
{
    if s.len() > 0 && is_ws(s[0]) {
        trim_start_spec(s.drop_first())
    } else {
        s
    }
}

/// A byte string without its trailing ASCII whitespace.
pub open spec fn trim_end_spec(s: Seq<u8>) -> Seq<u8>
    decreases s.len(),
{
    if s.len() > 0 && is_ws(s.last()) {
        trim_end_spec(s.drop_last())
    } else {
        s
    }
}

/// A byte string without leading or trailing ASCII whitespace.
pub open spec fn trim_spec(s: Seq<u8>) -> Seq<u8> {
    trim_end_spec(trim_start_spec(s))
}

/// Trims ASCII whitespace from both ends.
pub fn trim_ascii<'a>(s: &'a [u8]) -> (r: &'a [u8])
    ensures
        r@ == trim_spec(s@),
{
    let mut lo: usize = 0;
    proof {
        assert(s@.skip(0) =~= s@);
    }
    while lo < s.len() && (s[lo] == 32 || s[lo] == 9 || s[lo] == 13 || s[lo] == 10)
        invariant
            lo <= s@.len(),
            trim_start_spec(s@) == trim_start_spec(s@.skip(lo as int)),
        decreases s@.len() - lo,
    {
        proof {
            assert(s@.skip(lo as int).drop_first() =~= s@.skip(lo as int + 1));
        }
        lo = lo + 1;
    }
    proof {
        assert(trim_start_spec(s@.skip(lo as int)) == s@.skip(lo as int));
    }
    let mut hi: usize = s.len();
    proof {
        assert(s@.skip(lo as int).take(s@.len() - lo as int) =~= s@.skip(lo as int));
    }
    while hi > lo && (s[hi - 1] == 32 || s[hi - 1] == 9 || s[hi - 1] == 13 || s[hi - 1] == 10)
        invariant
            lo <= hi <= s@.len(),
            trim_start_spec(s@) == s@.skip(lo as int),
            trim_end_spec(s@.skip(lo as int)) == trim_end_spec(
                s@.skip(lo as int).take(hi as int - lo as int),
            ),
        decreases hi,
    {
        proof {
            assert(s@.skip(lo as int).take(hi as int - lo as int).drop_last() =~= s@.skip(
                lo as int,
            ).take(hi as int - 1 - lo as int));
            assert(s@.skip(lo as int).take(hi as int - lo as int).last() == s@[hi as int - 1]);
        }
        hi = hi - 1;
    }
    proof {
        let t = s@.skip(lo as int).take(hi as int - lo as int);
        assert(trim_end_spec(t) == t);
        assert(s@.subrange(lo as int, hi as int) =~= t);
    }
    vstd::slice::slice_subrange(s, lo, hi)
}

/// The bytes after the last occurrence of `c`, or the whole string when
/// `c` does not occur.
pub open spec fn after_last_byte(s: Seq<u8>, c: u8) -> Seq<u8> {
    match s.index_of_last(c) {
        Some(i) => s.skip(i + 1),
        None => s,
    }
}

/// The tail of `s` after its last occurrence of `c` (the whole of `s`
/// when `c` does not occur).
pub fn after_last<'a>(s: &'a [u8], c: u8) -> (r: &'a [u8])
    ensures
        r@ == after_last_byte(s@, c),
{
    let mut i: usize = s.len();
    while i > 0
        invariant
            i <= s@.len(),
            forall|j: int| i <= j < s@.len() ==> s@[j] != c,
        decreases i,
    {
        if s[i - 1] == c {
            proof {
                s@.index_of_last_ensures(c);
                match s@.index_of_last(c) {
                    Some(k) => {
                        assert(s@[i - 1] == c);
                        assert(k == i - 1);
                    },
                    None => {
                        assert(false);
                    },
                }
            }
            return vstd::slice::slice_subrange(s, i, s.len());
        }
        i = i - 1;
    }
    proof {
        s@.index_of_last_ensures(c);
        match s@.index_of_last(c) {
            Some(k) => {
                assert(false);
            },
            None => {},
        }
        assert(s@.subrange(0, s@.len() as int) =~= s@);
    }
    vstd::slice::slice_subrange(s, 0, s.len())
}

/// The byte string with every trailing repetition of `suffix` removed.
pub open spec fn strip_suffix_all_spec(s: Seq<u8>, suffix: Seq<u8>) -> Seq<u8>
    decreases s.len(),
{
    if suffix.len() > 0 && s.len() >= suffix.len() && s.subrange(
        s.len() - suffix.len(),
        s.len() as int,
    ) == suffix {
        strip_suffix_all_spec(s.take(s.len() - suffix.len()), suffix)
    } else {
        s
    }
}

/// Removes every trailing repetition of `suffix`.
pub fn strip_suffix_all<'a>(s: &'a [u8], suffix: &[u8]) -> (r: &'a [u8])
    ensures
        r@ == strip_suffix_all_spec(s@, suffix@),
    decreases s@.len(),
{
    if suffix.len() > 0 && s.len() >= suffix.len() {
        let tail = vstd::slice::slice_subrange(s, s.len() - suffix.len(), s.len());
        if bytes_eq(tail, suffix) {
            let head = vstd::slice::slice_subrange(s, 0, s.len() - suffix.len());
            proof {
                assert(head@ =~= s@.take(s@.len() - suffix@.len()));
            }
            return strip_suffix_all(head, suffix);
        }
    }
    s
}

/// The digits value of a decimal byte string (most significant first).
pub open spec fn dec_value(s: Seq<u8>) -> int
    decreases s.len(),
{
    if s.len() == 0 {
        0
    } else {
        dec_value(s.drop_last()) * 10 + (s.last() - 48)
    }
}

/// Whether every byte is an ASCII digit.
pub open spec fn all_digits(s: Seq<u8>) -> bool {
    forall|i: int| 0 <= i < s.len() ==> 48 <= #[trigger] s[i] <= 57
}

/// A decimal u32: one or more digits whose value fits.
pub open spec fn is_dec_u32(s: Seq<u8>) -> bool {
    s.len() > 0 && all_digits(s) && dec_value(s) <= u32::MAX
}

pub proof fn lemma_dec_value_nonneg(s: Seq<u8>)
    requires
        all_digits(s),
    ensures
        dec_value(s) >= 0,
    decreases s.len(),
{
    if s.len() > 0 {
        assert(all_digits(s.drop_last()));
        lemma_dec_value_nonneg(s.drop_last());
    }
}

proof fn lemma_dec_value_prefix(s: Seq<u8>, i: int)
    requires
        all_digits(s),
        0 <= i <= s.len(),
    ensures
        dec_value(s) >= dec_value(s.take(i)),
    decreases s.len() - i,
{
    if i < s.len() {
        let t = s.take(i + 1);
        assert(t.drop_last() =~= s.take(i));
        assert(all_digits(s.take(i)));
        lemma_dec_value_nonneg(s.take(i));
        assert(dec_value(t) == dec_value(s.take(i)) * 10 + (s[i] - 48));
        lemma_dec_value_prefix(s, i + 1);
    } else {
        assert(s.take(i) =~= s);
    }
}

/// Parses a decimal u32: one or more digits, nothing else, value in
/// range.
pub fn parse_u32_dec(s: &[u8]) -> (r: Option<u32>)
    ensures
        match r {
            Some(v) => is_dec_u32(s@) && v == dec_value(s@),
            None => !is_dec_u32(s@),
        },
{
    if s.len() == 0 {
        return None;
    }
    let mut value: u32 = 0;
    let mut i: usize = 0;
    while i < s.len()
        invariant
            i <= s@.len(),
            all_digits(s@.take(i as int)),
            value == dec_value(s@.take(i as int)),
        decreases s@.len() - i,
    {
        let b = s[i];
        if b < 48 || b > 57 {
            proof {
                assert(!all_digits(s@));
            }
            return None;
        }
        let d = (b - 48) as u32;
        if value > (u32::MAX - d) / 10 {
            proof {
                assert(all_digits(s@.take(i as int + 1))) by {
                    assert(forall|j: int|
                        0 <= j < i + 1 ==> 48 <= #[trigger] s@.take(i as int + 1)[j] <= 57);
                }
                assert(s@.take(i as int + 1).drop_last() =~= s@.take(i as int));
                assert(dec_value(s@.take(i as int + 1)) == value * 10 + d);
                assert(dec_value(s@.take(i as int + 1)) > u32::MAX);
                if all_digits(s@) {
                    lemma_dec_value_prefix(s@, i as int + 1);
                }
            }
            return None;
        }
        proof {
            assert(s@.take(i as int + 1).drop_last() =~= s@.take(i as int));
        }
        value = value * 10 + d;
        i = i + 1;
    }
    proof {
        assert(s@.take(s@.len() as int) =~= s@);
    }
    Some(value)
}

/// The decimal digits of `n`, most significant first.
pub open spec fn dec_digits(n: int) -> Seq<u8>
    decreases n,
{
    if n < 0 {
        Seq::empty()
    } else if n < 10 {
        seq![(48 + n) as u8]
    } else {
        dec_digits(n / 10) + seq![(48 + n % 10) as u8]
    }
}

/// Renders `n` in decimal.
pub fn format_u32(n: u32) -> (r: Vec<u8>)
    ensures
        r@ == dec_digits(n as int),
    decreases n,
{
    if n < 10 {
        let mut out: Vec<u8> = Vec::new();
        out.push(48 + (n as u8));
        proof {
            assert(out@ =~= dec_digits(n as int));
        }
        out
    } else {
        let mut out = format_u32(n / 10);
        out.push(48 + ((n % 10) as u8));
        proof {
            assert(out@ =~= dec_digits(n as int));
        }
        out
    }
}

/// The lines of a byte string, split on newlines, each without a trailing
/// carriage return; empty input has no lines.
pub open spec fn lines_spec(s: Seq<u8>) -> Seq<Seq<u8>>
    decreases s.len(),
{
    if s.len() == 0 {
        Seq::empty()
    } else {
        match s.index_of_first(10u8) {
            Some(i) => {
                if 0 <= i < s.len() {
                    seq![strip_one_cr(s.subrange(0, i))] + lines_spec(
                        s.subrange(i + 1, s.len() as int),
                    )
                } else {
                    seq![strip_one_cr(s)]
                }
            },
            None => seq![strip_one_cr(s)],
        }
    }
}

/// A line without one trailing carriage return, if it has one.
pub open spec fn strip_one_cr(s: Seq<u8>) -> Seq<u8> {
    if s.len() > 0 && s.last() == 13 {
        s.drop_last()
    } else {
        s
    }
}

/// Splits into lines on newline bytes, stripping one trailing carriage
/// return from each line.
pub fn split_lines(s: &[u8]) -> (r: Vec<Vec<u8>>)
    ensures
        r@.map_values(|v: Vec<u8>| v@) == lines_spec(s@),
    decreases s@.len(),
{
    proof {
        s@.index_of_first_ensures(10u8);
    }
    if s.len() == 0 {
        let out: Vec<Vec<u8>> = Vec::new();
        proof {
            assert(out@.map_values(|v: Vec<u8>| v@) =~= lines_spec(s@));
        }
        return out;
    }
    match find_byte_from(s, 10, 0) {
        Some(i) => {
            proof {
                match s@.index_of_first(10u8) {
                    Some(k) => {
                        assert(k == i);
                    },
                    None => {
                        assert(false);
                    },
                }
            }
            let line = strip_cr_exec(vstd::slice::slice_subrange(s, 0, i));
            let rest = vstd::slice::slice_subrange(s, i + 1, s.len());
            let tail = split_lines(rest);
            let mut out: Vec<Vec<u8>> = Vec::new();
            out.push(line);
            let mut tail = tail;
            out.append(&mut tail);
            proof {
                assert(out@.map_values(|v: Vec<u8>| v@) =~= seq![out@[0]@] + out@.skip(
                    1,
                ).map_values(|v: Vec<u8>| v@));
            }
            out
        },
        None => {
            proof {
                match s@.index_of_first(10u8) {
                    Some(k) => {
                        assert(false);
                    },
                    None => {},
                }
            }
            let line = strip_cr_exec(s);
            let mut out: Vec<Vec<u8>> = Vec::new();
            out.push(line);
            proof {
                assert(out@.map_values(|v: Vec<u8>| v@) =~= lines_spec(s@));
            }
            out
        },
    }
}

fn strip_cr_exec(s: &[u8]) -> (r: Vec<u8>)
    ensures
        r@ == strip_one_cr(s@),
{
    let end = if s.len() > 0 && s[s.len() - 1] == 13 {
        s.len() - 1
    } else {
        s.len()
    };
    let sub = vstd::slice::slice_subrange(s, 0, end);
    proof {
        if s@.len() > 0 && s@.last() == 13 {
            assert(sub@ =~= s@.drop_last());
        } else {
            assert(sub@ =~= s@);
        }
    }
    vstd::slice::slice_to_vec(sub)
}

/// The whitespace-separated fields of a byte string.
pub open spec fn fields_spec(s: Seq<u8>) -> Seq<Seq<u8>>
    decreases s.len(),
{
    let t = trim_start_spec(s);
    if t.len() == 0 {
        Seq::empty()
    } else {
        let token = token_prefix(t);
        if 0 < token.len() <= t.len() && t.len() <= s.len() {
            seq![token] + fields_spec(t.skip(token.len() as int))
        } else {
            seq![token]
        }
    }
}

/// The maximal non-whitespace prefix.
pub open spec fn token_prefix(s: Seq<u8>) -> Seq<u8>
    decreases s.len(),
{
    if s.len() > 0 && !is_ws(s[0]) {
        seq![s[0]] + token_prefix(s.drop_first())
    } else {
        Seq::empty()
    }
}

/// Splits a byte string into its whitespace-separated fields.
pub fn split_fields(s: &[u8]) -> (r: Vec<Vec<u8>>)
    ensures
        r@.map_values(|v: Vec<u8>| v@) == fields_spec(s@),
    decreases s@.len(),
{
    let mut lo: usize = 0;
    proof {
        assert(s@.skip(0) =~= s@);
    }
    while lo < s.len() && (s[lo] == 32 || s[lo] == 9 || s[lo] == 13 || s[lo] == 10)
        invariant
            lo <= s@.len(),
            trim_start_spec(s@) == trim_start_spec(s@.skip(lo as int)),
        decreases s@.len() - lo,
    {
        proof {
            assert(s@.skip(lo as int).drop_first() =~= s@.skip(lo as int + 1));
        }
        lo = lo + 1;
    }
    proof {
        assert(trim_start_spec(s@.skip(lo as int)) == s@.skip(lo as int));
    }
    if lo == s.len() {
        let out: Vec<Vec<u8>> = Vec::new();
        proof {
            assert(s@.skip(lo as int).len() == 0);
            assert(out@.map_values(|v: Vec<u8>| v@) =~= fields_spec(s@));
        }
        return out;
    }
    let ghost t = s@.skip(lo as int);
    let mut hi: usize = lo;
    while hi < s.len() && !(s[hi] == 32 || s[hi] == 9 || s[hi] == 13 || s[hi] == 10)
        invariant
            lo <= hi <= s@.len(),
            t == s@.skip(lo as int),
            forall|j: int| lo <= j < hi ==> !is_ws(s@[j]),
        decreases s@.len() - hi,
    {
        hi = hi + 1;
    }
    proof {
        lemma_token_prefix_range(t, hi as int - lo as int);
        assert(t.subrange(0, hi as int - lo as int) =~= s@.subrange(lo as int, hi as int));
    }
    let token = vstd::slice::slice_to_vec(vstd::slice::slice_subrange(s, lo, hi));
    let rest = vstd::slice::slice_subrange(s, hi, s.len());
    proof {
        assert(rest@ =~= t.skip(hi as int - lo as int));
    }
    let tail = split_fields(rest);
    let mut out: Vec<Vec<u8>> = Vec::new();
    out.push(token);
    let mut tail = tail;
    out.append(&mut tail);
    proof {
        assert(out@.map_values(|v: Vec<u8>| v@) =~= seq![out@[0]@] + out@.skip(1).map_values(
            |v: Vec<u8>| v@,
        ));
    }
    out
}

/// The token prefix of `t` is exactly its first `n` bytes when those are
/// non-whitespace and the next byte (if any) is whitespace.
proof fn lemma_token_prefix_range(t: Seq<u8>, n: int)
    requires
        0 <= n <= t.len(),
        forall|j: int| 0 <= j < n ==> !is_ws(t[j]),
        n < t.len() ==> is_ws(t[n]),
    ensures
        token_prefix(t) == t.subrange(0, n),
    decreases n,
{
    if n == 0 {
        assert(t.subrange(0, 0) =~= Seq::<u8>::empty());
    } else {
        let d = t.drop_first();
        assert(forall|j: int| 0 <= j < n - 1 ==> !is_ws(d[j]));
        lemma_token_prefix_range(d, n - 1);
        assert(seq![t[0]] + d.subrange(0, n - 1) =~= t.subrange(0, n));
    }
}

/// Splits on every occurrence of a separator, as the standard split of a
/// string by a pattern does: `n + 1` pieces for `n` separators, in order.
pub open spec fn split_on_spec(s: Seq<u8>, sep: Seq<u8>) -> Seq<Seq<u8>>
    decreases s.len(),
{
    if sep.len() == 0 {
        seq![s]
    } else {
        match first_match_index(s, sep) {
            Some(i) => {
                if 0 <= i && i + sep.len() <= s.len() {
                    seq![s.subrange(0, i)] + split_on_spec(
                        s.subrange(i + sep.len(), s.len() as int),
                        sep,
                    )
                } else {
                    seq![s]
                }
            },
            None => seq![s],
        }
    }
}

/// The first position at which `sep` occurs in `s`.
pub open spec fn first_match_index(s: Seq<u8>, sep: Seq<u8>) -> Option<int> {
    if contains_seq(s, sep) {
        Some(choose|i: int| match_at(s, sep, i) && forall|j: int| 0 <= j < i ==> !match_at(s, sep, j))
    } else {
        None
    }
}

/// Splits on every occurrence of `sep`; with an empty separator the
/// whole string is the one piece.
pub fn split_on(s: &[u8], sep: &[u8]) -> (r: Vec<Vec<u8>>)
    ensures
        r@.map_values(|v: Vec<u8>| v@) == split_on_spec(s@, sep@),
    decreases s@.len(),
{
    if sep.len() == 0 {
        let mut out: Vec<Vec<u8>> = Vec::new();
        out.push(vstd::slice::slice_to_vec(s));
        proof {
            assert(out@.map_values(|v: Vec<u8>| v@) =~= split_on_spec(s@, sep@));
        }
        return out;
    }
    match find_seq(s, sep) {
        Some(i) => {
            proof {
                lemma_first_match_index(s@, sep@, i as int);
            }
            let piece = vstd::slice::slice_to_vec(vstd::slice::slice_subrange(s, 0, i));
            let sl = s.len();
            assert(i + sep@.len() <= sl);
            let rest = vstd::slice::slice_subrange(s, i + sep.len(), s.len());
            let tail = split_on(rest, sep);
            let mut out: Vec<Vec<u8>> = Vec::new();
            out.push(piece);
            let mut tail = tail;
            out.append(&mut tail);
            proof {
                assert(out@.map_values(|v: Vec<u8>| v@) =~= seq![out@[0]@] + out@.skip(
                    1,
                ).map_values(|v: Vec<u8>| v@));
            }
            out
        },
        None => {
            proof {
                assert(first_match_index(s@, sep@) is None);
            }
            let mut out: Vec<Vec<u8>> = Vec::new();
            out.push(vstd::slice::slice_to_vec(s));
            proof {
                assert(out@.map_values(|v: Vec<u8>| v@) =~= split_on_spec(s@, sep@));
            }
            out
        },
    }
}

/// A minimal match found by search pins down `first_match_index`.
proof fn lemma_first_match_index(s: Seq<u8>, sep: Seq<u8>, i: int)
    requires
        match_at(s, sep, i),
        forall|j: int| 0 <= j < i ==> !match_at(s, sep, j),
    ensures
        first_match_index(s, sep) == Some(i),
{
    assert(contains_seq(s, sep));
    let k = choose|k: int| match_at(s, sep, k) && forall|j: int| 0 <= j < k ==> !match_at(s, sep, j);
    if k < i {
        assert(!match_at(s, sep, k));
    }
    if i < k {
        assert(!match_at(s, sep, i));
    }
}

/// A byte with any ASCII capital letter folded to lower case.
pub open spec fn lower_byte(b: u8) -> u8 {
    if 65 <= b <= 90 {
        (b + 32) as u8
    } else {
        b
    }
}

/// A byte string with ASCII capital letters folded to lower case.
pub open spec fn ascii_lower_spec(s: Seq<u8>) -> Seq<u8> {
    s.map_values(|b: u8| lower_byte(b))
}

/// Folds ASCII capital letters to lower case.
pub fn to_ascii_lower(s: &[u8]) -> (r: Vec<u8>)
    ensures
        r@ == ascii_lower_spec(s@),
{
    let mut out: Vec<u8> = Vec::new();
    let mut i: usize = 0;
    while i < s.len()
        invariant
            i <= s@.len(),
            out@ =~= ascii_lower_spec(s@.take(i as int)),
        decreases s@.len() - i,
    {
        let b = s[i];
        if 65 <= b && b <= 90 {
            out.push(b + 32);
        } else {
            out.push(b);
        }
        i = i + 1;
        proof {
            assert(out@ =~= ascii_lower_spec(s@.take(i as int)));
        }
    }
    proof {
        assert(s@.take(s@.len() as int) =~= s@);
    }
    out
}

/// Concatenates two byte strings.
pub fn concat2(a: &[u8], b: &[u8]) -> (r: Vec<u8>)
    ensures
        r@ == a@ + b@,
{
    let mut out = vstd::slice::slice_to_vec(a);
    let mut bv = vstd::slice::slice_to_vec(b);
    out.append(&mut bv);
    out
}

/// Concatenates three byte strings.
pub fn concat3(a: &[u8], b: &[u8], c: &[u8]) -> (r: Vec<u8>)
    ensures
        r@ == a@ + b@ + c@,
{
    let mut out = vstd::slice::slice_to_vec(a);
    let mut bv = vstd::slice::slice_to_vec(b);
    out.append(&mut bv);
    let mut cv = vstd::slice::slice_to_vec(c);
    out.append(&mut cv);
    out
}

} // verus!
