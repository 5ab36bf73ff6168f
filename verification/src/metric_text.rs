//! The metric-text key format: a compact JSON-style array
//! `["family","name",["label",...],["value",...]]`.
//!
//! The grammar is the subset the metric writers emit: no whitespace
//! between tokens, JSON numbers, and `null` / `true` / `false`. The
//! family, metric and label names are strings without escape sequences or
//! control bytes; a label value may be any value, and its string form also
//! admits JSON escape sequences, kept verbatim in the raw text. A key that
//! falls outside the subset fails to parse, and the caller skips or
//! rejects the record.

use vstd::prelude::*;

verus! {

/// A byte that may appear inside a string token: anything but the quote,
/// the backslash (escapes are not part of the subset) and control bytes.
pub open spec fn is_string_byte(b: u8) -> bool {
    b != 34 && b != 92 && b >= 0x20
}

/// Index of the first byte at or after `i` that cannot appear inside a
/// string token.
pub open spec fn spec_scan_string(s: Seq<u8>, i: int) -> int
    decreases s.len() - i,
{
    if i < 0 || i >= s.len() {
        s.len() as int
    } else if is_string_byte(s[i]) {
        spec_scan_string(s, i + 1)
    } else {
        i
    }
}

/// A string token at `i`: a quote, string bytes, a quote. Yields the
/// content and the index after the closing quote.
pub open spec fn spec_parse_string(s: Seq<u8>, i: int) -> Option<(Seq<u8>, int)> {
    if 0 <= i < s.len() && s[i] == 34 {
        let j = spec_scan_string(s, i + 1);
        if j < s.len() && s[j] == 34 {
            Some((s.subrange(i + 1, j), j + 1))
        } else {
            None
        }
    } else {
        None
    }
}

/// Whether `b` is an ASCII digit.
pub open spec fn is_digit(b: u8) -> bool {
    0x30 <= b <= 0x39
}

/// Index of the first non-digit byte at or after `i`.
pub open spec fn spec_scan_digits(s: Seq<u8>, i: int) -> int
    decreases s.len() - i,
{
    if i < 0 || i >= s.len() {
        s.len() as int
    } else if is_digit(s[i]) {
        spec_scan_digits(s, i + 1)
    } else {
        i
    }
}

/// The digit scan stays in range and stops at a non-digit.
pub proof fn lemma_scan_digits_range(s: Seq<u8>, i: int)
    requires
        0 <= i <= s.len(),
    ensures
        i <= spec_scan_digits(s, i) <= s.len(),
        spec_scan_digits(s, i) < s.len() ==> !is_digit(s[spec_scan_digits(s, i)]),
        forall|j: int| i <= j < spec_scan_digits(s, i) ==> is_digit(#[trigger] s[j]),
    decreases s.len() - i,
{
    if i < s.len() && is_digit(s[i]) {
        lemma_scan_digits_range(s, i + 1);
    }
}

/// The integer part of a number starting at `i` (after any sign): one zero,
/// or a nonzero digit followed by digits. Yields the index after it.
pub open spec fn spec_parse_int_part(s: Seq<u8>, i: int) -> Option<int> {
    if 0 <= i < s.len() && is_digit(s[i]) {
        if s[i] == 0x30 {
            Some(i + 1)
        } else {
            Some(spec_scan_digits(s, i))
        }
    } else {
        None
    }
}

/// A JSON number token at `i`: optional minus, integer part, optional
/// fraction, optional exponent. Yields the index after it.
pub open spec fn spec_parse_number(s: Seq<u8>, i: int) -> Option<int> {
    let a = if 0 <= i < s.len() && s[i] == 0x2d {
        i + 1
    } else {
        i
    };
    match spec_parse_int_part(s, a) {
        None => None,
        Some(b) => {
            let c = if b < s.len() && s[b] == 0x2e {
                if b + 1 < s.len() && is_digit(s[b + 1]) {
                    Some(spec_scan_digits(s, b + 1))
                } else {
                    None
                }
            } else {
                Some(b)
            };
            match c {
                None => None,
                Some(c) => {
                    if c < s.len() && (s[c] == 0x65 || s[c] == 0x45) {
                        let e = if c + 1 < s.len() && (s[c + 1] == 0x2b || s[c + 1] == 0x2d) {
                            c + 2
                        } else {
                            c + 1
                        };
                        if e < s.len() && is_digit(s[e]) {
                            Some(spec_scan_digits(s, e))
                        } else {
                            None
                        }
                    } else {
                        Some(c)
                    }
                },
            }
        },
    }
}

/// Whether `s` holds `word` starting at `i`.
pub open spec fn spec_has_word(s: Seq<u8>, i: int, word: Seq<u8>) -> bool {
    0 <= i && i + word.len() <= s.len() && s.subrange(i, i + word.len()) == word
}

/// The bytes of `null`.
pub open spec fn null_bytes() -> Seq<u8> {
    seq![0x6eu8, 0x75u8, 0x6cu8, 0x6cu8]
}

/// The bytes of `true`.
pub open spec fn true_bytes() -> Seq<u8> {
    seq![0x74u8, 0x72u8, 0x75u8, 0x65u8]
}

/// The bytes of `false`.
pub open spec fn false_bytes() -> Seq<u8> {
    seq![0x66u8, 0x61u8, 0x6cu8, 0x73u8, 0x65u8]
}

/// A byte that may follow a backslash in a string escape.
pub open spec fn is_escapable(b: u8) -> bool {
    b == 34 || b == 92 || b == 47 || b == 98 || b == 102 || b == 110 || b == 114 || b == 116
}

/// Whether `b` is an ASCII hexadecimal digit.
pub open spec fn is_hex(b: u8) -> bool {
    0x30 <= b <= 0x39 || 0x41 <= b <= 0x46 || 0x61 <= b <= 0x66
}

/// Index of the quote closing a string body read from `i`, where the body
/// may hold JSON escape sequences; `None` where the body is malformed or
/// unterminated.
pub open spec fn spec_scan_raw_string(s: Seq<u8>, i: int) -> Option<int>
    decreases s.len() - i,
{
    if i < 0 || i >= s.len() {
        None
    } else if s[i] == 34 {
        Some(i)
    } else if s[i] == 92 {
        if i + 1 < s.len() && s[i + 1] == 0x75 {
            if i + 6 <= s.len() && is_hex(s[i + 2]) && is_hex(s[i + 3]) && is_hex(s[i + 4])
                && is_hex(s[i + 5]) {
                spec_scan_raw_string(s, i + 6)
            } else {
                None
            }
        } else if i + 1 < s.len() && is_escapable(s[i + 1]) {
            spec_scan_raw_string(s, i + 2)
        } else {
            None
        }
    } else if s[i] >= 0x20 {
        spec_scan_raw_string(s, i + 1)
    } else {
        None
    }
}

/// A string token at `i` whose body may hold escape sequences. Yields the
/// index after the closing quote; the raw text keeps the escapes verbatim.
pub open spec fn spec_parse_raw_string(s: Seq<u8>, i: int) -> Option<int> {
    if 0 <= i < s.len() && s[i] == 34 {
        match spec_scan_raw_string(s, i + 1) {
            None => None,
            Some(j) => Some(j + 1),
        }
    } else {
        None
    }
}

/// A label value token at `i`: a string, a number, `null`, `true` or
/// `false`. Yields the index after it; the raw text is the bytes between.
pub open spec fn spec_parse_value(s: Seq<u8>, i: int) -> Option<int> {
    if 0 <= i < s.len() && s[i] == 34 {
        spec_parse_raw_string(s, i)
    } else if 0 <= i < s.len() && (s[i] == 0x2d || is_digit(s[i])) {
        spec_parse_number(s, i)
    } else if spec_has_word(s, i, null_bytes()) {
        Some(i + 4)
    } else if spec_has_word(s, i, true_bytes()) {
        Some(i + 4)
    } else if spec_has_word(s, i, false_bytes()) {
        Some(i + 5)
    } else {
        None
    }
}

/// The items of a non-empty string array, read from after the opening
/// bracket: string tokens separated by commas, then the closing bracket.
/// Yields the contents and the index after the bracket.
pub open spec fn spec_parse_string_items(s: Seq<u8>, i: int) -> Option<(Seq<Seq<u8>>, int)>
    decreases s.len() - i,
{
    if !(0 <= i < s.len()) {
        None
    } else {
        match spec_parse_string(s, i) {
            None => None,
            Some((item, j)) => {
                if j < s.len() && s[j] == 0x2c {
                    if j + 1 <= i {
                        None
                    } else {
                        match spec_parse_string_items(s, j + 1) {
                            None => None,
                            Some((rest, k)) => Some((seq![item] + rest, k)),
                        }
                    }
                } else if j < s.len() && s[j] == 0x5d {
                    Some((seq![item], j + 1))
                } else {
                    None
                }
            },
        }
    }
}

/// A string array at `i`: `[]`, or bracketed comma-separated strings.
pub open spec fn spec_parse_string_array(s: Seq<u8>, i: int) -> Option<(Seq<Seq<u8>>, int)> {
    if 0 <= i < s.len() && s[i] == 0x5b {
        if i + 1 < s.len() && s[i + 1] == 0x5d {
            Some((seq![], i + 2))
        } else {
            spec_parse_string_items(s, i + 1)
        }
    } else {
        None
    }
}

/// The items of a non-empty value array, read from after the opening
/// bracket. Yields each item's raw text and the index after the bracket.
pub open spec fn spec_parse_value_items(s: Seq<u8>, i: int) -> Option<(Seq<Seq<u8>>, int)>
    decreases s.len() - i,
{
    if !(0 <= i < s.len()) {
        None
    } else {
        match spec_parse_value(s, i) {
            None => None,
            Some(j) => {
                let raw = s.subrange(i, j);
                if j < s.len() && s[j] == 0x2c {
                    if j + 1 <= i {
                        None
                    } else {
                        match spec_parse_value_items(s, j + 1) {
                            None => None,
                            Some((rest, k)) => Some((seq![raw] + rest, k)),
                        }
                    }
                } else if j < s.len() && s[j] == 0x5d {
                    Some((seq![raw], j + 1))
                } else {
                    None
                }
            },
        }
    }
}

/// A value array at `i`: `[]`, or bracketed comma-separated values.
pub open spec fn spec_parse_value_array(s: Seq<u8>, i: int) -> Option<(Seq<Seq<u8>>, int)> {
    if 0 <= i < s.len() && s[i] == 0x5b {
        if i + 1 < s.len() && s[i + 1] == 0x5d {
            Some((seq![], i + 2))
        } else {
            spec_parse_value_items(s, i + 1)
        }
    } else {
        None
    }
}

/// The whole metric text: `[` family `,` name `,` labels `,` values `]`,
/// with nothing after the final bracket.
pub open spec fn spec_parse_metric_text(s: Seq<u8>) -> Option<MetricTextView> {
    if !(s.len() >= 1 && s[0] == 0x5b) {
        None
    } else {
        match spec_parse_string(s, 1) {
            None => None,
            Some((family, i1)) => {
                if !(i1 < s.len() && s[i1] == 0x2c) {
                    None
                } else {
                    match spec_parse_string(s, i1 + 1) {
                        None => None,
                        Some((name, i2)) => {
                            if !(i2 < s.len() && s[i2] == 0x2c) {
                                None
                            } else {
                                match spec_parse_string_array(s, i2 + 1) {
                                    None => None,
                                    Some((labels, i3)) => {
                                        if !(i3 < s.len() && s[i3] == 0x2c) {
                                            None
                                        } else {
                                            match spec_parse_value_array(s, i3 + 1) {
                                                None => None,
                                                Some((values, i4)) => {
                                                    if i4 == s.len() - 1 && s[i4] == 0x5d {
                                                        Some(
                                                            MetricTextView {
                                                                family_name: family,
                                                                metric_name: name,
                                                                labels,
                                                                values,
                                                            },
                                                        )
                                                    } else {
                                                        None
                                                    }
                                                },
                                            }
                                        }
                                    },
                                }
                            }
                        },
                    }
                }
            },
        }
    }
}

/// The mathematical content of a parsed metric text.
pub struct MetricTextView {
    pub family_name: Seq<u8>,
    pub metric_name: Seq<u8>,
    pub labels: Seq<Seq<u8>>,
    pub values: Seq<Seq<u8>>,
}

/// The fields of one parsed metric text: the family and metric names, the
/// label names, and each label value's raw text (quotes kept for strings).
pub struct MetricText {
    pub family_name: Vec<u8>,
    pub metric_name: Vec<u8>,
    pub labels: Vec<Vec<u8>>,
    pub values: Vec<Vec<u8>>,
}

impl MetricText {
    /// The mathematical content.
    pub open spec fn view_spec(self) -> MetricTextView {
        MetricTextView {
            family_name: self.family_name@,
            metric_name: self.metric_name@,
            labels: self.labels.deep_view(),
            values: self.values.deep_view(),
        }
    }
}

fn string_byte_at(s: &[u8], j: usize) -> (r: bool)
    requires
        j < s@.len(),
    ensures
        r == is_string_byte(s@[j as int]),
{
    let b = *vstd::slice::slice_index_get(s, j);
    b != 34 && b != 92 && b >= 0x20
}

pub(crate) fn digit_at(s: &[u8], j: usize) -> (r: bool)
    requires
        j < s@.len(),
    ensures
        r == is_digit(s@[j as int]),
{
    let b = *vstd::slice::slice_index_get(s, j);
    0x30 <= b && b <= 0x39
}

fn scan_string(s: &[u8], i: usize) -> (r: usize)
    requires
        i <= s@.len(),
    ensures
        r == spec_scan_string(s@, i as int),
        i <= r <= s@.len(),
{
    let n = s.len();
    let mut j = i;
    while j < n && string_byte_at(s, j)
        invariant
            i <= j <= n,
            n == s@.len(),
            spec_scan_string(s@, i as int) == spec_scan_string(s@, j as int),
        decreases n - j,
    {
        j = j + 1;
    }
    j
}

pub(crate) fn scan_digits(s: &[u8], i: usize) -> (r: usize)
    requires
        i <= s@.len(),
    ensures
        r == spec_scan_digits(s@, i as int),
        i <= r <= s@.len(),
{
    let n = s.len();
    let mut j = i;
    while j < n && digit_at(s, j)
        invariant
            i <= j <= n,
            n == s@.len(),
            spec_scan_digits(s@, i as int) == spec_scan_digits(s@, j as int),
        decreases n - j,
    {
        j = j + 1;
    }
    j
}

pub(crate) fn parse_string(s: &[u8], i: usize) -> (r: Option<(Vec<u8>, usize)>)
    requires
        i <= s@.len(),
    ensures
        r is Some <==> spec_parse_string(s@, i as int) is Some,
        r matches Some((content, next)) ==> spec_parse_string(s@, i as int) == Some(
            (content@, next as int),
        ) && next <= s@.len() && i < next,
{
    if i >= s.len() || *vstd::slice::slice_index_get(s, i) != 34 {
        return None;
    }
    let j = scan_string(s, i + 1);
    if j < s.len() && *vstd::slice::slice_index_get(s, j) == 34 {
        let content = vstd::slice::slice_to_vec(vstd::slice::slice_subrange(s, i + 1, j));
        Some((content, j + 1))
    } else {
        None
    }
}

fn scan_raw_string(s: &[u8], i: usize) -> (r: Option<usize>)
    requires
        i <= s@.len(),
    ensures
        r is Some <==> spec_scan_raw_string(s@, i as int) is Some,
        r matches Some(j) ==> spec_scan_raw_string(s@, i as int) == Some(j as int) && i <= j
            < s@.len(),
{
    let n = s.len();
    let mut j = i;
    let mut found: Option<usize> = None;
    loop
        invariant_except_break
            i <= j <= n,
            n == s@.len(),
            found is None,
            spec_scan_raw_string(s@, i as int) == spec_scan_raw_string(s@, j as int),
        ensures
            ({
                let sc = spec_scan_raw_string(s@, i as int);
                match found {
                    Option::Some(k) => sc == Some(k as int) && i <= k < s@.len(),
                    Option::None => sc is None,
                }
            }),
        decreases n - j,
    {
        if j >= n {
            break ;
        }
        let b = *vstd::slice::slice_index_get(s, j);
        if b == 34 {
            found = Some(j);
            break ;
        }
        if b == 92 {
            if j + 1 < n && *vstd::slice::slice_index_get(s, j + 1) == 0x75 {
                if n - j >= 6 && hex_at(s, j + 2) && hex_at(s, j + 3) && hex_at(s, j + 4)
                    && hex_at(s, j + 5) {
                    j = j + 6;
                } else {
                    break ;
                }
            } else if j + 1 < n && escapable_at(s, j + 1) {
                j = j + 2;
            } else {
                break ;
            }
        } else if b >= 0x20 {
            j = j + 1;
        } else {
            break ;
        }
    }
    found
}

fn hex_at(s: &[u8], j: usize) -> (r: bool)
    requires
        j < s@.len(),
    ensures
        r == is_hex(s@[j as int]),
{
    let b = *vstd::slice::slice_index_get(s, j);
    (0x30 <= b && b <= 0x39) || (0x41 <= b && b <= 0x46) || (0x61 <= b && b <= 0x66)
}

fn escapable_at(s: &[u8], j: usize) -> (r: bool)
    requires
        j < s@.len(),
    ensures
        r == is_escapable(s@[j as int]),
{
    let b = *vstd::slice::slice_index_get(s, j);
    b == 34 || b == 92 || b == 47 || b == 98 || b == 102 || b == 110 || b == 114 || b == 116
}

fn parse_raw_string(s: &[u8], i: usize) -> (r: Option<usize>)
    requires
        i <= s@.len(),
    ensures
        r is Some <==> spec_parse_raw_string(s@, i as int) is Some,
        r matches Some(next) ==> spec_parse_raw_string(s@, i as int) == Some(next as int) && next
            <= s@.len() && i < next,
{
    if i >= s.len() || *vstd::slice::slice_index_get(s, i) != 34 {
        return None;
    }
    match scan_raw_string(s, i + 1) {
        Some(j) => Some(j + 1),
        None => None,
    }
}

fn parse_int_part(s: &[u8], i: usize) -> (r: Option<usize>)
    requires
        i <= s@.len(),
    ensures
        r is Some <==> spec_parse_int_part(s@, i as int) is Some,
        r matches Some(next) ==> spec_parse_int_part(s@, i as int) == Some(next as int) && next
            <= s@.len() && i < next,
    decreases s@.len() - i,
{
    if i >= s.len() {
        return None;
    }
    let b = *vstd::slice::slice_index_get(s, i);
    if !(0x30 <= b && b <= 0x39) {
        return None;
    }
    if b == 0x30 {
        Some(i + 1)
    } else {
        proof {
            lemma_scan_digits_range(s@, i as int);
        }
        Some(scan_digits(s, i))
    }
}

pub(crate) fn parse_number(s: &[u8], i: usize) -> (r: Option<usize>)
    requires
        i <= s@.len(),
    ensures
        r is Some <==> spec_parse_number(s@, i as int) is Some,
        r matches Some(next) ==> spec_parse_number(s@, i as int) == Some(next as int) && next
            <= s@.len() && i < next,
{
    let a = if i < s.len() && *vstd::slice::slice_index_get(s, i) == 0x2d {
        i + 1
    } else {
        i
    };
    let b = match parse_int_part(s, a) {
        Some(b) => b,
        None => {
            return None;
        },
    };
    let c = if b < s.len() && *vstd::slice::slice_index_get(s, b) == 0x2e {
        if b + 1 < s.len() && {
            let d = *vstd::slice::slice_index_get(s, b + 1);
            0x30 <= d && d <= 0x39
        } {
            proof {
                lemma_scan_digits_range(s@, b + 1);
            }
            scan_digits(s, b + 1)
        } else {
            return None;
        }
    } else {
        b
    };
    if c < s.len() && {
        let e = *vstd::slice::slice_index_get(s, c);
        e == 0x65 || e == 0x45
    } {
        let e0 = if c + 1 < s.len() && {
            let g = *vstd::slice::slice_index_get(s, c + 1);
            g == 0x2b || g == 0x2d
        } {
            c + 2
        } else {
            c + 1
        };
        if e0 < s.len() && {
            let g = *vstd::slice::slice_index_get(s, e0);
            0x30 <= g && g <= 0x39
        } {
            proof {
                lemma_scan_digits_range(s@, e0 as int);
            }
            Some(scan_digits(s, e0))
        } else {
            None
        }
    } else {
        Some(c)
    }
}

pub(crate) fn has_word(s: &[u8], i: usize, word: &[u8]) -> (r: bool)
    requires
        i <= s@.len(),
    ensures
        r == spec_has_word(s@, i as int, word@),
{
    if s.len() - i < word.len() {
        return false;
    }
    let r = crate::util::slices_eq(
        vstd::slice::slice_subrange(s, i, i + word.len()),
        word,
    );
    r
}

fn parse_value(s: &[u8], i: usize) -> (r: Option<usize>)
    requires
        i <= s@.len(),
    ensures
        r is Some <==> spec_parse_value(s@, i as int) is Some,
        r matches Some(next) ==> spec_parse_value(s@, i as int) == Some(next as int) && next
            <= s@.len() && i < next,
{
    proof {
        assert(null_bytes() =~= seq![0x6eu8, 0x75u8, 0x6cu8, 0x6cu8]);
    }
    if i < s.len() && *vstd::slice::slice_index_get(s, i) == 34 {
        parse_raw_string(s, i)
    } else if i < s.len() && {
        let b = *vstd::slice::slice_index_get(s, i);
        b == 0x2d || (0x30 <= b && b <= 0x39)
    } {
        parse_number(s, i)
    } else {
        let null_word: [u8; 4] = [0x6eu8, 0x75u8, 0x6cu8, 0x6cu8];
        let true_word: [u8; 4] = [0x74u8, 0x72u8, 0x75u8, 0x65u8];
        let false_word: [u8; 5] = [0x66u8, 0x61u8, 0x6cu8, 0x73u8, 0x65u8];
        if has_word(s, i, null_word.as_slice()) {
            proof {
                assert(null_word@ =~= null_bytes());
            }
            Some(i + 4)
        } else if has_word(s, i, true_word.as_slice()) {
            proof {
                assert(true_word@ =~= true_bytes());
                assert(null_word@ =~= null_bytes());
            }
            Some(i + 4)
        } else if has_word(s, i, false_word.as_slice()) {
            proof {
                assert(false_word@ =~= false_bytes());
                assert(true_word@ =~= true_bytes());
                assert(null_word@ =~= null_bytes());
            }
            Some(i + 5)
        } else {
            proof {
                assert(false_word@ =~= false_bytes());
                assert(true_word@ =~= true_bytes());
                assert(null_word@ =~= null_bytes());
            }
            None
        }
    }
}

fn parse_string_items(s: &[u8], i: usize) -> (r: Option<(Vec<Vec<u8>>, usize)>)
    requires
        i <= s@.len(),
    ensures
        r is Some <==> spec_parse_string_items(s@, i as int) is Some,
        r matches Some((items, next)) ==> spec_parse_string_items(s@, i as int) == Some(
            (items.deep_view(), next as int),
        ) && next <= s@.len() && i < next,
    decreases s@.len() - i,
{
    if i >= s.len() {
        return None;
    }
    let (item, j) = match parse_string(s, i) {
        Some(p) => p,
        None => {
            return None;
        },
    };
    if j < s.len() && *vstd::slice::slice_index_get(s, j) == 0x2c {
        match parse_string_items(s, j + 1) {
            Some((rest, k)) => {
                let mut items: Vec<Vec<u8>> = Vec::new();
                items.push(item);
                let mut rest = rest;
                items.append(&mut rest);
                proof {
                    assert(items.deep_view() =~~= seq![item@]
                        + spec_parse_string_items(s@, j + 1)->Some_0.0);
                }
                Some((items, k))
            },
            None => None,
        }
    } else if j < s.len() && *vstd::slice::slice_index_get(s, j) == 0x5d {
        let mut items: Vec<Vec<u8>> = Vec::new();
        items.push(item);
        proof {
            assert(items.deep_view() =~~= seq![item@]);
        }
        Some((items, j + 1))
    } else {
        None
    }
}

fn parse_string_array(s: &[u8], i: usize) -> (r: Option<(Vec<Vec<u8>>, usize)>)
    requires
        i <= s@.len(),
    ensures
        r is Some <==> spec_parse_string_array(s@, i as int) is Some,
        r matches Some((items, next)) ==> spec_parse_string_array(s@, i as int) == Some(
            (items.deep_view(), next as int),
        ) && next <= s@.len() && i < next,
{
    if i < s.len() && *vstd::slice::slice_index_get(s, i) == 0x5b {
        if i + 1 < s.len() && *vstd::slice::slice_index_get(s, i + 1) == 0x5d {
            let items: Vec<Vec<u8>> = Vec::new();
            proof {
                assert(items.deep_view() =~~= Seq::<Seq<u8>>::empty());
                assert(spec_parse_string_array(s@, i as int) == Some(
                    (Seq::<Seq<u8>>::empty(), i + 2),
                ));
            }
            Some((items, i + 2))
        } else {
            parse_string_items(s, i + 1)
        }
    } else {
        None
    }
}

fn parse_value_items(s: &[u8], i: usize) -> (r: Option<(Vec<Vec<u8>>, usize)>)
    requires
        i <= s@.len(),
    ensures
        r is Some <==> spec_parse_value_items(s@, i as int) is Some,
        r matches Some((items, next)) ==> spec_parse_value_items(s@, i as int) == Some(
            (items.deep_view(), next as int),
        ) && next <= s@.len() && i < next,
    decreases s@.len() - i,
{
    if i >= s.len() {
        return None;
    }
    let j = match parse_value(s, i) {
        Some(j) => j,
        None => {
            return None;
        },
    };
    let raw = vstd::slice::slice_to_vec(vstd::slice::slice_subrange(s, i, j));
    if j < s.len() && *vstd::slice::slice_index_get(s, j) == 0x2c {
        match parse_value_items(s, j + 1) {
            Some((rest, k)) => {
                let mut items: Vec<Vec<u8>> = Vec::new();
                items.push(raw);
                let mut rest = rest;
                items.append(&mut rest);
                proof {
                    assert(items.deep_view() =~~= seq![s@.subrange(i as int, j as int)]
                        + spec_parse_value_items(s@, j + 1)->Some_0.0);
                }
                Some((items, k))
            },
            None => None,
        }
    } else if j < s.len() && *vstd::slice::slice_index_get(s, j) == 0x5d {
        let mut items: Vec<Vec<u8>> = Vec::new();
        items.push(raw);
        proof {
            assert(items.deep_view() =~~= seq![s@.subrange(i as int, j as int)]);
        }
        Some((items, j + 1))
    } else {
        None
    }
}

fn parse_value_array(s: &[u8], i: usize) -> (r: Option<(Vec<Vec<u8>>, usize)>)
    requires
        i <= s@.len(),
    ensures
        r is Some <==> spec_parse_value_array(s@, i as int) is Some,
        r matches Some((items, next)) ==> spec_parse_value_array(s@, i as int) == Some(
            (items.deep_view(), next as int),
        ) && next <= s@.len() && i < next,
{
    if i < s.len() && *vstd::slice::slice_index_get(s, i) == 0x5b {
        if i + 1 < s.len() && *vstd::slice::slice_index_get(s, i + 1) == 0x5d {
            let items: Vec<Vec<u8>> = Vec::new();
            proof {
                assert(items.deep_view() =~~= Seq::<Seq<u8>>::empty());
                assert(spec_parse_value_array(s@, i as int) == Some(
                    (Seq::<Seq<u8>>::empty(), i + 2),
                ));
            }
            Some((items, i + 2))
        } else {
            parse_value_items(s, i + 1)
        }
    } else {
        None
    }
}

/// Parse a whole metric text.
pub fn parse_metric_text(s: &[u8]) -> (r: Option<MetricText>)
    ensures
        r is Some <==> spec_parse_metric_text(s@) is Some,
        r matches Some(m) ==> spec_parse_metric_text(s@) == Some(m.view_spec()),
{
    if s.len() < 1 || *vstd::slice::slice_index_get(s, 0) != 0x5b {
        return None;
    }
    let (family, i1) = match parse_string(s, 1) {
        Some(p) => p,
        None => {
            return None;
        },
    };
    if !(i1 < s.len() && *vstd::slice::slice_index_get(s, i1) == 0x2c) {
        return None;
    }
    let (name, i2) = match parse_string(s, i1 + 1) {
        Some(p) => p,
        None => {
            return None;
        },
    };
    if !(i2 < s.len() && *vstd::slice::slice_index_get(s, i2) == 0x2c) {
        return None;
    }
    let (labels, i3) = match parse_string_array(s, i2 + 1) {
        Some(p) => p,
        None => {
            return None;
        },
    };
    if !(i3 < s.len() && *vstd::slice::slice_index_get(s, i3) == 0x2c) {
        return None;
    }
    let (values, i4) = match parse_value_array(s, i3 + 1) {
        Some(p) => p,
        None => {
            return None;
        },
    };
    if i4 == s.len() - 1 && *vstd::slice::slice_index_get(s, i4) == 0x5d {
        Some(MetricText { family_name: family, metric_name: name, labels, values })
    } else {
        None
    }
}

} // verus!
