//! Normalization of the payload of a CSS `url()` token.
use vstd::prelude::*;
use crate::text::{chars_of, string_of};

verus! {

/// A character that CSS treats as a line break.
pub open spec fn is_css_break(c: char) -> bool {
    c == '\n' || c == '\r' || c == '\x0C'
}

/// A character that CSS treats as white space.
pub open spec fn is_css_space(c: char) -> bool {
    c == ' ' || c == '\t' || is_css_break(c)
}

/// `s[i..]` with every backslash that is followed by a line break removed, together
/// with that line break.
pub open spec fn strip_continuations_from(s: Seq<char>, i: int) -> Seq<char>
    decreases s.len() - i,
{
    if i < 0 || i >= s.len() {
        Seq::empty()
    } else if i + 1 < s.len() && s[i] == '\\' && is_css_break(s[i + 1]) {
        strip_continuations_from(s, i + 2)
    } else {
        seq![s[i]] + strip_continuations_from(s, i + 1)
    }
}

pub open spec fn strip_continuations(s: Seq<char>) -> Seq<char> {
    strip_continuations_from(s, 0)
}

pub open spec fn trim_start(s: Seq<char>) -> Seq<char>
    decreases s.len(),
{
    if s.len() > 0 && is_css_space(s[0]) {
        trim_start(s.drop_first())
    } else {
        s
    }
}

pub open spec fn trim_end(s: Seq<char>) -> Seq<char>
    decreases s.len(),
{
    if s.len() > 0 && is_css_space(s.last()) {
        trim_end(s.drop_last())
    } else {
        s
    }
}

/// `s` without CSS white space at either end.
pub open spec fn css_trim(s: Seq<char>) -> Seq<char> {
    trim_end(trim_start(s))
}

pub open spec fn is_hex_digit(c: char) -> bool {
    ('0' <= c && c <= '9') || ('a' <= c && c <= 'f') || ('A' <= c && c <= 'F')
}

pub open spec fn hex_digit_value(c: char) -> nat {
    if '0' <= c && c <= '9' {
        (c as int - '0' as int) as nat
    } else if 'a' <= c && c <= 'f' {
        (c as int - 'a' as int + 10) as nat
    } else {
        (c as int - 'A' as int + 10) as nat
    }
}

/// The number of hex digits, at most six, that stand in `s` from `i + n` on, plus `n`.
pub open spec fn hex_run(s: Seq<char>, i: int, n: nat) -> nat
    decreases 6 - n,
{
    if n < 6 && 0 <= i + n < s.len() && is_hex_digit(s[i + n]) {
        hex_run(s, i, n + 1)
    } else {
        n
    }
}

/// The number written in hexadecimal by the digits `s`.
pub open spec fn hex_value(s: Seq<char>) -> nat
    decreases s.len(),
{
    if s.len() == 0 {
        0
    } else {
        hex_value(s.drop_last()) * 16 + hex_digit_value(s.last())
    }
}

/// A number that is the code of a Unicode scalar value, so of a `char`.
pub open spec fn is_scalar_value(v: nat) -> bool {
    v < 0xD800 || (0xE000 <= v && v <= 0x10FFFF)
}

pub open spec fn code_of(c: char) -> nat {
    c as nat
}

/// The `char` whose code is `v`.
pub open spec fn char_of_code(v: nat) -> char {
    choose|c: char| #[trigger] code_of(c) == v
}

/// `s[i..]` with CSS backslash escapes resolved. A backslash with one to six hex digits
/// (and one optional white space, dropped) stands for that code point; one with
/// another character stands for that character; where the digits name no code point,
/// the escape stays as it is written.
pub open spec fn unescape_from(s: Seq<char>, i: int) -> Seq<char>
    decreases s.len() - i,
{
    if i < 0 || i >= s.len() {
        Seq::empty()
    } else if s[i] == '\\' && i + 1 < s.len() {
        let n = hex_run(s, i + 1, 0);
        if n > 0 && i + 1 + n <= s.len() {
            let m: int = if i + 1 + n < s.len() && is_css_space(s[i + 1 + n]) {
                n + 2int
            } else {
                n + 1int
            };
            let v = hex_value(s.subrange(i + 1, i + 1 + n));
            let out = if is_scalar_value(v) {
                seq![char_of_code(v)]
            } else {
                s.subrange(i, i + m)
            };
            out + unescape_from(s, i + m)
        } else {
            seq![s[i + 1]] + unescape_from(s, i + 2)
        }
    } else {
        seq![s[i]] + unescape_from(s, i + 1)
    }
}

pub open spec fn css_unescape(s: Seq<char>) -> Seq<char> {
    unescape_from(s, 0)
}

/// The first three steps of URL normalization: line continuations removed, white
/// space trimmed, escapes resolved.
pub open spec fn unescaped_url(s: Seq<char>) -> Seq<char> {
    css_unescape(css_trim(strip_continuations(s)))
}

pub open spec fn is_data_uri(s: Seq<char>) -> bool {
    s.len() >= 5 && (s[0] == 'd' || s[0] == 'D') && (s[1] == 'a' || s[1] == 'A') && (s[2]
        == 't' || s[2] == 'T') && (s[3] == 'a' || s[3] == 'A') && s[4] == ':'
}

/// What percent-decoding gives for `s`: `None` where the decoded bytes are not UTF-8.
pub uninterp spec fn percent_decoded_of(s: Seq<char>) -> Option<Seq<char>>;

/// The last step, given the unescaped text `u` and what percent-decoding gave for it.
pub open spec fn finish_url(u: Seq<char>, decoded: Option<Seq<char>>) -> Seq<char> {
    if is_data_uri(u) || !u.contains('%') {
        u
    } else {
        match decoded {
            Some(d) => d,
            None => u,
        }
    }
}

pub open spec fn normalized_url(s: Seq<char>) -> Seq<char> {
    finish_url(unescaped_url(s), percent_decoded_of(unescaped_url(s)))
}

pub open spec fn opt_view(o: Option<String>) -> Option<Seq<char>> {
    match o {
        Some(d) => Some(d@),
        None => None,
    }
}

/// Relies on `char::from_u32`: `Some` exactly for the code of a `char`.
#[verifier::external_body]
fn char_from_code(v: u32) -> (r: Option<char>)
    ensures
        is_scalar_value(v as nat) ==> r == Some(char_of_code(v as nat)),
        !is_scalar_value(v as nat) ==> r is None,
{
    char::from_u32(v)
}

/// Relies on `urlencoding::decode`: `%XX` sequences decoded to bytes, read as UTF-8,
/// `None` where they are not UTF-8.
#[verifier::external_body]
fn percent_decode(s: &str) -> (r: Option<String>)
    ensures
        opt_view(r) == percent_decoded_of(s@),
{
    match urlencoding::decode(s) {
        Ok(d) => Some(d.into_owned()),
        Err(_) => None,
    }
}

fn is_break_char(c: char) -> (r: bool)
    ensures
        r == is_css_break(c),
{
    c == '\n' || c == '\r' || c == '\x0C'
}

fn is_space_char(c: char) -> (r: bool)
    ensures
        r == is_css_space(c),
{
    c == ' ' || c == '\t' || is_break_char(c)
}

fn is_hex_char(c: char) -> (r: bool)
    ensures
        r == is_hex_digit(c),
{
    ('0' <= c && c <= '9') || ('a' <= c && c <= 'f') || ('A' <= c && c <= 'F')
}

fn hex_char_value(c: char) -> (r: u32)
    requires
        is_hex_digit(c),
    ensures
        r as nat == hex_digit_value(c),
        r < 16,
{
    if '0' <= c && c <= '9' {
        (c as u32) - ('0' as u32)
    } else if 'a' <= c && c <= 'f' {
        (c as u32) - ('a' as u32) + 10
    } else {
        (c as u32) - ('A' as u32) + 10
    }
}

/// Removes each backslash that is followed by a line break, and that line break.
pub fn strip_line_continuations(s: &[char]) -> (r: Vec<char>)
    ensures
        r@ == strip_continuations(s@),
{
    let mut out: Vec<char> = Vec::new();
    let mut i: usize = 0;
    while i < s.len()
        invariant
            i <= s.len(),
            strip_continuations(s@) == out@ + strip_continuations_from(s@, i as int),
        decreases s.len() - i,
    {
        if i + 1 < s.len() && s[i] == '\\' && is_break_char(s[i + 1]) {
            i = i + 2;
        } else {
            proof {
                assert(out@.push(s[i as int]) == out@ + seq![s[i as int]]);
            }
            out.push(s[i]);
            i = i + 1;
        }
    }
    assert(out@ + strip_continuations_from(s@, i as int) == out@);
    out
}

proof fn lemma_trim_start_skip(s: Seq<char>, lo: int)
    requires
        0 <= lo < s.len(),
        is_css_space(s[lo]),
    ensures
        trim_start(s.subrange(lo, s.len() as int)) == trim_start(s.subrange(lo + 1, s.len() as int)),
{
    assert(s.subrange(lo, s.len() as int).drop_first() =~= s.subrange(lo + 1, s.len() as int));
}

proof fn lemma_trim_end_skip(t: Seq<char>, hi: int)
    requires
        0 < hi <= t.len(),
        is_css_space(t[hi - 1]),
    ensures
        trim_end(t.subrange(0, hi)) == trim_end(t.subrange(0, hi - 1)),
{
    assert(t.subrange(0, hi).drop_last() =~= t.subrange(0, hi - 1));
}

/// Removes CSS white space from both ends.
pub fn trim_css_space(s: &[char]) -> (r: Vec<char>)
    ensures
        r@ == css_trim(s@),
{
    let mut lo: usize = 0;
    assert(s@.subrange(0, s@.len() as int) =~= s@);
    while lo < s.len() && is_space_char(s[lo])
        invariant
            lo <= s.len(),
            trim_start(s@) == trim_start(s@.subrange(lo as int, s@.len() as int)),
        decreases s.len() - lo,
    {
        proof {
            lemma_trim_start_skip(s@, lo as int);
        }
        lo = lo + 1;
    }
    let ghost t = s@.subrange(lo as int, s@.len() as int);
    assert(trim_start(s@) == t);
    let mut hi: usize = s.len();
    assert(t.subrange(0, t.len() as int) =~= t);
    while hi > lo && is_space_char(s[hi - 1])
        invariant
            lo <= hi <= s.len(),
            t == s@.subrange(lo as int, s@.len() as int),
            trim_end(t) == trim_end(t.subrange(0, hi - lo)),
        decreases hi,
    {
        proof {
            lemma_trim_end_skip(t, hi - lo);
        }
        hi = hi - 1;
    }
    let mut out: Vec<char> = Vec::new();
    let mut k: usize = lo;
    while k < hi
        invariant
            lo <= k <= hi <= s.len(),
            out@ == s@.subrange(lo as int, k as int),
        decreases hi - k,
    {
        out.push(s[k]);
        k = k + 1;
        assert(out@ =~= s@.subrange(lo as int, k as int));
    }
    assert(t.subrange(0, hi - lo) =~= out@);
    out
}

pub open spec fn pow16(n: nat) -> nat
    decreases n,
{
    if n == 0 {
        1
    } else {
        16 * pow16((n - 1) as nat)
    }
}

/// Resolves CSS backslash escapes.
pub fn unescape_css(s: &[char]) -> (r: Vec<char>)
    ensures
        r@ == css_unescape(s@),
{
    let mut out: Vec<char> = Vec::new();
    let mut i: usize = 0;
    while i < s.len()
        invariant
            i <= s.len(),
            css_unescape(s@) == out@ + unescape_from(s@, i as int),
        decreases s.len() - i,
    {
        let ghost out0 = out@;
        if s[i] == '\\' && i + 1 < s.len() {
            let mut n: usize = 0;
            while n < 6 && i + 1 + n < s.len() && is_hex_char(s[i + 1 + n])
                invariant
                    i + 1 < s.len(),
                    n <= 6,
                    i + 1 + n <= s.len(),
                    hex_run(s@, i + 1, n as nat) == hex_run(s@, i + 1, 0),
                    forall|j: int| i + 1 <= j < i + 1 + n ==> is_hex_digit(#[trigger] s@[j]),
                decreases 6 - n,
            {
                n = n + 1;
            }
            if n > 0 {
                let m: usize = if i + 1 + n < s.len() && is_space_char(s[i + 1 + n]) {
                    n + 2
                } else {
                    n + 1
                };
                let mut v: u32 = 0;
                let mut k: usize = 0;
                proof {
                    lemma_pow16_six();
                    assert(s@.subrange(i + 1, i + 1) =~= Seq::<char>::empty());
                }
                while k < n
                    invariant
                        k <= n <= 6,
                        i + 1 + n <= s.len(),
                        forall|j: int| i + 1 <= j < i + 1 + n ==> is_hex_digit(#[trigger] s@[j]),
                        v as nat == hex_value(s@.subrange(i + 1, i + 1 + k)),
                        v < pow16(k as nat),
                        pow16(6) == 0x1000000,
                    decreases n - k,
                {
                    let d = hex_char_value(s[i + 1 + k]);
                    proof {
                        let sub = s@.subrange(i + 1, i + 1 + k + 1);
                        assert(sub.drop_last() =~= s@.subrange(i + 1, i + 1 + k));
                        assert(pow16((k + 1) as nat) == 16 * pow16(k as nat));
                        assert(pow16((k + 1) as nat) <= pow16(6)) by {
                            lemma_pow16_mono((k + 1) as nat, 6);
                        }
                        assert(v * 16 + d < 16 * pow16(k as nat)) by (nonlinear_arith)
                            requires
                                v < pow16(k as nat),
                                d < 16,
                        ;
                    }
                    v = v * 16 + d;
                    k = k + 1;
                }
                match char_from_code(v) {
                    Some(c) => {
                        proof {
                            assert(out@.push(c) == out@ + seq![c]);
                        }
                        out.push(c);
                    },
                    None => {
                        let mut k: usize = i;
                        while k < i + m
                            invariant
                                i <= k <= i + m <= s.len(),
                                out@ == out0 + s@.subrange(i as int, k as int),
                            decreases i + m - k,
                        {
                            out.push(s[k]);
                            k = k + 1;
                            assert(out@ =~= out0 + s@.subrange(i as int, k as int));
                        }
                    },
                }
                proof {
                    assert(hex_run(s@, i + 1, n as nat) == n);
                    assert(s@.subrange(i + 1, i + 1 + n) == s@.subrange(i + 1, i + 1 + k));
                    let piece = out@.subrange(out0.len() as int, out@.len() as int);
                    assert(v as nat == hex_value(s@.subrange(i + 1, i + 1 + n)));
                    if is_scalar_value(v as nat) {
                        assert(piece =~= seq![char_of_code(v as nat)]);
                    } else {
                        assert(piece =~= s@.subrange(i as int, i + m));
                    }
                    assert(out@ =~= out0 + piece);
                    assert(unescape_from(s@, i as int) == piece + unescape_from(s@, i + m));
                    assert(out0 + (piece + unescape_from(s@, i + m)) =~= out@ + unescape_from(s@, i + m));
                }
                i = i + m;
            } else {
                proof {
                    assert(hex_run(s@, i + 1, 0) == 0);
                    assert(out@.push(s[i + 1]) == out@ + seq![s@[i + 1]]);
                }
                out.push(s[i + 1]);
                i = i + 2;
            }
        } else {
            proof {
                assert(out@.push(s[i as int]) == out@ + seq![s[i as int]]);
            }
            out.push(s[i]);
            i = i + 1;
        }
    }
    assert(out@ + unescape_from(s@, i as int) == out@);
    out
}

fn has_percent(s: &[char]) -> (r: bool)
    ensures
        r == s@.contains('%'),
{
    let mut i: usize = 0;
    while i < s.len()
        invariant
            i <= s.len(),
            forall|j: int| 0 <= j < i ==> s@[j] != '%',
        decreases s.len() - i,
    {
        if s[i] == '%' {
            assert(s@[i as int] == '%');
            return true;
        }
        i = i + 1;
    }
    false
}

fn starts_with_data(s: &[char]) -> (r: bool)
    ensures
        r == is_data_uri(s@),
{
    s.len() >= 5 && (s[0] == 'd' || s[0] == 'D') && (s[1] == 'a' || s[1] == 'A') && (s[2] == 't'
        || s[2] == 'T') && (s[3] == 'a' || s[3] == 'A') && s[4] == ':'
}

/// Removes line continuations, trims CSS white space and resolves escapes.
pub fn unescape_url(s: &str) -> (r: Vec<char>)
    ensures
        r@ == unescaped_url(s@),
{
    let chars = chars_of(s);
    let stripped = strip_line_continuations(chars.as_slice());
    let trimmed = trim_css_space(stripped.as_slice());
    unescape_css(trimmed.as_slice())
}

/// The result of normalization, given the unescaped text and what percent-decoding
/// gave for it: data URIs and text without `%` are kept, otherwise the decoded text
/// is taken where decoding succeeded.
pub fn resolve_percent(unescaped: &str, decoded: Option<String>) -> (r: String)
    ensures
        r@ == finish_url(unescaped@, opt_view(decoded)),
{
    let chars = chars_of(unescaped);
    if starts_with_data(chars.as_slice()) || !has_percent(chars.as_slice()) {
        return string_of(chars.as_slice());
    }
    match decoded {
        Some(d) => d,
        None => string_of(chars.as_slice()),
    }
}

/// Normalizes the payload of a CSS `url()` token: line continuations are removed,
/// white space is trimmed, escapes are resolved, and then, unless the text is a data
/// URI, percent-escapes are decoded where the result is UTF-8.
pub fn normalize_url(s: &str) -> (r: String)
    ensures
        r@ == normalized_url(s@),
{
    let unescaped = unescape_url(s);
    let text = string_of(unescaped.as_slice());
    if starts_with_data(unescaped.as_slice()) || !has_percent(unescaped.as_slice()) {
        return text;
    }
    let decoded = percent_decode(text.as_str());
    resolve_percent(text.as_str(), decoded)
}

/// Normalization never percent-decodes a data URI: its result is the unescaped text.
pub proof fn lemma_data_uri_kept(s: Seq<char>)
    requires
        is_data_uri(unescaped_url(s)),
    ensures
        normalized_url(s) == unescaped_url(s),
{
}

/// Text in which no backslash, `%` or CSS white space stands.
pub open spec fn is_plain_text(s: Seq<char>) -> bool {
    forall|j: int| 0 <= j < s.len() ==> #[trigger] s[j] != '\\' && s[j] != '%' && !is_css_space(s[j])
}

proof fn lemma_strip_no_backslash(s: Seq<char>, i: int)
    requires
        0 <= i <= s.len(),
        forall|j: int| i <= j < s.len() ==> #[trigger] s[j] != '\\',
    ensures
        strip_continuations_from(s, i) == s.subrange(i, s.len() as int),
    decreases s.len() - i,
{
    if i < s.len() {
        lemma_strip_no_backslash(s, i + 1);
        assert(s.subrange(i, s.len() as int) =~= seq![s[i]] + s.subrange(i + 1, s.len() as int));
    } else {
        assert(s.subrange(i, s.len() as int) =~= Seq::<char>::empty());
    }
}

proof fn lemma_strip_prefix(s: Seq<char>, k: int, i: int)
    requires
        0 <= i <= k < s.len(),
        forall|j: int| i <= j < k ==> #[trigger] s[j] != '\\',
    ensures
        strip_continuations_from(s, i) == s.subrange(i, k) + strip_continuations_from(s, k),
    decreases k - i,
{
    if i < k {
        lemma_strip_prefix(s, k, i + 1);
        assert(s.subrange(i, k) =~= seq![s[i]] + s.subrange(i + 1, k));
        assert(seq![s[i]] + (s.subrange(i + 1, k) + strip_continuations_from(s, k)) =~= s.subrange(i, k)
            + strip_continuations_from(s, k));
    } else {
        assert(s.subrange(i, k) =~= Seq::<char>::empty());
        assert(Seq::<char>::empty() + strip_continuations_from(s, k) =~= strip_continuations_from(s, k));
    }
}

proof fn lemma_unescape_plain(s: Seq<char>, i: int)
    requires
        0 <= i <= s.len(),
        forall|j: int| i <= j < s.len() ==> #[trigger] s[j] != '\\',
    ensures
        unescape_from(s, i) == s.subrange(i, s.len() as int),
    decreases s.len() - i,
{
    if i < s.len() {
        lemma_unescape_plain(s, i + 1);
        assert(s.subrange(i, s.len() as int) =~= seq![s[i]] + s.subrange(i + 1, s.len() as int));
    } else {
        assert(s.subrange(i, s.len() as int) =~= Seq::<char>::empty());
    }
}

/// A backslash followed by a newline, standing between two pieces of plain text, is
/// removed and nothing else changes.
pub proof fn lemma_line_continuation_removed(a: Seq<char>, b: Seq<char>)
    requires
        is_plain_text(a),
        is_plain_text(b),
    ensures
        normalized_url(a + seq!['\\', '\n'] + b) == a + b,
{
    let s = a + seq!['\\', '\n'] + b;
    let k = a.len() as int;
    assert forall|j: int| 0 <= j < k implies #[trigger] s[j] != '\\' by {
        assert(s[j] == a[j]);
    }
    lemma_strip_prefix(s, k, 0);
    assert forall|j: int| k + 2 <= j < s.len() implies #[trigger] s[j] != '\\' by {
        assert(s[j] == b[j - k - 2]);
    }
    lemma_strip_no_backslash(s, k + 2);
    assert(s.subrange(0, k) =~= a);
    assert(s.subrange(k + 2, s.len() as int) =~= b);
    let ab = a + b;
    assert(strip_continuations(s) == ab);
    assert forall|j: int| 0 <= j < ab.len() implies #[trigger] ab[j] != '\\' && ab[j] != '%'
        && !is_css_space(ab[j]) by {
        if j < a.len() {
            assert(ab[j] == a[j]);
        } else {
            assert(ab[j] == b[j - a.len()]);
        }
    }
    assert(trim_start(ab) == ab);
    assert(trim_end(ab) == ab);
    lemma_unescape_plain(ab, 0);
    assert(ab.subrange(0, ab.len() as int) =~= ab);
    assert(unescaped_url(s) == ab);
    assert(!ab.contains('%'));
}

proof fn lemma_pow16_six()
    ensures
        pow16(6) == 0x1000000,
{
    reveal_with_fuel(pow16, 7);
}

proof fn lemma_pow16_mono(a: nat, b: nat)
    requires
        a <= b,
    ensures
        pow16(a) <= pow16(b),
    decreases b - a,
{
    if a < b {
        lemma_pow16_mono(a, (b - 1) as nat);
        assert(pow16(b) == 16 * pow16((b - 1) as nat));
    }
}

} // verus!
