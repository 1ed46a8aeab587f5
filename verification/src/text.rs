//! Text utilities for the wire grammar: ASCII case folding, token
//! splitting, whitespace trimming and decimal parsing.  The two bridges to
//! unverified code live here as well: case-insensitive equality through the
//! `uncased` crate, and lossy UTF-8 decoding through `String::from_utf8_lossy`.

use vstd::prelude::*;
use vstd::string::StrSliceExecFns;
use vstd::utf8::{decode_utf8, valid_utf8};

verus! {

/// ASCII-lowercase one character; characters outside `'A'..='Z'` are unchanged.
pub open spec fn fold_char(c: char) -> char {
    if 65 <= c as u32 && c as u32 <= 90 {
        ((c as u32 + 32) as u8) as char
    } else {
        c
    }
}

/// ASCII-lowercase a character sequence; the case-insensitive comparisons of
/// the wire grammar are equalities of folded sequences.
pub open spec fn fold_case(s: Seq<char>) -> Seq<char> {
    s.map_values(|c: char| fold_char(c))
}

/// Relies on `uncased::eq`: ASCII-case-insensitive string equality
/// (`str::eq_ignore_ascii_case` underneath), which holds exactly when the
/// ASCII-lowercased character sequences are equal.
#[verifier::external_body]
pub(crate) fn eq_uncased(a: &str, b: &str) -> (r: bool)
    ensures
        r == (fold_case(a@) == fold_case(b@)),
{
    uncased::eq(a, b)
}

/// What `String::from_utf8_lossy` returns: a function of the bytes alone.
pub uninterp spec fn utf8_lossy(bytes: Seq<u8>) -> Seq<char>;

/// Relies on `String::from_utf8_lossy`: the result depends on the bytes
/// alone, and bytes that are valid UTF-8 decode to exactly their characters.
#[verifier::external_body]
pub(crate) fn utf8_lossy_string(bytes: &[u8]) -> (r: String)
    ensures
        r@ == utf8_lossy(bytes@),
        valid_utf8(bytes@) ==> r@ == decode_utf8(bytes@),
{
    String::from_utf8_lossy(bytes).into_owned()
}

/// Split on every occurrence of `sep`, keeping empty tokens, as the request
/// line grammar does: the result always holds one token more than there are
/// separators.
pub open spec fn spec_split(s: Seq<char>, sep: char) -> Seq<Seq<char>>
    decreases s.len(),
{
    if s.len() == 0 {
        seq![Seq::<char>::empty()]
    } else if s[0] == sep {
        seq![Seq::<char>::empty()] + spec_split(s.drop_first(), sep)
    } else {
        let rest = spec_split(s.drop_first(), sep);
        seq![seq![s[0]] + rest[0]] + rest.drop_first()
    }
}

pub proof fn lemma_split_len(s: Seq<char>, sep: char)
    ensures
        spec_split(s, sep).len() >= 1,
    decreases s.len(),
{
    if s.len() > 0 {
        lemma_split_len(s.drop_first(), sep);
    }
}

/// A separator-free sequence splits into itself alone.
pub proof fn lemma_split_no_sep(s: Seq<char>, sep: char)
    requires
        !s.contains(sep),
    ensures
        spec_split(s, sep) == seq![s],
    decreases s.len(),
{
    if s.len() == 0 {
        assert(spec_split(s, sep) =~~= seq![s]);
    } else {
        assert(s[0] != sep);
        assert(!s.drop_first().contains(sep)) by {
            if s.drop_first().contains(sep) {
                let i = choose|i: int| 0 <= i < s.drop_first().len() && s.drop_first()[i] == sep;
                assert(s[i + 1] == sep);
            }
        }
        lemma_split_no_sep(s.drop_first(), sep);
        lemma_split_len(s.drop_first(), sep);
        assert(spec_split(s, sep) =~~= seq![s]);
    }
}

/// Splitting a string whose first separator stands right after `pre` yields
/// `pre` and then the split of the rest.
pub proof fn lemma_split_at_sep(pre: Seq<char>, suf: Seq<char>, sep: char)
    requires
        !pre.contains(sep),
    ensures
        spec_split(pre + seq![sep] + suf, sep) == seq![pre] + spec_split(suf, sep),
    decreases pre.len(),
{
    let s = pre + seq![sep] + suf;
    if pre.len() == 0 {
        assert(s[0] == sep);
        assert(s.drop_first() =~= suf);
        assert(spec_split(s, sep) =~~= seq![pre] + spec_split(suf, sep));
    } else {
        assert(s[0] == pre[0]);
        assert(pre.contains(pre[0])) by {
            assert(pre[0] == pre[0]);
        }
        assert(s[0] != sep);
        assert(!pre.drop_first().contains(sep)) by {
            if pre.drop_first().contains(sep) {
                let i = choose|i: int|
                    0 <= i < pre.drop_first().len() && pre.drop_first()[i] == sep;
                assert(pre[i + 1] == sep);
            }
        }
        assert(s.drop_first() =~= pre.drop_first() + seq![sep] + suf);
        lemma_split_at_sep(pre.drop_first(), suf, sep);
        lemma_split_len(suf, sep);
        let rest = spec_split(s.drop_first(), sep);
        assert(rest == seq![pre.drop_first()] + spec_split(suf, sep));
        assert(rest[0] == pre.drop_first());
        assert(seq![s[0]] + rest[0] =~= pre);
        assert(rest.drop_first() =~= spec_split(suf, sep));
        assert(spec_split(s, sep) =~~= seq![pre] + spec_split(suf, sep));
    }
}

/// Split on every occurrence of `sep`, keeping empty tokens.
pub fn split_str(s: &str, sep: char) -> (toks: Vec<String>)
    ensures
        toks.deep_view() == spec_split(s@, sep),
{
    let n = s.unicode_len();
    let mut toks: Vec<String> = Vec::new();
    let mut start: usize = 0;
    let mut i: usize = 0;
    proof {
        assert(s@.subrange(0, n as int) =~= s@);
        assert(toks.deep_view() + spec_split(s@, sep) =~~= spec_split(s@, sep));
    }
    while i < n
        invariant
            n == s@.len(),
            0 <= start <= i <= n,
            !s@.subrange(start as int, i as int).contains(sep),
            spec_split(s@, sep) == toks.deep_view() + spec_split(
                s@.subrange(start as int, n as int),
                sep,
            ),
        decreases n - i,
    {
        if s.get_char(i) == sep {
            let tok = s.substring_char(start, i).to_owned();
            proof {
                let remaining = s@.subrange(start as int, n as int);
                let pre = s@.subrange(start as int, i as int);
                let suf = s@.subrange(i + 1, n as int);
                assert(remaining =~= pre + seq![sep] + suf);
                lemma_split_at_sep(pre, suf, sep);
            }
            let ghost dv0 = toks.deep_view();
            toks.push(tok);
            proof {
                assert(toks.deep_view() =~~= dv0 + seq![s@.subrange(start as int, i as int)]);
            }
            start = i + 1;
        } else {
            proof {
                let old_tok = s@.subrange(start as int, i as int);
                assert(s@.subrange(start as int, i + 1) =~= old_tok + seq![s@[i as int]]);
                assert(!s@.subrange(start as int, i + 1).contains(sep)) by {
                    let ext = s@.subrange(start as int, i + 1);
                    if ext.contains(sep) {
                        let k = choose|k: int| 0 <= k < ext.len() && ext[k] == sep;
                        if k < ext.len() - 1 {
                            assert(old_tok[k] == sep);
                        }
                    }
                }
            }
        }
        i += 1;
    }
    let last = s.substring_char(start, n).to_owned();
    proof {
        lemma_split_no_sep(s@.subrange(start as int, n as int), sep);
    }
    let ghost dv0 = toks.deep_view();
    toks.push(last);
    proof {
        assert(toks.deep_view() =~~= dv0 + seq![s@.subrange(start as int, n as int)]);
        assert(toks.deep_view() =~~= spec_split(s@, sep));
    }
    toks
}

/// The pieces before and after the first occurrence of `sep`, if any.
pub open spec fn spec_split_at_first(s: Seq<char>, sep: char) -> Option<(Seq<char>, Seq<char>)> {
    match s.index_of_first(sep) {
        Some(i) => Some((s.subrange(0, i), s.subrange(i + 1, s.len() as int))),
        None => None,
    }
}

/// Split at the first occurrence of `sep`; `None` when `sep` does not occur.
pub fn split_at_first(s: &str, sep: char) -> (r: Option<(String, String)>)
    ensures
        match r {
            Some(p) => spec_split_at_first(s@, sep) == Some((p.0@, p.1@)),
            None => spec_split_at_first(s@, sep) is None,
        },
{
    let n = s.unicode_len();
    let mut i: usize = 0;
    while i < n
        invariant
            n == s@.len(),
            0 <= i <= n,
            forall|j: int| 0 <= j < i ==> s@[j] != sep,
        decreases n - i,
    {
        if s.get_char(i) == sep {
            let before = s.substring_char(0, i).to_owned();
            let after = s.substring_char(i + 1, n).to_owned();
            proof {
                s@.index_of_first_ensures(sep);
                assert(s@.contains(sep)) by {
                    assert(s@[i as int] == sep);
                }
                let found = s@.index_of_first(sep)->Some_0;
                assert(found == i as int);
            }
            return Some((before, after));
        }
        i += 1;
    }
    proof {
        s@.index_of_first_ensures(sep);
        if s@.index_of_first(sep) is Some {
            let found = s@.index_of_first(sep)->Some_0;
            assert(s@[found] == sep);
        }
    }
    None
}

pub open spec fn spec_is_ows(c: char) -> bool {
    c == ' ' || c == '\t'
}

/// Drop leading spaces and tabs.
pub open spec fn spec_trim_start(s: Seq<char>) -> Seq<char>
    decreases s.len(),
{
    if s.len() > 0 && spec_is_ows(s[0]) {
        spec_trim_start(s.drop_first())
    } else {
        s
    }
}

/// Drop trailing spaces and tabs.
pub open spec fn spec_trim_end(s: Seq<char>) -> Seq<char>
    decreases s.len(),
{
    if s.len() > 0 && spec_is_ows(s.last()) {
        spec_trim_end(s.drop_last())
    } else {
        s
    }
}

/// Drop leading and trailing spaces and tabs.
pub open spec fn spec_trim(s: Seq<char>) -> Seq<char> {
    spec_trim_end(spec_trim_start(s))
}

/// Drop leading spaces and tabs.
pub fn trim_start(s: &str) -> (r: String)
    ensures
        r@ == spec_trim_start(s@),
{
    let n = s.unicode_len();
    let mut i: usize = 0;
    proof {
        assert(s@.subrange(0, n as int) =~= s@);
    }
    loop
        invariant
            n == s@.len(),
            0 <= i <= n,
            spec_trim_start(s@) == spec_trim_start(s@.subrange(i as int, n as int)),
        ensures
            0 <= i <= n,
            spec_trim_start(s@) == s@.subrange(i as int, n as int),
        decreases n - i,
    {
        if i == n {
            break;
        }
        let c = s.get_char(i);
        if c != ' ' && c != '\t' {
            break;
        }
        proof {
            assert(s@.subrange(i as int, n as int).drop_first() =~= s@.subrange(i + 1, n as int));
        }
        i += 1;
    }
    let r = s.substring_char(i, n).to_owned();
    r
}

/// Drop leading and trailing spaces and tabs.
pub fn trim(s: &str) -> (r: String)
    ensures
        r@ == spec_trim(s@),
{
    let n = s.unicode_len();
    let mut i: usize = 0;
    proof {
        assert(s@.subrange(0, n as int) =~= s@);
    }
    loop
        invariant
            n == s@.len(),
            0 <= i <= n,
            spec_trim_start(s@) == spec_trim_start(s@.subrange(i as int, n as int)),
        ensures
            0 <= i <= n,
            spec_trim_start(s@) == s@.subrange(i as int, n as int),
        decreases n - i,
    {
        if i == n {
            break;
        }
        let c = s.get_char(i);
        if c != ' ' && c != '\t' {
            break;
        }
        proof {
            assert(s@.subrange(i as int, n as int).drop_first() =~= s@.subrange(i + 1, n as int));
        }
        i += 1;
    }
    let ghost started = s@.subrange(i as int, n as int);
    let mut j: usize = n;
    loop
        invariant
            n == s@.len(),
            0 <= i <= j <= n,
            started == s@.subrange(i as int, n as int),
            spec_trim_end(started) == spec_trim_end(s@.subrange(i as int, j as int)),
        ensures
            i <= j <= n,
            spec_trim_end(started) == s@.subrange(i as int, j as int),
        decreases j,
    {
        if j == i {
            break;
        }
        let c = s.get_char(j - 1);
        if c != ' ' && c != '\t' {
            break;
        }
        proof {
            assert(s@.subrange(i as int, j as int).drop_last() =~= s@.subrange(i as int, j - 1));
        }
        j -= 1;
    }
    let r = s.substring_char(i, j).to_owned();
    r
}

pub open spec fn spec_is_digit(c: char) -> bool {
    48 <= c as u32 && c as u32 <= 57
}

pub open spec fn spec_all_digits(s: Seq<char>) -> bool {
    forall|i: int| 0 <= i < s.len() ==> spec_is_digit(#[trigger] s[i])
}

/// The value of a decimal digit string, most significant digit first.
pub open spec fn spec_digits_val(s: Seq<char>) -> int
    decreases s.len(),
{
    if s.len() == 0 {
        0
    } else {
        spec_digits_val(s.drop_last()) * 10 + (s.last() as u32 - 48)
    }
}

/// A nonempty all-digit string that fits in a `u64` parses to its value;
/// everything else parses to 0, the fallback of the header grammar.
pub open spec fn spec_parse_u64(s: Seq<char>) -> u64 {
    if s.len() > 0 && spec_all_digits(s) && spec_digits_val(s) <= u64::MAX {
        spec_digits_val(s) as u64
    } else {
        0
    }
}

proof fn lemma_digits_val_nonneg(s: Seq<char>)
    requires
        spec_all_digits(s),
    ensures
        spec_digits_val(s) >= 0,
    decreases s.len(),
{
    if s.len() > 0 {
        assert(spec_all_digits(s.drop_last()));
        lemma_digits_val_nonneg(s.drop_last());
        assert(spec_is_digit(s.last()));
        assert(spec_digits_val(s.drop_last()) * 10 >= 0) by (nonlinear_arith)
            requires
                spec_digits_val(s.drop_last()) >= 0,
        ;
    }
}

/// A digit string's value only grows as digits are appended.
proof fn lemma_digits_val_prefix(s: Seq<char>, i: int)
    requires
        spec_all_digits(s),
        0 <= i <= s.len(),
    ensures
        spec_digits_val(s.take(i)) <= spec_digits_val(s),
    decreases s.len() - i,
{
    if i < s.len() {
        lemma_digits_val_prefix(s, i + 1);
        let t = s.take(i + 1);
        assert(t.drop_last() =~= s.take(i));
        assert(spec_all_digits(s.take(i)));
        lemma_digits_val_nonneg(s.take(i));
        let v = spec_digits_val(s.take(i));
        assert(v * 10 >= v) by (nonlinear_arith)
            requires
                v >= 0,
        ;
        assert(spec_is_digit(t.last()));
        assert(spec_digits_val(t) >= v);
    } else {
        assert(s.take(i) =~= s);
    }
}

/// Parse a decimal unsigned integer; anything but a nonempty digit string
/// whose value fits in a `u64` yields 0.
pub fn parse_u64(s: &str) -> (r: u64)
    ensures
        r == spec_parse_u64(s@),
{
    let n = s.unicode_len();
    if n == 0 {
        return 0;
    }
    let mut acc: u64 = 0;
    let mut i: usize = 0;
    while i < n
        invariant
            n == s@.len(),
            n > 0,
            0 <= i <= n,
            spec_all_digits(s@.take(i as int)),
            acc == spec_digits_val(s@.take(i as int)),
        decreases n - i,
    {
        let c = s.get_char(i);
        let v = c as u32;
        if v < 48 || v > 57 {
            assert(!spec_is_digit(s@[i as int]));
            return 0;
        }
        let d = (v - 48) as u64;
        if acc > (u64::MAX - d) / 10 {
            proof {
                assert(spec_all_digits(s@.take(i + 1))) by {
                    assert(forall|j: int|
                        0 <= j < i ==> s@.take(i + 1)[j] == #[trigger] s@.take(i as int)[j]);
                }
                assert(s@.take(i + 1).drop_last() =~= s@.take(i as int));
                let m = u64::MAX as int;
                assert(acc * 10 + d > m) by (nonlinear_arith)
                    requires
                        acc > (m - d) / 10,
                        0 <= d <= 9,
                        m == 0xffff_ffff_ffff_ffff,
                        acc >= 0,
                ;
                assert(spec_digits_val(s@.take(i + 1)) > m);
                if spec_all_digits(s@) {
                    lemma_digits_val_prefix(s@, i + 1);
                }
            }
            return 0;
        }
        proof {
            let m = u64::MAX as int;
            assert(acc * 10 + d <= m) by (nonlinear_arith)
                requires
                    acc <= (m - d) / 10,
                    0 <= d <= 9,
                    m == 0xffff_ffff_ffff_ffff,
                    acc >= 0,
            ;
            assert(spec_all_digits(s@.take(i + 1))) by {
                assert(forall|j: int|
                    0 <= j < i ==> s@.take(i + 1)[j] == #[trigger] s@.take(i as int)[j]);
            }
            assert(s@.take(i + 1).drop_last() =~= s@.take(i as int));
        }
        acc = acc * 10 + d;
        i += 1;
    }
    proof {
        assert(s@.take(n as int) =~= s@);
    }
    acc
}

} // verus!
