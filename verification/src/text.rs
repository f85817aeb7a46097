//! Character-level text utilities for the body extraction pipeline.
//!
//! Everything here is verified against a direct `Seq<char>` model:
//! ASCII case folding, substring and prefix tests, HTML escaping of
//! `&`, `<` and `>`, whitespace trimming, decimal formatting and
//! substring replacement.

use vstd::prelude::*;
use vstd::string::StrSliceExecFns;
use vstd::string::StringExecFns;

verus! {

/// ASCII lower-casing of a single character; other characters unchanged.
pub open spec fn spec_lower_char(c: char) -> char {
    match c {
        'A' => 'a',
        'B' => 'b',
        'C' => 'c',
        'D' => 'd',
        'E' => 'e',
        'F' => 'f',
        'G' => 'g',
        'H' => 'h',
        'I' => 'i',
        'J' => 'j',
        'K' => 'k',
        'L' => 'l',
        'M' => 'm',
        'N' => 'n',
        'O' => 'o',
        'P' => 'p',
        'Q' => 'q',
        'R' => 'r',
        'S' => 's',
        'T' => 't',
        'U' => 'u',
        'V' => 'v',
        'W' => 'w',
        'X' => 'x',
        'Y' => 'y',
        'Z' => 'z',
        _ => c,
    }
}

pub fn lower_char(c: char) -> (r: char)
    ensures
        r == spec_lower_char(c),
{
    match c {
        'A' => 'a',
        'B' => 'b',
        'C' => 'c',
        'D' => 'd',
        'E' => 'e',
        'F' => 'f',
        'G' => 'g',
        'H' => 'h',
        'I' => 'i',
        'J' => 'j',
        'K' => 'k',
        'L' => 'l',
        'M' => 'm',
        'N' => 'n',
        'O' => 'o',
        'P' => 'p',
        'Q' => 'q',
        'R' => 'r',
        'S' => 's',
        'T' => 't',
        'U' => 'u',
        'V' => 'v',
        'W' => 'w',
        'X' => 'x',
        'Y' => 'y',
        'Z' => 'z',
        _ => c,
    }
}

/// Two sequences are equal up to ASCII case.
pub open spec fn ci_match_at(s: Seq<char>, i: int, pat: Seq<char>) -> bool {
    &&& 0 <= i
    &&& i + pat.len() <= s.len()
    &&& forall|j: int|
        0 <= j < pat.len() ==> spec_lower_char(s[i + j]) == spec_lower_char(pat[j])
}

/// A case-insensitive occurrence of `pat` anywhere in `s`.
pub open spec fn ci_contains(s: Seq<char>, pat: Seq<char>) -> bool {
    exists|i: int| #[trigger] ci_match_at(s, i, pat)
}

/// Case-insensitive match of `pat` against `s` at position `i`.
pub fn ci_match_at_exec(s: &str, s_len: usize, i: usize, pat: &str, pat_len: usize) -> (r: bool)
    requires
        s_len == s@.len(),
        pat_len == pat@.len(),
        i + pat_len <= s_len,
    ensures
        r == ci_match_at(s@, i as int, pat@),
{
    let mut j: usize = 0;
    while j < pat_len
        invariant
            s_len == s@.len(),
            pat_len == pat@.len(),
            i + pat_len <= s_len,
            0 <= j <= pat_len,
            forall|k: int|
                0 <= k < j ==> spec_lower_char(s@[i + k]) == spec_lower_char(pat@[k]),
        decreases pat_len - j,
    {
        let a = lower_char(s.get_char(i + j));
        let b = lower_char(pat.get_char(j));
        if a != b {
            return false;
        }
        j += 1;
    }
    true
}

/// Case-insensitive substring search.
pub fn ci_contains_exec(s: &str, pat: &str) -> (r: bool)
    ensures
        r == ci_contains(s@, pat@),
{
    let s_len = s.unicode_len();
    let pat_len = pat.unicode_len();
    if pat_len > s_len {
        assert(forall|i: int| !(#[trigger] ci_match_at(s@, i, pat@)));
        return false;
    }
    let mut i: usize = 0;
    while i <= s_len - pat_len
        invariant
            s_len == s@.len(),
            pat_len == pat@.len(),
            pat_len <= s_len,
            0 <= i <= s_len - pat_len + 1,
            forall|k: int| 0 <= k < i ==> !(#[trigger] ci_match_at(s@, k, pat@)),
        decreases s_len - pat_len + 1 - i,
    {
        if ci_match_at_exec(s, s_len, i, pat, pat_len) {
            return true;
        }
        i += 1;
    }
    assert(forall|k: int| !(#[trigger] ci_match_at(s@, k, pat@))) by {
        assert(i + pat_len > s_len);
    }
    false
}

/// Exact (case-sensitive) prefix test.
pub open spec fn starts_with(s: Seq<char>, p: Seq<char>) -> bool {
    p.len() <= s.len() && s.subrange(0, p.len() as int) == p
}

pub fn starts_with_exec(s: &str, p: &str) -> (r: bool)
    ensures
        r == starts_with(s@, p@),
{
    let s_len = s.unicode_len();
    let p_len = p.unicode_len();
    if p_len > s_len {
        return false;
    }
    let mut j: usize = 0;
    while j < p_len
        invariant
            s_len == s@.len(),
            p_len == p@.len(),
            p_len <= s_len,
            0 <= j <= p_len,
            forall|k: int| 0 <= k < j ==> s@[k] == p@[k],
        decreases p_len - j,
    {
        if s.get_char(j) != p.get_char(j) {
            assert(!starts_with(s@, p@)) by {
                assert(s@.subrange(0, p@.len() as int) =~= p@ ==> s@[j as int] == p@[j as int]);
            }
            return false;
        }
        j += 1;
    }
    assert(s@.subrange(0, p@.len() as int) =~= p@);
    true
}

/// Exact character-for-character equality of two strings.
pub fn str_eq(a: &str, b: &str) -> (r: bool)
    ensures
        r == (a@ == b@),
{
    let a_len = a.unicode_len();
    let b_len = b.unicode_len();
    if a_len != b_len {
        return false;
    }
    let mut j: usize = 0;
    while j < a_len
        invariant
            a_len == a@.len(),
            b_len == b@.len(),
            a_len == b_len,
            0 <= j <= a_len,
            forall|k: int| 0 <= k < j ==> a@[k] == b@[k],
        decreases a_len - j,
    {
        if a.get_char(j) != b.get_char(j) {
            assert(a@ =~= b@ ==> a@[j as int] == b@[j as int]);
            return false;
        }
        j += 1;
    }
    assert(a@ =~= b@);
    true
}

/// HTML escape of one character: `&`, `<` and `>` become entities.
pub open spec fn escape_char(c: char) -> Seq<char> {
    if c == '&' {
        seq!['&', 'a', 'm', 'p', ';']
    } else if c == '<' {
        seq!['&', 'l', 't', ';']
    } else if c == '>' {
        seq!['&', 'g', 't', ';']
    } else {
        seq![c]
    }
}

/// HTML escape of a whole sequence, character by character.
pub open spec fn escape_html(s: Seq<char>) -> Seq<char>
    decreases s.len(),
{
    if s.len() == 0 {
        Seq::empty()
    } else {
        escape_char(s[0]) + escape_html(s.skip(1))
    }
}

pub proof fn lemma_escape_push(s: Seq<char>, c: char)
    ensures
        escape_html(s.push(c)) == escape_html(s) + escape_char(c),
    decreases s.len(),
{
    assert(s.push(c)[0] == if s.len() == 0 { c } else { s[0] });
    if s.len() == 0 {
        assert(s.push(c).skip(1) =~= Seq::<char>::empty());
        assert(escape_html(s.push(c)) == escape_char(c) + escape_html(Seq::<char>::empty()));
        assert(escape_html(s.push(c)) =~= escape_html(s) + escape_char(c));
    } else {
        assert(s.push(c).skip(1) =~= s.skip(1).push(c));
        lemma_escape_push(s.skip(1), c);
        assert(escape_html(s.push(c)) =~= escape_html(s) + escape_char(c));
    }
}

/// Escapes `&`, `<` and `>` so arbitrary text can be embedded in HTML.
pub fn escape_html_exec(s: &str) -> (r: String)
    ensures
        r@ == escape_html(s@),
{
    let len = s.unicode_len();
    let mut out = String::new();
    let mut i: usize = 0;
    while i < len
        invariant
            len == s@.len(),
            0 <= i <= len,
            out@ == escape_html(s@.take(i as int)),
        decreases len - i,
    {
        let c = s.get_char(i);
        if c == '&' {
            out.append("&amp;");
        } else if c == '<' {
            out.append("&lt;");
        } else if c == '>' {
            out.append("&gt;");
        } else {
            out.append(s.substring_char(i, i + 1));
        }
        proof {
            reveal_strlit("&amp;");
            reveal_strlit("&lt;");
            reveal_strlit("&gt;");
            lemma_escape_push(s@.take(i as int), c);
            assert(s@.take(i + 1) =~= s@.take(i as int).push(c));
            assert(s@.subrange(i as int, i + 1) =~= seq![c]);
            assert("&amp;"@ =~= escape_char('&'));
            assert("&lt;"@ =~= escape_char('<'));
            assert("&gt;"@ =~= escape_char('>'));
            assert(out@ =~= escape_html(s@.take(i + 1)));
        }
        i += 1;
    }
    proof {
        assert(s@.take(len as int) =~= s@);
    }
    out
}

/// The whitespace characters recognised when trimming message text.
pub open spec fn is_space(c: char) -> bool {
    c == ' ' || c == '\t' || c == '\r' || c == '\n'
}

pub fn is_space_exec(c: char) -> (r: bool)
    ensures
        r == is_space(c),
{
    c == ' ' || c == '\t' || c == '\r' || c == '\n'
}

/// Length of the run of whitespace at the front of `s`.
pub open spec fn leading_spaces(s: Seq<char>) -> int
    decreases s.len(),
{
    if s.len() == 0 {
        0
    } else if is_space(s[0]) {
        1 + leading_spaces(s.skip(1))
    } else {
        0
    }
}

/// Length of the run of whitespace at the back of `s`.
pub open spec fn trailing_spaces(s: Seq<char>) -> int
    decreases s.len(),
{
    if s.len() == 0 {
        0
    } else if is_space(s.last()) {
        1 + trailing_spaces(s.drop_last())
    } else {
        0
    }
}

/// The length of `s` once leading and trailing whitespace is removed.
pub open spec fn spec_trimmed_len(s: Seq<char>) -> int {
    if leading_spaces(s) == s.len() {
        0
    } else {
        s.len() - leading_spaces(s) - trailing_spaces(s)
    }
}

proof fn lemma_leading(s: Seq<char>, a: int)
    requires
        0 <= a <= s.len(),
        forall|j: int| 0 <= j < a ==> is_space(s[j]),
        a < s.len() ==> !is_space(s[a]),
    ensures
        leading_spaces(s) == a,
    decreases a,
{
    if a == 0 {
    } else {
        lemma_leading(s.skip(1), a - 1);
    }
}

proof fn lemma_trailing(s: Seq<char>, b: int)
    requires
        0 <= b <= s.len(),
        forall|j: int| s.len() - b <= j < s.len() ==> is_space(s[j]),
        b < s.len() ==> !is_space(s[s.len() - 1 - b]),
    ensures
        trailing_spaces(s) == b,
    decreases b,
{
    if b == 0 {
    } else {
        lemma_trailing(s.drop_last(), b - 1);
    }
}

fn first_non_space(s: &str, len: usize) -> (a: usize)
    requires
        len == s@.len(),
    ensures
        0 <= a <= len,
        forall|j: int| 0 <= j < a ==> is_space(s@[j]),
        a < len ==> !is_space(s@[a as int]),
{
    let mut a: usize = 0;
    while a < len
        invariant
            len == s@.len(),
            0 <= a <= len,
            forall|j: int| 0 <= j < a ==> is_space(s@[j]),
        decreases len - a,
    {
        if !is_space_exec(s.get_char(a)) {
            return a;
        }
        a += 1;
    }
    len
}

fn spaces_at_end(s: &str, len: usize) -> (b: usize)
    requires
        len == s@.len(),
    ensures
        0 <= b <= len,
        forall|j: int| len - b <= j < len ==> is_space(s@[j]),
        b < len ==> !is_space(s@[len - 1 - b]),
{
    let mut b: usize = 0;
    while b < len
        invariant
            len == s@.len(),
            0 <= b <= len,
            forall|j: int| len - b <= j < len ==> is_space(s@[j]),
        decreases len - b,
    {
        if !is_space_exec(s.get_char(len - 1 - b)) {
            return b;
        }
        b += 1;
    }
    len
}

/// Number of characters that `s` keeps after trimming whitespace at
/// both ends.
pub fn trimmed_len_exec(s: &str) -> (r: usize)
    ensures
        r == spec_trimmed_len(s@),
{
    let len = s.unicode_len();
    let a = first_non_space(s, len);
    proof {
        lemma_leading(s@, a as int);
    }
    if a == len {
        return 0;
    }
    let b = spaces_at_end(s, len);
    proof {
        lemma_trailing(s@, b as int);
    }
    len - a - b
}

/// The decimal digit `d` as a character, for `0 <= d <= 9`.
pub open spec fn digit_char(d: int) -> char {
    if d == 0 {
        '0'
    } else if d == 1 {
        '1'
    } else if d == 2 {
        '2'
    } else if d == 3 {
        '3'
    } else if d == 4 {
        '4'
    } else if d == 5 {
        '5'
    } else if d == 6 {
        '6'
    } else if d == 7 {
        '7'
    } else if d == 8 {
        '8'
    } else {
        '9'
    }
}

/// Decimal rendering of a non-negative integer, most significant digit
/// first, with no leading zeros (except for zero itself).
pub open spec fn dec_str(n: int) -> Seq<char>
    decreases n,
{
    if n < 10 {
        seq![digit_char(n)]
    } else {
        dec_str(n / 10).push(digit_char(n % 10))
    }
}

/// Appends the decimal rendering of `n` to `out`.
pub fn push_dec(out: &mut String, n: u32)
    ensures
        final(out)@ == old(out)@ + dec_str(n as int),
    decreases n,
{
    if n >= 10 {
        proof {
            assert(n / 10 < n) by (nonlinear_arith)
                requires
                    n >= 10,
            ;
        }
        push_dec(out, n / 10);
    }
    let d = n % 10;
    if d == 0 {
        out.append("0");
    } else if d == 1 {
        out.append("1");
    } else if d == 2 {
        out.append("2");
    } else if d == 3 {
        out.append("3");
    } else if d == 4 {
        out.append("4");
    } else if d == 5 {
        out.append("5");
    } else if d == 6 {
        out.append("6");
    } else if d == 7 {
        out.append("7");
    } else if d == 8 {
        out.append("8");
    } else {
        out.append("9");
    }
    proof {
        reveal_strlit("0");
        reveal_strlit("1");
        reveal_strlit("2");
        reveal_strlit("3");
        reveal_strlit("4");
        reveal_strlit("5");
        reveal_strlit("6");
        reveal_strlit("7");
        reveal_strlit("8");
        reveal_strlit("9");
        if n < 10 {
            assert(final(out)@ =~= old(out)@ + dec_str(n as int));
        } else {
            assert(final(out)@ =~= old(out)@ + dec_str(n as int));
        }
    }
}

/// An ASCII letter or digit.
pub open spec fn is_alnum(c: char) -> bool {
    ('a' <= c && c <= 'z') || ('A' <= c && c <= 'Z') || ('0' <= c && c <= '9')
}

/// File-name sanitizing: every character that is not an ASCII letter or
/// digit becomes an underscore.
pub open spec fn sanitize(s: Seq<char>) -> Seq<char> {
    Seq::new(s.len(), |i: int| if is_alnum(s[i]) { s[i] } else { '_' })
}

pub fn sanitize_exec(s: &str) -> (r: String)
    ensures
        r@ == sanitize(s@),
{
    let len = s.unicode_len();
    let mut out = String::new();
    let mut i: usize = 0;
    while i < len
        invariant
            len == s@.len(),
            0 <= i <= len,
            out@ == sanitize(s@.take(i as int)),
        decreases len - i,
    {
        let c = s.get_char(i);
        let keep = ('a' <= c && c <= 'z') || ('A' <= c && c <= 'Z') || ('0' <= c && c <= '9');
        if keep {
            out.append(s.substring_char(i, i + 1));
        } else {
            out.append("_");
        }
        proof {
            reveal_strlit("_");
            assert(s@.subrange(i as int, i + 1) =~= seq![s@[i as int]]);
            assert("_"@ =~= seq!['_']);
            assert(out@ =~= sanitize(s@.take(i + 1)));
        }
        i += 1;
    }
    proof {
        assert(s@.take(len as int) =~= s@);
    }
    out
}

/// Replacement of every occurrence of `pat` in `h` by `rep`, scanning
/// left to right without revisiting replaced text. Meaningful only for
/// non-empty `pat`.
pub open spec fn replace_all(h: Seq<char>, pat: Seq<char>, rep: Seq<char>) -> Seq<char>
    decreases h.len(),
{
    if h.len() == 0 {
        Seq::empty()
    } else if h.len() >= pat.len() && pat.len() > 0 && h.subrange(0, pat.len() as int) == pat {
        rep + replace_all(h.skip(pat.len() as int), pat, rep)
    } else {
        seq![h[0]] + replace_all(h.skip(1), pat, rep)
    }
}

/// Replaces every occurrence of `pat` in `s` by `rep`.
pub fn replace_all_exec(s: &str, pat: &str, rep: &str) -> (r: String)
    requires
        pat@.len() > 0,
    ensures
        r@ == replace_all(s@, pat@, rep@),
{
    let s_len = s.unicode_len();
    let pat_len = pat.unicode_len();
    let mut out = String::new();
    let mut i: usize = 0;
    proof {
        assert(s@.skip(0) =~= s@);
    }
    while i < s_len
        invariant
            s_len == s@.len(),
            pat_len == pat@.len(),
            pat_len > 0,
            0 <= i <= s_len,
            replace_all(s@, pat@, rep@) == out@ + replace_all(s@.skip(i as int), pat@, rep@),
        decreases s_len - i,
    {
        let ghost rest = s@.skip(i as int);
        let hit = if pat_len <= s_len - i {
            let piece = s.substring_char(i, i + pat_len);
            str_eq(piece, pat)
        } else {
            false
        };
        if hit {
            out.append(rep);
            proof {
                assert(rest.subrange(0, pat@.len() as int) =~= s@.subrange(
                    i as int,
                    i + pat@.len(),
                ));
                assert(rest.skip(pat@.len() as int) =~= s@.skip(i + pat@.len()));
                assert(replace_all(rest, pat@, rep@) == rep@ + replace_all(
                    s@.skip(i + pat@.len()),
                    pat@,
                    rep@,
                ));
            }
            i += pat_len;
        } else {
            out.append(s.substring_char(i, i + 1));
            proof {
                if i + pat@.len() <= s@.len() {
                    assert(rest.subrange(0, pat@.len() as int) =~= s@.subrange(
                        i as int,
                        i + pat@.len(),
                    ));
                }
                assert(s@.subrange(i as int, i + 1) =~= seq![rest[0]]);
                assert(rest.skip(1) =~= s@.skip(i + 1));
                assert(replace_all(rest, pat@, rep@) == seq![rest[0]] + replace_all(
                    s@.skip(i + 1),
                    pat@,
                    rep@,
                ));
            }
            i += 1;
        }
    }
    proof {
        assert(s@.skip(s_len as int) =~= Seq::<char>::empty());
    }
    out
}


} // verus!
