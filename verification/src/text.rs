//! Character-level text utilities shared by the decoder and the encoder:
//! first-occurrence pattern search, splitting on a separator, whitespace
//! trimming, and decimal rendering of lengths.

use vstd::prelude::*;
use vstd::string::StrSliceExecFns;
use vstd::string::StringExecFns;

verus! {

/// The character sequences of a sequence of strings.
pub open spec fn str_views(v: Seq<String>) -> Seq<Seq<char>> {
    v.map_values(|s: String| s@)
}

/// The CRLF line separator.
pub open spec fn crlf_chars() -> Seq<char> {
    seq!['\r', '\n']
}

/// The blank-line separator between the header block and the body.
pub open spec fn sep_chars() -> Seq<char> {
    seq!['\r', '\n', '\r', '\n']
}

/// `pat` occurs in `s` starting at position `i`.
pub open spec fn match_at(s: Seq<char>, pat: Seq<char>, i: int) -> bool {
    &&& 0 <= i
    &&& i + pat.len() <= s.len()
    &&& s.subrange(i, i + pat.len() as int) == pat
}

/// `pat` occurs somewhere in `s`.
pub open spec fn occurs(s: Seq<char>, pat: Seq<char>) -> bool {
    exists|i: int| match_at(s, pat, i)
}

/// `i` is the earliest position at which `pat` occurs in `s`.
pub open spec fn is_first_match(s: Seq<char>, pat: Seq<char>, i: int) -> bool {
    &&& match_at(s, pat, i)
    &&& forall|j: int| 0 <= j < i ==> !match_at(s, pat, j)
}

/// The earliest position at which `pat` occurs in `s` (meaningful only
/// when `occurs(s, pat)` holds).
pub open spec fn first_match(s: Seq<char>, pat: Seq<char>) -> int {
    choose|i: int| is_first_match(s, pat, i)
}

/// Wherever some match exists, an earliest match exists.
pub proof fn lemma_first_match_exists(s: Seq<char>, pat: Seq<char>, w: int)
    requires
        match_at(s, pat, w),
    ensures
        is_first_match(s, pat, first_match(s, pat)),
    decreases w,
{
    if forall|j: int| 0 <= j < w ==> !match_at(s, pat, j) {
        assert(is_first_match(s, pat, w));
    } else {
        let j = choose|j: int| 0 <= j < w && match_at(s, pat, j);
        lemma_first_match_exists(s, pat, j);
    }
    let i = choose|i: int| is_first_match(s, pat, i);
    assert(is_first_match(s, pat, i));
}

/// The earliest match is unique.
pub proof fn lemma_first_match_unique(s: Seq<char>, pat: Seq<char>, i: int, j: int)
    requires
        is_first_match(s, pat, i),
        is_first_match(s, pat, j),
    ensures
        i == j,
{
    if i < j {
        assert(!match_at(s, pat, i));
    } else if j < i {
        assert(!match_at(s, pat, j));
    }
}

/// The pieces before and after the first occurrence of `pat` in `s`,
/// or nothing when `pat` does not occur.
pub open spec fn split_once_spec(s: Seq<char>, pat: Seq<char>) -> Option<
    (Seq<char>, Seq<char>),
> {
    if occurs(s, pat) {
        let i = first_match(s, pat);
        Some((s.subrange(0, i), s.subrange(i + pat.len() as int, s.len() as int)))
    } else {
        None
    }
}

/// What `split_once_spec` yields once the earliest match is known.
pub proof fn lemma_split_once_at(s: Seq<char>, pat: Seq<char>, i: int)
    requires
        is_first_match(s, pat, i),
    ensures
        split_once_spec(s, pat) == Some(
            (s.subrange(0, i), s.subrange(i + pat.len() as int, s.len() as int)),
        ),
{
    assert(occurs(s, pat));
    lemma_first_match_unique(s, pat, i, first_match(s, pat));
}

/// `s` split on every occurrence of `pat`, scanned from the left; the
/// result always has at least one piece, and the pieces never contain
/// `pat` themselves.
pub open spec fn split_all_spec(s: Seq<char>, pat: Seq<char>) -> Seq<Seq<char>>
    decreases s.len(),
    via split_all_spec_decreases
{
    if pat.len() == 0 {
        seq![s]
    } else {
        match split_once_spec(s, pat) {
            None => seq![s],
            Some((head, rest)) => seq![head] + split_all_spec(rest, pat),
        }
    }
}

#[via_fn]
proof fn split_all_spec_decreases(s: Seq<char>, pat: Seq<char>) {
    if pat.len() > 0 && occurs(s, pat) {
        let w = choose|i: int| match_at(s, pat, i);
        lemma_first_match_exists(s, pat, w);
    }
}

/// Splitting never yields an empty list, and unfolds one piece at a time.
pub proof fn lemma_split_all_unfold(s: Seq<char>, pat: Seq<char>, i: int)
    requires
        pat.len() > 0,
        is_first_match(s, pat, i),
    ensures
        split_all_spec(s, pat) == seq![s.subrange(0, i)] + split_all_spec(
            s.subrange(i + pat.len() as int, s.len() as int),
            pat,
        ),
{
    lemma_split_once_at(s, pat, i);
}

/// A whitespace character, as the header-value trim understands it.
pub open spec fn is_ws(c: char) -> bool {
    c == ' ' || c == '\t' || c == '\n' || c == '\r' || c == '\u{b}' || c == '\u{c}'
}

/// `s` with leading and trailing whitespace removed.
pub open spec fn spec_trim(s: Seq<char>) -> Seq<char>
    decreases s.len(),
{
    if s.len() == 0 {
        s
    } else if is_ws(s[0]) {
        spec_trim(s.drop_first())
    } else if is_ws(s[s.len() - 1]) {
        spec_trim(s.drop_last())
    } else {
        s
    }
}

/// Trimming a value whose interior edges are already clean is the
/// subrange between its first and last non-whitespace characters.
pub proof fn lemma_trim_subrange(s: Seq<char>, a: int, b: int)
    requires
        0 <= a <= b <= s.len(),
        forall|k: int| 0 <= k < a ==> is_ws(s[k]),
        forall|k: int| b <= k < s.len() ==> is_ws(s[k]),
        a < b ==> !is_ws(s[a]),
        a < b ==> !is_ws(s[b - 1]),
    ensures
        spec_trim(s) == s.subrange(a, b),
    decreases s.len(),
{
    if a == b {
        if s.len() == 0 {
            assert(spec_trim(s) =~= s.subrange(a, b));
        } else {
            assert(is_ws(s[0]));
            lemma_trim_subrange(s.drop_first(), 0, 0);
            assert(s.drop_first().subrange(0, 0) =~= s.subrange(a, b));
        }
    } else if a > 0 {
        assert(is_ws(s[0]));
        lemma_trim_subrange(s.drop_first(), a - 1, b - 1);
        assert(s.drop_first().subrange(a - 1, b - 1) =~= s.subrange(a, b));
    } else if b < s.len() {
        assert(is_ws(s[s.len() - 1]));
        assert(!is_ws(s[0]));
        lemma_trim_subrange(s.drop_last(), a, b);
        assert(s.drop_last().subrange(a, b) =~= s.subrange(a, b));
    } else {
        assert(!is_ws(s[0]));
        assert(!is_ws(s[s.len() - 1]));
        assert(s.subrange(0, s.len() as int) =~= s);
    }
}

/// The decimal digit character for a value below ten.
pub open spec fn digit_char(d: nat) -> char {
    if d == 0 {
        '0'
    } else if d == 1 {
        '1'
    } else if d == 2 {
        '2'
    } else if d == 3 {
        '3'
    } else if d == 4 {
        '4'
    } else if d == 5 {
        '5'
    } else if d == 6 {
        '6'
    } else if d == 7 {
        '7'
    } else if d == 8 {
        '8'
    } else {
        '9'
    }
}

/// The usual decimal rendering of `n`, most significant digit first,
/// with no leading zeros (and `0` itself rendered as "0").
pub open spec fn dec_rep(n: nat) -> Seq<char>
    decreases n,
{
    if n < 10 {
        seq![digit_char(n)]
    } else {
        dec_rep(n / 10) + seq![digit_char(n % 10)]
    }
}

/// The position of the earliest blank-line separator in `s`, if any.
pub fn find_sep(s: &str) -> (r: Option<usize>)
    ensures
        match r {
            Some(i) => is_first_match(s@, sep_chars(), i as int),
            None => !occurs(s@, sep_chars()),
        },
{
    let n = s.unicode_len();
    if n < 4 {
        return None;
    }
    let mut i: usize = 0;
    while i <= n - 4
        invariant
            n == s@.len(),
            4 <= n,
            i <= n - 3,
            forall|j: int| 0 <= j < i ==> !match_at(s@, sep_chars(), j),
        decreases n - i,
    {
        if s.get_char(i) == '\r' && s.get_char(i + 1) == '\n' && s.get_char(i + 2) == '\r'
            && s.get_char(i + 3) == '\n' {
            proof {
                assert(s@.subrange(i as int, i as int + 4) =~= sep_chars());
            }
            return Some(i);
        }
        proof {
            assert(!match_at(s@, sep_chars(), i as int)) by {
                if match_at(s@, sep_chars(), i as int) {
                    assert(s@.subrange(i as int, i as int + 4)[0] == s@[i as int]);
                    assert(s@.subrange(i as int, i as int + 4)[1] == s@[i as int + 1]);
                    assert(s@.subrange(i as int, i as int + 4)[2] == s@[i as int + 2]);
                    assert(s@.subrange(i as int, i as int + 4)[3] == s@[i as int + 3]);
                }
            }
        }
        i = i + 1;
    }
    None
}

/// The position of the earliest CRLF in `s`, if any.
pub fn find_crlf(s: &str) -> (r: Option<usize>)
    ensures
        match r {
            Some(i) => is_first_match(s@, crlf_chars(), i as int),
            None => !occurs(s@, crlf_chars()),
        },
{
    let n = s.unicode_len();
    if n < 2 {
        return None;
    }
    let mut i: usize = 0;
    while i <= n - 2
        invariant
            n == s@.len(),
            2 <= n,
            i <= n - 1,
            forall|j: int| 0 <= j < i ==> !match_at(s@, crlf_chars(), j),
        decreases n - i,
    {
        if s.get_char(i) == '\r' && s.get_char(i + 1) == '\n' {
            proof {
                assert(s@.subrange(i as int, i as int + 2) =~= crlf_chars());
            }
            return Some(i);
        }
        proof {
            assert(!match_at(s@, crlf_chars(), i as int)) by {
                if match_at(s@, crlf_chars(), i as int) {
                    assert(s@.subrange(i as int, i as int + 2)[0] == s@[i as int]);
                    assert(s@.subrange(i as int, i as int + 2)[1] == s@[i as int + 1]);
                }
            }
        }
        i = i + 1;
    }
    None
}

/// The position of the earliest occurrence of the character `c` in `s`,
/// if any.
pub fn find_char(s: &str, c: char) -> (r: Option<usize>)
    ensures
        match r {
            Some(i) => is_first_match(s@, seq![c], i as int),
            None => !occurs(s@, seq![c]),
        },
{
    let n = s.unicode_len();
    let mut i: usize = 0;
    while i < n
        invariant
            n == s@.len(),
            i <= n,
            forall|j: int| 0 <= j < i ==> !match_at(s@, seq![c], j),
        decreases n - i,
    {
        if s.get_char(i) == c {
            proof {
                assert(s@.subrange(i as int, i as int + 1) =~= seq![c]);
            }
            return Some(i);
        }
        proof {
            assert(!match_at(s@, seq![c], i as int)) by {
                if match_at(s@, seq![c], i as int) {
                    assert(s@.subrange(i as int, i as int + 1)[0] == s@[i as int]);
                }
            }
        }
        i = i + 1;
    }
    None
}

/// `s` split on every CRLF, left to right.
pub fn split_crlf(s: &str) -> (r: Vec<String>)
    ensures
        str_views(r@) == split_all_spec(s@, crlf_chars()),
{
    let mut out: Vec<String> = Vec::new();
    let mut rest: &str = s;
    loop
        invariant
            str_views(out@) + split_all_spec(rest@, crlf_chars()) == split_all_spec(
                s@,
                crlf_chars(),
            ),
        decreases rest@.len(),
    {
        let n = rest.unicode_len();
        match find_crlf(rest) {
            None => {
                let ghost prev = out@;
                out.push(rest.to_owned());
                proof {
                    assert(str_views(out@) =~= str_views(prev) + seq![rest@]);
                    assert(str_views(out@) =~= split_all_spec(s@, crlf_chars()));
                }
                return out;
            },
            Some(i) => {
                let ghost prev = out@;
                let ghost old_rest = rest@;
                let piece = rest.substring_char(0, i);
                out.push(piece.to_owned());
                let tail = rest.substring_char(i + 2, n);
                rest = tail;
                proof {
                    lemma_split_all_unfold(old_rest, crlf_chars(), i as int);
                    assert(str_views(out@) =~= str_views(prev) + seq![old_rest.subrange(
                        0,
                        i as int,
                    )]);
                    assert(str_views(out@) + split_all_spec(rest@, crlf_chars())
                        =~= split_all_spec(s@, crlf_chars()));
                }
            },
        }
    }
}

/// `line` split on every single space, left to right.
pub fn split_spaces(line: &str) -> (r: Vec<String>)
    ensures
        str_views(r@) == split_all_spec(line@, seq![' ']),
{
    let mut out: Vec<String> = Vec::new();
    let mut rest: &str = line;
    loop
        invariant
            str_views(out@) + split_all_spec(rest@, seq![' ']) == split_all_spec(
                line@,
                seq![' '],
            ),
        decreases rest@.len(),
    {
        let n = rest.unicode_len();
        match find_char(rest, ' ') {
            None => {
                let ghost prev = out@;
                out.push(rest.to_owned());
                proof {
                    assert(str_views(out@) =~= str_views(prev) + seq![rest@]);
                    assert(str_views(out@) =~= split_all_spec(line@, seq![' ']));
                }
                return out;
            },
            Some(i) => {
                let ghost prev = out@;
                let ghost old_rest = rest@;
                let piece = rest.substring_char(0, i);
                out.push(piece.to_owned());
                let tail = rest.substring_char(i + 1, n);
                rest = tail;
                proof {
                    lemma_split_all_unfold(old_rest, seq![' '], i as int);
                    assert(str_views(out@) =~= str_views(prev) + seq![old_rest.subrange(
                        0,
                        i as int,
                    )]);
                    assert(str_views(out@) + split_all_spec(rest@, seq![' '])
                        =~= split_all_spec(line@, seq![' ']));
                }
            },
        }
    }
}

/// Whether `c` counts as whitespace for value trimming.
pub fn is_ws_char(c: char) -> (r: bool)
    ensures
        r == is_ws(c),
{
    c == ' ' || c == '\t' || c == '\n' || c == '\r' || c == '\u{b}' || c == '\u{c}'
}

/// `s` with leading and trailing whitespace removed, as a fresh string.
pub fn trim(s: &str) -> (r: String)
    ensures
        r@ == spec_trim(s@),
{
    let n = s.unicode_len();
    let mut a: usize = 0;
    while a < n && is_ws_char(s.get_char(a))
        invariant
            n == s@.len(),
            a <= n,
            forall|k: int| 0 <= k < a ==> is_ws(s@[k]),
        decreases n - a,
    {
        a = a + 1;
    }
    let mut b: usize = n;
    while b > a && is_ws_char(s.get_char(b - 1))
        invariant
            n == s@.len(),
            a <= b <= n,
            forall|k: int| b <= k < n ==> is_ws(s@[k]),
        decreases b,
    {
        b = b - 1;
    }
    proof {
        lemma_trim_subrange(s@, a as int, b as int);
    }
    s.substring_char(a, b).to_owned()
}

/// The single-character string for a digit value.
fn digit_str(d: usize) -> (r: &'static str)
    requires
        d < 10,
    ensures
        r@ == seq![digit_char(d as nat)],
{
    proof {
        reveal_strlit("0");
        reveal_strlit("1");
        reveal_strlit("2");
        reveal_strlit("3");
        reveal_strlit("4");
        reveal_strlit("5");
        reveal_strlit("6");
        reveal_strlit("7");
        reveal_strlit("8");
        reveal_strlit("9");
    }
    let r = if d == 0 {
        "0"
    } else if d == 1 {
        "1"
    } else if d == 2 {
        "2"
    } else if d == 3 {
        "3"
    } else if d == 4 {
        "4"
    } else if d == 5 {
        "5"
    } else if d == 6 {
        "6"
    } else if d == 7 {
        "7"
    } else if d == 8 {
        "8"
    } else {
        "9"
    };
    proof {
        assert(r@ =~= seq![digit_char(d as nat)]);
    }
    r
}

/// The decimal rendering of `n`, most significant digit first.
pub fn usize_to_dec(n: usize) -> (r: String)
    ensures
        r@ == dec_rep(n as nat),
    decreases n,
{
    if n < 10 {
        digit_str(n).to_owned()
    } else {
        let mut s = usize_to_dec(n / 10);
        s.append(digit_str(n % 10));
        proof {
            assert((n / 10) as nat == (n as nat) / 10);
            assert((n % 10) as nat == (n as nat) % 10);
        }
        s
    }
}

} // verus!
