//! Character-level utilities shared by the request and response modules:
//! trimming, splitting on a separator character, string equality and
//! lexicographic comparison.  Each executable function is specified against a
//! spec-level counterpart over `Seq<char>`.

use vstd::prelude::*;

verus! {

/// The set of characters a plain trim removes: the Unicode `White_Space`
/// characters.
pub open spec fn is_space_char(c: char) -> bool {
    c == ' ' || c == '\t' || c == '\n' || c == '\r' || c == '\u{b}' || c == '\u{c}' || c
        == '\u{85}' || c == '\u{a0}' || c == '\u{1680}' || (0x2000 <= (c as u32) && (c as u32)
        <= 0x200a) || c == '\u{2028}' || c == '\u{2029}' || c == '\u{202f}' || c == '\u{205f}' || c
        == '\u{3000}'
}

/// Which characters a trim removes: whitespace, null bytes, or double quotes.
#[derive(Clone, Copy)]
pub enum TrimKind {
    Space,
    Nul,
    Quote,
}

/// Whether `c` belongs to the trimmed set selected by `k`.
pub open spec fn in_trim_kind(c: char, k: TrimKind) -> bool {
    match k {
        TrimKind::Space => is_space_char(c),
        TrimKind::Nul => c == '\u{0}',
        TrimKind::Quote => c == '"',
    }
}

fn char_in_trim_kind(c: char, k: TrimKind) -> (b: bool)
    ensures
        b == in_trim_kind(c, k),
{
    match k {
        TrimKind::Space => {
            if c == ' ' || c == '\t' || c == '\n' || c == '\r' {
                true
            } else {
                let u = c as u32;
                u == 0xb || u == 0xc || u == 0x85 || u == 0xa0 || u == 0x1680 || (0x2000 <= u && u
                    <= 0x200a) || u == 0x2028 || u == 0x2029 || u == 0x202f || u == 0x205f || u
                    == 0x3000
            }
        },
        TrimKind::Nul => c == '\u{0}',
        TrimKind::Quote => c == '"',
    }
}

/// `s` with its leading run of `k`-characters removed.
pub open spec fn trim_start_kind(s: Seq<char>, k: TrimKind) -> Seq<char>
    decreases s.len(),
{
    if s.len() > 0 && in_trim_kind(s[0], k) {
        trim_start_kind(s.drop_first(), k)
    } else {
        s
    }
}

/// `s` with its trailing run of `k`-characters removed.
pub open spec fn trim_end_kind(s: Seq<char>, k: TrimKind) -> Seq<char>
    decreases s.len(),
{
    if s.len() > 0 && in_trim_kind(s.last(), k) {
        trim_end_kind(s.drop_last(), k)
    } else {
        s
    }
}

/// `s` with leading and trailing `k`-characters removed.
pub open spec fn trim_kind(s: Seq<char>, k: TrimKind) -> Seq<char> {
    trim_end_kind(trim_start_kind(s, k), k)
}

/// Whitespace trim, as `str::trim` performs it.
pub open spec fn spec_trim(s: Seq<char>) -> Seq<char> {
    trim_kind(s, TrimKind::Space)
}

proof fn lemma_trim_start_skip(s: Seq<char>, k: TrimKind, a: int)
    requires
        0 <= a <= s.len(),
        forall|j: int| 0 <= j < a ==> in_trim_kind(s[j], k),
        a < s.len() ==> !in_trim_kind(s[a], k),
    ensures
        trim_start_kind(s, k) == s.skip(a),
    decreases a,
{
    if a == 0 {
        assert(s.skip(0) =~= s);
    } else {
        assert(in_trim_kind(s[0], k));
        lemma_trim_start_skip(s.drop_first(), k, a - 1);
        assert(s.drop_first().skip(a - 1) =~= s.skip(a));
    }
}

proof fn lemma_trim_end_take(s: Seq<char>, k: TrimKind, b: int)
    requires
        0 <= b <= s.len(),
        forall|j: int| b <= j < s.len() ==> in_trim_kind(s[j], k),
        b > 0 ==> !in_trim_kind(s[b - 1], k),
    ensures
        trim_end_kind(s, k) == s.take(b),
    decreases s.len() - b,
{
    if b == s.len() {
        assert(s.take(b) =~= s);
        if s.len() > 0 && in_trim_kind(s.last(), k) {
            assert(!in_trim_kind(s[b - 1], k));
            assert(false);
        }
    } else {
        assert(in_trim_kind(s.last(), k));
        lemma_trim_end_take(s.drop_last(), k, b);
        assert(s.drop_last().take(b) =~= s.take(b));
    }
}

/// `s` trimmed of the `k`-characters on both ends.
pub fn trim_kind_str<'a>(s: &'a str, k: TrimKind) -> (r: &'a str)
    ensures
        r@ == trim_kind(s@, k),
{
    let n = s.unicode_len();
    let mut a: usize = 0;
    while a < n && char_in_trim_kind(s.get_char(a), k)
        invariant
            a <= n,
            n == s@.len(),
            forall|j: int| 0 <= j < a ==> in_trim_kind(s@[j], k),
        decreases n - a,
    {
        a = a + 1;
    }
    let mut b: usize = n;
    while b > a && char_in_trim_kind(s.get_char(b - 1), k)
        invariant
            a <= b <= n,
            n == s@.len(),
            forall|j: int| b <= j < n ==> in_trim_kind(s@[j], k),
        decreases b,
    {
        b = b - 1;
    }
    proof {
        lemma_trim_start_skip(s@, k, a as int);
        let t = s@.skip(a as int);
        if b == a {
            lemma_trim_end_take(t, k, 0);
        } else {
            lemma_trim_end_take(t, k, b - a);
        }
        assert(t.take(b - a) =~= s@.subrange(a as int, b as int));
    }
    s.substring_char(a, b)
}

/// `s` trimmed of whitespace, as `str::trim`.
pub fn trim_str<'a>(s: &'a str) -> (r: &'a str)
    ensures
        r@ == spec_trim(s@),
{
    trim_kind_str(s, TrimKind::Space)
}

/// The index of the first occurrence of `sep` in `s`, or `s.len()` when `sep`
/// does not occur.
pub open spec fn sep_index(s: Seq<char>, sep: char) -> int
    decreases s.len(),
{
    if s.len() == 0 {
        0
    } else if s[0] == sep {
        0
    } else {
        1 + sep_index(s.drop_first(), sep)
    }
}

pub proof fn lemma_sep_index_props(s: Seq<char>, sep: char)
    ensures
        0 <= sep_index(s, sep) <= s.len(),
        sep_index(s, sep) < s.len() ==> s[sep_index(s, sep)] == sep,
        forall|j: int| 0 <= j < sep_index(s, sep) ==> s[j] != sep,
    decreases s.len(),
{
    if s.len() > 0 && s[0] != sep {
        lemma_sep_index_props(s.drop_first(), sep);
        assert forall|j: int| 0 <= j < sep_index(s, sep) implies s[j] != sep by {
            if j > 0 {
                assert(s[j] == s.drop_first()[j - 1]);
            }
        };
    }
}

/// The first occurrence determines `sep_index`.
pub proof fn lemma_sep_index_at(s: Seq<char>, sep: char, i: int)
    requires
        0 <= i <= s.len(),
        forall|j: int| 0 <= j < i ==> s[j] != sep,
        i < s.len() ==> s[i] == sep,
    ensures
        sep_index(s, sep) == i,
    decreases i,
{
    if s.len() == 0 {
    } else if i == 0 {
    } else {
        assert(s[0] != sep);
        assert(forall|j: int| 0 <= j < i - 1 ==> s.drop_first()[j] != sep);
        lemma_sep_index_at(s.drop_first(), sep, i - 1);
    }
}

/// The pieces of `s` between occurrences of `sep`, in order; always at least
/// one piece, as `str::split` yields them.
pub open spec fn spec_split(s: Seq<char>, sep: char) -> Seq<Seq<char>>
    decreases s.len(),
{
    let i = sep_index(s, sep);
    if 0 <= i < s.len() {
        seq![s.take(i)] + spec_split(s.skip(i + 1), sep)
    } else {
        seq![s]
    }
}

/// Splitting at the first separator only: the part before it, and — when the
/// separator occurs — the whole remainder after it, as `str::splitn(2, _)`.
pub open spec fn spec_split_first(s: Seq<char>, sep: char) -> (Seq<char>, Option<Seq<char>>) {
    let i = sep_index(s, sep);
    if 0 <= i < s.len() {
        (s.take(i), Some(s.skip(i + 1)))
    } else {
        (s, None)
    }
}

/// The index of the first occurrence of `sep` at or after `from`, or
/// `s@.len()` when there is none.
pub fn find_sep(s: &str, from: usize, sep: char) -> (i: usize)
    requires
        from <= s@.len(),
    ensures
        from <= i <= s@.len(),
        i < s@.len() ==> s@[i as int] == sep,
        forall|j: int| from <= j < i ==> s@[j] != sep,
    decreases s@.len() - from,
{
    let n = s.unicode_len();
    let mut i = from;
    while i < n && s.get_char(i) != sep
        invariant
            from <= i <= n,
            n == s@.len(),
            forall|j: int| from <= j < i ==> s@[j] != sep,
        decreases n - i,
    {
        i = i + 1;
    }
    i
}

/// `spec_split` unrolled once at the first separator position.
pub proof fn lemma_split_step(s: Seq<char>, sep: char, i: int)
    requires
        0 <= i < s.len(),
        forall|j: int| 0 <= j < i ==> s[j] != sep,
        s[i] == sep,
    ensures
        spec_split(s, sep) == seq![s.take(i)] + spec_split(s.skip(i + 1), sep),
{
    lemma_sep_index_at(s, sep, i);
}

/// `spec_split` of a separator-free sequence is that sequence alone.
pub proof fn lemma_split_whole(s: Seq<char>, sep: char)
    requires
        forall|j: int| 0 <= j < s.len() ==> s[j] != sep,
    ensures
        spec_split(s, sep) == seq![s],
{
    lemma_sep_index_at(s, sep, s.len() as int);
}

/// The pieces of `s` between occurrences of `sep`, as borrowed substrings.
pub fn split_str<'a>(s: &'a str, sep: char) -> (r: Vec<&'a str>)
    ensures
        r.deep_view() == spec_split(s@, sep),
        r@.len() >= 1,
{
    let n = s.unicode_len();
    let mut r: Vec<&'a str> = Vec::new();
    let mut start: usize = 0;
    proof {
        assert(r.deep_view() =~= Seq::<Seq<char>>::empty());
        assert(s@.skip(0) =~= s@);
        assert(r.deep_view() + spec_split(s@, sep) =~= spec_split(s@, sep));
    }
    loop
        invariant
            start <= n,
            n == s@.len(),
            spec_split(s@, sep) == r.deep_view() + spec_split(s@.skip(start as int), sep),
        decreases n - start,
    {
        let i = find_sep(s, start, sep);
        let piece = s.substring_char(start, i);
        let ghost old_r = r.deep_view();
        r.push(piece);
        proof {
            assert(r.deep_view() =~= old_r.push(piece@));
        }
        if i == n {
            proof {
                let t = s@.skip(start as int);
                assert(forall|j: int| 0 <= j < t.len() ==> t[j] == s@[start + j] && t[j] != sep);
                lemma_split_whole(t, sep);
                assert(piece@ =~= t);
                assert(old_r.push(piece@) =~= old_r + seq![t]);
            }
            return r;
        }
        proof {
            let t = s@.skip(start as int);
            let k = i - start;
            assert(forall|j: int| 0 <= j < t.len() ==> t[j] == s@[start + j]);
            lemma_split_step(t, sep, k);
            assert(piece@ =~= t.take(k));
            assert(t.skip(k + 1) =~= s@.skip(i + 1));
            assert(old_r.push(piece@) + spec_split(s@.skip(i + 1), sep) =~= old_r + (seq![
                t.take(k),
            ] + spec_split(t.skip(k + 1), sep)));
        }
        start = i + 1;
    }
}

/// The part of `s` before the first `sep`, and the remainder after it when
/// `sep` occurs at all.
pub fn split_first_str<'a>(s: &'a str, sep: char) -> (r: (&'a str, Option<&'a str>))
    ensures
        r.0@ == spec_split_first(s@, sep).0,
        match r.1 {
            Some(rest) => spec_split_first(s@, sep).1 == Some(rest@),
            None => spec_split_first(s@, sep).1 is None,
        },
{
    let n = s.unicode_len();
    let i = find_sep(s, 0, sep);
    proof {
        lemma_sep_index_at(s@, sep, i as int);
    }
    if i == n {
        (s, None)
    } else {
        let before = s.substring_char(0, i);
        let after = s.substring_char(i + 1, n);
        proof {
            assert(before@ =~= s@.take(i as int));
            assert(after@ =~= s@.skip(i + 1));
        }
        (before, Some(after))
    }
}

/// Lexicographic order on character sequences by scalar value; with each
/// character's UTF-8 encoding this is the byte order `String` comparison
/// uses.
pub open spec fn lex_le(a: Seq<char>, b: Seq<char>) -> bool
    decreases a.len(),
{
    if a.len() == 0 {
        true
    } else if b.len() == 0 {
        false
    } else if a[0] != b[0] {
        (a[0] as u32) < (b[0] as u32)
    } else {
        lex_le(a.drop_first(), b.drop_first())
    }
}

/// A common prefix does not decide the order.
proof fn lemma_lex_le_skip(a: Seq<char>, b: Seq<char>, i: int)
    requires
        0 <= i <= a.len(),
        i <= b.len(),
        forall|j: int| 0 <= j < i ==> a[j] == b[j],
    ensures
        lex_le(a, b) == lex_le(a.skip(i), b.skip(i)),
    decreases i,
{
    if i > 0 {
        assert(a[0] == b[0]);
        lemma_lex_le_skip(a.drop_first(), b.drop_first(), i - 1);
        assert(a.drop_first().skip(i - 1) =~= a.skip(i));
        assert(b.drop_first().skip(i - 1) =~= b.skip(i));
    } else {
        assert(a.skip(0) =~= a);
        assert(b.skip(0) =~= b);
    }
}

/// Whether `a` precedes `b` (or equals it) in lexicographic order.
pub fn str_le(a: &str, b: &str) -> (r: bool)
    ensures
        r == lex_le(a@, b@),
{
    let na = a.unicode_len();
    let nb = b.unicode_len();
    let mut i: usize = 0;
    while i < na && i < nb
        invariant
            i <= na,
            i <= nb,
            na == a@.len(),
            nb == b@.len(),
            forall|j: int| 0 <= j < i ==> a@[j] == b@[j],
        decreases na - i,
    {
        let ca = a.get_char(i);
        let cb = b.get_char(i);
        if ca != cb {
            proof {
                lemma_lex_le_skip(a@, b@, i as int);
                assert(a@.skip(i as int)[0] == ca);
                assert(b@.skip(i as int)[0] == cb);
            }
            return (ca as u32) < (cb as u32);
        }
        i = i + 1;
    }
    proof {
        lemma_lex_le_skip(a@, b@, i as int);
        if i == na {
            assert(a@.skip(i as int).len() == 0);
        } else {
            assert(b@.skip(i as int).len() == 0);
            assert(a@.skip(i as int).len() > 0);
        }
    }
    na <= nb
}

/// Relies on `core::str::from_utf8`: it returns `Ok` exactly when the bytes
/// are valid UTF-8, and the returned `str` then views as their decoding,
/// stated with vstd's UTF-8 model.
#[verifier::external_body]
pub(crate) fn utf8_str(bytes: &[u8]) -> (r: Option<&str>)
    ensures
        r matches Some(s) ==> vstd::utf8::valid_utf8(bytes@) && s@ == vstd::utf8::decode_utf8(
            bytes@,
        ),
        r is None ==> !vstd::utf8::valid_utf8(bytes@),
{
    core::str::from_utf8(bytes).ok()
}

/// Character-for-character string equality.
pub fn str_eq(a: &str, b: &str) -> (r: bool)
    ensures
        r == (a@ == b@),
{
    let na = a.unicode_len();
    let nb = b.unicode_len();
    if na != nb {
        return false;
    }
    let mut i: usize = 0;
    while i < na
        invariant
            i <= na,
            na == a@.len(),
            na == b@.len(),
            forall|j: int| 0 <= j < i ==> a@[j] == b@[j],
        decreases na - i,
    {
        if a.get_char(i) != b.get_char(i) {
            return false;
        }
        i = i + 1;
    }
    proof {
        assert(a@ =~= b@);
    }
    true
}

} // verus!
