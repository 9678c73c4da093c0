//! Character-level text utilities with their specifications: whitespace
//! classification, trimming, splitting, decimal and hexadecimal numbers.
use vstd::prelude::*;

verus! {

// ---------------------------------------------------------------------------
// Trusted wrappers around std
// ---------------------------------------------------------------------------

/// What `str::to_lowercase` makes of the characters of a text that is not
/// all ASCII, from its first non-ASCII character on (the mapping may look at
/// the whole text, as a final sigma does).
pub uninterp spec fn unicode_lowercase_rest(s: Seq<char>) -> Seq<char>;

/// Whether every character is ASCII.
pub open spec fn is_ascii_text(s: Seq<char>) -> bool {
    forall|i: int| 0 <= i < s.len() ==> (#[trigger] s[i]) as u32 <= 127
}

/// The number of ASCII characters a text begins with.
pub open spec fn ascii_prefix_len(s: Seq<char>) -> nat
    decreases s.len(),
{
    if s.len() > 0 && (s[0] as u32) <= 127 {
        1 + ascii_prefix_len(s.drop_first())
    } else {
        0
    }
}

pub proof fn lemma_ascii_prefix_len(s: Seq<char>)
    ensures
        ascii_prefix_len(s) <= s.len(),
        s.len() > 0 && (s[0] as u32) <= 127 ==> ascii_prefix_len(s) >= 1,
    decreases s.len(),
{
    if s.len() > 0 && (s[0] as u32) <= 127 {
        lemma_ascii_prefix_len(s.drop_first());
    }
}

/// The ASCII lower-case form of a character: `A` to `Z` become `a` to `z`.
pub open spec fn ascii_lower_char(c: char) -> char {
    if 'A' <= c && c <= 'Z' {
        ((c as u32) + 32) as char
    } else {
        c
    }
}

/// The Unicode lower-case form of a text: each ASCII character it begins
/// with is lowered on its own (`A` to `Z` become `a` to `z`, every other
/// ASCII character stays); from the first other character on, the mapping
/// is left as the name `unicode_lowercase_rest`.
pub open spec fn lowercase(s: Seq<char>) -> Seq<char> {
    if is_ascii_text(s) {
        s.map_values(|c: char| ascii_lower_char(c))
    } else {
        s.take(ascii_prefix_len(s) as int).map_values(|c: char| ascii_lower_char(c))
            + unicode_lowercase_rest(s)
    }
}

/// Wraps `str::to_lowercase`: the Unicode lower-case form of `s`, taken
/// character by character. An ASCII character has one lower-case form
/// whatever surrounds it (`A`-`Z` to `a`-`z`, every other ASCII character as
/// it is), so the ASCII characters that `s` begins with are lowered on their
/// own; what the rest becomes is left as the name `unicode_lowercase_rest`.
#[verifier::external_body]
pub(crate) fn to_lower(s: &str) -> (r: String)
    ensures
        is_ascii_text(s@) ==> r@ == s@.map_values(|c: char| ascii_lower_char(c)),
        !is_ascii_text(s@) ==> r@ == s@.take(ascii_prefix_len(s@) as int).map_values(
            |c: char| ascii_lower_char(c),
        ) + unicode_lowercase_rest(s@),
{
    s.to_lowercase()
}

/// The text that `String::from_utf8_lossy` makes of bytes: invalid
/// sequences become U+FFFD.
pub uninterp spec fn utf8_lossy(b: Seq<u8>) -> Seq<char>;

/// Wraps `String::from_utf8_lossy`. Its documentation says that valid UTF-8
/// is decoded as it is; what it makes of invalid sequences is left as the
/// name `utf8_lossy`.
#[verifier::external_body]
pub(crate) fn from_utf8_lossy(b: &[u8]) -> (s: String)
    ensures
        s@ == utf8_lossy(b@),
        vstd::utf8::valid_utf8(b@) ==> s@ == vstd::utf8::decode_utf8(b@),
{
    String::from_utf8_lossy(b).into_owned()
}

/// Wraps `std::str::from_utf8`: the text when the bytes are valid UTF-8.
#[verifier::external_body]
pub(crate) fn from_utf8(b: &[u8]) -> (r: Option<String>)
    ensures
        r is Some <==> vstd::utf8::valid_utf8(b@),
        r matches Some(s) ==> s@ == vstd::utf8::decode_utf8(b@),
{
    std::str::from_utf8(b).ok().map(|s| s.to_string())
}

/// Wraps `String::push`: the character is appended at the end.
#[verifier::external_body]
pub(crate) fn push_char(s: &mut String, c: char)
    ensures
        final(s)@ == old(s)@.push(c),
{
    s.push(c)
}

// ---------------------------------------------------------------------------
// Conversions
// ---------------------------------------------------------------------------

/// The characters of a string slice.
pub fn chars_of(s: &str) -> (v: Vec<char>)
    ensures
        v@ == s@,
{
    let mut v: Vec<char> = Vec::new();
    for c in it: s.chars()
        invariant
            v@ == it.seq().take(it.index() as int),
    {
        v.push(c);
    }
    v
}

/// A string made of the given characters.
pub fn string_of(v: &[char]) -> (s: String)
    ensures
        s@ == v@,
{
    let mut s = String::new();
    let mut i: usize = 0;
    while i < v.len()
        invariant
            i <= v.len(),
            s@ == v@.take(i as int),
        decreases v.len() - i,
    {
        push_char(&mut s, v[i]);
        i = i + 1;
        assert(s@ == v@.take(i as int));
    }
    assert(v@.take(v@.len() as int) == v@);
    s
}

/// A string made of a sub-range of characters.
pub fn string_of_range(v: &[char], start: usize, end: usize) -> (s: String)
    requires
        start <= end <= v.len(),
    ensures
        s@ == v@.subrange(start as int, end as int),
{
    let mut s = String::new();
    let mut i: usize = start;
    while i < end
        invariant
            start <= i <= end <= v.len(),
            s@ == v@.subrange(start as int, i as int),
        decreases end - i,
    {
        push_char(&mut s, v[i]);
        i = i + 1;
        assert(s@ == v@.subrange(start as int, i as int));
    }
    s
}

/// Appends a string slice.
pub fn push_str(s: &mut String, t: &str)
    ensures
        final(s)@ == old(s)@ + t@,
{
    let cs = chars_of(t);
    let mut i: usize = 0;
    while i < cs.len()
        invariant
            i <= cs.len(),
            cs@ == t@,
            s@ == old(s)@ + t@.take(i as int),
        decreases cs.len() - i,
    {
        push_char(s, cs[i]);
        i = i + 1;
        assert(s@ == old(s)@ + t@.take(i as int));
    }
    assert(t@.take(t@.len() as int) == t@);
}

/// Whether two character sequences are equal.
pub fn chars_eq(a: &[char], b: &[char]) -> (r: bool)
    ensures
        r == (a@ == b@),
{
    if a.len() != b.len() {
        return false;
    }
    let mut i: usize = 0;
    while i < a.len()
        invariant
            i <= a.len() == b.len(),
            a@.take(i as int) == b@.take(i as int),
        decreases a.len() - i,
    {
        if a[i] != b[i] {
            assert(a@[i as int] != b@[i as int]);
            return false;
        }
        i = i + 1;
        assert(a@.take(i as int) == b@.take(i as int));
    }
    assert(a@ == a@.take(a@.len() as int));
    assert(b@ == b@.take(b@.len() as int));
    true
}

/// Whether a string equals the given characters.
pub fn str_eq(a: &str, b: &str) -> (r: bool)
    ensures
        r == (a@ == b@),
{
    let x = chars_of(a);
    let y = chars_of(b);
    chars_eq(x.as_slice(), y.as_slice())
}

// ---------------------------------------------------------------------------
// Whitespace and trimming
// ---------------------------------------------------------------------------

/// The Unicode `White_Space` property, as `char::is_whitespace` tests it.
pub open spec fn is_ws(c: char) -> bool {
    ||| ('\u{9}' <= c && c <= '\u{d}')
    ||| c == ' '
    ||| c == '\u{85}'
    ||| c == '\u{a0}'
    ||| c == '\u{1680}'
    ||| ('\u{2000}' <= c && c <= '\u{200a}')
    ||| c == '\u{2028}'
    ||| c == '\u{2029}'
    ||| c == '\u{202f}'
    ||| c == '\u{205f}'
    ||| c == '\u{3000}'
}

/// ASCII whitespace as `u8::is_ascii_whitespace` tests it.
pub open spec fn is_ascii_ws(c: char) -> bool {
    c == ' ' || c == '\t' || c == '\n' || c == '\u{c}' || c == '\r'
}

pub fn is_whitespace(c: char) -> (r: bool)
    ensures
        r == is_ws(c),
{
    ('\u{9}' <= c && c <= '\u{d}') || c == ' ' || c == '\u{85}' || c == '\u{a0}' || c
        == '\u{1680}' || ('\u{2000}' <= c && c <= '\u{200a}') || c == '\u{2028}' || c
        == '\u{2029}' || c == '\u{202f}' || c == '\u{205f}' || c == '\u{3000}'
}

pub fn is_ascii_whitespace(c: char) -> (r: bool)
    ensures
        r == is_ascii_ws(c),
{
    c == ' ' || c == '\t' || c == '\n' || c == '\u{c}' || c == '\r'
}

/// `s` without its leading whitespace.
pub open spec fn trim_start(s: Seq<char>) -> Seq<char>
    decreases s.len(),
{
    if s.len() > 0 && is_ws(s[0]) {
        trim_start(s.drop_first())
    } else {
        s
    }
}

/// `s` without its trailing whitespace.
pub open spec fn trim_end(s: Seq<char>) -> Seq<char>
    decreases s.len(),
{
    if s.len() > 0 && is_ws(s.last()) {
        trim_end(s.drop_last())
    } else {
        s
    }
}

/// `s` without leading and trailing whitespace, as `str::trim` returns it.
pub open spec fn trim(s: Seq<char>) -> Seq<char> {
    trim_end(trim_start(s))
}

proof fn lemma_trim_start_skip(s: Seq<char>, i: int)
    requires
        0 <= i <= s.len(),
        forall|j: int| 0 <= j < i ==> is_ws(#[trigger] s[j]),
    ensures
        trim_start(s) == trim_start(s.subrange(i, s.len() as int)),
    decreases i,
{
    if i > 0 {
        assert(is_ws(s[0]));
        assert(trim_start(s) == trim_start(s.drop_first()));
        assert(s.drop_first() == s.subrange(1, s.len() as int));
        assert forall|j: int| 0 <= j < i - 1 implies is_ws(#[trigger] s.drop_first()[j]) by {
            assert(s.drop_first()[j] == s[j + 1]);
        }
        lemma_trim_start_skip(s.drop_first(), i - 1);
        assert(s.drop_first().subrange(i - 1, s.drop_first().len() as int) == s.subrange(
            i,
            s.len() as int,
        ));
    } else {
        assert(s.subrange(0, s.len() as int) =~= s);
    }
}

proof fn lemma_trim_end_cut(s: Seq<char>, j: int)
    requires
        0 <= j <= s.len(),
        forall|k: int| j <= k < s.len() ==> is_ws(#[trigger] s[k]),
    ensures
        trim_end(s) == trim_end(s.subrange(0, j)),
    decreases s.len() - j,
{
    if j < s.len() {
        assert(s.drop_last() == s.subrange(0, s.len() - 1));
        lemma_trim_end_cut(s.drop_last(), j);
        assert(s.drop_last().subrange(0, j) == s.subrange(0, j));
    } else {
        assert(s.subrange(0, j) == s);
    }
}

/// Bounds `(a, b)` such that `trim(s) == s[a..b]`.
pub fn trim_bounds(v: &[char]) -> (r: (usize, usize))
    ensures
        r.0 <= r.1 <= v.len(),
        trim(v@) == v@.subrange(r.0 as int, r.1 as int),
{
    let mut a: usize = 0;
    while a < v.len() && is_whitespace(v[a])
        invariant
            a <= v.len(),
            forall|j: int| 0 <= j < a ==> is_ws(#[trigger] v@[j]),
        decreases v.len() - a,
    {
        a = a + 1;
    }
    let ghost rest = v@.subrange(a as int, v@.len() as int);
    proof {
        lemma_trim_start_skip(v@, a as int);
        if rest.len() > 0 {
            assert(rest[0] == v@[a as int]);
        }
        assert(trim_start(rest) == rest);
    }
    let mut b: usize = v.len();
    while b > a && is_whitespace(v[b - 1])
        invariant
            a <= b <= v.len(),
            forall|k: int| b <= k < v.len() ==> is_ws(#[trigger] v@[k]),
        decreases b - a,
    {
        b = b - 1;
    }
    proof {
        let rest2 = v@.subrange(a as int, v@.len() as int);
        assert forall|k: int| (b - a) <= k < rest2.len() implies is_ws(#[trigger] rest2[k]) by {
            assert(rest2[k] == v@[a + k]);
        }
        lemma_trim_end_cut(rest2, (b - a) as int);
        let cut = rest2.subrange(0, (b - a) as int);
        assert(cut == v@.subrange(a as int, b as int));
        if cut.len() > 0 {
            assert(cut.last() == v@[b - 1]);
        }
        assert(trim_end(cut) == cut);
    }
    (a, b)
}

/// `str::trim`, returning an owned string.
pub fn trim_chars(v: &[char]) -> (s: String)
    ensures
        s@ == trim(v@),
{
    let (a, b) = trim_bounds(v);
    string_of_range(v, a, b)
}

pub fn trim_str(s: &str) -> (r: String)
    ensures
        r@ == trim(s@),
{
    let v = chars_of(s);
    trim_chars(v.as_slice())
}

// ---------------------------------------------------------------------------
// Splitting
// ---------------------------------------------------------------------------

/// The pieces of `s` between occurrences of `sep`, as `str::split(sep)`
/// yields them: one more piece than there are separators.
pub open spec fn split(s: Seq<char>, sep: char) -> Seq<Seq<char>>
    decreases s.len(),
{
    if s.len() == 0 {
        seq![Seq::<char>::empty()]
    } else {
        let prev = split(s.drop_last(), sep);
        if s.last() == sep {
            prev.push(Seq::<char>::empty())
        } else {
            prev.update(prev.len() - 1, prev.last().push(s.last()))
        }
    }
}

pub proof fn lemma_split_nonempty(s: Seq<char>, sep: char)
    ensures
        split(s, sep).len() >= 1,
    decreases s.len(),
{
    if s.len() > 0 {
        lemma_split_nonempty(s.drop_last(), sep);
    }
}

/// Splits at every occurrence of `sep`.
pub fn split_chars(v: &[char], sep: char) -> (r: Vec<String>)
    ensures
        r@.map_values(|x: String| x@) == split(v@, sep),
{
    let mut out: Vec<String> = Vec::new();
    let mut start: usize = 0;
    let mut i: usize = 0;
    assert(v@.take(0) =~= Seq::<char>::empty());
    assert(v@.subrange(0, 0) =~= Seq::<char>::empty());
    assert(out@.map_values(|x: String| x@) =~= Seq::<Seq<char>>::empty());
    while i < v.len()
        invariant
            start <= i <= v.len(),
            out@.map_values(|x: String| x@).push(v@.subrange(start as int, i as int)) == split(
                v@.take(i as int),
                sep,
            ),
        decreases v.len() - i,
    {
        let ghost prev_take = v@.take(i as int);
        assert(v@.take(i + 1).drop_last() == prev_take);
        if v[i] == sep {
            let piece = string_of_range(v, start, i);
            let ghost old_out = out@.map_values(|x: String| x@);
            out.push(piece);
            assert(out@.map_values(|x: String| x@) =~= old_out.push(piece@));
            start = i + 1;
            i = i + 1;
            assert(out@.map_values(|x: String| x@) == split(prev_take, sep));
            assert(v@.take(i as int).last() == sep);
            assert(split(v@.take(i as int), sep) == split(prev_take, sep).push(Seq::<char>::empty()));
            assert(v@.subrange(start as int, i as int) =~= Seq::<char>::empty());
            assert(out@.map_values(|x: String| x@).push(v@.subrange(start as int, i as int))
                == split(v@.take(i as int), sep));
        } else {
            i = i + 1;
            assert(v@.subrange(start as int, i as int) == v@.subrange(
                start as int,
                i - 1,
            ).push(v@[i - 1]));
        }
    }
    let last = string_of_range(v, start, i);
    out.push(last);
    assert(v@.take(v@.len() as int) == v@);
    out
}

/// The position of the first `sep` in `s`, if any.
pub open spec fn find_char(s: Seq<char>, sep: char) -> Option<int>
    decreases s.len(),
{
    if s.len() == 0 {
        None
    } else if s[0] == sep {
        Some(0)
    } else {
        match find_char(s.drop_first(), sep) {
            Some(i) => Some(i + 1),
            None => None,
        }
    }
}

pub proof fn lemma_find_char(s: Seq<char>, sep: char)
    ensures
        find_char(s, sep) matches Some(i) ==> 0 <= i < s.len() && s[i] == sep && forall|j: int|
            0 <= j < i ==> s[j] != sep,
        find_char(s, sep) is None ==> forall|j: int| 0 <= j < s.len() ==> s[j] != sep,
    decreases s.len(),
{
    if s.len() > 0 {
        lemma_find_char(s.drop_first(), sep);
        if s[0] != sep {
            assert forall|j: int| 1 <= j < s.len() implies s[j] == s.drop_first()[j - 1] by {}
        }
    }
}

pub fn find(v: &[char], sep: char) -> (r: Option<usize>)
    ensures
        r matches Some(i) ==> find_char(v@, sep) == Some(i as int),
        r is None ==> find_char(v@, sep) is None,
{
    let mut i: usize = 0;
    while i < v.len()
        invariant
            i <= v.len(),
            forall|j: int| 0 <= j < i ==> v@[j] != sep,
        decreases v.len() - i,
    {
        if v[i] == sep {
            proof {
                lemma_find_char(v@, sep);
                if let Some(k) = find_char(v@, sep) {
                    assert(k == i);
                } else {
                    assert(v@[i as int] == sep);
                }
            }
            return Some(i);
        }
        i = i + 1;
    }
    proof {
        lemma_find_char(v@, sep);
        if let Some(k) = find_char(v@, sep) {
            assert(v@[k] == sep);
        }
    }
    None
}

/// `str::split_once(sep)`: the text before and after the first `sep`.
pub open spec fn split_once(s: Seq<char>, sep: char) -> Option<(Seq<char>, Seq<char>)> {
    match find_char(s, sep) {
        Some(i) => Some((s.take(i), s.skip(i + 1))),
        None => None,
    }
}

pub fn split_once_chars(v: &[char], sep: char) -> (r: Option<(String, String)>)
    ensures
        r matches Some(p) ==> split_once(v@, sep) == Some((p.0@, p.1@)),
        r is None ==> split_once(v@, sep) is None,
{
    match find(v, sep) {
        Some(i) => {
            proof {
                lemma_find_char(v@, sep);
                assert(find_char(v@, sep) == Some(i as int));
            }
            assert(i < v.len());
            let a = string_of_range(v, 0, i);
            let b = string_of_range(v, i + 1, v.len());
            Some((a, b))
        },
        None => None,
    }
}

/// The words of `s` separated by ASCII whitespace, as
/// `str::split_ascii_whitespace` yields them.
pub open spec fn words(s: Seq<char>) -> Seq<Seq<char>>
    decreases s.len(),
{
    if s.len() == 0 {
        Seq::<Seq<char>>::empty()
    } else {
        let prev = words(s.drop_last());
        let c = s.last();
        if is_ascii_ws(c) {
            prev
        } else if s.len() >= 2 && !is_ascii_ws(s[s.len() - 2]) {
            prev.update(prev.len() - 1, prev.last().push(c))
        } else {
            prev.push(seq![c])
        }
    }
}

proof fn lemma_words_nonempty(s: Seq<char>)
    requires
        s.len() >= 1,
        !is_ascii_ws(s.last()),
    ensures
        words(s).len() >= 1,
    decreases s.len(),
{
    if s.len() >= 2 && !is_ascii_ws(s[s.len() - 2]) {
        lemma_words_nonempty(s.drop_last());
    }
}

/// Splits at runs of ASCII whitespace, dropping empty words.
pub fn words_of(v: &[char]) -> (r: Vec<String>)
    ensures
        r@.map_values(|x: String| x@) == words(v@),
{
    let mut out: Vec<String> = Vec::new();
    let mut i: usize = 0;
    let mut start: usize = 0;
    let mut in_word = false;
    while i < v.len()
        invariant
            start <= i <= v.len(),
            in_word ==> start < i,
            in_word ==> forall|k: int| start <= k < i ==> !is_ascii_ws(#[trigger] v@[k]),
            in_word ==> (start == 0 || is_ascii_ws(v@[start - 1])),
            !in_word ==> (i == 0 || is_ascii_ws(v@[i - 1])),
            !in_word ==> out@.map_values(|x: String| x@) == words(v@.take(i as int)),
            in_word ==> out@.map_values(|x: String| x@).push(v@.subrange(start as int, i as int))
                == words(v@.take(i as int)),
        decreases v.len() - i,
    {
        let ghost t = v@.take(i + 1);
        assert(t.drop_last() == v@.take(i as int));
        assert(t.last() == v@[i as int]);
        if is_ascii_whitespace(v[i]) {
            if in_word {
                let w = string_of_range(v, start, i);
                out.push(w);
                in_word = false;
            }
            i = i + 1;
        } else {
            if in_word {
                assert(t[t.len() - 2] == v@[i - 1]);
                proof {
                    lemma_words_nonempty(v@.take(i as int));
                }
                assert(v@.subrange(start as int, i + 1) == v@.subrange(start as int, i as int).push(
                    v@[i as int],
                ));
            } else {
                start = i;
                in_word = true;
                if i >= 1 {
                    assert(t[t.len() - 2] == v@[i - 1]);
                }
                assert(v@.subrange(start as int, i + 1) == seq![v@[i as int]]);
            }
            i = i + 1;
        }
    }
    if in_word {
        let w = string_of_range(v, start, i);
        out.push(w);
    }
    assert(v@.take(v@.len() as int) == v@);
    out
}


/// Whether a text has no whitespace at either end.
pub open spec fn is_trimmed(s: Seq<char>) -> bool {
    s.len() > 0 ==> !is_ws(s[0]) && !is_ws(s.last())
}

/// A text with no whitespace at either end is its own trim.
pub proof fn lemma_trim_trimmed(s: Seq<char>)
    requires
        is_trimmed(s),
    ensures
        trim(s) == s,
{
}

/// Leading whitespace is dropped by `trim`.
pub proof fn lemma_trim_after_ws(w: char, s: Seq<char>)
    requires
        is_ws(w),
        is_trimmed(s),
    ensures
        trim(seq![w] + s) == s,
{
    let t = seq![w] + s;
    assert(t.drop_first() =~= s);
    assert(trim_start(t) == trim_start(s));
}

/// A text without the separator is one piece.
pub proof fn lemma_split_none(s: Seq<char>, sep: char)
    requires
        !s.contains(sep),
    ensures
        split(s, sep) == seq![s],
    decreases s.len(),
{
    if s.len() == 0 {
        assert(s =~= Seq::<char>::empty());
    } else {
        assert(!s.drop_last().contains(sep)) by {
            if s.drop_last().contains(sep) {
                let i = choose|i: int| 0 <= i < s.drop_last().len() && s.drop_last()[i] == sep;
                assert(s[i] == sep);
            }
        }
        lemma_split_none(s.drop_last(), sep);
        assert(s.last() != sep) by {
            assert(s[s.len() - 1] == s.last());
        }
        assert(seq![s.drop_last()].last().push(s.last()) =~= s);
        assert(seq![s.drop_last()].update(0, s) =~= seq![s]);
    }
}

/// Splitting at a separator between two texts splits each of them.
pub proof fn lemma_split_join(a: Seq<char>, b: Seq<char>, sep: char)
    ensures
        split(a + seq![sep] + b, sep) == split(a, sep) + split(b, sep),
    decreases b.len(),
{
    let ab = a + seq![sep] + b;
    lemma_split_nonempty(a, sep);
    if b.len() == 0 {
        assert(ab.drop_last() =~= a);
        assert(split(a, sep) + split(b, sep) =~= split(a, sep).push(Seq::<char>::empty()));
    } else {
        lemma_split_join(a, b.drop_last(), sep);
        lemma_split_nonempty(b.drop_last(), sep);
        assert(ab.drop_last() =~= a + seq![sep] + b.drop_last());
        assert(ab.last() == b.last());
        let x = split(a, sep);
        let y = split(b.drop_last(), sep);
        if b.last() == sep {
            assert((x + y).push(Seq::<char>::empty()) =~= x + y.push(Seq::<char>::empty()));
        } else {
            assert((x + y).update((x + y).len() - 1, (x + y).last().push(b.last())) =~= x + y.update(
                y.len() - 1,
                y.last().push(b.last()),
            ));
        }
    }
}

/// The trimmed pieces of `s` between occurrences of `sep`.
pub open spec fn trimmed_split(s: Seq<char>, sep: char) -> Seq<Seq<char>> {
    split(s, sep).map_values(|p: Seq<char>| trim(p))
}

/// Splits and trims the pieces.
pub fn trimmed_pieces(v: &[char], sep: char) -> (r: Vec<String>)
    ensures
        r@.map_values(|x: String| x@) == trimmed_split(v@, sep),
{
    let pieces = split_chars(v, sep);
    let mut out: Vec<String> = Vec::new();
    let mut i: usize = 0;
    while i < pieces.len()
        invariant
            i <= pieces.len(),
            pieces@.map_values(|x: String| x@) == split(v@, sep),
            out@.map_values(|x: String| x@) == split(v@, sep).take(i as int).map_values(
                |p: Seq<char>| trim(p),
            ),
        decreases pieces.len() - i,
    {
        let t = trim_str(pieces[i].as_str());
        let ghost before = out@.map_values(|x: String| x@);
        out.push(t);
        assert(pieces@.map_values(|x: String| x@)[i as int] == pieces@[i as int]@);
        assert(out@.map_values(|x: String| x@) =~= before.push(t@));
        i = i + 1;
        assert(out@.map_values(|x: String| x@) =~= split(v@, sep).take(i as int).map_values(
            |p: Seq<char>| trim(p),
        ));
    }
    assert(split(v@, sep).take(pieces.len() as int) =~= split(v@, sep));
    out
}

/// At most `n` pieces of `s` separated by whitespace, as
/// `str::splitn(n, char::is_whitespace)` yields them: the last piece holds the
/// rest of the text.
pub open spec fn splitn_ws(s: Seq<char>, n: nat) -> Seq<Seq<char>>
    decreases s.len(),
{
    if s.len() == 0 {
        seq![Seq::<char>::empty()]
    } else {
        let prev = splitn_ws(s.drop_last(), n);
        if is_ws(s.last()) && prev.len() < n {
            prev.push(Seq::<char>::empty())
        } else {
            prev.update(prev.len() - 1, prev.last().push(s.last()))
        }
    }
}

pub proof fn lemma_splitn_nonempty(s: Seq<char>, n: nat)
    ensures
        splitn_ws(s, n).len() >= 1,
    decreases s.len(),
{
    if s.len() > 0 {
        lemma_splitn_nonempty(s.drop_last(), n);
    }
}

/// Splits at whitespace into at most `n` pieces (`n` at least 1).
pub fn splitn_whitespace(v: &[char], n: usize) -> (r: Vec<String>)
    requires
        n >= 1,
    ensures
        r@.map_values(|x: String| x@) == splitn_ws(v@, n as nat),
{
    let mut out: Vec<String> = Vec::new();
    let mut start: usize = 0;
    let mut i: usize = 0;
    assert(v@.take(0) =~= Seq::<char>::empty());
    assert(v@.subrange(0, 0) =~= Seq::<char>::empty());
    assert(out@.map_values(|x: String| x@) =~= Seq::<Seq<char>>::empty());
    while i < v.len()
        invariant
            start <= i <= v.len(),
            n >= 1,
            out@.len() < n,
            out@.map_values(|x: String| x@).push(v@.subrange(start as int, i as int)) == splitn_ws(
                v@.take(i as int),
                n as nat,
            ),
        decreases v.len() - i,
    {
        let ghost prev_take = v@.take(i as int);
        assert(v@.take(i + 1).drop_last() == prev_take);
        assert(v@.take(i + 1).last() == v@[i as int]);
        if is_whitespace(v[i]) && out.len() + 1 < n {
            let piece = string_of_range(v, start, i);
            let ghost old_out = out@.map_values(|x: String| x@);
            out.push(piece);
            assert(out@.map_values(|x: String| x@) =~= old_out.push(piece@));
            start = i + 1;
            i = i + 1;
            assert(v@.subrange(start as int, i as int) =~= Seq::<char>::empty());
        } else {
            i = i + 1;
            assert(v@.subrange(start as int, i as int) == v@.subrange(
                start as int,
                i - 1,
            ).push(v@[i - 1]));
        }
    }
    let last = string_of_range(v, start, i);
    let ghost old_out = out@.map_values(|x: String| x@);
    out.push(last);
    assert(out@.map_values(|x: String| x@) =~= old_out.push(last@));
    assert(v@.take(v@.len() as int) == v@);
    out
}

// ---------------------------------------------------------------------------
// Numbers
// ---------------------------------------------------------------------------

pub open spec fn is_digit(c: char) -> bool {
    '0' <= c && c <= '9'
}

pub open spec fn digit_value(c: char) -> nat {
    (c as int - '0' as int) as nat
}

pub open spec fn is_hex_digit(c: char) -> bool {
    ('0' <= c && c <= '9') || ('a' <= c && c <= 'f') || ('A' <= c && c <= 'F')
}

pub open spec fn hex_digit_value(c: char) -> nat {
    if '0' <= c && c <= '9' {
        (c as int - '0' as int) as nat
    } else if 'a' <= c && c <= 'f' {
        (c as int - 'a' as int + 10) as nat
    } else {
        (c as int - 'A' as int + 10) as nat
    }
}

/// Whether every character is a digit in the given base (10 or 16).
pub open spec fn all_digits(s: Seq<char>, radix: nat) -> bool {
    forall|i: int|
        0 <= i < s.len() ==> (if radix == 16 {
            is_hex_digit(#[trigger] s[i])
        } else {
            is_digit(s[i])
        })
}

pub open spec fn value_of_digit(c: char, radix: nat) -> nat {
    if radix == 16 {
        hex_digit_value(c)
    } else {
        digit_value(c)
    }
}

/// The number that a string of digits denotes in the given base.
pub open spec fn digits_value(s: Seq<char>, radix: nat) -> nat
    decreases s.len(),
{
    if s.len() == 0 {
        0
    } else {
        digits_value(s.drop_last(), radix) * radix + value_of_digit(s.last(), radix)
    }
}

/// What `u64::from_str_radix` (and `str::parse` for base 10) computes on an
/// unsigned type: an optional `+` followed by at least one digit; `None` for
/// anything else. Bounds are applied by the callers.
pub open spec fn parse_nat(s: Seq<char>, radix: nat) -> Option<nat> {
    let d = if s.len() > 0 && s[0] == '+' {
        s.drop_first()
    } else {
        s
    };
    if d.len() > 0 && all_digits(d, radix) {
        Some(digits_value(d, radix))
    } else {
        None
    }
}

/// The parse result restricted to values up to `max`, as a fixed-width
/// unsigned parse returns it (an overflow is an error).
pub open spec fn parse_bounded(s: Seq<char>, radix: nat, max: nat) -> Option<nat> {
    match parse_nat(s, radix) {
        Some(v) => if v <= max {
            Some(v)
        } else {
            None
        },
        None => None,
    }
}

proof fn lemma_digits_value_mono(s: Seq<char>, radix: nat, i: int)
    requires
        0 <= i <= s.len(),
        radix >= 1,
    ensures
        digits_value(s.take(i), radix) <= digits_value(s, radix),
    decreases s.len() - i,
{
    if i < s.len() {
        assert(s.drop_last().take(i) == s.take(i));
        lemma_digits_value_mono(s.drop_last(), radix, i);
        let p = digits_value(s.drop_last(), radix);
        assert(p <= p * radix) by (nonlinear_arith)
            requires
                radix >= 1,
        ;
    } else {
        assert(s.take(i) == s);
    }
}


fn digit_of(c: char, radix: u64) -> (r: u64)
    requires
        radix == 10 || radix == 16,
        (if radix == 16 {
            is_hex_digit(c)
        } else {
            is_digit(c)
        }),
    ensures
        r == value_of_digit(c, radix as nat),
        r < radix,
{
    if radix == 16 {
        if '0' <= c && c <= '9' {
            (c as u64) - ('0' as u64)
        } else if 'a' <= c && c <= 'f' {
            (c as u64) - ('a' as u64) + 10
        } else {
            (c as u64) - ('A' as u64) + 10
        }
    } else {
        (c as u64) - ('0' as u64)
    }
}

fn is_digit_in(c: char, radix: u64) -> (r: bool)
    requires
        radix == 10 || radix == 16,
    ensures
        r == (if radix == 16 {
            is_hex_digit(c)
        } else {
            is_digit(c)
        }),
{
    if radix == 16 {
        ('0' <= c && c <= '9') || ('a' <= c && c <= 'f') || ('A' <= c && c <= 'F')
    } else {
        '0' <= c && c <= '9'
    }
}

/// Parses an unsigned number in base 10 or 16 that must not exceed `max`.
pub fn parse_unsigned(v: &[char], radix: u64, max: u64) -> (r: Option<u64>)
    requires
        radix == 10 || radix == 16,
    ensures
        r matches Some(x) ==> parse_bounded(v@, radix as nat, max as nat) == Some(x as nat),
        r is None ==> parse_bounded(v@, radix as nat, max as nat) is None,
{
    let ghost rd = radix as nat;
    let start: usize = if v.len() > 0 && v[0] == '+' {
        1
    } else {
        0
    };
    let ghost d = if v@.len() > 0 && v@[0] == '+' {
        v@.drop_first()
    } else {
        v@
    };
    assert(d == v@.subrange(start as int, v@.len() as int));
    assert(parse_nat(v@, rd) == (if d.len() > 0 && all_digits(d, rd) {
        Some(digits_value(d, rd))
    } else {
        None
    }));
    if start >= v.len() {
        return None;
    }
    let mut acc: u64 = 0;
    let mut i: usize = start;
    while i < v.len()
        invariant
            start <= i <= v.len(),
            d == v@.subrange(start as int, v@.len() as int),
            radix == 10 || radix == 16,
            rd == radix as nat,
            acc as nat == digits_value(d.take(i - start), rd),
            acc <= max,
            all_digits(d.take(i - start), rd),
            parse_nat(v@, rd) == (if d.len() > 0 && all_digits(d, rd) {
                Some(digits_value(d, rd))
            } else {
                None
            }),
        decreases v.len() - i,
    {
        let c = v[i];
        let ghost k = i - start;
        assert(d[k] == c);
        if !is_digit_in(c, radix) {
            assert(!all_digits(d, rd)) by {
                assert(d[k] == c);
            }
            return None;
        }
        let dv = digit_of(c, radix);
        assert(d.take(k + 1).drop_last() == d.take(k));
        assert(d.take(k + 1).last() == c);
        let ghost next = digits_value(d.take(k + 1), rd);
        assert(next == acc * rd + dv);
        if dv > max {
            proof {
                lemma_digits_value_mono(d, rd, k + 1);
            }
            return None;
        }
        let q = (max - dv) / radix;
        if acc > q {
            proof {
                assert(acc * radix + dv > max) by (nonlinear_arith)
                    requires
                        acc > q,
                        q == (max - dv) as int / (radix as int),
                        radix > 0,
                        dv <= max,
                ;
                lemma_digits_value_mono(d, rd, k + 1);
            }
            return None;
        }
        proof {
            assert(acc * radix + dv <= max) by (nonlinear_arith)
                requires
                    acc <= q,
                    q == (max - dv) as int / (radix as int),
                    radix > 0,
                    dv <= max,
            ;
        }
        acc = acc * radix + dv;
        i = i + 1;
        assert forall|j: int| 0 <= j < d.take(i - start).len() implies (if rd == 16 {
            is_hex_digit(#[trigger] d.take(i - start)[j])
        } else {
            is_digit(d.take(i - start)[j])
        }) by {
            if j < k {
                assert(d.take(i - start)[j] == d.take(k)[j]);
            }
        }
    }
    assert(d.take(i - start) == d);
    Some(acc)
}

/// The decimal representation of `n`, as `Display` writes integers.
pub open spec fn decimal(n: nat) -> Seq<char>
    decreases n,
{
    if n < 10 {
        seq![digit_char(n)]
    } else {
        decimal(n / 10).push(digit_char(n % 10))
    }
}


/// The decimal form of a number is a non-empty run of digits that denotes it.
pub proof fn lemma_decimal(n: nat)
    ensures
        decimal(n).len() > 0,
        forall|i: int| 0 <= i < decimal(n).len() ==> is_digit(#[trigger] decimal(n)[i]),
        digits_value(decimal(n), 10) == n,
    decreases n,
{
    if n >= 10 {
        lemma_decimal(n / 10);
        let d = decimal(n / 10);
        assert(decimal(n).drop_last() =~= d);
        assert(decimal(n).last() == digit_char(n % 10));
        assert forall|i: int| 0 <= i < decimal(n).len() implies is_digit(#[trigger] decimal(n)[i]) by {
            if i < d.len() {
                assert(decimal(n)[i] == d[i]);
            }
        }
        assert(digit_value(digit_char(n % 10)) == n % 10);
        assert(decimal(n).drop_last().len() == d.len());
        assert(digits_value(decimal(n), 10) == digits_value(d, 10) * 10 + value_of_digit(
            decimal(n).last(),
            10,
        ));
        assert(n == (n / 10) * 10 + n % 10);
        assert(digits_value(d, 10) == n / 10);
        assert(digits_value(decimal(n), 10) == (n / 10) * 10 + n % 10);
    } else {
        assert(digit_value(digit_char(n)) == n);
        assert(decimal(n).drop_last() =~= Seq::<char>::empty());
        assert(decimal(n).last() == digit_char(n));
        assert(digits_value(Seq::<char>::empty(), 10) == 0);
        assert(digits_value(decimal(n), 10) == 0 * 10 + value_of_digit(digit_char(n), 10));
    }
}

/// Parsing the decimal form of a number gives the number back.
pub proof fn lemma_parse_decimal(n: nat, max: nat)
    requires
        n <= max,
    ensures
        parse_bounded(decimal(n), 10, max) == Some(n),
{
    lemma_decimal(n);
    assert(is_digit(decimal(n)[0]));
}

/// The lower-case hexadecimal representation of `n`, as `{:x}` writes it.
pub open spec fn hex_lower(n: nat) -> Seq<char>
    decreases n,
{
    if n < 16 {
        seq![digit_char(n)]
    } else {
        hex_lower(n / 16).push(digit_char(n % 16))
    }
}

pub open spec fn digit_char(d: nat) -> char {
    if d < 10 {
        (('0' as nat) + d) as char
    } else {
        (('a' as nat) + d - 10) as char
    }
}

fn digit_char_exec(d: u64) -> (c: char)
    requires
        d < 16,
    ensures
        c == digit_char(d as nat),
{
    let cs = ['0', '1', '2', '3', '4', '5', '6', '7', '8', '9', 'a', 'b', 'c', 'd', 'e', 'f'];
    let c = cs[d as usize];
    proof {
        assert(c == cs@[d as int]);
    }
    c
}

/// Appends the digits of `n` in base 10 or 16.
pub fn push_number(s: &mut String, n: u64, radix: u64)
    requires
        radix == 10 || radix == 16,
    ensures
        radix == 10 ==> final(s)@ == old(s)@ + decimal(n as nat),
        radix == 16 ==> final(s)@ == old(s)@ + hex_lower(n as nat),
    decreases n,
{
    if n < radix {
        push_char(s, digit_char_exec(n));
        assert(final(s)@ == old(s)@ + seq![digit_char(n as nat)]);
    } else {
        push_number(s, n / radix, radix);
        push_char(s, digit_char_exec(n % radix));
        if radix == 10 {
            assert(decimal(n as nat) == decimal((n / 10) as nat).push(digit_char((n % 10) as nat)));
        } else {
            assert(hex_lower(n as nat) == hex_lower((n / 16) as nat).push(
                digit_char((n % 16) as nat),
            ));
        }
    }
}

/// The decimal form of an unsigned number.
pub fn decimal_string(n: u64) -> (s: String)
    ensures
        s@ == decimal(n as nat),
{
    let mut s = String::new();
    push_number(&mut s, n, 10);
    s
}

} // verus!

verus! {

/// Text arguments: string slices and owned strings.
pub trait Text {
    spec fn text(&self) -> Seq<char>;

    fn to_text(&self) -> (s: String)
        ensures
            s@ == self.text(),
    ;
}

impl<'a> Text for &'a str {
    open spec fn text(&self) -> Seq<char> {
        (*self)@
    }

    fn to_text(&self) -> (s: String) {
        (*self).to_string()
    }
}

impl Text for String {
    open spec fn text(&self) -> Seq<char> {
        self@
    }

    fn to_text(&self) -> (s: String) {
        self.clone()
    }
}

impl<'a> Text for &'a String {
    open spec fn text(&self) -> Seq<char> {
        (*self)@
    }

    fn to_text(&self) -> (s: String) {
        (*self).clone()
    }
}

} // verus!
