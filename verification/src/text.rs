//! Character-level text operations: conversions between `str`/`String` and
//! `Vec<char>`, trimming, splitting, comparison and number rendering.
use vstd::prelude::*;
use vstd::string::*;

verus! {

// ---------------------------------------------------------------------------
// Conversions
// ---------------------------------------------------------------------------

/// The characters of `s`, in order.
pub fn chars_of(s: &str) -> (v: Vec<char>)
    ensures
        v@ == s@,
{
    let mut v: Vec<char> = Vec::new();
    for c in it: s.chars()
        invariant
            v@ == it.seq().take(it.index() as int),
    {
        v.push(c);
    }
    v
}

/// Appends one character to a `String` (`String::push`); the view gains
/// exactly that character at its end.
#[verifier::external_body]
fn push_char(s: &mut String, c: char)
    ensures
        final(s)@ == old(s)@.push(c),
{
    s.push(c);
}

/// A `String` holding the characters `v[from..to]`.
pub fn string_of_range(v: &[char], from: usize, to: usize) -> (s: String)
    requires
        from <= to <= v@.len(),
    ensures
        s@ == v@.subrange(from as int, to as int),
{
    let mut s = String::new();
    let mut i = from;
    while i < to
        invariant
            from <= i <= to <= v@.len(),
            s@ == v@.subrange(from as int, i as int),
        decreases to - i,
    {
        push_char(&mut s, v[i]);
        assert(v@.subrange(from as int, i + 1) =~= v@.subrange(from as int, i as int).push(v@[i as int]));
        i = i + 1;
    }
    s
}

/// A `String` holding the characters of `v`.
pub fn string_of(v: &[char]) -> (s: String)
    ensures
        s@ == v@,
{
    let s = string_of_range(v, 0, v.len());
    assert(v@.subrange(0, v@.len() as int) =~= v@);
    s
}

/// `a` followed by `b`.
pub fn join2(a: &str, b: &str) -> (s: String)
    ensures
        s@ == a@ + b@,
{
    let s = String::from_str(a);
    s.concat(b)
}

/// Whether two character slices are equal.
pub fn chars_eq(a: &[char], b: &[char]) -> (r: bool)
    ensures
        r == (a@ == b@),
{
    if a.len() != b.len() {
        return false;
    }
    let mut i: usize = 0;
    while i < a.len()
        invariant
            a@.len() == b@.len(),
            i <= a@.len(),
            forall|j: int| 0 <= j < i ==> a@[j] == b@[j],
        decreases a.len() - i,
    {
        if a[i] != b[i] {
            return false;
        }
        i = i + 1;
    }
    assert(a@ =~= b@);
    true
}

/// Whether two string slices hold the same characters.
pub fn text_eq(a: &str, b: &str) -> (r: bool)
    ensures
        r == (a@ == b@),
{
    let va = chars_of(a);
    let vb = chars_of(b);
    chars_eq(va.as_slice(), vb.as_slice())
}

// ---------------------------------------------------------------------------
// Character classes
// ---------------------------------------------------------------------------

/// The Unicode `White_Space` property, which `char::is_whitespace` follows.
pub open spec fn is_space(c: char) -> bool {
    let v = c as u32;
    ||| 0x09 <= v <= 0x0d
    ||| v == 0x20
    ||| v == 0x85
    ||| v == 0xa0
    ||| v == 0x1680
    ||| 0x2000 <= v <= 0x200a
    ||| v == 0x2028
    ||| v == 0x2029
    ||| v == 0x202f
    ||| v == 0x205f
    ||| v == 0x3000
}

pub fn is_space_char(c: char) -> (r: bool)
    ensures
        r == is_space(c),
{
    let v = c as u32;
    (0x09 <= v && v <= 0x0d) || v == 0x20 || v == 0x85 || v == 0xa0 || v == 0x1680 || (0x2000
        <= v && v <= 0x200a) || v == 0x2028 || v == 0x2029 || v == 0x202f || v == 0x205f || v
        == 0x3000
}

/// ASCII lowercase of one character; every other character is unchanged.
pub open spec fn ascii_lower(c: char) -> char {
    if 'A' <= c <= 'Z' {
        ((c as u32) + 32) as char
    } else {
        c
    }
}

pub fn ascii_lower_char(c: char) -> (r: char)
    ensures
        r == ascii_lower(c),
{
    if 'A' <= c && c <= 'Z' {
        let v = (c as u32) + 32;
        // 'a'..='z'
        char_from_ascii(v)
    } else {
        c
    }
}

fn char_from_ascii(v: u32) -> (c: char)
    requires
        0x61 <= v <= 0x7a,
    ensures
        c == v as char,
{
    if v == 0x61 { 'a' }
    else if v == 0x62 { 'b' }
    else if v == 0x63 { 'c' }
    else if v == 0x64 { 'd' }
    else if v == 0x65 { 'e' }
    else if v == 0x66 { 'f' }
    else if v == 0x67 { 'g' }
    else if v == 0x68 { 'h' }
    else if v == 0x69 { 'i' }
    else if v == 0x6a { 'j' }
    else if v == 0x6b { 'k' }
    else if v == 0x6c { 'l' }
    else if v == 0x6d { 'm' }
    else if v == 0x6e { 'n' }
    else if v == 0x6f { 'o' }
    else if v == 0x70 { 'p' }
    else if v == 0x71 { 'q' }
    else if v == 0x72 { 'r' }
    else if v == 0x73 { 's' }
    else if v == 0x74 { 't' }
    else if v == 0x75 { 'u' }
    else if v == 0x76 { 'v' }
    else if v == 0x77 { 'w' }
    else if v == 0x78 { 'x' }
    else if v == 0x79 { 'y' }
    else { 'z' }
}

/// ASCII lowercase of a whole sequence.
pub open spec fn ascii_lower_seq(s: Seq<char>) -> Seq<char> {
    s.map_values(|c: char| ascii_lower(c))
}

/// ASCII case-insensitive equality (`str::eq_ignore_ascii_case`).
pub open spec fn eq_ignore_case(a: Seq<char>, b: Seq<char>) -> bool {
    ascii_lower_seq(a) == ascii_lower_seq(b)
}

pub fn chars_eq_ignore_case(a: &[char], b: &[char]) -> (r: bool)
    ensures
        r == eq_ignore_case(a@, b@),
{
    if a.len() != b.len() {
        assert(ascii_lower_seq(a@).len() != ascii_lower_seq(b@).len());
        return false;
    }
    let mut i: usize = 0;
    while i < a.len()
        invariant
            a@.len() == b@.len(),
            i <= a@.len(),
            forall|j: int| 0 <= j < i ==> ascii_lower(a@[j]) == ascii_lower(b@[j]),
        decreases a.len() - i,
    {
        if ascii_lower_char(a[i]) != ascii_lower_char(b[i]) {
            assert(ascii_lower_seq(a@)[i as int] != ascii_lower_seq(b@)[i as int]);
            return false;
        }
        i = i + 1;
    }
    assert(ascii_lower_seq(a@) =~= ascii_lower_seq(b@));
    true
}

// ---------------------------------------------------------------------------
// Lowercasing (std)
// ---------------------------------------------------------------------------

/// What `str::to_lowercase` returns for the given characters: the Unicode
/// lowercase mapping of each character.
pub uninterp spec fn unicode_lowercase(s: Seq<char>) -> Seq<char>;

/// `str::to_lowercase`. The result is a function of the characters of `s`
/// alone; for an all-ASCII string it is the ASCII lowercase of it (ASCII
/// letters have their ASCII lowercase as Unicode lowercase mapping, every other
/// ASCII character maps to itself). Nothing more of non-ASCII input is stated.
#[verifier::external_body]
pub(crate) fn to_lowercase(s: &str) -> (r: String)
    ensures
        r@ == unicode_lowercase(s@),
        vstd::utf8::is_ascii_chars(s@) ==> r@ == ascii_lower_seq(s@),
{
    s.to_lowercase()
}

/// The lowercase form of a text as `str::to_lowercase` gives it: the ASCII
/// lowercase of an ASCII text, the Unicode lowercase mapping of another.
pub open spec fn lowercase(s: Seq<char>) -> Seq<char> {
    if vstd::utf8::is_ascii_chars(s) {
        ascii_lower_seq(s)
    } else {
        unicode_lowercase(s)
    }
}

// ---------------------------------------------------------------------------
// Trimming
// ---------------------------------------------------------------------------

/// `s` without its longest prefix of characters that satisfy `p`.
pub open spec fn strip_start(s: Seq<char>, p: spec_fn(char) -> bool) -> Seq<char>
    decreases s.len(),
{
    if s.len() > 0 && p(s[0]) {
        strip_start(s.drop_first(), p)
    } else {
        s
    }
}

/// `s` without its longest suffix of characters that satisfy `p`.
pub open spec fn strip_end(s: Seq<char>, p: spec_fn(char) -> bool) -> Seq<char>
    decreases s.len(),
{
    if s.len() > 0 && p(s.last()) {
        strip_end(s.drop_last(), p)
    } else {
        s
    }
}

/// `s` without leading and trailing characters that satisfy `p`.
pub open spec fn strip_both(s: Seq<char>, p: spec_fn(char) -> bool) -> Seq<char> {
    strip_end(strip_start(s, p), p)
}

pub open spec fn space_pred() -> spec_fn(char) -> bool {
    |c: char| is_space(c)
}

/// `str::trim`: without leading and trailing whitespace.
pub open spec fn trim(s: Seq<char>) -> Seq<char> {
    strip_both(s, space_pred())
}

pub proof fn lemma_strip_start_skip(s: Seq<char>, p: spec_fn(char) -> bool, i: int)
    requires
        0 <= i <= s.len(),
        forall|j: int| 0 <= j < i ==> p(#[trigger] s[j]),
    ensures
        strip_start(s, p) == strip_start(s.skip(i), p),
    decreases i,
{
    if i > 0 {
        assert(s.skip(1) =~= s.drop_first());
        lemma_strip_start_skip(s.drop_first(), p, i - 1);
        assert(s.drop_first().skip(i - 1) =~= s.skip(i));
    } else {
        assert(s.skip(0) =~= s);
    }
}

pub proof fn lemma_strip_end_take(s: Seq<char>, p: spec_fn(char) -> bool, i: int)
    requires
        0 <= i <= s.len(),
        forall|j: int| i <= j < s.len() ==> p(#[trigger] s[j]),
    ensures
        strip_end(s, p) == strip_end(s.take(i), p),
    decreases s.len() - i,
{
    if i < s.len() {
        lemma_strip_end_take(s.drop_last(), p, i);
        assert(s.drop_last().take(i) =~= s.take(i));
    } else {
        assert(s.take(i) =~= s);
    }
}

/// The bounds `(a, b)` with `v[a..b] == strip_both(v, space)`.
pub fn trim_bounds(v: &[char]) -> (r: (usize, usize))
    ensures
        r.0 <= r.1 <= v@.len(),
        v@.subrange(r.0 as int, r.1 as int) == trim(v@),
{
    let n = v.len();
    let mut a: usize = 0;
    while a < n && is_space_char(v[a])
        invariant
            a <= n == v@.len(),
            forall|j: int| 0 <= j < a ==> is_space(#[trigger] v@[j]),
        decreases n - a,
    {
        a = a + 1;
    }
    let ghost p = space_pred();
    proof {
        assert forall|j: int| 0 <= j < a implies p(#[trigger] v@[j]) by {
            assert(is_space(v@[j]));
        }
        lemma_strip_start_skip(v@, p, a as int);
        if a < n {
            assert(!p(v@.skip(a as int)[0]));
        } else {
            assert(v@.skip(a as int).len() == 0);
        }
        assert(strip_start(v@, p) == v@.skip(a as int));
    }
    let mut b: usize = n;
    while b > a && is_space_char(v[b - 1])
        invariant
            a <= b <= n == v@.len(),
            forall|j: int| b <= j < n ==> is_space(#[trigger] v@[j]),
        decreases b,
    {
        b = b - 1;
    }
    proof {
        let t = v@.skip(a as int);
        let k = b - a;
        assert forall|j: int| k <= j < t.len() implies p(#[trigger] t[j]) by {
            assert(t[j] == v@[j + a]);
            assert(is_space(v@[j + a]));
        }
        lemma_strip_end_take(t, p, k as int);
        assert(t.take(k as int) =~= v@.subrange(a as int, b as int));
        if b > a {
            assert(!p(t.take(k as int).last()));
        }
    }
    (a, b)
}

/// `str::trim` on a character slice.
pub fn trim_chars(v: &[char]) -> (r: Vec<char>)
    ensures
        r@ == trim(v@),
{
    let (a, b) = trim_bounds(v);
    let mut r: Vec<char> = Vec::new();
    let mut i = a;
    while i < b
        invariant
            a <= i <= b <= v@.len(),
            r@ == v@.subrange(a as int, i as int),
        decreases b - i,
    {
        r.push(v[i]);
        assert(v@.subrange(a as int, i + 1) =~= v@.subrange(a as int, i as int).push(v@[i as int]));
        i = i + 1;
    }
    r
}

/// `str::trim` as an owned `String`.
pub fn trim_string(s: &str) -> (r: String)
    ensures
        r@ == trim(s@),
{
    let v = chars_of(s);
    let (a, b) = trim_bounds(v.as_slice());
    string_of_range(v.as_slice(), a, b)
}

// ---------------------------------------------------------------------------
// Searching
// ---------------------------------------------------------------------------

/// The first position of `c` in `s`.
pub open spec fn first_index(s: Seq<char>, c: char) -> Option<int>
    decreases s.len(),
{
    if s.len() == 0 {
        None
    } else if s[0] == c {
        Some(0)
    } else {
        match first_index(s.drop_first(), c) {
            Some(i) => Some(i + 1),
            None => None,
        }
    }
}

/// The last position of `c` in `s`.
pub open spec fn last_index(s: Seq<char>, c: char) -> Option<int>
    decreases s.len(),
{
    if s.len() == 0 {
        None
    } else if s.last() == c {
        Some(s.len() - 1)
    } else {
        last_index(s.drop_last(), c)
    }
}

pub proof fn lemma_first_index(s: Seq<char>, c: char)
    ensures
        match first_index(s, c) {
            Some(i) => 0 <= i < s.len() && s[i] == c && forall|j: int| 0 <= j < i ==> s[j] != c,
            None => forall|j: int| 0 <= j < s.len() ==> s[j] != c,
        },
    decreases s.len(),
{
    if s.len() > 0 {
        lemma_first_index(s.drop_first(), c);
        if s[0] != c {
            match first_index(s.drop_first(), c) {
                Some(i) => {
                    assert forall|j: int| 0 <= j < i + 1 implies s[j] != c by {
                        if j > 0 {
                            assert(s[j] == s.drop_first()[j - 1]);
                        }
                    }
                },
                None => {
                    assert forall|j: int| 0 <= j < s.len() implies s[j] != c by {
                        if j > 0 {
                            assert(s[j] == s.drop_first()[j - 1]);
                        }
                    }
                },
            }
        }
    }
}

pub proof fn lemma_last_index(s: Seq<char>, c: char)
    ensures
        match last_index(s, c) {
            Some(i) => 0 <= i < s.len() && s[i] == c && forall|j: int| i < j < s.len() ==> s[j] != c,
            None => forall|j: int| 0 <= j < s.len() ==> s[j] != c,
        },
    decreases s.len(),
{
    if s.len() > 0 {
        lemma_last_index(s.drop_last(), c);
        assert forall|j: int| 0 <= j < s.len() - 1 implies s[j] == s.drop_last()[j] by {}
    }
}

/// A position with `c` at it and no `c` before it is the first position.
pub proof fn lemma_first_index_at(s: Seq<char>, c: char, i: int)
    requires
        0 <= i < s.len(),
        s[i] == c,
        forall|j: int| 0 <= j < i ==> s[j] != c,
    ensures
        first_index(s, c) == Some(i),
{
    lemma_first_index(s, c);
}

/// No `c` at all means no first position.
pub proof fn lemma_first_index_none(s: Seq<char>, c: char)
    requires
        forall|j: int| 0 <= j < s.len() ==> s[j] != c,
    ensures
        first_index(s, c) is None,
{
    lemma_first_index(s, c);
}

/// The first position of `c` in `v[from..to]`, relative to `from`.
pub fn find_char(v: &[char], c: char, from: usize, to: usize) -> (r: Option<usize>)
    requires
        from <= to <= v@.len(),
    ensures
        match r {
            Some(i) => from <= i < to && first_index(v@.subrange(from as int, to as int), c)
                == Some(i - from),
            None => first_index(v@.subrange(from as int, to as int), c) is None,
        },
{
    let ghost s = v@.subrange(from as int, to as int);
    let mut i = from;
    while i < to
        invariant
            from <= i <= to <= v@.len(),
            s == v@.subrange(from as int, to as int),
            forall|j: int| from <= j < i ==> v@[j] != c,
        decreases to - i,
    {
        if v[i] == c {
            proof {
                assert forall|j: int| 0 <= j < i - from implies s[j] != c by {
                    assert(s[j] == v@[j + from]);
                }
                lemma_first_index_at(s, c, i - from);
            }
            return Some(i);
        }
        i = i + 1;
    }
    proof {
        assert forall|j: int| 0 <= j < s.len() implies s[j] != c by {
            assert(s[j] == v@[j + from]);
        }
        lemma_first_index_none(s, c);
    }
    None
}

/// The last position of `c` in `v[from..to]`, relative to `from`.
pub fn rfind_char(v: &[char], c: char, from: usize, to: usize) -> (r: Option<usize>)
    requires
        from <= to <= v@.len(),
    ensures
        match r {
            Some(i) => from <= i < to && last_index(v@.subrange(from as int, to as int), c)
                == Some(i - from),
            None => last_index(v@.subrange(from as int, to as int), c) is None,
        },
{
    let ghost s = v@.subrange(from as int, to as int);
    let mut i = to;
    while i > from
        invariant
            from <= i <= to <= v@.len(),
            s == v@.subrange(from as int, to as int),
            last_index(s, c) == last_index(v@.subrange(from as int, i as int), c),
        decreases i,
    {
        let ghost t = v@.subrange(from as int, i as int);
        if v[i - 1] == c {
            assert(t.last() == c);
            return Some(i - 1);
        }
        assert(t.drop_last() =~= v@.subrange(from as int, i - 1));
        i = i - 1;
    }
    None
}

/// Whether `prefix` is a prefix of `s`.
pub open spec fn has_prefix(s: Seq<char>, prefix: Seq<char>) -> bool {
    prefix.len() <= s.len() && s.take(prefix.len() as int) == prefix
}

pub fn starts_with_chars(v: &[char], prefix: &[char]) -> (r: bool)
    ensures
        r == has_prefix(v@, prefix@),
{
    if prefix.len() > v.len() {
        return false;
    }
    let mut i: usize = 0;
    while i < prefix.len()
        invariant
            prefix@.len() <= v@.len(),
            i <= prefix@.len(),
            forall|j: int| 0 <= j < i ==> v@[j] == prefix@[j],
        decreases prefix.len() - i,
    {
        if v[i] != prefix[i] {
            assert(v@.take(prefix@.len() as int)[i as int] != prefix@[i as int]);
            return false;
        }
        i = i + 1;
    }
    assert(v@.take(prefix@.len() as int) =~= prefix@);
    true
}

// ---------------------------------------------------------------------------
// Lines and words
// ---------------------------------------------------------------------------

/// A line's text without a final carriage return.
pub open spec fn strip_cr(s: Seq<char>) -> Seq<char> {
    if s.len() > 0 && s.last() == '\r' {
        s.drop_last()
    } else {
        s
    }
}

/// `str::lines`, scanned from the left: `cur` is the line being read and `acc`
/// the lines already complete. A line ends at `'\n'`, which it loses together
/// with one `'\r'` just before it; a final line without `'\n'` is kept as it
/// is, an empty one is not a line.
pub open spec fn lines_from(s: Seq<char>, cur: Seq<char>, acc: Seq<Seq<char>>) -> Seq<Seq<char>>
    decreases s.len(),
{
    if s.len() == 0 {
        if cur.len() > 0 {
            acc.push(cur)
        } else {
            acc
        }
    } else if s[0] == '\n' {
        lines_from(s.drop_first(), seq![], acc.push(strip_cr(cur)))
    } else {
        lines_from(s.drop_first(), cur.push(s[0]), acc)
    }
}

/// `str::lines`.
pub open spec fn lines(s: Seq<char>) -> Seq<Seq<char>> {
    lines_from(s, seq![], seq![])
}

/// Whitespace-separated words, scanned from the left (`str::split_whitespace`).
pub open spec fn words_from(s: Seq<char>, cur: Seq<char>, acc: Seq<Seq<char>>) -> Seq<Seq<char>>
    decreases s.len(),
{
    if s.len() == 0 {
        if cur.len() > 0 {
            acc.push(cur)
        } else {
            acc
        }
    } else if is_space(s[0]) {
        words_from(s.drop_first(), seq![], if cur.len() > 0 { acc.push(cur) } else { acc })
    } else {
        words_from(s.drop_first(), cur.push(s[0]), acc)
    }
}

/// `str::split_whitespace`.
pub open spec fn words(s: Seq<char>) -> Seq<Seq<char>> {
    words_from(s, seq![], seq![])
}

/// Pieces of `s` between occurrences of `sep`, scanned from the left
/// (`str::split` with a character).
pub open spec fn split_from(s: Seq<char>, sep: char, cur: Seq<char>, acc: Seq<Seq<char>>) -> Seq<
    Seq<char>,
>
    decreases s.len(),
{
    if s.len() == 0 {
        acc.push(cur)
    } else if s[0] == sep {
        split_from(s.drop_first(), sep, seq![], acc.push(cur))
    } else {
        split_from(s.drop_first(), sep, cur.push(s[0]), acc)
    }
}

/// `str::split` on one character.
pub open spec fn split_on(s: Seq<char>, sep: char) -> Seq<Seq<char>> {
    split_from(s, sep, seq![], seq![])
}

/// The views of a vector of character vectors.
pub open spec fn views(v: Seq<Vec<char>>) -> Seq<Seq<char>> {
    v.map_values(|x: Vec<char>| x@)
}

/// `str::lines` on a character slice.
pub fn lines_of(v: &[char]) -> (r: Vec<Vec<char>>)
    ensures
        views(r@) == lines(v@),
{
    let mut acc: Vec<Vec<char>> = Vec::new();
    let mut cur: Vec<char> = Vec::new();
    let mut i: usize = 0;
    assert(v@.skip(0) =~= v@);
    assert(views(acc@) =~= seq![]);
    assert(cur@ =~= seq![]);
    while i < v.len()
        invariant
            i <= v@.len(),
            lines(v@) == lines_from(v@.skip(i as int), cur@, views(acc@)),
        decreases v.len() - i,
    {
        let ghost rest = v@.skip(i as int);
        assert(rest.drop_first() =~= v@.skip(i + 1));
        if v[i] == '\n' {
            let line = if cur.len() > 0 && cur[cur.len() - 1] == '\r' {
                let mut t = cur;
                t.pop();
                t
            } else {
                cur
            };
            proof {
                assert(line@ == strip_cr(cur@)) by {
                    if cur@.len() > 0 && cur@.last() == '\r' {
                        assert(line@ =~= cur@.drop_last());
                    }
                }
                assert(views(acc@.push(line)) =~= views(acc@).push(line@));
            }
            acc.push(line);
            cur = Vec::new();
            assert(cur@ =~= seq![]);
        } else {
            cur.push(v[i]);
        }
        i = i + 1;
    }
    assert(v@.skip(i as int) =~= seq![]);
    if cur.len() > 0 {
        proof {
            assert(views(acc@.push(cur)) =~= views(acc@).push(cur@));
        }
        acc.push(cur);
    }
    acc
}

/// `str::split_whitespace` on a character slice.
pub fn words_of(v: &[char]) -> (r: Vec<Vec<char>>)
    ensures
        views(r@) == words(v@),
{
    let mut acc: Vec<Vec<char>> = Vec::new();
    let mut cur: Vec<char> = Vec::new();
    let mut i: usize = 0;
    assert(v@.skip(0) =~= v@);
    assert(views(acc@) =~= seq![]);
    assert(cur@ =~= seq![]);
    while i < v.len()
        invariant
            i <= v@.len(),
            words(v@) == words_from(v@.skip(i as int), cur@, views(acc@)),
        decreases v.len() - i,
    {
        let ghost rest = v@.skip(i as int);
        assert(rest.drop_first() =~= v@.skip(i + 1));
        if is_space_char(v[i]) {
            if cur.len() > 0 {
                proof {
                    assert(views(acc@.push(cur)) =~= views(acc@).push(cur@));
                }
                acc.push(cur);
            }
            cur = Vec::new();
            assert(cur@ =~= seq![]);
        } else {
            cur.push(v[i]);
        }
        i = i + 1;
    }
    assert(v@.skip(i as int) =~= seq![]);
    if cur.len() > 0 {
        proof {
            assert(views(acc@.push(cur)) =~= views(acc@).push(cur@));
        }
        acc.push(cur);
    }
    acc
}

/// `str::split` on one character, over a character slice.
pub fn split_chars(v: &[char], sep: char) -> (r: Vec<Vec<char>>)
    ensures
        views(r@) == split_on(v@, sep),
{
    let mut acc: Vec<Vec<char>> = Vec::new();
    let mut cur: Vec<char> = Vec::new();
    let mut i: usize = 0;
    assert(v@.skip(0) =~= v@);
    assert(views(acc@) =~= seq![]);
    assert(cur@ =~= seq![]);
    while i < v.len()
        invariant
            i <= v@.len(),
            split_on(v@, sep) == split_from(v@.skip(i as int), sep, cur@, views(acc@)),
        decreases v.len() - i,
    {
        let ghost rest = v@.skip(i as int);
        assert(rest.drop_first() =~= v@.skip(i + 1));
        if v[i] == sep {
            proof {
                assert(views(acc@.push(cur)) =~= views(acc@).push(cur@));
            }
            acc.push(cur);
            cur = Vec::new();
            assert(cur@ =~= seq![]);
        } else {
            cur.push(v[i]);
        }
        i = i + 1;
    }
    assert(v@.skip(i as int) =~= seq![]);
    proof {
        assert(views(acc@.push(cur)) =~= views(acc@).push(cur@));
    }
    acc.push(cur);
    acc
}

// ---------------------------------------------------------------------------
// Numbers
// ---------------------------------------------------------------------------

/// The decimal digit for `d < 10`.
pub open spec fn digit_char(d: int) -> char {
    (0x30 + d) as char
}

/// The lowercase hexadecimal digit for `d < 16`.
pub open spec fn hex_char(d: int) -> char {
    if d < 10 {
        (0x30 + d) as char
    } else {
        (0x57 + d) as char
    }
}

/// Decimal rendering of `n` without leading zeros (`u64::to_string`).
pub open spec fn decimal(n: nat) -> Seq<char>
    decreases n,
{
    if n < 10 {
        seq![digit_char(n as int)]
    } else {
        decimal(n / 10).push(digit_char((n % 10) as int))
    }
}

/// The last `width` hexadecimal digits of `n`, zero-padded (`{:0width$x}`
/// for values below `16^width`).
pub open spec fn hex_digits(n: nat, width: nat) -> Seq<char>
    decreases width,
{
    if width == 0 {
        seq![]
    } else {
        hex_digits(n / 16, (width - 1) as nat).push(hex_char((n % 16) as int))
    }
}

/// Two decimal digits of `n < 100`, zero-padded (`{:02}`).
pub open spec fn two_digits(n: nat) -> Seq<char> {
    seq![digit_char((n / 10) as int), digit_char((n % 10) as int)]
}

fn digit_of(d: u64) -> (c: char)
    requires
        d < 10,
    ensures
        c == digit_char(d as int),
{
    if d == 0 { '0' }
    else if d == 1 { '1' }
    else if d == 2 { '2' }
    else if d == 3 { '3' }
    else if d == 4 { '4' }
    else if d == 5 { '5' }
    else if d == 6 { '6' }
    else if d == 7 { '7' }
    else if d == 8 { '8' }
    else { '9' }
}

fn hex_of(d: u64) -> (c: char)
    requires
        d < 16,
    ensures
        c == hex_char(d as int),
{
    if d < 10 {
        digit_of(d)
    } else if d == 10 { 'a' }
    else if d == 11 { 'b' }
    else if d == 12 { 'c' }
    else if d == 13 { 'd' }
    else if d == 14 { 'e' }
    else { 'f' }
}

/// `n.to_string()` for an unsigned integer.
pub fn decimal_string(n: u64) -> (s: String)
    ensures
        s@ == decimal(n as nat),
{
    let mut digits: Vec<char> = Vec::new();
    let mut m = n;
    // digits holds the decimal rendering of n % 10^k, reversed, for the k digits read so far
    while m >= 10
        invariant
            decimal(n as nat) == decimal(m as nat) + digits@.reverse(),
        decreases m,
    {
        let d = m % 10;
        let c = digit_of(d);
        proof {
            assert(decimal(m as nat) == decimal((m / 10) as nat).push(c));
            assert(digits@.push(c).reverse() =~= seq![c] + digits@.reverse());
            assert(decimal((m / 10) as nat).push(c) + digits@.reverse() =~= decimal((m / 10) as nat)
                + (seq![c] + digits@.reverse()));
        }
        digits.push(c);
        m = m / 10;
    }
    let c = digit_of(m);
    let mut s = String::new();
    push_char(&mut s, c);
    assert(s@ =~= decimal(m as nat));
    let mut i = digits.len();
    while i > 0
        invariant
            i <= digits@.len(),
            s@ + digits@.take(i as int).reverse() == decimal(n as nat),
        decreases i,
    {
        let ghost before = s@;
        push_char(&mut s, digits[i - 1]);
        assert(digits@.take(i as int).reverse() =~= seq![digits@[i - 1]] + digits@.take(i - 1).reverse());
        assert(s@ + digits@.take(i - 1).reverse() =~= before + digits@.take(i as int).reverse());
        i = i - 1;
    }
    assert(digits@.take(0).reverse() =~= seq![]);
    assert(s@ =~= s@ + digits@.take(0).reverse());
    s
}

/// `format!("{:016x}", n)`.
pub fn hex16_string(n: u64) -> (s: String)
    ensures
        s@ == hex_digits(n as nat, 16),
{
    let mut rev: Vec<char> = Vec::new();
    let mut m = n;
    let mut k: u64 = 0;
    while k < 16
        invariant
            k <= 16,
            hex_digits(n as nat, 16) == hex_digits(m as nat, (16 - k) as nat) + rev@.reverse(),
        decreases 16 - k,
    {
        let c = hex_of(m % 16);
        proof {
            assert(hex_digits(m as nat, (16 - k) as nat) == hex_digits((m / 16) as nat, (16 - k
                - 1) as nat).push(c));
            assert(rev@.push(c).reverse() =~= seq![c] + rev@.reverse());
            assert(hex_digits((m / 16) as nat, (16 - k - 1) as nat).push(c) + rev@.reverse()
                =~= hex_digits((m / 16) as nat, (16 - k - 1) as nat) + (seq![c]
                + rev@.reverse()));
        }
        rev.push(c);
        m = m / 16;
        k = k + 1;
    }
    assert(hex_digits(m as nat, 0) =~= seq![]);
    let mut s = String::new();
    let mut i = rev.len();
    while i > 0
        invariant
            i <= rev@.len(),
            s@ + rev@.take(i as int).reverse() == hex_digits(n as nat, 16),
        decreases i,
    {
        let ghost before = s@;
        push_char(&mut s, rev[i - 1]);
        assert(rev@.take(i as int).reverse() =~= seq![rev@[i - 1]] + rev@.take(i - 1).reverse());
        assert(s@ + rev@.take(i - 1).reverse() =~= before + rev@.take(i as int).reverse());
        i = i - 1;
    }
    assert(rev@.take(0).reverse() =~= seq![]);
    assert(s@ =~= s@ + rev@.take(0).reverse());
    s
}

/// Appends `format!("{:02}", n)` for `n < 100`.
pub fn push_two_digits(s: &mut String, n: u64)
    requires
        n < 100,
    ensures
        final(s)@ == old(s)@ + two_digits(n as nat),
{
    push_char(s, digit_of(n / 10));
    push_char(s, digit_of(n % 10));
    assert(final(s)@ =~= old(s)@ + two_digits(n as nat));
}

/// Whether `c` is an ASCII decimal digit.
pub open spec fn is_digit(c: char) -> bool {
    '0' <= c <= '9'
}

/// The value of a decimal digit.
pub open spec fn digit_value(c: char) -> nat {
    ((c as u32) - 0x30) as nat
}

/// Why a text is not an unsigned number (`core::num::IntErrorKind`).
#[derive(Debug, Clone, PartialEq, Eq)]
pub enum IntErrorKind {
    Empty,
    InvalidDigit,
    PosOverflow,
}

/// Reads the digits `d` after the value `acc` read so far, from the left:
/// a non-digit is an invalid digit, a value above `max` an overflow, in the
/// order in which they come.
pub open spec fn scan_digits(d: Seq<char>, acc: nat, max: nat) -> Result<nat, IntErrorKind>
    decreases d.len(),
{
    if d.len() == 0 {
        Ok(acc)
    } else if !is_digit(d[0]) {
        Err(IntErrorKind::InvalidDigit)
    } else if acc * 10 + digit_value(d[0]) > max {
        Err(IntErrorKind::PosOverflow)
    } else {
        scan_digits(d.drop_first(), acc * 10 + digit_value(d[0]), max)
    }
}

/// `str::parse` for an unsigned integer type whose largest value is `max`:
/// an optional `'+'` followed by decimal digits.
pub open spec fn parse_uint(s: Seq<char>, max: nat) -> Result<nat, IntErrorKind> {
    if s.len() == 0 {
        Err(IntErrorKind::Empty)
    } else if s[0] == '+' && s.len() == 1 {
        Err(IntErrorKind::InvalidDigit)
    } else if s[0] == '+' {
        scan_digits(s.drop_first(), 0, max)
    } else {
        scan_digits(s, 0, max)
    }
}

/// The digit of `d < 10` is a digit of value `d`.
pub proof fn lemma_digit_char(d: int)
    requires
        0 <= d < 10,
    ensures
        is_digit(digit_char(d)),
        digit_value(digit_char(d)) == d,
        digit_char(d) != '+',
{
    let c = digit_char(d);
    assert(c as u32 == 0x30 + d);
}

/// `decimal(n)` is a non-empty run of digits.
pub proof fn lemma_decimal_digits(n: nat)
    ensures
        decimal(n).len() > 0,
        forall|j: int| 0 <= j < decimal(n).len() ==> is_digit(#[trigger] decimal(n)[j]),
    decreases n,
{
    if n < 10 {
        lemma_digit_char(n as int);
    } else {
        lemma_decimal_digits(n / 10);
        lemma_digit_char((n % 10) as int);
        let d = decimal(n / 10);
        assert forall|j: int| 0 <= j < decimal(n).len() implies is_digit(#[trigger] decimal(n)[j]) by {
            if j < d.len() {
                assert(decimal(n)[j] == d[j]);
            }
        }
    }
}

/// Reading `a` then `b` is reading `a + b`.
pub proof fn lemma_scan_concat(a: Seq<char>, b: Seq<char>, acc: nat, max: nat)
    ensures
        scan_digits(a + b, acc, max) == match scan_digits(a, acc, max) {
            Ok(v) => scan_digits(b, v, max),
            Err(e) => Err(e),
        },
    decreases a.len(),
{
    if a.len() == 0 {
        assert(a + b =~= b);
    } else {
        assert((a + b)[0] == a[0]);
        assert((a + b).drop_first() =~= a.drop_first() + b);
        if is_digit(a[0]) && acc * 10 + digit_value(a[0]) <= max {
            lemma_scan_concat(a.drop_first(), b, acc * 10 + digit_value(a[0]), max);
        }
    }
}

/// Parsing the decimal text of `n <= max` gives `n` back.
pub proof fn lemma_parse_decimal(n: nat, max: nat)
    requires
        n <= max,
    ensures
        parse_uint(decimal(n), max) == Ok::<nat, IntErrorKind>(n),
    decreases n,
{
    lemma_decimal_digits(n);
    if n < 10 {
        lemma_digit_char(n as int);
        let s = decimal(n);
        assert(s.drop_first().len() == 0);
        assert(scan_digits(s, 0, max) == scan_digits(s.drop_first(), n, max));
    } else {
        let q = n / 10;
        let r = (n % 10) as int;
        assert(q * 10 + r == n) by (nonlinear_arith)
            requires
                q == n / 10,
                r == n % 10,
        ;
        assert(q <= max);
        lemma_parse_decimal(q, max);
        lemma_decimal_digits(q);
        lemma_digit_char(r);
        let d = decimal(q);
        assert(d[0] != '+') by {
            assert(is_digit(d[0]));
        }
        assert(decimal(n) =~= d + seq![digit_char(r)]);
        lemma_scan_concat(d, seq![digit_char(r)], 0, max);
        assert(scan_digits(d, 0, max) == Ok::<nat, IntErrorKind>(q));
        assert(seq![digit_char(r)].drop_first().len() == 0);
        assert(scan_digits(seq![digit_char(r)], q, max) == scan_digits(
            seq![digit_char(r)].drop_first(),
            q * 10 + digit_value(digit_char(r)),
            max,
        ));
        assert(decimal(n)[0] == d[0]);
    }
}

/// The message of a `ParseIntError` of the given kind.
pub open spec fn int_error_text(k: IntErrorKind) -> Seq<char> {
    match k {
        IntErrorKind::Empty => "cannot parse integer from empty string"@,
        IntErrorKind::InvalidDigit => "invalid digit found in string"@,
        IntErrorKind::PosOverflow => "number too large to fit in target type"@,
    }
}

/// The message of a `ParseIntError` of the given kind.
pub fn int_error_message(k: &IntErrorKind) -> (s: String)
    ensures
        s@ == int_error_text(*k),
{
    match k {
        IntErrorKind::Empty => String::from_str("cannot parse integer from empty string"),
        IntErrorKind::InvalidDigit => String::from_str("invalid digit found in string"),
        IntErrorKind::PosOverflow => String::from_str("number too large to fit in target type"),
    }
}

/// `v.parse()` into an unsigned integer type whose largest value is `max`.
pub fn parse_uint_chars(v: &[char], max: u64) -> (r: Result<u64, IntErrorKind>)
    ensures
        match parse_uint(v@, max as nat) {
            Ok(n) => n <= max && r == Ok::<u64, IntErrorKind>(n as u64),
            Err(k) => r == Err::<u64, IntErrorKind>(k),
        },
{
    if v.len() == 0 {
        return Err(IntErrorKind::Empty);
    }
    if v[0] == '+' && v.len() == 1 {
        return Err(IntErrorKind::InvalidDigit);
    }
    let start: usize = if v[0] == '+' {
        1
    } else {
        0
    };
    let ghost d = v@.skip(start as int);
    assert(parse_uint(v@, max as nat) == scan_digits(d, 0, max as nat)) by {
        if start == 1 {
            assert(v@.skip(1) =~= v@.drop_first());
        } else {
            assert(v@.skip(0) =~= v@);
        }
    }
    let mut value: u64 = 0;
    let mut i = start;
    while i < v.len()
        invariant
            start <= i <= v@.len(),
            value <= max,
            parse_uint(v@, max as nat) == scan_digits(v@.skip(i as int), value as nat, max as nat),
        decreases v.len() - i,
    {
        let ghost rest = v@.skip(i as int);
        assert(rest[0] == v@[i as int]);
        assert(rest.drop_first() =~= v@.skip(i + 1));
        let c = v[i];
        if !('0' <= c && c <= '9') {
            return Err(IntErrorKind::InvalidDigit);
        }
        let digit = (c as u32 - 0x30) as u64;
        let next: u128 = value as u128 * 10 + digit as u128;
        if next > max as u128 {
            return Err(IntErrorKind::PosOverflow);
        }
        value = next as u64;
        i = i + 1;
    }
    assert(v@.skip(i as int).len() == 0);
    Ok(value)
}

/// A copy of `v[from..to]`.
pub fn sub_chars(v: &[char], from: usize, to: usize) -> (r: Vec<char>)
    requires
        from <= to <= v@.len(),
    ensures
        r@ == v@.subrange(from as int, to as int),
{
    let mut r: Vec<char> = Vec::new();
    let mut i = from;
    while i < to
        invariant
            from <= i <= to <= v@.len(),
            r@ == v@.subrange(from as int, i as int),
        decreases to - i,
    {
        r.push(v[i]);
        assert(v@.subrange(from as int, i + 1) =~= v@.subrange(from as int, i as int).push(v@[i as int]));
        i = i + 1;
    }
    r
}

/// The first position of `c` in `v` (`str::find` with a character).
pub fn index_of(v: &[char], c: char) -> (r: Option<usize>)
    ensures
        match r {
            Some(i) => i < v@.len() && v@[i as int] == c && first_index(v@, c) == Some(i as int),
            None => first_index(v@, c) is None,
        },
{
    assert(v@.subrange(0, v@.len() as int) =~= v@);
    proof {
        lemma_first_index(v@, c);
    }
    find_char(v, c, 0, v.len())
}

/// The last position of `c` in `v` (`str::rfind` with a character).
pub fn last_index_of(v: &[char], c: char) -> (r: Option<usize>)
    ensures
        match r {
            Some(i) => i < v@.len() && v@[i as int] == c && last_index(v@, c) == Some(i as int),
            None => last_index(v@, c) is None,
        },
{
    assert(v@.subrange(0, v@.len() as int) =~= v@);
    proof {
        lemma_last_index(v@, c);
    }
    rfind_char(v, c, 0, v.len())
}

/// `strip_start` drops a prefix: the first `k` characters, all satisfying
/// `p`, with `s[k]` (if any) not satisfying it.
pub proof fn lemma_strip_start_shape(s: Seq<char>, p: spec_fn(char) -> bool) -> (k: int)
    ensures
        0 <= k <= s.len(),
        strip_start(s, p) == s.skip(k),
        k == s.len() || !p(s[k]),
        forall|j: int| 0 <= j < k ==> p(#[trigger] s[j]),
    decreases s.len(),
{
    if s.len() > 0 && p(s[0]) {
        let k1 = lemma_strip_start_shape(s.drop_first(), p);
        assert(s.drop_first().skip(k1) =~= s.skip(k1 + 1));
        assert forall|j: int| 0 <= j < k1 + 1 implies p(#[trigger] s[j]) by {
            if j > 0 {
                assert(s[j] == s.drop_first()[j - 1]);
            }
        }
        k1 + 1
    } else {
        assert(s.skip(0) =~= s);
        0
    }
}

/// `strip_end` keeps a prefix: the first `m` characters, with `s[m - 1]` (if
/// any) not satisfying `p` and all later ones satisfying it.
pub proof fn lemma_strip_end_shape(s: Seq<char>, p: spec_fn(char) -> bool) -> (m: int)
    ensures
        0 <= m <= s.len(),
        strip_end(s, p) == s.take(m),
        m == 0 || !p(s[m - 1]),
        forall|j: int| m <= j < s.len() ==> p(#[trigger] s[j]),
    decreases s.len(),
{
    if s.len() > 0 && p(s.last()) {
        let m1 = lemma_strip_end_shape(s.drop_last(), p);
        assert(s.drop_last().take(m1) =~= s.take(m1));
        assert forall|j: int| m1 <= j < s.len() implies p(#[trigger] s[j]) by {
            if j < s.len() - 1 {
                assert(s[j] == s.drop_last()[j]);
            }
        }
        m1
    } else {
        assert(s.take(s.len() as int) =~= s);
        s.len() as int
    }
}

/// A text that neither starts nor ends with a character satisfying `p` is
/// left alone by `strip_both`.
pub proof fn lemma_strip_both_noop(s: Seq<char>, p: spec_fn(char) -> bool)
    requires
        s.len() == 0 || (!p(s[0]) && !p(s.last())),
    ensures
        strip_both(s, p) == s,
{
}

/// Stripping twice is stripping once.
pub proof fn lemma_strip_both_idempotent(s: Seq<char>, p: spec_fn(char) -> bool)
    ensures
        strip_both(strip_both(s, p), p) == strip_both(s, p),
{
    let k = lemma_strip_start_shape(s, p);
    let t = s.skip(k);
    let m = lemma_strip_end_shape(t, p);
    let u = t.take(m);
    if m > 0 {
        assert(u[0] == t[0]);
        assert(u.last() == t[m - 1]);
    }
    lemma_strip_both_noop(u, p);
}

/// `trim` of a trimmed text changes nothing.
pub proof fn lemma_trim_idempotent(s: Seq<char>)
    ensures
        trim(trim(s)) == trim(s),
{
    lemma_strip_both_idempotent(s, space_pred());
}

} // verus!
