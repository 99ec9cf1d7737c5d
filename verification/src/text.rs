//! Text as sequences of characters: the string operations the rest of the
//! crate is written with, each tied to a definition on `Seq<char>`.
use vstd::prelude::*;

verus! {

/// Appends one character (`String::push`).
pub assume_specification[ String::push ](s: &mut String, c: char)
    ensures
        final(s)@ == old(s)@.push(c),
;

/// Compares two string slices (`str`'s `==`).
pub assume_specification[ <str as PartialEq>::eq ](a: &str, b: &str) -> (r: bool)
    ensures
        r == (a@ == b@),
;

/// The character with a code point (`char::from_u32`): every one but the
/// surrogates, up to U+10FFFF.
pub assume_specification[ char::from_u32 ](i: u32) -> (r: Option<char>)
    ensures
        r == (if i <= 0xd7ff || (0xe000 <= i && i <= 0x10ffff) {
            Some(i as char)
        } else {
            None
        }),
;

/// The text of a run of bytes, malformed parts replaced
/// (`String::from_utf8_lossy`).
pub uninterp spec fn utf8_lossy(bytes: Seq<u8>) -> Seq<char>;

/// Decodes bytes as text (`String::from_utf8_lossy`). Well-formed UTF-8 is
/// decoded exactly; the result depends on the bytes alone.
#[verifier::external_body]
pub(crate) fn from_utf8_lossy(bytes: &[u8]) -> (r: String)
    ensures
        r@ == utf8_lossy(bytes@),
        vstd::utf8::valid_utf8(bytes@) ==> r@ == vstd::utf8::decode_utf8(bytes@),
{
    String::from_utf8_lossy(bytes).into_owned()
}

// ---------------------------------------------------------------------------
// Definitions
// ---------------------------------------------------------------------------
/// The views of a list of strings.
pub open spec fn texts(v: Seq<String>) -> Seq<Seq<char>> {
    v.map_values(|s: String| s@)
}

/// The views of a list of pairs of strings.
pub open spec fn pairs(v: Seq<(String, String)>) -> Seq<(Seq<char>, Seq<char>)> {
    v.map_values(|e: (String, String)| (e.0@, e.1@))
}

/// Unicode `White_Space`.
pub open spec fn is_space(c: char) -> bool {
    ||| 0x09 <= c as u32 <= 0x0d
    ||| c as u32 == 0x20
    ||| c as u32 == 0x85
    ||| c as u32 == 0xa0
    ||| c as u32 == 0x1680
    ||| 0x2000 <= c as u32 <= 0x200a
    ||| c as u32 == 0x2028
    ||| c as u32 == 0x2029
    ||| c as u32 == 0x202f
    ||| c as u32 == 0x205f
    ||| c as u32 == 0x3000
}

/// `s` without its leading white space.
pub open spec fn trim_start(s: Seq<char>) -> Seq<char>
    decreases s.len(),
{
    if s.len() > 0 && is_space(s[0]) {
        trim_start(s.skip(1))
    } else {
        s
    }
}

/// `s` without its trailing white space.
pub open spec fn trim_end(s: Seq<char>) -> Seq<char>
    decreases s.len(),
{
    if s.len() > 0 && is_space(s.last()) {
        trim_end(s.drop_last())
    } else {
        s
    }
}

/// `s` without white space on either side.
pub open spec fn trim(s: Seq<char>) -> Seq<char> {
    trim_end(trim_start(s))
}

/// Position of the first `c` in `s`; `s.len()` when there is none.
pub open spec fn first(s: Seq<char>, c: char) -> int
    decreases s.len(),
{
    if s.len() == 0 || s[0] == c {
        0
    } else {
        1 + first(s.skip(1), c)
    }
}

/// Position of the last `c` in `s`; `-1` when there is none.
pub open spec fn last_of(s: Seq<char>, c: char) -> int
    decreases s.len(),
{
    if s.len() == 0 {
        -1
    } else if s.last() == c {
        s.len() - 1
    } else {
        last_of(s.drop_last(), c)
    }
}

/// The pieces of `s` between the occurrences of `c`: always at least one.
pub open spec fn split_on(s: Seq<char>, c: char) -> Seq<Seq<char>>
    decreases s.len(),
{
    let i = first(s, c);
    if i < 0 || i >= s.len() {
        seq![s]
    } else {
        seq![s.take(i)] + split_on(s.skip(i + 1), c)
    }
}

/// `parts` in order, with `sep` between neighbours.
pub open spec fn join(parts: Seq<Seq<char>>, sep: Seq<char>) -> Seq<char>
    decreases parts.len(),
{
    if parts.len() == 0 {
        Seq::empty()
    } else if parts.len() == 1 {
        parts[0]
    } else {
        join(parts.drop_last(), sep) + sep + parts.last()
    }
}

/// `s` without leading occurrences of `c`.
pub open spec fn trim_start_of(s: Seq<char>, c: char) -> Seq<char>
    decreases s.len(),
{
    if s.len() > 0 && s[0] == c {
        trim_start_of(s.skip(1), c)
    } else {
        s
    }
}

/// `s` without trailing occurrences of `c`.
pub open spec fn trim_end_of(s: Seq<char>, c: char) -> Seq<char>
    decreases s.len(),
{
    if s.len() > 0 && s.last() == c {
        trim_end_of(s.drop_last(), c)
    } else {
        s
    }
}

/// Position of the first occurrence of `p` in `s`; `-1` when there is none.
pub open spec fn find(s: Seq<char>, p: Seq<char>) -> int
    decreases s.len(),
{
    if p.is_prefix_of(s) {
        0
    } else if s.len() == 0 {
        -1
    } else {
        let r = find(s.skip(1), p);
        if r < 0 {
            -1
        } else {
            r + 1
        }
    }
}

/// A line without the carriage return it may end in.
pub open spec fn without_cr(s: Seq<char>) -> Seq<char> {
    if s.len() > 0 && s.last() == '\r' {
        s.drop_last()
    } else {
        s
    }
}

/// The lines of `s`: each ended by `\n` or `\r\n`, the last possibly by
/// neither.
pub open spec fn lines(s: Seq<char>) -> Seq<Seq<char>>
    decreases s.len(),
{
    let i = first(s, '\n');
    if s.len() == 0 {
        Seq::empty()
    } else if i < 0 || i >= s.len() {
        seq![s]
    } else {
        seq![without_cr(s.take(i))] + lines(s.skip(i + 1))
    }
}

/// `s` with every `c` replaced by `by`.
pub open spec fn replaced(s: Seq<char>, c: char, by: Seq<char>) -> Seq<char>
    decreases s.len(),
{
    if s.len() == 0 {
        Seq::empty()
    } else {
        replaced(s.drop_last(), c, by) + (if s.last() == c {
            by
        } else {
            seq![s.last()]
        })
    }
}

/// `s` with every occurrence of `p` replaced by `by`, from the left.
pub open spec fn replaced_text(s: Seq<char>, p: Seq<char>, by: Seq<char>) -> Seq<char>
    decreases s.len(),
{
    let at = find(s, p);
    if at < 0 || p.len() == 0 || at + p.len() > s.len() {
        s
    } else {
        s.take(at) + by + replaced_text(s.skip(at + p.len()), p, by)
    }
}

/// Lexicographic order by code point.
pub open spec fn less(a: Seq<char>, b: Seq<char>) -> bool
    decreases a.len(),
{
    if b.len() == 0 {
        false
    } else if a.len() == 0 {
        true
    } else if a[0] == b[0] {
        less(a.skip(1), b.skip(1))
    } else {
        a[0] < b[0]
    }
}

/// ASCII lower case of one character.
pub open spec fn lower_char(c: char) -> char {
    if 'A' <= c && c <= 'Z' {
        ((c as u32 + 32) as u32) as char
    } else {
        c
    }
}

/// ASCII lower case.
pub open spec fn lower(s: Seq<char>) -> Seq<char> {
    s.map_values(|c: char| lower_char(c))
}

// ---------------------------------------------------------------------------
// Executable operations
// ---------------------------------------------------------------------------
/// The characters of `s`.
pub fn chars_of(s: &str) -> (r: Vec<char>)
    ensures
        r@ == s@,
{
    let mut out: Vec<char> = Vec::new();
    for c in it: s.chars()
        invariant
            out@ == s@.take(it.index()),
            it.seq() == s@,
    {
        out.push(c);
    }
    out
}

/// The string made of `chars`.
pub fn string_of(chars: &[char]) -> (r: String)
    ensures
        r@ == chars@,
{
    let mut out = String::new();
    let mut i: usize = 0;
    while i < chars.len()
        invariant
            i <= chars.len(),
            out@ == chars@.take(i as int),
        decreases chars.len() - i,
    {
        out.push(chars[i]);
        i = i + 1;
    }
    out
}

/// Whether `c` is white space (`char::is_whitespace`).
pub fn space(c: char) -> (r: bool)
    ensures
        r == is_space(c),
{
    let u: u32 = c as u32;
    (0x09 <= u && u <= 0x0d) || u == 0x20 || u == 0x85 || u == 0xa0 || u == 0x1680 || (0x2000 <= u
        && u <= 0x200a) || u == 0x2028 || u == 0x2029 || u == 0x202f || u == 0x205f || u == 0x3000
}

/// A copy of the characters `from..to`.
pub fn slice_of(chars: &[char], from: usize, to: usize) -> (r: Vec<char>)
    requires
        from <= to <= chars@.len(),
    ensures
        r@ == chars@.subrange(from as int, to as int),
{
    let mut out: Vec<char> = Vec::new();
    let mut i: usize = from;
    while i < to
        invariant
            from <= i <= to <= chars@.len(),
            out@ == chars@.subrange(from as int, i as int),
        decreases to - i,
    {
        out.push(chars[i]);
        i = i + 1;
    }
    out
}

/// `s` without its leading white space.
pub fn trim_start_chars(s: &[char]) -> (r: Vec<char>)
    ensures
        r@ == trim_start(s@),
{
    let mut i: usize = 0;
    assert(s@.skip(0) =~= s@);
    while i < s.len() && space(s[i])
        invariant
            i <= s.len(),
            trim_start(s@) == trim_start(s@.skip(i as int)),
        decreases s.len() - i,
    {
        assert(s@.skip(i as int).skip(1) =~= s@.skip(i + 1));
        i = i + 1;
    }
    assert(s@.skip(i as int) =~= s@.subrange(i as int, s@.len() as int));
    slice_of(s, i, s.len())
}

/// `s` without its trailing white space.
pub fn trim_end_chars(s: &[char]) -> (r: Vec<char>)
    ensures
        r@ == trim_end(s@),
{
    let mut i: usize = s.len();
    assert(s@.take(i as int) =~= s@);
    while i > 0 && space(s[i - 1])
        invariant
            i <= s.len(),
            trim_end(s@) == trim_end(s@.take(i as int)),
        decreases i,
    {
        assert(s@.take(i as int).drop_last() =~= s@.take(i - 1));
        assert(s@.take(i as int).last() == s@[i - 1]);
        i = i - 1;
    }
    if i > 0 {
        assert(s@.take(i as int).last() == s@[i - 1]);
    }
    slice_of(s, 0, i)
}

/// `s` without white space on either side.
pub fn trim_chars(s: &[char]) -> (r: Vec<char>)
    ensures
        r@ == trim(s@),
{
    let t = trim_start_chars(s);
    trim_end_chars(t.as_slice())
}

/// `s` without white space on either side (`str::trim`).
pub fn trimmed(s: &str) -> (r: String)
    ensures
        r@ == trim(s@),
{
    let c = chars_of(s);
    let t = trim_chars(c.as_slice());
    string_of(t.as_slice())
}

/// Position of the first `c` at or after `from`; the length when there is none.
pub fn find_from(s: &[char], from: usize, c: char) -> (r: usize)
    requires
        from <= s@.len(),
    ensures
        r == from + first(s@.skip(from as int), c),
        from <= r <= s@.len(),
        r < s@.len() ==> s@[r as int] == c,
        forall|k: int| from <= k < r ==> s@[k] != c,
{
    let mut i: usize = from;
    while i < s.len() && s[i] != c
        invariant
            from <= i <= s.len(),
            from + first(s@.skip(from as int), c) == i + first(s@.skip(i as int), c),
            forall|k: int| from <= k < i ==> s@[k] != c,
        decreases s.len() - i,
    {
        assert(s@.skip(i as int).skip(1) =~= s@.skip(i + 1));
        i = i + 1;
    }
    i
}

/// Position of the last `c` (`str::rfind`).
pub fn rfind(s: &[char], c: char) -> (r: Option<usize>)
    ensures
        match r {
            Some(i) => i == last_of(s@, c) && i < s@.len() && s@[i as int] == c,
            None => last_of(s@, c) == -1,
        },
{
    let mut i: usize = s.len();
    assert(s@.take(i as int) =~= s@);
    while i > 0
        invariant
            i <= s.len(),
            last_of(s@, c) == last_of(s@.take(i as int), c),
        decreases i,
    {
        assert(s@.take(i as int).last() == s@[i - 1]);
        assert(s@.take(i as int).drop_last() =~= s@.take(i - 1));
        if s[i - 1] == c {
            return Some(i - 1);
        }
        i = i - 1;
    }
    None
}

/// The pieces of `s` between the occurrences of `c`.
pub fn split_chars(s: &[char], c: char) -> (r: Vec<Vec<char>>)
    ensures
        r@.map_values(|v: Vec<char>| v@) == split_on(s@, c),
{
    let mut out: Vec<Vec<char>> = Vec::new();
    let mut from: usize = 0;
    assert(s@.skip(0) =~= s@);
    assert(out@.map_values(|v: Vec<char>| v@) + split_on(s@, c) =~= split_on(s@, c));
    loop
        invariant
            from <= s.len(),
            out@.map_values(|v: Vec<char>| v@) + split_on(s@.skip(from as int), c) == split_on(
                s@,
                c,
            ),
        decreases s.len() - from,
    {
        let ghost before = out@;
        let ghost rest = s@.skip(from as int);
        let i: usize = find_from(s, from, c);
        let piece = slice_of(s, from, i);
        assert(piece@ =~= rest.take(i - from));
        out.push(piece);
        assert(out@.map_values(|v: Vec<char>| v@) =~= before.map_values(|v: Vec<char>| v@).push(
            piece@,
        ));
        if i == s.len() {
            assert(rest.take(i - from) =~= rest);
            assert(out@.map_values(|v: Vec<char>| v@) =~= before.map_values(|v: Vec<char>| v@)
                + split_on(rest, c));
            return out;
        }
        assert(rest.skip(i - from + 1) =~= s@.skip(i + 1));
        assert(out@.map_values(|v: Vec<char>| v@) + split_on(s@.skip(i + 1), c) =~= before.map_values(
            |v: Vec<char>| v@,
        ) + split_on(rest, c));
        from = i + 1;
    }
}

/// The pieces of `s` between the occurrences of `c` (`str::split`).
pub fn split_str(s: &str, c: char) -> (r: Vec<String>)
    ensures
        texts(r@) == split_on(s@, c),
{
    let chars = chars_of(s);
    let parts = split_chars(chars.as_slice(), c);
    let ghost want = parts@.map_values(|v: Vec<char>| v@);
    let mut out: Vec<String> = Vec::new();
    let mut i: usize = 0;
    while i < parts.len()
        invariant
            i <= parts.len(),
            want == parts@.map_values(|v: Vec<char>| v@),
            texts(out@) == want.take(i as int),
        decreases parts.len() - i,
    {
        let ghost before = out@;
        out.push(string_of(parts[i].as_slice()));
        assert(texts(out@) =~= texts(before).push(parts@[i as int]@));
        assert(want.take(i + 1) =~= want.take(i as int).push(want[i as int]));
        i = i + 1;
    }
    assert(want.take(i as int) =~= want);
    out
}

/// Whether `s` starts with `p`.
pub fn has_prefix(s: &[char], p: &[char]) -> (r: bool)
    ensures
        r == p@.is_prefix_of(s@),
{
    if p.len() > s.len() {
        return false;
    }
    let mut i: usize = 0;
    while i < p.len()
        invariant
            i <= p.len() <= s.len(),
            forall|k: int| 0 <= k < i ==> p@[k] == s@[k],
        decreases p.len() - i,
    {
        if p[i] != s[i] {
            assert(s@.subrange(0, p@.len() as int)[i as int] == s@[i as int]);
            return false;
        }
        i = i + 1;
    }
    assert(p@ =~= s@.subrange(0, p@.len() as int));
    true
}

/// Whether `s` ends with `p`.
pub fn has_suffix(s: &[char], p: &[char]) -> (r: bool)
    ensures
        r == p@.is_suffix_of(s@),
{
    if p.len() > s.len() {
        return false;
    }
    let off: usize = s.len() - p.len();
    let mut i: usize = 0;
    while i < p.len()
        invariant
            i <= p.len() <= s.len(),
            off == s.len() - p.len(),
            forall|k: int| 0 <= k < i ==> p@[k] == s@[off + k],
        decreases p.len() - i,
    {
        if p[i] != s[off + i] {
            assert(s@.subrange(off as int, s@.len() as int)[i as int] == s@[off + i]);
            return false;
        }
        i = i + 1;
    }
    assert(p@ =~= s@.subrange(off as int, s@.len() as int));
    true
}

/// Whether `s` starts with `p` (`str::starts_with`).
pub fn starts_with(s: &str, p: &str) -> (r: bool)
    ensures
        r == p@.is_prefix_of(s@),
{
    let a = chars_of(s);
    let b = chars_of(p);
    has_prefix(a.as_slice(), b.as_slice())
}

/// Whether `s` ends with `p` (`str::ends_with`).
pub fn ends_with(s: &str, p: &str) -> (r: bool)
    ensures
        r == p@.is_suffix_of(s@),
{
    let a = chars_of(s);
    let b = chars_of(p);
    has_suffix(a.as_slice(), b.as_slice())
}

/// What follows the prefix `p`, when `s` has it (`str::strip_prefix`).
pub fn strip_prefix(s: &str, p: &str) -> (r: Option<String>)
    ensures
        match r {
            Some(t) => p@.is_prefix_of(s@) && t@ == s@.skip(p@.len() as int),
            None => !p@.is_prefix_of(s@),
        },
{
    let a = chars_of(s);
    let b = chars_of(p);
    if has_prefix(a.as_slice(), b.as_slice()) {
        let t = slice_of(a.as_slice(), b.len(), a.len());
        assert(t@ =~= s@.skip(p@.len() as int));
        Some(string_of(t.as_slice()))
    } else {
        None
    }
}

/// ASCII lower case (`str::to_ascii_lowercase`).
pub fn lowered(s: &str) -> (r: String)
    ensures
        r@ == lower(s@),
{
    let a = chars_of(s);
    let mut out = String::new();
    let mut i: usize = 0;
    while i < a.len()
        invariant
            i <= a.len(),
            a@ == s@,
            out@ == lower(s@).take(i as int),
        decreases a.len() - i,
    {
        let c: char = a[i];
        if 'A' <= c && c <= 'Z' {
            let b: u8 = c as u8;
            out.push((b + 32) as char);
        } else {
            out.push(c);
        }
        assert(lower(s@).take(i + 1) =~= lower(s@).take(i as int).push(lower_char(s@[i as int])));
        i = i + 1;
    }
    assert(lower(s@).take(i as int) =~= lower(s@));
    out
}

/// `a` followed by `b`.
pub fn cat(a: &str, b: &str) -> (r: String)
    ensures
        r@ == a@ + b@,
{
    let mut out = a.to_owned();
    out.append(b);
    out
}

/// `a`, `b` and `c` in a row.
pub fn cat3(a: &str, b: &str, c: &str) -> (r: String)
    ensures
        r@ == a@ + b@ + c@,
{
    let mut out = a.to_owned();
    out.append(b);
    out.append(c);
    out
}

/// `parts` with `sep` between neighbours (`[String]::join`).
pub fn joined(parts: &[String], sep: &str) -> (r: String)
    ensures
        r@ == join(texts(parts@), sep@),
{
    let mut out = String::new();
    let mut i: usize = 0;
    while i < parts.len()
        invariant
            i <= parts.len(),
            out@ == join(texts(parts@).take(i as int), sep@),
        decreases parts.len() - i,
    {
        if i > 0 {
            out.append(sep);
        }
        out.append(parts[i].as_str());
        assert(texts(parts@).take(i + 1).drop_last() =~= texts(parts@).take(i as int));
        i = i + 1;
    }
    assert(texts(parts@).take(i as int) =~= texts(parts@));
    out
}

/// What `first` finds.
pub proof fn lemma_first(s: Seq<char>, c: char)
    ensures
        0 <= first(s, c) <= s.len(),
        first(s, c) < s.len() ==> s[first(s, c)] == c,
        forall|k: int| 0 <= k < first(s, c) ==> s[k] != c,
    decreases s.len(),
{
    if s.len() > 0 && s[0] != c {
        lemma_first(s.skip(1), c);
        assert forall|k: int| 0 <= k < first(s, c) implies s[k] != c by {
            if k > 0 {
                assert(s.skip(1)[k - 1] != c);
            }
        }
    }
}

/// Splitting gives at least one piece.
pub proof fn lemma_split_nonempty(s: Seq<char>, c: char)
    ensures
        split_on(s, c).len() > 0,
{
}

pub proof fn lemma_join_front(parts: Seq<Seq<char>>, sep: Seq<char>)
    requires
        parts.len() > 1,
    ensures
        join(parts, sep) == parts[0] + sep + join(parts.skip(1), sep),
    decreases parts.len(),
{
    let rest = parts.skip(1);
    if parts.len() == 2 {
        assert(parts.drop_last().len() == 1);
        assert(join(parts.drop_last(), sep) == parts[0]);
        assert(join(rest, sep) == parts[1]);
    } else {
        lemma_join_front(parts.drop_last(), sep);
        assert(parts.drop_last().skip(1) =~= rest.drop_last());
        assert(rest.last() == parts.last());
        assert(join(parts, sep) =~= parts[0] + sep + join(rest, sep));
    }
}

/// The pieces of a text joined again are the text.
pub proof fn law_join_split(s: Seq<char>, c: char)
    ensures
        join(split_on(s, c), seq![c]) == s,
    decreases s.len(),
{
    lemma_first(s, c);
    let i = first(s, c);
    if i < s.len() {
        let rest = s.skip(i + 1);
        law_join_split(rest, c);
        lemma_split_nonempty(rest, c);
        let parts = split_on(s, c);
        lemma_join_front(parts, seq![c]);
        assert(parts.skip(1) =~= split_on(rest, c));
        assert(s =~= s.take(i) + seq![c] + rest);
    }
}

/// The first line of a text.
pub proof fn lemma_first_line(l: Seq<char>, rest: Seq<char>)
    requires
        forall|i: int| 0 <= i < l.len() ==> #[trigger] l[i] != '\n',
    ensures
        lines(l + seq!['\n'] + rest) == seq![without_cr(l)] + lines(rest),
{
    let s = l + seq!['\n'] + rest;
    assert(s[l.len() as int] == '\n');
    lemma_first(s, '\n');
    let i = first(s, '\n');
    if i < l.len() {
        assert(s[i] == l[i]);
    }
    assert(i == l.len());
    assert(s.take(i) =~= l);
    assert(s.skip(i + 1) =~= rest);
}

/// No line holds a line feed.
pub proof fn lemma_lines_have_no_end(s: Seq<char>)
    ensures
        forall|i: int, j: int|
            0 <= i < lines(s).len() && 0 <= j < lines(s)[i].len() ==> #[trigger] lines(
                s,
            )[i][j] != '\n',
    decreases s.len(),
{
    if s.len() > 0 {
        lemma_first(s, '\n');
        let n = first(s, '\n');
        if 0 <= n < s.len() {
            lemma_lines_have_no_end(s.skip(n + 1));
            let l = without_cr(s.take(n));
            let more = lines(s.skip(n + 1));
            assert forall|i: int, j: int|
                0 <= i < lines(s).len() && 0 <= j < lines(s)[i].len() implies #[trigger] lines(
                s,
            )[i][j] != '\n' by {
                if i == 0 {
                    assert(lines(s)[0] == l);
                    assert(l[j] == s[j]);
                } else {
                    assert(lines(s)[i] == more[i - 1]);
                }
            }
        }
    }
}

/// `less` is a strict order.
pub proof fn lemma_less_irreflexive(a: Seq<char>)
    ensures
        !less(a, a),
    decreases a.len(),
{
    if a.len() > 0 {
        lemma_less_irreflexive(a.skip(1));
    }
}

pub proof fn lemma_less_transitive(a: Seq<char>, b: Seq<char>, c: Seq<char>)
    requires
        less(a, b),
        less(b, c),
    ensures
        less(a, c),
    decreases a.len(),
{
    if a.len() > 0 && b.len() > 0 && c.len() > 0 && a[0] == b[0] && b[0] == c[0] {
        lemma_less_transitive(a.skip(1), b.skip(1), c.skip(1));
    }
}

pub proof fn lemma_less_total(a: Seq<char>, b: Seq<char>)
    ensures
        a == b || less(a, b) || less(b, a),
    decreases a.len(),
{
    if a.len() == 0 {
        if b.len() == 0 {
            assert(a =~= b);
        }
    } else if b.len() > 0 {
        if a[0] == b[0] {
            lemma_less_total(a.skip(1), b.skip(1));
            if a.skip(1) == b.skip(1) {
                assert(a =~= seq![a[0]] + a.skip(1));
                assert(b =~= seq![b[0]] + b.skip(1));
            }
        }
    }
}

/// Whether `a` comes before `b`.
pub fn before(a: &str, b: &str) -> (r: bool)
    ensures
        r == less(a@, b@),
{
    let x = chars_of(a);
    let y = chars_of(b);
    let mut i: usize = 0;
    assert(a@.skip(0) =~= a@);
    assert(b@.skip(0) =~= b@);
    loop
        invariant
            x@ == a@,
            y@ == b@,
            i <= x.len(),
            i <= y.len(),
            less(a@, b@) == less(a@.skip(i as int), b@.skip(i as int)),
        decreases x.len() - i,
    {
        if i == y.len() {
            return false;
        }
        if i == x.len() {
            return true;
        }
        if x[i] != y[i] {
            return x[i] < y[i];
        }
        assert(a@.skip(i as int).skip(1) =~= a@.skip(i + 1));
        assert(b@.skip(i as int).skip(1) =~= b@.skip(i + 1));
        i = i + 1;
    }
}

/// `s` without `c` on either side (`str::trim_matches`).
pub fn trimmed_of(s: &str, c: char) -> (r: String)
    ensures
        r@ == trim_end_of(trim_start_of(s@, c), c),
{
    let t = trimmed_start_of(s, c);
    trimmed_end_of(t.as_str(), c)
}

/// `s` without trailing `c` (`str::trim_end_matches`).
pub fn trimmed_end_of(s: &str, c: char) -> (r: String)
    ensures
        r@ == trim_end_of(s@, c),
{
    let a = chars_of(s);
    let mut i: usize = a.len();
    assert(a@.take(i as int) =~= a@);
    while i > 0 && a[i - 1] == c
        invariant
            i <= a.len(),
            trim_end_of(a@, c) == trim_end_of(a@.take(i as int), c),
        decreases i,
    {
        assert(a@.take(i as int).drop_last() =~= a@.take(i - 1));
        assert(a@.take(i as int).last() == a@[i - 1]);
        i = i - 1;
    }
    if i > 0 {
        assert(a@.take(i as int).last() == a@[i - 1]);
    }
    let o = slice_of(a.as_slice(), 0, i);
    string_of(o.as_slice())
}

/// `s` without leading `c` (`str::trim_start_matches`).
pub fn trimmed_start_of(s: &str, c: char) -> (r: String)
    ensures
        r@ == trim_start_of(s@, c),
{
    let a = chars_of(s);
    let mut i: usize = 0;
    assert(a@.skip(0) =~= a@);
    while i < a.len() && a[i] == c
        invariant
            i <= a.len(),
            trim_start_of(a@, c) == trim_start_of(a@.skip(i as int), c),
        decreases a.len() - i,
    {
        assert(a@.skip(i as int).skip(1) =~= a@.skip(i + 1));
        i = i + 1;
    }
    assert(a@.skip(i as int) =~= a@.subrange(i as int, a@.len() as int));
    let o = slice_of(a.as_slice(), i, a.len());
    string_of(o.as_slice())
}

/// Position of the first occurrence of `p` in `s` (`str::find`).
pub fn position_of(s: &[char], p: &[char]) -> (r: Option<usize>)
    ensures
        match r {
            Some(i) => i == find(s@, p@) && i + p@.len() <= s@.len(),
            None => find(s@, p@) == -1,
        },
{
    let mut i: usize = 0;
    assert(s@.skip(0) =~= s@);
    loop
        invariant
            i <= s.len(),
            find(s@, p@) == (if find(s@.skip(i as int), p@) < 0 {
                -1
            } else {
                i + find(s@.skip(i as int), p@)
            }),
        decreases s.len() - i,
    {
        let rest = slice_of(s, i, s.len());
        assert(rest@ =~= s@.skip(i as int));
        if has_prefix(rest.as_slice(), p) {
            return Some(i);
        }
        if i == s.len() {
            return None;
        }
        assert(s@.skip(i as int).skip(1) =~= s@.skip(i + 1));
        i = i + 1;
    }
}

/// Whether `p` occurs in `s` (`str::contains`).
pub fn contains(s: &str, p: &str) -> (r: bool)
    ensures
        r == (find(s@, p@) >= 0),
{
    let a = chars_of(s);
    let b = chars_of(p);
    position_of(a.as_slice(), b.as_slice()).is_some()
}

/// The lines of `s` (`str::lines`).
pub fn lines_of(s: &str) -> (r: Vec<Vec<char>>)
    ensures
        r@.map_values(|v: Vec<char>| v@) == lines(s@),
{
    let a = chars_of(s);
    let mut out: Vec<Vec<char>> = Vec::new();
    let mut from: usize = 0;
    assert(a@.skip(0) =~= a@);
    assert(out@.map_values(|v: Vec<char>| v@) + lines(a@) =~= lines(a@));
    while from < a.len()
        invariant
            a@ == s@,
            from <= a.len(),
            out@.map_values(|v: Vec<char>| v@) + lines(a@.skip(from as int)) == lines(s@),
        decreases a.len() - from,
    {
        let ghost before = out@.map_values(|v: Vec<char>| v@);
        let ghost rest = a@.skip(from as int);
        let i: usize = find_from(a.as_slice(), from, '\n');
        if i == a.len() {
            let piece = slice_of(a.as_slice(), from, i);
            assert(piece@ =~= rest);
            out.push(piece);
            assert(out@.map_values(|v: Vec<char>| v@) =~= before + lines(rest));
            return out;
        }
        let end: usize = if i > from && a[i - 1] == '\r' {
            i - 1
        } else {
            i
        };
        let piece = slice_of(a.as_slice(), from, end);
        assert(rest.take(i - from) =~= a@.subrange(from as int, i as int));
        assert(piece@ =~= without_cr(rest.take(i - from)));
        out.push(piece);
        assert(rest.skip(i - from + 1) =~= a@.skip(i + 1));
        assert(out@.map_values(|v: Vec<char>| v@) + lines(a@.skip(i + 1)) =~= before + lines(rest));
        from = i + 1;
    }
    assert(lines(a@.skip(from as int)) =~= Seq::<Seq<char>>::empty());
    assert(out@.map_values(|v: Vec<char>| v@) + lines(a@.skip(from as int)) =~= out@.map_values(
        |v: Vec<char>| v@,
    ));
    out
}

/// `s` with every `c` replaced by `by` (`str::replace`).
pub fn replace_char(s: &str, c: char, by: &str) -> (r: String)
    ensures
        r@ == replaced(s@, c, by@),
{
    let a = chars_of(s);
    let mut out = String::new();
    let mut i: usize = 0;
    while i < a.len()
        invariant
            a@ == s@,
            i <= a.len(),
            out@ == replaced(s@.take(i as int), c, by@),
        decreases a.len() - i,
    {
        if a[i] == c {
            out.append(by);
        } else {
            out.push(a[i]);
        }
        assert(s@.take(i + 1).drop_last() =~= s@.take(i as int));
        assert(s@.take(i + 1).last() == s@[i as int]);
        i = i + 1;
    }
    assert(s@.take(i as int) =~= s@);
    out
}

/// `s` with every occurrence of `p` replaced by `by` (`str::replace`).
pub fn replace_text(s: &str, p: &str, by: &str) -> (r: String)
    requires
        p@.len() > 0,
    ensures
        r@ == replaced_text(s@, p@, by@),
{
    let a = chars_of(s);
    let b = chars_of(p);
    let mut out = String::new();
    let mut from: usize = 0;
    assert(a@.skip(0) =~= a@);
    assert(out@ + replaced_text(a@, p@, by@) =~= replaced_text(a@, p@, by@));
    loop
        invariant
            a@ == s@,
            b@ == p@,
            b@.len() > 0,
            from <= a.len(),
            out@ + replaced_text(a@.skip(from as int), p@, by@) == replaced_text(s@, p@, by@),
        decreases a.len() - from,
    {
        let ghost before = out@;
        let rest = slice_of(a.as_slice(), from, a.len());
        assert(rest@ =~= a@.skip(from as int));
        match position_of(rest.as_slice(), b.as_slice()) {
            Some(at) => {
                let head = slice_of(rest.as_slice(), 0, at);
                assert(head@ =~= rest@.take(at as int));
                let head = string_of(head.as_slice());
                out.append(head.as_str());
                out.append(by);
                assert(rest@.skip(at + p@.len()) =~= a@.skip(from + at + p@.len()));
                assert(out@ + replaced_text(a@.skip(from + at + p@.len()), p@, by@) =~= before
                    + replaced_text(rest@, p@, by@));
                from = from + at + b.len();
            },
            None => {
                let tail = string_of(rest.as_slice());
                out.append(tail.as_str());
                return out;
            },
        }
    }
}

/// The bytes of `s`.
pub fn bytes_of(s: &str) -> (r: Vec<u8>)
    ensures
        r@ == vstd::utf8::encode_utf8(s@),
{
    s.as_bytes_vec()
}

/// The code point of a character.
pub fn code_point(c: char) -> (r: u32)
    ensures
        r as int == c as int,
        r <= 0x10ffff,
{
    c as u32
}

/// Whether `a` and `b` hold the same characters.
pub fn same(a: &str, b: &str) -> (r: bool)
    ensures
        r == (a@ == b@),
{
    *a == *b
}

/// Whether a list holds a text.
pub fn has_text(list: &Vec<String>, t: &str) -> (r: bool)
    ensures
        r == texts(list@).contains(t@),
{
    let ghost all = texts(list@);
    let mut i: usize = 0;
    while i < list.len()
        invariant
            i <= list.len(),
            all == texts(list@),
            forall|k: int| 0 <= k < i ==> all[k] != t@,
        decreases list.len() - i,
    {
        assert(all[i as int] == list@[i as int]@);
        if same(list[i].as_str(), t) {
            return true;
        }
        i = i + 1;
    }
    false
}

/// A copy of a list of texts.
pub fn copy_texts(v: &Vec<String>) -> (r: Vec<String>)
    ensures
        texts(r@) == texts(v@),
{
    let ghost all = texts(v@);
    let mut out: Vec<String> = Vec::new();
    let mut i: usize = 0;
    while i < v.len()
        invariant
            i <= v.len(),
            all == texts(v@),
            texts(out@) == all.take(i as int),
        decreases v.len() - i,
    {
        let ghost before = texts(out@);
        out.push(v[i].clone());
        assert(texts(out@) =~= before.push(v@[i as int]@));
        i = i + 1;
    }
    assert(all.take(i as int) =~= all);
    out
}

/// A copy of a list of pairs of texts.
pub fn copy_pairs(v: &Vec<(String, String)>) -> (r: Vec<(String, String)>)
    ensures
        pairs(r@) == pairs(v@),
{
    let ghost all = pairs(v@);
    let mut out: Vec<(String, String)> = Vec::new();
    let mut i: usize = 0;
    while i < v.len()
        invariant
            i <= v.len(),
            all == pairs(v@),
            pairs(out@) == all.take(i as int),
        decreases v.len() - i,
    {
        let ghost before = pairs(out@);
        out.push((v[i].0.clone(), v[i].1.clone()));
        assert(pairs(out@) =~= before.push((v@[i as int].0@, v@[i as int].1@)));
        i = i + 1;
    }
    assert(all.take(i as int) =~= all);
    out
}

// ---------------------------------------------------------------------------
// Replacing and cutting: laws
// ---------------------------------------------------------------------------
/// Text is replaced piece by piece.
pub proof fn law_replaced_cat(s: Seq<char>, t: Seq<char>, c: char, by: Seq<char>)
    ensures
        replaced(s + t, c, by) == replaced(s, c, by) + replaced(t, c, by),
    decreases t.len(),
{
    if t.len() == 0 {
        assert(s + t =~= s);
        assert(replaced(s, c, by) + replaced(t, c, by) =~= replaced(s, c, by));
    } else {
        law_replaced_cat(s, t.drop_last(), c, by);
        assert((s + t).drop_last() =~= s + t.drop_last());
        assert(replaced(s + t, c, by) =~= replaced(s, c, by) + replaced(t, c, by));
    }
}

/// A character becomes its replacement; text without it stays as it is.
pub proof fn law_replaced(s: Seq<char>, c: char, by: Seq<char>)
    ensures
        replaced(seq![c], c, by) == by,
        (forall|i: int| 0 <= i < s.len() ==> s[i] != c) ==> replaced(s, c, by) == s,
    decreases s.len(),
{
    let one = seq![c];
    assert(one.drop_last() =~= Seq::empty());
    assert(replaced(one.drop_last(), c, by) =~= Seq::empty());
    assert(replaced(one, c, by) =~= by);
    if s.len() > 0 && (forall|i: int| 0 <= i < s.len() ==> s[i] != c) {
        law_replaced(s.drop_last(), c, by);
        assert(replaced(s, c, by) =~= s);
    } else if s.len() == 0 {
        assert(replaced(s, c, by) =~= s);
    }
}

/// An occurrence that no other precedes is the first.
pub proof fn law_find_first(s: Seq<char>, p: Seq<char>, at: int)
    requires
        0 <= at <= s.len(),
        p.is_prefix_of(s.skip(at)),
        forall|i: int| 0 <= i < at ==> !p.is_prefix_of(#[trigger] s.skip(i)),
    ensures
        find(s, p) == at,
    decreases at,
{
    assert(s.skip(0) =~= s);
    if at > 0 {
        let rest = s.skip(1);
        assert(rest.skip(at - 1) =~= s.skip(at));
        assert forall|i: int| 0 <= i < at - 1 implies !p.is_prefix_of(#[trigger] rest.skip(i)) by {
            assert(rest.skip(i) =~= s.skip(i + 1));
        }
        law_find_first(rest, p, at - 1);
    }
}

/// Text in which something does not occur is not found to hold it.
pub proof fn law_find_absent(s: Seq<char>, p: Seq<char>)
    requires
        forall|i: int| 0 <= i <= s.len() ==> !p.is_prefix_of(#[trigger] s.skip(i)),
    ensures
        find(s, p) == -1,
    decreases s.len(),
{
    assert(s.skip(0) =~= s);
    if s.len() > 0 {
        let rest = s.skip(1);
        assert forall|i: int| 0 <= i <= rest.len() implies !p.is_prefix_of(
            #[trigger] rest.skip(i),
        ) by {
            assert(rest.skip(i) =~= s.skip(i + 1));
        }
        law_find_absent(rest, p);
    }
}

/// The first occurrence is replaced, and what follows it goes on from there; text
/// without one stays as it is.
pub proof fn law_replaced_text(a: Seq<char>, p: Seq<char>, b: Seq<char>, by: Seq<char>)
    requires
        p.len() > 0,
    ensures
        (forall|i: int| 0 <= i < a.len() ==> !p.is_prefix_of(#[trigger] (a + p + b).skip(i)))
            ==> replaced_text(a + p + b, p, by) == a + by + replaced_text(b, p, by),
        (forall|i: int| 0 <= i <= a.len() ==> !p.is_prefix_of(#[trigger] a.skip(i)))
            ==> replaced_text(a, p, by) == a,
{
    let s = a + p + b;
    if forall|i: int| 0 <= i < a.len() ==> !p.is_prefix_of(#[trigger] s.skip(i)) {
        let at = a.len() as int;
        assert(s.skip(at) =~= p + b);
        assert(p =~= (p + b).subrange(0, p.len() as int));
        law_find_first(s, p, at);
        assert(s.take(at) =~= a);
        assert(s.skip(at + p.len()) =~= b);
    }
    if forall|i: int| 0 <= i <= a.len() ==> !p.is_prefix_of(#[trigger] a.skip(i)) {
        law_find_absent(a, p);
    }
}

/// What is cut at the front is as much as there is of the character, and no more.
pub proof fn law_trim_start_of(n: nat, s: Seq<char>, c: char)
    requires
        s.len() > 0 ==> s[0] != c,
    ensures
        trim_start_of(Seq::new(n, |i: int| c) + s, c) == s,
    decreases n,
{
    let all = Seq::new(n, |i: int| c) + s;
    if n == 0 {
        assert(all =~= s);
    } else {
        law_trim_start_of((n - 1) as nat, s, c);
        assert(all.skip(1) =~= Seq::new((n - 1) as nat, |i: int| c) + s);
    }
}

/// What is cut at the end is as much as there is of the character, and no more.
pub proof fn law_trim_end_of(s: Seq<char>, n: nat, c: char)
    requires
        s.len() > 0 ==> s.last() != c,
    ensures
        trim_end_of(s + Seq::new(n, |i: int| c), c) == s,
    decreases n,
{
    let all = s + Seq::new(n, |i: int| c);
    if n == 0 {
        assert(all =~= s);
    } else {
        law_trim_end_of(s, (n - 1) as nat, c);
        assert(all.drop_last() =~= s + Seq::new((n - 1) as nat, |i: int| c));
    }
}

proof fn lemma_trim_start(a: Seq<char>, s: Seq<char>)
    requires
        forall|i: int| 0 <= i < a.len() ==> is_space(#[trigger] a[i]),
        s.len() > 0 ==> !is_space(s[0]),
    ensures
        trim_start(a + s) == s,
    decreases a.len(),
{
    if a.len() == 0 {
        assert(a + s =~= s);
    } else {
        assert((a + s)[0] == a[0]);
        assert((a + s).skip(1) =~= a.skip(1) + s);
        lemma_trim_start(a.skip(1), s);
    }
}

proof fn lemma_trim_end(s: Seq<char>, b: Seq<char>)
    requires
        forall|i: int| 0 <= i < b.len() ==> is_space(#[trigger] b[i]),
        s.len() > 0 ==> !is_space(s.last()),
    ensures
        trim_end(s + b) == s,
    decreases b.len(),
{
    if b.len() == 0 {
        assert(s + b =~= s);
    } else {
        assert((s + b).last() == b.last());
        assert((s + b).drop_last() =~= s + b.drop_last());
        lemma_trim_end(s, b.drop_last());
    }
}

/// White space around a text is trimmed, and nothing else.
pub proof fn law_trim(a: Seq<char>, s: Seq<char>, b: Seq<char>)
    requires
        forall|i: int| 0 <= i < a.len() ==> is_space(#[trigger] a[i]),
        forall|i: int| 0 <= i < b.len() ==> is_space(#[trigger] b[i]),
        s.len() > 0,
        !is_space(s[0]) && !is_space(s.last()),
    ensures
        trim(a + s + b) == s,
        trim_start(a + s + b) == s + b,
        trim_end(a + s + b) == a + s,
{
    assert(a + s + b =~= a + (s + b));
    lemma_trim_start(a, s + b);
    lemma_trim_end(s, b);
    lemma_trim_end(a + s, b);
}

proof fn lemma_first_cat(a: Seq<char>, c: char, b: Seq<char>)
    requires
        forall|i: int| 0 <= i < a.len() ==> #[trigger] a[i] != c,
    ensures
        first(a + seq![c] + b, c) == a.len(),
        first(a, c) == a.len(),
{
    let s = a + seq![c] + b;
    lemma_first(s, c);
    lemma_first(a, c);
    assert(s[a.len() as int] == c);
    let i = first(s, c);
    if i < a.len() {
        assert(s[i] == a[i]);
    }
    let j = first(a, c);
    if j < a.len() {
        assert(a[j] == c);
    }
}

/// Text is split where the character stands: in front of the first one is the first
/// piece, behind it are the others.
pub proof fn law_split_on(a: Seq<char>, c: char, b: Seq<char>)
    requires
        forall|i: int| 0 <= i < a.len() ==> #[trigger] a[i] != c,
    ensures
        split_on(a, c) == seq![a],
        split_on(a + seq![c] + b, c) == seq![a] + split_on(b, c),
{
    lemma_first_cat(a, c, b);
    let s = a + seq![c] + b;
    assert(s.take(a.len() as int) =~= a);
    assert(s.skip(a.len() as int + 1) =~= b);
}

/// The pieces of two texts with the character between them are those of both.
pub proof fn law_split_cat(a: Seq<char>, c: char, b: Seq<char>)
    ensures
        split_on(a + seq![c] + b, c) == split_on(a, c) + split_on(b, c),
    decreases a.len(),
{
    lemma_first(a, c);
    let i = first(a, c);
    if i >= a.len() {
        law_split_on(a, c, b);
    } else {
        let front = a.take(i);
        let rest = a.skip(i + 1);
        law_split_cat(rest, c, b);
        law_split_on(front, c, rest);
        law_split_on(front, c, rest + seq![c] + b);
        assert(front + seq![c] + rest =~= a);
        assert(front + seq![c] + (rest + seq![c] + b) =~= a + seq![c] + b);
        assert(split_on(a + seq![c] + b, c) =~= split_on(a, c) + split_on(b, c));
    }
}

/// A line ends at its line feed; a carriage return before that is no part of it.
pub proof fn law_lines(l: Seq<char>, rest: Seq<char>)
    requires
        forall|i: int| 0 <= i < l.len() ==> #[trigger] l[i] != '\n',
        l.len() > 0 ==> l.last() != '\r',
    ensures
        lines(l + seq!['\n'] + rest) == seq![l] + lines(rest),
        lines(l + seq!['\r', '\n'] + rest) == seq![l] + lines(rest),
        l.len() > 0 ==> lines(l) == seq![l],
{
    lemma_first_line(l, rest);
    let m = l.push('\r');
    assert(m + seq!['\n'] + rest =~= l + seq!['\r', '\n'] + rest);
    lemma_first_line(m, rest);
    assert(without_cr(m) =~= l);
    lemma_first_cat(l, '\n', rest);
}

/// Lower case changes the letters from A to Z, one for one, and nothing else.
pub proof fn law_lower(s: Seq<char>, i: int)
    requires
        0 <= i < s.len(),
    ensures
        lower(s).len() == s.len(),
        'A' <= s[i] <= 'Z' ==> lower(s)[i] as int == s[i] as int + 32,
        !('A' <= s[i] <= 'Z') ==> lower(s)[i] == s[i],
{
}

/// Something is found in a text exactly if it occurs there.
pub proof fn law_find(s: Seq<char>, p: Seq<char>)
    ensures
        find(s, p) >= 0 <==> exists|i: int| 0 <= i <= s.len() && p.is_prefix_of(#[trigger] s.skip(i)),
        find(s, p) >= 0 ==> find(s, p) <= s.len() && p.is_prefix_of(s.skip(find(s, p))),
        find(s, p) >= -1,
    decreases s.len(),
{
    assert(s.skip(0) =~= s);
    if !p.is_prefix_of(s) && s.len() > 0 {
        let rest = s.skip(1);
        law_find(rest, p);
        if find(rest, p) >= 0 {
            assert(rest.skip(find(rest, p)) =~= s.skip(find(rest, p) + 1));
        }
        if exists|i: int| 0 <= i <= s.len() && p.is_prefix_of(#[trigger] s.skip(i)) {
            let i = choose|i: int| 0 <= i <= s.len() && p.is_prefix_of(#[trigger] s.skip(i));
            assert(i > 0);
            assert(rest.skip(i - 1) =~= s.skip(i));
        }
    } else if s.len() == 0 && !p.is_prefix_of(s) {
        assert forall|i: int| 0 <= i <= s.len() implies !p.is_prefix_of(#[trigger] s.skip(i)) by {
            assert(s.skip(i) =~= s);
        }
    }
}

/// The first occurrence of a character is behind everything that has none.
pub proof fn law_first(a: Seq<char>, c: char, b: Seq<char>)
    requires
        forall|i: int| 0 <= i < a.len() ==> #[trigger] a[i] != c,
    ensures
        first(a + seq![c] + b, c) == a.len(),
        first(a, c) == a.len(),
{
    lemma_first_cat(a, c, b);
}

/// The last occurrence of a character is before everything that has none.
pub proof fn law_last_of(a: Seq<char>, c: char, b: Seq<char>)
    requires
        forall|i: int| 0 <= i < b.len() ==> #[trigger] b[i] != c,
    ensures
        last_of(a + seq![c] + b, c) == a.len(),
        last_of(b, c) == -1,
    decreases b.len(),
{
    let s = a + seq![c] + b;
    if b.len() > 0 {
        let h = b.drop_last();
        assert forall|i: int| 0 <= i < h.len() implies #[trigger] h[i] != c by {
            assert(h[i] == b[i]);
        }
        law_last_of(a, c, h);
        assert(s.drop_last() =~= a + seq![c] + h);
        assert(s.last() == b[b.len() - 1]);
    }
}

/// Texts are ordered by the first characters that differ; what another begins with
/// stands before it.
pub proof fn law_less(a: Seq<char>, c: char, x: Seq<char>, d: char, y: Seq<char>)
    ensures
        c != d ==> (less(a + seq![c] + x, a + seq![d] + y) <==> c < d),
        less(a, a + seq![c] + x),
        !less(a + seq![c] + x, a),
    decreases a.len(),
{
    let l = a + seq![c] + x;
    let r = a + seq![d] + y;
    if a.len() > 0 {
        let b = a.skip(1);
        law_less(b, c, x, d, y);
        assert(l[0] == a[0] && r[0] == a[0]);
        assert(l.skip(1) =~= b + seq![c] + x);
        assert(r.skip(1) =~= b + seq![d] + y);
    } else {
        assert(l[0] == c && r[0] == d);
    }
}

} // verus!
