//! Character-level helpers shared by the line protocols: line splitting,
//! whitespace, and conversions between `String` and `Vec<char>`.
use vstd::prelude::*;

verus! {

/// The characters that carry Unicode's `White_Space` property.
pub open spec fn is_white_space(c: char) -> bool {
    ||| ('\t' <= c && c <= '\r')
    ||| c == ' '
    ||| c == '\u{85}'
    ||| c == '\u{a0}'
    ||| c == '\u{1680}'
    ||| ('\u{2000}' <= c && c <= '\u{200a}')
    ||| c == '\u{2028}'
    ||| c == '\u{2029}'
    ||| c == '\u{202f}'
    ||| c == '\u{205f}'
    ||| c == '\u{3000}'
}

/// `s` without its leading whitespace.
pub open spec fn trim_start_spec(s: Seq<char>) -> Seq<char>
    decreases s.len(),
{
    if s.len() > 0 && is_white_space(s[0]) {
        trim_start_spec(s.drop_first())
    } else {
        s
    }
}

/// `s` without its trailing whitespace.
pub open spec fn trim_end_spec(s: Seq<char>) -> Seq<char>
    decreases s.len(),
{
    if s.len() > 0 && is_white_space(s.last()) {
        trim_end_spec(s.drop_last())
    } else {
        s
    }
}

/// `s` without leading and trailing whitespace.
pub open spec fn trim_spec(s: Seq<char>) -> Seq<char> {
    trim_end_spec(trim_start_spec(s))
}

/// A line as it stands before its `'\n'`: one trailing `'\r'` is dropped.
pub open spec fn strip_cr(line: Seq<char>) -> Seq<char> {
    if line.len() > 0 && line.last() == '\r' {
        line.drop_last()
    } else {
        line
    }
}

/// Splits `s` at each `'\n'`: the lines that a `'\n'` ends (without their
/// line ending), and the text after the last `'\n'`.
pub open spec fn split_lines_spec(s: Seq<char>) -> (Seq<Seq<char>>, Seq<char>)
    decreases s.len(),
{
    if s.len() == 0 {
        (seq![], seq![])
    } else {
        let (done, rest) = split_lines_spec(s.drop_last());
        if s.last() == '\n' {
            (done.push(strip_cr(rest)), seq![])
        } else {
            (done, rest.push(s.last()))
        }
    }
}

/// The lines of `s`, where the last line ending is optional and an empty
/// text has no line.
pub open spec fn lines_spec(s: Seq<char>) -> Seq<Seq<char>> {
    let (done, rest) = split_lines_spec(s);
    if rest.len() > 0 {
        done.push(rest)
    } else {
        done
    }
}

/// Whether `s` begins with `c`.
pub open spec fn starts_with(s: Seq<char>, c: char) -> bool {
    s.len() > 0 && s[0] == c
}

/// Relies on `char::is_whitespace`: true exactly for the `White_Space` characters.
#[verifier::external_body]
pub(crate) fn is_whitespace(c: char) -> (r: bool)
    ensures
        r == is_white_space(c),
{
    c.is_whitespace()
}

/// Relies on `str::trim`: leading and trailing whitespace removed.
#[verifier::external_body]
pub(crate) fn trim(s: &str) -> (r: String)
    ensures
        r@ == trim_spec(s@),
{
    String::from(s.trim())
}

/// Relies on `str::chars`: the characters of `s`, in order.
#[verifier::external_body]
pub(crate) fn chars_of(s: &str) -> (r: Vec<char>)
    ensures
        r@ == s@,
{
    s.chars().collect()
}

/// Relies on `String::from_iter`: the string made of the characters of `v`.
#[verifier::external_body]
pub(crate) fn string_of(v: &Vec<char>) -> (r: String)
    ensures
        r@ == v@,
{
    v.iter().collect()
}

/// Splits `text` into the lines that a `'\n'` ends and the text after the
/// last `'\n'`.
pub fn split_lines(text: &Vec<char>) -> (r: (Vec<String>, Vec<char>))
    ensures
        r.0@.map_values(|l: String| l@) == split_lines_spec(text@).0,
        r.1@ == split_lines_spec(text@).1,
{
    let mut done: Vec<String> = Vec::new();
    let mut rest: Vec<char> = Vec::new();
    let mut i: usize = 0;
    while i < text.len()
        invariant
            i <= text@.len(),
            done@.map_values(|l: String| l@) == split_lines_spec(text@.take(i as int)).0,
            rest@ == split_lines_spec(text@.take(i as int)).1,
        decreases text@.len() - i,
    {
        let c = text[i];
        assert(text@.take(i + 1).drop_last() == text@.take(i as int));
        if c == '\n' {
            if rest.len() > 0 && rest[rest.len() - 1] == '\r' {
                rest.pop();
            }
            let line = string_of(&rest);
            done.push(line);
            rest = Vec::new();
            assert(done@.map_values(|l: String| l@) =~= split_lines_spec(text@.take(i + 1)).0);
        } else {
            rest.push(c);
        }
        i = i + 1;
    }
    assert(text@.take(i as int) == text@);
    (done, rest)
}

/// The lines of `text`; the last line ending is optional.
pub fn lines(text: &str) -> (r: Vec<String>)
    ensures
        r@.map_values(|l: String| l@) == lines_spec(text@),
{
    let chars = chars_of(text);
    let (mut done, rest) = split_lines(&chars);
    if rest.len() > 0 {
        let last = string_of(&rest);
        done.push(last);
        assert(done@.map_values(|l: String| l@) =~= lines_spec(text@));
    }
    done
}

/// Relies on `String::push`: `c` added at the end of `s`.
#[verifier::external_body]
pub(crate) fn push_char(s: &mut String, c: char)
    ensures
        final(s)@ == old(s)@.push(c),
{
    s.push(c)
}

/// Whether `c` occurs in `s`.
pub fn contains_char(s: &str, c: char) -> (r: bool)
    ensures
        r == s@.contains(c),
{
    let v = chars_of(s);
    let mut i: usize = 0;
    while i < v.len()
        invariant
            v@ == s@,
            i <= v@.len(),
            forall|j: int| 0 <= j < i ==> v@[j] != c,
        decreases v@.len() - i,
    {
        if v[i] == c {
            return true;
        }
        i = i + 1;
    }
    false
}

/// Relies on `String::from_utf8_lossy`: the text of `b`, with each invalid
/// sequence replaced by U+FFFD.
pub uninterp spec fn utf8_lossy(b: Seq<u8>) -> Seq<char>;

/// Relies on `String::from_utf8_lossy`; the result depends on `b` alone.
#[verifier::external_body]
pub(crate) fn decode_lossy(b: &[u8]) -> (r: Vec<char>)
    ensures
        r@ == utf8_lossy(b@),
{
    String::from_utf8_lossy(b).chars().collect()
}

/// The characters of `v` from `lo` up to `hi`.
pub fn sub_chars(v: &Vec<char>, lo: usize, hi: usize) -> (r: Vec<char>)
    requires
        lo <= hi <= v@.len(),
    ensures
        r@ == v@.subrange(lo as int, hi as int),
{
    let mut r: Vec<char> = Vec::new();
    let mut i = lo;
    while i < hi
        invariant
            lo <= i <= hi,
            hi <= v@.len(),
            r@ == v@.subrange(lo as int, i as int),
        decreases hi - i,
    {
        r.push(v[i]);
        i = i + 1;
        assert(r@ =~= v@.subrange(lo as int, i as int));
    }
    r
}

} // verus!
