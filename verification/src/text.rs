//! Character-level helpers on strings: collecting the characters of a string,
//! Unicode whitespace, trimming and splitting into lines.

use vstd::prelude::*;

verus! {

broadcast use vstd::string::group_string_axioms;

/// The characters of `s`, in order.
pub fn str_chars(s: &str) -> (out: Vec<char>)
    ensures
        out@ == s@,
{
    let mut out: Vec<char> = Vec::new();
    for c in it: s.chars()
        invariant
            it.seq() == s@,
            out@ == it.seq().take(it.index() as int),
    {
        out.push(c);
    }
    out
}

/// Collects characters into a `String` (std's `FromIterator<&char> for String`),
/// which appends them in order: the result holds exactly `cs`.
#[verifier::external_body]
pub fn string_from_chars(cs: &[char]) -> (s: String)
    ensures
        s@ == cs@,
{
    cs.iter().collect()
}

/// Unicode `White_Space`, the property behind `char::is_whitespace`.
pub open spec fn is_white_space(c: char) -> bool {
    ||| c == ' '
    ||| '\u{9}' <= c <= '\u{d}'
    ||| c == '\u{85}'
    ||| c == '\u{a0}'
    ||| c == '\u{1680}'
    ||| '\u{2000}' <= c <= '\u{200a}'
    ||| c == '\u{2028}'
    ||| c == '\u{2029}'
    ||| c == '\u{202f}'
    ||| c == '\u{205f}'
    ||| c == '\u{3000}'
}

/// Whether `c` is Unicode whitespace.
pub fn is_whitespace(c: char) -> (b: bool)
    ensures
        b == is_white_space(c),
{
    c == ' ' || ('\u{9}' <= c && c <= '\u{d}') || c == '\u{85}' || c == '\u{a0}' || c
        == '\u{1680}' || ('\u{2000}' <= c && c <= '\u{200a}') || c == '\u{2028}' || c
        == '\u{2029}' || c == '\u{202f}' || c == '\u{205f}' || c == '\u{3000}'
}

/// `s` without its leading whitespace.
pub open spec fn trim_start_spec(s: Seq<char>) -> Seq<char>
    decreases s.len(),
{
    if s.len() > 0 && is_white_space(s[0]) {
        trim_start_spec(s.drop_first())
    } else {
        s
    }
}

/// `s` without its trailing whitespace.
pub open spec fn trim_end_spec(s: Seq<char>) -> Seq<char>
    decreases s.len(),
{
    if s.len() > 0 && is_white_space(s.last()) {
        trim_end_spec(s.drop_last())
    } else {
        s
    }
}

/// `s` without leading and trailing whitespace (what `str::trim` returns).
pub open spec fn trim_spec(s: Seq<char>) -> Seq<char> {
    trim_end_spec(trim_start_spec(s))
}

/// The bounds `(a, b)` of the trimmed part of `cs`.
pub fn trim_bounds(cs: &[char]) -> (r: (usize, usize))
    ensures
        r.0 <= r.1 <= cs@.len(),
        trim_spec(cs@) == cs@.subrange(r.0 as int, r.1 as int),
{
    let len = cs.len();
    let mut a: usize = 0;
    assert(cs@.subrange(0, len as int) =~= cs@);
    while a < len && is_whitespace(cs[a])
        invariant
            len == cs@.len(),
            a <= len,
            trim_start_spec(cs@) == trim_start_spec(cs@.subrange(a as int, len as int)),
        decreases len - a,
    {
        assert(cs@.subrange(a as int, len as int).drop_first() =~= cs@.subrange(
            a + 1,
            len as int,
        ));
        a = a + 1;
    }
    let mut b: usize = len;
    assert(trim_start_spec(cs@.subrange(a as int, len as int)) == cs@.subrange(
        a as int,
        len as int,
    ));
    while b > a && is_whitespace(cs[b - 1])
        invariant
            len == cs@.len(),
            a <= b <= len,
            trim_spec(cs@) == trim_end_spec(cs@.subrange(a as int, b as int)),
        decreases b - a,
    {
        assert(cs@.subrange(a as int, b as int).drop_last() =~= cs@.subrange(
            a as int,
            b - 1,
        ));
        b = b - 1;
    }
    (a, b)
}

/// `str::trim`: `s` without leading and trailing Unicode whitespace.
pub fn trim(s: &str) -> (out: String)
    ensures
        out@ == trim_spec(s@),
{
    let cs = str_chars(s);
    let (a, b) = trim_bounds(cs.as_slice());
    string_from_chars(vstd::slice::slice_subrange(cs.as_slice(), a, b))
}

/// A line that ended at a line feed, without a carriage return right before it.
pub open spec fn strip_cr(line: Seq<char>) -> Seq<char> {
    if line.len() > 0 && line.last() == '\r' {
        line.drop_last()
    } else {
        line
    }
}

/// Scanning `s` from the left: the lines ended so far, and the characters of
/// the line that is still open.
pub open spec fn lines_state(s: Seq<char>) -> (Seq<Seq<char>>, Seq<char>)
    decreases s.len(),
{
    if s.len() == 0 {
        (seq![], seq![])
    } else {
        let prev = lines_state(s.drop_last());
        if s.last() == '\n' {
            (prev.0.push(strip_cr(prev.1)), seq![])
        } else {
            (prev.0, prev.1.push(s.last()))
        }
    }
}

/// The lines of `s` as `str::lines` yields them: split at `\n` or `\r\n`, the
/// terminators dropped, and no empty line after a final terminator.
pub open spec fn lines_spec(s: Seq<char>) -> Seq<Seq<char>> {
    let st = lines_state(s);
    if st.1.len() > 0 {
        st.0.push(st.1)
    } else {
        st.0
    }
}

/// The view of each string in a vector.
pub open spec fn strings_view(v: Seq<String>) -> Seq<Seq<char>> {
    v.map_values(|l: String| l@)
}

/// `str::lines`: the lines of `s`.
pub fn split_lines(s: &str) -> (out: Vec<String>)
    ensures
        strings_view(out@) == lines_spec(s@),
{
    let cs = str_chars(s);
    let len = cs.len();
    let mut done: Vec<String> = Vec::new();
    let mut cur: Vec<char> = Vec::new();
    let mut i: usize = 0;
    while i < len
        invariant
            len == cs@.len(),
            cs@ == s@,
            i <= len,
            strings_view(done@) == lines_state(s@.take(i as int)).0,
            cur@ == lines_state(s@.take(i as int)).1,
        decreases len - i,
    {
        let c = cs[i];
        let ghost pre = s@.take(i as int);
        let ghost next = s@.take(i + 1);
        assert(next.drop_last() =~= pre);
        if c == '\n' {
            let n = cur.len();
            if n > 0 && cur[n - 1] == '\r' {
                cur.pop();
            }
            let line = string_from_chars(cur.as_slice());
            done.push(line);
            cur = Vec::new();
            assert(strings_view(done@) =~= lines_state(next).0);
        } else {
            cur.push(c);
        }
        i = i + 1;
    }
    assert(s@.take(len as int) =~= s@);
    if cur.len() > 0 {
        let line = string_from_chars(cur.as_slice());
        done.push(line);
        assert(strings_view(done@) =~= lines_spec(s@));
    }
    done
}

/// A text that ends with a line ending has the same lines as the text
/// without it: a final `\n` or `\r\n` adds no line.
pub proof fn lemma_final_line_ending(s: Seq<char>)
    requires
        s.len() > 0,
        s.last() != '\n',
        s.last() != '\r',
    ensures
        lines_spec(s.push('\n')) == lines_spec(s),
        lines_spec(s.push('\r').push('\n')) == lines_spec(s),
{
    let st = lines_state(s);
    assert(s.push('\n').drop_last() =~= s);
    assert(s.push('\r').drop_last() =~= s);
    assert(s.push('\r').push('\n').drop_last() =~= s.push('\r'));
    assert(st.1.len() > 0 && st.1.last() == s.last());
    assert(lines_state(s.push('\r')).1 == st.1.push('\r'));
    assert(st.1.push('\r').drop_last() =~= st.1);
}

} // verus!
