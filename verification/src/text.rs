//! Character-level helpers shared by the lexer and the executor: the
//! whitespace predicate, conversions between strings and character vectors,
//! and the word/line splitting used for embedded command substitution.
use vstd::prelude::*;
use vstd::string::*;

verus! {

/// The characters with Unicode's `White_Space` property, exactly the set
/// that `char::is_whitespace` accepts.
pub open spec fn is_whitespace_char(c: char) -> bool {
    c == ' ' || c == '\t' || c == '\n' || c == '\u{000B}' || c == '\u{000C}' || c == '\r'
        || c == '\u{0085}' || c == '\u{00A0}' || c == '\u{1680}' || c == '\u{2000}'
        || c == '\u{2001}' || c == '\u{2002}' || c == '\u{2003}' || c == '\u{2004}'
        || c == '\u{2005}' || c == '\u{2006}' || c == '\u{2007}' || c == '\u{2008}'
        || c == '\u{2009}' || c == '\u{200A}' || c == '\u{2028}' || c == '\u{2029}'
        || c == '\u{202F}' || c == '\u{205F}' || c == '\u{3000}'
}

/// Whitespace test on a single character.
pub fn is_space(c: char) -> (b: bool)
    ensures
        b == is_whitespace_char(c),
{
    c == ' ' || c == '\t' || c == '\n' || c == '\u{000B}' || c == '\u{000C}' || c == '\r'
        || c == '\u{0085}' || c == '\u{00A0}' || c == '\u{1680}' || c == '\u{2000}'
        || c == '\u{2001}' || c == '\u{2002}' || c == '\u{2003}' || c == '\u{2004}'
        || c == '\u{2005}' || c == '\u{2006}' || c == '\u{2007}' || c == '\u{2008}'
        || c == '\u{2009}' || c == '\u{200A}' || c == '\u{2028}' || c == '\u{2029}'
        || c == '\u{202F}' || c == '\u{205F}' || c == '\u{3000}'
}

/// Relies on `String`'s `FromIterator<char>` impl: collecting characters
/// yields a string holding exactly those characters in order.
#[verifier::external_body]
pub fn chars_to_string(cs: &Vec<char>) -> (r: String)
    ensures
        r@ == cs@,
{
    cs.iter().collect()
}

/// The values of a sequence of strings, element by element.
pub open spec fn strings_view(s: Seq<String>) -> Seq<Seq<char>> {
    s.map(|i: int, x: String| x@)
}

/// What decoding a byte sequence as UTF-8 with replacement yields; a pure
/// function of the bytes alone.
pub uninterp spec fn lossy_of(bytes: Seq<u8>) -> Seq<char>;

/// Relies on `String::from_utf8_lossy`: decoding depends on the bytes
/// alone, replacing invalid sequences with the replacement character.
#[verifier::external_body]
pub fn utf8_lossy(bytes: &Vec<u8>) -> (r: String)
    ensures
        r@ == lossy_of(bytes@),
{
    String::from_utf8_lossy(bytes).into_owned()
}

/// The characters of `s`, one vector element per `char`.
pub fn str_chars(s: &str) -> (r: Vec<char>)
    ensures
        r@ == s@,
{
    let n = s.unicode_len();
    let mut r: Vec<char> = Vec::new();
    let mut i: usize = 0;
    while i < n
        invariant
            i <= n,
            n == s@.len(),
            r@ == s@.take(i as int),
        decreases n - i,
    {
        let c = s.get_char(i);
        r.push(c);
        proof {
            assert(s@.take(i + 1 as int) =~= s@.take(i as int).push(s@[i as int]));
        }
        i = i + 1;
    }
    proof {
        assert(s@.take(n as int) =~= s@);
    }
    r
}

/// `s` with its leading whitespace removed.
pub open spec fn spec_trim_start(s: Seq<char>) -> Seq<char>
    decreases s.len(),
{
    if s.len() > 0 && is_whitespace_char(s.first()) {
        spec_trim_start(s.drop_first())
    } else {
        s
    }
}

/// `s` with its trailing whitespace removed.
pub open spec fn spec_trim_end(s: Seq<char>) -> Seq<char>
    decreases s.len(),
{
    if s.len() > 0 && is_whitespace_char(s.last()) {
        spec_trim_end(s.drop_last())
    } else {
        s
    }
}

/// `s` with leading and trailing whitespace removed.
pub open spec fn spec_trim(s: Seq<char>) -> Seq<char> {
    spec_trim_end(spec_trim_start(s))
}

/// The characters of `v` with leading and trailing whitespace removed.
#[verifier::loop_isolation(false)]
pub fn trim_chars(v: &Vec<char>) -> (r: Vec<char>)
    ensures
        r@ == spec_trim(v@),
{
    let n = v.len();
    let mut a: usize = 0;
    proof {
        assert(v@.skip(0) =~= v@);
    }
    while a < n && is_space(v[a])
        invariant
            a <= n,
            spec_trim_start(v@) == spec_trim_start(v@.skip(a as int)),
        decreases n - a,
    {
        proof {
            assert(v@.skip(a as int).drop_first() =~= v@.skip(a as int + 1));
        }
        a = a + 1;
    }
    let ghost t = v@.skip(a as int);
    proof {
        if a < n {
            assert(t.first() == v@[a as int]);
        }
        assert(spec_trim_start(t) == t);
    }
    let mut b: usize = n;
    proof {
        assert(t.take(n - a as int) =~= t);
    }
    while b > a && is_space(v[b - 1])
        invariant
            a <= b <= n,
            spec_trim_end(t) == spec_trim_end(t.take(b - a as int)),
        decreases b,
    {
        proof {
            assert(t.take(b - a as int).last() == v@[b - 1 as int]);
            assert(t.take(b - a as int).drop_last() =~= t.take(b - 1 - a as int));
        }
        b = b - 1;
    }
    proof {
        if b > a {
            assert(t.take(b - a as int).last() == v@[b - 1 as int]);
        }
        assert(spec_trim_end(t.take(b - a as int)) == t.take(b - a as int));
    }
    let mut r: Vec<char> = Vec::new();
    let mut k: usize = a;
    while k < b
        invariant
            a <= k <= b,
            r@ == v@.subrange(a as int, k as int),
        decreases b - k,
    {
        r.push(v[k]);
        proof {
            assert(v@.subrange(a as int, k + 1 as int) =~= v@.subrange(a as int, k as int).push(
                v@[k as int],
            ));
        }
        k = k + 1;
    }
    proof {
        assert(v@.subrange(a as int, b as int) =~= t.take(b - a as int));
    }
    r
}

/// A split in progress: the characters of the piece being accumulated and
/// the pieces already finished.
pub struct SplitModel {
    pub buf: Seq<char>,
    pub pieces: Seq<Seq<char>>,
}

/// One step of whitespace splitting: whitespace finishes the piece being
/// accumulated (if any); any other character joins it.
pub open spec fn words_step(m: SplitModel, c: char) -> SplitModel {
    if is_whitespace_char(c) {
        if m.buf.len() == 0 {
            m
        } else {
            SplitModel { buf: Seq::empty(), pieces: m.pieces.push(m.buf) }
        }
    } else {
        SplitModel { buf: m.buf.push(c), pieces: m.pieces }
    }
}

/// The split state reached after scanning all of `s` for words.
pub open spec fn words_fold(s: Seq<char>) -> SplitModel
    decreases s.len(),
{
    if s.len() == 0 {
        SplitModel { buf: Seq::empty(), pieces: Seq::empty() }
    } else {
        words_step(words_fold(s.drop_last()), s.last())
    }
}

/// The whitespace-separated words of `s`, in order, with no empty words.
pub open spec fn spec_words(s: Seq<char>) -> Seq<Seq<char>> {
    let m = words_fold(s);
    if m.buf.len() == 0 {
        m.pieces
    } else {
        m.pieces.push(m.buf)
    }
}

/// One step of line splitting: a newline finishes the current line, which
/// is kept trimmed; any other character joins it.
pub open spec fn lines_step(m: SplitModel, c: char) -> SplitModel {
    if c == '\n' {
        SplitModel { buf: Seq::empty(), pieces: m.pieces.push(spec_trim(m.buf)) }
    } else {
        SplitModel { buf: m.buf.push(c), pieces: m.pieces }
    }
}

/// The split state reached after scanning all of `s` for lines.
pub open spec fn lines_fold(s: Seq<char>) -> SplitModel
    decreases s.len(),
{
    if s.len() == 0 {
        SplitModel { buf: Seq::empty(), pieces: Seq::empty() }
    } else {
        lines_step(lines_fold(s.drop_last()), s.last())
    }
}

/// The lines of `s`, each trimmed of surrounding whitespace; text after
/// the last newline forms a final line only if it is nonempty.
pub open spec fn spec_lines_trimmed(s: Seq<char>) -> Seq<Seq<char>> {
    let m = lines_fold(s);
    if m.buf.len() == 0 {
        m.pieces
    } else {
        m.pieces.push(spec_trim(m.buf))
    }
}

proof fn lemma_strings_view_push(ss: Seq<String>, x: String)
    ensures
        strings_view(ss.push(x)) == strings_view(ss).push(x@),
{
    assert(strings_view(ss.push(x)) =~= strings_view(ss).push(x@));
}

proof fn lemma_words_fold_snoc(s: Seq<char>, i: int)
    requires
        0 <= i < s.len(),
    ensures
        words_fold(s.take(i + 1)) == words_step(words_fold(s.take(i)), s[i]),
{
    assert(s.take(i + 1).drop_last() =~= s.take(i));
    assert(s.take(i + 1).last() == s[i]);
}

proof fn lemma_lines_fold_snoc(s: Seq<char>, i: int)
    requires
        0 <= i < s.len(),
    ensures
        lines_fold(s.take(i + 1)) == lines_step(lines_fold(s.take(i)), s[i]),
{
    assert(s.take(i + 1).drop_last() =~= s.take(i));
    assert(s.take(i + 1).last() == s[i]);
}

/// The whitespace-separated words of `s`, as owned strings.
#[verifier::loop_isolation(false)]
pub fn split_words(s: &str) -> (r: Vec<String>)
    ensures
        strings_view(r@) == spec_words(s@),
{
    let cs = str_chars(s);
    let n = cs.len();
    let mut buf: Vec<char> = Vec::new();
    let mut words: Vec<String> = Vec::new();
    let mut i: usize = 0;
    while i < n
        invariant
            i <= n,
            n == cs@.len(),
            cs@ == s@,
            words_fold(s@.take(i as int)).buf == buf@,
            words_fold(s@.take(i as int)).pieces == strings_view(words@),
        decreases n - i,
    {
        let c = cs[i];
        proof {
            lemma_words_fold_snoc(s@, i as int);
        }
        if is_space(c) {
            if buf.len() > 0 {
                let w = chars_to_string(&buf);
                proof {
                    lemma_strings_view_push(words@, w);
                }
                words.push(w);
                buf.clear();
            }
        } else {
            buf.push(c);
        }
        i = i + 1;
    }
    proof {
        assert(s@.take(n as int) =~= s@);
    }
    if buf.len() > 0 {
        let w = chars_to_string(&buf);
        proof {
            lemma_strings_view_push(words@, w);
        }
        words.push(w);
    }
    words
}

/// The trimmed lines of `s`, as owned strings.
#[verifier::loop_isolation(false)]
pub fn split_lines_trimmed(s: &str) -> (r: Vec<String>)
    ensures
        strings_view(r@) == spec_lines_trimmed(s@),
{
    let cs = str_chars(s);
    let n = cs.len();
    let mut buf: Vec<char> = Vec::new();
    let mut lines: Vec<String> = Vec::new();
    let mut i: usize = 0;
    while i < n
        invariant
            i <= n,
            n == cs@.len(),
            cs@ == s@,
            lines_fold(s@.take(i as int)).buf == buf@,
            lines_fold(s@.take(i as int)).pieces == strings_view(lines@),
        decreases n - i,
    {
        let c = cs[i];
        proof {
            lemma_lines_fold_snoc(s@, i as int);
        }
        if c == '\n' {
            let t = trim_chars(&buf);
            let w = chars_to_string(&t);
            proof {
                lemma_strings_view_push(lines@, w);
            }
            lines.push(w);
            buf.clear();
        } else {
            buf.push(c);
        }
        i = i + 1;
    }
    proof {
        assert(s@.take(n as int) =~= s@);
    }
    if buf.len() > 0 {
        let t = trim_chars(&buf);
        let w = chars_to_string(&t);
        proof {
            lemma_strings_view_push(lines@, w);
        }
        lines.push(w);
    }
    lines
}

} // verus!
