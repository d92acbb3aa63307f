//! Character-level text handling: whitespace, lines, tokens, trimming and
//! prefix tests, each stated over `Seq<char>` and implemented on `Vec<char>`.
use vstd::prelude::*;

verus! {

/// The Unicode `White_Space` property, the set that `char::is_whitespace` tests.
pub open spec fn is_ws(c: char) -> bool {
    let u = c as u32;
    ||| 9 <= u <= 13
    ||| u == 32
    ||| u == 0x85
    ||| u == 0xA0
    ||| u == 0x1680
    ||| 0x2000 <= u <= 0x200A
    ||| u == 0x2028
    ||| u == 0x2029
    ||| u == 0x202F
    ||| u == 0x205F
    ||| u == 0x3000
}

/// Whether `c` is a whitespace character.
pub fn is_whitespace(c: char) -> (r: bool)
    ensures
        r == is_ws(c),
{
    let u = c as u32;
    (9 <= u && u <= 13) || u == 32 || u == 0x85 || u == 0xA0 || u == 0x1680 || (0x2000 <= u
        && u <= 0x200A) || u == 0x2028 || u == 0x2029 || u == 0x202F || u == 0x205F || u
        == 0x3000
}

/// The views of a sequence of character vectors.
pub open spec fn views(v: Seq<Vec<char>>) -> Seq<Seq<char>> {
    v.map_values(|x: Vec<char>| x@)
}

pub proof fn lemma_views_push(v: Seq<Vec<char>>, x: Vec<char>)
    ensures
        views(v.push(x)) == views(v).push(x@),
{
    assert(views(v.push(x)) =~= views(v).push(x@));
}

// ---------------------------------------------------------------------------
// Conversions between strings and character vectors
// ---------------------------------------------------------------------------
/// Appends one character to a string by calling `String::push`. Its contract
/// claims what std documents of `push`: the string's characters afterwards are
/// those before followed by `c`.
#[verifier::external_body]
fn push_char(s: &mut String, c: char)
    ensures
        final(s)@ == old(s)@.push(c),
{
    s.push(c)
}

/// The characters of a string, in order.
pub fn chars_of(s: &str) -> (r: Vec<char>)
    ensures
        r@ == s@,
{
    let mut out: Vec<char> = Vec::new();
    for c in it: s.chars()
        invariant
            out@ == it.seq().take(it.index() as int),
    {
        out.push(c);
    }
    out
}

/// The string made of the given characters.
pub fn string_of(cs: &[char]) -> (r: String)
    ensures
        r@ == cs@,
{
    let mut s = String::new();
    let mut i: usize = 0;
    while i < cs.len()
        invariant
            i <= cs.len(),
            s@ == cs@.take(i as int),
        decreases cs.len() - i,
    {
        push_char(&mut s, cs[i]);
        i = i + 1;
        assert(s@ =~= cs@.take(i as int));
    }
    assert(cs@.take(i as int) =~= cs@);
    s
}

/// Appends the characters `cs` to the string `s`.
pub fn push_chars(s: &mut String, cs: &[char])
    ensures
        final(s)@ == old(s)@ + cs@,
{
    let mut i: usize = 0;
    while i < cs.len()
        invariant
            i <= cs.len(),
            s@ == old(s)@ + cs@.take(i as int),
        decreases cs.len() - i,
    {
        push_char(s, cs[i]);
        i = i + 1;
        assert(s@ =~= old(s)@ + cs@.take(i as int));
    }
    assert(cs@.take(i as int) =~= cs@);
}

/// Appends the characters of `t` to the string `s`.
pub fn append_str(s: &mut String, t: &str)
    ensures
        final(s)@ == old(s)@ + t@,
{
    let cs = chars_of(t);
    push_chars(s, cs.as_slice());
}

/// Whether two character sequences are equal.
pub fn chars_eq(a: &[char], b: &[char]) -> (r: bool)
    ensures
        r == (a@ == b@),
{
    if a.len() != b.len() {
        return false;
    }
    let mut i: usize = 0;
    while i < a.len()
        invariant
            a.len() == b.len(),
            i <= a.len(),
            forall|j: int| 0 <= j < i ==> a@[j] == b@[j],
        decreases a.len() - i,
    {
        if a[i] != b[i] {
            return false;
        }
        i = i + 1;
    }
    assert(a@ =~= b@);
    true
}

/// The characters of `v` from index `start` up to, not including, `end`.
pub fn copy_range(v: &[char], start: usize, end: usize) -> (r: Vec<char>)
    requires
        start <= end <= v@.len(),
    ensures
        r@ == v@.subrange(start as int, end as int),
{
    let mut out: Vec<char> = Vec::new();
    let mut i = start;
    while i < end
        invariant
            start <= i <= end <= v@.len(),
            out@ == v@.subrange(start as int, i as int),
        decreases end - i,
    {
        out.push(v[i]);
        i = i + 1;
        assert(out@ =~= v@.subrange(start as int, i as int));
    }
    out
}

// ---------------------------------------------------------------------------
// Prefixes
// ---------------------------------------------------------------------------
/// `s` begins with `p`.
pub open spec fn has_prefix(s: Seq<char>, p: Seq<char>) -> bool {
    p.len() <= s.len() && s.take(p.len() as int) == p
}

/// Whether `s` begins with `p` (`str::starts_with`).
pub fn starts_with(s: &[char], p: &[char]) -> (r: bool)
    ensures
        r == has_prefix(s@, p@),
{
    if p.len() > s.len() {
        return false;
    }
    let mut i: usize = 0;
    while i < p.len()
        invariant
            p.len() <= s.len(),
            i <= p.len(),
            forall|j: int| 0 <= j < i ==> s@[j] == p@[j],
        decreases p.len() - i,
    {
        if s[i] != p[i] {
            assert(s@.take(p.len() as int)[i as int] != p@[i as int]);
            return false;
        }
        i = i + 1;
    }
    assert(s@.take(p.len() as int) =~= p@);
    true
}

// ---------------------------------------------------------------------------
// Lines
// ---------------------------------------------------------------------------
/// The index of the first line feed in `s`, or `s.len()` when there is none.
pub open spec fn nl_pos(s: Seq<char>) -> nat
    decreases s.len(),
{
    if s.len() == 0 || s[0] == '\n' {
        0
    } else {
        1 + nl_pos(s.drop_first())
    }
}

/// `l` without one trailing carriage return.
pub open spec fn strip_cr(l: Seq<char>) -> Seq<char> {
    if l.len() > 0 && l.last() == '\r' {
        l.drop_last()
    } else {
        l
    }
}

/// The lines of `s` as `str::lines` yields them: split at each line feed, a
/// carriage return that precedes a line feed dropped, and no empty line after
/// a final line feed.
pub open spec fn lines(s: Seq<char>) -> Seq<Seq<char>>
    decreases s.len(),
{
    if s.len() == 0 {
        seq![]
    } else {
        let k = nl_pos(s);
        if k < s.len() {
            seq![strip_cr(s.take(k as int))] + lines(s.skip(k + 1 as int))
        } else {
            seq![s]
        }
    }
}

/// Index where the line starting at `start` ends: the next line feed or the end.
fn line_end(text: &[char], start: usize) -> (j: usize)
    requires
        start <= text@.len(),
    ensures
        start <= j <= text@.len(),
        j - start == nl_pos(text@.skip(start as int)),
{
    let mut j = start;
    while j < text.len() && text[j] != '\n'
        invariant
            start <= j <= text@.len(),
            nl_pos(text@.skip(start as int)) == (j - start) + nl_pos(text@.skip(j as int)),
        decreases text@.len() - j,
    {
        assert(text@.skip(j as int).drop_first() =~= text@.skip(j + 1));
        j = j + 1;
    }
    j
}

/// The lines of `text`.
pub fn split_lines(text: &[char]) -> (r: Vec<Vec<char>>)
    ensures
        views(r@) == lines(text@),
{
    let mut out: Vec<Vec<char>> = Vec::new();
    let mut i: usize = 0;
    let n = text.len();
    assert(text@.skip(0) =~= text@);
    while i < n
        invariant
            n == text@.len(),
            i <= n,
            views(out@) + lines(text@.skip(i as int)) == lines(text@),
        decreases n - i,
    {
        let ghost rest = text@.skip(i as int);
        let j = line_end(text, i);
        let mut line = copy_range(text, i, j);
        assert(line@ =~= rest.take((j - i) as int));
        if j < n {
            if line.len() > 0 && line[line.len() - 1] == '\r' {
                line.pop();
                assert(line@ =~= strip_cr(rest.take((j - i) as int)));
            }
            proof {
                lemma_views_push(out@, line);
                assert(rest.skip((j - i) + 1 as int) =~= text@.skip(j + 1));
                assert(lines(rest) == seq![line@] + lines(text@.skip(j + 1)));
                assert(views(out@.push(line)) + lines(text@.skip(j + 1)) =~= views(out@) + lines(
                    rest,
                ));
            }
            out.push(line);
            i = j + 1;
        } else {
            proof {
                lemma_views_push(out@, line);
                assert(line@ =~= rest);
                assert(text@.skip(n as int) =~= Seq::<char>::empty());
                assert(lines(rest) == seq![rest]);
                assert(views(out@.push(line)) + lines(text@.skip(n as int)) =~= views(out@)
                    + lines(rest));
            }
            out.push(line);
            i = n;
        }
    }
    assert(text@.skip(n as int) =~= Seq::<char>::empty());
    assert(views(out@) + lines(text@.skip(n as int)) =~= views(out@));
    out
}

// ---------------------------------------------------------------------------
// Whitespace-separated tokens
// ---------------------------------------------------------------------------
/// Length of the run of non-whitespace characters at the start of `s`.
pub open spec fn word_len(s: Seq<char>) -> nat
    decreases s.len(),
{
    if s.len() == 0 || is_ws(s[0]) {
        0
    } else {
        1 + word_len(s.drop_first())
    }
}

/// The maximal runs of non-whitespace characters of `s`, in order, as
/// `str::split_whitespace` yields them.
pub open spec fn tokens(s: Seq<char>) -> Seq<Seq<char>>
    decreases s.len(),
{
    if s.len() == 0 {
        seq![]
    } else if is_ws(s[0]) {
        tokens(s.drop_first())
    } else {
        let k = word_len(s);
        proof {
            lemma_word_len_bound(s);
        }
        seq![s.take(k as int)] + tokens(s.skip(k as int))
    }
}

pub proof fn lemma_word_len_bound(s: Seq<char>)
    ensures
        word_len(s) <= s.len(),
        forall|j: int| 0 <= j < word_len(s) ==> !is_ws(#[trigger] s[j]),
        word_len(s) < s.len() ==> is_ws(s[word_len(s) as int]),
    decreases s.len(),
{
    if s.len() > 0 && !is_ws(s[0]) {
        lemma_word_len_bound(s.drop_first());
        assert forall|j: int| 0 <= j < word_len(s) implies !is_ws(#[trigger] s[j]) by {
            if j > 0 {
                assert(s[j] == s.drop_first()[j - 1]);
            }
        }
    }
}

/// End of the token starting at `start`.
fn word_end(text: &[char], start: usize) -> (j: usize)
    requires
        start <= text@.len(),
    ensures
        start <= j <= text@.len(),
        j - start == word_len(text@.skip(start as int)),
{
    let mut j = start;
    while j < text.len() && !is_whitespace(text[j])
        invariant
            start <= j <= text@.len(),
            word_len(text@.skip(start as int)) == (j - start) + word_len(text@.skip(j as int)),
        decreases text@.len() - j,
    {
        assert(text@.skip(j as int).drop_first() =~= text@.skip(j + 1));
        j = j + 1;
    }
    j
}

/// The whitespace-separated tokens of `text`.
pub fn split_tokens(text: &[char]) -> (r: Vec<Vec<char>>)
    ensures
        views(r@) == tokens(text@),
{
    let mut out: Vec<Vec<char>> = Vec::new();
    let mut i: usize = 0;
    let n = text.len();
    assert(text@.skip(0) =~= text@);
    while i < n
        invariant
            n == text@.len(),
            i <= n,
            views(out@) + tokens(text@.skip(i as int)) == tokens(text@),
        decreases n - i,
    {
        let ghost rest = text@.skip(i as int);
        if is_whitespace(text[i]) {
            assert(rest.drop_first() =~= text@.skip(i + 1));
            i = i + 1;
        } else {
            let j = word_end(text, i);
            let tok = copy_range(text, i, j);
            proof {
                assert(tok@ =~= rest.take((j - i) as int));
                assert(rest.skip((j - i) as int) =~= text@.skip(j as int));
                lemma_views_push(out@, tok);
                assert(tokens(rest) == seq![tok@] + tokens(text@.skip(j as int)));
                assert(views(out@.push(tok)) + tokens(text@.skip(j as int)) =~= views(out@)
                    + tokens(rest));
            }
            out.push(tok);
            i = j;
        }
    }
    assert(text@.skip(n as int) =~= Seq::<char>::empty());
    assert(views(out@) + tokens(text@.skip(n as int)) =~= views(out@));
    out
}

// ---------------------------------------------------------------------------
// Trimming
// ---------------------------------------------------------------------------
/// `s` without its leading whitespace.
pub open spec fn trim_start(s: Seq<char>) -> Seq<char>
    decreases s.len(),
{
    if s.len() > 0 && is_ws(s[0]) {
        trim_start(s.drop_first())
    } else {
        s
    }
}

/// `s` without its trailing whitespace.
pub open spec fn trim_end(s: Seq<char>) -> Seq<char>
    decreases s.len(),
{
    if s.len() > 0 && is_ws(s.last()) {
        trim_end(s.drop_last())
    } else {
        s
    }
}

/// `s` without leading and trailing whitespace (`str::trim`).
pub open spec fn trim(s: Seq<char>) -> Seq<char> {
    trim_end(trim_start(s))
}

/// Index of the first non-whitespace character at or after `i`.
fn skip_ws_forward(s: &[char], i: usize) -> (j: usize)
    requires
        i <= s@.len(),
        trim_start(s@) == trim_start(s@.skip(i as int)),
    ensures
        i <= j <= s@.len(),
        trim_start(s@) == s@.skip(j as int),
{
    let mut j = i;
    while j < s.len() && is_whitespace(s[j])
        invariant
            i <= j <= s@.len(),
            trim_start(s@) == trim_start(s@.skip(j as int)),
        decreases s@.len() - j,
    {
        assert(s@.skip(j as int).drop_first() =~= s@.skip(j + 1));
        j = j + 1;
    }
    j
}

/// The characters of `s` without leading and trailing whitespace.
pub fn trim_chars(s: &[char]) -> (r: Vec<char>)
    ensures
        r@ == trim(s@),
{
    assert(s@.skip(0) =~= s@);
    let start = skip_ws_forward(s, 0);
    let ghost t = s@.skip(start as int);
    let mut end = s.len();
    assert(t.take((end - start) as int) =~= t);
    while end > start && is_whitespace(s[end - 1])
        invariant
            start <= end <= s@.len(),
            t == s@.skip(start as int),
            trim_end(t) == trim_end(t.take((end - start) as int)),
        decreases end,
    {
        let ghost u = t.take((end - start) as int);
        assert(u.last() == s@[end - 1]);
        assert(u.drop_last() =~= t.take((end - 1 - start) as int));
        end = end - 1;
    }
    let r = copy_range(s, start, end);
    proof {
        let u = t.take((end - start) as int);
        assert(r@ =~= u);
        if u.len() > 0 {
            assert(u.last() == s@[end - 1]);
        }
        assert(trim_end(u) == u);
    }
    r
}

// ---------------------------------------------------------------------------
// Joining
// ---------------------------------------------------------------------------
/// The sequences of `parts` joined with `sep` between consecutive ones.
pub open spec fn join(parts: Seq<Seq<char>>, sep: Seq<char>) -> Seq<char>
    decreases parts.len(),
{
    if parts.len() == 0 {
        seq![]
    } else if parts.len() == 1 {
        parts[0]
    } else {
        join(parts.drop_last(), sep) + sep + parts.last()
    }
}

/// Joins the first `count` elements of `parts` with single spaces.
pub fn join_with_space(parts: &Vec<Vec<char>>, count: usize) -> (r: String)
    requires
        count <= parts@.len(),
    ensures
        r@ == join(views(parts@).take(count as int), seq![' ']),
{
    let mut s = String::new();
    let ghost vs = views(parts@);
    let mut i: usize = 0;
    while i < count
        invariant
            count <= parts@.len(),
            vs == views(parts@),
            i <= count,
            s@ == join(vs.take(i as int), seq![' ']),
        decreases count - i,
    {
        if i > 0 {
            push_char(&mut s, ' ');
        }
        push_chars(&mut s, parts[i].as_slice());
        proof {
            let taken = vs.take(i + 1);
            assert(taken.drop_last() =~= vs.take(i as int));
            assert(taken.last() == parts@[i as int]@);
            assert(s@ =~= join(taken, seq![' ']));
        }
        i = i + 1;
    }
    s
}

} // verus!
