//! Text helpers over `String` and `&str`, specified over `Seq<char>` and, for
//! ordering, over the UTF-8 bytes.

use vstd::prelude::*;
use vstd::std_specs::iter::IteratorSpec;

verus! {

/// `String::push` appends one character.
pub assume_specification[ String::push ](s: &mut String, c: char)
    ensures
        final(s)@ == old(s)@.push(c),
;

/// The characters of `s` as a vector.
pub fn chars_of(s: &str) -> (r: Vec<char>)
    ensures
        r@ == s@,
{
    let mut out: Vec<char> = Vec::new();
    let mut it = s.chars();
    loop
        invariant
            it.obeys_prophetic_iter_laws(),
            out@ + it.remaining() == s@,
            it.decrease() is Some,
        ensures
            out@ == s@,
        decreases it.decrease()->0,
    {
        match it.next() {
            Some(c) => {
                out.push(c);
            },
            None => {
                assert(out@ + it.remaining() == out@);
                break;
            },
        }
    }
    out
}

/// The characters `chars[from..to]` as a string.
pub fn string_of_range(chars: &Vec<char>, from: usize, to: usize) -> (r: String)
    requires
        from <= to <= chars.len(),
    ensures
        r@ == chars@.subrange(from as int, to as int),
{
    let mut out = String::new();
    let mut i: usize = from;
    while i < to
        invariant
            from <= i <= to <= chars.len(),
            out@ == chars@.subrange(from as int, i as int),
        decreases to - i,
    {
        out.push(chars[i]);
        assert(chars@.subrange(from as int, i as int).push(chars@[i as int])
            =~= chars@.subrange(from as int, i as int + 1));
        i += 1;
    }
    out
}

/// White space in the sense of Unicode's `White_Space` property.
pub open spec fn is_space(c: char) -> bool {
    let n = c as u32;
    ||| 0x09 <= n <= 0x0d
    ||| n == 0x20
    ||| n == 0x85
    ||| n == 0xa0
    ||| n == 0x1680
    ||| 0x2000 <= n <= 0x200a
    ||| n == 0x2028
    ||| n == 0x2029
    ||| n == 0x202f
    ||| n == 0x205f
    ||| n == 0x3000
}

/// `s` without the white space at its start.
pub open spec fn skip_leading(s: Seq<char>) -> Seq<char>
    decreases s.len(),
{
    if s.len() > 0 && is_space(s[0]) {
        skip_leading(s.drop_first())
    } else {
        s
    }
}

/// `s` without the white space at its end.
pub open spec fn skip_trailing(s: Seq<char>) -> Seq<char>
    decreases s.len(),
{
    if s.len() > 0 && is_space(s.last()) {
        skip_trailing(s.drop_last())
    } else {
        s
    }
}

/// `s` without the white space at either end.
pub open spec fn trimmed(s: Seq<char>) -> Seq<char> {
    skip_trailing(skip_leading(s))
}

/// Tells whether `c` is white space.
pub fn char_is_space(c: char) -> (r: bool)
    ensures
        r == is_space(c),
{
    let n: u32 = c as u32;
    (0x09 <= n && n <= 0x0d) || n == 0x20 || n == 0x85 || n == 0xa0 || n == 0x1680 || (0x2000 <= n
        && n <= 0x200a) || n == 0x2028 || n == 0x2029 || n == 0x202f || n == 0x205f || n == 0x3000
}

/// A copy of `s` without the white space at either end.
pub fn trim(s: &str) -> (r: String)
    ensures
        r@ == trimmed(s@),
{
    let chars = chars_of(s);
    let n: usize = chars.len();
    let mut a: usize = 0;
    assert(chars@ =~= chars@.subrange(0, n as int));
    while a < n && char_is_space(chars[a])
        invariant
            a <= n == chars.len(),
            skip_leading(chars@) == skip_leading(chars@.subrange(a as int, n as int)),
        decreases n - a,
    {
        assert(chars@.subrange(a as int, n as int).drop_first() =~= chars@.subrange(
            a as int + 1,
            n as int,
        ));
        a += 1;
    }
    let mut b: usize = n;
    while b > a && char_is_space(chars[b - 1])
        invariant
            a <= b <= n == chars.len(),
            skip_trailing(chars@.subrange(a as int, n as int)) == skip_trailing(
                chars@.subrange(a as int, b as int),
            ),
        decreases b,
    {
        assert(chars@.subrange(a as int, b as int).drop_last() =~= chars@.subrange(
            a as int,
            b as int - 1,
        ));
        b -= 1;
    }
    string_of_range(&chars, a, b)
}

/// `s` with a space in place of each line feed.
pub open spec fn on_one_line(s: Seq<char>) -> Seq<char> {
    Seq::new(
        s.len(),
        |i: int|
            if s[i] == '\n' {
                ' '
            } else {
                s[i]
            },
    )
}

/// Text put on one line is as long as before and holds no line feed; text
/// that held none is left as it was.
pub proof fn lemma_on_one_line(s: Seq<char>)
    ensures
        on_one_line(s).len() == s.len(),
        forall|i: int| 0 <= i < s.len() ==> on_one_line(s)[i] != '\n',
        (forall|i: int| 0 <= i < s.len() ==> s[i] != '\n') ==> on_one_line(s) == s,
{
    if forall|i: int| 0 <= i < s.len() ==> s[i] != '\n' {
        assert(on_one_line(s) =~= s);
    }
}

/// A copy of `s` with a space in place of each line feed.
pub fn single_line(s: &str) -> (r: String)
    ensures
        r@ == on_one_line(s@),
{
    let chars = chars_of(s);
    let mut out = String::new();
    let mut i: usize = 0;
    while i < chars.len()
        invariant
            i <= chars.len(),
            chars@ == s@,
            out@ == on_one_line(s@).subrange(0, i as int),
        decreases chars.len() - i,
    {
        let c = chars[i];
        if c == '\n' {
            out.push(' ');
        } else {
            out.push(c);
        }
        assert(on_one_line(s@).subrange(0, i as int).push(on_one_line(s@)[i as int])
            =~= on_one_line(s@).subrange(0, i as int + 1));
        i += 1;
    }
    assert(on_one_line(s@).subrange(0, i as int) =~= on_one_line(s@));
    out
}

/// Index of the first line feed in `s`, or its length when it has none.
pub open spec fn first_break(s: Seq<char>) -> int
    decreases s.len(),
{
    if s.len() == 0 || s[0] == '\n' {
        0
    } else {
        1 + first_break(s.drop_first())
    }
}

/// The lines of `s`: the stretches between line feeds. A line feed at the very
/// end opens no further line, and the empty text has no line.
pub open spec fn lines_of(s: Seq<char>) -> Seq<Seq<char>>
    decreases s.len(),
{
    if s.len() == 0 {
        Seq::empty()
    } else {
        let k = first_break(s);
        if 0 <= k < s.len() {
            seq![s.subrange(0, k)] + lines_of(s.subrange(k + 1, s.len() as int))
        } else {
            seq![s]
        }
    }
}

/// The views of a vector of strings.
pub open spec fn views(v: Seq<String>) -> Seq<Seq<char>> {
    v.map_values(|s: String| s@)
}

/// `first_break` is the one index that holds a line feed, or the length, with
/// none before it.
pub proof fn lemma_first_break(s: Seq<char>, k: int)
    requires
        0 <= k <= s.len(),
        k < s.len() ==> s[k] == '\n',
        forall|j: int| 0 <= j < k ==> s[j] != '\n',
    ensures
        first_break(s) == k,
    decreases s.len(),
{
    if k > 0 {
        lemma_first_break(s.drop_first(), k - 1);
    }
}

/// No line of a text holds a line feed.
pub proof fn lemma_lines_hold_no_break(s: Seq<char>, i: int, j: int)
    requires
        0 <= i < lines_of(s).len(),
        0 <= j < lines_of(s)[i].len(),
    ensures
        lines_of(s)[i][j] != '\n',
    decreases s.len(),
{
    let k = first_break(s);
    lemma_first_break_bounds(s);
    if k < s.len() {
        if i > 0 {
            lemma_lines_hold_no_break(s.subrange(k + 1, s.len() as int), i - 1, j);
        }
    }
}

/// `first_break` lies within the text, and nothing before it is a line feed.
pub proof fn lemma_first_break_bounds(s: Seq<char>)
    ensures
        0 <= first_break(s) <= s.len(),
        first_break(s) < s.len() ==> s[first_break(s)] == '\n',
        forall|j: int| 0 <= j < first_break(s) ==> s[j] != '\n',
    decreases s.len(),
{
    if s.len() == 0 || s[0] == '\n' {
    } else {
        lemma_first_break_bounds(s.drop_first());
        assert forall|j: int| 0 <= j < first_break(s) implies s[j] != '\n' by {
            if j > 0 {
                assert(s.drop_first()[j - 1] == s[j]);
            }
        }
    }
}

/// The lines of `s`, each as a string of its own.
pub fn split_lines(s: &str) -> (r: Vec<String>)
    ensures
        views(r@) == lines_of(s@),
{
    let chars = chars_of(s);
    let n: usize = chars.len();
    let mut out: Vec<String> = Vec::new();
    let mut start: usize = 0;
    let mut i: usize = 0;
    assert(chars@.subrange(0, n as int) =~= chars@);
    assert(views(out@) =~= Seq::empty());
    while i < n
        invariant
            start <= i <= n == chars.len(),
            forall|j: int| start <= j < i ==> chars@[j] != '\n',
            lines_of(chars@) == views(out@) + lines_of(chars@.subrange(start as int, n as int)),
        decreases n - i,
    {
        if chars[i] == '\n' {
            let line = string_of_range(&chars, start, i);
            proof {
                let rest = chars@.subrange(start as int, n as int);
                lemma_first_break(rest, i - start);
                assert(rest.subrange(0, i - start) =~= chars@.subrange(start as int, i as int));
                assert(rest.subrange(i - start + 1, rest.len() as int) =~= chars@.subrange(
                    i as int + 1,
                    n as int,
                ));
                assert(views(out@.push(line)) =~= views(out@) + seq![line@]);
            }
            out.push(line);
            start = i + 1;
        }
        i += 1;
    }
    if start < n {
        let line = string_of_range(&chars, start, n);
        proof {
            let rest = chars@.subrange(start as int, n as int);
            lemma_first_break(rest, rest.len() as int);
            assert(views(out@.push(line)) =~= views(out@) + seq![line@]);
        }
        out.push(line);
    }
    out
}

/// Lexicographic order on byte strings: at the first byte that differs the
/// smaller one decides, and a proper prefix comes first.
pub open spec fn lex_le(a: Seq<u8>, b: Seq<u8>) -> bool
    decreases a.len(),
{
    if a.len() == 0 {
        true
    } else if b.len() == 0 {
        false
    } else if a[0] != b[0] {
        a[0] < b[0]
    } else {
        lex_le(a.drop_first(), b.drop_first())
    }
}

/// Of two byte strings one is at most the other.
pub proof fn lemma_lex_le_total(a: Seq<u8>, b: Seq<u8>)
    ensures
        lex_le(a, b) || lex_le(b, a),
    decreases a.len(),
{
    if a.len() > 0 && b.len() > 0 && a[0] == b[0] {
        lemma_lex_le_total(a.drop_first(), b.drop_first());
    }
}

/// The order is transitive.
pub proof fn lemma_lex_le_transitive(a: Seq<u8>, b: Seq<u8>, c: Seq<u8>)
    requires
        lex_le(a, b),
        lex_le(b, c),
    ensures
        lex_le(a, c),
    decreases a.len(),
{
    if a.len() > 0 && b.len() > 0 && c.len() > 0 && a[0] == b[0] && b[0] == c[0] {
        lemma_lex_le_transitive(a.drop_first(), b.drop_first(), c.drop_first());
    }
}

/// Two byte strings that are each at most the other are equal.
pub proof fn lemma_lex_le_antisymmetric(a: Seq<u8>, b: Seq<u8>)
    requires
        lex_le(a, b),
        lex_le(b, a),
    ensures
        a == b,
    decreases a.len(),
{
    if a.len() > 0 && b.len() > 0 {
        lemma_lex_le_antisymmetric(a.drop_first(), b.drop_first());
        assert(a =~= seq![a[0]] + a.drop_first());
        assert(b =~= seq![b[0]] + b.drop_first());
    } else {
        assert(a =~= b);
    }
}

/// Tells whether `a` comes at or before `b` in byte order.
pub fn bytes_le(a: &[u8], b: &[u8]) -> (r: bool)
    ensures
        r == lex_le(a@, b@),
{
    let mut i: usize = 0;
    assert(a@.subrange(0, a@.len() as int) =~= a@);
    assert(b@.subrange(0, b@.len() as int) =~= b@);
    while i < a.len() && i < b.len()
        invariant
            i <= a.len(),
            i <= b.len(),
            lex_le(a@, b@) == lex_le(
                a@.subrange(i as int, a@.len() as int),
                b@.subrange(i as int, b@.len() as int),
            ),
        decreases a.len() - i,
    {
        if a[i] != b[i] {
            return a[i] < b[i];
        }
        assert(a@.subrange(i as int, a@.len() as int).drop_first() =~= a@.subrange(
            i as int + 1,
            a@.len() as int,
        ));
        assert(b@.subrange(i as int, b@.len() as int).drop_first() =~= b@.subrange(
            i as int + 1,
            b@.len() as int,
        ));
        i += 1;
    }
    i == a.len()
}

/// The bytes by which a text is ordered: its UTF-8 encoding.
pub open spec fn sort_key(s: Seq<char>) -> Seq<u8> {
    vstd::utf8::encode_utf8(s)
}

/// Tells whether text `a` comes at or before text `b` in byte order.
pub fn str_le(a: &str, b: &str) -> (r: bool)
    ensures
        r == lex_le(sort_key(a@), sort_key(b@)),
{
    bytes_le(a.as_bytes(), b.as_bytes())
}

} // verus!
