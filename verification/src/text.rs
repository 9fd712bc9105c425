//! Cutting text at separators.
//!
//! Text is modelled as `Seq<char>`, the view of `str` and `String`. The spec
//! functions say what the pieces of a text are; the executable functions
//! compute them on `&str` and hand out slices of the input.

use vstd::prelude::*;

verus! {

/// Whether `c` has the Unicode property `White_Space`.
pub open spec fn is_whitespace(c: char) -> bool {
    let n = c as u32;
    ||| 0x09 <= n <= 0x0D
    ||| n == 0x20
    ||| n == 0x85
    ||| n == 0xA0
    ||| n == 0x1680
    ||| 0x2000 <= n <= 0x200A
    ||| n == 0x2028
    ||| n == 0x2029
    ||| n == 0x202F
    ||| n == 0x205F
    ||| n == 0x3000
}

/// What ends a piece of text: any whitespace character, or one given character.
#[derive(Clone, Copy, Debug)]
pub enum Separator {
    Whitespace,
    Char(char),
}

impl Separator {
    /// Whether `c` is a separator of this kind.
    pub open spec fn separates(self, c: char) -> bool {
        match self {
            Separator::Whitespace => is_whitespace(c),
            Separator::Char(d) => c == d,
        }
    }

    /// Tests whether `c` is a separator of this kind.
    pub fn test(&self, c: char) -> (b: bool)
        ensures
            b == self.separates(c),
    {
        match self {
            Separator::Whitespace => {
                let n: u32 = c as u32;
                (0x09 <= n && n <= 0x0D) || n == 0x20 || n == 0x85 || n == 0xA0 || n == 0x1680 || (
                0x2000 <= n && n <= 0x200A) || n == 0x2028 || n == 0x2029 || n == 0x202F || n
                    == 0x205F || n == 0x3000
            },
            Separator::Char(d) => c == *d,
        }
    }
}

/// The length of the longest prefix of `s` that holds no separator.
pub open spec fn run_len(s: Seq<char>, sep: Separator) -> nat
    decreases s.len(),
{
    if s.len() == 0 || sep.separates(s[0]) {
        0
    } else {
        1 + run_len(s.skip(1), sep)
    }
}

/// The non-empty pieces of `s` between separators, in order: runs of
/// separators count as one, and those at either end are dropped.
pub open spec fn words(s: Seq<char>, sep: Separator) -> Seq<Seq<char>>
    decreases s.len(),
    via words_decreases
{
    if s.len() == 0 {
        Seq::empty()
    } else if sep.separates(s[0]) {
        words(s.skip(1), sep)
    } else {
        seq![s.take(run_len(s, sep) as int)] + words(s.skip(run_len(s, sep) as int), sep)
    }
}

#[via_fn]
proof fn words_decreases(s: Seq<char>, sep: Separator) {
    lemma_run_len(s, sep);
}

/// The pieces of `s` between separators, empty ones included: one more than
/// there are separators in `s`.
pub open spec fn fields(s: Seq<char>, sep: Separator) -> Seq<Seq<char>>
    decreases s.len(),
{
    let r = run_len(s, sep) as int;
    if r >= s.len() {
        seq![s]
    } else {
        seq![s.take(r)] + fields(s.skip(r + 1), sep)
    }
}

/// `s` cut at its first separator: what stands before it and what stands
/// after it, or `None` where `s` holds no separator.
pub open spec fn cut(s: Seq<char>, sep: Separator) -> Option<(Seq<char>, Seq<char>)> {
    let r = run_len(s, sep) as int;
    if r < s.len() {
        Some((s.take(r), s.skip(r + 1)))
    } else {
        None
    }
}

/// What follows `prefix` in `s`, or `None` where `s` does not begin with it.
pub open spec fn after_prefix(s: Seq<char>, prefix: Seq<char>) -> Option<Seq<char>> {
    if prefix.is_prefix_of(s) {
        Some(s.skip(prefix.len() as int))
    } else {
        None
    }
}

/// The views of the slices in `v`.
pub open spec fn views(v: Seq<&str>) -> Seq<Seq<char>> {
    Seq::new(v.len(), |i: int| v[i]@)
}

/// The characters of an optional string.
pub open spec fn text_of(s: Option<String>) -> Option<Seq<char>> {
    match s {
        Some(s) => Some(s@),
        None => None,
    }
}

/// The views of the strings in `v`.
pub open spec fn texts(v: Seq<String>) -> Seq<Seq<char>> {
    Seq::new(v.len(), |i: int| v[i]@)
}

/// `run_len` marks the first separator: no separator stands before it, and
/// one stands at it unless it is the end of `s`.
pub proof fn lemma_run_len(s: Seq<char>, sep: Separator)
    ensures
        run_len(s, sep) <= s.len(),
        forall|j: int| 0 <= j < run_len(s, sep) ==> !sep.separates(#[trigger] s[j]),
        run_len(s, sep) < s.len() ==> sep.separates(s[run_len(s, sep) as int]),
        s.len() > 0 && !sep.separates(s[0]) ==> run_len(s, sep) >= 1,
    decreases s.len(),
{
    if s.len() > 0 && !sep.separates(s[0]) {
        let t = s.skip(1);
        lemma_run_len(t, sep);
        assert forall|j: int| 0 <= j < run_len(s, sep) implies !sep.separates(#[trigger] s[j]) by {
            if j > 0 {
                assert(s[j] == t[j - 1]);
            }
        }
    }
}

/// The position that `lemma_run_len` describes is the only one.
pub proof fn lemma_run_len_is(s: Seq<char>, sep: Separator, n: int)
    requires
        0 <= n <= s.len(),
        forall|j: int| 0 <= j < n ==> !sep.separates(#[trigger] s[j]),
        n < s.len() ==> sep.separates(s[n]),
    ensures
        run_len(s, sep) == n,
    decreases s.len(),
{
    if s.len() > 0 && !sep.separates(s[0]) {
        let t = s.skip(1);
        assert forall|j: int| 0 <= j < n - 1 implies !sep.separates(#[trigger] t[j]) by {
            assert(t[j] == s[j + 1]);
        }
        lemma_run_len_is(t, sep, n - 1);
    }
}

/// How many separators `s` holds.
pub open spec fn separators_in(s: Seq<char>, sep: Separator) -> nat
    decreases s.len(),
{
    if s.len() == 0 {
        0
    } else if sep.separates(s[0]) {
        1 + separators_in(s.skip(1), sep)
    } else {
        separators_in(s.skip(1), sep)
    }
}

/// Whether `s` holds no separator.
pub open spec fn plain(s: Seq<char>, sep: Separator) -> bool {
    forall|j: int| 0 <= j < s.len() ==> !sep.separates(#[trigger] s[j])
}

/// Text without a separator is one run.
pub proof fn lemma_plain_run(s: Seq<char>, sep: Separator)
    requires
        plain(s, sep),
    ensures
        run_len(s, sep) == s.len(),
{
    lemma_run_len_is(s, sep, s.len() as int);
}

/// A run ends at the separator that follows plain text.
pub proof fn lemma_run_before(a: Seq<char>, c: char, b: Seq<char>, sep: Separator)
    requires
        plain(a, sep),
        sep.separates(c),
    ensures
        run_len(a + seq![c] + b, sep) == a.len(),
        (a + seq![c] + b).take(a.len() as int) == a,
        (a + seq![c] + b).skip(a.len() as int + 1) == b,
{
    let s = a + seq![c] + b;
    assert forall|j: int| 0 <= j < a.len() implies !sep.separates(#[trigger] s[j]) by {
        assert(s[j] == a[j]);
    }
    lemma_run_len_is(s, sep, a.len() as int);
}

/// The words of two texts joined by a separator are the words of the first
/// and then those of the second.
pub proof fn lemma_words_join(a: Seq<char>, c: char, b: Seq<char>, sep: Separator)
    requires
        sep.separates(c),
    ensures
        words(a + seq![c] + b, sep) == words(a, sep) + words(b, sep),
    decreases a.len(),
{
    let s = a + seq![c] + b;
    if a.len() == 0 {
        assert(s.skip(1) =~= b);
    } else if sep.separates(a[0]) {
        assert(s.skip(1) =~= a.skip(1) + seq![c] + b);
        lemma_words_join(a.skip(1), c, b, sep);
    } else {
        lemma_run_len(a, sep);
        let r = run_len(a, sep) as int;
        assert forall|j: int| 0 <= j < r implies !sep.separates(#[trigger] s[j]) by {
            assert(s[j] == a[j]);
        }
        lemma_run_len_is(s, sep, r);
        assert(s.take(r) =~= a.take(r));
        assert(s.skip(r) =~= a.skip(r) + seq![c] + b);
        lemma_words_join(a.skip(r), c, b, sep);
    }
}

/// Plain text that is not empty is its own single word.
pub proof fn lemma_plain_word(s: Seq<char>, sep: Separator)
    requires
        s.len() > 0,
        plain(s, sep),
    ensures
        words(s, sep) == seq![s],
{
    lemma_plain_run(s, sep);
    assert(s.take(s.len() as int) =~= s);
    assert(words(s.skip(s.len() as int), sep) =~= Seq::<Seq<char>>::empty());
}

/// Text made of separators alone holds no word.
pub proof fn lemma_words_none(s: Seq<char>, sep: Separator)
    requires
        forall|j: int| 0 <= j < s.len() ==> sep.separates(#[trigger] s[j]),
    ensures
        words(s, sep) == Seq::<Seq<char>>::empty(),
    decreases s.len(),
{
    if s.len() > 0 {
        let t = s.skip(1);
        assert forall|j: int| 0 <= j < t.len() implies sep.separates(#[trigger] t[j]) by {
            assert(t[j] == s[j + 1]);
        }
        lemma_words_none(t, sep);
    }
}

/// Every word is plain and not empty.
pub proof fn lemma_words_plain(s: Seq<char>, sep: Separator)
    ensures
        forall|i: int|
            0 <= i < words(s, sep).len() ==> (#[trigger] words(s, sep)[i]).len() > 0 && plain(
                words(s, sep)[i],
                sep,
            ),
    decreases s.len(),
{
    if s.len() == 0 {
    } else if sep.separates(s[0]) {
        lemma_words_plain(s.skip(1), sep);
        assert(words(s, sep) == words(s.skip(1), sep));
    } else {
        lemma_run_len(s, sep);
        let r = run_len(s, sep) as int;
        lemma_words_plain(s.skip(r), sep);
        let rest = words(s.skip(r), sep);
        assert forall|i: int| 0 <= i < words(s, sep).len() implies (#[trigger] words(
            s,
            sep,
        )[i]).len() > 0 && plain(words(s, sep)[i], sep) by {
            if i == 0 {
                let first = s.take(r);
                assert forall|j: int| 0 <= j < first.len() implies !sep.separates(
                    #[trigger] first[j],
                ) by {
                    assert(first[j] == s[j]);
                }
            } else {
                assert(words(s, sep)[i] == rest[i - 1]);
            }
        }
    }
}

/// The first field of plain text followed by a separator is that text; the
/// other fields are those of what follows the separator.
pub proof fn lemma_fields_join(a: Seq<char>, c: char, b: Seq<char>, sep: Separator)
    requires
        plain(a, sep),
        sep.separates(c),
    ensures
        fields(a + seq![c] + b, sep) == seq![a] + fields(b, sep),
{
    lemma_run_before(a, c, b, sep);
}

/// Plain text is its own single field.
pub proof fn lemma_plain_field(s: Seq<char>, sep: Separator)
    requires
        plain(s, sep),
    ensures
        fields(s, sep) == seq![s],
{
    lemma_plain_run(s, sep);
}

/// Plain text followed by a separator is cut there, whatever follows.
pub proof fn lemma_cut_join(a: Seq<char>, c: char, b: Seq<char>, sep: Separator)
    requires
        plain(a, sep),
        sep.separates(c),
    ensures
        cut(a + seq![c] + b, sep) == Some((a, b)),
{
    lemma_run_before(a, c, b, sep);
}

/// Text is cut exactly where it holds a separator.
pub proof fn lemma_cut_none(s: Seq<char>, sep: Separator)
    ensures
        cut(s, sep) is None <==> plain(s, sep),
{
    lemma_run_len(s, sep);
    if plain(s, sep) {
        lemma_plain_run(s, sep);
    }
}

/// There is one field more than there are separators.
pub proof fn lemma_field_count(s: Seq<char>, sep: Separator)
    ensures
        fields(s, sep).len() == separators_in(s, sep) + 1,
    decreases s.len(),
{
    lemma_run_len(s, sep);
    let r = run_len(s, sep) as int;
    lemma_separators_after_run(s, sep, r);
    if r < s.len() {
        lemma_field_count(s.skip(r + 1), sep);
        assert(s.skip(r).skip(1) =~= s.skip(r + 1));
    }
}

/// The separators of `s` are those behind its first `n` characters, where
/// these hold none.
proof fn lemma_separators_after_run(s: Seq<char>, sep: Separator, n: int)
    requires
        0 <= n <= s.len(),
        forall|j: int| 0 <= j < n ==> !sep.separates(#[trigger] s[j]),
    ensures
        separators_in(s, sep) == separators_in(s.skip(n), sep),
    decreases n,
{
    if n == 0 {
        assert(s.skip(0) =~= s);
    } else {
        let t = s.skip(1);
        assert forall|j: int| 0 <= j < n - 1 implies !sep.separates(#[trigger] t[j]) by {
            assert(t[j] == s[j + 1]);
        }
        lemma_separators_after_run(t, sep, n - 1);
        assert(t.skip(n - 1) =~= s.skip(n));
    }
}

/// The characters of `s`, in order.
pub fn chars_of(s: &str) -> (v: Vec<char>)
    ensures
        v@ == s@,
{
    let mut v: Vec<char> = Vec::new();
    for c in it: s.chars()
        invariant
            it.seq() == s@,
            v@ == it.seq().take(it.index() as int),
    {
        v.push(c);
    }
    v
}

/// The end of the run of non-separators that begins at `from`.
fn run_end(chars: &Vec<char>, from: usize, sep: Separator) -> (to: usize)
    requires
        from <= chars.len(),
    ensures
        from <= to <= chars.len(),
        to == from + run_len(chars@.skip(from as int), sep),
{
    let n = chars.len();
    let mut to = from;
    while to < n && !sep.test(chars[to])
        invariant
            n == chars.len(),
            from <= to <= n,
            forall|j: int| from <= j < to ==> !sep.separates(#[trigger] chars@[j]),
        decreases n - to,
    {
        to += 1;
    }
    proof {
        let t = chars@.skip(from as int);
        assert forall|j: int| 0 <= j < to - from implies !sep.separates(#[trigger] t[j]) by {
            assert(t[j] == chars@[from + j]);
        }
        lemma_run_len_is(t, sep, to - from);
    }
    to
}

/// Cuts `s` into its words: the non-empty pieces between separators.
pub fn split_words<'a>(s: &'a str, sep: Separator) -> (out: Vec<&'a str>)
    ensures
        views(out@) == words(s@, sep),
{
    let chars = chars_of(s);
    let n = chars.len();
    let mut out: Vec<&'a str> = Vec::new();
    let mut i: usize = 0;
    assert(s@.skip(0) == s@);
    while i < n
        invariant
            chars@ == s@,
            n == chars.len(),
            i <= n,
            views(out@) + words(s@.skip(i as int), sep) == words(s@, sep),
        decreases n - i,
    {
        let ghost rest = s@.skip(i as int);
        if sep.test(chars[i]) {
            assert(rest.skip(1) == s@.skip(i + 1));
            i += 1;
        } else {
            let j = run_end(&chars, i, sep);
            let word = s.substring_char(i, j);
            proof {
                lemma_run_len(rest, sep);
                assert(rest.take(j - i) == s@.subrange(i as int, j as int));
                assert(rest.skip(j - i) == s@.skip(j as int));
            }
            out.push(word);
            i = j;
        }
    }
    out
}

/// Cuts `s` into its fields: the pieces between separators, empty or not.
pub fn split_fields<'a>(s: &'a str, sep: Separator) -> (out: Vec<&'a str>)
    ensures
        views(out@) == fields(s@, sep),
{
    let chars = chars_of(s);
    let n = chars.len();
    let mut out: Vec<&'a str> = Vec::new();
    let mut i: usize = 0;
    assert(s@.skip(0) == s@);
    loop
        invariant_except_break
            views(out@) + fields(s@.skip(i as int), sep) == fields(s@, sep),
        invariant
            chars@ == s@,
            n == chars.len(),
            i <= n,
        ensures
            views(out@) == fields(s@, sep),
        decreases n - i,
    {
        let ghost rest = s@.skip(i as int);
        let j = run_end(&chars, i, sep);
        let field = s.substring_char(i, j);
        proof {
            if j < n {
                assert(rest.take(j - i) == s@.subrange(i as int, j as int));
                assert(rest.skip(j - i + 1) == s@.skip(j + 1));
            } else {
                assert(rest == s@.subrange(i as int, j as int));
            }
        }
        out.push(field);
        if j >= n {
            break ;
        }
        i = j + 1;
    }
    out
}

/// Cuts `s` at its first separator.
pub fn split_once<'a>(s: &'a str, sep: Separator) -> (out: Option<(&'a str, &'a str)>)
    ensures
        match out {
            Some((before, after)) => cut(s@, sep) == Some((before@, after@)),
            None => cut(s@, sep) is None,
        },
{
    let chars = chars_of(s);
    let n = chars.len();
    let at = run_end(&chars, 0, sep);
    assert(s@.skip(0) == s@);
    if at < n {
        let before = s.substring_char(0, at);
        let after = s.substring_char(at + 1, n);
        Some((before, after))
    } else {
        None
    }
}

/// Takes `prefix` off the front of `s`.
pub fn strip_prefix<'a>(s: &'a str, prefix: &str) -> (out: Option<&'a str>)
    ensures
        match out {
            Some(rest) => after_prefix(s@, prefix@) == Some(rest@),
            None => after_prefix(s@, prefix@) is None,
        },
{
    let chars = chars_of(s);
    let head = chars_of(prefix);
    let n = chars.len();
    let m = head.len();
    if m > n {
        return None;
    }
    let mut i: usize = 0;
    while i < m
        invariant
            chars@ == s@,
            head@ == prefix@,
            n == chars.len(),
            m == head.len(),
            i <= m <= n,
            forall|j: int| 0 <= j < i ==> chars@[j] == head@[j],
        decreases m - i,
    {
        if chars[i] != head[i] {
            return None;
        }
        i += 1;
    }
    let rest = s.substring_char(m, n);
    Some(rest)
}

} // verus!
