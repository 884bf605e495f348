//! Splitting text into lines and whitespace-separated tokens.
use vstd::prelude::*;

verus! {

/// Whether `c` has the Unicode property `White_Space`.
pub open spec fn is_space(c: char) -> bool {
    let u = c as u32;
    ||| 0x09 <= u <= 0x0D
    ||| u == 0x20
    ||| u == 0x85
    ||| u == 0xA0
    ||| u == 0x1680
    ||| 0x2000 <= u <= 0x200A
    ||| u == 0x2028
    ||| u == 0x2029
    ||| u == 0x202F
    ||| u == 0x205F
    ||| u == 0x3000
}

/// Tests a character for the Unicode property `White_Space`.
pub fn is_whitespace(c: char) -> (r: bool)
    ensures
        r == is_space(c),
{
    let u: u32 = c as u32;
    (0x09 <= u && u <= 0x0D) || u == 0x20 || u == 0x85 || u == 0xA0 || u == 0x1680 || (0x2000 <= u
        && u <= 0x200A) || u == 0x2028 || u == 0x2029 || u == 0x202F || u == 0x205F || u == 0x3000
}

/// The characters of a string, in order.
pub(crate) fn chars_of(s: &str) -> (r: Vec<char>)
    ensures
        r@ == s@,
{
    let mut v: Vec<char> = Vec::new();
    for c in it: s.chars()
        invariant
            it.seq() == s@,
            v@ == it.seq().take(it.index()),
    {
        v.push(c);
        assert(v@ =~= it.seq().take(it.index() + 1));
    }
    assert(v@ =~= s@);
    v
}

/// `String::push` appends the character to the end of the string and
/// leaves what was there as it was. This is taken from the documentation
/// of the standard library, not proved.
pub assume_specification[ String::push ](s: &mut String, c: char)
    ensures
        final(s)@ == old(s)@.push(c),
;

/// Builds the string that holds the characters `v[from..to]`.
pub(crate) fn string_of(v: &Vec<char>, from: usize, to: usize) -> (r: String)
    requires
        from <= to <= v.len(),
    ensures
        r@ == v@.subrange(from as int, to as int),
{
    let mut r = String::new();
    let mut i: usize = from;
    while i < to
        invariant
            from <= i <= to <= v.len(),
            r@ == v@.subrange(from as int, i as int),
        decreases to - i,
    {
        r.push(v[i]);
        i += 1;
        assert(r@ =~= v@.subrange(from as int, i as int));
    }
    assert(r@ =~= v@.subrange(from as int, to as int));
    r
}

/// The character sequences that a list of strings holds.
pub open spec fn texts(v: Seq<String>) -> Seq<Seq<char>> {
    Seq::new(v.len(), |i: int| v[i]@)
}

/// Where the run of non-space characters that holds position `i` ends:
/// the first position from `i` on that is a space or the end of `s`.
pub open spec fn run_end(s: Seq<char>, i: int) -> int
    decreases s.len() - i,
{
    if 0 <= i < s.len() && !is_space(s[i]) {
        run_end(s, i + 1)
    } else {
        i
    }
}

/// A token starts at `i`: a non-space character at the start of `s` or
/// right after a space.
pub open spec fn starts_token(s: Seq<char>, i: int) -> bool {
    &&& 0 <= i < s.len()
    &&& !is_space(s[i])
    &&& (i == 0 || is_space(s[i - 1]))
}

/// The tokens of `s` that start at position `i` or later.
pub open spec fn tokens_from(s: Seq<char>, i: int) -> Seq<Seq<char>>
    decreases s.len() - i,
{
    if i < 0 || i >= s.len() {
        Seq::empty()
    } else if starts_token(s, i) {
        seq![s.subrange(i, run_end(s, i))] + tokens_from(s, i + 1)
    } else {
        tokens_from(s, i + 1)
    }
}

/// The tokens of `s`: its maximal runs of non-space characters, in order.
pub open spec fn tokens_of(s: Seq<char>) -> Seq<Seq<char>> {
    tokens_from(s, 0)
}

proof fn lemma_run_end(s: Seq<char>, i: int, j: int)
    requires
        0 <= i <= j <= s.len(),
        forall|k: int| i <= k < j ==> !is_space(#[trigger] s[k]),
        j == s.len() || is_space(s[j]),
    ensures
        run_end(s, i) == j,
    decreases j - i,
{
    if i < j {
        lemma_run_end(s, i + 1, j);
    }
}

proof fn lemma_tokens_skip(s: Seq<char>, a: int, b: int)
    requires
        0 <= a <= b <= s.len(),
        forall|k: int| a <= k < b ==> !#[trigger] starts_token(s, k),
    ensures
        tokens_from(s, a) == tokens_from(s, b),
    decreases b - a,
{
    if a < b {
        lemma_tokens_skip(s, a + 1, b);
    }
}

/// A word: at least one character, and no space among them.
pub open spec fn is_word(t: Seq<char>) -> bool {
    &&& t.len() > 0
    &&& forall|k: int| 0 <= k < t.len() ==> !is_space(#[trigger] t[k])
}

proof fn lemma_run_is_word(s: Seq<char>, i: int)
    requires
        0 <= i < s.len(),
        !is_space(s[i]),
    ensures
        i < run_end(s, i) <= s.len(),
        forall|k: int| i <= k < run_end(s, i) ==> !is_space(#[trigger] s[k]),
        run_end(s, i) == s.len() || is_space(s[run_end(s, i)]),
    decreases s.len() - i,
{
    assert(run_end(s, i) == run_end(s, i + 1));
    if i + 1 < s.len() && !is_space(s[i + 1]) {
        lemma_run_is_word(s, i + 1);
    } else {
        assert(run_end(s, i + 1) == i + 1);
    }
}

proof fn lemma_tokens_from_are_words(s: Seq<char>, i: int)
    requires
        0 <= i,
    ensures
        forall|k: int|
            0 <= k < tokens_from(s, i).len() ==> is_word(#[trigger] tokens_from(s, i)[k]),
    decreases s.len() - i,
{
    if i < s.len() {
        lemma_tokens_from_are_words(s, i + 1);
        if starts_token(s, i) {
            lemma_run_is_word(s, i);
            let t = s.subrange(i, run_end(s, i));
            assert forall|k: int| 0 <= k < t.len() implies !is_space(#[trigger] t[k]) by {
                assert(t[k] == s[i + k]);
            }
            assert(is_word(t));
            let rest = tokens_from(s, i + 1);
            assert forall|k: int| 0 <= k < tokens_from(s, i).len() implies is_word(
                #[trigger] tokens_from(s, i)[k],
            ) by {
                assert(tokens_from(s, i) == seq![t] + rest);
                if k > 0 {
                    assert(tokens_from(s, i)[k] == rest[k - 1]);
                } else {
                    assert(tokens_from(s, i)[0] == t);
                }
            }
        } else {
            assert(tokens_from(s, i) == tokens_from(s, i + 1));
        }
    }
}

/// Every token is a word: it is not empty and holds no space.
pub proof fn lemma_tokens_are_words(s: Seq<char>)
    ensures
        forall|k: int| 0 <= k < tokens_of(s).len() ==> is_word(#[trigger] tokens_of(s)[k]),
{
    lemma_tokens_from_are_words(s, 0);
}

/// A text without a word has no token, and a text with no token has no
/// word: it is empty or all spaces.
pub proof fn lemma_no_tokens_iff_blank(s: Seq<char>)
    ensures
        tokens_of(s).len() == 0 <==> forall|k: int| 0 <= k < s.len() ==> is_space(#[trigger] s[k]),
{
    lemma_blank_from(s, 0);
}

proof fn lemma_blank_from(s: Seq<char>, i: int)
    requires
        0 <= i,
        i == 0 || i >= s.len() || is_space(s[i - 1]),
    ensures
        tokens_from(s, i).len() == 0 <==> forall|k: int|
            i <= k < s.len() ==> is_space(#[trigger] s[k]),
    decreases s.len() - i,
{
    if i < s.len() {
        if is_space(s[i]) {
            lemma_blank_from(s, i + 1);
        } else {
            assert(starts_token(s, i));
        }
    }
}

/// The parts in order, with `sep` between each two neighbours.
pub open spec fn joined(parts: Seq<Seq<char>>, sep: Seq<char>) -> Seq<char>
    decreases parts.len(),
{
    if parts.len() == 0 {
        Seq::empty()
    } else if parts.len() == 1 {
        parts[0]
    } else {
        joined(parts.drop_last(), sep) + sep + parts.last()
    }
}

/// A separator of tokens: at least one character, all of them spaces.
pub open spec fn is_gap(sep: Seq<char>) -> bool {
    &&& sep.len() > 0
    &&& forall|k: int| 0 <= k < sep.len() ==> is_space(#[trigger] sep[k])
}

proof fn lemma_tokens_of_word(w: Seq<char>)
    requires
        is_word(w),
    ensures
        tokens_of(w) == seq![w],
{
    lemma_run_end(w, 0, w.len() as int);
    assert(starts_token(w, 0));
    assert forall|k: int| 1 <= k < w.len() implies !#[trigger] starts_token(w, k) by {
        assert(!is_space(w[k - 1]));
    }
    lemma_tokens_skip(w, 1, w.len() as int);
    assert(w.subrange(0, w.len() as int) =~= w);
    assert(tokens_from(w, w.len() as int) =~= Seq::<Seq<char>>::empty());
    assert(tokens_from(w, 0) =~= seq![w]);
}

proof fn lemma_tokens_with_one_more(a: Seq<char>, sep: Seq<char>, w: Seq<char>, i: int)
    requires
        is_gap(sep),
        is_word(w),
        0 <= i <= a.len(),
    ensures
        tokens_from(a + (sep + w), i) == tokens_from(a, i).push(w),
    decreases a.len() - i,
{
    let s = a + (sep + w);
    if i == a.len() {
        let start = (a.len() + sep.len()) as int;
        assert forall|k: int| i <= k < start implies !#[trigger] starts_token(s, k) by {
            assert(s[k] == sep[k - a.len()]);
        }
        lemma_tokens_skip(s, i, start);
        assert(s[start] == w[0]);
        assert(s[start - 1] == sep[sep.len() - 1]);
        assert(starts_token(s, start));
        assert forall|k: int| start <= k < s.len() implies !is_space(#[trigger] s[k]) by {
            assert(s[k] == w[k - start]);
        }
        lemma_run_end(s, start, s.len() as int);
        assert forall|k: int| start + 1 <= k < s.len() implies !#[trigger] starts_token(s, k) by {
            assert(!is_space(s[k - 1]));
        }
        lemma_tokens_skip(s, start + 1, s.len() as int);
        assert(s.subrange(start, s.len() as int) =~= w);
        assert(tokens_from(s, s.len() as int) =~= Seq::<Seq<char>>::empty());
        assert(tokens_from(s, start) =~= seq![w]);
        assert(tokens_from(a, i) =~= Seq::<Seq<char>>::empty());
        assert(tokens_from(s, i) =~= tokens_from(a, i).push(w));
    } else {
        lemma_tokens_with_one_more(a, sep, w, i + 1);
        assert(s[i] == a[i]);
        if i > 0 {
            assert(s[i - 1] == a[i - 1]);
        }
        assert(starts_token(s, i) == starts_token(a, i));
        if starts_token(a, i) {
            lemma_run_is_word(a, i);
            let j = run_end(a, i);
            assert forall|k: int| i <= k < j implies !is_space(#[trigger] s[k]) by {
                assert(s[k] == a[k]);
            }
            if j < a.len() {
                assert(s[j] == a[j]);
            } else {
                assert(s[j] == sep[0]);
            }
            lemma_run_end(s, i, j);
            assert(s.subrange(i, j) =~= a.subrange(i, j));
            assert(tokens_from(s, i) =~= tokens_from(a, i).push(w));
        } else {
            assert(tokens_from(s, i) == tokens_from(s, i + 1));
            assert(tokens_from(a, i) == tokens_from(a, i + 1));
        }
    }
}

/// Splitting undoes joining: words that are joined with gaps between them
/// come back as the same words, none lost, merged or cut.
pub proof fn lemma_tokens_of_joined(words: Seq<Seq<char>>, sep: Seq<char>)
    requires
        is_gap(sep),
        forall|k: int| 0 <= k < words.len() ==> is_word(#[trigger] words[k]),
    ensures
        tokens_of(joined(words, sep)) == words,
    decreases words.len(),
{
    if words.len() == 0 {
        assert(tokens_of(Seq::<char>::empty()) =~= words);
    } else if words.len() == 1 {
        lemma_tokens_of_word(words[0]);
        assert(seq![words[0]] =~= words);
    } else {
        let before = words.drop_last();
        let a = joined(before, sep);
        assert forall|k: int| 0 <= k < before.len() implies is_word(#[trigger] before[k]) by {
            assert(before[k] == words[k]);
        }
        lemma_tokens_of_joined(before, sep);
        lemma_tokens_with_one_more(a, sep, words.last(), 0);
        assert(a + sep + words.last() =~= a + (sep + words.last()));
        assert(before.push(words.last()) =~= words);
    }
}

/// Splits a line of characters into its tokens.
pub(crate) fn tokens_of_chars(v: &Vec<char>) -> (r: Vec<String>)
    ensures
        texts(r@) == tokens_of(v@),
{
    let n: usize = v.len();
    let mut out: Vec<String> = Vec::new();
    let mut i: usize = 0;
    assert(texts(out@) + tokens_from(v@, 0) =~= tokens_of(v@));
    while i < n
        invariant
            n == v.len(),
            i <= n,
            i == 0 || i == n || is_space(v@[i - 1]) || is_space(v@[i as int]),
            texts(out@) + tokens_from(v@, i as int) == tokens_of(v@),
        decreases n - i,
    {
        if is_whitespace(v[i]) {
            i += 1;
        } else {
            let mut j: usize = i + 1;
            while j < n && !is_whitespace(v[j])
                invariant
                    n == v.len(),
                    i < j <= n,
                    forall|k: int| i <= k < j ==> !is_space(#[trigger] v@[k]),
                decreases n - j,
            {
                j += 1;
            }
            let token = string_of(v, i, j);
            proof {
                lemma_run_end(v@, i as int, j as int);
                assert(starts_token(v@, i as int));
                assert forall|k: int| i + 1 <= k < j implies !#[trigger] starts_token(v@, k) by {
                    assert(!is_space(v@[k - 1]));
                }
                lemma_tokens_skip(v@, i + 1, j as int);
                assert(texts(out@.push(token)) =~= texts(out@) + seq![token@]);
                assert(texts(out@.push(token)) + tokens_from(v@, j as int) =~= texts(out@)
                    + tokens_from(v@, i as int));
            }
            out.push(token);
            i = j;
        }
    }
    assert(texts(out@) + tokens_from(v@, n as int) =~= texts(out@));
    out
}

/// Splits a line on runs of whitespace.
pub fn tokenize(line: &str) -> (r: Vec<String>)
    ensures
        texts(r@) == tokens_of(line@),
{
    let v = chars_of(line);
    tokens_of_chars(&v)
}

/// Where the line that holds position `i` ends: the first line feed from
/// `i` on, or the end of `s`.
pub open spec fn line_end(s: Seq<char>, i: int) -> int
    decreases s.len() - i,
{
    if 0 <= i < s.len() && s[i] != '\n' {
        line_end(s, i + 1)
    } else {
        i
    }
}

/// A line starts at `i`: at the start of `s` or right after a line feed.
pub open spec fn starts_line(s: Seq<char>, i: int) -> bool {
    &&& 0 <= i < s.len()
    &&& (i == 0 || s[i - 1] == '\n')
}

/// The line that starts at `i`, without its line feed and without the
/// carriage return that may stand before that line feed.
pub open spec fn line_at(s: Seq<char>, i: int) -> Seq<char> {
    let j = line_end(s, i);
    if j < s.len() && i < j && s[j - 1] == '\r' {
        s.subrange(i, j - 1)
    } else {
        s.subrange(i, j)
    }
}

/// The lines of `s` that start at position `i` or later.
pub open spec fn lines_from(s: Seq<char>, i: int) -> Seq<Seq<char>>
    decreases s.len() - i,
{
    if i < 0 || i >= s.len() {
        Seq::empty()
    } else if starts_line(s, i) {
        seq![line_at(s, i)] + lines_from(s, i + 1)
    } else {
        lines_from(s, i + 1)
    }
}

/// The lines of `s`. A line ends at a line feed or at the end of `s`; a
/// final line feed opens no further line.
pub open spec fn lines_of(s: Seq<char>) -> Seq<Seq<char>> {
    lines_from(s, 0)
}

proof fn lemma_line_end(s: Seq<char>, i: int, j: int)
    requires
        0 <= i <= j <= s.len(),
        forall|k: int| i <= k < j ==> #[trigger] s[k] != '\n',
        j == s.len() || s[j] == '\n',
    ensures
        line_end(s, i) == j,
    decreases j - i,
{
    if i < j {
        lemma_line_end(s, i + 1, j);
    }
}

proof fn lemma_lines_skip(s: Seq<char>, a: int, b: int)
    requires
        0 <= a <= b,
        forall|k: int| a <= k < b && k < s.len() ==> !#[trigger] starts_line(s, k),
    ensures
        lines_from(s, a) == lines_from(s, b),
    decreases b - a,
{
    if a < b {
        lemma_lines_skip(s, a + 1, b);
    }
}

/// Splits a text into its lines.
pub fn split_lines(content: &str) -> (r: Vec<String>)
    ensures
        texts(r@) == lines_of(content@),
{
    let v = chars_of(content);
    let n: usize = v.len();
    let mut out: Vec<String> = Vec::new();
    let mut i: usize = 0;
    assert(texts(out@) + lines_from(v@, 0) =~= lines_of(v@));
    while i < n
        invariant
            n == v.len(),
            i <= n,
            i == 0 || i == n || v@[i - 1] == '\n',
            texts(out@) + lines_from(v@, i as int) == lines_of(v@),
        decreases n - i,
    {
        let mut j: usize = i;
        while j < n && v[j] != '\n'
            invariant
                n == v.len(),
                i <= j <= n,
                forall|k: int| i <= k < j ==> #[trigger] v@[k] != '\n',
            decreases n - j,
        {
            j += 1;
        }
        let end: usize = if j < n && i < j && v[j - 1] == '\r' {
            j - 1
        } else {
            j
        };
        let line = string_of(&v, i, end);
        let next: usize = if j < n {
            j + 1
        } else {
            n
        };
        proof {
            lemma_line_end(v@, i as int, j as int);
            assert(starts_line(v@, i as int));
            assert(line@ == line_at(v@, i as int));
            assert forall|k: int| i + 1 <= k < next && k < n implies !#[trigger] starts_line(
                v@,
                k,
            ) by {
                assert(v@[k - 1] != '\n');
            }
            lemma_lines_skip(v@, i + 1, next as int);
            assert(texts(out@.push(line)) =~= texts(out@) + seq![line@]);
            assert(texts(out@.push(line)) + lines_from(v@, next as int) =~= texts(out@)
                + lines_from(v@, i as int));
        }
        out.push(line);
        i = next;
    }
    assert(texts(out@) + lines_from(v@, n as int) =~= texts(out@));
    out
}

} // verus!
