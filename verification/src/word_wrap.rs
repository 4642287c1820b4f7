use vstd::prelude::*;
use vstd::string::StrSliceExecFns;

verus! {

/// The longest line, in bytes, that wrapping builds from several words.
pub const MAX_LINE_BYTES: usize = 50;

/// Unicode's `White_Space` characters: tab to carriage return, space, next line,
/// no-break space, ogham space mark, the en quad to hair space block, line and paragraph
/// separators, narrow no-break space, medium mathematical space and ideographic space.
pub open spec fn is_white_space(c: char) -> bool {
    let u = c as u32;
    ||| 0x9 <= u <= 0xD
    ||| u == 0x20
    ||| u == 0x85
    ||| u == 0xA0
    ||| u == 0x1680
    ||| 0x2000 <= u <= 0x200A
    ||| u == 0x2028
    ||| u == 0x2029
    ||| u == 0x202F
    ||| u == 0x205F
    ||| u == 0x3000
}

/// Whether `c` is a Unicode `White_Space` character.
pub fn white_space(c: char) -> (b: bool)
    ensures
        b == is_white_space(c),
{
    let u = c as u32;
    (0x9 <= u && u <= 0xD) || u == 0x20 || u == 0x85 || u == 0xA0 || u == 0x1680 || (0x2000 <= u && u
        <= 0x200A) || u == 0x2028 || u == 0x2029 || u == 0x202F || u == 0x205F || u == 0x3000
}

/// The number of bytes of `c` in UTF-8.
pub open spec fn utf8_len(c: char) -> nat {
    let u = c as u32;
    if u < 0x80 {
        1
    } else if u < 0x800 {
        2
    } else if u < 0x10000 {
        3
    } else {
        4
    }
}

/// The number of bytes of `c` in UTF-8.
pub fn char_utf8_len(c: char) -> (n: usize)
    ensures
        n == utf8_len(c),
{
    let u = c as u32;
    if u < 0x80 {
        1
    } else if u < 0x800 {
        2
    } else if u < 0x10000 {
        3
    } else {
        4
    }
}

/// The number of bytes of `s` in UTF-8.
pub open spec fn byte_len(s: Seq<char>) -> nat
    decreases s.len(),
{
    if s.len() == 0 {
        0
    } else {
        byte_len(s.drop_last()) + utf8_len(s.last())
    }
}

/// Bytes add up over concatenation.
pub proof fn lemma_byte_len_concat(a: Seq<char>, b: Seq<char>)
    ensures
        byte_len(a + b) == byte_len(a) + byte_len(b),
    decreases b.len(),
{
    if b.len() == 0 {
        assert(a + b =~= a);
    } else {
        lemma_byte_len_concat(a, b.drop_last());
        assert((a + b).drop_last() =~= a + b.drop_last());
    }
}

/// Every character takes one to four bytes.
pub proof fn lemma_byte_len_bounds(s: Seq<char>)
    ensures
        s.len() <= byte_len(s) <= 4 * s.len(),
    decreases s.len(),
{
    if s.len() > 0 {
        lemma_byte_len_bounds(s.drop_last());
    }
}

/// The words found in the first `k` characters of `s`, and the word still being read.
pub open spec fn split_state(s: Seq<char>, k: nat) -> (Seq<Seq<char>>, Seq<char>)
    decreases k,
{
    if k == 0 {
        (Seq::empty(), Seq::empty())
    } else {
        let (words, cur) = split_state(s, (k - 1) as nat);
        let c = s[k - 1];
        if is_white_space(c) {
            if cur.len() > 0 {
                (words.push(cur), Seq::empty())
            } else {
                (words, cur)
            }
        } else {
            (words, cur.push(c))
        }
    }
}

/// The maximal runs of characters of `s` that are not white space, in order.
pub open spec fn words_of(s: Seq<char>) -> Seq<Seq<char>> {
    let (words, cur) = split_state(s, s.len());
    if cur.len() > 0 {
        words.push(cur)
    } else {
        words
    }
}

/// `line` followed by a space and `word`, or `word` alone when `line` is empty.
pub open spec fn joined(line: Seq<char>, word: Seq<char>) -> Seq<char> {
    if line.len() > 0 {
        line.push(' ') + word
    } else {
        word
    }
}

/// The lines finished after placing the first `k` words, and the line being filled: a
/// word goes on the current line unless the line is not empty and the word, with the
/// separating space, would take it past the longest line.
pub open spec fn wrap_state(words: Seq<Seq<char>>, k: nat) -> (Seq<Seq<char>>, Seq<char>)
    decreases k,
{
    if k == 0 {
        (Seq::empty(), Seq::empty())
    } else {
        let (lines, cur) = wrap_state(words, (k - 1) as nat);
        let w = words[k - 1];
        if cur.len() > 0 && byte_len(cur) + byte_len(w) + 1 > MAX_LINE_BYTES {
            (lines.push(cur), w)
        } else {
            (lines, joined(cur, w))
        }
    }
}

/// The lines that wrapping `words` gives.
pub open spec fn wrapped_lines(words: Seq<Seq<char>>) -> Seq<Seq<char>> {
    let (lines, cur) = wrap_state(words, words.len());
    if cur.len() > 0 {
        lines.push(cur)
    } else {
        lines
    }
}

/// The words of `s`, as its characters split at white space.
pub fn split_whitespace(s: &str) -> (words: Vec<Vec<char>>)
    ensures
        words@.len() == words_of(s@).len(),
        forall|i: int| 0 <= i < words@.len() ==> #[trigger] words@[i]@ == words_of(s@)[i],
{
    let n = s.unicode_len();
    let mut words: Vec<Vec<char>> = Vec::new();
    let mut cur: Vec<char> = Vec::new();
    let mut k: usize = 0;
    while k < n
        invariant
            n == s@.len(),
            k <= n,
            words@.len() == split_state(s@, k as nat).0.len(),
            forall|i: int| 0 <= i < words@.len() ==> #[trigger] words@[i]@ == split_state(s@, k as nat).0[i],
            cur@ == split_state(s@, k as nat).1,
        decreases n - k,
    {
        let c = s.get_char(k);
        let ghost before = words@;
        if white_space(c) {
            if cur.len() > 0 {
                let done = cur;
                words.push(done);
                cur = Vec::new();
                proof {
                    assert forall|i: int| 0 <= i < words@.len() implies #[trigger] words@[i]@ == split_state(
                        s@,
                        (k + 1) as nat,
                    ).0[i] by {
                        if i < before.len() {
                            assert(words@[i] == before[i]);
                        }
                    }
                }
            }
        } else {
            cur.push(c);
        }
        k = k + 1;
    }
    if cur.len() > 0 {
        let ghost before = words@;
        words.push(cur);
        proof {
            assert forall|i: int| 0 <= i < words@.len() implies #[trigger] words@[i]@ == words_of(s@)[i] by {
                if i < before.len() {
                    assert(words@[i] == before[i]);
                }
            }
        }
    }
    words
}

/// The number of UTF-8 bytes of `s`.
fn bytes_of(s: &Vec<char>) -> (n: usize)
    requires
        4 * s@.len() <= usize::MAX,
    ensures
        n == byte_len(s@),
{
    let mut n: usize = 0;
    let mut i: usize = 0;
    while i < s.len()
        invariant
            i <= s@.len(),
            4 * s@.len() <= usize::MAX,
            n == byte_len(s@.subrange(0, i as int)),
            n <= 4 * i,
        decreases s@.len() - i,
    {
        proof {
            assert(s@.subrange(0, i + 1).drop_last() =~= s@.subrange(0, i as int));
        }
        n = n + char_utf8_len(s[i]);
        i = i + 1;
    }
    assert(s@.subrange(0, i as int) =~= s@);
    n
}

/// Every word of the first `k` placed, and the line being filled, is made of words of
/// the input, so none is longer than all of them together.
pub open spec fn total_len(words: Seq<Seq<char>>, k: nat) -> nat
    decreases k,
{
    if k == 0 {
        0
    } else {
        total_len(words, (k - 1) as nat) + words[k - 1].len() + 1
    }
}

/// The line being filled is never longer than the words placed so far with a space each.
proof fn lemma_wrap_cur_len(words: Seq<Seq<char>>, k: nat)
    requires
        k <= words.len(),
    ensures
        wrap_state(words, k).1.len() <= total_len(words, k),
    decreases k,
{
    if k > 0 {
        lemma_wrap_cur_len(words, (k - 1) as nat);
    }
}

/// Wraps `words` into lines of at most fifty bytes, a word too long for any line taking
/// a line of its own.
pub fn wrap_words(words: &Vec<Vec<char>>) -> (lines: Vec<Vec<char>>)
    requires
        4 * total_len(words@.map_values(|w: Vec<char>| w@), words@.len()) <= usize::MAX,
    ensures
        lines@.len() == wrapped_lines(words@.map_values(|w: Vec<char>| w@)).len(),
        forall|i: int|
            0 <= i < lines@.len() ==> #[trigger] lines@[i]@ == wrapped_lines(words@.map_values(|w: Vec<char>| w@))[i],
{
    let ghost ws = words@.map_values(|w: Vec<char>| w@);
    let mut lines: Vec<Vec<char>> = Vec::new();
    let mut cur: Vec<char> = Vec::new();
    let mut k: usize = 0;
    while k < words.len()
        invariant
            ws == words@.map_values(|w: Vec<char>| w@),
            k <= words@.len(),
            4 * total_len(ws, ws.len()) <= usize::MAX,
            lines@.len() == wrap_state(ws, k as nat).0.len(),
            forall|i: int| 0 <= i < lines@.len() ==> #[trigger] lines@[i]@ == wrap_state(ws, k as nat).0[i],
            cur@ == wrap_state(ws, k as nat).1,
        decreases words@.len() - k,
    {
        proof {
            lemma_wrap_cur_len(ws, k as nat);
            lemma_total_len_mono(ws, (k + 1) as nat, ws.len());
            assert(ws[k as int] == words@[k as int]@);
            assert(total_len(ws, (k + 1) as nat) == total_len(ws, k as nat) + ws[k as int].len() + 1);
            lemma_byte_len_bounds(cur@);
            lemma_byte_len_bounds(ws[k as int]);
        }
        let cur_bytes = bytes_of(&cur);
        let word_bytes = bytes_of(&words[k]);
        let ghost before = lines@;
        if cur.len() > 0 && cur_bytes + word_bytes + 1 > MAX_LINE_BYTES {
            let done = cur;
            lines.push(done);
            cur = words[k].clone();
            proof {
                assert(cur@ == words@[k as int]@);
                assert forall|i: int| 0 <= i < lines@.len() implies #[trigger] lines@[i]@ == wrap_state(
                    ws,
                    (k + 1) as nat,
                ).0[i] by {
                    if i < before.len() {
                        assert(lines@[i] == before[i]);
                    }
                }
            }
        } else {
            if cur.len() > 0 {
                cur.push(' ');
            }
            let mut i: usize = 0;
            let ghost start = cur@;
            while i < words[k].len()
                invariant
                    k < words@.len(),
                    i <= words@[k as int]@.len(),
                    cur@ == start + words@[k as int]@.subrange(0, i as int),
                decreases words@[k as int]@.len() - i,
            {
                cur.push(words[k][i]);
                i = i + 1;
                assert(cur@ =~= start + words@[k as int]@.subrange(0, i as int));
            }
            assert(words@[k as int]@.subrange(0, i as int) =~= words@[k as int]@);
        }
        k = k + 1;
    }
    if cur.len() > 0 {
        let ghost before = lines@;
        lines.push(cur);
        proof {
            assert forall|i: int| 0 <= i < lines@.len() implies #[trigger] lines@[i]@ == wrapped_lines(ws)[i] by {
                if i < before.len() {
                    assert(lines@[i] == before[i]);
                }
            }
        }
    }
    lines
}

/// The running total grows with the number of words counted.
proof fn lemma_total_len_mono(words: Seq<Seq<char>>, k: nat, m: nat)
    requires
        k <= m,
    ensures
        total_len(words, k) <= total_len(words, m),
    decreases m,
{
    if k < m {
        lemma_total_len_mono(words, k, (m - 1) as nat);
    }
}


/// Words put together with one space between each two.
pub open spec fn join_words(ws: Seq<Seq<char>>) -> Seq<char>
    decreases ws.len(),
{
    if ws.len() == 0 {
        Seq::empty()
    } else {
        joined(join_words(ws.drop_last()), ws.last())
    }
}

/// Joining is associative on non-empty words.
proof fn lemma_joined_assoc(a: Seq<char>, b: Seq<char>, c: Seq<char>)
    requires
        b.len() > 0,
        c.len() > 0,
    ensures
        joined(a, joined(b, c)) == joined(joined(a, b), c),
{
    if a.len() > 0 {
        assert(a.push(' ') + (b.push(' ') + c) =~= (a.push(' ') + b).push(' ') + c);
    }
}

/// What holds after placing the first `k` words: the line being filled is empty only
/// before the first word; every line is non-empty; a line, finished or not, is at most
/// fifty bytes long unless it is a single word; and the lines, with the one being filled,
/// put back together with spaces give the words placed so far put together with spaces.
proof fn lemma_wrap_state(words: Seq<Seq<char>>, k: nat)
    requires
        k <= words.len(),
        forall|i: int| 0 <= i < words.len() ==> (#[trigger] words[i]).len() > 0,
    ensures
        ({
            let (lines, cur) = wrap_state(words, k);
            &&& (k == 0 <==> cur.len() == 0)
            &&& k == 0 ==> lines.len() == 0
            &&& forall|j: int| 0 <= j < lines.len() ==> (#[trigger] lines[j]).len() > 0
            &&& forall|j: int| 0 <= j < lines.len() ==> byte_len(#[trigger] lines[j]) <= MAX_LINE_BYTES || words.contains(lines[j])
            &&& byte_len(cur) <= MAX_LINE_BYTES || words.contains(cur)
            &&& k > 0 ==> join_words(lines.push(cur)) == join_words(words.subrange(0, k as int))
        }),
    decreases k,
{
    if k > 0 {
        lemma_wrap_state(words, (k - 1) as nat);
        let (lines, cur) = wrap_state(words, (k - 1) as nat);
        let w = words[k - 1];
        assert(words.contains(w));
        assert(words.subrange(0, k as int).drop_last() =~= words.subrange(0, k - 1));
        if cur.len() > 0 && byte_len(cur) + byte_len(w) + 1 > MAX_LINE_BYTES {
            let lines2 = lines.push(cur);
            assert forall|j: int| 0 <= j < lines2.len() implies byte_len(#[trigger] lines2[j]) <= MAX_LINE_BYTES
                || words.contains(lines2[j]) by {
                if j < lines.len() {
                    assert(lines2[j] == lines[j]);
                }
            }
            assert(lines2.push(w).drop_last() =~= lines2);
            assert(lines.push(cur).drop_last() =~= lines);
        } else {
            if cur.len() > 0 {
                lemma_byte_len_concat(cur.push(' '), w);
                lemma_byte_len_concat(cur, seq![' ']);
                assert(cur.push(' ') =~= cur + seq![' ']);
                assert(seq![' '].drop_last() =~= Seq::<char>::empty());
                assert(byte_len(seq![' ']) == 1) by {
                    assert(seq![' '].last() == ' ');
                    assert(byte_len(seq![' '].drop_last()) == 0);
                }
                lemma_joined_assoc(join_words(lines), cur, w);
                assert(lines.push(joined(cur, w)).drop_last() =~= lines);
                assert(lines.push(cur).drop_last() =~= lines);
            } else {
                assert(lines.push(w).drop_last() =~= lines);
                assert(words.subrange(0, k - 1) =~= Seq::<Seq<char>>::empty());
            }
        }
    }
}

/// Wrapping keeps the text and the order of the words and changes only which of the
/// separating spaces become line breaks: the lines put back together with spaces give the
/// words put together with spaces. Every line holds something, and no line is longer
/// than fifty bytes unless it is a single word.
pub proof fn lemma_wrap_laws(words: Seq<Seq<char>>)
    requires
        forall|i: int| 0 <= i < words.len() ==> (#[trigger] words[i]).len() > 0,
    ensures
        join_words(wrapped_lines(words)) == join_words(words),
        forall|j: int| 0 <= j < wrapped_lines(words).len() ==> (#[trigger] wrapped_lines(words)[j]).len() > 0,
        forall|j: int|
            0 <= j < wrapped_lines(words).len() ==> byte_len(#[trigger] wrapped_lines(words)[j]) <= MAX_LINE_BYTES
                || words.contains(wrapped_lines(words)[j]),
{
    lemma_wrap_state(words, words.len());
    let (lines, cur) = wrap_state(words, words.len());
    assert(words.subrange(0, words.len() as int) =~= words);
    let out = wrapped_lines(words);
    if cur.len() > 0 {
        assert forall|j: int| 0 <= j < out.len() implies (#[trigger] out[j]).len() > 0 && (byte_len(out[j]) <= MAX_LINE_BYTES
            || words.contains(out[j])) by {
            if j < lines.len() {
                assert(out[j] == lines[j]);
            }
        }
    } else {
        assert(words.len() == 0);
    }
}

/// The words of a text are never empty.
pub proof fn lemma_words_nonempty(s: Seq<char>)
    ensures
        forall|i: int| 0 <= i < words_of(s).len() ==> (#[trigger] words_of(s)[i]).len() > 0,
{
    lemma_split_state(s, s.len());
    let (words, cur) = split_state(s, s.len());
    let out = words_of(s);
    assert forall|i: int| 0 <= i < out.len() implies (#[trigger] out[i]).len() > 0 by {
        if i < words.len() {
            assert(out[i] == words[i]);
        }
    }
}

/// Every word found so far is non-empty.
proof fn lemma_split_state(s: Seq<char>, k: nat)
    requires
        k <= s.len(),
    ensures
        forall|i: int| 0 <= i < split_state(s, k).0.len() ==> (#[trigger] split_state(s, k).0[i]).len() > 0,
    decreases k,
{
    if k > 0 {
        lemma_split_state(s, (k - 1) as nat);
        let (words, cur) = split_state(s, (k - 1) as nat);
        let next = split_state(s, k).0;
        assert forall|i: int| 0 <= i < next.len() implies (#[trigger] next[i]).len() > 0 by {
            if i < words.len() {
                assert(next[i] == words[i]);
            }
        }
    }
}


/// The words found so far, with a separator each, and the word being read take no more
/// characters than have been read.
proof fn lemma_split_bounds(s: Seq<char>, k: nat)
    requires
        k <= s.len(),
    ensures
        ({
            let (words, cur) = split_state(s, k);
            &&& total_len(words, words.len()) + cur.len() <= k
            &&& words.len() + cur.len() <= k
            &&& forall|i: int| 0 <= i < words.len() ==> (#[trigger] words[i]).len() <= k
        }),
    decreases k,
{
    if k > 0 {
        lemma_split_bounds(s, (k - 1) as nat);
        let (words, cur) = split_state(s, (k - 1) as nat);
        let next = split_state(s, k).0;
        if is_white_space(s[k - 1]) && cur.len() > 0 {
            assert(next == words.push(cur));
            assert(next.drop_last() =~= words);
            lemma_total_len_prefix(next, words.len() as nat);
            assert forall|i: int| 0 <= i < next.len() implies (#[trigger] next[i]).len() <= k by {
                if i < words.len() {
                    assert(next[i] == words[i]);
                }
            }
        }
    }
}

/// The running total over a prefix of the words depends only on that prefix.
proof fn lemma_total_len_prefix(words: Seq<Seq<char>>, k: nat)
    requires
        k < words.len(),
    ensures
        total_len(words, k) == total_len(words.subrange(0, k as int), k),
    decreases k,
{
    if k > 0 {
        lemma_total_len_prefix(words, (k - 1) as nat);
        lemma_total_len_prefix(words.subrange(0, k as int), (k - 1) as nat);
        assert(words.subrange(0, k as int).subrange(0, k - 1) =~= words.subrange(0, k - 1));
    }
}

/// The words of `s`: at most one more separator than characters in all, no more words
/// than characters, and no word longer than `s`.
pub proof fn lemma_words_bounds(s: Seq<char>)
    ensures
        total_len(words_of(s), words_of(s).len()) <= s.len() + 1,
        words_of(s).len() <= s.len(),
        forall|i: int| 0 <= i < words_of(s).len() ==> (#[trigger] words_of(s)[i]).len() <= s.len(),
{
    lemma_split_bounds(s, s.len());
    let (words, cur) = split_state(s, s.len());
    let out = words_of(s);
    if cur.len() > 0 {
        assert(out.drop_last() =~= words);
        lemma_total_len_prefix(out, words.len() as nat);
        assert(out.subrange(0, words.len() as int) =~= words);
        assert forall|i: int| 0 <= i < out.len() implies (#[trigger] out[i]).len() <= s.len() by {
            if i < words.len() {
                assert(out[i] == words[i]);
            }
        }
    }
}

/// Wrapping makes no more lines than there are words.
proof fn lemma_wrap_count(words: Seq<Seq<char>>, k: nat)
    requires
        k <= words.len(),
    ensures
        wrap_state(words, k).0.len() + (if wrap_state(words, k).1.len() > 0 {
            1int
        } else {
            0int
        }) <= k,
    decreases k,
{
    if k > 0 {
        lemma_wrap_count(words, (k - 1) as nat);
    }
}

/// The lines of a wrapped text: no more of them than characters in the text, and none
/// longer than fifty characters or the text.
pub proof fn lemma_wrapped_text_bounds(s: Seq<char>)
    ensures
        wrapped_lines(words_of(s)).len() <= s.len(),
        forall|j: int|
            0 <= j < wrapped_lines(words_of(s)).len() ==> (#[trigger] wrapped_lines(words_of(s))[j]).len() <= MAX_LINE_BYTES
                || wrapped_lines(words_of(s))[j].len() <= s.len(),
{
    let words = words_of(s);
    lemma_words_bounds(s);
    lemma_words_nonempty(s);
    lemma_wrap_laws(words);
    lemma_wrap_count(words, words.len());
    lemma_wrap_state(words, words.len());
    let lines = wrapped_lines(words);
    assert forall|j: int| 0 <= j < lines.len() implies (#[trigger] lines[j]).len() <= MAX_LINE_BYTES || lines[j].len()
        <= s.len() by {
        lemma_byte_len_bounds(lines[j]);
        if !(byte_len(lines[j]) <= MAX_LINE_BYTES) {
            let i = choose|i: int| 0 <= i < words.len() && words[i] == lines[j];
        }
    }
}

} // verus!
