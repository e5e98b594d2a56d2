//! Whitespace handling for attribute text: trimming and splitting into words.

use vstd::prelude::*;
use vstd::std_specs::iter::IteratorSpec;
use vstd::string::*;

verus! {

/// Whether `c` has the Unicode property White_Space.
pub open spec fn is_space(c: char) -> bool {
    let u = c as u32;
    ||| 0x09 <= u <= 0x0D
    ||| u == 0x20
    ||| u == 0x85
    ||| u == 0xA0
    ||| u == 0x1680
    ||| 0x2000 <= u <= 0x200A
    ||| u == 0x2028
    ||| u == 0x2029
    ||| u == 0x202F
    ||| u == 0x205F
    ||| u == 0x3000
}

/// Whether `c` has the Unicode property White_Space.
pub fn is_whitespace(c: char) -> (r: bool)
    ensures
        r == is_space(c),
{
    let u: u32 = c as u32;
    (0x09 <= u && u <= 0x0D) || u == 0x20 || u == 0x85 || u == 0xA0 || u == 0x1680 || (0x2000 <= u
        && u <= 0x200A) || u == 0x2028 || u == 0x2029 || u == 0x202F || u == 0x205F || u == 0x3000
}

/// The length of `s` without its trailing whitespace.
pub open spec fn trimmed_len(s: Seq<char>) -> nat
    decreases s.len(),
{
    if s.len() > 0 && is_space(s.last()) {
        trimmed_len(s.drop_last())
    } else {
        s.len()
    }
}

/// `s` without its trailing whitespace.
pub open spec fn trim_end(s: Seq<char>) -> Seq<char> {
    s.take(trimmed_len(s) as int)
}

/// `trimmed_len(s)` is the one cut after which only whitespace follows and
/// before which the text is empty or ends in a character that is none.
pub proof fn lemma_trimmed_len(s: Seq<char>)
    ensures
        trimmed_len(s) <= s.len(),
        forall|i: int| trimmed_len(s) <= i < s.len() ==> is_space(#[trigger] s[i]),
        trimmed_len(s) > 0 ==> !is_space(s[trimmed_len(s) - 1]),
    decreases s.len(),
{
    if s.len() > 0 && is_space(s.last()) {
        let front = s.drop_last();
        lemma_trimmed_len(front);
        assert forall|i: int| trimmed_len(s) <= i < s.len() implies is_space(#[trigger] s[i]) by {
            if i < front.len() {
                assert(s[i] == front[i]);
            }
        }
    }
}

/// Text that is empty or ends in a character that is no whitespace is
/// unchanged by trimming.
pub proof fn lemma_trim_end_fixed(s: Seq<char>)
    requires
        s.len() == 0 || !is_space(s.last()),
    ensures
        trim_end(s) == s,
{
    assert(s.take(s.len() as int) =~= s);
}

/// The characters of `text`, in order.
pub fn chars_of(text: &str) -> (r: Vec<char>)
    ensures
        r@ == text@,
{
    let mut rest = text.chars();
    let mut out: Vec<char> = Vec::new();
    loop
        invariant
            rest.obeys_prophetic_iter_laws(),
            rest.decrease() is Some,
            out@ + rest.remaining() == text@,
        ensures
            out@ == text@,
        decreases rest.decrease()->0,
    {
        let ghost before = rest.remaining();
        match rest.next() {
            Some(c) => {
                out.push(c);
                assert(seq![c] + before.drop_first() =~= before);
            },
            None => {
                assert(out@ + before =~= out@);
                break ;
            },
        }
    }
    out
}

/// `text` without its trailing whitespace.
pub fn trim(text: &str) -> (r: String)
    ensures
        r@ == trim_end(text@),
{
    let chars = chars_of(text);
    let mut n: usize = chars.len();
    assert(text@.take(n as int) =~= text@);
    while n > 0 && is_whitespace(chars[n - 1])
        invariant
            chars@ == text@,
            n <= chars.len(),
            trimmed_len(text@) == trimmed_len(text@.take(n as int)),
        decreases n,
    {
        assert(text@.take(n as int).drop_last() =~= text@.take(n - 1));
        n = n - 1;
    }
    text.substring_char(0, n).to_owned()
}

/// The words of `s`: its maximal runs of characters that are no whitespace,
/// in order. The definition reads `s` from left to right, one character at a
/// time: whitespace adds nothing, a character after whitespace (or at the
/// start) opens a word, and any other character extends the last word.
pub open spec fn words(s: Seq<char>) -> Seq<Seq<char>>
    decreases s.len(),
{
    if s.len() == 0 {
        Seq::empty()
    } else {
        let before = words(s.drop_last());
        let c = s.last();
        if is_space(c) {
            before
        } else if s.len() >= 2 && !is_space(s[s.len() - 2]) && before.len() > 0 {
            before.drop_last().push(before.last().push(c))
        } else {
            before.push(seq![c])
        }
    }
}

/// Whether `w` is not empty and holds no whitespace.
pub open spec fn solid(w: Seq<char>) -> bool {
    w.len() > 0 && forall|j: int| 0 <= j < w.len() ==> !is_space(#[trigger] w[j])
}

/// No word is empty and no word holds whitespace; text that ends in a
/// character that is no whitespace has a last word, which ends in it.
pub proof fn lemma_words_are_solid(s: Seq<char>)
    ensures
        forall|k: int| 0 <= k < words(s).len() ==> solid(#[trigger] words(s)[k]),
        s.len() > 0 && !is_space(s.last()) ==> words(s).len() > 0 && words(s).last().last()
            == s.last(),
    decreases s.len(),
{
    if s.len() > 0 {
        let before = words(s.drop_last());
        let c = s.last();
        lemma_words_are_solid(s.drop_last());
        if is_space(c) {
        } else if s.len() >= 2 && !is_space(s[s.len() - 2]) && before.len() > 0 {
            let grown = before.last().push(c);
            assert(solid(before.last()));
            assert forall|j: int| 0 <= j < grown.len() implies !is_space(#[trigger] grown[j]) by {
                if j < before.last().len() {
                    assert(grown[j] == before.last()[j]);
                }
            }
            assert(solid(grown));
            assert forall|k: int| 0 <= k < words(s).len() implies solid(#[trigger] words(s)[k]) by {
                if k < before.len() - 1 {
                    assert(words(s)[k] == before[k]);
                }
            }
        } else {
            assert(solid(seq![c]));
            assert forall|k: int| 0 <= k < words(s).len() implies solid(#[trigger] words(s)[k]) by {
                if k < before.len() {
                    assert(words(s)[k] == before[k]);
                }
            }
        }
    }
}

/// Text that is not empty and holds no whitespace is one word.
pub proof fn lemma_one_word(s: Seq<char>)
    requires
        solid(s),
    ensures
        words(s) == seq![s],
    decreases s.len(),
{
    let front = s.drop_last();
    if s.len() == 1 {
        assert(words(front) =~= Seq::<Seq<char>>::empty());
        assert(seq![s.last()] =~= s);
        assert(words(s) =~= seq![s]);
    } else {
        assert forall|j: int| 0 <= j < front.len() implies !is_space(#[trigger] front[j]) by {
            assert(front[j] == s[j]);
        }
        lemma_one_word(front);
        assert(!is_space(s[s.len() - 2]));
        assert(front.push(s.last()) =~= s);
        assert(words(s) =~= seq![s]);
    }
}

/// Whitespace parts text: the words of `a`, one whitespace character and `b`
/// in a row are the words of `a`, then the words of `b`.
pub proof fn lemma_words_of_parts(a: Seq<char>, gap: char, b: Seq<char>)
    requires
        is_space(gap),
    ensures
        words(a.push(gap) + b) == words(a) + words(b),
    decreases b.len(),
{
    let whole = a.push(gap) + b;
    if b.len() == 0 {
        assert(whole =~= a.push(gap));
        assert(whole.drop_last() =~= a);
        assert(words(b) =~= Seq::<Seq<char>>::empty());
        assert(words(a) + words(b) =~= words(a));
    } else {
        let front = b.drop_last();
        let c = b.last();
        lemma_words_of_parts(a, gap, front);
        lemma_words_are_solid(front);
        assert(whole.drop_last() =~= a.push(gap) + front);
        assert(whole.last() == c);
        if is_space(c) {
        } else if b.len() >= 2 && !is_space(b[b.len() - 2]) {
            assert(whole[whole.len() - 2] == b[b.len() - 2]);
            assert(front.last() == b[b.len() - 2]);
            let tail = words(front);
            assert(tail.len() > 0);
            assert((words(a) + tail).drop_last() =~= words(a) + tail.drop_last());
            assert(words(whole) =~= words(a) + words(b));
        } else {
            if b.len() >= 2 {
                assert(whole[whole.len() - 2] == b[b.len() - 2]);
            } else {
                assert(whole[whole.len() - 2] == gap);
            }
            assert(words(whole) =~= words(a) + words(b));
        }
    }
}

/// Trailing whitespace holds no word: text has the words of its trimmed
/// form.
pub proof fn lemma_words_of_trimmed(s: Seq<char>)
    ensures
        words(trim_end(s)) == words(s),
    decreases s.len(),
{
    if s.len() > 0 && is_space(s.last()) {
        let front = s.drop_last();
        lemma_words_of_trimmed(front);
        lemma_trimmed_len(front);
        assert(s.take(trimmed_len(s) as int) =~= front.take(trimmed_len(front) as int));
    } else {
        assert(s.take(s.len() as int) =~= s);
    }
}

/// The views of the strings of `v`, in order.
pub open spec fn views(v: Seq<String>) -> Seq<Seq<char>> {
    Seq::new(v.len(), |i: int| v[i]@)
}

/// The words of `text`, in order.
pub fn split_words(text: &str) -> (r: Vec<String>)
    ensures
        views(r@) == words(text@),
{
    let chars = chars_of(text);
    let n: usize = chars.len();
    let mut out: Vec<String> = Vec::new();
    let mut start: usize = 0;
    let mut in_word: bool = false;
    let mut i: usize = 0;
    while i < n
        invariant
            chars@ == text@,
            n == chars.len(),
            i <= n,
            in_word ==> start < i && !is_space(text@[i - 1]),
            !in_word ==> i == 0 || is_space(text@[i - 1]),
            words(text@.take(i as int)) == if in_word {
                views(out@).push(text@.subrange(start as int, i as int))
            } else {
                views(out@)
            },
        decreases n - i,
    {
        let c = chars[i];
        let ghost prefix = text@.take(i + 1);
        assert(prefix.drop_last() =~= text@.take(i as int));
        assert(prefix.last() == c);
        if is_whitespace(c) {
            if in_word {
                let word = text.substring_char(start, i).to_owned();
                assert(views(out@.push(word)) =~= views(out@).push(word@));
                out.push(word);
                in_word = false;
            }
        } else {
            if in_word {
                assert(prefix[prefix.len() - 2] == text@[i - 1]);
                assert(text@.subrange(start as int, i as int).push(c) =~= text@.subrange(
                    start as int,
                    i + 1,
                ));
                assert(views(out@).push(text@.subrange(start as int, i as int)).drop_last()
                    =~= views(out@));
            } else {
                assert(i > 0 ==> prefix[prefix.len() - 2] == text@[i - 1]);
                assert(seq![c] =~= text@.subrange(i as int, i + 1));
                proof {
                    lemma_words_are_solid(text@.take(i as int));
                }
                start = i;
                in_word = true;
            }
        }
        i = i + 1;
    }
    assert(text@.take(n as int) =~= text@);
    if in_word {
        let word = text.substring_char(start, n).to_owned();
        assert(views(out@.push(word)) =~= views(out@).push(word@));
        out.push(word);
    }
    out
}

} // verus!
