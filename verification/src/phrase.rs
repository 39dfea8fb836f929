//! Splitting a phrase into words, and joining words into a phrase.
//!
//! Words are separated by half-width spaces, full-width spaces (U+3000)
//! and tabs; runs of separators and separators at either end produce no
//! empty words.  A phrase is written with single half-width spaces.
use crate::idiom_list::is_separator;
use vstd::prelude::*;
use vstd::string::*;

verus! {

/// The word in progress, as a list of zero or one word.
pub open spec fn flush(cur: Seq<char>) -> Seq<Seq<char>> {
    if cur.len() > 0 {
        seq![cur]
    } else {
        seq![]
    }
}

/// The words of `s`, where `cur` is the word in progress before `s`.
pub open spec fn split_from(s: Seq<char>, cur: Seq<char>) -> Seq<Seq<char>>
    decreases s.len(),
{
    if s.len() == 0 {
        flush(cur)
    } else if is_separator(s[0]) {
        flush(cur) + split_from(s.drop_first(), seq![])
    } else {
        split_from(s.drop_first(), cur.push(s[0]))
    }
}

/// The non-empty words of `s` between separators, in order.
pub open spec fn split_words_spec(s: Seq<char>) -> Seq<Seq<char>> {
    split_from(s, seq![])
}

/// Words joined by single half-width spaces.
pub open spec fn join_words(words: Seq<Seq<char>>) -> Seq<char>
    decreases words.len(),
{
    if words.len() == 0 {
        seq![]
    } else if words.len() == 1 {
        words[0]
    } else {
        words[0] + seq![' '] + join_words(words.drop_first())
    }
}

/// The characters of each string.
pub open spec fn str_views(v: Seq<&str>) -> Seq<Seq<char>> {
    v.map_values(|s: &str| s@)
}

/// A word made of characters other than separators.
pub open spec fn is_plain_word(w: Seq<char>) -> bool {
    forall|i: int| 0 <= i < w.len() ==> !is_separator(#[trigger] w[i])
}

/// Split a phrase into its words.
pub fn split_words(phrase: &str) -> (words: Vec<&str>)
    ensures
        str_views(words@) == split_words_spec(phrase@),
{
    let n = phrase.unicode_len();
    let ghost s = phrase@;
    let mut words: Vec<&str> = Vec::new();
    let mut start: usize = 0;
    let mut i: usize = 0;
    assert(s.skip(0) =~= s);
    assert(s.subrange(0, 0) =~= Seq::<char>::empty());
    while i < n
        invariant
            n == s.len(),
            s == phrase@,
            start <= i <= n,
            split_words_spec(s) == str_views(words@) + split_from(s.skip(i as int), s.subrange(start as int, i as int)),
        decreases n - i,
    {
        let c = phrase.get_char(i);
        let ghost rest = s.skip(i as int);
        let ghost cur = s.subrange(start as int, i as int);
        assert(rest[0] == c);
        assert(rest.drop_first() =~= s.skip(i + 1));
        if c == ' ' || c == '\u{3000}' || c == '\t' {
            let ghost before = str_views(words@);
            if i > start {
                let w = phrase.substring_char(start, i);
                words.push(w);
                assert(str_views(words@) =~= before + flush(cur));
            } else {
                assert(flush(cur) =~= Seq::<Seq<char>>::empty());
                assert(str_views(words@) =~= before + flush(cur));
            }
            start = i + 1;
            assert(s.subrange(start as int, start as int) =~= Seq::<char>::empty());
            assert(split_from(rest, cur) == flush(cur) + split_from(s.skip(i + 1), seq![]));
            assert(before + (flush(cur) + split_from(s.skip(i + 1), seq![])) =~= str_views(words@)
                + split_from(s.skip(i + 1), seq![]));
        } else {
            assert(cur.push(c) =~= s.subrange(start as int, i + 1));
        }
        i = i + 1;
    }
    let ghost before = str_views(words@);
    let ghost cur = s.subrange(start as int, n as int);
    assert(s.skip(n as int).len() == 0);
    if n > start {
        let w = phrase.substring_char(start, n);
        words.push(w);
        assert(str_views(words@) =~= before + flush(cur));
    } else {
        assert(str_views(words@) =~= before + flush(cur));
    }
    words
}

/// Joining one more word adds a space and the word.
pub proof fn lemma_join_push(words: Seq<Seq<char>>, w: Seq<char>)
    requires
        words.len() > 0,
    ensures
        join_words(words.push(w)) == join_words(words) + seq![' '] + w,
    decreases words.len(),
{
    let p = words.push(w);
    assert(p[0] == words[0]);
    if words.len() == 1 {
        assert(p.drop_first() =~= seq![w]);
        assert(join_words(seq![w]) == w);
    } else {
        lemma_join_push(words.drop_first(), w);
        assert(p.drop_first() =~= words.drop_first().push(w));
        assert(join_words(p) =~= join_words(words) + seq![' '] + w);
    }
}

/// A plain word in front of `rest` extends the word in progress.
proof fn lemma_split_plain_prefix(w: Seq<char>, rest: Seq<char>, cur: Seq<char>)
    requires
        is_plain_word(w),
    ensures
        split_from(w + rest, cur) == split_from(rest, cur + w),
    decreases w.len(),
{
    if w.len() == 0 {
        assert(w + rest =~= rest);
        assert(cur + w =~= cur);
    } else {
        let s = w + rest;
        assert(s[0] == w[0]);
        assert(s.drop_first() =~= w.drop_first() + rest);
        lemma_split_plain_prefix(w.drop_first(), rest, cur.push(w[0]));
        assert(cur.push(w[0]) + w.drop_first() =~= cur + w);
    }
}

/// Splitting joined plain, non-empty words gives the words back.
pub proof fn lemma_split_join(words: Seq<Seq<char>>)
    requires
        forall|i: int| 0 <= i < words.len() ==> #[trigger] words[i].len() > 0 && is_plain_word(words[i]),
    ensures
        split_words_spec(join_words(words)) == words,
    decreases words.len(),
{
    if words.len() == 0 {
        assert(split_words_spec(join_words(words)) =~= words);
    } else if words.len() == 1 {
        let w = words[0];
        assert(w + Seq::<char>::empty() =~= w);
        lemma_split_plain_prefix(w, Seq::<char>::empty(), Seq::<char>::empty());
        assert(Seq::<char>::empty() + w =~= w);
        assert(split_words_spec(join_words(words)) =~= words);
    } else {
        let w = words[0];
        let tail = words.drop_first();
        assert forall|i: int| 0 <= i < tail.len() implies #[trigger] tail[i].len() > 0 && is_plain_word(tail[i]) by {
            assert(tail[i] == words[i + 1]);
        }
        lemma_split_join(tail);
        let rest = seq![' '] + join_words(tail);
        assert(join_words(words) =~= w + rest);
        lemma_split_plain_prefix(w, rest, Seq::<char>::empty());
        assert(Seq::<char>::empty() + w =~= w);
        assert(rest[0] == ' ');
        assert(rest.drop_first() =~= join_words(tail));
        assert(split_words_spec(join_words(words)) =~= words);
    }
}

/// A wordlist whose words hold no separator (so that every word can be
/// read back from a phrase).
pub open spec fn plain_wordlist(words: Seq<Seq<char>>) -> bool {
    forall|i: int| 0 <= i < words.len() ==> is_plain_word(#[trigger] words[i])
}

/// Characters that are all separators (possibly none).
pub open spec fn is_separator_run(r: Seq<char>) -> bool {
    forall|i: int| 0 <= i < r.len() ==> is_separator(#[trigger] r[i])
}

/// Words that are each non-empty and free of separators.
pub open spec fn plain_words(words: Seq<Seq<char>>) -> bool {
    forall|i: int| 0 <= i < words.len() ==> #[trigger] words[i].len() > 0 && is_plain_word(words[i])
}

/// Separator runs that are each non-empty.
pub open spec fn separator_runs(seps: Seq<Seq<char>>) -> bool {
    forall|i: int| 0 <= i < seps.len() ==> #[trigger] seps[i].len() > 0 && is_separator_run(seps[i])
}

/// Words with `seps[i]` between word `i` and word `i + 1`.
pub open spec fn interleave(words: Seq<Seq<char>>, seps: Seq<Seq<char>>) -> Seq<char>
    decreases words.len(),
{
    if words.len() == 0 {
        seq![]
    } else if words.len() == 1 {
        words[0]
    } else {
        words[0] + seps[0] + interleave(words.drop_first(), seps.drop_first())
    }
}

/// Words joined by the separator runs `seps`, with the run `lead` before
/// them and the run `trail` after them.
pub open spec fn join_with(words: Seq<Seq<char>>, seps: Seq<Seq<char>>, lead: Seq<char>, trail: Seq<char>) -> Seq<char> {
    lead + interleave(words, seps) + trail
}

/// Separators before `rest`, with no word in progress, are skipped.
proof fn lemma_skip_separators(r: Seq<char>, rest: Seq<char>)
    requires
        is_separator_run(r),
    ensures
        split_from(r + rest, seq![]) == split_from(rest, seq![]),
    decreases r.len(),
{
    if r.len() == 0 {
        assert(r + rest =~= rest);
    } else {
        let s = r + rest;
        assert(s[0] == r[0]);
        assert(s.drop_first() =~= r.drop_first() + rest);
        assert(flush(seq![]) =~= Seq::<Seq<char>>::empty());
        assert(flush(seq![]) + split_from(s.drop_first(), seq![]) =~= split_from(s.drop_first(), seq![]));
        lemma_skip_separators(r.drop_first(), rest);
    }
}

/// A non-empty run of separators ends the word in progress.
proof fn lemma_separator_run_ends_word(r: Seq<char>, rest: Seq<char>, cur: Seq<char>)
    requires
        r.len() > 0,
        is_separator_run(r),
    ensures
        split_from(r + rest, cur) == flush(cur) + split_from(rest, seq![]),
{
    let s = r + rest;
    assert(s[0] == r[0]);
    assert(s.drop_first() =~= r.drop_first() + rest);
    lemma_skip_separators(r.drop_first(), rest);
}

/// Words joined by separator runs, then a run, split back into the words.
proof fn lemma_split_interleave(words: Seq<Seq<char>>, seps: Seq<Seq<char>>, trail: Seq<char>)
    requires
        words.len() >= 1,
        plain_words(words),
        seps.len() + 1 >= words.len(),
        separator_runs(seps),
        is_separator_run(trail),
    ensures
        split_from(interleave(words, seps) + trail, seq![]) == words,
    decreases words.len(),
{
    let w = words[0];
    assert(w.len() > 0 && is_plain_word(w));
    assert(Seq::<char>::empty() + w =~= w);
    if words.len() == 1 {
        lemma_split_plain_prefix(w, trail, seq![]);
        if trail.len() == 0 {
            assert(split_from(trail, w) == flush(w));
        } else {
            assert(trail =~= trail + Seq::<char>::empty());
            lemma_separator_run_ends_word(trail, Seq::<char>::empty(), w);
        }
        assert(flush(w) =~= words);
    } else {
        let tail = words.drop_first();
        let stail = seps.drop_first();
        assert forall|i: int| 0 <= i < tail.len() implies #[trigger] tail[i].len() > 0 && is_plain_word(tail[i]) by {
            assert(tail[i] == words[i + 1]);
        }
        assert forall|i: int| 0 <= i < stail.len() implies #[trigger] stail[i].len() > 0 && is_separator_run(stail[i]) by {
            assert(stail[i] == seps[i + 1]);
        }
        assert(seps[0].len() > 0 && is_separator_run(seps[0]));
        lemma_split_interleave(tail, stail, trail);
        let after = interleave(tail, stail) + trail;
        assert(interleave(words, seps) + trail =~= w + (seps[0] + after));
        lemma_split_plain_prefix(w, seps[0] + after, seq![]);
        lemma_separator_run_ends_word(seps[0], after, w);
        assert(flush(w) + tail =~= words);
    }
}

/// Splitting does not depend on how the words are separated: words joined
/// by any non-empty runs of separators, with any runs of separators before
/// and after them, split back into the same words as when joined by single
/// spaces.
pub proof fn law_split_separator_runs(words: Seq<Seq<char>>, seps: Seq<Seq<char>>, lead: Seq<char>, trail: Seq<char>)
    requires
        plain_words(words),
        seps.len() + 1 >= words.len(),
        separator_runs(seps),
        is_separator_run(lead),
        is_separator_run(trail),
    ensures
        split_words_spec(join_with(words, seps, lead, trail)) == words,
        split_words_spec(join_with(words, seps, lead, trail)) == split_words_spec(join_words(words)),
{
    lemma_split_join(words);
    let body = interleave(words, seps) + trail;
    assert(join_with(words, seps, lead, trail) =~= lead + body);
    lemma_skip_separators(lead, body);
    if words.len() == 0 {
        assert(interleave(words, seps) + trail =~= trail + Seq::<char>::empty());
        lemma_skip_separators(trail, Seq::<char>::empty());
        assert(split_from(Seq::<char>::empty(), seq![]) =~= words);
    } else {
        lemma_split_interleave(words, seps, trail);
    }
}

} // verus!
