//! Speech synthesis: cleaning text for speech and cutting it into sentences.
pub mod piper;

use vstd::prelude::*;

use crate::text::{
    all_ws, concat_all, lemma_concat_prepend, lemma_trim_empty, lemma_trim_ends, skip_ws, back_ws,
    words_from, chars_of, is_ws, join, join_chars, match_at, replace, replace_from, replace_str,
    string_of, trim, trim_chars, trim_str, utf8_len, utf8_len_exceeds, words, words_of,
};
use piper::{piper_rate, silence, PiperTts};

verus! {

/// The characters after which a sentence may end.
pub open spec fn is_sentence_end(c: char) -> bool {
    c == '。' || c == '！' || c == '？' || c == '.' || c == '!' || c == '?' || c == '，' || c == ','
}

/// The sentences of `s[i..]`, with the sentence read so far in `cur`: a
/// sentence ends after an end character once its trimmed text is longer than
/// two bytes; a last sentence that is only whitespace is dropped.
pub open spec fn sentences_from(s: Seq<char>, i: int, cur: Seq<char>) -> Seq<Seq<char>>
    decreases s.len() - i,
{
    if i < 0 || i >= s.len() {
        if trim(cur).len() > 0 {
            seq![cur]
        } else {
            seq![]
        }
    } else {
        let c2 = cur.push(s[i]);
        if is_sentence_end(s[i]) && utf8_len(trim(c2)) > 2 {
            seq![c2] + sentences_from(s, i + 1, seq![])
        } else {
            sentences_from(s, i + 1, c2)
        }
    }
}

/// The sentences of a text.
pub open spec fn split_sentences(s: Seq<char>) -> Seq<Seq<char>> {
    sentences_from(s, 0, seq![])
}

/// The characters of `s` other than `*` and `_`.
pub open spec fn drop_marks(s: Seq<char>) -> Seq<char>
    decreases s.len(),
{
    if s.len() == 0 {
        seq![]
    } else if s.last() == '*' || s.last() == '_' {
        drop_marks(s.drop_last())
    } else {
        drop_marks(s.drop_last()).push(s.last())
    }
}

/// Text made fit for speech: Markdown emphasis removed, whitespace runs
/// turned into single spaces, no whitespace at the ends.
pub open spec fn clean_text(text: Seq<char>) -> Seq<char> {
    trim(join(words(drop_marks(replace(replace(text, "**"@, ""@), "__"@, ""@))), " "@))
}

/// No `*` and no `_`.
pub open spec fn no_marks(s: Seq<char>) -> bool {
    forall|j: int| 0 <= j < s.len() ==> #[trigger] s[j] != '*' && s[j] != '_'
}

proof fn lemma_drop_marks(s: Seq<char>)
    ensures
        no_marks(drop_marks(s)),
    decreases s.len(),
{
    if s.len() > 0 {
        lemma_drop_marks(s.drop_last());
        let d = drop_marks(s.drop_last());
        if !(s.last() == '*' || s.last() == '_') {
            assert forall|j: int| 0 <= j < d.push(s.last()).len() implies #[trigger] d.push(
                s.last(),
            )[j] != '*' && d.push(s.last())[j] != '_' by {
                if j < d.len() {
                    assert(d.push(s.last())[j] == d[j]);
                }
            }
        }
    }
}

proof fn lemma_subrange_marks(s: Seq<char>, a: int, b: int)
    requires
        no_marks(s),
        0 <= a <= b <= s.len(),
    ensures
        no_marks(s.subrange(a, b)),
{
    assert forall|j: int| 0 <= j < s.subrange(a, b).len() implies #[trigger] s.subrange(a, b)[j]
        != '*' && s.subrange(a, b)[j] != '_' by {
        assert(s.subrange(a, b)[j] == s[a + j]);
    }
}

proof fn lemma_words_marks(s: Seq<char>, i: int, start: int)
    requires
        no_marks(s),
        0 <= start <= i,
    ensures
        forall|k: int|
            0 <= k < words_from(s, i, start).len() ==> no_marks(
                #[trigger] words_from(s, i, start)[k],
            ),
    decreases s.len() - i,
{
    let w = words_from(s, i, start);
    if i >= s.len() {
        if start < s.len() {
            lemma_subrange_marks(s, start, s.len() as int);
            assert(w =~= seq![s.subrange(start, s.len() as int)]);
            assert(w[0] == s.subrange(start, s.len() as int));
        } else {
            assert(w.len() == 0);
        }
    } else if is_ws(s[i]) {
        lemma_words_marks(s, i + 1, i + 1);
        let rest = words_from(s, i + 1, i + 1);
        let head = if start < i {
            seq![s.subrange(start, i)]
        } else {
            Seq::<Seq<char>>::empty()
        };
        if start < i {
            lemma_subrange_marks(s, start, i);
            assert(head[0] == s.subrange(start, i));
        }
        assert(w == head + rest);
        assert forall|k: int| 0 <= k < w.len() implies no_marks(#[trigger] w[k]) by {
            if k < head.len() {
                assert(w[k] == head[k]);
            } else {
                assert(w[k] == rest[k - head.len()]);
            }
        }
    } else {
        lemma_words_marks(s, i + 1, start);
        assert(w == words_from(s, i + 1, start));
    }
}

proof fn lemma_join_marks(parts: Seq<Seq<char>>, sep: Seq<char>)
    requires
        no_marks(sep),
        forall|k: int| 0 <= k < parts.len() ==> no_marks(#[trigger] parts[k]),
    ensures
        no_marks(join(parts, sep)),
    decreases parts.len(),
{
    if parts.len() > 1 {
        let a = parts.drop_last();
        assert forall|k: int| 0 <= k < a.len() implies no_marks(#[trigger] a[k]) by {
            assert(a[k] == parts[k]);
        }
        lemma_join_marks(a, sep);
        let x = join(a, sep);
        let l = parts.last();
        assert(no_marks(l));
        assert forall|j: int| 0 <= j < (x + sep + l).len() implies #[trigger] (x + sep + l)[j]
            != '*' && (x + sep + l)[j] != '_' by {
            if j < x.len() {
                assert((x + sep + l)[j] == x[j]);
            } else if j < x.len() + sep.len() {
                assert((x + sep + l)[j] == sep[j - x.len()]);
            } else {
                assert((x + sep + l)[j] == l[j - x.len() - sep.len()]);
            }
        }
    } else if parts.len() == 1 {
        assert(no_marks(parts[0]));
    }
}

proof fn lemma_trim_marks(s: Seq<char>)
    requires
        no_marks(s),
    ensures
        no_marks(trim(s)),
{
    crate::text::lemma_skip_ws_bounds(s, 0);
    let a = skip_ws(s, 0);
    let t = s.skip(a);
    crate::text::lemma_back_ws_bounds(t, t.len() as int);
    let b = back_ws(t, t.len() as int);
    assert(trim(s) =~= s.subrange(a, a + b));
    lemma_subrange_marks(s, a, a + b);
}

/// Text cleaned for speech holds no `*` and no `_`, and no whitespace at
/// either end.
pub proof fn clean_text_is_clean(text: Seq<char>)
    ensures
        no_marks(clean_text(text)),
        clean_text(text).len() > 0 ==> !is_ws(clean_text(text)[0]) && !is_ws(
            clean_text(text).last(),
        ),
{
    reveal_strlit(" ");
    let d = drop_marks(replace(replace(text, "**"@, ""@), "__"@, ""@));
    lemma_drop_marks(replace(replace(text, "**"@, ""@), "__"@, ""@));
    lemma_words_marks(d, 0, 0);
    assert(no_marks(" "@));
    lemma_join_marks(words(d), " "@);
    lemma_trim_marks(join(words(d), " "@));
    lemma_trim_ends(join(words(d), " "@));
}

/// No whitespace at all.
pub open spec fn no_ws(x: Seq<char>) -> bool {
    forall|k: int| 0 <= k < x.len() ==> !is_ws(#[trigger] x[k])
}

/// No two whitespace characters stand side by side.
pub open spec fn single_spaced(x: Seq<char>) -> bool {
    forall|j: int| 0 <= j < x.len() - 1 ==> !(is_ws(#[trigger] x[j]) && is_ws(x[j + 1]))
}

proof fn lemma_words_solid(s: Seq<char>, i: int, start: int)
    requires
        0 <= start <= i,
        forall|k: int| start <= k < i && k < s.len() ==> !is_ws(#[trigger] s[k]),
    ensures
        forall|k: int|
            0 <= k < words_from(s, i, start).len() ==> no_ws(#[trigger] words_from(s, i, start)[k])
                && words_from(s, i, start)[k].len() > 0,
    decreases s.len() - i,
{
    let w = words_from(s, i, start);
    if i >= s.len() {
        if start < s.len() {
            let x = s.subrange(start, s.len() as int);
            assert forall|k: int| 0 <= k < x.len() implies !is_ws(#[trigger] x[k]) by {
                assert(x[k] == s[start + k]);
            }
            assert(w =~= seq![x]);
            assert(w[0] == x);
        } else {
            assert(w.len() == 0);
        }
    } else if is_ws(s[i]) {
        lemma_words_solid(s, i + 1, i + 1);
        let rest = words_from(s, i + 1, i + 1);
        let head = if start < i {
            seq![s.subrange(start, i)]
        } else {
            Seq::<Seq<char>>::empty()
        };
        if start < i {
            let x = s.subrange(start, i);
            assert forall|k: int| 0 <= k < x.len() implies !is_ws(#[trigger] x[k]) by {
                assert(x[k] == s[start + k]);
            }
            assert(head[0] == x);
        }
        assert(w == head + rest);
        assert forall|k: int| 0 <= k < w.len() implies no_ws(#[trigger] w[k]) && w[k].len() > 0 by {
            if k < head.len() {
                assert(w[k] == head[k]);
            } else {
                assert(w[k] == rest[k - head.len()]);
            }
        }
    } else {
        lemma_words_solid(s, i + 1, start);
        assert(w == words_from(s, i + 1, start));
    }
}

/// Words joined by single spaces: single-spaced, and with a word at each end.
proof fn lemma_join_spaced(ws: Seq<Seq<char>>)
    requires
        forall|k: int| 0 <= k < ws.len() ==> no_ws(#[trigger] ws[k]) && ws[k].len() > 0,
    ensures
        single_spaced(join(ws, " "@)),
        ws.len() > 0 ==> join(ws, " "@).len() > 0 && !is_ws(join(ws, " "@)[0]) && !is_ws(
            join(ws, " "@).last(),
        ),
        ws.len() == 0 ==> join(ws, " "@).len() == 0,
    decreases ws.len(),
{
    reveal_strlit(" ");
    if ws.len() == 1 {
        let x = ws[0];
        assert(no_ws(x));
        assert(!is_ws(x[0]));
        assert(!is_ws(x[x.len() - 1]));
    } else if ws.len() > 1 {
        let h = ws.drop_last();
        assert forall|k: int| 0 <= k < h.len() implies no_ws(#[trigger] h[k]) && h[k].len() > 0 by {
            assert(h[k] == ws[k]);
        }
        lemma_join_spaced(h);
        let a = join(h, " "@);
        let l = ws.last();
        assert(no_ws(l) && l.len() > 0);
        let j = a + " "@ + l;
        assert(join(ws, " "@) == j);
        assert(j[0] == a[0]);
        assert(j.last() == l[l.len() - 1]);
        assert forall|q: int| 0 <= q < j.len() - 1 implies !(is_ws(#[trigger] j[q]) && is_ws(
            j[q + 1],
        )) by {
            if q < a.len() - 1 {
                assert(j[q] == a[q]);
                assert(j[q + 1] == a[q + 1]);
            } else if q == a.len() - 1 {
                assert(j[q] == a.last());
            } else if q == a.len() {
                assert(j[q + 1] == l[0]);
            } else {
                assert(j[q] == l[q - a.len() - 1]);
            }
        }
    }
}

proof fn lemma_trim_solid_ends(s: Seq<char>)
    requires
        s.len() > 0 ==> !is_ws(s[0]) && !is_ws(s.last()),
    ensures
        trim(s) == s,
{
    if s.len() > 0 {
        assert(skip_ws(s, 0) == 0);
        assert(s.skip(0) =~= s);
        assert(back_ws(s, s.len() as int) == s.len());
        assert(s.take(s.len() as int) =~= s);
    } else {
        assert(skip_ws(s, 0) == 0);
        assert(s.skip(0) =~= s);
    }
}

proof fn lemma_replace_absent(s: Seq<char>, f: Seq<char>, t: Seq<char>, i: int)
    requires
        0 <= i <= s.len(),
        f.len() > 0,
        forall|k: int| 0 <= k < s.len() ==> #[trigger] s[k] != f[0],
    ensures
        replace_from(s, f, t, i) == s.skip(i),
    decreases s.len() - i,
{
    if i < s.len() {
        if match_at(s, f, i) {
            assert(s.subrange(i, i + f.len())[0] == s[i]);
        }
        lemma_replace_absent(s, f, t, i + 1);
        assert(seq![s[i]] + s.skip(i + 1) =~= s.skip(i));
    }
}

proof fn lemma_drop_marks_none(s: Seq<char>)
    requires
        no_marks(s),
    ensures
        drop_marks(s) == s,
    decreases s.len(),
{
    if s.len() > 0 {
        let h = s.drop_last();
        assert forall|j: int| 0 <= j < h.len() implies #[trigger] h[j] != '*' && h[j] != '_' by {
            assert(h[j] == s[j]);
        }
        lemma_drop_marks_none(h);
        assert(s.last() == s[s.len() - 1]);
        assert(h.push(s.last()) =~= s);
    }
}

/// Scanning a stretch without whitespace gives its rest as one last word.
proof fn lemma_words_tail(s: Seq<char>, i: int, start: int)
    requires
        0 <= start <= i <= s.len(),
        start < s.len(),
        forall|k: int| i <= k < s.len() ==> !is_ws(#[trigger] s[k]),
    ensures
        words_from(s, i, start) == seq![s.subrange(start, s.len() as int)],
    decreases s.len() - i,
{
    if i < s.len() {
        lemma_words_tail(s, i + 1, start);
    }
}

proof fn lemma_words_then(a: Seq<char>, b: Seq<char>, i: int, start: int)
    requires
        0 <= start <= i <= a.len(),
        no_ws(b),
        b.len() > 0,
    ensures
        words_from(a + " "@ + b, i, start) == words_from(a, i, start) + seq![b],
    decreases a.len() - i,
{
    reveal_strlit(" ");
    let s = a + " "@ + b;
    if i == a.len() {
        assert(s[i] == ' ');
        assert(is_ws(' '));
        assert forall|k: int| i + 1 <= k < s.len() implies !is_ws(#[trigger] s[k]) by {
            assert(s[k] == b[k - i - 1]);
        }
        lemma_words_tail(s, i + 1, i + 1);
        assert(s.subrange(i + 1, s.len() as int) =~= b);
        assert(s.subrange(start, i) =~= a.subrange(start, i));
        if start < i {
            assert(words_from(a, i, start) == seq![a.subrange(start, a.len() as int)]);
        } else {
            assert(words_from(a, i, start).len() == 0);
            assert(Seq::<Seq<char>>::empty() + seq![b] =~= seq![b]);
        }
    } else {
        assert(s[i] == a[i]);
        assert(s.subrange(start, i) =~= a.subrange(start, i));
        if is_ws(a[i]) {
            lemma_words_then(a, b, i + 1, i + 1);
            let head = if start < i {
                seq![a.subrange(start, i)]
            } else {
                Seq::<Seq<char>>::empty()
            };
            assert(head + (words_from(a, i + 1, i + 1) + seq![b]) =~= head + words_from(
                a,
                i + 1,
                i + 1,
            ) + seq![b]);
        } else {
            lemma_words_then(a, b, i + 1, start);
        }
    }
}

/// Words joined by single spaces split back into the same words.
proof fn lemma_words_join(ws: Seq<Seq<char>>)
    requires
        forall|k: int| 0 <= k < ws.len() ==> no_ws(#[trigger] ws[k]) && ws[k].len() > 0,
    ensures
        words(join(ws, " "@)) == ws,
    decreases ws.len(),
{
    if ws.len() == 0 {
        assert(words(join(ws, " "@)).len() == 0);
        assert(ws =~= Seq::<Seq<char>>::empty());
    } else if ws.len() == 1 {
        let x = ws[0];
        assert(no_ws(x) && x.len() > 0);
        lemma_words_tail(x, 0, 0);
        assert(x.subrange(0, x.len() as int) =~= x);
        assert(ws =~= seq![x]);
    } else {
        let h = ws.drop_last();
        assert forall|k: int| 0 <= k < h.len() implies no_ws(#[trigger] h[k]) && h[k].len() > 0 by {
            assert(h[k] == ws[k]);
        }
        lemma_words_join(h);
        assert(no_ws(ws[ws.len() - 1]) && ws[ws.len() - 1].len() > 0);
        lemma_words_then(join(h, " "@), ws.last(), 0, 0);
        assert(join(ws, " "@) == join(h, " "@) + " "@ + ws.last());
        assert(h.push(ws.last()) =~= ws);
    }
}

/// Cleaned text is single-spaced (no two whitespace characters side by side),
/// and cleaning it again changes nothing.
pub proof fn cleaning_is_single_spaced_and_stable(text: Seq<char>)
    ensures
        single_spaced(clean_text(text)),
        clean_text(clean_text(text)) == clean_text(text),
{
    reveal_strlit(" ");
    reveal_strlit("**");
    reveal_strlit("__");
    reveal_strlit("");
    let d = drop_marks(replace(replace(text, "**"@, ""@), "__"@, ""@));
    let ws = words(d);
    lemma_words_solid(d, 0, 0);
    lemma_join_spaced(ws);
    let j = join(ws, " "@);
    lemma_trim_solid_ends(j);
    let c = clean_text(text);
    assert(c == j);
    clean_text_is_clean(text);
    lemma_replace_absent(c, "**"@, ""@, 0);
    assert(c.skip(0) =~= c);
    lemma_replace_absent(c, "__"@, ""@, 0);
    lemma_drop_marks_none(c);
    lemma_words_join(ws);
}

/// The text-to-speech engine.
pub struct TextToSpeech {
    engine: PiperTts,
    is_playing: bool,
}

pub open spec fn view_strings(v: Seq<String>) -> Seq<Seq<char>> {
    v.map_values(|s: String| s@)
}

/// The sentences that streaming synthesis speaks, in order.
pub open spec fn spoken_sentences(text: Seq<char>) -> Seq<Seq<char>> {
    let c = clean_text(text);
    if c.len() == 0 {
        seq![]
    } else {
        split_sentences(c).filter(|s: Seq<char>| trim(s).len() > 0)
    }
}

fn drop_marks_of(s: &Vec<char>) -> (r: Vec<char>)
    ensures
        r@ == drop_marks(s@),
{
    let mut out: Vec<char> = Vec::new();
    let mut i: usize = 0;
    while i < s.len()
        invariant
            i <= s.len(),
            out@ == drop_marks(s@.take(i as int)),
        decreases s.len() - i,
    {
        assert(s@.take(i + 1).drop_last() =~= s@.take(i as int));
        if s[i] != '*' && s[i] != '_' {
            out.push(s[i]);
        }
        i = i + 1;
    }
    assert(s@.take(s.len() as int) =~= s@);
    out
}

/// Cleans a text for speech.
pub fn clean_text_of(text: &str) -> (r: Vec<char>)
    ensures
        r@ == clean_text(text@),
{
    proof {
        reveal_strlit("**");
        reveal_strlit("__");
    }
    let tc = chars_of(text);
    let a = replace_str(&tc, "**", "");
    let b = replace_str(&a, "__", "");
    let c = drop_marks_of(&b);
    let ws = words_of(&c);
    let sp = chars_of(" ");
    let j = join_chars(&ws, &sp);
    trim_chars(&j)
}

proof fn lemma_sentences_from(s: Seq<char>, i: int, cur: Seq<char>)
    requires
        0 <= i <= s.len(),
    ensures
        ({
            let c = concat_all(sentences_from(s, i, cur));
            let rest = cur + s.skip(i);
            &&& c.len() <= rest.len()
            &&& rest.take(c.len() as int) == c
            &&& all_ws(rest.skip(c.len() as int))
        }),
        forall|k: int|
            0 <= k < sentences_from(s, i, cur).len() ==> trim(
                #[trigger] sentences_from(s, i, cur)[k],
            ).len() > 0,
    decreases s.len() - i,
{
    let r = sentences_from(s, i, cur);
    if i >= s.len() {
        assert(cur + s.skip(i) =~= cur);
        lemma_trim_empty(cur);
        if trim(cur).len() > 0 {
            lemma_concat_prepend(cur, Seq::<Seq<char>>::empty());
            assert(seq![cur] + Seq::<Seq<char>>::empty() =~= seq![cur]);
            assert(cur.take(cur.len() as int) =~= cur);
            assert(cur.skip(cur.len() as int) =~= Seq::<char>::empty());
        } else {
            assert(cur.take(0) =~= Seq::<char>::empty());
            assert(cur.skip(0) =~= cur);
        }
    } else {
        let c2 = cur.push(s[i]);
        assert(cur + s.skip(i) =~= c2 + s.skip(i + 1));
        if is_sentence_end(s[i]) && utf8_len(trim(c2)) > 2 {
            lemma_sentences_from(s, i + 1, seq![]);
            let r2 = sentences_from(s, i + 1, seq![]);
            lemma_concat_prepend(c2, r2);
            let c = concat_all(r2);
            let rest = s.skip(i + 1);
            assert(Seq::<char>::empty() + s.skip(i + 1) =~= rest);
            assert((c2 + rest).take((c2 + c).len() as int) =~= c2 + rest.take(c.len() as int));
            assert((c2 + rest).skip((c2 + c).len() as int) =~= rest.skip(c.len() as int));
            assert forall|k: int| 0 <= k < r.len() implies trim(#[trigger] r[k]).len() > 0 by {
                if k == 0 {
                    assert(r[0] == c2);
                } else {
                    assert(r[k] == r2[k - 1]);
                }
            }
        } else {
            lemma_sentences_from(s, i + 1, c2);
        }
    }
}

/// Cutting a text into sentences loses nothing but trailing whitespace: put
/// back together, the sentences are the text up to a tail of whitespace.
/// No sentence is blank.
pub proof fn split_sentences_keeps_text(s: Seq<char>)
    ensures
        concat_all(split_sentences(s)).len() <= s.len(),
        s.take(concat_all(split_sentences(s)).len() as int) == concat_all(split_sentences(s)),
        all_ws(s.skip(concat_all(split_sentences(s)).len() as int)),
        forall|k: int|
            0 <= k < split_sentences(s).len() ==> trim(#[trigger] split_sentences(s)[k]).len()
                > 0,
{
    lemma_sentences_from(s, 0, seq![]);
    assert(Seq::<char>::empty() + s.skip(0) =~= s);
}

/// A sentence may end after the first `j` characters of `p`: the `j`-th is an
/// end character and the text up to it, trimmed, takes more than two bytes.
pub open spec fn cut_at(p: Seq<char>, j: int) -> bool {
    0 < j <= p.len() && is_sentence_end(p[j - 1]) && utf8_len(trim(p.take(j))) > 2
}

proof fn lemma_sentence_cuts(s: Seq<char>, i: int, cur: Seq<char>)
    requires
        0 <= i <= s.len(),
        forall|j: int| 0 < j <= cur.len() ==> !#[trigger] cut_at(cur, j),
    ensures
        forall|k: int, j: int|
            0 <= k < sentences_from(s, i, cur).len() && 0 < j < sentences_from(s, i, cur)[k].len()
                ==> !#[trigger] cut_at(sentences_from(s, i, cur)[k], j),
        forall|k: int|
            0 <= k < sentences_from(s, i, cur).len() - 1 ==> cut_at(
                #[trigger] sentences_from(s, i, cur)[k],
                sentences_from(s, i, cur)[k].len() as int,
            ),
    decreases s.len() - i,
{
    let r = sentences_from(s, i, cur);
    if i >= s.len() {
        if trim(cur).len() > 0 {
            assert(r =~= seq![cur]);
            assert(r[0] == cur);
            assert forall|k: int, j: int| 0 <= k < r.len() && 0 < j < r[k].len() implies !#[trigger] cut_at(
                r[k],
                j,
            ) by {
                assert(r[k] == cur);
            }
        } else {
            assert(r.len() == 0);
        }
    } else {
        let c2 = cur.push(s[i]);
        assert forall|j: int| 0 < j < c2.len() implies !#[trigger] cut_at(c2, j) by {
            assert(c2.take(j) =~= cur.take(j));
            assert(c2[j - 1] == cur[j - 1]);
            assert(!cut_at(cur, j));
        }
        assert(c2.take(c2.len() as int) =~= c2);
        if is_sentence_end(s[i]) && utf8_len(trim(c2)) > 2 {
            lemma_sentence_cuts(s, i + 1, seq![]);
            let r2 = sentences_from(s, i + 1, seq![]);
            assert(r == seq![c2] + r2);
            assert(cut_at(c2, c2.len() as int));
            assert forall|k: int, j: int| 0 <= k < r.len() && 0 < j < r[k].len() implies !#[trigger] cut_at(
                r[k],
                j,
            ) by {
                if k > 0 {
                    assert(r[k] == r2[k - 1]);
                } else {
                    assert(r[0] == c2);
                }
            }
            assert forall|k: int| 0 <= k < r.len() - 1 implies cut_at(
                #[trigger] r[k],
                r[k].len() as int,
            ) by {
                if k > 0 {
                    assert(r[k] == r2[k - 1]);
                } else {
                    assert(r[0] == c2);
                }
            }
        } else {
            assert forall|j: int| 0 < j <= c2.len() implies !#[trigger] cut_at(c2, j) by {
                if j == c2.len() {
                    assert(c2[j - 1] == s[i]);
                }
            }
            lemma_sentence_cuts(s, i + 1, c2);
            assert(r == sentences_from(s, i + 1, c2));
        }
    }
}

/// Sentences end at the first place where they may: no sentence holds such a
/// place before its end, and every sentence but the last ends at one (the
/// last ends at one too, or the text ran out before one came).
pub proof fn sentences_end_at_the_first_cut(s: Seq<char>)
    ensures
        forall|k: int, j: int|
            0 <= k < split_sentences(s).len() && 0 < j < split_sentences(s)[k].len() ==> !#[trigger] cut_at(
                split_sentences(s)[k],
                j,
            ),
        forall|k: int|
            0 <= k < split_sentences(s).len() - 1 ==> cut_at(
                #[trigger] split_sentences(s)[k],
                split_sentences(s)[k].len() as int,
            ),
{
    lemma_sentence_cuts(s, 0, seq![]);
}

/// Cuts a text into sentences.
pub fn split_sentences_of(s: &Vec<char>) -> (r: Vec<Vec<char>>)
    ensures
        r@.map_values(|l: Vec<char>| l@) == split_sentences(s@),
{
    let mut out: Vec<Vec<char>> = Vec::new();
    let mut cur: Vec<char> = Vec::new();
    let mut i: usize = 0;
    while i < s.len()
        invariant
            i <= s.len(),
            out@.map_values(|l: Vec<char>| l@) + sentences_from(s@, i as int, cur@)
                == split_sentences(s@),
        decreases s.len() - i,
    {
        let ch = s[i];
        cur.push(ch);
        let end = ch == '。' || ch == '！' || ch == '？' || ch == '.' || ch == '!' || ch == '?' || ch
            == '，' || ch == ',';
        if end && utf8_len_exceeds(&trim_chars(&cur), 2) {
            let ghost before = out@.map_values(|l: Vec<char>| l@);
            let ghost c2 = cur@;
            out.push(cur);
            cur = Vec::new();
            assert(out@.map_values(|l: Vec<char>| l@) =~= before.push(c2));
            assert(before + (seq![c2] + sentences_from(s@, i + 1, seq![])) =~= out@.map_values(
                |l: Vec<char>| l@,
            ) + sentences_from(s@, i + 1, seq![]));
        }
        i = i + 1;
    }
    let ghost before = out@.map_values(|l: Vec<char>| l@);
    if trim_chars(&cur).len() > 0 {
        let ghost c = cur@;
        out.push(cur);
        assert(out@.map_values(|l: Vec<char>| l@) =~= before.push(c));
    } else {
        assert(before + Seq::<Seq<char>>::empty() =~= before);
    }
    out
}

impl TextToSpeech {
    /// A text-to-speech engine over the Piper engine, not playing.
    pub fn new(engine: PiperTts) -> (t: Self)
        requires
            engine.wf(),
        ensures
            t.wf(),
            t.model() == engine.model(),
            !t.playing(),
    {
        TextToSpeech { engine, is_playing: false }
    }

    pub closed spec fn wf(&self) -> bool {
        self.engine.wf()
    }

    pub closed spec fn model(&self) -> Seq<char> {
        self.engine.model()
    }

    pub closed spec fn playing(&self) -> bool {
        self.is_playing
    }

    /// The engine that synthesizes.
    pub fn engine(&self) -> (e: &PiperTts)
        ensures
            e.model() == self.model(),
            self.wf() ==> e.wf(),
    {
        &self.engine
    }

    /// The text handed to the engine: `None` when the text is blank or
    /// cleans to nothing (no audio then).
    pub fn synthesis_text(&self, text: &str) -> (r: Option<String>)
        ensures
            match r {
                None => trim(text@).len() == 0 || clean_text(text@).len() == 0,
                Some(c) => trim(text@).len() > 0 && clean_text(text@).len() > 0 && c@
                    == clean_text(text@),
            },
    {
        let t = trim_str(text);
        if t.len() == 0 {
            return None;
        }
        let c = clean_text_of(text);
        if c.len() == 0 {
            return None;
        }
        Some(string_of(&c))
    }

    /// The audio for a text: nothing for a blank text, otherwise what the
    /// engine makes of the cleaned text (given what its Python script
    /// produced for that text, if it ran).
    pub fn synthesize(&self, text: &str, python_output: Option<Vec<u8>>) -> (r: Vec<u8>)
        requires
            self.wf(),
        ensures
            r@ == if trim(text@).len() == 0 || clean_text(text@).len() == 0 {
                Seq::<u8>::empty()
            } else if self.model().len() == 0 {
                silence()
            } else {
                match python_output {
                    Some(w) => w@,
                    None => silence(),
                }
            },
    {
        match self.synthesis_text(text) {
            None => Vec::new(),
            Some(_) => self.engine.synthesize(python_output),
        }
    }

    /// The sentences that streaming synthesis hands to the engine one by one.
    pub fn synthesize_streaming(&self, text: &str) -> (r: Vec<String>)
        ensures
            view_strings(r@) == spoken_sentences(text@),
    {
        let c = clean_text_of(text);
        if c.len() == 0 {
            return Vec::new();
        }
        let ss = split_sentences_of(&c);
        let ghost sv = ss@.map_values(|l: Vec<char>| l@);
        let mut out: Vec<String> = Vec::new();
        let mut i: usize = 0;
        while i < ss.len()
            invariant
                i <= ss.len(),
                sv == ss@.map_values(|l: Vec<char>| l@),
                view_strings(out@) == sv.take(i as int).filter(|s: Seq<char>| trim(s).len() > 0),
            decreases ss.len() - i,
        {
            let t = trim_chars(&ss[i]);
            let ghost before = view_strings(out@);
            proof {
                assert(sv.take(i + 1).drop_last() =~= sv.take(i as int));
                reveal_with_fuel(Seq::filter, 1);
            }
            if t.len() > 0 {
                let s = string_of(&ss[i]);
                out.push(s);
                assert(view_strings(out@) =~= before.push(sv[i as int]));
            }
            i = i + 1;
        }
        assert(sv.take(i as int) =~= sv);
        out
    }

    /// The sample rate of the engine's audio.
    pub fn sample_rate(&self) -> (r: u32)
        requires
            self.wf(),
        ensures
            r == piper_rate(),
    {
        self.engine.sample_rate()
    }

    /// Marks whether speech is playing.
    pub fn set_playing(&mut self, playing: bool)
        ensures
            final(self).playing() == playing,
            final(self).model() == old(self).model(),
            old(self).wf() ==> final(self).wf(),
    {
        self.is_playing = playing;
    }

    /// Whether speech is playing.
    pub fn is_playing(&self) -> (b: bool)
        ensures
            b == self.playing(),
    {
        self.is_playing
    }
}

} // verus!
