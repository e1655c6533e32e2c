//! The knowledge base: local documents cut into chunks, searched by keywords.
use vstd::prelude::*;

use crate::text::{
    chars_of, contains, extend, extend_str, has_chars, join, lemma_join_empty, lemma_join_prepend,
    lines, lines_from, lines_of, same_str, split_from, split_on, string_of, trim, trim_chars,
    utf8_len, utf8_len_exceeds, words, words_of,
};

verus! {

/// A document of the knowledge base.
pub struct Document {
    pub path: String,
    pub content: String,
    pub chunks: Vec<String>,
}

/// The chunks of the lines `ls[i..]`, with the chunk being built in `cur`:
/// each line is trimmed; a blank line ends the current chunk; other lines join
/// the current chunk, separated by line feeds, and a chunk ends once it takes
/// more than 500 bytes.
pub open spec fn chunks_from(ls: Seq<Seq<char>>, i: int, cur: Seq<char>) -> Seq<Seq<char>>
    decreases ls.len() - i,
{
    if i < 0 || i >= ls.len() {
        if cur.len() > 0 {
            seq![cur]
        } else {
            seq![]
        }
    } else {
        let l = trim(ls[i]);
        if l.len() == 0 {
            (if cur.len() > 0 {
                seq![cur]
            } else {
                Seq::<Seq<char>>::empty()
            }) + chunks_from(ls, i + 1, seq![])
        } else {
            let c2 = if cur.len() > 0 {
                cur.push('\n') + l
            } else {
                l
            };
            if utf8_len(c2) > 500 {
                seq![c2] + chunks_from(ls, i + 1, seq![])
            } else {
                chunks_from(ls, i + 1, c2)
            }
        }
    }
}

/// The chunks of a sequence of lines.
pub open spec fn chunk_lines(ls: Seq<Seq<char>>) -> Seq<Seq<char>> {
    chunks_from(ls, 0, seq![])
}

/// The chunks of a text: those of its lines.
pub open spec fn chunk_text(text: Seq<char>) -> Seq<Seq<char>> {
    chunk_lines(lines(text))
}

/// The trimmed non-blank lines of `ls[i..]`.
pub open spec fn kept_lines(ls: Seq<Seq<char>>, i: int) -> Seq<Seq<char>>
    decreases ls.len() - i,
{
    if i < 0 || i >= ls.len() {
        seq![]
    } else if trim(ls[i]).len() == 0 {
        kept_lines(ls, i + 1)
    } else {
        seq![trim(ls[i])] + kept_lines(ls, i + 1)
    }
}

/// The text of a chunk being built followed by the lines still to come.
pub open spec fn glue(cur: Seq<char>, rest: Seq<Seq<char>>) -> Seq<char> {
    if cur.len() == 0 {
        join(rest, seq!['\n'])
    } else if rest.len() == 0 {
        cur
    } else {
        cur + seq!['\n'] + join(rest, seq!['\n'])
    }
}

proof fn lemma_kept_nonempty(ls: Seq<Seq<char>>, i: int)
    requires
        0 <= i,
    ensures
        forall|k: int| 0 <= k < kept_lines(ls, i).len() ==> #[trigger] kept_lines(ls, i)[k].len() > 0,
    decreases ls.len() - i,
{
    if i < ls.len() {
        lemma_kept_nonempty(ls, i + 1);
        let r = kept_lines(ls, i + 1);
        if trim(ls[i]).len() > 0 {
            assert forall|k: int| 0 <= k < kept_lines(ls, i).len() implies #[trigger] kept_lines(
                ls,
                i,
            )[k].len() > 0 by {
                if k > 0 {
                    assert(kept_lines(ls, i)[k] == r[k - 1]);
                }
            }
        }
    }
}

proof fn lemma_chunks_from(ls: Seq<Seq<char>>, i: int, cur: Seq<char>)
    requires
        0 <= i,
    ensures
        join(chunks_from(ls, i, cur), seq!['\n']) == glue(cur, kept_lines(ls, i)),
        forall|k: int|
            0 <= k < chunks_from(ls, i, cur).len() ==> #[trigger] chunks_from(ls, i, cur)[k].len()
                > 0,
    decreases ls.len() - i,
{
    let nl = seq!['\n'];
    let c = chunks_from(ls, i, cur);
    lemma_kept_nonempty(ls, i);
    if i >= ls.len() {
        if cur.len() > 0 {
            assert(c =~= seq![cur]);
            assert(join(c, nl) == c[0]);
        }
    } else {
        let l = trim(ls[i]);
        let k1 = kept_lines(ls, i + 1);
        lemma_kept_nonempty(ls, i + 1);
        lemma_join_empty(k1, nl);
        if l.len() == 0 {
            lemma_chunks_from(ls, i + 1, seq![]);
            let c1 = chunks_from(ls, i + 1, seq![]);
            lemma_join_empty(c1, nl);
            if cur.len() > 0 {
                assert(c == seq![cur] + c1);
                lemma_join_prepend(cur, c1, nl);
                assert forall|k: int| 0 <= k < c.len() implies #[trigger] c[k].len() > 0 by {
                    if k > 0 {
                        assert(c[k] == c1[k - 1]);
                    }
                }
            } else {
                assert(c =~= c1);
            }
        } else {
            let c2 = if cur.len() > 0 {
                cur.push('\n') + l
            } else {
                l
            };
            assert(kept_lines(ls, i) == seq![l] + k1);
            lemma_join_prepend(l, k1, nl);
            if cur.len() > 0 {
                assert(cur.push('\n') + l =~= cur + nl + l);
            }
            if crate::text::utf8_len(c2) > 500 {
                lemma_chunks_from(ls, i + 1, seq![]);
                let c1 = chunks_from(ls, i + 1, seq![]);
                lemma_join_empty(c1, nl);
                assert(c == seq![c2] + c1);
                lemma_join_prepend(c2, c1, nl);
                assert forall|k: int| 0 <= k < c.len() implies #[trigger] c[k].len() > 0 by {
                    if k > 0 {
                        assert(c[k] == c1[k - 1]);
                    }
                }
                if cur.len() > 0 && k1.len() > 0 {
                    assert(cur + nl + l + nl + join(k1, nl) =~= cur + nl + (l + nl + join(
                        k1,
                        nl,
                    )));
                }
            } else {
                lemma_chunks_from(ls, i + 1, c2);
                if cur.len() > 0 && k1.len() > 0 {
                    assert(cur + nl + l + nl + join(k1, nl) =~= cur + nl + (l + nl + join(
                        k1,
                        nl,
                    )));
                }
            }
        }
    }
}

/// Chunking a document keeps all of its text: the chunks, joined by line
/// feeds, are the document's trimmed non-blank lines joined by line feeds.
/// No chunk is empty.
pub proof fn chunking_keeps_text(text: Seq<char>)
    ensures
        join(chunk_text(text), seq!['\n']) == join(kept_lines(lines(text), 0), seq!['\n']),
        forall|k: int| 0 <= k < chunk_text(text).len() ==> #[trigger] chunk_text(text)[k].len() > 0,
{
    lemma_chunks_from(lines(text), 0, seq![]);
}

proof fn lemma_chunks_shift(ls: Seq<Seq<char>>, m: int, j: int, cur: Seq<char>)
    requires
        0 <= m <= ls.len(),
        0 <= j,
    ensures
        chunks_from(ls, m + j, cur) == chunks_from(ls.skip(m), j, cur),
    decreases ls.len() - m - j,
{
    if m + j < ls.len() {
        assert(ls.skip(m)[j] == ls[m + j]);
        let l = trim(ls[m + j]);
        let c2 = if cur.len() > 0 {
            cur.push('\n') + l
        } else {
            l
        };
        lemma_chunks_shift(ls, m, j + 1, seq![]);
        lemma_chunks_shift(ls, m, j + 1, c2);
    }
}

proof fn lemma_chunks_cut(ls: Seq<Seq<char>>, i: int, j: int, cur: Seq<char>)
    requires
        0 <= j <= i < ls.len(),
        trim(ls[i]).len() == 0,
    ensures
        chunks_from(ls, j, cur) == chunks_from(ls.take(i), j, cur) + chunk_lines(ls.skip(i + 1)),
    decreases i - j,
{
    let a = ls.take(i);
    let after = chunk_lines(ls.skip(i + 1));
    let closed = if cur.len() > 0 {
        seq![cur]
    } else {
        Seq::<Seq<char>>::empty()
    };
    if j == i {
        lemma_chunks_shift(ls, i + 1, 0, seq![]);
        assert(chunks_from(a, j, cur) == closed);
    } else {
        assert(a[j] == ls[j]);
        let l = trim(ls[j]);
        let c2 = if cur.len() > 0 {
            cur.push('\n') + l
        } else {
            l
        };
        lemma_chunks_cut(ls, i, j + 1, seq![]);
        lemma_chunks_cut(ls, i, j + 1, c2);
        let e = chunks_from(a, j + 1, seq![]);
        if l.len() == 0 {
            assert(closed + (e + after) =~= closed + e + after);
        } else if crate::text::utf8_len(c2) > 500 {
            assert(seq![c2] + (e + after) =~= seq![c2] + e + after);
        }
    }
}

/// A blank line ends every chunk: the chunks of lines that hold a blank line
/// are the chunks of the lines before it followed by the chunks of the lines
/// after it, so no chunk takes lines from both sides of a blank line.
pub proof fn chunks_never_cross_a_blank_line(ls: Seq<Seq<char>>, i: int)
    requires
        0 <= i < ls.len(),
        trim(ls[i]).len() == 0,
    ensures
        chunk_lines(ls) == chunk_lines(ls.take(i)) + chunk_lines(ls.skip(i + 1)),
{
    lemma_chunks_cut(ls, i, 0, seq![]);
}

/// A text without a line feed.
pub open spec fn one_line(x: Seq<char>) -> bool {
    forall|k: int| 0 <= k < x.len() ==> #[trigger] x[k] != '\n'
}

/// The lines of the chunks, in order: each chunk cut at its line feeds.
pub open spec fn lines_of_chunks(cs: Seq<Seq<char>>) -> Seq<Seq<char>>
    decreases cs.len(),
{
    if cs.len() == 0 {
        seq![]
    } else {
        lines_of_chunks(cs.drop_last()) + split_on(cs.last(), '\n')
    }
}

proof fn lemma_lines_of_chunks_append(a: Seq<Seq<char>>, b: Seq<Seq<char>>)
    ensures
        lines_of_chunks(a + b) == lines_of_chunks(a) + lines_of_chunks(b),
    decreases b.len(),
{
    if b.len() == 0 {
        assert(a + b =~= a);
        assert(lines_of_chunks(a) + lines_of_chunks(b) =~= lines_of_chunks(a));
    } else {
        lemma_lines_of_chunks_append(a, b.drop_last());
        assert((a + b).drop_last() =~= a + b.drop_last());
        assert((a + b).last() == b.last());
        assert(lines_of_chunks(a) + lines_of_chunks(b.drop_last()) + split_on(b.last(), '\n')
            =~= lines_of_chunks(a) + (lines_of_chunks(b.drop_last()) + split_on(b.last(), '\n')));
    }
}

proof fn lemma_lines_of_one_chunk(c: Seq<char>)
    ensures
        lines_of_chunks(seq![c]) == split_on(c, '\n'),
{
    assert(seq![c].drop_last() =~= Seq::<Seq<char>>::empty());
    assert(lines_of_chunks(seq![c].drop_last()) == Seq::<Seq<char>>::empty());
    assert(seq![c].last() == c);
    assert(Seq::<Seq<char>>::empty() + split_on(c, '\n') =~= split_on(c, '\n'));
}

/// Scanning a stretch without the separator gives one last piece.
proof fn lemma_split_tail(s: Seq<char>, c: char, i: int, start: int)
    requires
        0 <= start <= i <= s.len(),
        forall|k: int| i <= k < s.len() ==> #[trigger] s[k] != c,
    ensures
        split_from(s, c, i, start) == seq![s.subrange(start, s.len() as int)],
    decreases s.len() - i,
{
    if i < s.len() {
        lemma_split_tail(s, c, i + 1, start);
    }
}

proof fn lemma_split_then(a: Seq<char>, b: Seq<char>, i: int, start: int)
    requires
        0 <= start <= i <= a.len(),
        one_line(b),
    ensures
        split_from(a + seq!['\n'] + b, '\n', i, start) == split_from(a, '\n', i, start) + seq![b],
    decreases a.len() - i,
{
    let s = a + seq!['\n'] + b;
    if i == a.len() {
        assert(s[i] == '\n');
        assert forall|k: int| i + 1 <= k < s.len() implies #[trigger] s[k] != '\n' by {
            assert(s[k] == b[k - i - 1]);
        }
        lemma_split_tail(s, '\n', i + 1, i + 1);
        assert(s.subrange(i + 1, s.len() as int) =~= b);
        assert(s.subrange(start, i) =~= a.subrange(start, i));
    } else {
        assert(s[i] == a[i]);
        assert(s.subrange(start, i) =~= a.subrange(start, i));
        if a[i] == '\n' {
            lemma_split_then(a, b, i + 1, i + 1);
            assert(seq![a.subrange(start, i)] + (split_from(a, '\n', i + 1, i + 1) + seq![b])
                =~= seq![a.subrange(start, i)] + split_from(a, '\n', i + 1, i + 1) + seq![b]);
        } else {
            lemma_split_then(a, b, i + 1, start);
        }
    }
}

/// Lines without line feeds, joined by line feeds, split back into themselves.
proof fn lemma_split_join(g: Seq<Seq<char>>)
    requires
        g.len() > 0,
        forall|k: int| 0 <= k < g.len() ==> one_line(#[trigger] g[k]),
    ensures
        split_on(join(g, seq!['\n']), '\n') == g,
    decreases g.len(),
{
    let nl = seq!['\n'];
    if g.len() == 1 {
        let x = g[0];
        assert(one_line(x));
        lemma_split_tail(x, '\n', 0, 0);
        assert(x.subrange(0, x.len() as int) =~= x);
        assert(g =~= seq![x]);
    } else {
        let h = g.drop_last();
        assert forall|k: int| 0 <= k < h.len() implies one_line(#[trigger] h[k]) by {
            assert(h[k] == g[k]);
        }
        lemma_split_join(h);
        assert(one_line(g[g.len() - 1]));
        lemma_split_then(join(h, nl), g.last(), 0, 0);
        assert(join(g, nl) == join(h, nl) + nl + g.last());
        assert(h.push(g.last()) =~= g);
    }
}

proof fn lemma_trim_one_line(x: Seq<char>)
    requires
        one_line(x),
    ensures
        one_line(trim(x)),
{
    let a = crate::text::skip_ws(x, 0);
    crate::text::lemma_skip_ws_bounds(x, 0);
    let t = x.skip(a);
    crate::text::lemma_back_ws_bounds(t, t.len() as int);
    assert forall|k: int| 0 <= k < trim(x).len() implies #[trigger] trim(x)[k] != '\n' by {
        assert(trim(x)[k] == t[k]);
        assert(t[k] == x[a + k]);
    }
}

proof fn lemma_chunk_lines_from(ls: Seq<Seq<char>>, i: int, g: Seq<Seq<char>>)
    requires
        0 <= i,
        forall|k: int| 0 <= k < ls.len() ==> one_line(#[trigger] ls[k]),
        forall|k: int| 0 <= k < g.len() ==> one_line(#[trigger] g[k]) && g[k].len() > 0,
    ensures
        lines_of_chunks(chunks_from(ls, i, join(g, seq!['\n']))) == g + kept_lines(ls, i),
    decreases ls.len() - i,
{
    let nl = seq!['\n'];
    let cur = join(g, nl);
    crate::text::lemma_join_empty(g, nl);
    let closed = if cur.len() > 0 {
        seq![cur]
    } else {
        Seq::<Seq<char>>::empty()
    };
    if g.len() > 0 {
        lemma_split_join(g);
        lemma_lines_of_one_chunk(cur);
    }
    assert(lines_of_chunks(closed) == g) by {
        if g.len() == 0 {
            assert(closed.len() == 0);
            assert(g =~= Seq::<Seq<char>>::empty());
        }
    }
    if i >= ls.len() {
        assert(g + Seq::<Seq<char>>::empty() =~= g);
    } else {
        let l = trim(ls[i]);
        lemma_trim_one_line(ls[i]);
        assert(join(Seq::<Seq<char>>::empty(), nl) =~= Seq::<char>::empty());
        if l.len() == 0 {
            lemma_chunk_lines_from(ls, i + 1, seq![]);
            lemma_lines_of_chunks_append(closed, chunks_from(ls, i + 1, seq![]));
            assert(Seq::<Seq<char>>::empty() + kept_lines(ls, i + 1) =~= kept_lines(ls, i + 1));
        } else {
            let g2 = g.push(l);
            let c2 = if cur.len() > 0 {
                cur.push('\n') + l
            } else {
                l
            };
            assert(c2 == join(g2, nl)) by {
                if g.len() == 0 {
                    assert(g2 =~= seq![l]);
                } else {
                    assert(g2.drop_last() =~= g);
                    assert(cur.push('\n') + l =~= cur + nl + l);
                }
            }
            assert forall|k: int| 0 <= k < g2.len() implies one_line(#[trigger] g2[k]) && g2[k].len()
                > 0 by {
                if k < g.len() {
                    assert(g2[k] == g[k]);
                }
            }
            assert(kept_lines(ls, i) == seq![l] + kept_lines(ls, i + 1));
            assert(g + (seq![l] + kept_lines(ls, i + 1)) =~= g2 + kept_lines(ls, i + 1));
            if crate::text::utf8_len(c2) > 500 {
                lemma_chunk_lines_from(ls, i + 1, seq![]);
                lemma_split_join(g2);
                lemma_lines_of_one_chunk(c2);
                lemma_lines_of_chunks_append(seq![c2], chunks_from(ls, i + 1, seq![]));
                assert(Seq::<Seq<char>>::empty() + kept_lines(ls, i + 1) =~= kept_lines(ls, i + 1));
            } else {
                lemma_chunk_lines_from(ls, i + 1, g2);
            }
        }
    }
}

proof fn lemma_lines_one_line(s: Seq<char>, i: int, start: int)
    requires
        0 <= start <= i <= s.len(),
        forall|k: int| start <= k < i ==> #[trigger] s[k] != '\n',
    ensures
        forall|k: int| 0 <= k < lines_from(s, i, start).len() ==> one_line(
            #[trigger] lines_from(s, i, start)[k],
        ),
    decreases s.len() - i,
{
    let r = lines_from(s, i, start);
    if i >= s.len() {
        if start < s.len() {
            let x = s.subrange(start, s.len() as int);
            assert forall|k: int| 0 <= k < x.len() implies #[trigger] x[k] != '\n' by {
                assert(x[k] == s[start + k]);
            }
            assert(one_line(x));
            assert(r =~= seq![x]);
            assert(forall|k: int| 0 <= k < r.len() ==> one_line(#[trigger] r[k]));
        } else {
            assert(r.len() == 0);
        }
    } else if s[i] == '\n' {
        lemma_lines_one_line(s, i + 1, i + 1);
        let x = s.subrange(start, i);
        let y = crate::text::strip_cr(x);
        assert forall|k: int| 0 <= k < y.len() implies #[trigger] y[k] != '\n' by {
            assert(y[k] == x[k]);
            assert(x[k] == s[start + k]);
        }
        let rest = lines_from(s, i + 1, i + 1);
        assert(one_line(y));
        assert(r == seq![y] + rest);
        assert forall|k: int| 0 <= k < r.len() implies one_line(#[trigger] r[k]) by {
            if k > 0 {
                assert(r[k] == rest[k - 1]);
            } else {
                assert(r[0] == y);
            }
        }
    } else {
        lemma_lines_one_line(s, i + 1, start);
        assert(r == lines_from(s, i + 1, start));
    }
}

proof fn lemma_kept_trimmed(ls: Seq<Seq<char>>, i: int)
    requires
        0 <= i,
    ensures
        forall|k: int|
            0 <= k < kept_lines(ls, i).len() ==> #[trigger] kept_lines(ls, i)[k].len() > 0
                && !crate::text::is_ws(kept_lines(ls, i)[k][0]) && !crate::text::is_ws(
                kept_lines(ls, i)[k].last(),
            ),
    decreases ls.len() - i,
{
    if i < ls.len() {
        lemma_kept_trimmed(ls, i + 1);
        let r = kept_lines(ls, i + 1);
        crate::text::lemma_trim_ends(ls[i]);
        if trim(ls[i]).len() > 0 {
            let all = kept_lines(ls, i);
            assert forall|k: int| 0 <= k < all.len() implies #[trigger] all[k].len() > 0
                && !crate::text::is_ws(all[k][0]) && !crate::text::is_ws(all[k].last()) by {
                if k > 0 {
                    assert(all[k] == r[k - 1]);
                }
            }
        }
    }
}

/// The lines of the chunks are the text's lines, trimmed, with the blank ones
/// left out: the same lines, in the same order. Each is non-empty and has no
/// whitespace at either end.
pub proof fn chunks_hold_the_trimmed_lines(text: Seq<char>)
    ensures
        lines_of_chunks(chunk_text(text)) == kept_lines(lines(text), 0),
        forall|k: int|
            0 <= k < kept_lines(lines(text), 0).len() ==> #[trigger] kept_lines(lines(text), 0)[k].len()
                > 0 && !crate::text::is_ws(kept_lines(lines(text), 0)[k][0]) && !crate::text::is_ws(
                kept_lines(lines(text), 0)[k].last(),
            ),
{
    let ls = lines(text);
    lemma_lines_one_line(text, 0, 0);
    assert(join(Seq::<Seq<char>>::empty(), seq!['\n']) =~= Seq::<char>::empty());
    lemma_chunk_lines_from(ls, 0, seq![]);
    assert(Seq::<Seq<char>>::empty() + kept_lines(ls, 0) =~= kept_lines(ls, 0));
    lemma_kept_trimmed(ls, 0);
}

pub open spec fn strings_view(v: Seq<String>) -> Seq<Seq<char>> {
    v.map_values(|s: String| s@)
}

/// Cuts a text into chunks.
pub fn chunk_text_of(text: &str) -> (r: Vec<String>)
    ensures
        strings_view(r@) == chunk_text(text@),
{
    let tc = chars_of(text);
    let ls = lines_of(&tc);
    let ghost lv = ls@.map_values(|l: Vec<char>| l@);
    let mut out: Vec<String> = Vec::new();
    let mut cur: Vec<char> = Vec::new();
    let mut i: usize = 0;
    while i < ls.len()
        invariant
            i <= ls.len(),
            lv == ls@.map_values(|l: Vec<char>| l@),
            lv == lines(text@),
            strings_view(out@) + chunks_from(lv, i as int, cur@) == chunk_text(text@),
        decreases ls.len() - i,
    {
        let l = trim_chars(&ls[i]);
        let ghost before = strings_view(out@);
        let ghost cur0 = cur@;
        if l.len() == 0 {
            if cur.len() > 0 {
                let s = string_of(&cur);
                out.push(s);
                assert(strings_view(out@) =~= before.push(cur0));
                assert(before + (seq![cur0] + chunks_from(lv, i + 1, seq![])) =~= strings_view(out@)
                    + chunks_from(lv, i + 1, seq![]));
            } else {
                assert(Seq::<Seq<char>>::empty() + chunks_from(lv, i + 1, seq![]) =~= chunks_from(
                    lv,
                    i + 1,
                    seq![],
                ));
            }
            cur = Vec::new();
        } else {
            if cur.len() > 0 {
                cur.push('\n');
            }
            extend(&mut cur, &l);
            if utf8_len_exceeds(&cur, 500) {
                let ghost c2 = cur@;
                let s = string_of(&cur);
                out.push(s);
                assert(strings_view(out@) =~= before.push(c2));
                assert(before + (seq![c2] + chunks_from(lv, i + 1, seq![])) =~= strings_view(out@)
                    + chunks_from(lv, i + 1, seq![]));
                cur = Vec::new();
            }
        }
        i = i + 1;
    }
    let ghost before = strings_view(out@);
    if cur.len() > 0 {
        let ghost c = cur@;
        let s = string_of(&cur);
        out.push(s);
        assert(strings_view(out@) =~= before.push(c));
    } else {
        assert(before + Seq::<Seq<char>>::empty() =~= before);
    }
    out
}

// ===================================================================
// The knowledge base
// ===================================================================

/// The chunks of all documents, in order.
pub open spec fn all_chunks(docs: Seq<Document>) -> Seq<Seq<char>>
    decreases docs.len(),
{
    if docs.len() == 0 {
        seq![]
    } else {
        all_chunks(docs.drop_last()) + strings_view(docs.last().chunks@)
    }
}

/// The knowledge base.
pub struct KnowledgeBase {
    documents: Vec<Document>,
    data_dir: String,
}

/// Unicode lowercase of a text, as `str::to_lowercase` computes it.
pub uninterp spec fn lowercase(s: Seq<char>) -> Seq<char>;

/// `str::to_lowercase` (std): every character replaced by its Unicode
/// lowercase mapping, with the final-sigma rule; that table takes pages, so
/// the result is named `lowercase` of the text and nothing more is claimed.
#[verifier::external_body]
fn to_lower(s: &str) -> (r: String)
    ensures
        r@ == lowercase(s@),
{
    s.to_lowercase()
}

/// How many of the words occur in the text (a word given twice counts twice).
pub open spec fn count_contained(text: Seq<char>, ws: Seq<Seq<char>>) -> nat
    decreases ws.len(),
{
    if ws.len() == 0 {
        0
    } else {
        count_contained(text, ws.drop_last()) + if contains(text, ws.last()) {
            1nat
        } else {
            0nat
        }
    }
}

/// The score of a chunk for a query: one point per query word that its
/// lowercase text contains, five more if it contains the whole lowercase query.
pub open spec fn chunk_score(chunk: Seq<char>, query: Seq<char>) -> nat {
    let c = lowercase(chunk);
    let q = lowercase(query);
    count_contained(c, words(q)) + if contains(c, q) {
        5nat
    } else {
        0nat
    }
}

/// The chunks with a positive score, with their scores, in document order.
pub open spec fn candidates(chunks: Seq<Seq<char>>, query: Seq<char>) -> Seq<(Seq<char>, nat)>
    decreases chunks.len(),
{
    if chunks.len() == 0 {
        seq![]
    } else {
        let c = chunks.last();
        candidates(chunks.drop_last(), query) + if chunk_score(c, query) > 0 {
            seq![(c, chunk_score(c, query))]
        } else {
            Seq::<(Seq<char>, nat)>::empty()
        }
    }
}

/// The first position from `i` on whose score is below `s`.
pub open spec fn insert_pos(sorted: Seq<(Seq<char>, nat)>, s: nat, i: int) -> int
    decreases sorted.len() - i,
{
    if i < 0 || i >= sorted.len() {
        sorted.len() as int
    } else if sorted[i].1 < s {
        i
    } else {
        insert_pos(sorted, s, i + 1)
    }
}

/// The items ordered by descending score; equal scores keep their order
/// (a stable sort).
pub open spec fn sort_desc(items: Seq<(Seq<char>, nat)>) -> Seq<(Seq<char>, nat)>
    decreases items.len(),
{
    if items.len() == 0 {
        seq![]
    } else {
        let sorted = sort_desc(items.drop_last());
        let x = items.last();
        sorted.insert(insert_pos(sorted, x.1, 0), x)
    }
}

/// The search's answer: the best `top_k` candidates.
pub open spec fn search_result(chunks: Seq<Seq<char>>, query: Seq<char>, top_k: nat) -> Seq<
    (Seq<char>, nat),
> {
    let s = sort_desc(candidates(chunks, query));
    s.take(
        if top_k < s.len() {
            top_k as int
        } else {
            s.len() as int
        },
    )
}

pub open spec fn scored_view(v: Seq<(String, u128)>) -> Seq<(Seq<char>, nat)> {
    v.map_values(|p: (String, u128)| (p.0@, p.1 as nat))
}

pub open spec fn sum_chunks(docs: Seq<Document>) -> nat
    decreases docs.len(),
{
    if docs.len() == 0 {
        0
    } else {
        sum_chunks(docs.drop_last()) + docs.last().chunks@.len()
    }
}

proof fn lemma_insert_pos_bounds(sorted: Seq<(Seq<char>, nat)>, s: nat, i: int)
    requires
        0 <= i <= sorted.len(),
    ensures
        i <= insert_pos(sorted, s, i) <= sorted.len(),
        forall|k: int| i <= k < insert_pos(sorted, s, i) ==> sorted[k].1 >= s,
        insert_pos(sorted, s, i) < sorted.len() ==> sorted[insert_pos(sorted, s, i)].1 < s,
    decreases sorted.len() - i,
{
    if i < sorted.len() && sorted[i].1 >= s {
        lemma_insert_pos_bounds(sorted, s, i + 1);
    }
}

/// A sequence whose scores do not increase.
pub open spec fn is_sorted_desc(s: Seq<(Seq<char>, nat)>) -> bool {
    forall|i: int, j: int| 0 <= i < j < s.len() ==> s[i].1 >= s[j].1
}

/// Sorting yields descending scores.
pub proof fn lemma_sort_desc_sorted(items: Seq<(Seq<char>, nat)>)
    ensures
        is_sorted_desc(sort_desc(items)),
        sort_desc(items).len() == items.len(),
    decreases items.len(),
{
    if items.len() > 0 {
        let sorted = sort_desc(items.drop_last());
        lemma_sort_desc_sorted(items.drop_last());
        let x = items.last();
        let p = insert_pos(sorted, x.1, 0);
        lemma_insert_pos_bounds(sorted, x.1, 0);
        let r = sorted.insert(p, x);
        assert forall|i: int, j: int| 0 <= i < j < r.len() implies r[i].1 >= r[j].1 by {
            if j < p {
            } else if j == p {
                assert(r[i] == sorted[i]);
            } else if i < p {
                assert(r[j] == sorted[j - 1]);
                if p < sorted.len() {
                    assert(sorted[i].1 >= sorted[p].1 || sorted[i].1 >= x.1);
                }
            } else if i == p {
                assert(r[j] == sorted[j - 1]);
                assert(sorted[p].1 < x.1);
                assert(sorted[p].1 >= sorted[j - 1].1 || p == j - 1);
            } else {
                assert(r[i] == sorted[i - 1]);
                assert(r[j] == sorted[j - 1]);
            }
        }
    }
}

/// The file extensions of knowledge documents: "txt", "md" and "csv".
pub fn is_document_extension(ext: &str) -> (b: bool)
    ensures
        b == (ext@ == "txt"@ || ext@ == "md"@ || ext@ == "csv"@),
{
    let e = chars_of(ext);
    same_str(&e, "txt") || same_str(&e, "md") || same_str(&e, "csv")
}

/// The file name under which a named document is written: "name.txt".
pub fn document_file_name(name: &str) -> (r: String)
    ensures
        r@ == name@ + ".txt"@,
{
    let mut v = chars_of(name);
    extend_str(&mut v, ".txt");
    string_of(&v)
}

impl KnowledgeBase {
    /// Every document's chunks are those of its content, and the chunks count
    /// fits in `usize`.
    pub closed spec fn wf(&self) -> bool {
        &&& forall|d: int|
            0 <= d < self.documents@.len() ==> strings_view(#[trigger] self.documents@[d].chunks@)
                == chunk_text(self.documents@[d].content@)
        &&& sum_chunks(self.documents@) <= usize::MAX
    }

    /// The documents' contents, in the order they were added.
    pub closed spec fn contents(&self) -> Seq<Seq<char>> {
        self.documents@.map_values(|d: Document| d.content@)
    }

    /// The chunks of all documents, in order.
    pub closed spec fn chunks(&self) -> Seq<Seq<char>> {
        all_chunks(self.documents@)
    }

    pub closed spec fn total_chunks(&self) -> nat {
        sum_chunks(self.documents@)
    }

    pub closed spec fn dir(&self) -> Seq<char> {
        self.data_dir@
    }

    /// An empty knowledge base kept in the directory `data_dir`.
    pub fn empty(data_dir: String) -> (kb: Self)
        ensures
            kb.wf(),
            kb.contents().len() == 0,
            kb.dir() == data_dir@,
    {
        KnowledgeBase { documents: Vec::new(), data_dir }
    }

    /// The directory where the documents are kept.
    pub fn data_dir(&self) -> (s: &String)
        ensures
            s@ == self.dir(),
    {
        &self.data_dir
    }

    /// Adds a document that was read from (or written to) `path`; its
    /// chunks are cut from its content.
    pub fn add_loaded_document(&mut self, path: String, content: String)
        requires
            old(self).wf(),
            old(self).total_chunks() + chunk_text(content@).len() <= usize::MAX,
        ensures
            final(self).wf(),
            final(self).contents() == old(self).contents().push(content@),
            final(self).chunks() == old(self).chunks() + chunk_text(content@),
            final(self).total_chunks() == old(self).total_chunks() + chunk_text(content@).len(),
            final(self).dir() == old(self).dir(),
    {
        let chunks = chunk_text_of(content.as_str());
        let ghost old_docs = self.documents@;
        let doc = Document { path, content, chunks };
        self.documents.push(doc);
        proof {
            let docs = self.documents@;
            assert(docs.drop_last() =~= old_docs);
            assert forall|d: int| 0 <= d < docs.len() implies strings_view(
                #[trigger] docs[d].chunks@,
            ) == chunk_text(docs[d].content@) by {
                if d < old_docs.len() {
                    assert(docs[d] == old_docs[d]);
                }
            }
            assert(self.contents() =~= old_docs.map_values(|d: Document| d.content@).push(
                docs.last().content@,
            ));
        }
    }

    /// Whether a document with this content can be added without the chunk
    /// count leaving `usize`.
    pub fn can_add(&self, content: &str) -> (b: bool)
        requires
            self.wf(),
        ensures
            b == (self.total_chunks() + chunk_text(content@).len() <= usize::MAX),
    {
        let c = chunk_text_of(content);
        let total = self.chunk_count();
        total <= usize::MAX - c.len()
    }

    /// The number of documents.
    pub fn document_count(&self) -> (n: usize)
        ensures
            n == self.contents().len(),
    {
        self.documents.len()
    }

    /// The number of chunks of all documents.
    pub fn chunk_count(&self) -> (n: usize)
        requires
            self.wf(),
        ensures
            n == self.total_chunks(),
            n == self.chunks().len(),
    {
        let mut total: usize = 0;
        let mut i: usize = 0;
        while i < self.documents.len()
            invariant
                i <= self.documents.len(),
                self.wf(),
                total == sum_chunks(self.documents@.take(i as int)),
            decreases self.documents.len() - i,
        {
            proof {
                assert(self.documents@.take(i + 1).drop_last() =~= self.documents@.take(i as int));
                lemma_sum_chunks_prefix(self.documents@, i + 1);
            }
            total = total + self.documents[i].chunks.len();
            i = i + 1;
        }
        assert(self.documents@.take(i as int) =~= self.documents@);
        proof {
            lemma_chunks_len(self.documents@);
        }
        total
    }

    /// The `top_k` chunks that score best for the query, best first.
    pub fn search(&self, query: &str, top_k: usize) -> (r: Vec<(String, u128)>)
        ensures
            scored_view(r@) == search_result(self.chunks(), query@, top_k as nat),
            is_sorted_desc(scored_view(r@)),
            r@.len() <= top_k,
            forall|i: int| 0 <= i < r@.len() ==> r@[i].1 > 0,
    {
        let ql = to_lower(query);
        let qc = chars_of(ql.as_str());
        let ws = words_of(&qc);
        let ghost wv = ws@.map_values(|l: Vec<char>| l@);
        let mut cands: Vec<(String, u128)> = Vec::new();
        let mut d: usize = 0;
        while d < self.documents.len()
            invariant
                d <= self.documents.len(),
                wv == ws@.map_values(|l: Vec<char>| l@),
                wv == words(lowercase(query@)),
                qc@ == lowercase(query@),
                scored_view(cands@) == candidates(all_chunks(self.documents@.take(d as int)), query@),
            decreases self.documents.len() - d,
        {
            let doc = &self.documents[d];
            let ghost base = all_chunks(self.documents@.take(d as int));
            assert(self.documents@.take(d + 1).drop_last() =~= self.documents@.take(d as int));
            let mut c: usize = 0;
            while c < doc.chunks.len()
                invariant
                    c <= doc.chunks.len(),
                    wv == ws@.map_values(|l: Vec<char>| l@),
                    wv == words(lowercase(query@)),
                    qc@ == lowercase(query@),
                    scored_view(cands@) == candidates(
                        base + strings_view(doc.chunks@).take(c as int),
                        query@,
                    ),
                decreases doc.chunks.len() - c,
            {
                let chunk = &doc.chunks[c];
                let lc = to_lower(chunk.as_str());
                let cl = chars_of(lc.as_str());
                let mut score: u128 = 0;
                let mut w: usize = 0;
                while w < ws.len()
                    invariant
                        w <= ws.len(),
                        wv == ws@.map_values(|l: Vec<char>| l@),
                        score == count_contained(cl@, wv.take(w as int)),
                        score <= w,
                    decreases ws.len() - w,
                {
                    assert(wv.take(w + 1).drop_last() =~= wv.take(w as int));
                    if has_chars(&cl, &ws[w]) {
                        score = score + 1;
                    }
                    w = w + 1;
                }
                assert(wv.take(w as int) =~= wv);
                if has_chars(&cl, &qc) {
                    score = score + 5;
                }
                let ghost all = base + strings_view(doc.chunks@).take(c + 1);
                assert(all.drop_last() =~= base + strings_view(doc.chunks@).take(c as int));
                assert(all.last() == chunk@);
                if score > 0 {
                    let ghost before = scored_view(cands@);
                    cands.push((chunk.clone(), score));
                    assert(scored_view(cands@) =~= before.push((chunk@, score as nat)));
                } else {
                    assert(scored_view(cands@) =~= scored_view(cands@) + Seq::<
                        (Seq<char>, nat),
                    >::empty());
                }
                c = c + 1;
            }
            assert(strings_view(doc.chunks@).take(c as int) =~= strings_view(doc.chunks@));
            d = d + 1;
        }
        assert(self.documents@.take(d as int) =~= self.documents@);
        let mut sorted = sort_by_score(&cands);
        proof {
            lemma_sort_desc_sorted(candidates(self.chunks(), query@));
        }
        let ghost full = scored_view(sorted@);
        if top_k < sorted.len() {
            sorted.truncate(top_k);
        }
        proof {
            assert(scored_view(sorted@) =~= full.take(
                if (top_k as nat) < full.len() {
                    top_k as int
                } else {
                    full.len() as int
                },
            ));
            lemma_candidates_positive(self.chunks(), query@);
            lemma_sort_desc_elements(candidates(self.chunks(), query@));
            let sv = scored_view(sorted@);
            assert forall|i: int| 0 <= i < sorted@.len() implies sorted@[i].1 > 0 by {
                assert(sv[i] == full[i]);
                assert(sv[i].1 == sorted@[i].1 as nat);
            }
        }
        sorted
    }
}

proof fn lemma_sum_chunks_prefix(docs: Seq<Document>, i: int)
    requires
        0 <= i <= docs.len(),
    ensures
        sum_chunks(docs.take(i)) <= sum_chunks(docs),
    decreases docs.len() - i,
{
    if i < docs.len() {
        lemma_sum_chunks_prefix(docs, i + 1);
        assert(docs.take(i + 1).drop_last() =~= docs.take(i));
    } else {
        assert(docs.take(i) =~= docs);
    }
}

proof fn lemma_chunks_len(docs: Seq<Document>)
    ensures
        all_chunks(docs).len() == sum_chunks(docs),
    decreases docs.len(),
{
    if docs.len() > 0 {
        lemma_chunks_len(docs.drop_last());
    }
}

proof fn lemma_candidates_positive(chunks: Seq<Seq<char>>, query: Seq<char>)
    ensures
        forall|i: int|
            0 <= i < candidates(chunks, query).len() ==> #[trigger] candidates(chunks, query)[i].1
                > 0,
    decreases chunks.len(),
{
    if chunks.len() > 0 {
        lemma_candidates_positive(chunks.drop_last(), query);
        let prev = candidates(chunks.drop_last(), query);
        let all = candidates(chunks, query);
        assert forall|i: int| 0 <= i < all.len() implies #[trigger] all[i].1 > 0 by {
            if i < prev.len() {
                assert(all[i] == prev[i]);
            }
        }
    }
}

proof fn lemma_sort_desc_elements(items: Seq<(Seq<char>, nat)>)
    requires
        forall|i: int| 0 <= i < items.len() ==> #[trigger] items[i].1 > 0,
    ensures
        forall|i: int| 0 <= i < sort_desc(items).len() ==> #[trigger] sort_desc(items)[i].1 > 0,
    decreases items.len(),
{
    if items.len() > 0 {
        let rest = items.drop_last();
        assert forall|i: int| 0 <= i < rest.len() implies #[trigger] rest[i].1 > 0 by {
            assert(rest[i] == items[i]);
        }
        lemma_sort_desc_elements(rest);
        let sorted = sort_desc(rest);
        lemma_sort_desc_sorted(rest);
        lemma_insert_pos_bounds(sorted, items.last().1, 0);
        let p = insert_pos(sorted, items.last().1, 0);
        let r = sorted.insert(p, items.last());
        assert forall|i: int| 0 <= i < r.len() implies #[trigger] r[i].1 > 0 by {
            if i < p {
                assert(r[i] == sorted[i]);
            } else if i > p {
                assert(r[i] == sorted[i - 1]);
            }
        }
    }
}

/// The items of score `v`, in order.
pub open spec fn with_score(items: Seq<(Seq<char>, nat)>, v: nat) -> Seq<(Seq<char>, nat)>
    decreases items.len(),
{
    if items.len() == 0 {
        seq![]
    } else {
        with_score(items.drop_last(), v) + if items.last().1 == v {
            seq![items.last()]
        } else {
            Seq::<(Seq<char>, nat)>::empty()
        }
    }
}

proof fn lemma_with_score_append(a: Seq<(Seq<char>, nat)>, b: Seq<(Seq<char>, nat)>, v: nat)
    ensures
        with_score(a + b, v) == with_score(a, v) + with_score(b, v),
    decreases b.len(),
{
    if b.len() == 0 {
        assert(a + b =~= a);
        assert(with_score(a, v) + with_score(b, v) =~= with_score(a, v));
    } else {
        lemma_with_score_append(a, b.drop_last(), v);
        assert((a + b).drop_last() =~= a + b.drop_last());
        assert((a + b).last() == b.last());
        let t = if b.last().1 == v {
            seq![b.last()]
        } else {
            Seq::<(Seq<char>, nat)>::empty()
        };
        assert(with_score(a, v) + with_score(b.drop_last(), v) + t =~= with_score(a, v) + (
        with_score(b.drop_last(), v) + t));
    }
}

proof fn lemma_with_score_none(items: Seq<(Seq<char>, nat)>, v: nat)
    requires
        forall|k: int| 0 <= k < items.len() ==> #[trigger] items[k].1 != v,
    ensures
        with_score(items, v).len() == 0,
    decreases items.len(),
{
    if items.len() > 0 {
        let rest = items.drop_last();
        assert forall|k: int| 0 <= k < rest.len() implies #[trigger] rest[k].1 != v by {
            assert(rest[k] == items[k]);
        }
        lemma_with_score_none(rest, v);
        assert(items.last() == items[items.len() - 1]);
    }
}

proof fn lemma_with_score_has(items: Seq<(Seq<char>, nat)>, k: int)
    requires
        0 <= k < items.len(),
    ensures
        with_score(items, items[k].1).contains(items[k]),
    decreases items.len(),
{
    let v = items[k].1;
    let rest = items.drop_last();
    if k == items.len() - 1 {
        let w = with_score(items, v);
        assert(w[w.len() - 1] == items[k]);
    } else {
        assert(rest[k] == items[k]);
        lemma_with_score_has(rest, k);
        let j = choose|j: int| 0 <= j < with_score(rest, v).len() && with_score(rest, v)[j]
            == items[k];
        assert(with_score(items, v)[j] == items[k]);
    }
}

proof fn lemma_with_score_in(items: Seq<(Seq<char>, nat)>, v: nat, j: int)
    requires
        0 <= j < with_score(items, v).len(),
    ensures
        items.contains(with_score(items, v)[j]),
    decreases items.len(),
{
    let rest = items.drop_last();
    let w0 = with_score(rest, v);
    if j < w0.len() {
        lemma_with_score_in(rest, v, j);
        let i = choose|i: int| 0 <= i < rest.len() && rest[i] == w0[j];
        assert(items[i] == rest[i]);
    } else {
        assert(with_score(items, v)[j] == items[items.len() - 1]);
    }
}

/// Sorting by score is stable: for every score, the items of that score come
/// out in the order they went in.
pub proof fn sorting_keeps_equal_scores_in_order(items: Seq<(Seq<char>, nat)>, v: nat)
    ensures
        with_score(sort_desc(items), v) == with_score(items, v),
    decreases items.len(),
{
    if items.len() > 0 {
        let rest = items.drop_last();
        let x = items.last();
        let sorted = sort_desc(rest);
        sorting_keeps_equal_scores_in_order(rest, v);
        lemma_sort_desc_sorted(rest);
        lemma_insert_pos_bounds(sorted, x.1, 0);
        let p = insert_pos(sorted, x.1, 0);
        let r = sorted.insert(p, x);
        assert(r =~= sorted.take(p) + seq![x] + sorted.skip(p));
        assert(sorted =~= sorted.take(p) + sorted.skip(p));
        lemma_with_score_append(sorted.take(p) + seq![x], sorted.skip(p), v);
        lemma_with_score_append(sorted.take(p), seq![x], v);
        lemma_with_score_append(sorted.take(p), sorted.skip(p), v);
        assert(seq![x].drop_last() =~= Seq::<(Seq<char>, nat)>::empty());
        assert(seq![x].last() == x);
        assert(with_score(seq![x].drop_last(), v) =~= Seq::<(Seq<char>, nat)>::empty());
        if x.1 == v {
            assert(with_score(seq![x], v) =~= seq![x]);
            let tail = sorted.skip(p);
            assert forall|k: int| 0 <= k < tail.len() implies #[trigger] tail[k].1 != v by {
                assert(tail[k] == sorted[p + k]);
                assert(sorted[p].1 < x.1);
                assert(sorted[p].1 >= sorted[p + k].1 || k == 0);
            }
            lemma_with_score_none(tail, v);
            assert(with_score(tail, v) =~= Seq::<(Seq<char>, nat)>::empty());
            assert(with_score(sorted.take(p), v) + with_score(seq![x], v) + with_score(tail, v)
                =~= with_score(sorted.take(p), v) + with_score(tail, v) + seq![x]);
        } else {
            assert(with_score(seq![x], v) =~= Seq::<(Seq<char>, nat)>::empty());
            assert(with_score(sorted.take(p), v) + with_score(seq![x], v) =~= with_score(
                sorted.take(p),
                v,
            ));
            assert(with_score(items, v) =~= with_score(rest, v));
        }
    }
}

/// The search gives the best-scoring chunks: as many as asked for, or every
/// chunk that scores at all where there are fewer; best first; each with its
/// score; no chunk left out scores more than the last one given; and chunks of
/// equal score come in the order of the documents.
pub proof fn search_keeps_the_best(chunks: Seq<Seq<char>>, query: Seq<char>, top_k: nat)
    ensures
        search_result(chunks, query, top_k).len() == if top_k < candidates(chunks, query).len() {
            top_k as int
        } else {
            candidates(chunks, query).len() as int
        },
        search_result(chunks, query, top_k) == sort_desc(candidates(chunks, query)).take(
            search_result(chunks, query, top_k).len() as int,
        ),
        is_sorted_desc(sort_desc(candidates(chunks, query))),
        forall|k: int|
            0 <= k < candidates(chunks, query).len() ==> sort_desc(
                candidates(chunks, query),
            ).contains(#[trigger] candidates(chunks, query)[k]),
        forall|k: int|
            0 <= k < candidates(chunks, query).len() ==> chunks.contains(
                #[trigger] candidates(chunks, query)[k].0,
            ) && candidates(chunks, query)[k].1 == chunk_score(candidates(chunks, query)[k].0, query)
                && candidates(chunks, query)[k].1 > 0,
        forall|v: nat|
            with_score(#[trigger] sort_desc(candidates(chunks, query)), v) == with_score(
                candidates(chunks, query),
                v,
            ),
        forall|i: int|
            0 <= i < search_result(chunks, query, top_k).len() ==> candidates(chunks, query).contains(
                #[trigger] search_result(chunks, query, top_k)[i],
            ) && chunks.contains(search_result(chunks, query, top_k)[i].0)
                && search_result(chunks, query, top_k)[i].1 == chunk_score(
                search_result(chunks, query, top_k)[i].0,
                query,
            ) && search_result(chunks, query, top_k)[i].1 > 0,
{
    let c = candidates(chunks, query);
    let s = sort_desc(c);
    lemma_sort_desc_sorted(c);
    lemma_candidates_positive(chunks, query);
    lemma_candidates_from(chunks, query);
    assert forall|v: nat| with_score(#[trigger] sort_desc(c), v) == with_score(c, v) by {
        sorting_keeps_equal_scores_in_order(c, v);
    }
    assert forall|k: int| 0 <= k < c.len() implies s.contains(#[trigger] c[k]) by {
        lemma_with_score_has(c, k);
        sorting_keeps_equal_scores_in_order(c, c[k].1);
        let w = with_score(c, c[k].1);
        let j = choose|j: int| 0 <= j < w.len() && w[j] == c[k];
        lemma_with_score_in(s, c[k].1, j);
    }
    let r = search_result(chunks, query, top_k);
    assert forall|i: int| 0 <= i < r.len() implies c.contains(#[trigger] r[i]) && chunks.contains(
        r[i].0,
    ) && r[i].1 == chunk_score(r[i].0, query) && r[i].1 > 0 by {
        assert(r[i] == s[i]);
        lemma_with_score_has(s, i);
        sorting_keeps_equal_scores_in_order(c, s[i].1);
        let w = with_score(s, s[i].1);
        let j = choose|j: int| 0 <= j < w.len() && w[j] == s[i];
        lemma_with_score_in(c, s[i].1, j);
        let q = choose|q: int| 0 <= q < c.len() && c[q] == s[i];
        assert(c[q] == r[i]);
    }
}

proof fn lemma_candidates_from(chunks: Seq<Seq<char>>, query: Seq<char>)
    ensures
        forall|k: int|
            0 <= k < candidates(chunks, query).len() ==> chunks.contains(
                #[trigger] candidates(chunks, query)[k].0,
            ) && candidates(chunks, query)[k].1 == chunk_score(candidates(chunks, query)[k].0, query),
    decreases chunks.len(),
{
    if chunks.len() > 0 {
        let rest = chunks.drop_last();
        lemma_candidates_from(rest, query);
        let prev = candidates(rest, query);
        let all = candidates(chunks, query);
        assert forall|k: int| 0 <= k < all.len() implies chunks.contains(#[trigger] all[k].0)
            && all[k].1 == chunk_score(all[k].0, query) by {
            if k < prev.len() {
                assert(all[k] == prev[k]);
                let i = choose|i: int| 0 <= i < rest.len() && rest[i] == prev[k].0;
                assert(chunks[i] == rest[i]);
            } else {
                assert(all[k].0 == chunks[chunks.len() - 1]);
            }
        }
    }
}

/// Orders scored chunks by descending score, keeping the order of equal scores.
fn sort_by_score(items: &Vec<(String, u128)>) -> (r: Vec<(String, u128)>)
    ensures
        scored_view(r@) == sort_desc(scored_view(items@)),
{
    let ghost iv = scored_view(items@);
    let mut out: Vec<(String, u128)> = Vec::new();
    let mut i: usize = 0;
    while i < items.len()
        invariant
            i <= items.len(),
            iv == scored_view(items@),
            scored_view(out@) == sort_desc(iv.take(i as int)),
        decreases items.len() - i,
    {
        let s = items[i].1;
        let mut p: usize = 0;
        while p < out.len() && out[p].1 >= s
            invariant
                p <= out.len(),
                insert_pos(scored_view(out@), s as nat, 0) == insert_pos(
                    scored_view(out@),
                    s as nat,
                    p as int,
                ),
            decreases out.len() - p,
        {
            p = p + 1;
        }
        let ghost before = scored_view(out@);
        let item = (items[i].0.clone(), s);
        assert(iv.take(i + 1).drop_last() =~= iv.take(i as int));
        assert(iv.take(i + 1).last() == (item.0@, s as nat));
        out.insert(p, item);
        assert(scored_view(out@) =~= before.insert(p as int, (item.0@, s as nat)));
        i = i + 1;
    }
    assert(iv.take(i as int) =~= iv);
    out
}

} // verus!
