//! The text of a recognized utterance.
use vstd::prelude::*;

use crate::text::{extend, join, string_of, trim, trim_chars};

verus! {

/// The trimmed, non-empty segments, from `segs[..]`; a segment that could not
/// be read (`None`) is skipped.
pub open spec fn kept_segments(segs: Seq<Option<Seq<char>>>) -> Seq<Seq<char>>
    decreases segs.len(),
{
    if segs.len() == 0 {
        seq![]
    } else {
        kept_segments(segs.drop_last()) + match segs.last() {
            Some(s) => if trim(s).len() > 0 {
                seq![trim(s)]
            } else {
                Seq::<Seq<char>>::empty()
            },
            None => Seq::<Seq<char>>::empty(),
        }
    }
}

pub open spec fn segments_model(v: Seq<Option<String>>) -> Seq<Option<Seq<char>>> {
    v.map_values(
        |o: Option<String>|
            match o {
                Some(s) => Some(s@),
                None => None,
            },
    )
}

/// The recognized text: the kept segments joined by spaces, trimmed.
pub open spec fn transcript(segs: Seq<Option<Seq<char>>>) -> Seq<char> {
    trim(join(kept_segments(segs), " "@))
}

/// Joins recognized segments into the recognized text.
pub fn join_segments(segments: &Vec<Option<String>>) -> (r: String)
    ensures
        r@ == transcript(segments_model(segments@)),
{
    let ghost sm = segments_model(segments@);
    let mut text: Vec<char> = Vec::new();
    let mut i: usize = 0;
    while i < segments.len()
        invariant
            i <= segments.len(),
            sm == segments_model(segments@),
            text@ == join(kept_segments(sm.take(i as int)), " "@),
        decreases segments.len() - i,
    {
        assert(sm.take(i + 1).drop_last() =~= sm.take(i as int));
        let ghost ks = kept_segments(sm.take(i as int));
        match &segments[i] {
            Some(s) => {
                let t = crate::text::trim_str(s.as_str());
                if t.len() > 0 {
                    if text.len() > 0 {
                        text.push(' ');
                    }
                    extend(&mut text, &t);
                    proof {
                        let nk = ks + seq![t@];
                        assert(kept_segments(sm.take(i + 1)) == nk);
                        assert(nk.drop_last() =~= ks);
                        lemma_kept_nonempty(sm.take(i as int));
                        crate::text::lemma_join_empty(ks, " "@);
                        if ks.len() == 0 {
                            assert(nk.len() == 1);
                            assert(text@ =~= nk[0]);
                        } else {
                            assert(text@ =~= join(ks, " "@) + " "@ + t@) by {
                                reveal_strlit(" ");
                            }
                        }
                    }
                } else {
                    assert(ks + Seq::<Seq<char>>::empty() =~= ks);
                }
            },
            None => {
                assert(ks + Seq::<Seq<char>>::empty() =~= ks);
            },
        }
        i = i + 1;
    }
    assert(sm.take(i as int) =~= sm);
    let r = trim_chars(&text);
    string_of(&r)
}

/// Every kept segment is non-empty.
proof fn lemma_kept_nonempty(segs: Seq<Option<Seq<char>>>)
    ensures
        forall|k: int|
            0 <= k < kept_segments(segs).len() ==> #[trigger] kept_segments(segs)[k].len() > 0,
    decreases segs.len(),
{
    if segs.len() > 0 {
        lemma_kept_nonempty(segs.drop_last());
        let a = kept_segments(segs.drop_last());
        assert forall|k: int|
            0 <= k < kept_segments(segs).len() implies #[trigger] kept_segments(segs)[k].len()
            > 0 by {
            if k < a.len() {
                assert(kept_segments(segs)[k] == a[k]);
            }
        }
    }
}

} // verus!
