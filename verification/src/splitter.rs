//! Incremental separation of inline think-tag markup from assistant text.
//!
//! A provider may stream `<think>...</think>` blocks inside the ordinary
//! content channel, with the tags split arbitrarily across chunks.  The
//! splitter buffers just enough trailing text to never mistake a partial tag
//! for content, and its contract ties every emission to `split_model`, the
//! mathematical decomposition of the whole stream, and to `chunk_segments`,
//! the exact segment list of one scan pass.

use vstd::prelude::*;

use crate::text::first_match;
use crate::text::lemma_first_match_is;
use crate::text::lemma_first_match_none;
use crate::text::lemma_first_match_props;
use crate::text::match_at;
use crate::text::find_str;

verus! {

/// Per-provider policy: pass text through, or split think-tag markup out.
#[derive(Debug, Clone, Copy, PartialEq, Eq, Structural)]
pub enum ChatReasoningFormat {
    Standard,
    MinimaxThinkTags,
}

/// One unit of splitter output: ordinary assistant text or reasoning text.
#[derive(Debug, Clone, PartialEq, Eq)]
pub enum ContentSegment {
    Assistant(String),
    Reasoning(String),
}

/// The opening markup token.
pub open spec fn open_tag() -> Seq<char> {
    seq!['<', 't', 'h', 'i', 'n', 'k', '>']
}

/// The closing markup token.
pub open spec fn close_tag() -> Seq<char> {
    seq!['<', '/', 't', 'h', 'i', 'n', 'k', '>']
}

/// The token the scanner looks for in the given block state.
pub open spec fn active_tag(in_block: bool) -> Seq<char> {
    if in_block {
        close_tag()
    } else {
        open_tag()
    }
}

/// The canonical decomposition of a complete text: the pair of
/// (text outside think blocks, text inside think blocks), scanning
/// leftmost-first for the active boundary token.
pub open spec fn split_model(s: Seq<char>, in_block: bool) -> (Seq<char>, Seq<char>)
    decreases s.len()
        via split_model_decreases
{
    let tag = active_tag(in_block);
    match first_match(s, tag) {
        Some(i) => {
            let rest = split_model(s.skip(i + tag.len() as int), !in_block);
            if in_block {
                (rest.0, s.take(i) + rest.1)
            } else {
                (s.take(i) + rest.0, rest.1)
            }
        },
        None => if in_block {
            (Seq::empty(), s)
        } else {
            (s, Seq::empty())
        },
    }
}

#[via_fn]
proof fn split_model_decreases(s: Seq<char>, in_block: bool) {
    let tag = active_tag(in_block);
    lemma_first_match_props(s, tag);
}

/// The retained length: the longest strict prefix of `tag` that ends `s`,
/// searched from `bound` downward.
pub open spec fn trailing_keep_from(s: Seq<char>, tag: Seq<char>, bound: int) -> int
    decreases bound,
{
    if bound <= 0 {
        0
    } else if s.skip(s.len() - bound) =~= tag.take(bound) {
        bound
    } else {
        trailing_keep_from(s, tag, bound - 1)
    }
}

/// The retained length for a buffer: at most one character less than the
/// token, and never more than the buffer itself.
pub open spec fn trailing_keep(s: Seq<char>, tag: Seq<char>) -> int {
    trailing_keep_from(
        s,
        tag,
        if s.len() < tag.len() - 1 {
            s.len() as int
        } else {
            tag.len() - 1
        },
    )
}

/// What `trailing_keep_from` returns: a length within the bound whose
/// suffix, when positive, is the matching token prefix.
proof fn lemma_trailing_keep_from_props(s: Seq<char>, tag: Seq<char>, bound: int)
    ensures
        ({
            let k = trailing_keep_from(s, tag, bound);
            &&& 0 <= k
            &&& k <= bound || bound < 0
            &&& (k > 0 ==> s.skip(s.len() - k) =~= tag.take(k))
        }),
    decreases bound,
{
    if bound <= 0 {
    } else if s.skip(s.len() - bound) =~= tag.take(bound) {
    } else {
        lemma_trailing_keep_from_props(s, tag, bound - 1);
    }
}

/// A witness length with nothing above it pins down `trailing_keep_from`.
proof fn lemma_trailing_keep_is(s: Seq<char>, tag: Seq<char>, bound: int, k: int)
    requires
        0 <= k <= bound,
        k > 0 ==> s.skip(s.len() - k) =~= tag.take(k),
        forall|l: int| k < l <= bound ==> !(s.skip(s.len() - l) =~= tag.take(l)),
    ensures
        trailing_keep_from(s, tag, bound) == k,
    decreases bound,
{
    if bound <= 0 {
    } else if s.skip(s.len() - bound) =~= tag.take(bound) {
        if k < bound {
            assert(!(s.skip(s.len() - bound) =~= tag.take(bound)));
        }
    } else {
        if k == bound {
            assert(s.skip(s.len() - bound) =~= tag.take(bound));
        }
        lemma_trailing_keep_is(s, tag, bound - 1, k);
    }
}

/// The exact segment list one scan pass produces from a buffer: the text
/// before each boundary token as a segment of the current kind, alternating
/// at every token, and finally everything except the retained token prefix.
/// A pair is (is-reasoning, text).
pub open spec fn chunk_segments(s: Seq<char>, in_block: bool) -> Seq<(bool, Seq<char>)>
    decreases s.len()
        via chunk_segments_decreases
{
    let tag = active_tag(in_block);
    match first_match(s, tag) {
        Some(i) => (if i > 0 {
            seq![(in_block, s.take(i))]
        } else {
            Seq::empty()
        }) + chunk_segments(s.skip(i + tag.len() as int), !in_block),
        None => {
            let k = trailing_keep(s, tag);
            if s.len() - k > 0 {
                seq![(in_block, s.take(s.len() - k))]
            } else {
                Seq::empty()
            }
        },
    }
}

#[via_fn]
proof fn chunk_segments_decreases(s: Seq<char>, in_block: bool) {
    lemma_first_match_props(s, active_tag(in_block));
}

/// Text of a segment, whichever kind it is.
pub open spec fn seg_text(seg: ContentSegment) -> Seq<char> {
    match seg {
        ContentSegment::Assistant(t) => t@,
        ContentSegment::Reasoning(t) => t@,
    }
}

/// The kind-and-text pairs of a segment list.
pub open spec fn segs_model(segs: Seq<ContentSegment>) -> Seq<(bool, Seq<char>)>
    decreases segs.len(),
{
    if segs.len() == 0 {
        Seq::empty()
    } else {
        segs_model(segs.drop_last()).push((segs.last() is Reasoning, seg_text(segs.last())))
    }
}

/// Appending a segment appends its pair to the model.
proof fn lemma_segs_model_push(segs: Seq<ContentSegment>, x: ContentSegment)
    ensures
        segs_model(segs.push(x)) =~= segs_model(segs).push((x is Reasoning, seg_text(x))),
{
    assert(segs.push(x).drop_last() =~= segs);
    assert(segs.push(x).last() == x);
}

/// Concatenation of the assistant-kind segments of a sequence.
pub open spec fn assistant_concat(segs: Seq<ContentSegment>) -> Seq<char>
    decreases segs.len(),
{
    if segs.len() == 0 {
        Seq::empty()
    } else {
        (if segs[0] is Assistant {
            seg_text(segs[0])
        } else {
            Seq::empty()
        }) + assistant_concat(segs.skip(1))
    }
}

/// Concatenation of the reasoning-kind segments of a sequence.
pub open spec fn reasoning_concat(segs: Seq<ContentSegment>) -> Seq<char>
    decreases segs.len(),
{
    if segs.len() == 0 {
        Seq::empty()
    } else {
        (if segs[0] is Reasoning {
            seg_text(segs[0])
        } else {
            Seq::empty()
        }) + reasoning_concat(segs.skip(1))
    }
}

/// Appending a segment appends its text to the concatenation of its kind.
pub proof fn lemma_concat_push(segs: Seq<ContentSegment>, x: ContentSegment)
    ensures
        assistant_concat(segs.push(x)) =~= assistant_concat(segs) + (if x is Assistant {
            seg_text(x)
        } else {
            Seq::empty()
        }),
        reasoning_concat(segs.push(x)) =~= reasoning_concat(segs) + (if x is Reasoning {
            seg_text(x)
        } else {
            Seq::empty()
        }),
    decreases segs.len(),
{
    if segs.len() == 0 {
        assert(segs.push(x).skip(1) =~= Seq::<ContentSegment>::empty());
        assert(segs.push(x)[0] == x);
        assert(assistant_concat(segs.push(x).skip(1)) =~= Seq::<char>::empty());
        assert(reasoning_concat(segs.push(x).skip(1)) =~= Seq::<char>::empty());
        assert(assistant_concat(segs) =~= Seq::<char>::empty());
        assert(reasoning_concat(segs) =~= Seq::<char>::empty());
    } else {
        assert(segs.push(x).skip(1) =~= segs.skip(1).push(x));
        lemma_concat_push(segs.skip(1), x);
        assert(segs.push(x)[0] == segs[0]);
        assert(assistant_concat(segs.push(x)) =~= (if segs[0] is Assistant {
            seg_text(segs[0])
        } else {
            Seq::empty()
        }) + assistant_concat(segs.skip(1).push(x)));
        assert(reasoning_concat(segs.push(x)) =~= (if segs[0] is Reasoning {
            seg_text(segs[0])
        } else {
            Seq::empty()
        }) + reasoning_concat(segs.skip(1).push(x)));
    }
}

/// A match of `pat` in the suffix `v.skip(m)` is a match in `v`, shifted.
proof fn lemma_match_shift(v: Seq<char>, pat: Seq<char>, m: int, k: int)
    requires
        0 <= m <= v.len(),
        0 <= k,
    ensures
        match_at(v.skip(m), pat, k) <==> match_at(v, pat, m + k),
{
    if k + pat.len() <= v.skip(m).len() {
        assert(v.skip(m).subrange(k, k + pat.len() as int) =~= v.subrange(
            m + k,
            m + k + pat.len() as int,
        ));
    }
}

/// Emitting a match-free prefix commutes with the model: if no occurrence of
/// the active token starts inside the first `m` characters of `v`, that prefix
/// belongs wholly to the current side of the decomposition.
#[verifier::rlimit(30)]
proof fn lemma_split_skip_prefix(v: Seq<char>, b: bool, m: int)
    requires
        0 <= m <= v.len(),
        forall|k: int| 0 <= k < m ==> !match_at(v, active_tag(b), k),
    ensures
        ({
            let whole = split_model(v, b);
            let rest = split_model(v.skip(m), b);
            if b {
                whole.0 =~= rest.0 && whole.1 =~= v.take(m) + rest.1
            } else {
                whole.0 =~= v.take(m) + rest.0 && whole.1 =~= rest.1
            }
        }),
{
    let tag = active_tag(b);
    lemma_first_match_props(v, tag);
    assert forall|k: int| 0 <= k implies match_at(v.skip(m), tag, k) == match_at(v, tag, m + k) by {
        lemma_match_shift(v, tag, m, k);
    }
    match first_match(v, tag) {
        Some(j) => {
            assert(m <= j);
            assert(match_at(v.skip(m), tag, j - m));
            assert forall|k: int| 0 <= k < j - m implies !match_at(v.skip(m), tag, k) by {
                assert(!match_at(v, tag, m + k));
            }
            lemma_first_match_is(v.skip(m), tag, j - m);
            let l = tag.len() as int;
            assert(v.skip(m).skip(j - m + l) =~= v.skip(j + l));
            assert(v.skip(m).take(j - m) =~= v.subrange(m, j));
            assert(v.take(j) =~= v.take(m) + v.subrange(m, j));
        },
        None => {
            assert forall|k: int| !match_at(v.skip(m), tag, k) by {
                if 0 <= k {
                    assert(!match_at(v, tag, m + k));
                }
            }
            lemma_first_match_none(v.skip(m), tag);
            assert(v.take(m) + v.skip(m) =~= v);
        },
    }
}

/// A retained buffer — a proper prefix of the active token — produces no
/// further segments.
proof fn lemma_chunk_kept_empty(kept: Seq<char>, in_block: bool)
    requires
        kept.len() < active_tag(in_block).len(),
        kept =~= active_tag(in_block).take(kept.len() as int),
    ensures
        chunk_segments(kept, in_block) =~= Seq::<(bool, Seq<char>)>::empty(),
{
    let tag = active_tag(in_block);
    let kl = kept.len() as int;
    lemma_first_match_props(kept, tag);
    if let Some(j) = first_match(kept, tag) {
        assert(!match_at(kept, tag, j));
    }
    if kl > 0 {
        assert(kept.skip(0) =~= kept);
        assert(kept.skip(kept.len() - kl) =~= tag.take(kl));
        lemma_trailing_keep_is(kept, tag, kl, kl);
    } else {
        lemma_trailing_keep_is(kept, tag, 0, 0);
    }
    assert(trailing_keep(kept, tag) == kl);
}

/// One found-token step preserves the segment-model decomposition.
proof fn lemma_chunk_step_found(
    p: Seq<char>,
    b: bool,
    pos: int,
    before: Seq<(bool, Seq<char>)>,
    after: Seq<(bool, Seq<char>)>,
)
    requires
        first_match(p, active_tag(b)) == Some(pos),
        pos > 0 ==> after =~= before.push((b, p.take(pos))),
        pos == 0 ==> after =~= before,
    ensures
        before + chunk_segments(p, b) =~= after + chunk_segments(
            p.skip(pos + active_tag(b).len() as int),
            !b,
        ),
{
    lemma_first_match_props(p, active_tag(b));
    let l = active_tag(b).len() as int;
    let rest = chunk_segments(p.skip(pos + l), !b);
    if pos > 0 {
        assert(chunk_segments(p, b) =~= seq![(b, p.take(pos))] + rest);
        assert(before + (seq![(b, p.take(pos))] + rest) =~= before.push((b, p.take(pos)))
            + rest);
        assert(after + rest =~= before.push((b, p.take(pos))) + rest);
    } else {
        assert(chunk_segments(p, b) =~= Seq::<(bool, Seq<char>)>::empty() + rest);
        assert(before + (Seq::<(bool, Seq<char>)>::empty() + rest) =~= before + rest);
        assert(after + rest =~= before + rest);
    }
}

/// One retention step preserves the segment-model decomposition: the buffer
/// emits everything except the retained token prefix as one segment.
proof fn lemma_chunk_step_none(
    p: Seq<char>,
    b: bool,
    keep: int,
    before: Seq<(bool, Seq<char>)>,
    after: Seq<(bool, Seq<char>)>,
)
    requires
        first_match(p, active_tag(b)) is None,
        keep == trailing_keep(p, active_tag(b)),
        0 <= keep <= p.len(),
        keep < active_tag(b).len(),
        p.len() - keep > 0 ==> after =~= before.push((b, p.take(p.len() - keep))),
        p.len() - keep == 0 ==> after =~= before,
    ensures
        before + chunk_segments(p, b) =~= after + chunk_segments(p.skip(p.len() - keep), b),
{
    let tag = active_tag(b);
    lemma_trailing_keep_from_props(
        p,
        tag,
        if p.len() < tag.len() - 1 {
            p.len() as int
        } else {
            tag.len() - 1
        },
    );
    if p.len() - keep > 0 {
        assert(chunk_segments(p, b) =~= seq![(b, p.take(p.len() - keep))]);
        assert(before + seq![(b, p.take(p.len() - keep))] =~= before.push(
            (b, p.take(p.len() - keep)),
        ));
    } else {
        assert(chunk_segments(p, b) =~= Seq::<(bool, Seq<char>)>::empty());
        assert(before + chunk_segments(p, b) =~= before);
    }
    if keep > 0 {
        assert(p.skip(p.len() - keep).len() == keep);
        assert(p.skip(p.len() - keep) =~= tag.take(keep));
        assert(p.skip(p.len() - keep).len() < tag.len());
        lemma_chunk_kept_empty(p.skip(p.len() - keep), b);
    } else {
        assert(p.skip(p.len() - keep) =~= Seq::<char>::empty());
        assert(p.skip(p.len() - keep) =~= tag.take(0));
        lemma_chunk_kept_empty(p.skip(p.len() - keep), b);
    }
    assert(after + chunk_segments(p.skip(p.len() - keep), b) =~= after);
}

/// The segment-list invariant survives one found-token step.
proof fn lemma_inv_found(
    t0: Seq<char>,
    b0: bool,
    p: Seq<char>,
    b: bool,
    pos: int,
    sb: Seq<(bool, Seq<char>)>,
    sa: Seq<(bool, Seq<char>)>,
)
    requires
        chunk_segments(t0, b0) =~= sb + chunk_segments(p, b),
        first_match(p, active_tag(b)) == Some(pos),
        pos > 0 ==> sa =~= sb.push((b, p.take(pos))),
        pos == 0 ==> sa =~= sb,
    ensures
        chunk_segments(t0, b0) =~= sa + chunk_segments(
            p.skip(pos + active_tag(b).len() as int),
            !b,
        ),
{
    lemma_chunk_step_found(p, b, pos, sb, sa);
}

/// The segment-list invariant survives one retention step.
proof fn lemma_inv_none(
    t0: Seq<char>,
    b0: bool,
    p: Seq<char>,
    b: bool,
    keep: int,
    sb: Seq<(bool, Seq<char>)>,
    sa: Seq<(bool, Seq<char>)>,
)
    requires
        chunk_segments(t0, b0) =~= sb + chunk_segments(p, b),
        first_match(p, active_tag(b)) is None,
        keep == trailing_keep(p, active_tag(b)),
        0 <= keep <= p.len(),
        keep < active_tag(b).len(),
        p.len() - keep > 0 ==> sa =~= sb.push((b, p.take(p.len() - keep))),
        p.len() - keep == 0 ==> sa =~= sb,
    ensures
        chunk_segments(t0, b0) =~= sa + chunk_segments(p.skip(p.len() - keep), b),
        chunk_segments(p.skip(p.len() - keep), b) =~= Seq::<(bool, Seq<char>)>::empty(),
{
    lemma_chunk_step_none(p, b, keep, sb, sa);
    lemma_trailing_keep_from_props(
        p,
        active_tag(b),
        if p.len() < active_tag(b).len() - 1 {
            p.len() as int
        } else {
            active_tag(b).len() - 1
        },
    );
    if keep > 0 {
        assert(p.skip(p.len() - keep) =~= active_tag(b).take(keep));
        lemma_chunk_kept_empty(p.skip(p.len() - keep), b);
    } else {
        assert(p.skip(p.len() - keep) =~= active_tag(b).take(0));
        lemma_chunk_kept_empty(p.skip(p.len() - keep), b);
    }
}

/// The for-all-continuations decomposition invariant survives one
/// found-token step: the text before the token joins the current side, and
/// the scan flips sides past the token.
proof fn lemma_forall_inv_found(
    t0: Seq<char>,
    b0: bool,
    p: Seq<char>,
    b: bool,
    pos: int,
    a0: Seq<char>,
    r0: Seq<char>,
    a1: Seq<char>,
    r1: Seq<char>,
)
    requires
        forall|u: Seq<char>|
            #![trigger split_model(t0 + u, b0)]
            {
                &&& split_model(t0 + u, b0).0 =~= a0 + split_model(p + u, b).0
                &&& split_model(t0 + u, b0).1 =~= r0 + split_model(p + u, b).1
            },
        first_match(p, active_tag(b)) == Some(pos),
        a1 =~= a0 + (if !b && pos > 0 {
            p.take(pos)
        } else {
            Seq::empty()
        }),
        r1 =~= r0 + (if b && pos > 0 {
            p.take(pos)
        } else {
            Seq::empty()
        }),
    ensures
        forall|u: Seq<char>|
            #![trigger split_model(t0 + u, b0)]
            {
                &&& split_model(t0 + u, b0).0 =~= a1 + split_model(
                    p.skip(pos + active_tag(b).len() as int) + u,
                    !b,
                ).0
                &&& split_model(t0 + u, b0).1 =~= r1 + split_model(
                    p.skip(pos + active_tag(b).len() as int) + u,
                    !b,
                ).1
            },
{
    let tag_seq = active_tag(b);
    let l = tag_seq.len() as int;
    lemma_first_match_props(p, tag_seq);
    assert forall|u: Seq<char>|
        #![trigger split_model(t0 + u, b0)]
        {
            &&& split_model(t0 + u, b0).0 =~= a1 + split_model(p.skip(pos + l) + u, !b).0
            &&& split_model(t0 + u, b0).1 =~= r1 + split_model(p.skip(pos + l) + u, !b).1
        } by {
        assert(split_model(t0 + u, b0).0 =~= a0 + split_model(p + u, b).0);
        assert(split_model(t0 + u, b0).1 =~= r0 + split_model(p + u, b).1);
        // The leftmost match in `p` stays leftmost in `p + u`: an earlier
        // match would either sit wholly inside `p` (contradicting
        // leftmost-ness) or start past it.
        assert forall|k: int| 0 <= k < pos implies !match_at(p + u, tag_seq, k) by {
            if match_at(p + u, tag_seq, k) {
                if k + l <= p.len() {
                    assert((p + u).subrange(k, k + l) =~= p.subrange(k, k + l));
                    assert(match_at(p, tag_seq, k));
                } else {
                    assert(pos + l <= p.len());
                }
            }
        }
        assert((p + u).subrange(pos, pos + l) =~= p.subrange(pos, pos + l));
        assert(match_at(p + u, tag_seq, pos));
        lemma_first_match_is(p + u, tag_seq, pos);
        assert((p + u).skip(pos + l) =~= p.skip(pos + l) + u);
        assert((p + u).take(pos) =~= p.take(pos));
        assert(split_model(p + u, b).0 =~= (if b {
            split_model(p.skip(pos + l) + u, !b).0
        } else {
            p.take(pos) + split_model(p.skip(pos + l) + u, !b).0
        }));
        assert(split_model(p + u, b).1 =~= (if b {
            p.take(pos) + split_model(p.skip(pos + l) + u, !b).1
        } else {
            split_model(p.skip(pos + l) + u, !b).1
        }));
    }
}

/// The for-all-continuations decomposition invariant survives one retention
/// step: everything except the retained token prefix joins the current side.
proof fn lemma_forall_inv_none(
    t0: Seq<char>,
    b0: bool,
    p: Seq<char>,
    b: bool,
    keep: int,
    a0: Seq<char>,
    r0: Seq<char>,
    a1: Seq<char>,
    r1: Seq<char>,
)
    requires
        forall|u: Seq<char>|
            #![trigger split_model(t0 + u, b0)]
            {
                &&& split_model(t0 + u, b0).0 =~= a0 + split_model(p + u, b).0
                &&& split_model(t0 + u, b0).1 =~= r0 + split_model(p + u, b).1
            },
        first_match(p, active_tag(b)) is None,
        0 <= keep <= p.len(),
        keep < active_tag(b).len(),
        keep > 0 ==> p.skip(p.len() - keep) =~= active_tag(b).take(keep),
        forall|l: int|
            keep < l <= p.len() && l < active_tag(b).len() ==> !(p.skip(p.len() - l)
                =~= active_tag(b).take(l)),
        a1 =~= a0 + (if !b && p.len() - keep > 0 {
            p.take(p.len() - keep)
        } else {
            Seq::empty()
        }),
        r1 =~= r0 + (if b && p.len() - keep > 0 {
            p.take(p.len() - keep)
        } else {
            Seq::empty()
        }),
    ensures
        forall|u: Seq<char>|
            #![trigger split_model(t0 + u, b0)]
            {
                &&& split_model(t0 + u, b0).0 =~= a1 + split_model(
                    p.skip(p.len() - keep) + u,
                    b,
                ).0
                &&& split_model(t0 + u, b0).1 =~= r1 + split_model(
                    p.skip(p.len() - keep) + u,
                    b,
                ).1
            },
{
    let tag_seq = active_tag(b);
    let l = tag_seq.len() as int;
    let m = p.len() - keep;
    lemma_first_match_props(p, tag_seq);
    assert forall|u: Seq<char>|
        #![trigger split_model(t0 + u, b0)]
        {
            &&& split_model(t0 + u, b0).0 =~= a1 + split_model(p.skip(m) + u, b).0
            &&& split_model(t0 + u, b0).1 =~= r1 + split_model(p.skip(m) + u, b).1
        } by {
        assert(split_model(t0 + u, b0).0 =~= a0 + split_model(p + u, b).0);
        assert(split_model(t0 + u, b0).1 =~= r0 + split_model(p + u, b).1);
        // No occurrence of the token can start in the emitted prefix: one
        // wholly inside `p` is ruled out by the failed search, and one
        // spanning into `u` would make the end of `p` a longer token prefix
        // than the retention length, contradicting its maximality.
        assert forall|k: int| 0 <= k < m implies !match_at(p + u, tag_seq, k) by {
            if match_at(p + u, tag_seq, k) {
                if k + l <= p.len() {
                    assert((p + u).subrange(k, k + l) =~= p.subrange(k, k + l));
                    assert(match_at(p, tag_seq, k));
                } else {
                    let part = p.len() - k;
                    assert(keep < part < l);
                    assert(p.skip(k) =~= (p + u).subrange(k, k + l).take(part as int));
                    assert(p.skip(p.len() - part) =~= tag_seq.take(part as int));
                }
            }
        }
        lemma_split_skip_prefix(p + u, b, m);
        assert((p + u).skip(m) =~= p.skip(m) + u);
        assert((p + u).take(m) =~= p.take(m));
    }
}

/// Law: a think-tag-wrapped text decomposes into exactly its outer and inner
/// parts — `split_model` of `a<think>b</think>c` is `(a + c, b)`.  The
/// contracts of `split_chunk` and `flush_remaining` reproduce `split_model`
/// of the whole input however the input is cut into chunks, so together with
/// this lemma the splitter's output is pinned down for any chunking of a
/// wrapped text.  The premise keeps the surrounding parts markup-free in the
/// strong sense of containing no `'<'`.
pub proof fn lemma_think_wrap_decomposition(a: Seq<char>, b: Seq<char>, c: Seq<char>)
    requires
        forall|i: int| 0 <= i < a.len() ==> a[i] != '<',
        forall|i: int| 0 <= i < b.len() ==> b[i] != '<',
        forall|i: int| 0 <= i < c.len() ==> c[i] != '<',
    ensures
        split_model(a + open_tag() + b + close_tag() + c, false).0 =~= a + c,
        split_model(a + open_tag() + b + close_tag() + c, false).1 =~= b,
{
    let s = a + open_tag() + b + close_tag() + c;
    let alen = a.len() as int;
    let blen = b.len() as int;
    assert(open_tag().len() == 7);
    assert(close_tag().len() == 8);
    assert(open_tag()[0] == '<');
    assert(close_tag()[0] == '<');

    assert(s.subrange(alen, alen + 7) =~= open_tag());
    assert forall|k: int| 0 <= k < alen implies !match_at(s, open_tag(), k) by {
        if match_at(s, open_tag(), k) {
            assert(s.subrange(k, k + 7)[0] == s[k]);
            assert(s[k] == a[k]);
        }
    }
    lemma_first_match_is(s, open_tag(), alen);
    let s2 = s.skip(alen + 7);
    assert(s2 =~= b + close_tag() + c);

    assert(s2.subrange(blen, blen + 8) =~= close_tag());
    assert forall|k: int| 0 <= k < blen implies !match_at(s2, close_tag(), k) by {
        if match_at(s2, close_tag(), k) {
            assert(s2.subrange(k, k + 8)[0] == s2[k]);
            assert(s2[k] == b[k]);
        }
    }
    lemma_first_match_is(s2, close_tag(), blen);
    let s3 = s2.skip(blen + 8);
    assert(s3 =~= c);

    assert forall|k: int| !match_at(s3, open_tag(), k) by {
        if match_at(s3, open_tag(), k) {
            assert(s3.subrange(k, k + 7)[0] == s3[k]);
            assert(s3[k] == c[k]);
        }
    }
    lemma_first_match_none(s3, open_tag());
    assert(split_model(s3, false) == (s3, Seq::<char>::empty()));
    assert(split_model(s2, true).0 =~= split_model(s3, false).0);
    assert(split_model(s2, true).1 =~= s2.take(blen) + split_model(s3, false).1);
    assert(split_model(s, false).0 =~= s.take(alen) + split_model(s2, true).0);
    assert(split_model(s, false).1 =~= split_model(s2, true).1);
    assert(s2.take(blen) =~= b);
    assert(s.take(alen) =~= a);
    assert(s.take(alen) + s3 =~= a + c);
    assert(s2.take(blen) + Seq::<char>::empty() =~= b);
}

/// The splitter.  `pending` holds text not yet classified; `in_think_block`
/// says which boundary token the scanner is looking for.
#[derive(Debug)]
pub struct ThinkTagStreamSplitter {
    pub format: ChatReasoningFormat,
    pub pending: String,
    pub in_think_block: bool,
}

/// Splitter well-formedness: under the passthrough policy nothing is ever
/// buffered; under the markup policy the buffer holds no complete active
/// token, and is in fact a proper prefix of the active token — only
/// characters that could still become a split token are ever retained, at
/// most one character less than the token itself.
pub open spec fn splitter_wf(s: ThinkTagStreamSplitter) -> bool {
    match s.format {
        ChatReasoningFormat::Standard => s.pending@.len() == 0,
        ChatReasoningFormat::MinimaxThinkTags => {
            &&& first_match(s.pending@, active_tag(s.in_think_block)) is None
            &&& s.pending@.len() < active_tag(s.in_think_block).len()
            &&& s.pending@ =~= active_tag(s.in_think_block).take(s.pending@.len() as int)
        },
    }
}

/// A flush emits the whole token-free buffer as one segment of the current
/// kind; that is exactly the model decomposition of the buffer.
proof fn flush_model_facts(s: ThinkTagStreamSplitter, segs: Seq<ContentSegment>)
    requires
        splitter_wf(s),
        s.pending@.len() == 0 ==> segs.len() == 0,
        s.pending@.len() > 0 ==> segs.len() == 1 && seg_text(segs[0]) =~= s.pending@ && (segs[0]
            is Reasoning <==> s.in_think_block),
    ensures
        assistant_concat(segs) =~= split_model(s.pending@, s.in_think_block).0,
        reasoning_concat(segs) =~= split_model(s.pending@, s.in_think_block).1,
{
    let p = s.pending@;
    let b = s.in_think_block;
    assert(open_tag().len() == 7);
    assert(close_tag().len() == 8);
    if p.len() == 0 {
        assert forall|k: int| !match_at(p, active_tag(b), k) by {}
        lemma_first_match_none(p, active_tag(b));
    } else {
        assert(first_match(p, active_tag(b)) is None);
    }
    if b {
        assert(split_model(p, b) == (Seq::<char>::empty(), p));
    } else {
        assert(split_model(p, b) == (p, Seq::<char>::empty()));
    }
    if segs.len() == 0 {
        assert(assistant_concat(segs) =~= Seq::<char>::empty());
        assert(reasoning_concat(segs) =~= Seq::<char>::empty());
        assert(p =~= Seq::<char>::empty());
    } else {
        assert(segs.skip(1) =~= Seq::<ContentSegment>::empty());
        assert(assistant_concat(segs.skip(1)) =~= Seq::<char>::empty());
        assert(reasoning_concat(segs.skip(1)) =~= Seq::<char>::empty());
    }
}

/// Removes and returns the first `end` characters of `buffer`.
pub fn take_prefix(buffer: &mut String, end: usize) -> (pre: String)
    requires
        end <= old(buffer)@.len(),
    ensures
        pre@ =~= old(buffer)@.take(end as int),
        final(buffer)@ =~= old(buffer)@.skip(end as int),
{
    let n = buffer.as_str().unicode_len();
    let pre = buffer.as_str().substring_char(0, end).to_owned();
    let rest = buffer.as_str().substring_char(end, n).to_owned();
    *buffer = rest;
    pre
}

/// Length of the longest strict prefix of `tag` that ends `buffer`; these are
/// the characters that could still become a complete token once more text
/// arrives, so they must not be emitted yet.
pub fn trailing_partial_tag_len(buffer: &str, tag: &str) -> (r: usize)
    requires
        tag@.len() >= 1,
    ensures
        r <= buffer@.len(),
        r < tag@.len(),
        r as int == trailing_keep(buffer@, tag@),
        r > 0 ==> buffer@.skip(buffer@.len() - r) =~= tag@.take(r as int),
        forall|l: int|
            r < l <= buffer@.len() && l < tag@.len() ==> !(buffer@.skip(buffer@.len() - l)
                =~= tag@.take(l)),
{
    let n = buffer.unicode_len();
    let m = tag.unicode_len();
    let max = if n < m - 1 {
        n
    } else {
        m - 1
    };
    let mut len = max;
    while len >= 1
        invariant
            n == buffer@.len(),
            m == tag@.len(),
            m >= 1,
            max <= n,
            max < m,
            max as int == (if buffer@.len() < tag@.len() - 1 {
                buffer@.len() as int
            } else {
                tag@.len() - 1
            }),
            len <= max,
            forall|l: int|
                len < l <= n && l < m ==> !(buffer@.skip(n - l) =~= tag@.take(l)),
        decreases len,
    {
        let mut j: usize = 0;
        let mut matched = true;
        while j < len
            invariant
                n == buffer@.len(),
                m == tag@.len(),
                1 <= len <= n,
                len < m,
                j <= len,
                matched ==> forall|t: int| 0 <= t < j ==> buffer@[n - len + t] == tag@[t],
                !matched ==> !(buffer@.skip(n - len as int) =~= tag@.take(len as int)),
            decreases len - j,
        {
            if matched {
                let a = buffer.get_char(n - len + j);
                let b = tag.get_char(j);
                if a != b {
                    proof {
                        if buffer@.skip(n - len as int) =~= tag@.take(len as int) {
                            assert(buffer@.skip(n - len as int)[j as int] == tag@.take(
                                len as int,
                            )[j as int]);
                        }
                    }
                    matched = false;
                }
            }
            j = j + 1;
        }
        if matched {
            proof {
                assert(buffer@.skip(n - len as int) =~= tag@.take(len as int));
                lemma_trailing_keep_is(buffer@, tag@, max as int, len as int);
            }
            return len;
        }
        len = len - 1;
    }
    proof {
        lemma_trailing_keep_is(buffer@, tag@, max as int, 0);
    }
    0
}

impl ThinkTagStreamSplitter {
    /// A fresh splitter for the given policy: empty buffer, outside any block.
    pub fn new(format: ChatReasoningFormat) -> (s: ThinkTagStreamSplitter)
        ensures
            s.format == format,
            s.pending@.len() == 0,
            !s.in_think_block,
            splitter_wf(s),
    {
        let s = ThinkTagStreamSplitter { format, pending: String::new(), in_think_block: false };
        proof {
            assert(open_tag().len() == 7);
            lemma_first_match_props(s.pending@, active_tag(false));
            if let Some(j) = first_match(s.pending@, active_tag(false)) {
                assert(!match_at(s.pending@, active_tag(false), j));
            }
            assert(s.pending@ =~= active_tag(false).take(0));
        }
        s
    }

    /// Feed one chunk of streamed text.
    ///
    /// Under `Standard` the chunk passes through as assistant text.  Under
    /// `MinimaxThinkTags` the returned segments are exactly the scan pass of
    /// the buffered text plus the chunk (`chunk_segments`, which pins every
    /// segment's kind, text and order), and the returned segments plus the
    /// retained buffer reproduce the canonical decomposition of everything
    /// fed so far — and, compositionally, of any continuation: this is what
    /// makes the splitter insensitive to where chunk boundaries fall.
    pub fn split_chunk(&mut self, text: &str) -> (segs: Vec<ContentSegment>)
        requires
            splitter_wf(*old(self)),
        ensures
            splitter_wf(*final(self)),
            final(self).format == old(self).format,
            text@.len() == 0 ==> *final(self) == *old(self) && segs@.len() == 0,
            old(self).format is Standard ==> {
                &&& *final(self) == *old(self)
                &&& (text@.len() > 0 ==> segs@.len() == 1 && segs@[0] is Assistant && seg_text(
                    segs@[0],
                ) =~= text@)
            },
            old(self).format is MinimaxThinkTags && text@.len() > 0 ==> {
                &&& segs_model(segs@) =~= chunk_segments(
                    old(self).pending@ + text@,
                    old(self).in_think_block,
                )
                &&& ({
                    let t0 = old(self).pending@ + text@;
                    let b0 = old(self).in_think_block;
                    forall|u: Seq<char>|
                        #![trigger split_model(t0 + u, b0)]
                        {
                            &&& split_model(t0 + u, b0).0 =~= assistant_concat(segs@)
                                + split_model(
                                final(self).pending@ + u,
                                final(self).in_think_block,
                            ).0
                            &&& split_model(t0 + u, b0).1 =~= reasoning_concat(segs@)
                                + split_model(
                                final(self).pending@ + u,
                                final(self).in_think_block,
                            ).1
                        }
                })
            },
    {
        if text.unicode_len() == 0 {
            return Vec::new();
        }
        match self.format {
            ChatReasoningFormat::Standard => {
                let mut segs: Vec<ContentSegment> = Vec::new();
                segs.push(ContentSegment::Assistant(text.to_owned()));
                segs
            },
            ChatReasoningFormat::MinimaxThinkTags => self.split_minimax_chunk(text),
        }
    }

    /// Emit whatever is still buffered, tagged with the current block state.
    /// An unclosed think block is surfaced as reasoning text, not dropped.
    /// After the call the buffer is empty, so a second flush in a row
    /// returns nothing.
    pub fn flush_remaining(&mut self) -> (segs: Vec<ContentSegment>)
        requires
            splitter_wf(*old(self)),
        ensures
            splitter_wf(*final(self)),
            final(self).format == old(self).format,
            final(self).in_think_block == old(self).in_think_block,
            final(self).pending@.len() == 0,
            old(self).pending@.len() == 0 ==> segs@.len() == 0,
            old(self).pending@.len() > 0 ==> {
                &&& segs@.len() == 1
                &&& seg_text(segs@[0]) =~= old(self).pending@
                &&& (segs@[0] is Reasoning <==> old(self).in_think_block)
            },
            assistant_concat(segs@) =~= split_model(
                old(self).pending@,
                old(self).in_think_block,
            ).0,
            reasoning_concat(segs@) =~= split_model(
                old(self).pending@,
                old(self).in_think_block,
            ).1,
    {
        let ghost p = self.pending@;
        let ghost b = self.in_think_block;
        let n = self.pending.as_str().unicode_len();
        if n == 0 {
            let segs: Vec<ContentSegment> = Vec::new();
            proof {
                assert(p =~= Seq::<char>::empty());
                flush_model_facts(*old(self), segs@);
            }
            return segs;
        }
        let pending = take_prefix(&mut self.pending, n);
        let mut segs: Vec<ContentSegment> = Vec::new();
        if self.in_think_block {
            segs.push(ContentSegment::Reasoning(pending));
        } else {
            segs.push(ContentSegment::Assistant(pending));
        }
        proof {
            assert(p.take(n as int) =~= p);
            assert(seg_text(segs@[0]) =~= p);
            flush_model_facts(*old(self), segs@);
            assert(self.pending@ =~= Seq::<char>::empty());
            assert forall|k: int| !match_at(self.pending@, active_tag(b), k) by {
                assert(active_tag(b).len() > 0);
            }
            lemma_first_match_none(self.pending@, active_tag(b));
            assert(self.pending@ =~= active_tag(b).take(0));
        }
        segs
    }

    /// One scan pass over the buffer plus the new chunk: consume complete
    /// boundary tokens leftmost-first, emit the classified text before each,
    /// and finally retain only the characters that could still open a token.
    #[verifier::rlimit(100)]
    fn split_minimax_chunk(&mut self, text: &str) -> (segs: Vec<ContentSegment>)
        requires
            old(self).format is MinimaxThinkTags,
            splitter_wf(*old(self)),
        ensures
            splitter_wf(*final(self)),
            final(self).format == old(self).format,
            segs_model(segs@) =~= chunk_segments(
                old(self).pending@ + text@,
                old(self).in_think_block,
            ),
            ({
                let t0 = old(self).pending@ + text@;
                let b0 = old(self).in_think_block;
                forall|u: Seq<char>|
                    #![trigger split_model(t0 + u, b0)]
                    {
                        &&& split_model(t0 + u, b0).0 =~= assistant_concat(segs@) + split_model(
                            final(self).pending@ + u,
                            final(self).in_think_block,
                        ).0
                        &&& split_model(t0 + u, b0).1 =~= reasoning_concat(segs@) + split_model(
                            final(self).pending@ + u,
                            final(self).in_think_block,
                        ).1
                    }
            }),
    {
        let open_lit = "<think>";
        let close_lit = "</think>";
        proof {
            reveal_strlit("<think>");
            reveal_strlit("</think>");
            assert(open_lit@ =~= open_tag());
            assert(close_lit@ =~= close_tag());
        }
        let ghost t0 = self.pending@ + text@;
        let ghost b0 = self.in_think_block;
        self.pending.append(text);
        let mut segs: Vec<ContentSegment> = Vec::new();
        let mut scanning = true;
        proof {
            assert(segs_model(segs@) =~= Seq::<(bool, Seq<char>)>::empty());
            assert(chunk_segments(t0, b0) =~= segs_model(segs@) + chunk_segments(
                self.pending@,
                self.in_think_block,
            ));
        }
        while scanning
            invariant
                self.format is MinimaxThinkTags,
                open_lit@ =~= open_tag(),
                close_lit@ =~= close_tag(),
                !scanning ==> {
                    &&& first_match(self.pending@, active_tag(self.in_think_block)) is None
                    &&& self.pending@.len() < active_tag(self.in_think_block).len()
                    &&& self.pending@ =~= active_tag(self.in_think_block).take(
                        self.pending@.len() as int,
                    )
                },
                chunk_segments(t0, b0) =~= segs_model(segs@) + chunk_segments(
                    self.pending@,
                    self.in_think_block,
                ),
                !scanning ==> chunk_segments(self.pending@, self.in_think_block) =~= Seq::<(
                    bool,
                    Seq<char>,
                )>::empty(),
                forall|u: Seq<char>|
                    #![trigger split_model(t0 + u, b0)]
                    {
                        &&& split_model(t0 + u, b0).0 =~= assistant_concat(segs@) + split_model(
                            self.pending@ + u,
                            self.in_think_block,
                        ).0
                        &&& split_model(t0 + u, b0).1 =~= reasoning_concat(segs@) + split_model(
                            self.pending@ + u,
                            self.in_think_block,
                        ).1
                    },
            decreases (if scanning {
                1int
            } else {
                0int
            }), self.pending@.len(),
        {
            let tag = if self.in_think_block {
                close_lit
            } else {
                open_lit
            };
            let ghost tag_seq = active_tag(self.in_think_block);
            assert(tag@ =~= tag_seq);
            let n = self.pending.as_str().unicode_len();
            match find_str(self.pending.as_str(), tag) {
                Some(pos) => {
                    let ghost p = self.pending@;
                    let ghost b = self.in_think_block;
                    let taglen = tag.unicode_len();
                    proof {
                        lemma_first_match_props(p, tag_seq);
                    }
                    let emitted = take_prefix(&mut self.pending, pos);
                    let ghost e = emitted@;
                    let _ = take_prefix(&mut self.pending, taglen);
                    let ghost segs_before = segs@;
                    if pos > 0 {
                        if self.in_think_block {
                            segs.push(ContentSegment::Reasoning(emitted));
                        } else {
                            segs.push(ContentSegment::Assistant(emitted));
                        }
                    }
                    self.in_think_block = !self.in_think_block;
                    proof {
                        let l = tag_seq.len() as int;
                        assert(self.pending@ =~= p.skip(pos + l));
                        if pos > 0 {
                            lemma_concat_push(segs_before, segs@[segs@.len() - 1]);
                            lemma_segs_model_push(segs_before, segs@[segs@.len() - 1]);
                            assert(segs_model(segs@) =~= segs_model(segs_before).push((b, e)));
                        }
                        lemma_inv_found(
                            t0,
                            b0,
                            p,
                            b,
                            pos as int,
                            segs_model(segs_before),
                            segs_model(segs@),
                        );
                        assert(assistant_concat(segs@) =~= assistant_concat(segs_before) + (if !b
                            && pos > 0 {
                            p.take(pos as int)
                        } else {
                            Seq::empty()
                        }));
                        assert(reasoning_concat(segs@) =~= reasoning_concat(segs_before) + (if b
                            && pos > 0 {
                            p.take(pos as int)
                        } else {
                            Seq::empty()
                        }));
                        lemma_forall_inv_found(
                            t0,
                            b0,
                            p,
                            b,
                            pos as int,
                            assistant_concat(segs_before),
                            reasoning_concat(segs_before),
                            assistant_concat(segs@),
                            reasoning_concat(segs@),
                        );
                    }
                },
                None => {
                    let ghost p = self.pending@;
                    let ghost b = self.in_think_block;
                    let keep = trailing_partial_tag_len(self.pending.as_str(), tag);
                    let emit_len = n - keep;
                    let ghost segs_before = segs@;
                    if emit_len > 0 {
                        let emitted = take_prefix(&mut self.pending, emit_len);
                        let ghost e = emitted@;
                        if self.in_think_block {
                            segs.push(ContentSegment::Reasoning(emitted));
                        } else {
                            segs.push(ContentSegment::Assistant(emitted));
                        }
                        proof {
                            assert(e =~= p.take(emit_len as int));
                        }
                    }
                    scanning = false;
                    proof {
                        let l = tag_seq.len() as int;
                        let m = emit_len as int;
                        lemma_first_match_props(p, tag_seq);
                        assert(self.pending@ =~= p.skip(m));
                        if emit_len > 0 {
                            lemma_concat_push(segs_before, segs@[segs@.len() - 1]);
                            lemma_segs_model_push(segs_before, segs@[segs@.len() - 1]);
                            assert(segs_model(segs@) =~= segs_model(segs_before).push(
                                (b, p.take(m)),
                            ));
                        }
                        // The retained suffix has no complete token either.
                        assert forall|k: int| !match_at(p.skip(m), tag_seq, k) by {
                            if 0 <= k {
                                lemma_match_shift(p, tag_seq, m, k);
                            }
                        }
                        lemma_first_match_none(p.skip(m), tag_seq);
                        // What is retained is exactly a proper prefix of the token.
                        assert(self.pending@.len() == keep);
                        if keep > 0 {
                            assert(self.pending@ =~= tag_seq.take(keep as int));
                        } else {
                            assert(self.pending@ =~= tag_seq.take(0));
                        }
                        lemma_inv_none(
                            t0,
                            b0,
                            p,
                            b,
                            keep as int,
                            segs_model(segs_before),
                            segs_model(segs@),
                        );
                        assert(assistant_concat(segs@) =~= assistant_concat(segs_before) + (if !b
                            && emit_len > 0 {
                            p.take(m)
                        } else {
                            Seq::empty()
                        }));
                        assert(reasoning_concat(segs@) =~= reasoning_concat(segs_before) + (if b
                            && emit_len > 0 {
                            p.take(m)
                        } else {
                            Seq::empty()
                        }));
                        lemma_forall_inv_none(
                            t0,
                            b0,
                            p,
                            b,
                            keep as int,
                            assistant_concat(segs_before),
                            reasoning_concat(segs_before),
                            assistant_concat(segs@),
                            reasoning_concat(segs@),
                        );
                    }
                },
            }
        }
        segs
    }
}

} // verus!
