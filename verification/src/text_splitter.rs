//! Recursive character text segmentation.
//!
//! A text is cut along a priority-ordered list of separators. The pieces cut
//! at one separator each become one chunk (the separator re-attached to every
//! piece after the first, when configured), seeded with the trailing overlap
//! of the preceding chunk; a chunk still over the size bound is re-segmented
//! with the remaining, lower-priority separators, down to a character-level
//! fallback that always respects the bound.

use vstd::prelude::*;

use crate::strutil::{
    chars_to_string, concat_all, copy_range, lemma_concat_all_add, lemma_concat_all_push,
    lemma_concat_take_step, str_to_chars, str_views, views,
};

verus! {

/// How many trailing characters of `prev` seed the next chunk: the overlap
/// `k`, capped by the length of `prev`.
pub open spec fn seed_len(prev: Seq<char>, k: nat) -> nat {
    if prev.len() <= k {
        prev.len()
    } else {
        k
    }
}

/// Every chunk after the first begins with the trailing overlap of its
/// predecessor.
pub open spec fn overlap_chained(cs: Seq<Seq<char>>, k: nat) -> bool {
    forall|i: int|
        #![trigger cs[i]]
        1 <= i < cs.len() ==> {
            let d = seed_len(cs[i - 1], k);
            cs[i].len() >= d && cs[i].take(d as int) == cs[i - 1].skip(cs[i - 1].len() - d)
        }
}

/// How many leading characters of `cur` repeat the end of `prev` and are
/// dropped when the chunks are glued back together.
pub open spec fn drop_amount(prev: Seq<char>, cur: Seq<char>, k: nat) -> int {
    let d = seed_len(prev, k);
    if d <= cur.len() {
        d as int
    } else {
        cur.len() as int
    }
}

/// The chunks concatenated with each one's leading overlap region removed.
pub open spec fn glue(cs: Seq<Seq<char>>, k: nat) -> Seq<char>
    decreases cs.len(),
{
    if cs.len() == 0 {
        Seq::empty()
    } else if cs.len() == 1 {
        cs[0]
    } else {
        glue(cs.drop_last(), k) + cs.last().skip(
            drop_amount(cs[cs.len() - 2], cs.last(), k),
        )
    }
}

/// With no overlap, gluing is plain concatenation.
pub proof fn lemma_glue_zero(cs: Seq<Seq<char>>)
    ensures
        glue(cs, 0) == concat_all(cs),
    decreases cs.len(),
{
    if cs.len() == 0 {
    } else if cs.len() == 1 {
        assert(concat_all(cs.drop_last()) + cs.last() =~= cs[0]);
    } else {
        lemma_glue_zero(cs.drop_last());
        assert(cs.last().skip(0) =~= cs.last());
    }
}

/// The pieces, each but the last followed by the separator, concatenated.
pub open spec fn cat_sep(ps: Seq<Seq<char>>, sep: Seq<char>) -> Seq<char>
    decreases ps.len(),
{
    if ps.len() == 0 {
        Seq::empty()
    } else {
        cat_sep(ps.drop_last(), sep) + ps.last() + sep
    }
}

/// The pieces joined by the separator.
pub open spec fn join_with(ps: Seq<Seq<char>>, sep: Seq<char>) -> Seq<char>
    decreases ps.len(),
{
    if ps.len() == 0 {
        Seq::empty()
    } else {
        cat_sep(ps.drop_last(), sep) + ps.last()
    }
}

proof fn lemma_cat_sep_join(ps: Seq<Seq<char>>, sep: Seq<char>)
    requires
        ps.len() >= 1,
    ensures
        cat_sep(ps, sep) == join_with(ps, sep) + sep,
{
    assert(cat_sep(ps.drop_last(), sep) + ps.last() + sep =~= (cat_sep(ps.drop_last(), sep)
        + ps.last()) + sep);
}

proof fn lemma_views_push(vs: Seq<Vec<char>>, v: Vec<char>)
    ensures
        views(vs.push(v)) == views(vs).push(v@),
{
    assert(views(vs.push(v)) =~= views(vs).push(v@));
}

proof fn lemma_views_take(vs: Seq<Vec<char>>, n: int)
    requires
        0 <= n <= vs.len(),
    ensures
        views(vs.take(n)) == views(vs).take(n),
{
    assert(views(vs.take(n)) =~= views(vs).take(n));
}

/// The overlap law: wherever adjacent chunks are both at least `k`
/// characters long, the last `k` characters of the earlier chunk are the
/// first `k` characters of the later one.
pub open spec fn adjacent_overlap(cs: Seq<Seq<char>>, k: nat) -> bool {
    forall|i: int|
        #![trigger cs[i]]
        1 <= i < cs.len() && cs[i - 1].len() >= k && cs[i].len() >= k ==> cs[i].take(k as int)
            == cs[i - 1].skip(cs[i - 1].len() - k)
}

/// `a` is the beginning of `b`.
pub open spec fn is_prefix_of(a: Seq<char>, b: Seq<char>) -> bool {
    a.len() <= b.len() && a == b.take(a.len() as int)
}

/// `a` is the end of `b`.
pub open spec fn is_suffix_of(a: Seq<char>, b: Seq<char>) -> bool {
    a.len() <= b.len() && a == b.skip(b.len() - a.len())
}

/// The seeded chain implies the overlap law.
pub proof fn lemma_chained_adjacent(cs: Seq<Seq<char>>, k: nat)
    requires
        overlap_chained(cs, k),
    ensures
        adjacent_overlap(cs, k),
{
    assert forall|i: int|
        1 <= i < cs.len() && cs[i - 1].len() >= k && #[trigger] cs[i].len() >= k implies cs[
    i].take(k as int) == cs[i - 1].skip(cs[i - 1].len() - k) by {
        assert(seed_len(cs[i - 1], k) == k);
    }
}

/// At a seam between two re-segmented chunks the overlap law carries over:
/// `s` ends the expansion of `p`, `f` begins the expansion of `c`, and `c`
/// was seeded from `p`.
proof fn lemma_seam(p: Seq<char>, c: Seq<char>, s: Seq<char>, f: Seq<char>, k: nat)
    requires
        is_suffix_of(s, p),
        is_prefix_of(f, c),
        c.len() >= seed_len(p, k),
        c.take(seed_len(p, k) as int) == p.skip(p.len() - seed_len(p, k)),
        s.len() >= k,
        f.len() >= k,
    ensures
        f.take(k as int) == s.skip(s.len() - k),
{
    assert(seed_len(p, k) == k);
    assert(f.take(k as int) =~= c.take(k as int));
    assert(s.skip(s.len() - k) =~= p.skip(p.len() - k));
}

proof fn lemma_prefix_trans(a: Seq<char>, b: Seq<char>, c: Seq<char>)
    requires
        is_prefix_of(a, b),
        is_prefix_of(b, c),
    ensures
        is_prefix_of(a, c),
{
    assert(a =~= c.take(a.len() as int));
}

proof fn lemma_suffix_trans(a: Seq<char>, b: Seq<char>, c: Seq<char>)
    requires
        is_suffix_of(a, b),
        is_suffix_of(b, c),
    ensures
        is_suffix_of(a, c),
{
    assert(a =~= c.skip(c.len() - a.len()));
}

/// Some separator in the list is the empty, character-level fallback.
pub open spec fn has_empty_sep(ss: Seq<Seq<char>>) -> bool {
    exists|i: int| 0 <= i < ss.len() && #[trigger] ss[i].len() == 0
}

/// Every chunk fits the size bound.
pub open spec fn all_within(cs: Seq<Seq<char>>, max: nat) -> bool {
    forall|i: int| 0 <= i < cs.len() ==> #[trigger] cs[i].len() <= max
}

/// No chunk is empty.
pub open spec fn none_empty(cs: Seq<Seq<char>>) -> bool {
    forall|i: int| 0 <= i < cs.len() ==> #[trigger] cs[i].len() >= 1
}

/// The separator occurs in `text` at position `at`.
pub open spec fn match_at(text: Seq<char>, sep: Seq<char>, at: int) -> bool {
    0 <= at && at + sep.len() <= text.len() && text.subrange(at, at + sep.len()) == sep
}

/// The separator occurs nowhere in `piece`.
pub open spec fn sep_free(piece: Seq<char>, sep: Seq<char>) -> bool {
    forall|p: int| !#[trigger] match_at(piece, sep, p)
}

/// The pieces the left-to-right scan cuts `text` into: positions are tried
/// in order from `start`; at a match the piece since `start` is emitted and
/// the scan resumes after the separator; past the last position that could
/// fit the separator, the rest is the final piece.
pub open spec fn split_rest(text: Seq<char>, sep: Seq<char>, start: int, i: int) -> Seq<Seq<char>>
    decreases text.len() - i,
{
    if sep.len() < 1 || i < 0 || start < 0 || start > i || i + sep.len() > text.len() {
        seq![
            text.skip(
                if 0 <= start <= text.len() {
                    start
                } else {
                    0
                },
            ),
        ]
    } else if match_at(text, sep, i) {
        seq![text.subrange(start, i)] + split_rest(text, sep, i + sep.len(), i + sep.len())
    } else {
        split_rest(text, sep, start, i + 1)
    }
}

/// What `split_on` returns: the left-to-right scan over the whole text.
pub open spec fn split_on_spec(text: Seq<char>, sep: Seq<char>) -> Seq<Seq<char>> {
    split_rest(text, sep, 0, 0)
}

/// Whether the separator occurs in `text` at position `at`.
fn sep_matches_at(text: &Vec<char>, sep: &Vec<char>, at: usize) -> (r: bool)
    requires
        at + sep@.len() <= text@.len(),
    ensures
        r == (text@.subrange(at as int, at + sep@.len()) == sep@),
{
    let sl = sep.len();
    let tl = text.len();
    let mut j: usize = 0;
    while j < sl
        invariant
            j <= sl,
            sl == sep@.len(),
            tl == text@.len(),
            at + sep@.len() <= text@.len(),
            forall|m: int| 0 <= m < j ==> text@[at + m] == sep@[m],
        decreases sl - j,
    {
        if text[at + j] != sep[j] {
            proof {
                assert(text@.subrange(at as int, at + sep@.len())[j as int] == text@[at + j]);
            }
            return false;
        }
        j += 1;
    }
    proof {
        assert(text@.subrange(at as int, at + sep@.len()) =~= sep@);
    }
    true
}

/// Cuts `text` at every occurrence of `sep`, scanning left to right; the
/// pieces joined by the separator are the text again.
pub fn split_on(text: &Vec<char>, sep: &Vec<char>) -> (r: Vec<Vec<char>>)
    requires
        sep@.len() >= 1,
    ensures
        views(r@) == split_on_spec(text@, sep@),
        r@.len() >= 1,
        join_with(views(r@), sep@) == text@,
        forall|m: int| 0 <= m < r@.len() ==> sep_free(#[trigger] views(r@)[m], sep@),
{
    let mut pieces: Vec<Vec<char>> = Vec::new();
    let mut start: usize = 0;
    let mut i: usize = 0;
    let sl = sep.len();
    let tl = text.len();
    if tl >= sl {
        let last_start = tl - sl;
        while i <= last_start
            invariant
                start <= i,
                i <= tl,
                sl == sep@.len(),
                tl == text@.len(),
                last_start + sl == tl,
                sl >= 1,
                cat_sep(views(pieces@), sep@) == text@.take(start as int),
                forall|m: int| 0 <= m < pieces@.len() ==> sep_free(
                    #[trigger] views(pieces@)[m],
                    sep@,
                ),
                forall|p: int| start <= p < i ==> !#[trigger] match_at(text@, sep@, p),
                split_on_spec(text@, sep@) == views(pieces@) + split_rest(
                    text@,
                    sep@,
                    start as int,
                    i as int,
                ),
            decreases tl - i,
        {
            if sep_matches_at(text, sep, i) {
                let piece = copy_range(text, start, i);
                proof {
                    lemma_views_push(pieces@, piece);
                    let vs = views(pieces@);
                    assert(vs.push(piece@).drop_last() =~= vs);
                    assert(cat_sep(vs.push(piece@), sep@) == cat_sep(vs, sep@) + piece@ + sep@);
                    assert(cat_sep(vs, sep@) + piece@ + sep@ =~= text@.take(
                        (i + sep@.len()) as int,
                    ));
                    // the scan's spec takes the same cut here
                    assert(split_rest(text@, sep@, start as int, i as int) == seq![piece@]
                        + split_rest(text@, sep@, i + sl, i + sl));
                    assert(vs + (seq![piece@] + split_rest(text@, sep@, i + sl, i + sl))
                        =~= vs.push(piece@) + split_rest(text@, sep@, i + sl, i + sl));
                    // every in-piece position was already scanned and rejected
                    assert forall|p: int| !#[trigger] match_at(piece@, sep@, p) by {
                        if 0 <= p && p + sep@.len() <= piece@.len() {
                            assert(piece@.subrange(p, p + sep@.len()) =~= text@.subrange(
                                start + p,
                                start + p + sep@.len(),
                            ));
                            assert(!match_at(text@, sep@, start + p));
                        }
                    }
                }
                pieces.push(piece);
                start = i + sl;
                i = start;
            } else {
                proof {
                    assert(split_rest(text@, sep@, start as int, i as int) == split_rest(
                        text@,
                        sep@,
                        start as int,
                        i + 1,
                    ));
                }
                i += 1;
            }
        }
    }
    let last_piece = copy_range(text, start, text.len());
    proof {
        lemma_views_push(pieces@, last_piece);
        let vs = views(pieces@);
        assert(vs.push(last_piece@).drop_last() =~= vs);
        assert(join_with(vs.push(last_piece@), sep@) == cat_sep(vs, sep@) + last_piece@);
        assert(cat_sep(vs, sep@) + last_piece@ =~= text@);
        // the scan is past the last position that could fit the separator
        assert(split_rest(text@, sep@, start as int, i as int) == seq![text@.skip(start as int)]);
        assert(last_piece@ =~= text@.skip(start as int));
        assert(vs + seq![last_piece@] =~= vs.push(last_piece@));
        // nothing at or past `start` matches, so the tail piece is clean too
        assert forall|p: int| !#[trigger] match_at(last_piece@, sep@, p) by {
            if 0 <= p && p + sep@.len() <= last_piece@.len() {
                assert(last_piece@.subrange(p, p + sep@.len()) =~= text@.subrange(
                    start + p,
                    start + p + sep@.len(),
                ));
                assert(!match_at(text@, sep@, start + p));
            }
        }
    }
    pieces.push(last_piece);
    pieces
}

/// The trailing overlap of `prev`: its last `k` characters, or all of it when
/// it is shorter.
fn seed_of(prev: &Vec<char>, k: usize) -> (s: Vec<char>)
    ensures
        s@.len() == seed_len(prev@, k as nat),
        s@ == prev@.skip(prev@.len() - seed_len(prev@, k as nat)),
{
    let d = if prev.len() <= k {
        prev.len()
    } else {
        k
    };
    let s = copy_range(prev, prev.len() - d, prev.len());
    proof {
        assert(prev@.subrange(prev@.len() - d, prev@.len() as int) =~= prev@.skip(
            prev@.len() - d,
        ));
    }
    s
}

/// What `attach_pieces` returns for the given pieces: one chunk per piece
/// (the separator put back before every piece after the first when `keep`
/// holds), empty pieces dropped, each chunk after the first led by the
/// trailing overlap of its predecessor.
pub open spec fn attach_spec(ps: Seq<Seq<char>>, sep: Seq<char>, keep: bool, k: nat) -> Seq<
    Seq<char>,
>
    decreases ps.len(),
{
    if ps.len() == 0 {
        Seq::empty()
    } else {
        let done = attach_spec(ps.drop_last(), sep, keep, k);
        let w = if ps.len() > 1 && keep {
            sep + ps.last()
        } else {
            ps.last()
        };
        if w.len() == 0 {
            done
        } else if done.len() == 0 {
            done.push(w)
        } else {
            done.push(done.last().skip(done.last().len() - seed_len(done.last(), k)) + w)
        }
    }
}

/// Turns the pieces cut at one separator into chunks: one chunk per piece,
/// the separator re-attached to every piece after the first when `keep`
/// holds, each chunk after the first seeded with the trailing overlap of its
/// predecessor. Empty pieces yield no chunk.
#[verifier::rlimit(60)]
pub fn attach_pieces(pieces: &Vec<Vec<char>>, sep: &Vec<char>, keep: bool, k: usize) -> (r: Vec<
    Vec<char>,
>)
    ensures
        views(r@) == attach_spec(views(pieces@), sep@, keep, k as nat),
        none_empty(views(r@)),
        overlap_chained(views(r@), k as nat),
        keep ==> glue(views(r@), k as nat) == join_with(views(pieces@), sep@),
        keep && r@.len() >= 1 ==> is_prefix_of(views(r@)[0], join_with(views(pieces@), sep@)),
        keep && r@.len() >= 1 ==> is_suffix_of(views(r@).last(), join_with(views(pieces@), sep@)),
        keep && sep@.len() >= 1 && pieces@.len() >= 2 ==> r@.len() >= 1,
        r@.len() <= pieces@.len(),
{
    let mut r: Vec<Vec<char>> = Vec::new();
    let mut idx: usize = 0;
    while idx < pieces.len()
        invariant
            idx <= pieces@.len(),
            idx == 0 ==> r@.len() == 0,
            views(r@) == attach_spec(views(pieces@.take(idx as int)), sep@, keep, k as nat),
            none_empty(views(r@)),
            overlap_chained(views(r@), k as nat),
            keep ==> glue(views(r@), k as nat) == join_with(views(pieces@.take(idx as int)), sep@),
            keep && r@.len() >= 1 ==> is_prefix_of(
                views(r@)[0],
                join_with(views(pieces@.take(idx as int)), sep@),
            ),
            keep && r@.len() >= 1 ==> is_suffix_of(
                views(r@).last(),
                join_with(views(pieces@.take(idx as int)), sep@),
            ),
            keep && sep@.len() >= 1 && idx >= 2 ==> r@.len() >= 1,
            r@.len() <= idx,
        decreases pieces@.len() - idx,
    {
        let mut w: Vec<char> = Vec::new();
        if idx > 0 && keep {
            w = copy_range(sep, 0, sep.len());
            proof {
                assert(sep@.subrange(0, sep@.len() as int) =~= sep@);
            }
        }
        let mut piece_copy = copy_range(&pieces[idx], 0, pieces[idx].len());
        proof {
            assert(pieces@[idx as int]@.subrange(0, pieces@[idx as int]@.len() as int)
                =~= pieces@[idx as int]@);
        }
        w.append(&mut piece_copy);
        proof {
            let taken = views(pieces@.take((idx + 1) as int));
            assert(pieces@.take((idx + 1) as int).drop_last() =~= pieces@.take(idx as int));
            lemma_views_take(pieces@, idx as int);
            lemma_views_take(pieces@, (idx + 1) as int);
            assert(taken.drop_last() =~= views(pieces@.take(idx as int)));
            assert(taken.last() == pieces@[idx as int]@);
            // the piece with the separator put back is the spec's `w`
            if idx > 0 && keep {
                assert(w@ =~= sep@ + pieces@[idx as int]@);
                assert(taken.len() > 1);
            } else {
                assert(w@ =~= pieces@[idx as int]@);
            }
        }
        if w.len() == 0 {
            // only an empty leading piece, or a dropped separator around an
            // empty piece, lands here; it contributes no chunk
            proof {
                if keep {
                    // then idx == 0 and the piece is empty
                    assert(join_with(views(pieces@.take((idx + 1) as int)), sep@) =~= glue(
                        views(r@),
                        k as nat,
                    ));
                }
            }
        } else {
            let ghost w_view = w@;
            let chunk: Vec<char>;
            let ghost mut seed_view: Seq<char> = Seq::empty();
            if r.len() > 0 {
                let rl = r.len();
                let mut s = seed_of(&r[rl - 1], k);
                proof {
                    seed_view = s@;
                }
                s.append(&mut w);
                chunk = s;
                proof {
                    let prev = views(r@).last();
                    let d = seed_len(prev, k as nat);
                    assert(chunk@.take(d as int) =~= prev.skip(prev.len() - d));
                }
            } else {
                chunk = w;
            }
            proof {
                let vs = views(r@);
                let vs2 = vs.push(chunk@);
                lemma_views_push(r@, chunk);
                assert(vs2.drop_last() =~= vs);
                // the chain to the new chunk
                assert forall|i: int| #![trigger vs2[i]] 1 <= i < vs2.len() implies {
                    let d = seed_len(vs2[i - 1], k as nat);
                    vs2[i].len() >= d && vs2[i].take(d as int) == vs2[i - 1].skip(
                        vs2[i - 1].len() - d,
                    )
                } by {
                    if i < vs.len() {
                        assert(vs2[i] == vs[i] && vs2[i - 1] == vs[i - 1]);
                    }
                }
                if keep {
                    let before = views(pieces@.take(idx as int));
                    let after = views(pieces@.take((idx + 1) as int));
                    if vs.len() == 0 {
                        if idx == 0 {
                            assert(glue(vs2, k as nat) == chunk@);
                            assert(after =~= seq![pieces@[0]@]);
                            assert(join_with(after, sep@) =~= chunk@);
                        } else {
                            // earlier pieces were all empty and dropped
                            lemma_cat_sep_join(before, sep@);
                            assert(join_with(after, sep@) == cat_sep(before, sep@)
                                + pieces@[idx as int]@);
                            assert(cat_sep(before, sep@) =~= sep@);
                            assert(join_with(after, sep@) =~= chunk@);
                        }
                        // the single chunk is the whole joined text so far
                        assert(chunk@ =~= join_with(after, sep@).take(chunk@.len() as int));
                        assert(chunk@ =~= join_with(after, sep@).skip(
                            join_with(after, sep@).len() - chunk@.len(),
                        ));
                    } else {
                        let prev = vs.last();
                        let d = seed_len(prev, k as nat);
                        assert(glue(vs2, k as nat) == glue(vs, k as nat) + chunk@.skip(
                            drop_amount(prev, chunk@, k as nat),
                        ));
                        assert(chunk@.skip(d as int) =~= w_view);
                        if idx == 0 {
                            assert(false);
                        } else {
                            lemma_cat_sep_join(before, sep@);
                            assert(join_with(after, sep@) == (join_with(before, sep@) + sep@)
                                + pieces@[idx as int]@);
                            assert(glue(vs, k as nat) + w_view =~= (join_with(before, sep@) + sep@)
                                + pieces@[idx as int]@);
                        }
                        // the joined text grows by exactly the attached piece
                        let jb = join_with(before, sep@);
                        let ja = join_with(after, sep@);
                        assert(ja =~= jb + w_view);
                        // the first chunk stays a prefix of the longer join
                        assert(vs2[0] == vs[0]);
                        assert(vs[0] =~= ja.take(vs[0].len() as int));
                        // the new chunk is the seed plus the piece, and the
                        // seed is the tail of the join, so the chunk ends it
                        assert(chunk@ =~= seed_view + w_view);
                        assert(seed_view == prev.skip(prev.len() - d));
                        assert(prev == jb.skip(jb.len() - prev.len()));
                        assert(chunk@ =~= ja.skip(ja.len() - chunk@.len()));
                    }
                }
            }
            r.push(chunk);
        }
        idx += 1;
    }
    proof {
        assert(pieces@.take(pieces@.len() as int) =~= pieces@);
    }
    r
}

/// One pass of the character fallback from a given state: `done` holds the
/// windows already emitted, `cur` the window being filled, `rest` the
/// characters still to place. A window is emitted when it reaches `max`
/// characters and reseeded with its trailing overlap.
pub open spec fn split_chars_rec(
    done: Seq<Seq<char>>,
    cur: Seq<char>,
    rest: Seq<char>,
    max: nat,
    k: nat,
) -> Seq<Seq<char>>
    decreases rest.len(),
{
    if rest.len() == 0 {
        if cur.len() > 0 {
            done.push(cur)
        } else {
            done
        }
    } else if cur.len() >= max {
        let seed = cur.skip(cur.len() - seed_len(cur, k));
        split_chars_rec(done.push(cur), seed.push(rest[0]), rest.drop_first(), max, k)
    } else {
        split_chars_rec(done, cur.push(rest[0]), rest.drop_first(), max, k)
    }
}

/// What `split_chars` returns.
pub open spec fn split_chars_spec(text: Seq<char>, max: nat, k: nat) -> Seq<Seq<char>> {
    split_chars_rec(Seq::empty(), Seq::empty(), text, max, k)
}

/// Character-level fallback: cuts the text into windows of exactly `max`
/// characters (the final one possibly shorter), each window after the first
/// seeded with the trailing `k` characters of its predecessor.
#[verifier::rlimit(60)]
pub fn split_chars(text: &Vec<char>, max: usize, k: usize) -> (r: Vec<Vec<char>>)
    requires
        1 <= max,
        k < max,
    ensures
        views(r@) == split_chars_spec(text@, max as nat, k as nat),
        none_empty(views(r@)),
        all_within(views(r@), max as nat),
        forall|i: int| 0 <= i < views(r@).len() - 1 ==> (#[trigger] views(r@)[i]).len()
            == max as nat,
        overlap_chained(views(r@), k as nat),
        glue(views(r@), k as nat) == text@,
        text@.len() >= 1 ==> r@.len() >= 1,
        r@.len() >= 1 ==> is_prefix_of(views(r@)[0], text@),
        r@.len() >= 1 ==> is_suffix_of(views(r@).last(), text@),
{
    let tl = text.len();
    let mut r: Vec<Vec<char>> = Vec::new();
    let mut cur: Vec<char> = Vec::new();
    let mut j: usize = 0;
    proof {
        assert(views(r@) =~= Seq::<Seq<char>>::empty());
        assert(text@.skip(0) =~= text@);
    }
    while j < tl
        invariant
            j <= tl,
            tl == text@.len(),
            1 <= max,
            k < max,
            cur@.len() <= max,
            none_empty(views(r@)),
            all_within(views(r@), max as nat),
            forall|m: int| 0 <= m < views(r@).len() ==> (#[trigger] views(r@)[m]).len()
                == max as nat,
            overlap_chained(views(r@), k as nat),
            glue(views(r@).push(cur@), k as nat) == text@.take(j as int),
            r@.len() >= 1 ==> {
                let prev = views(r@).last();
                let d = seed_len(prev, k as nat);
                cur@.len() >= d && cur@.take(d as int) == prev.skip(prev.len() - d)
            },
            r@.len() == 0 ==> cur@.len() == j,
            r@.len() >= 1 ==> cur@.len() >= 1,
            cur@.len() <= j,
            cur@ == text@.take(j as int).skip(j - cur@.len()),
            r@.len() >= 1 ==> is_prefix_of(views(r@)[0], text@),
            split_chars_rec(views(r@), cur@, text@.skip(j as int), max as nat, k as nat)
                == split_chars_spec(text@, max as nat, k as nat),
        decreases tl - j,
    {
        if cur.len() >= max {
            let seed = seed_of(&cur, k);
            proof {
                let vs = views(r@);
                let vs_cur = vs.push(cur@);
                lemma_views_push(r@, cur);
                assert(vs_cur.push(seed@).drop_last() =~= vs_cur);
                assert(vs_cur.push(seed@)[vs_cur.push(seed@).len() - 2] == cur@);
                // the seed repeats the tail of `cur` entirely, so gluing drops it
                assert(seed@.skip(drop_amount(cur@, seed@, k as nat)) =~= Seq::<char>::empty());
                assert(glue(vs_cur.push(seed@), k as nat) =~= glue(vs_cur, k as nat));
                // the seed is still the tail of the processed text
                assert(seed@ =~= text@.take(j as int).skip(j - seed@.len()));
                // the spec recursion emits and reseeds here too
                let rest = text@.skip(j as int);
                assert(rest[0] == text@[j as int]);
                assert(rest.drop_first() =~= text@.skip(j + 1));
                assert(split_chars_rec(vs, cur@, rest, max as nat, k as nat)
                    == split_chars_rec(
                    vs.push(cur@),
                    seed@.push(rest[0]),
                    rest.drop_first(),
                    max as nat,
                    k as nat,
                ));
                if vs.len() == 0 {
                    // the emitted chunk covers the whole processed text
                    assert(cur@ =~= text@.take(cur@.len() as int));
                    assert(is_prefix_of(vs_cur[0], text@));
                } else {
                    assert(vs_cur[0] == vs[0]);
                }
            }
            r.push(cur);
            cur = seed;
        }
        let c = text[j];
        proof {
            let vs = views(r@);
            let vs_cur = vs.push(cur@);
            let vs_cur2 = vs.push(cur@.push(text@[j as int]));
            assert(vs_cur2.drop_last() =~= vs);
            assert(vs_cur.drop_last() =~= vs);
            if vs.len() == 0 {
                assert(glue(vs_cur2, k as nat) == cur@.push(text@[j as int]));
                assert(cur@.push(text@[j as int]) =~= cur@ + seq![text@[j as int]]);
            } else {
                let prev = vs.last();
                let d = seed_len(prev, k as nat);
                assert(vs_cur2[vs_cur2.len() - 2] == prev);
                assert(vs_cur[vs_cur.len() - 2] == prev);
                assert(drop_amount(prev, cur@, k as nat) == d as int);
                assert(drop_amount(prev, cur@.push(text@[j as int]), k as nat) == d as int);
                assert(cur@.push(text@[j as int]).skip(d as int) =~= cur@.skip(d as int) + seq![
                    text@[j as int],
                ]);
                assert(glue(vs, k as nat) + (cur@.skip(d as int) + seq![text@[j as int]]) =~= (glue(
                    vs,
                    k as nat,
                ) + cur@.skip(d as int)) + seq![text@[j as int]]);
            }
            assert(text@.take((j + 1) as int) =~= text@.take(j as int) + seq![text@[j as int]]);
            if vs.len() >= 1 {
                let prev = vs.last();
                let d = seed_len(prev, k as nat);
                assert(cur@.push(text@[j as int]).take(d as int) =~= cur@.take(d as int));
            }
            // the grown tail is still the tail of the grown processed text
            assert(cur@.push(text@[j as int]) =~= text@.take((j + 1) as int).skip(
                j + 1 - (cur@.len() + 1),
            ));
            // whichever branch ran, the spec recursion took the same step
            let rest = text@.skip(j as int);
            assert(rest[0] == text@[j as int]);
            assert(rest.drop_first() =~= text@.skip(j + 1));
            assert(split_chars_spec(text@, max as nat, k as nat) == split_chars_rec(
                views(r@),
                cur@.push(text@[j as int]),
                text@.skip(j + 1),
                max as nat,
                k as nat,
            ));
        }
        cur.push(c);
        j += 1;
    }
    proof {
        assert(text@.skip(tl as int) =~= Seq::<char>::empty());
    }
    if cur.len() > 0 {
        proof {
            lemma_views_push(r@, cur);
            assert(text@.take(tl as int) =~= text@);
            assert(is_suffix_of(cur@, text@));
            if r@.len() == 0 {
                assert(cur@ =~= text@.take(cur@.len() as int));
                assert(is_prefix_of(cur@, text@));
            } else {
                assert(views(r@.push(cur))[0] == views(r@)[0]);
            }
        }
        r.push(cur);
    } else {
        proof {
            let vs = views(r@);
            if vs.len() == 0 {
                assert(text@.take(j as int) =~= text@);
                assert(glue(vs, k as nat) =~= text@);
            } else {
                let vs_cur = vs.push(cur@);
                assert(vs_cur.drop_last() =~= vs);
                assert(cur@.skip(drop_amount(vs.last(), cur@, k as nat)) =~= Seq::<char>::empty());
                assert(glue(vs, k as nat) + Seq::<char>::empty() =~= glue(vs, k as nat));
                assert(text@.take(j as int) =~= text@);
            }
        }
    }
    r
}

/// Whether every chunk fits the size bound.
fn all_fit(chunks: &Vec<Vec<char>>, max: usize) -> (r: bool)
    ensures
        r == all_within(views(chunks@), max as nat),
{
    let n = chunks.len();
    let mut i: usize = 0;
    while i < n
        invariant
            i <= n,
            n == chunks@.len(),
            forall|m: int| 0 <= m < i ==> #[trigger] views(chunks@)[m].len() <= max as nat,
        decreases n - i,
    {
        if chunks[i].len() > max {
            proof {
                assert(views(chunks@)[i as int].len() > max as nat);
            }
            return false;
        }
        i += 1;
    }
    true
}

proof fn lemma_empty_sep_tail(ss: Seq<Seq<char>>, si: int)
    requires
        0 <= si < ss.len(),
        ss[si].len() != 0,
        has_empty_sep(ss.skip(si)),
    ensures
        has_empty_sep(ss.skip(si + 1)),
{
    let w = choose|i: int| 0 <= i < ss.skip(si).len() && #[trigger] ss.skip(si)[i].len() == 0;
    assert(ss.skip(si)[w] == ss[si + w]);
    assert(w >= 1);
    assert(ss.skip(si + 1)[w - 1] == ss[si + w]);
    assert(ss.skip(si + 1)[w - 1].len() == 0);
}

proof fn lemma_views_add(a: Seq<Vec<char>>, b: Seq<Vec<char>>)
    ensures
        views(a + b) == views(a) + views(b),
{
    assert(views(a + b) =~= views(a) + views(b));
}

/// What one level of the segmentation returns for the separators from index
/// `si` on: text within the bound (or with no separators left) comes back
/// whole; the empty separator runs the character fallback; an absent
/// separator falls through to the next; otherwise the pieces become chunks,
/// oversized chunks are re-segmented one level down (`resegment_spec`), and
/// when that still leaves an oversized chunk, or nothing, the whole text is
/// retried one level down.
pub open spec fn segment_spec(
    text: Seq<char>,
    seps: Seq<Seq<char>>,
    si: int,
    max: nat,
    k: nat,
    keep: bool,
) -> Seq<Seq<char>>
    decreases seps.len() - si, 1int, 0int,
{
    if text.len() <= max || si < 0 || si >= seps.len() {
        seq![text]
    } else if seps[si].len() == 0 {
        split_chars_spec(text, max, k)
    } else {
        let pieces = split_on_spec(text, seps[si]);
        if pieces.len() <= 1 {
            segment_spec(text, seps, si + 1, max, k, keep)
        } else {
            let chunks = attach_spec(pieces, seps[si], keep, k);
            if chunks.len() >= 1 && all_within(chunks, max) {
                chunks
            } else {
                let out = resegment_spec(chunks, seps, si, max, k, keep);
                if out.len() == 0 || !all_within(out, max) {
                    segment_spec(text, seps, si + 1, max, k, keep)
                } else {
                    out
                }
            }
        }
    }
}

/// The chunks with every oversized one replaced by its segmentation at the
/// next separator level, flattened.
pub open spec fn resegment_spec(
    chunks: Seq<Seq<char>>,
    seps: Seq<Seq<char>>,
    si: int,
    max: nat,
    k: nat,
    keep: bool,
) -> Seq<Seq<char>>
    decreases seps.len() - si, 0int, chunks.len(),
{
    if si < 0 || si >= seps.len() {
        chunks
    } else if chunks.len() == 0 {
        Seq::empty()
    } else {
        let done = resegment_spec(chunks.drop_last(), seps, si, max, k, keep);
        if chunks.last().len() <= max {
            done.push(chunks.last())
        } else {
            done + segment_spec(chunks.last(), seps, si + 1, max, k, keep)
        }
    }
}

/// One level of the recursive segmentation, working on the separators from
/// index `si` on. Text small enough comes back whole; otherwise the pieces at
/// the current separator become chunks, and oversized chunks are re-segmented
/// with the remaining separators. When that still leaves an oversized chunk,
/// or nothing, the whole text is retried one separator level down.
#[verifier::rlimit(100)]
pub fn split_with_separators(
    text: &Vec<char>,
    seps: &Vec<Vec<char>>,
    si: usize,
    max: usize,
    k: usize,
    keep: bool,
) -> (r: Vec<Vec<char>>)
    requires
        1 <= max,
        k < max,
        si <= seps@.len(),
        text@.len() >= 1,
    ensures
        views(r@) == segment_spec(text@, views(seps@), si as int, max as nat, k as nat, keep),
        text@.len() <= max || si == seps@.len() ==> r@.len() == 1 && r@[0]@ == text@,
        r@.len() >= 1,
        none_empty(views(r@)),
        has_empty_sep(views(seps@).skip(si as int)) ==> all_within(views(r@), max as nat),
        k == 0 && keep ==> concat_all(views(r@)) == text@,
        keep ==> adjacent_overlap(views(r@), k as nat),
        keep ==> is_prefix_of(views(r@)[0], text@),
        keep ==> is_suffix_of(views(r@).last(), text@),
    decreases seps@.len() - si,
{
    let tl = text.len();
    if tl <= max || si == seps.len() {
        let whole = copy_range(text, 0, tl);
        proof {
            assert(whole@ =~= text@);
        }
        let mut r: Vec<Vec<char>> = Vec::new();
        r.push(whole);
        proof {
            assert(views(r@) =~= seq![text@]);
            assert(concat_all(seq![text@]) == concat_all(seq![text@].drop_last()) + text@);
            assert(concat_all(seq![text@]) =~= text@);
            if si == seps.len() {
                assert(views(seps@).skip(si as int) =~= Seq::<Seq<char>>::empty());
            }
            assert(text@ =~= text@.take(text@.len() as int));
            assert(text@ =~= text@.skip(0));
        }
        return r;
    }
    let sep = &seps[si];
    proof {
        assert(views(seps@)[si as int] == seps@[si as int]@);
    }
    if sep.len() == 0 {
        let r = split_chars(text, max, k);
        proof {
            if k == 0 && keep {
                lemma_glue_zero(views(r@));
            }
            lemma_chained_adjacent(views(r@), k as nat);
        }
        return r;
    }
    let pieces = split_on(text, sep);
    if pieces.len() <= 1 {
        // this separator does not occur; move on to the next one
        proof {
            lemma_empty_sep_tail_if(views(seps@), si as int);
        }
        return split_with_separators(text, seps, si + 1, max, k, keep);
    }
    let chunks = attach_pieces(&pieces, sep, keep, k);
    proof {
        if k == 0 && keep {
            lemma_glue_zero(views(chunks@));
        }
        lemma_chained_adjacent(views(chunks@), k as nat);
    }
    if chunks.len() >= 1 {
        if all_fit(&chunks, max) {
            return chunks;
        }
    }
    let mut out: Vec<Vec<char>> = Vec::new();
    let mut ci: usize = 0;
    let cn = chunks.len();
    let sn = seps.len();
    while ci < cn
        invariant
            ci <= cn,
            cn == chunks@.len(),
            1 <= max,
            k < max,
            sn == seps@.len(),
            si < sn,
            seps@[si as int]@.len() != 0,
            none_empty(views(chunks@)),
            none_empty(views(out@)),
            has_empty_sep(views(seps@).skip(si as int)) ==> all_within(views(out@), max as nat),
            k == 0 && keep ==> concat_all(views(out@)) == concat_all(
                views(chunks@).take(ci as int),
            ),
            overlap_chained(views(chunks@), k as nat),
            keep ==> is_prefix_of(views(chunks@)[0], text@),
            keep ==> is_suffix_of(views(chunks@).last(), text@),
            ci == 0 ==> out@.len() == 0,
            ci >= 1 ==> out@.len() >= 1,
            views(out@) == resegment_spec(
                views(chunks@).take(ci as int),
                views(seps@),
                si as int,
                max as nat,
                k as nat,
                keep,
            ),
            keep ==> adjacent_overlap(views(out@), k as nat),
            keep && ci >= 1 ==> is_suffix_of(views(out@).last(), views(chunks@)[ci - 1]),
            keep && out@.len() >= 1 ==> is_prefix_of(views(out@)[0], views(chunks@)[0]),
        decreases cn - ci,
    {
        let cl = chunks[ci].len();
        proof {
            lemma_concat_take_step(views(chunks@), ci as int);
            assert(views(chunks@).take((ci + 1) as int).drop_last() =~= views(chunks@).take(
                ci as int,
            ));
            assert(views(chunks@).take((ci + 1) as int).last() == views(chunks@)[ci as int]);
        }
        if cl <= max {
            let kept = copy_range(&chunks[ci], 0, cl);
            proof {
                assert(kept@ =~= views(chunks@)[ci as int]);
                lemma_views_push(out@, kept);
                lemma_concat_all_push(views(out@), kept@);
                if keep {
                    let ov = views(out@);
                    let nv = ov.push(kept@);
                    let c = views(chunks@)[ci as int];
                    assert(is_prefix_of(kept@, c)) by {
                        assert(kept@ =~= c.take(kept@.len() as int));
                    }
                    assert(is_suffix_of(kept@, c)) by {
                        assert(kept@ =~= c.skip(c.len() - kept@.len()));
                    }
                    assert forall|i2: int|
                        1 <= i2 < nv.len() && nv[i2 - 1].len() >= k as nat && #[trigger] nv[
                    i2].len() >= k as nat implies nv[i2].take(k as int) == nv[i2 - 1].skip(
                        nv[i2 - 1].len() - k as nat,
                    ) by {
                        if i2 < ov.len() {
                            assert(nv[i2] == ov[i2] && nv[i2 - 1] == ov[i2 - 1]);
                        } else {
                            let p = views(chunks@)[ci - 1];
                            let s = ov.last();
                            assert(nv[i2 - 1] == s && nv[i2] == kept@);
                            lemma_seam(p, c, s, kept@, k as nat);
                        }
                    }
                    assert(adjacent_overlap(nv, k as nat));
                    if ov.len() >= 1 {
                        assert(nv[0] == ov[0]);
                    }
                }
            }
            out.push(kept);
        } else {
            proof {
                lemma_empty_sep_tail_if(views(seps@), si as int);
            }
            let mut sub = split_with_separators(&chunks[ci], seps, si + 1, max, k, keep);
            let ghost sub_vecs = sub@;
            let ghost out_vecs = out@;
            out.append(&mut sub);
            proof {
                lemma_views_add(out_vecs, sub_vecs);
                if k == 0 && keep {
                    lemma_concat_all_add(views(out_vecs), views(sub_vecs));
                }
                assert forall|m: int| 0 <= m < views(out@).len() implies #[trigger] views(
                    out@,
                )[m].len() >= 1 by {
                    if m < out_vecs.len() {
                        assert(views(out@)[m] == views(out_vecs)[m]);
                    } else {
                        assert(views(out@)[m] == views(sub_vecs)[m - out_vecs.len()]);
                    }
                }
                if has_empty_sep(views(seps@).skip(si as int)) {
                    assert forall|m: int| 0 <= m < views(out@).len() implies #[trigger] views(
                        out@,
                    )[m].len() <= max as nat by {
                        if m < out_vecs.len() {
                            assert(views(out@)[m] == views(out_vecs)[m]);
                        } else {
                            assert(views(out@)[m] == views(sub_vecs)[m - out_vecs.len()]);
                        }
                    }
                }
                if keep {
                    let nv = views(out@);
                    let ovv = views(out_vecs);
                    let sv = views(sub_vecs);
                    let c = views(chunks@)[ci as int];
                    assert forall|i2: int|
                        1 <= i2 < nv.len() && nv[i2 - 1].len() >= k as nat && #[trigger] nv[
                    i2].len() >= k as nat implies nv[i2].take(k as int) == nv[i2 - 1].skip(
                        nv[i2 - 1].len() - k as nat,
                    ) by {
                        if i2 < ovv.len() {
                            assert(nv[i2] == ovv[i2] && nv[i2 - 1] == ovv[i2 - 1]);
                        } else if i2 == ovv.len() {
                            let p = views(chunks@)[ci - 1];
                            let s = ovv.last();
                            let f = sv[0];
                            assert(nv[i2] == f && nv[i2 - 1] == s);
                            lemma_seam(p, c, s, f, k as nat);
                        } else {
                            assert(nv[i2] == sv[i2 - ovv.len()] && nv[i2 - 1] == sv[i2 - 1
                                - ovv.len()]);
                        }
                    }
                    assert(adjacent_overlap(nv, k as nat));
                    if ovv.len() >= 1 {
                        assert(nv[0] == ovv[0]);
                    } else {
                        assert(nv[0] == sv[0]);
                    }
                    assert(nv.last() == sv.last());
                }
            }
        }
        ci += 1;
    }
    proof {
        assert(views(chunks@).take(cn as int) =~= views(chunks@));
    }
    if out.len() == 0 {
        proof {
            lemma_empty_sep_tail_if(views(seps@), si as int);
        }
        return split_with_separators(text, seps, si + 1, max, k, keep);
    }
    if !all_fit(&out, max) {
        proof {
            lemma_empty_sep_tail_if(views(seps@), si as int);
        }
        return split_with_separators(text, seps, si + 1, max, k, keep);
    }
    proof {
        if keep {
            assert(views(chunks@).last() == views(chunks@)[cn - 1]);
            lemma_prefix_trans(views(out@)[0], views(chunks@)[0], text@);
            lemma_suffix_trans(views(out@).last(), views(chunks@)[cn - 1], text@);
        }
    }
    out
}

proof fn lemma_empty_sep_tail_if(ss: Seq<Seq<char>>, si: int)
    requires
        0 <= si < ss.len(),
        ss[si].len() != 0,
    ensures
        has_empty_sep(ss.skip(si)) ==> has_empty_sep(ss.skip(si + 1)),
{
    if has_empty_sep(ss.skip(si)) {
        lemma_empty_sep_tail(ss, si);
    }
}

/// What `split_text` returns for a configuration: text within the bound is
/// the single chunk; anything longer is segmented from the highest-priority
/// separator down.
pub open spec fn split_text_spec(
    text: Seq<char>,
    seps: Seq<Seq<char>>,
    max: nat,
    k: nat,
    keep: bool,
) -> Seq<Seq<char>> {
    if text.len() <= max {
        seq![text]
    } else {
        segment_spec(text, seps, 0, max, k, keep)
    }
}

proof fn lemma_str_views_push(vs: Seq<String>, v: String)
    ensures
        str_views(vs.push(v)) == str_views(vs).push(v@),
{
    assert(str_views(vs.push(v)) =~= str_views(vs).push(v@));
}

/// A recursive character text splitter: cuts text along a priority list of
/// separators into chunks of a bounded character count, with a configurable
/// character overlap between adjacent chunks.
pub struct RecursiveCharacterTextSplitter {
    /// Separators to cut at, highest priority first; the empty string is the
    /// character-level fallback.
    separators: Vec<String>,
    /// Upper bound on a chunk, in characters.
    chunk_size: usize,
    /// Characters of overlap seeded from one chunk into the next.
    chunk_overlap: usize,
    /// Whether the separator is re-attached to the chunk that follows it.
    keep_separator: bool,
}

impl RecursiveCharacterTextSplitter {
    /// The separator priorities a fresh splitter starts with: paragraph
    /// breaks, then line breaks, then sentence ends, then commas, then
    /// spaces, then single characters.
    pub open spec fn default_separators() -> Seq<Seq<char>> {
        seq!["\n\n\n"@, "\n\n"@, "\n"@, ". "@, "! "@, "? "@, ", "@, " "@, ""@]
    }

    /// The separators as character sequences, in priority order.
    pub closed spec fn sep_views(&self) -> Seq<Seq<char>> {
        str_views(self.separators@)
    }

    /// Spec access to the chunk size bound.
    pub closed spec fn spec_chunk_size(&self) -> nat {
        self.chunk_size as nat
    }

    /// Spec access to the configured overlap.
    pub closed spec fn spec_chunk_overlap(&self) -> nat {
        self.chunk_overlap as nat
    }

    /// Spec access to the separator re-attachment switch.
    pub closed spec fn spec_keep_separator(&self) -> bool {
        self.keep_separator
    }

    /// The configuration invariant: the overlap is strictly smaller than the
    /// chunk size, so every cut makes progress.
    pub open spec fn wf(&self) -> bool {
        self.spec_chunk_overlap() < self.spec_chunk_size()
    }

    /// A splitter with the default separators, a 400-character bound and a
    /// 20-character overlap.
    pub fn new() -> (s: Self)
        ensures
            s.sep_views() == Self::default_separators(),
            s.spec_chunk_size() == 400,
            s.spec_chunk_overlap() == 20,
            s.spec_keep_separator(),
            s.wf(),
            has_empty_sep(s.sep_views()),
    {
        let mut separators: Vec<String> = Vec::new();
        separators.push("\n\n\n".to_owned());
        separators.push("\n\n".to_owned());
        separators.push("\n".to_owned());
        separators.push(". ".to_owned());
        separators.push("! ".to_owned());
        separators.push("? ".to_owned());
        separators.push(", ".to_owned());
        separators.push(" ".to_owned());
        separators.push("".to_owned());
        proof {
            assert(str_views(separators@) =~= Self::default_separators());
            reveal_strlit("");
            assert(Self::default_separators()[8].len() == 0);
        }
        Self { separators, chunk_size: 400, chunk_overlap: 20, keep_separator: true }
    }

    /// Replaces the separator priority list.
    pub fn with_separators(self, separators: Vec<String>) -> (s: Self)
        ensures
            s.sep_views() == str_views(separators@),
            s.spec_chunk_size() == self.spec_chunk_size(),
            s.spec_chunk_overlap() == self.spec_chunk_overlap(),
            s.spec_keep_separator() == self.spec_keep_separator(),
    {
        Self {
            separators,
            chunk_size: self.chunk_size,
            chunk_overlap: self.chunk_overlap,
            keep_separator: self.keep_separator,
        }
    }

    /// Replaces the chunk size bound.
    pub fn with_chunk_size(self, chunk_size: usize) -> (s: Self)
        ensures
            s.sep_views() == self.sep_views(),
            s.spec_chunk_size() == chunk_size as nat,
            s.spec_chunk_overlap() == self.spec_chunk_overlap(),
            s.spec_keep_separator() == self.spec_keep_separator(),
    {
        Self {
            separators: self.separators,
            chunk_size,
            chunk_overlap: self.chunk_overlap,
            keep_separator: self.keep_separator,
        }
    }

    /// Replaces the chunk overlap.
    pub fn with_chunk_overlap(self, chunk_overlap: usize) -> (s: Self)
        ensures
            s.sep_views() == self.sep_views(),
            s.spec_chunk_size() == self.spec_chunk_size(),
            s.spec_chunk_overlap() == chunk_overlap as nat,
            s.spec_keep_separator() == self.spec_keep_separator(),
    {
        Self {
            separators: self.separators,
            chunk_size: self.chunk_size,
            chunk_overlap,
            keep_separator: self.keep_separator,
        }
    }

    /// Sets whether the separator stays attached to the chunk after it.
    pub fn with_keep_separator(self, keep_separator: bool) -> (s: Self)
        ensures
            s.sep_views() == self.sep_views(),
            s.spec_chunk_size() == self.spec_chunk_size(),
            s.spec_chunk_overlap() == self.spec_chunk_overlap(),
            s.spec_keep_separator() == keep_separator,
    {
        Self {
            separators: self.separators,
            chunk_size: self.chunk_size,
            chunk_overlap: self.chunk_overlap,
            keep_separator,
        }
    }

    /// Whether the configuration satisfies its invariant; splitting demands
    /// it.
    pub fn config_ok(&self) -> (r: bool)
        ensures
            r == self.wf(),
    {
        self.chunk_overlap < self.chunk_size
    }

    /// Splits `text` into chunks — exactly the chunks `split_text_spec`
    /// fixes for this configuration. In particular: text within the size
    /// bound comes back as the single chunk `[text]`; with the
    /// character-level fallback among the separators every chunk fits the
    /// bound; with no overlap and separators kept, the chunks concatenate
    /// back to the text; and with separators kept, adjacent chunks at least
    /// `overlap` characters long share that many characters across their
    /// boundary.
    pub fn split_text(&self, text: &str) -> (r: Vec<String>)
        requires
            self.wf(),
        ensures
            str_views(r@) == split_text_spec(
                text@,
                self.sep_views(),
                self.spec_chunk_size(),
                self.spec_chunk_overlap(),
                self.spec_keep_separator(),
            ),
            r@.len() >= 1,
            text@.len() <= self.spec_chunk_size() ==> r@.len() == 1 && r@[0]@ == text@,
            has_empty_sep(self.sep_views()) ==> all_within(str_views(r@), self.spec_chunk_size()),
            self.spec_chunk_overlap() == 0 && self.spec_keep_separator() ==> concat_all(
                str_views(r@),
            ) == text@,
            text@.len() > self.spec_chunk_size() ==> none_empty(str_views(r@)),
            self.spec_keep_separator() ==> adjacent_overlap(
                str_views(r@),
                self.spec_chunk_overlap(),
            ),
    {
        let tc = str_to_chars(text);
        if tc.len() <= self.chunk_size {
            let mut r: Vec<String> = Vec::new();
            r.push(text.to_owned());
            proof {
                assert(str_views(r@) =~= seq![text@]);
                assert(concat_all(seq![text@]) == concat_all(seq![text@].drop_last()) + text@);
                assert(concat_all(seq![text@]) =~= text@);
            }
            return r;
        }
        let mut seps: Vec<Vec<char>> = Vec::new();
        let mut i: usize = 0;
        let sn = self.separators.len();
        while i < sn
            invariant
                i <= sn,
                sn == self.separators@.len(),
                views(seps@) == str_views(self.separators@).take(i as int),
            decreases sn - i,
        {
            let sv = str_to_chars(self.separators[i].as_str());
            proof {
                lemma_views_push(seps@, sv);
                assert(str_views(self.separators@).take((i + 1) as int) =~= str_views(
                    self.separators@,
                ).take(i as int).push(self.separators@[i as int]@));
            }
            seps.push(sv);
            i += 1;
        }
        proof {
            assert(str_views(self.separators@).take(sn as int) =~= str_views(self.separators@));
            assert(views(seps@).skip(0) =~= views(seps@));
        }
        let chunks = split_with_separators(
            &tc,
            &seps,
            0,
            self.chunk_size,
            self.chunk_overlap,
            self.keep_separator,
        );
        let mut r: Vec<String> = Vec::new();
        let mut j: usize = 0;
        let cn = chunks.len();
        while j < cn
            invariant
                j <= cn,
                cn == chunks@.len(),
                str_views(r@) == views(chunks@).take(j as int),
            decreases cn - j,
        {
            let sj = chars_to_string(&chunks[j]);
            proof {
                lemma_str_views_push(r@, sj);
                assert(views(chunks@).take((j + 1) as int) =~= views(chunks@).take(j as int).push(
                    views(chunks@)[j as int],
                ));
            }
            r.push(sj);
            j += 1;
        }
        proof {
            assert(views(chunks@).take(cn as int) =~= views(chunks@));
        }
        r
    }
}

impl Default for RecursiveCharacterTextSplitter {
    /// The same configuration `new` builds.
    fn default() -> (s: Self)
        ensures
            s.sep_views() == Self::default_separators(),
            s.spec_chunk_size() == 400,
            s.spec_chunk_overlap() == 20,
            s.spec_keep_separator(),
            s.wf(),
            has_empty_sep(s.sep_views()),
    {
        Self::new()
    }
}

} // verus!

