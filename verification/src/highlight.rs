//! The highlight fragment parser: splits a marked-up search snippet into
//! alternating plain/highlighted runs.
//!
//! The search engine wraps every highlighted span between two occurrences of
//! a fixed marker token. Only lines holding at least one marker survive; the
//! survivors are joined with `". "`, and the text between successive marker
//! occurrences alternates Normal/Highlight starting with Normal. Trailing
//! text after the last marker is Normal, and empty runs are skipped.

use vstd::prelude::*;
use crate::types::SearchResultFragment;
use crate::util::{chars_of, string_from_chars};

verus! {

/// The marker token delimiting highlighted spans.
pub open spec fn marker() -> Seq<char> {
    seq!['<', '<', '%', '%', '>', '>']
}

/// True when the marker occurs in `s` at position `i`.
pub open spec fn is_marker_at(s: Seq<char>, i: int) -> bool {
    0 <= i && i + 6 <= s.len() && s.subrange(i, i + 6) == marker()
}

/// The least marker position at or after `i`, if any.
pub open spec fn first_marker_from(s: Seq<char>, i: int) -> Option<int>
    decreases s.len() - i,
    when 0 <= i
{
    if i + 6 > s.len() {
        None
    } else if is_marker_at(s, i) {
        Some(i)
    } else {
        first_marker_from(s, i + 1)
    }
}

/// True when the marker occurs anywhere in `s`.
pub open spec fn has_marker(s: Seq<char>) -> bool {
    first_marker_from(s, 0) is Some
}

proof fn lemma_first_marker_from(s: Seq<char>, i: int)
    requires
        0 <= i,
    ensures
        match first_marker_from(s, i) {
            Some(j) => i <= j && is_marker_at(s, j) && forall|k: int|
                i <= k < j ==> !is_marker_at(s, k),
            None => forall|k: int| i <= k ==> !is_marker_at(s, k),
        },
    decreases s.len() - i,
{
    if i + 6 > s.len() {
    } else if is_marker_at(s, i) {
    } else {
        lemma_first_marker_from(s, i + 1);
    }
}

/// The pieces of `s` between successive non-overlapping leftmost marker
/// occurrences: one more piece than there are markers.
pub open spec fn split_markers(s: Seq<char>) -> Seq<Seq<char>>
    decreases s.len(),
    via split_markers_decreases
{
    match first_marker_from(s, 0) {
        Some(i) => seq![s.subrange(0, i)] + split_markers(s.skip(i + 6)),
        None => seq![s],
    }
}

#[via_fn]
proof fn split_markers_decreases(s: Seq<char>) {
    match first_marker_from(s, 0) {
        Some(i) => {
            lemma_first_marker_from(s, 0);
        },
        None => {},
    }
}

/// The run a piece becomes: the flag is true for a highlighted run. Piece
/// `k` of `n + 1` pieces follows `k` markers, so it is highlighted exactly
/// when `k` is odd — except the last piece, which is always plain. Empty
/// pieces yield nothing.
pub open spec fn tag_pieces_from(pieces: Seq<Seq<char>>, k: int) -> Seq<(bool, Seq<char>)>
    decreases pieces.len() - k,
    when 0 <= k
{
    if k >= pieces.len() {
        Seq::empty()
    } else {
        let highlighted = if k == pieces.len() - 1 {
            false
        } else {
            k % 2 == 1
        };
        let head: Seq<(bool, Seq<char>)> = if pieces[k].len() > 0 {
            seq![(highlighted, pieces[k])]
        } else {
            Seq::empty()
        };
        head + tag_pieces_from(pieces, k + 1)
    }
}

/// `s` split at every newline; never empty, and the separators are dropped.
pub open spec fn split_nl(s: Seq<char>) -> Seq<Seq<char>>
    decreases s.len(),
{
    if s.len() == 0 {
        seq![s]
    } else if s.last() == '\n' {
        split_nl(s.drop_last()).push(Seq::empty())
    } else {
        let p = split_nl(s.drop_last());
        p.update(p.len() - 1, p.last().push(s.last()))
    }
}

proof fn lemma_split_nl_len(s: Seq<char>)
    ensures
        split_nl(s).len() >= 1,
    decreases s.len(),
{
    if s.len() > 0 {
        lemma_split_nl_len(s.drop_last());
    }
}

/// One line with a trailing carriage return removed, as a `\r\n` ending
/// leaves one.
pub open spec fn strip_cr(l: Seq<char>) -> Seq<char> {
    if l.len() > 0 && l.last() == '\r' {
        l.drop_last()
    } else {
        l
    }
}

/// Every line stripped of a trailing carriage return.
pub open spec fn strip_crs(ls: Seq<Seq<char>>) -> Seq<Seq<char>> {
    ls.map_values(|l: Seq<char>| strip_cr(l))
}

/// The lines of `s`: split at newlines, a final empty part dropped, and
/// every newline-terminated line stripped of a trailing carriage return.
/// A final line with no newline after it keeps a bare carriage return, as
/// only a `\r\n` ending leaves one to remove.
pub open spec fn spec_lines(s: Seq<char>) -> Seq<Seq<char>> {
    let p = split_nl(s);
    if p.last().len() == 0 {
        strip_crs(p.drop_last())
    } else {
        strip_crs(p.drop_last()).push(p.last())
    }
}

/// The lines holding at least one marker, in order.
pub open spec fn kept_lines(ls: Seq<Seq<char>>) -> Seq<Seq<char>>
    decreases ls.len(),
{
    if ls.len() == 0 {
        Seq::empty()
    } else if has_marker(ls.last()) {
        kept_lines(ls.drop_last()).push(ls.last())
    } else {
        kept_lines(ls.drop_last())
    }
}

/// The kept lines joined with `". "`.
pub open spec fn join_dots(ls: Seq<Seq<char>>) -> Seq<char>
    decreases ls.len(),
{
    if ls.len() == 0 {
        Seq::empty()
    } else if ls.len() == 1 {
        ls[0]
    } else {
        join_dots(ls.drop_last()) + seq!['.', ' '] + ls.last()
    }
}

/// The runs of the whole snippet: keep marker-bearing lines, join them,
/// split at markers, tag the pieces.
pub open spec fn spec_parse_fragments(s: Seq<char>) -> Seq<(bool, Seq<char>)> {
    tag_pieces_from(split_markers(join_dots(kept_lines(spec_lines(s)))), 0)
}

/// The run a fragment value denotes.
pub open spec fn frag_view(f: SearchResultFragment) -> (bool, Seq<char>) {
    match f {
        SearchResultFragment::Normal(t) => (false, t@),
        SearchResultFragment::Highlight(t) => (true, t@),
    }
}

/// The runs a fragment vector denotes.
pub open spec fn frag_views(fs: Seq<SearchResultFragment>) -> Seq<(bool, Seq<char>)> {
    fs.map_values(|f: SearchResultFragment| frag_view(f))
}

/// The views of a vector of character vectors.
pub open spec fn line_views(v: Seq<Vec<char>>) -> Seq<Seq<char>> {
    v.map_values(|x: Vec<char>| x@)
}

fn find_marker(v: &Vec<char>, from: usize) -> (r: Option<usize>)
    requires
        from <= v@.len(),
    ensures
        match r {
            Some(j) => from <= j && j + 6 <= v@.len() && first_marker_from(v@, from as int)
                == Some(j as int),
            None => first_marker_from(v@, from as int) is None,
        },
{
    let n = v.len();
    if n < 6 || from > n - 6 {
        proof {
            lemma_first_marker_from(v@, from as int);
            assert(first_marker_from(v@, from as int) is None);
        }
        return None;
    }
    let bound: usize = n - 6;
    let mut i: usize = from;
    while i <= bound
        invariant
            from <= i,
            i <= bound + 1,
            bound == n - 6,
            n == v@.len(),
            n >= 6,
            first_marker_from(v@, from as int) == first_marker_from(v@, i as int),
        decreases bound + 1 - i,
    {
        if v[i] == '<' && v[i + 1] == '<' && v[i + 2] == '%' && v[i + 3] == '%' && v[i + 4] == '>'
            && v[i + 5] == '>' {
            proof {
                assert(v@.subrange(i as int, i + 6) =~= marker());
            }
            return Some(i);
        }
        proof {
            let sub = v@.subrange(i as int, i + 6);
            assert(sub[0] == v@[i as int] && sub[1] == v@[i + 1] && sub[2] == v@[i + 2] && sub[3]
                == v@[i + 3] && sub[4] == v@[i + 4] && sub[5] == v@[i + 5]);
            assert(!is_marker_at(v@, i as int));
            assert(first_marker_from(v@, i as int) == first_marker_from(v@, i + 1));
        }
        i = i + 1;
    }
    proof {
        assert(first_marker_from(v@, i as int) is None);
    }
    None
}

proof fn lemma_marker_shift(s: Seq<char>, p: int, i: int)
    requires
        0 <= p <= i <= s.len(),
    ensures
        first_marker_from(s.skip(p), i - p) == match first_marker_from(s, i) {
            Some(j) => Some(j - p),
            None => None::<int>,
        },
    decreases s.len() - i,
{
    let t = s.skip(p);
    if i + 6 <= s.len() {
        assert(s.subrange(i, i + 6) =~= t.subrange(i - p, i - p + 6));
        if !is_marker_at(s, i) {
            lemma_marker_shift(s, p, i + 1);
        }
    }
}

/// Splits `v` at every marker occurrence, leftmost first.
fn split_markers_exec(v: &Vec<char>) -> (r: Vec<Vec<char>>)
    ensures
        line_views(r@) == split_markers(v@),
{
    let mut pieces: Vec<Vec<char>> = Vec::new();
    let mut pos: usize = 0;
    proof {
        assert(v@.skip(0) =~= v@);
        assert(line_views(pieces@) =~= Seq::<Seq<char>>::empty());
        assert(line_views(pieces@) + split_markers(v@) =~= split_markers(v@));
    }
    loop
        invariant
            pos <= v@.len(),
            split_markers(v@) == line_views(pieces@) + split_markers(v@.skip(pos as int)),
        decreases v@.len() - pos,
    {
        let found = find_marker(v, pos);
        match found {
            Some(j) => {
                let mut piece: Vec<char> = Vec::new();
                let mut k: usize = pos;
                while k < j
                    invariant
                        pos <= k <= j,
                        j <= v@.len(),
                        piece@ == v@.subrange(pos as int, k as int),
                    decreases j - k,
                {
                    piece.push(v[k]);
                    k = k + 1;
                    proof {
                        assert(piece@ =~= v@.subrange(pos as int, k as int));
                    }
                }
                proof {
                    lemma_marker_shift(v@, pos as int, j as int);
                    let t = v@.skip(pos as int);
                    assert(first_marker_from(t, 0) == Some(j - pos)) by {
                        lemma_marker_shift(v@, pos as int, pos as int);
                        lemma_first_marker_from(v@, pos as int);
                        lemma_first_marker_from(v@, j as int);
                        assert(first_marker_from(v@, pos as int) == Some(j as int));
                    }
                    assert(t.subrange(0, j - pos) =~= v@.subrange(pos as int, j as int));
                    assert(t.skip(j - pos + 6) =~= v@.skip(j + 6));
                    assert(split_markers(t) == seq![t.subrange(0, j - pos)] + split_markers(
                        t.skip(j - pos + 6),
                    ));
                    assert(line_views(pieces@.push(piece)) =~= line_views(pieces@).push(piece@));
                    assert(line_views(pieces@.push(piece)) + split_markers(v@.skip(j + 6)) =~= (
                    line_views(pieces@) + split_markers(v@.skip(pos as int))));
                }
                pieces.push(piece);
                let n = v.len();
                proof {
                    assert(j + 6 <= n);
                }
                pos = j + 6;
            },
            None => {
                let mut piece: Vec<char> = Vec::new();
                let mut k: usize = pos;
                while k < v.len()
                    invariant
                        pos <= k <= v@.len(),
                        piece@ == v@.subrange(pos as int, k as int),
                    decreases v@.len() - k,
                {
                    piece.push(v[k]);
                    k = k + 1;
                    proof {
                        assert(piece@ =~= v@.subrange(pos as int, k as int));
                    }
                }
                proof {
                    let t = v@.skip(pos as int);
                    lemma_marker_shift(v@, pos as int, pos as int);
                    assert(split_markers(t) == seq![t]);
                    assert(piece@ =~= t);
                    assert(line_views(pieces@.push(piece)) =~= line_views(pieces@).push(piece@));
                    assert(line_views(pieces@.push(piece)) =~= split_markers(v@));
                }
                pieces.push(piece);
                return pieces;
            },
        }
    }
}

/// Splits a marked-up search snippet into its alternating runs, exactly as
/// `spec_parse_fragments` states.
pub fn parse_search_result_text(text: String) -> (r: Vec<SearchResultFragment>)
    ensures
        frag_views(r@) == spec_parse_fragments(text@),
{
    let chars = chars_of(text.as_str());

    // Split into lines at newlines.
    let mut done: Vec<Vec<char>> = Vec::new();
    let mut cur: Vec<char> = Vec::new();
    let mut i: usize = 0;
    proof {
        assert(chars@.take(0) =~= Seq::<char>::empty());
        assert(split_nl(Seq::<char>::empty()) == seq![Seq::<char>::empty()]);
        assert(line_views(done@).push(cur@) =~= seq![Seq::<char>::empty()]);
    }
    while i < chars.len()
        invariant
            i <= chars@.len(),
            chars@ == text@,
            split_nl(chars@.take(i as int)) == line_views(done@).push(cur@),
        decreases chars@.len() - i,
    {
        proof {
            assert(chars@.take(i + 1).drop_last() =~= chars@.take(i as int));
            assert(chars@.take(i + 1).last() == chars@[i as int]);
        }
        let c = chars[i];
        if c == '\n' {
            let line = cur;
            cur = Vec::new();
            let ghost pre = line_views(done@);
            done.push(line);
            proof {
                assert(line_views(done@) =~= pre.push(done@.last()@));
                assert(split_nl(chars@.take(i + 1)) == line_views(done@).push(cur@));
            }
        } else {
            cur.push(c);
            proof {
                let p = split_nl(chars@.take(i as int));
                assert(p.update(p.len() - 1, p.last().push(chars@[i as int])) =~= line_views(done@)
                    .push(cur@));
            }
        }
        i = i + 1;
    }
    proof {
        assert(chars@.take(chars@.len() as int) =~= chars@);
    }
    let ghost p = split_nl(text@);
    // A final empty part is not a line; a final nonempty part is a line
    // with no newline ending.
    let flushed = cur.len() > 0;
    if flushed {
        let ghost pre = line_views(done@);
        done.push(cur);
        proof {
            assert(line_views(done@) =~= pre.push(done@.last()@));
            assert(line_views(done@) =~= p);
        }
    } else {
        proof {
            assert(p.drop_last() =~= line_views(done@));
        }
    }
    let ghost ll = spec_lines(text@);
    proof {
        if flushed {
            assert(ll =~= strip_crs(line_views(done@).drop_last()).push(
                line_views(done@).last(),
            ));
        } else {
            assert(ll =~= strip_crs(line_views(done@)));
        }
        assert(ll.len() == done@.len());
        assert(forall|j: int|
            0 <= j < ll.len() ==> #[trigger] ll[j] == (if flushed && j == ll.len() - 1 {
                done@[j]@
            } else {
                strip_cr(done@[j]@)
            }));
    }

    // Strip carriage returns from the terminated lines and keep only the
    // marker-bearing ones.
    let mut kept: Vec<Vec<char>> = Vec::new();
    let mut k: usize = 0;
    while k < done.len()
        invariant
            k <= done@.len(),
            ll == spec_lines(text@),
            ll.len() == done@.len(),
            forall|j: int|
                0 <= j < ll.len() ==> #[trigger] ll[j] == (if flushed && j == ll.len() - 1 {
                    done@[j]@
                } else {
                    strip_cr(done@[j]@)
                }),
            line_views(kept@) == kept_lines(ll.take(k as int)),
        decreases done@.len() - k,
    {
        let src = &done[k];
        let mut line: Vec<char> = Vec::new();
        let mut t: usize = 0;
        while t < src.len()
            invariant
                t <= src@.len(),
                line@ == src@.take(t as int),
            decreases src@.len() - t,
        {
            line.push(src[t]);
            t = t + 1;
            proof {
                assert(line@ =~= src@.take(t as int));
            }
        }
        proof {
            assert(src@.take(src@.len() as int) =~= src@);
            assert(line@ == done@[k as int]@);
        }
        let unterminated = flushed && k == done.len() - 1;
        if !unterminated && line.len() > 0 && line[line.len() - 1] == '\r' {
            line.pop();
        }
        proof {
            assert(line@ == ll[k as int]);
        }
        let keep = match find_marker(&line, 0) {
            Some(_) => true,
            None => false,
        };
        proof {
            let m0 = ll.take(k as int);
            let m1 = ll.take(k + 1);
            assert(m1.drop_last() =~= m0);
            assert(m1.last() == ll[k as int]);
            if keep {
                assert(line_views(kept@.push(line)) =~= line_views(kept@).push(line@));
                assert(kept_lines(m1) == kept_lines(m0).push(m1.last()));
            } else {
                assert(kept_lines(m1) == kept_lines(m0));
            }
        }
        if keep {
            kept.push(line);
        }
        k = k + 1;
    }
    proof {
        assert(ll.take(ll.len() as int) =~= ll);
    }

    // Join the kept lines with ". ".
    let mut joined: Vec<char> = Vec::new();
    let mut j: usize = 0;
    while j < kept.len()
        invariant
            j <= kept@.len(),
            line_views(kept@) == kept_lines(spec_lines(text@)),
            joined@ == join_dots(line_views(kept@).take(j as int)),
        decreases kept@.len() - j,
    {
        if j > 0 {
            joined.push('.');
            joined.push(' ');
        }
        let line = &kept[j];
        let mut t: usize = 0;
        let ghost base = joined@;
        while t < line.len()
            invariant
                t <= line@.len(),
                joined@ == base + line@.take(t as int),
            decreases line@.len() - t,
        {
            joined.push(line[t]);
            t = t + 1;
            proof {
                assert(joined@ =~= base + line@.take(t as int));
            }
        }
        proof {
            let w = line_views(kept@).take(j + 1);
            assert(w.drop_last() =~= line_views(kept@).take(j as int));
            assert(w.last() == kept@[j as int]@);
            assert(line@.take(line@.len() as int) =~= line@);
            if j > 0 {
                assert(joined@ =~= join_dots(w));
            } else {
                assert(w.len() == 1);
                assert(joined@ =~= join_dots(w));
            }
        }
        j = j + 1;
    }
    proof {
        assert(line_views(kept@).take(kept@.len() as int) =~= line_views(kept@));
    }

    // Split at markers and tag the pieces.
    let pieces = split_markers_exec(&joined);
    let ghost pv = line_views(pieces@);
    let mut frags: Vec<SearchResultFragment> = Vec::new();
    let mut idx: usize = 0;
    while idx < pieces.len()
        invariant
            idx <= pieces@.len(),
            pv == line_views(pieces@),
            pv == split_markers(joined@),
            joined@ == join_dots(kept_lines(spec_lines(text@))),
            tag_pieces_from(pv, 0) == frag_views(frags@) + tag_pieces_from(pv, idx as int),
        decreases pieces@.len() - idx,
    {
        let piece = &pieces[idx];
        let ghost prefrags = frags@;
        if piece.len() > 0 {
            let highlighted = if idx == pieces.len() - 1 {
                false
            } else {
                idx % 2 == 1
            };
            let s = string_from_chars(piece);
            let f = if highlighted {
                SearchResultFragment::Highlight(s)
            } else {
                SearchResultFragment::Normal(s)
            };
            frags.push(f);
            proof {
                assert(frag_views(frags@) =~= frag_views(prefrags).push(
                    frag_view(frags@.last()),
                ));
                assert(frag_view(frags@.last()) == (highlighted, pv[idx as int]));
                assert(frag_views(frags@) + tag_pieces_from(pv, idx + 1) =~= frag_views(prefrags)
                    + tag_pieces_from(pv, idx as int));
            }
        } else {
            proof {
                assert(tag_pieces_from(pv, idx as int) == tag_pieces_from(pv, idx + 1));
            }
        }
        idx = idx + 1;
    }
    proof {
        assert(tag_pieces_from(pv, pieces@.len() as int) == Seq::<(bool, Seq<char>)>::empty());
        assert(frag_views(frags@) =~= tag_pieces_from(pv, 0));
    }
    frags
}

} // verus!
