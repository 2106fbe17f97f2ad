//! The fuzzy-search filter over the authoritative container list.
//!
//! A non-empty query keeps exactly the containers whose names score
//! positively against it, ordered by descending score with ties broken by
//! original position; an empty query returns the list unchanged.

use vstd::prelude::*;

use crate::container::{Container, ContainerView, views_of};

verus! {

broadcast use crate::container::lemma_views_of_len, crate::container::lemma_views_of_index;



/// What the fuzzy scorer returns for a query and a candidate name: the IEEE
/// bit pattern of the similarity score.  The scorer crops every score into
/// the unit interval, where bit patterns order exactly as the scores do and
/// zero bits mean a zero score, so the pattern is a faithful integer model.
pub uninterp spec fn score_of(query: Seq<char>, name: Seq<char>) -> u32;

/// Relies on `rust_fuzzy_search::fuzzy_compare`: the trigram similarity
/// score is a function of the two strings alone and is cropped into the
/// unit interval before it is returned.
#[verifier::external_body]
fn fuzzy_score(query: &Vec<char>, name: &String) -> (r: u32)
    ensures
        r == score_of(query@, name@),
{
    let q: String = query.iter().collect();
    rust_fuzzy_search::fuzzy_compare(&q, name.as_str()).to_bits()
}

/// One ranked entry: the score's bits, the record's original position, the
/// record itself.
pub struct ScoredView {
    pub score: u32,
    pub pos: int,
    pub rec: ContainerView,
}

struct Scored {
    score: u32,
    pos: usize,
    item: Container,
}

impl View for Scored {
    type V = ScoredView;

    closed spec fn view(&self) -> ScoredView {
        ScoredView { score: self.score, pos: self.pos as int, rec: self.item@ }
    }
}

/// The views of a sequence of ranked entries.
spec fn scored_views(s: Seq<Scored>) -> Seq<ScoredView> {
    s.map_values(|x: Scored| x@)
}

/// Inserts a later-scanned entry behind every earlier one of at least its
/// score: descending by score, ties kept in scan order.
pub open spec fn spec_insert_desc(s: Seq<ScoredView>, e: ScoredView) -> Seq<ScoredView>
    decreases s.len(),
{
    if s.len() == 0 {
        seq![e]
    } else if s[0].score >= e.score {
        seq![s[0]] + spec_insert_desc(s.drop_first(), e)
    } else {
        seq![e] + s
    }
}

/// The ranking of the containers whose names score positively against the
/// query: descending score, ties by original position.
pub open spec fn spec_scored(cs: Seq<ContainerView>, q: Seq<char>) -> Seq<ScoredView>
    decreases cs.len(),
{
    if cs.len() == 0 {
        Seq::empty()
    } else {
        let prefix = spec_scored(cs.drop_last(), q);
        let sc = score_of(q, cs.last().name);
        if sc > 0 {
            spec_insert_desc(prefix, ScoredView { score: sc, pos: cs.len() - 1, rec: cs.last() })
        } else {
            prefix
        }
    }
}

/// The records of a ranking, in rank order.
pub open spec fn recs_of(s: Seq<ScoredView>) -> Seq<ContainerView> {
    s.map_values(|e: ScoredView| e.rec)
}

/// A ranking's record sequence is as long as the ranking.
pub broadcast proof fn lemma_recs_of_len(s: Seq<ScoredView>)
    ensures
        (#[trigger] recs_of(s)).len() == s.len(),
{
}

/// The record at an index is the index's entry's record.
pub broadcast proof fn lemma_recs_of_index(s: Seq<ScoredView>, k: int)
    requires
        0 <= k < s.len(),
    ensures
        (#[trigger] recs_of(s)[k]) == s[k].rec,
{
}

/// The filtered view: the list itself for an empty query, else the fuzzy
/// ranking's records.
pub open spec fn spec_filtered(cs: Seq<ContainerView>, q: Seq<char>) -> Seq<ContainerView> {
    if q.len() == 0 {
        cs
    } else {
        recs_of(spec_scored(cs, q))
    }
}

/// Filtering with an empty query is the identity on the installed list,
/// whatever it holds.
pub proof fn lemma_empty_query_identity(cs: Seq<ContainerView>)
    ensures
        spec_filtered(cs, Seq::empty()) == cs,
{
}

proof fn lemma_insert_desc_at(s: Seq<ScoredView>, e: ScoredView, p: int)
    requires
        0 <= p <= s.len(),
        forall|j: int| 0 <= j < p ==> (#[trigger] s[j]).score >= e.score,
        p < s.len() ==> s[p].score < e.score,
    ensures
        spec_insert_desc(s, e) == s.take(p) + seq![e] + s.skip(p),
    decreases p,
{
    if p == 0 {
        if s.len() == 0 {
            assert(spec_insert_desc(s, e) =~= s.take(0) + seq![e] + s.skip(0));
        } else {
            assert(s[0].score < e.score);
            assert(spec_insert_desc(s, e) =~= s.take(0) + seq![e] + s.skip(0));
        }
    } else {
        assert(s[0].score >= e.score);
        assert forall|j: int| 0 <= j < p - 1 implies (#[trigger] s.drop_first()[j]).score
            >= e.score by {
            assert(s.drop_first()[j] == s[j + 1]);
        }
        assert(p - 1 < s.drop_first().len() ==> s.drop_first()[p - 1].score < e.score);
        lemma_insert_desc_at(s.drop_first(), e, p - 1);
        assert(seq![s[0]] + (s.drop_first().take(p - 1) + seq![e] + s.drop_first().skip(p - 1))
            =~= s.take(p) + seq![e] + s.skip(p));
    }
}

fn insert_scored(v: &mut Vec<Scored>, e: Scored)
    ensures
        scored_views(final(v)@) == spec_insert_desc(scored_views(old(v)@), e@),
{
    let ghost sv = scored_views(v@);
    let ghost ev = e@;
    let mut p: usize = 0;
    while p < v.len() && v[p].score >= e.score
        invariant
            p <= v@.len(),
            v@ == old(v)@,
            forall|j: int| 0 <= j < p ==> (#[trigger] sv[j]).score >= ev.score,
            sv == scored_views(v@),
            ev == e@,
        decreases v@.len() - p,
    {
        proof {
            assert(sv[p as int] == v@[p as int]@);
        }
        p = p + 1;
    }
    proof {
        if p < v@.len() {
            assert(sv[p as int] == v@[p as int]@);
        }
        lemma_insert_desc_at(sv, ev, p as int);
    }
    v.insert(p, e);
    proof {
        assert(scored_views(v@) =~= sv.take(p as int) + seq![ev] + sv.skip(p as int));
    }
}

/// Computes the filtered view of the authoritative list for the query.
///
/// An empty query returns the list in its installed order; a non-empty one
/// returns the positively-scoring containers by descending fuzzy score,
/// ties in original order.
pub fn filtered_containers(containers: &Vec<Container>, search_query: &Vec<char>) -> (r: Vec<
    Container,
>)
    ensures
        views_of(r@) == spec_filtered(views_of(containers@), search_query@),
{
    broadcast use lemma_recs_of_len, lemma_recs_of_index;

    let ghost cs = views_of(containers@);
    if search_query.len() == 0 {
        let mut r: Vec<Container> = Vec::new();
        let mut i: usize = 0;
        while i < containers.len()
            invariant
                i <= containers@.len(),
                cs == views_of(containers@),
                views_of(r@) == cs.take(i as int),
            decreases containers@.len() - i,
        {
            let c = containers[i].duplicate();
            proof {
                assert(c@ == cs[i as int]);
            }
            let ghost prev_r = r@;
            r.push(c);
            i = i + 1;
            proof {
                assert forall|k: int| 0 <= k < i as int implies views_of(r@)[k] == cs.take(
                    i as int,
                )[k] by {
                    if k < i as int - 1 {
                        assert(r@[k] == prev_r[k]);
                        assert(views_of(prev_r)[k] == cs.take(i as int - 1)[k]);
                    } else {
                        assert(r@[k] == c);
                    }
                }
                assert(views_of(r@) =~= cs.take(i as int));
            }
        }
        proof {
            assert(cs.take(cs.len() as int) =~= cs);
        }
        return r;
    }
    let mut scored: Vec<Scored> = Vec::new();
    let mut i: usize = 0;
    while i < containers.len()
        invariant
            i <= containers@.len(),
            cs == views_of(containers@),
            scored_views(scored@) == spec_scored(cs.take(i as int), search_query@),
        decreases containers@.len() - i,
    {
        let sc = fuzzy_score(search_query, &containers[i].name);
        proof {
            assert(cs.take(i as int + 1).drop_last() =~= cs.take(i as int));
            assert(cs.take(i as int + 1).last() == cs[i as int]);
        }
        if sc > 0 {
            let entry = Scored { score: sc, pos: i, item: containers[i].duplicate() };
            proof {
                assert(entry@ == ScoredView {
                    score: sc,
                    pos: i as int,
                    rec: cs[i as int],
                });
            }
            insert_scored(&mut scored, entry);
        }
        i = i + 1;
    }
    proof {
        assert(cs.take(cs.len() as int) =~= cs);
    }
    let mut r: Vec<Container> = Vec::new();
    let mut j: usize = 0;
    let ghost ranking = spec_scored(cs, search_query@);
    while j < scored.len()
        invariant
            j <= scored@.len(),
            scored_views(scored@) == ranking,
            views_of(r@) == recs_of(ranking.take(j as int)),
        decreases scored@.len() - j,
    {
        proof {
            assert(ranking[j as int] == scored@[j as int]@);
        }
        let c = scored[j].item.duplicate();
        proof {
            assert(c@ == ranking[j as int].rec);
        }
        let ghost prev_r = r@;
        r.push(c);
        j = j + 1;
        proof {
            let target = recs_of(ranking.take(j as int));
            assert forall|k: int| 0 <= k < j as int implies views_of(r@)[k] == target[k] by {
                assert(target[k] == ranking[k].rec);
                if k < j as int - 1 {
                    assert(r@[k] == prev_r[k]);
                    assert(views_of(prev_r)[k] == recs_of(ranking.take(j as int - 1))[k]);
                } else {
                    assert(r@[k] == c);
                }
            }
            assert(views_of(r@) =~= target);
        }
    }
    proof {
        assert(ranking.take(ranking.len() as int) =~= ranking);
    }
    r
}

/// Descending by score, ties strictly by ascending original position.
pub open spec fn scored_sorted(s: Seq<ScoredView>) -> bool {
    forall|k1: int, k2: int|
        0 <= k1 < k2 < s.len() ==> ((#[trigger] s[k1]).score > (#[trigger] s[k2]).score || (
        s[k1].score == s[k2].score && s[k1].pos < s[k2].pos))
}

/// Every entry scores positively and is the record of the list at its
/// position.
pub open spec fn scored_wf(s: Seq<ScoredView>, cs: Seq<ContainerView>, q: Seq<char>) -> bool {
    forall|k: int|
        0 <= k < s.len() ==> {
            &&& 0 <= (#[trigger] s[k]).pos < cs.len()
            &&& cs[s[k].pos] == s[k].rec
            &&& s[k].score == score_of(q, s[k].rec.name)
            &&& s[k].score > 0
        }
}

/// Every positively scoring position of the list appears in the ranking.
pub open spec fn scored_complete(s: Seq<ScoredView>, cs: Seq<ContainerView>, q: Seq<char>) -> bool {
    forall|i: int|
        0 <= i < cs.len() && score_of(q, (#[trigger] cs[i]).name) > 0 ==> exists|k: int|
            0 <= k < s.len() && (#[trigger] s[k]).pos == i
}

proof fn lemma_insert_desc_props(s: Seq<ScoredView>, e: ScoredView)
    requires
        scored_sorted(s),
        forall|k: int| 0 <= k < s.len() ==> (#[trigger] s[k]).pos < e.pos,
    ensures
        scored_sorted(spec_insert_desc(s, e)),
        spec_insert_desc(s, e).len() == s.len() + 1,
        forall|k: int|
            0 <= k < spec_insert_desc(s, e).len() ==> ((#[trigger] spec_insert_desc(s, e)[k]) == e
                || s.contains(spec_insert_desc(s, e)[k])),
        spec_insert_desc(s, e).contains(e),
        forall|k: int|
            0 <= k < s.len() ==> spec_insert_desc(s, e).contains(#[trigger] s[k]),
    decreases s.len(),
{
    let out = spec_insert_desc(s, e);
    if s.len() == 0 {
        assert(out == seq![e]);
        assert(out[0] == e);
    } else if s[0].score >= e.score {
        let rest = s.drop_first();
        assert forall|k1: int, k2: int| 0 <= k1 < k2 < rest.len() implies ((
        #[trigger] rest[k1]).score > (#[trigger] rest[k2]).score || (rest[k1].score
            == rest[k2].score && rest[k1].pos < rest[k2].pos)) by {
            assert(rest[k1] == s[k1 + 1]);
            assert(rest[k2] == s[k2 + 1]);
        }
        assert forall|k: int| 0 <= k < rest.len() implies (#[trigger] rest[k]).pos < e.pos by {
            assert(rest[k] == s[k + 1]);
        }
        lemma_insert_desc_props(rest, e);
        let sub = spec_insert_desc(rest, e);
        assert(out == seq![s[0]] + sub);
        assert forall|k1: int, k2: int| 0 <= k1 < k2 < out.len() implies ((
        #[trigger] out[k1]).score > (#[trigger] out[k2]).score || (out[k1].score == out[k2].score
            && out[k1].pos < out[k2].pos)) by {
            if k1 == 0 {
                assert(out[k2] == sub[k2 - 1]);
                if sub[k2 - 1] == e {
                    assert(s[0].score >= e.score);
                    assert(s[0].pos < e.pos);
                } else {
                    assert(rest.contains(sub[k2 - 1]));
                    let m = choose|m: int| 0 <= m < rest.len() && rest[m] == sub[k2 - 1];
                    assert(rest[m] == s[m + 1]);
                }
            } else {
                assert(out[k1] == sub[k1 - 1]);
                assert(out[k2] == sub[k2 - 1]);
            }
        }
        assert forall|k: int| 0 <= k < out.len() implies ((#[trigger] out[k]) == e || s.contains(
            out[k],
        )) by {
            if k == 0 {
                assert(s.contains(s[0]));
            } else {
                assert(out[k] == sub[k - 1]);
                if sub[k - 1] != e {
                    assert(rest.contains(sub[k - 1]));
                    let m = choose|m: int| 0 <= m < rest.len() && rest[m] == sub[k - 1];
                    assert(s[m + 1] == rest[m]);
                }
            }
        }
        assert(sub.contains(e));
        let m = choose|m: int| 0 <= m < sub.len() && sub[m] == e;
        assert(out[m + 1] == e);
        assert(out.contains(e));
        assert forall|k: int| 0 <= k < s.len() implies out.contains(#[trigger] s[k]) by {
            if k == 0 {
                assert(out[0] == s[0]);
            } else {
                assert(rest[k - 1] == s[k]);
                assert(sub.contains(rest[k - 1]));
                let m2 = choose|m2: int| 0 <= m2 < sub.len() && sub[m2] == rest[k - 1];
                assert(out[m2 + 1] == s[k]);
            }
        }
    } else {
        assert(out == seq![e] + s);
        assert forall|k1: int, k2: int| 0 <= k1 < k2 < out.len() implies ((
        #[trigger] out[k1]).score > (#[trigger] out[k2]).score || (out[k1].score == out[k2].score
            && out[k1].pos < out[k2].pos)) by {
            if k1 == 0 {
                assert(out[k2] == s[k2 - 1]);
                if k2 - 1 > 0 {
                    assert(s[0].score > s[k2 - 1].score || (s[0].score == s[k2 - 1].score && s[0].pos
                        < s[k2 - 1].pos));
                }
                assert(e.score > s[0].score);
            } else {
                assert(out[k1] == s[k1 - 1]);
                assert(out[k2] == s[k2 - 1]);
            }
        }
        assert(out[0] == e);
        assert forall|k: int| 0 <= k < s.len() implies out.contains(#[trigger] s[k]) by {
            assert(out[k + 1] == s[k]);
        }
    }
}

/// The ranking a non-empty query produces lists exactly the containers whose
/// names score positively: each entry is the record at its original
/// position with a positive score, every positively scoring position
/// appears, and entries descend by score with ties in original order — so a
/// container scoring non-positively is absent from the filtered view.
pub proof fn lemma_filtered_ranking(cs: Seq<ContainerView>, q: Seq<char>)
    ensures
        scored_sorted(spec_scored(cs, q)),
        scored_wf(spec_scored(cs, q), cs, q),
        scored_complete(spec_scored(cs, q), cs, q),
    decreases cs.len(),
{
    let out = spec_scored(cs, q);
    if cs.len() > 0 {
        let prefix_cs = cs.drop_last();
        lemma_filtered_ranking(prefix_cs, q);
        let prefix = spec_scored(prefix_cs, q);
        let sc = score_of(q, cs.last().name);
        assert forall|k: int| 0 <= k < prefix.len() implies (#[trigger] prefix[k]).pos < cs.len()
            - 1 by {}
        if sc > 0 {
            let e = ScoredView { score: sc, pos: cs.len() - 1, rec: cs.last() };
            lemma_insert_desc_props(prefix, e);
            assert forall|k: int| 0 <= k < out.len() implies {
                &&& 0 <= (#[trigger] out[k]).pos < cs.len()
                &&& cs[out[k].pos] == out[k].rec
                &&& out[k].score == score_of(q, out[k].rec.name)
                &&& out[k].score > 0
            } by {
                if out[k] != e {
                    assert(prefix.contains(out[k]));
                    let m = choose|m: int| 0 <= m < prefix.len() && prefix[m] == out[k];
                    assert(prefix_cs[prefix[m].pos] == cs[prefix[m].pos]);
                }
            }
            assert forall|i: int|
                0 <= i < cs.len() && score_of(q, (#[trigger] cs[i]).name) > 0 implies exists|k: int|
                0 <= k < out.len() && (#[trigger] out[k]).pos == i by {
                if i == cs.len() - 1 {
                    let m = choose|m: int| 0 <= m < out.len() && out[m] == e;
                    assert(out[m].pos == i);
                } else {
                    assert(prefix_cs[i] == cs[i]);
                    let k0 = choose|k0: int| 0 <= k0 < prefix.len() && (#[trigger] prefix[k0]).pos
                        == i;
                    assert(out.contains(prefix[k0]));
                    let m = choose|m: int| 0 <= m < out.len() && out[m] == prefix[k0];
                    assert(out[m].pos == i);
                }
            }
        } else {
            assert(out == prefix);
            assert forall|k: int| 0 <= k < out.len() implies {
                &&& 0 <= (#[trigger] out[k]).pos < cs.len()
                &&& cs[out[k].pos] == out[k].rec
                &&& out[k].score == score_of(q, out[k].rec.name)
                &&& out[k].score > 0
            } by {
                assert(prefix_cs[out[k].pos] == cs[out[k].pos]);
            }
            assert forall|i: int|
                0 <= i < cs.len() && score_of(q, (#[trigger] cs[i]).name) > 0 implies exists|k: int|
                0 <= k < out.len() && (#[trigger] out[k]).pos == i by {
                assert(i < cs.len() - 1);
                assert(prefix_cs[i] == cs[i]);
            }
        }
    }
}

} // verus!
