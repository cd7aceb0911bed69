//! Keyword search over memories, and the blend of keyword scores with
//! similarity scores. Scores are counted in millionths.

use crate::table::{distinct_keys, found, lemma_views_position, Table};
use crate::text::{
    contains_text, is_infix, list_has, lowercase, opt_text, same_text, split_words, texts, to_lower,
    words_of,
};
use crate::types::{
    lemma_views_push, views, Memory, MemoryView, SearchRequest, SearchResult, SearchResultView,
    MILLION,
};
use vstd::prelude::*;

verus! {

/// What a [`SearchRequest`] holds, as plain values.
pub struct SearchRequestView {
    pub query: Seq<char>,
    pub agent_id: Option<Seq<char>>,
    pub user_id: Option<Seq<char>>,
    pub tags: Seq<Seq<char>>,
    pub limit: usize,
    pub include_graph: bool,
}

impl View for SearchRequest {
    type V = SearchRequestView;

    open spec fn view(&self) -> SearchRequestView {
        SearchRequestView {
            query: self.query@,
            agent_id: opt_text(self.agent_id),
            user_id: opt_text(self.user_id),
            tags: texts(self.tags@),
            limit: self.limit,
            include_graph: self.include_graph,
        }
    }
}

/// A record scoped to `have` may be shown to a request scoped to `want`: the
/// request names no scope, or the record has none, or they are the same.
pub open spec fn scope_allows(want: Option<Seq<char>>, have: Option<Seq<char>>) -> bool {
    want is None || have is None || want == have
}

/// Every tag of `want` is among `have`.
pub open spec fn has_all_tags(want: Seq<Seq<char>>, have: Seq<Seq<char>>) -> bool {
    forall|i: int| 0 <= i < want.len() ==> have.contains(#[trigger] want[i])
}

/// Some tag, lowercased, contains `query`.
pub open spec fn some_tag_mentions(tags: Seq<Seq<char>>, query: Seq<char>) -> bool {
    exists|i: int| 0 <= i < tags.len() && is_infix(query, lowercase(#[trigger] tags[i]))
}

/// The memory is current and within the scope that the request names.
pub open spec fn in_scope(m: MemoryView, req: SearchRequestView) -> bool {
    &&& m.valid_until is None
    &&& scope_allows(req.agent_id, m.agent_id)
    &&& scope_allows(req.user_id, m.user_id)
}

/// The memory is a candidate for the request.
pub open spec fn is_candidate(m: MemoryView, req: SearchRequestView) -> bool {
    &&& in_scope(m, req)
    &&& has_all_tags(req.tags, m.tags)
    &&& (is_infix(lowercase(req.query), lowercase(m.content)) || some_tag_mentions(
        m.tags,
        lowercase(req.query),
    ))
}

/// How many of `words` occur in `content`.
pub open spec fn count_hits(words: Seq<Seq<char>>, content: Seq<char>) -> nat
    decreases words.len(),
{
    if words.len() == 0 {
        0
    } else {
        count_hits(words.drop_last(), content) + if is_infix(words.last(), content) {
            1nat
        } else {
            0nat
        }
    }
}

/// The keyword score, in millionths, of a lowercased content for a lowercased
/// query: one if they are equal, else the share of the query's words that
/// occur in the content.
pub open spec fn keyword_score(content: Seq<char>, query: Seq<char>) -> int {
    if content == query {
        MILLION as int
    } else {
        let words = words_of(query);
        (count_hits(words, content) * MILLION) / (if words.len() == 0 {
            1int
        } else {
            words.len() as int
        })
    }
}

/// The hit that a candidate gives.
pub open spec fn hit(m: MemoryView, req: SearchRequestView) -> SearchResultView {
    SearchResultView {
        memory: m,
        score: keyword_score(lowercase(m.content), lowercase(req.query)) as i64,
        related_entities: Seq::empty(),
        related_relationships: Seq::empty(),
    }
}

/// The hits of the candidates among `ms`, in the order of `ms`.
pub open spec fn hits(ms: Seq<MemoryView>, req: SearchRequestView) -> Seq<SearchResultView>
    decreases ms.len(),
{
    if ms.len() == 0 {
        Seq::empty()
    } else {
        let rest = hits(ms.drop_last(), req);
        if is_candidate(ms.last(), req) {
            rest.push(hit(ms.last(), req))
        } else {
            rest
        }
    }
}

/// `r` put into the ranking `s`: behind every result that scores at least as
/// high, before every result that scores lower.
pub open spec fn insert_ranked(s: Seq<SearchResultView>, r: SearchResultView) -> Seq<
    SearchResultView,
>
    decreases s.len(),
{
    if s.len() == 0 {
        seq![r]
    } else if s.last().score >= r.score {
        s.push(r)
    } else {
        insert_ranked(s.drop_last(), r).push(s.last())
    }
}

/// The results ordered by score, highest first; results with equal scores
/// keep the order they came in.
pub open spec fn ranked(s: Seq<SearchResultView>) -> Seq<SearchResultView>
    decreases s.len(),
{
    if s.len() == 0 {
        Seq::empty()
    } else {
        insert_ranked(ranked(s.drop_last()), s.last())
    }
}

/// The first `limit` results, or all if there are fewer.
pub open spec fn first_n(s: Seq<SearchResultView>, limit: usize) -> Seq<SearchResultView> {
    if limit < s.len() {
        s.take(limit as int)
    } else {
        s
    }
}

/// What a keyword search over `ms` returns.
pub open spec fn keyword_search(ms: Seq<MemoryView>, req: SearchRequestView) -> Seq<
    SearchResultView,
> {
    first_n(ranked(hits(ms, req)), req.limit)
}

/// Scores fall from the front to the back.
pub open spec fn descending(s: Seq<SearchResultView>) -> bool {
    forall|i: int, j: int| 0 <= i <= j < s.len() ==> s[i].score >= s[j].score
}

/// Putting a result into a descending ranking keeps it descending and adds
/// exactly that result.
pub proof fn lemma_insert_ranked(s: Seq<SearchResultView>, r: SearchResultView)
    requires
        descending(s),
    ensures
        descending(insert_ranked(s, r)),
        insert_ranked(s, r).len() == s.len() + 1,
        insert_ranked(s, r).to_multiset() == s.to_multiset().insert(r),
    decreases s.len(),
{
    broadcast use vstd::seq_lib::group_to_multiset_ensures;

    if s.len() == 0 {
        assert(seq![r] =~= Seq::<SearchResultView>::empty().push(r));
    } else if s.last().score >= r.score {
    } else {
        let front = s.drop_last();
        lemma_insert_ranked(front, r);
        let ins = insert_ranked(front, r);
        assert(s =~= front.push(s.last()));
        assert forall|i: int, j: int| 0 <= i <= j < ins.push(s.last()).len() implies ins.push(
            s.last(),
        )[i].score >= ins.push(s.last())[j].score by {
            if j == ins.len() {
                if i < ins.len() {
                    assert(ins.to_multiset().count(ins[i]) > 0);
                    assert(ins[i] == r || front.to_multiset().count(ins[i]) > 0);
                    if ins[i] != r {
                        assert(front.contains(ins[i]));
                        let k = choose|k: int| 0 <= k < front.len() && front[k] == ins[i];
                        assert(s[k] == ins[i]);
                    }
                }
            }
        }
        assert(ins.push(s.last()).to_multiset() == s.to_multiset().insert(r));
    }
}

/// A ranking is descending and holds exactly the results it was made from.
pub proof fn lemma_ranked(s: Seq<SearchResultView>)
    ensures
        descending(ranked(s)),
        ranked(s).len() == s.len(),
        ranked(s).to_multiset() == s.to_multiset(),
    decreases s.len(),
{
    broadcast use vstd::seq_lib::group_to_multiset_ensures;

    if s.len() > 0 {
        lemma_ranked(s.drop_last());
        lemma_insert_ranked(ranked(s.drop_last()), s.last());
        assert(s =~= s.drop_last().push(s.last()));
    }
}

/// Every hit is the hit of a candidate among `ms`.
pub proof fn lemma_hits_are_candidates(ms: Seq<MemoryView>, req: SearchRequestView, i: int)
    requires
        0 <= i < hits(ms, req).len(),
    ensures
        ms.contains(hits(ms, req)[i].memory),
        is_candidate(hits(ms, req)[i].memory, req),
        hits(ms, req)[i] == hit(hits(ms, req)[i].memory, req),
    decreases ms.len(),
{
    if ms.len() > 0 {
        let rest = hits(ms.drop_last(), req);
        if i < rest.len() {
            lemma_hits_are_candidates(ms.drop_last(), req, i);
            let m = rest[i].memory;
            let k = choose|k: int| 0 <= k < ms.drop_last().len() && ms.drop_last()[k] == m;
            assert(ms[k] == m);
        } else {
            assert(ms[ms.len() - 1] == ms.last());
        }
    }
}

/// Where `r` goes in a ranking: position `j`, if every result from `j` on
/// scores lower and the one before `j` does not.
pub proof fn lemma_insert_at(s: Seq<SearchResultView>, r: SearchResultView, j: int)
    requires
        0 <= j <= s.len(),
        forall|k: int| j <= k < s.len() ==> s[k].score < r.score,
        j > 0 ==> s[j - 1].score >= r.score,
    ensures
        insert_ranked(s, r) == s.insert(j, r),
    decreases s.len(),
{
    if s.len() == 0 {
        assert(seq![r] =~= s.insert(j, r));
    } else if j == s.len() {
        assert(s.push(r) =~= s.insert(j, r));
    } else {
        lemma_insert_at(s.drop_last(), r, j);
        assert(s.drop_last().insert(j, r).push(s.last()) =~= s.insert(j, r));
    }
}

/// No more words can occur in a content than there are words.
pub proof fn lemma_count_hits_bound(words: Seq<Seq<char>>, content: Seq<char>)
    ensures
        count_hits(words, content) <= words.len(),
    decreases words.len(),
{
    if words.len() > 0 {
        lemma_count_hits_bound(words.drop_last(), content);
    }
}

/// A keyword score lies between zero and one million.
pub proof fn lemma_keyword_score_range(content: Seq<char>, query: Seq<char>)
    ensures
        0 <= keyword_score(content, query) <= MILLION,
{
    let words = words_of(query);
    lemma_count_hits_bound(words, content);
    let n: int = if words.len() == 0 {
        1
    } else {
        words.len() as int
    };
    let h = count_hits(words, content) as int;
    assert(0 <= (h * 1_000_000) / n <= 1_000_000) by (nonlinear_arith)
        requires
            0 <= h <= n,
            n >= 1,
    ;
}

/// Whether a record scoped to `have` may be shown to a request scoped to
/// `want`.
pub fn scope_ok(want: &Option<String>, have: &Option<String>) -> (r: bool)
    ensures
        r == scope_allows(opt_text(*want), opt_text(*have)),
{
    match want {
        None => true,
        Some(w) => match have {
            None => true,
            Some(h) => *w == *h,
        },
    }
}

/// Whether every tag of `want` is among `have`.
pub fn all_tags_in(want: &Vec<String>, have: &Vec<String>) -> (r: bool)
    ensures
        r == has_all_tags(texts(want@), texts(have@)),
{
    let mut i: usize = 0;
    while i < want.len()
        invariant
            i <= want.len(),
            forall|j: int| 0 <= j < i ==> texts(have@).contains(#[trigger] texts(want@)[j]),
        decreases want.len() - i,
    {
        if !list_has(have, want[i].as_str()) {
            assert(texts(want@)[i as int] == want@[i as int]@);
            return false;
        }
        assert(texts(want@)[i as int] == want@[i as int]@);
        i += 1;
    }
    true
}

/// Whether some tag, lowercased, contains `query`.
pub fn tag_mentions(tags: &Vec<String>, query: &str) -> (r: bool)
    ensures
        r == some_tag_mentions(texts(tags@), query@),
{
    let mut i: usize = 0;
    while i < tags.len()
        invariant
            i <= tags.len(),
            forall|j: int| 0 <= j < i ==> !is_infix(query@, lowercase(#[trigger] texts(tags@)[j])),
        decreases tags.len() - i,
    {
        let lower = to_lower(tags[i].as_str());
        assert(texts(tags@)[i as int] == tags@[i as int]@);
        if contains_text(lower.as_str(), query) {
            return true;
        }
        i += 1;
    }
    false
}

/// How many of `words` occur in `content`.
pub fn count_word_hits(words: &Vec<String>, content: &str) -> (n: usize)
    ensures
        n == count_hits(texts(words@), content@),
{
    let mut n: usize = 0;
    let mut i: usize = 0;
    while i < words.len()
        invariant
            i <= words.len(),
            n <= i,
            n == count_hits(texts(words@).take(i as int), content@),
        decreases words.len() - i,
    {
        assert(texts(words@).take(i + 1).drop_last() =~= texts(words@).take(i as int));
        assert(texts(words@).take(i + 1).last() == words@[i as int]@);
        if contains_text(content, words[i].as_str()) {
            n += 1;
        }
        i += 1;
    }
    assert(texts(words@).take(words.len() as int) =~= texts(words@));
    n
}

/// The keyword score of a lowercased content for a lowercased query.
pub fn score_of(content: &str, query: &str) -> (score: i64)
    ensures
        score == keyword_score(content@, query@),
        0 <= score <= MILLION,
{
    proof {
        lemma_keyword_score_range(content@, query@);
    }
    if same_text(content, query) {
        1_000_000
    } else {
        let words = split_words(query);
        let hit_count = count_word_hits(&words, content);
        let n: usize = if words.len() == 0 {
            1
        } else {
            words.len()
        };
        proof {
            lemma_count_hits_bound(texts(words@), content@);
            assert(texts(words@).len() == words@.len());
        }
        let wide: u128 = (hit_count as u128) * 1_000_000u128 / (n as u128);
        wide as i64
    }
}

/// Whether the memory is current and within the scope that the request names.
pub fn memory_in_scope(m: &Memory, req: &SearchRequest) -> (r: bool)
    ensures
        r == in_scope(m@, req@),
{
    m.valid_until.is_none() && scope_ok(&req.agent_id, &m.agent_id) && scope_ok(
        &req.user_id,
        &m.user_id,
    )
}

/// Whether the memory is a candidate for the request, whose lowercased query
/// is `query`.
pub fn memory_is_candidate(m: &Memory, req: &SearchRequest, query: &str) -> (r: bool)
    requires
        query@ == lowercase(req.query@),
    ensures
        r == is_candidate(m@, req@),
{
    if !memory_in_scope(m, req) {
        return false;
    }
    if !all_tags_in(&req.tags, &m.tags) {
        return false;
    }
    let content = to_lower(m.content.as_str());
    contains_text(content.as_str(), query) || tag_mentions(&m.tags, query)
}

/// Every score lies between zero and one million.
pub open spec fn scores_in_range(s: Seq<SearchResultView>) -> bool {
    forall|j: int| 0 <= j < s.len() ==> 0 <= (#[trigger] s[j]).score <= MILLION
}

/// Puts `r` into the ranking `v`.
pub fn rank_in(v: &mut Vec<SearchResult>, r: SearchResult)
    ensures
        views(final(v)@) == insert_ranked(views(old(v)@), r@),
        scores_in_range(views(old(v)@)) && 0 <= r.score <= MILLION ==> scores_in_range(
            views(final(v)@),
        ),
{
    let mut j: usize = v.len();
    while j > 0 && v[j - 1].score < r.score
        invariant
            j <= v.len(),
            *v == *old(v),
            forall|k: int| j <= k < v.len() ==> v@[k].score < r.score,
        decreases j,
    {
        j -= 1;
    }
    proof {
        lemma_insert_at(views(v@), r@, j as int);
        assert(views(v@.insert(j as int, r)) =~= views(v@).insert(j as int, r@));
    }
    v.insert(j, r);
}

/// Keyword search over the memories of a table.
pub fn search_table(memories: &Table<Memory>, req: &SearchRequest) -> (out: Vec<SearchResult>)
    ensures
        views(out@) == keyword_search(views(memories@), req@),
        scores_in_range(views(out@)),
{
    let query = to_lower(req.query.as_str());
    let mut out: Vec<SearchResult> = Vec::new();
    let ghost ms = views(memories@);
    let mut i: usize = 0;
    assert(views(out@) =~= ranked(hits(ms.take(0), req@)));
    while i < memories.len()
        invariant
            i <= memories@.len(),
            ms == views(memories@),
            query@ == lowercase(req.query@),
            views(out@) == ranked(hits(ms.take(i as int), req@)),
            scores_in_range(views(out@)),
        decreases memories@.len() - i,
    {
        let m = memories.row(i);
        assert(ms.take(i + 1).drop_last() =~= ms.take(i as int));
        assert(ms.take(i + 1).last() == m@);
        if memory_is_candidate(m, req, query.as_str()) {
            let content = to_lower(m.content.as_str());
            let score = score_of(content.as_str(), query.as_str());
            let r = SearchResult {
                memory: m.clone(),
                score,
                related_entities: Vec::new(),
                related_relationships: Vec::new(),
            };
            assert(r@ == hit(m@, req@)) by {
                assert(r@.related_entities =~= Seq::<crate::types::EntityView>::empty());
                assert(r@.related_relationships =~= Seq::<
                    crate::types::RelationshipView,
                >::empty());
            }
            proof {
                let before = hits(ms.take(i as int), req@);
                assert(hits(ms.take(i + 1), req@) == before.push(r@));
                assert(before.push(r@).drop_last() =~= before);
                assert(before.push(r@).last() == r@);
            }
            rank_in(&mut out, r);
        } else {
            assert(hits(ms.take(i + 1), req@) == hits(ms.take(i as int), req@));
        }
        i += 1;
    }
    assert(ms.take(memories@.len() as int) =~= ms);
    out.truncate(req.limit);
    assert(views(out@) =~= keyword_search(ms, req@));
    out
}

/// The share, in millionths, that similarity has in a hybrid score.
pub const VECTOR_WEIGHT: u32 = 700_000;

/// The similarity, in millionths, that a memory must exceed to enter the
/// results on similarity alone.
pub const VECTOR_FLOOR: i64 = 300_000;

/// A similarity held to the range from minus one to one, in millionths.
pub open spec fn clamp(v: i64) -> i64 {
    if v > 1_000_000 {
        1_000_000i64
    } else if v < -1_000_000 {
        -1_000_000i64
    } else {
        v
    }
}

/// The weighted mean of a keyword score and a similarity, rounded down:
/// `weight` millionths of the similarity and the rest of the keyword score.
pub open spec fn blend(keyword: int, vector: int, weight: int) -> int {
    ((MILLION - weight) * keyword + weight * vector) / (MILLION as int)
}

/// The similarity that `pairs` gives for the memory `id`: that of the first
/// pair that names it.
pub open spec fn first_score(pairs: Seq<(u64, i64)>, id: u64) -> Option<i64>
    decreases pairs.len(),
{
    if pairs.len() == 0 {
        None
    } else if pairs[0].0 == id {
        Some(clamp(pairs[0].1))
    } else {
        first_score(pairs.drop_first(), id)
    }
}

/// The result with its score blended with the similarity of its memory,
/// where `pairs` gives one.
pub open spec fn blended(r: SearchResultView, pairs: Seq<(u64, i64)>) -> SearchResultView {
    match first_score(pairs, r.memory.id) {
        Some(v) => SearchResultView {
            score: blend(r.score as int, v as int, VECTOR_WEIGHT as int) as i64,
            ..r
        },
        None => r,
    }
}

/// Some result is about the memory `id`.
pub open spec fn has_result(rs: Seq<SearchResultView>, id: u64) -> bool {
    exists|i: int| 0 <= i < rs.len() && (#[trigger] rs[i]).memory.id == id
}

/// The result that a memory gives on similarity alone.
pub open spec fn lifted_hit(m: MemoryView, v: i64) -> SearchResultView {
    SearchResultView {
        memory: m,
        score: blend(0, v as int, VECTOR_WEIGHT as int) as i64,
        related_entities: Seq::empty(),
        related_relationships: Seq::empty(),
    }
}

/// The results `acc`, joined by the memories that enter on similarity alone:
/// going through `pairs` in order, a memory enters if no result is about it
/// yet, it exists, it is current and in the scope of the request, and its
/// similarity exceeds the floor.
pub open spec fn lifted(
    acc: Seq<SearchResultView>,
    ms: Seq<MemoryView>,
    req: SearchRequestView,
    pairs: Seq<(u64, i64)>,
) -> Seq<SearchResultView>
    decreases pairs.len(),
{
    if pairs.len() == 0 {
        acc
    } else {
        let prev = lifted(acc, ms, req, pairs.drop_last());
        let id = pairs.last().0;
        let v = clamp(pairs.last().1);
        if !has_result(prev, id) && found(ms, id) is Some && in_scope(found(ms, id).unwrap(), req)
            && v > VECTOR_FLOOR {
            prev.push(lifted_hit(found(ms, id).unwrap(), v))
        } else {
            prev
        }
    }
}

/// What a hybrid search over `ms` returns, given the similarities `pairs`.
pub open spec fn hybrid_search(
    ms: Seq<MemoryView>,
    req: SearchRequestView,
    pairs: Seq<(u64, i64)>,
) -> Seq<SearchResultView> {
    first_n(
        ranked(
            lifted(
                keyword_search(ms, req).map_values(|r: SearchResultView| blended(r, pairs)),
                ms,
                req,
                pairs,
            ),
        ),
        req.limit,
    )
}

/// A blend of scores between minus one and one lies between minus one and
/// one.
pub proof fn lemma_blend_range(keyword: int, vector: int, weight: int)
    requires
        -MILLION <= keyword <= MILLION,
        -MILLION <= vector <= MILLION,
        0 <= weight <= MILLION,
    ensures
        -MILLION <= blend(keyword, vector, weight) <= MILLION,
        blend(keyword, vector, weight) == ((MILLION - weight) * keyword + weight * vector
            + 1_000_000_000_000) / 1_000_000 - 1_000_000,
{
    let m: int = 1_000_000;
    let num = (m - weight) * keyword + weight * vector;
    assert(-m * m <= num <= m * m) by (nonlinear_arith)
        requires
            num == (m - weight) * keyword + weight * vector,
            -m <= keyword <= m,
            -m <= vector <= m,
            0 <= weight <= m,
            m == 1_000_000,
    ;
    assert((num + m * m) / m == num / m + m) by (nonlinear_arith)
        requires
            m == 1_000_000,
    ;
    assert(-m <= num / m <= m) by (nonlinear_arith)
        requires
            -m * m <= num <= m * m,
            m == 1_000_000,
    ;
}

/// The weighted mean of a keyword score and a similarity, in millionths,
/// rounded down.
pub fn hybrid_score(keyword_score: i64, vector_score: i64, vector_weight: u32) -> (score: i64)
    requires
        -MILLION <= keyword_score <= MILLION,
        -MILLION <= vector_score <= MILLION,
        vector_weight <= MILLION,
    ensures
        score == blend(keyword_score as int, vector_score as int, vector_weight as int),
        -MILLION <= score <= MILLION,
{
    proof {
        lemma_blend_range(keyword_score as int, vector_score as int, vector_weight as int);
    }
    let w: i64 = vector_weight as i64;
    assert(-1_000_000_000_000 <= (1_000_000 - w) * keyword_score <= 1_000_000_000_000)
        by (nonlinear_arith)
        requires
            0 <= w <= 1_000_000,
            -1_000_000 <= keyword_score <= 1_000_000,
    ;
    assert(-1_000_000_000_000 <= w * vector_score <= 1_000_000_000_000) by (nonlinear_arith)
        requires
            0 <= w <= 1_000_000,
            -1_000_000 <= vector_score <= 1_000_000,
    ;
    let num: i64 = (1_000_000 - w) * keyword_score + w * vector_score;
    assert(-1_000_000_000_000 <= num <= 1_000_000_000_000) by (nonlinear_arith)
        requires
            num == (1_000_000 - w) * keyword_score + w * vector_score,
            0 <= w <= 1_000_000,
            -1_000_000 <= keyword_score <= 1_000_000,
            -1_000_000 <= vector_score <= 1_000_000,
    ;
    let shifted: u64 = (num + 1_000_000_000_000) as u64;
    let q: u64 = shifted / 1_000_000;
    (q as i64) - 1_000_000
}

/// A similarity held to the range from minus one to one.
pub fn clamp_score(v: i64) -> (r: i64)
    ensures
        r == clamp(v),
        -MILLION <= r <= MILLION,
{
    if v > 1_000_000 {
        1_000_000
    } else if v < -1_000_000 {
        -1_000_000
    } else {
        v
    }
}

/// The similarity that `pairs` gives for the memory `id`.
pub fn score_in(pairs: &Vec<(u64, i64)>, id: u64) -> (r: Option<i64>)
    ensures
        r == first_score(pairs@, id),
        r is Some ==> -MILLION <= r.unwrap() <= MILLION,
{
    let mut i: usize = 0;
    assert(pairs@.skip(0) =~= pairs@);
    while i < pairs.len()
        invariant
            i <= pairs.len(),
            first_score(pairs@, id) == first_score(pairs@.skip(i as int), id),
        decreases pairs.len() - i,
    {
        assert(pairs@.skip(i as int)[0] == pairs@[i as int]);
        assert(pairs@.skip(i as int).drop_first() =~= pairs@.skip(i + 1));
        if pairs[i].0 == id {
            return Some(clamp_score(pairs[i].1));
        }
        i += 1;
    }
    assert(pairs@.skip(pairs.len() as int).len() == 0);
    None
}

/// Whether some result is about the memory `id`.
pub fn result_for(rs: &Vec<SearchResult>, id: u64) -> (r: bool)
    ensures
        r == has_result(views(rs@), id),
{
    let mut i: usize = 0;
    while i < rs.len()
        invariant
            i <= rs.len(),
            forall|j: int| 0 <= j < i ==> (#[trigger] views(rs@)[j]).memory.id != id,
        decreases rs.len() - i,
    {
        assert(views(rs@)[i as int].memory.id == rs@[i as int].memory.id);
        if rs[i].memory.id == id {
            return true;
        }
        i += 1;
    }
    false
}

/// The ranking of the results of `v`.
pub fn rank_all(v: &Vec<SearchResult>) -> (out: Vec<SearchResult>)
    ensures
        views(out@) == ranked(views(v@)),
{
    let mut out: Vec<SearchResult> = Vec::new();
    let ghost vs = views(v@);
    let mut i: usize = 0;
    assert(views(out@) =~= ranked(vs.take(0)));
    while i < v.len()
        invariant
            i <= v.len(),
            vs == views(v@),
            views(out@) == ranked(vs.take(i as int)),
        decreases v.len() - i,
    {
        let r = copy_result(&v[i]);
        assert(vs.take(i + 1).drop_last() =~= vs.take(i as int));
        assert(vs.take(i + 1).last() == r@);
        rank_in(&mut out, r);
        i += 1;
    }
    assert(vs.take(v.len() as int) =~= vs);
    out
}

/// A copy of a search result.
pub fn copy_result(r: &SearchResult) -> (out: SearchResult)
    ensures
        out@ == r@,
{
    SearchResult {
        memory: r.memory.clone(),
        score: r.score,
        related_entities: crate::table::copy_list(&r.related_entities),
        related_relationships: crate::table::copy_list(&r.related_relationships),
    }
}

/// Hybrid search over the memories of a table, given similarities.
pub fn hybrid_search_table(
    memories: &Table<Memory>,
    req: &SearchRequest,
    pairs: &Vec<(u64, i64)>,
) -> (out: Vec<SearchResult>)
    requires
        memories.wf(),
        distinct_keys(views(memories@)),
    ensures
        views(out@) == hybrid_search(views(memories@), req@, pairs@),
{
    let found_by_keyword = search_table(memories, req);
    let ghost ms = views(memories@);
    let ghost kw = views(found_by_keyword@);
    let mut merged: Vec<SearchResult> = Vec::new();
    let mut i: usize = 0;
    let ghost mapped = kw.map_values(|r: SearchResultView| blended(r, pairs@));
    assert(views(merged@) =~= mapped.take(0));
    while i < found_by_keyword.len()
        invariant
            i <= found_by_keyword.len(),
            kw == views(found_by_keyword@),
            mapped == kw.map_values(|r: SearchResultView| blended(r, pairs@)),
            views(merged@) == mapped.take(i as int),
            scores_in_range(kw),
        decreases found_by_keyword.len() - i,
    {
        let r = &found_by_keyword[i];
        assert(kw[i as int] == r@);
        let score: i64 = match score_in(pairs, r.memory.id) {
            Some(v) => hybrid_score(r.score, v, VECTOR_WEIGHT),
            None => r.score,
        };
        let next = SearchResult {
            memory: r.memory.clone(),
            score,
            related_entities: crate::table::copy_list(&r.related_entities),
            related_relationships: crate::table::copy_list(&r.related_relationships),
        };
        proof {
            assert(next@ == blended(r@, pairs@));
            lemma_views_push(merged@, next);
            assert(mapped.take(i as int).push(next@) =~= mapped.take(i + 1));
        }
        merged.push(next);
        i += 1;
    }
    assert(mapped.take(found_by_keyword.len() as int) =~= mapped);
    let mut k: usize = 0;
    assert(pairs@.take(0) =~= Seq::empty());
    while k < pairs.len()
        invariant
            k <= pairs.len(),
            memories.wf(),
            ms == views(memories@),
            distinct_keys(ms),
            views(merged@) == lifted(mapped, ms, req@, pairs@.take(k as int)),
        decreases pairs.len() - k,
    {
        let id: u64 = pairs[k].0;
        let v = clamp_score(pairs[k].1);
        proof {
            assert(pairs@.take(k + 1).drop_last() =~= pairs@.take(k as int));
            assert(pairs@.take(k + 1).last() == pairs@[k as int]);
            memories.lemma_distinct();
            lemma_views_position(memories@, id);
        }
        if !result_for(&merged, id) {
            match memories.get(id) {
                Some(m) => {
                    if memory_in_scope(m, req) && v > VECTOR_FLOOR {
                        let r = SearchResult {
                            memory: m.clone(),
                            score: hybrid_score(0, v, VECTOR_WEIGHT),
                            related_entities: Vec::new(),
                            related_relationships: Vec::new(),
                        };
                        proof {
                            assert(r@.related_entities =~= Seq::empty());
                            assert(r@.related_relationships =~= Seq::empty());
                            assert(r@ == lifted_hit(m@, v));
                            lemma_views_push(merged@, r);
                        }
                        merged.push(r);
                    }
                },
                None => {},
            }
        }
        k += 1;
    }
    assert(pairs@.take(pairs.len() as int) =~= pairs@);
    let mut out = rank_all(&merged);
    out.truncate(req.limit);
    assert(views(out@) =~= hybrid_search(ms, req@, pairs@));
    out
}

/// How many similarities a hybrid search asks for: twice the number of
/// results wanted.
pub fn vector_candidates_wanted(limit: usize) -> (n: usize)
    ensures
        n == (if limit * 2 <= usize::MAX {
            limit * 2
        } else {
            usize::MAX as int
        }),
{
    if limit > usize::MAX / 2 {
        usize::MAX
    } else {
        limit * 2
    }
}

} // verus!
