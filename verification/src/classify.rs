//! The duplicate classifier.
//!
//! [`check_for_duplicates`] tags every question of a pool as unique, as a
//! duplicate by question text only, or as a full duplicate.  The pass is
//! descriptive: it drops nothing and keeps, within each group of entries that
//! share a question text, the original insertion order.  Groups appear in the
//! order in which their text first occurs in the pool.
//!
//! The classification of a whole pool is pinned down by the specification
//! function [`classify_pool`]; the proof functions at the end of the module
//! state the classifier's laws: the classified pool is a permutation of the
//! input, a text occurring once is tagged unique, a group of fully equal
//! entries is tagged as full duplicates except for its last member, and a
//! group that shares only its text is tagged as text duplicates throughout.

use vstd::prelude::*;
use vstd::seq_lib::lemma_flatten_concat;
use vstd::seq_lib::lemma_multiset_commutative;
use crate::questions::{
    Question, QuestionV, TypedQuestion, TypedQuestionV, QuestionType, qviews, tqviews,
    clone_question,
};

verus! {

/// Whether some entry of `pool` has question text `t`.
pub open spec fn pool_has_text(pool: Seq<QuestionV>, t: Seq<char>) -> bool {
    exists|i: int| 0 <= i < pool.len() && pool[i].question == t
}

/// The predicate selecting questions whose text is `t`.
pub open spec fn text_pred(t: Seq<char>) -> spec_fn(QuestionV) -> bool {
    |q: QuestionV| q.question == t
}

/// The entries of `pool` whose question text is `t`, in pool order.
pub open spec fn bucket_of(pool: Seq<QuestionV>, t: Seq<char>) -> Seq<QuestionV> {
    pool.filter(text_pred(t))
}

/// The distinct question texts of `pool`, in order of first occurrence.
pub open spec fn texts_of(pool: Seq<QuestionV>) -> Seq<Seq<char>>
    decreases pool.len(),
{
    if pool.len() == 0 {
        Seq::empty()
    } else {
        let rest = texts_of(pool.drop_last());
        if rest.contains(pool.last().question) {
            rest
        } else {
            rest.push(pool.last().question)
        }
    }
}

/// Whether some entry after position `i` of `b` equals `b[i]` in every field.
pub open spec fn has_equal_later(b: Seq<QuestionV>, i: int) -> bool {
    exists|j: int| i < j < b.len() && b[j] == b[i]
}

/// The classification of one group of entries sharing a question text:
/// a single entry is unique; in a larger group an entry followed by a full
/// copy of itself is a full duplicate, and every other entry is a duplicate
/// by text.
pub open spec fn classify_bucket(b: Seq<QuestionV>) -> Seq<TypedQuestionV> {
    if b.len() == 1 {
        seq![TypedQuestionV { qtype: QuestionType::DefaultItem, question: b[0] }]
    } else {
        Seq::new(
            b.len(),
            |i: int|
                TypedQuestionV {
                    qtype: if has_equal_later(b, i) {
                        QuestionType::DuplicateNodes
                    } else {
                        QuestionType::DuplicateQuestions
                    },
                    question: b[i],
                },
        )
    }
}

/// The classification of a whole pool: the classified groups, one per
/// distinct question text, in order of first occurrence.
pub open spec fn classify_pool(pool: Seq<QuestionV>) -> Seq<TypedQuestionV> {
    texts_of(pool).map_values(|t: Seq<char>| classify_bucket(bucket_of(pool, t))).flatten()
}

/// The questions of a classified sequence, with their tags removed.
pub open spec fn questions_of(s: Seq<TypedQuestionV>) -> Seq<QuestionV> {
    s.map_values(|tq: TypedQuestionV| tq.question)
}

/// The predicate selecting classified entries whose question text is `t`.
pub open spec fn tq_text_pred(t: Seq<char>) -> spec_fn(TypedQuestionV) -> bool {
    |tq: TypedQuestionV| tq.question.question == t
}

/// The classified entries whose question text is `t`, in order.
pub open spec fn with_text(s: Seq<TypedQuestionV>, t: Seq<char>) -> Seq<TypedQuestionV> {
    s.filter(tq_text_pred(t))
}

/// The predicate selecting classified entries with tag `qt`.
pub open spec fn type_pred(qt: QuestionType) -> spec_fn(TypedQuestionV) -> bool {
    |tq: TypedQuestionV| tq.qtype == qt
}

/// How many entries of `s` carry the tag `qt`.
pub open spec fn count_type(s: Seq<TypedQuestionV>, qt: QuestionType) -> nat {
    s.filter(type_pred(qt)).len()
}

proof fn lemma_filter_push<A>(s: Seq<A>, x: A, pred: spec_fn(A) -> bool)
    ensures
        s.push(x).filter(pred) == if pred(x) {
            s.filter(pred).push(x)
        } else {
            s.filter(pred)
        },
{
    reveal(Seq::filter);
    assert(s.push(x).drop_last() =~= s);
    assert(s.push(x).last() == x);
}

proof fn lemma_filter_all<A>(s: Seq<A>, pred: spec_fn(A) -> bool)
    requires
        forall|i: int| 0 <= i < s.len() ==> pred(#[trigger] s[i]),
    ensures
        s.filter(pred) == s,
    decreases s.len(),
{
    reveal(Seq::filter);
    if s.len() == 0 {
        assert(s.filter(pred) =~= s);
    } else {
        lemma_filter_all(s.drop_last(), pred);
        assert(s.drop_last().push(s.last()) =~= s);
    }
}

proof fn lemma_filter_none<A>(s: Seq<A>, pred: spec_fn(A) -> bool)
    requires
        forall|i: int| 0 <= i < s.len() ==> !pred(#[trigger] s[i]),
    ensures
        s.filter(pred) == Seq::<A>::empty(),
    decreases s.len(),
{
    reveal(Seq::filter);
    if s.len() == 0 {
        assert(s.filter(pred) =~= Seq::<A>::empty());
    } else {
        lemma_filter_none(s.drop_last(), pred);
    }
}

/// Extending a pool by one question extends exactly the group of that
/// question's text.
proof fn lemma_bucket_extend(p: Seq<QuestionV>, q: QuestionV, u: Seq<char>)
    ensures
        bucket_of(p.push(q), u) == if u == q.question {
            bucket_of(p, u).push(q)
        } else {
            bucket_of(p, u)
        },
{
    lemma_filter_push(p, q, text_pred(u));
}

/// A text is listed among a pool's texts if and only if some entry bears it.
proof fn lemma_texts_complete(pool: Seq<QuestionV>)
    ensures
        forall|t: Seq<char>| #[trigger] texts_of(pool).contains(t) <==> pool_has_text(pool, t),
    decreases pool.len(),
{
    if pool.len() == 0 {
    } else {
        let p = pool.drop_last();
        let q = pool.last();
        lemma_texts_complete(p);
        assert forall|t: Seq<char>| #[trigger]
            texts_of(pool).contains(t) <==> pool_has_text(pool, t) by {
            if texts_of(pool).contains(t) {
                if t == q.question {
                    assert(pool[pool.len() - 1].question == t);
                } else {
                    assert(texts_of(p).contains(t));
                    let i = choose|i: int| 0 <= i < p.len() && p[i].question == t;
                    assert(pool[i].question == t);
                }
            }
            if pool_has_text(pool, t) {
                let i = choose|i: int| 0 <= i < pool.len() && pool[i].question == t;
                if i < pool.len() - 1 {
                    assert(p[i].question == t);
                    assert(texts_of(p).contains(t));
                    let idx = choose|idx: int|
                        0 <= idx < texts_of(p).len() && texts_of(p)[idx] == t;
                    if !texts_of(p).contains(q.question) {
                        assert(texts_of(pool) == texts_of(p).push(q.question));
                    }
                    assert(texts_of(pool)[idx] == t);
                    assert(texts_of(pool).contains(t));
                } else {
                    assert(t == q.question);
                    if texts_of(p).contains(t) {
                        assert(texts_of(pool).contains(t));
                    } else {
                        assert(texts_of(pool) == texts_of(p).push(q.question));
                        assert(texts_of(pool)[texts_of(pool).len() - 1] == t);
                    }
                }
            }
        }
    }
}

/// Finds the first group whose question text equals `text`.
fn find_bucket(buckets: &Vec<Vec<Question>>, text: &String) -> (r: Option<usize>)
    requires
        forall|k: int| 0 <= k < buckets@.len() ==> #[trigger] buckets@[k]@.len() > 0,
    ensures
        match r {
            Some(k) => 0 <= k < buckets@.len() && buckets@[k as int]@[0]@.question == text@
                && forall|m: int| 0 <= m < k ==> buckets@[m]@[0]@.question != text@,
            None => forall|m: int| 0 <= m < buckets@.len() ==> buckets@[m]@[0]@.question != text@,
        },
{
    let mut k: usize = 0;
    while k < buckets.len()
        invariant
            k <= buckets@.len(),
            forall|k2: int| 0 <= k2 < buckets@.len() ==> #[trigger] buckets@[k2]@.len() > 0,
            forall|m: int| 0 <= m < k ==> buckets@[m]@[0]@.question != text@,
        decreases buckets@.len() - k,
    {
        if buckets[k][0].question == *text {
            return Some(k);
        }
        k = k + 1;
    }
    None
}

/// Tags every question of the pool with its duplicate class.
///
/// The result is exactly [`classify_pool`] of the input: groups of a common
/// question text appear in order of the text's first occurrence, each group
/// keeps insertion order, and each entry's tag says whether its text is
/// unique, shared with a full copy later in its group, or merely shared.
pub fn check_for_duplicates(question_pool: &Vec<Question>) -> (r: Vec<TypedQuestion>)
    ensures
        tqviews(r@) == classify_pool(qviews(question_pool@)),
{
    let ghost pool_seq = question_pool@;
    let mut buckets: Vec<Vec<Question>> = Vec::new();
    let mut i: usize = 0;
    while i < question_pool.len()
        invariant
            i <= pool_seq.len(),
            pool_seq == question_pool@,
            buckets@.len() == texts_of(qviews(pool_seq.take(i as int))).len(),
            forall|k: int|
                0 <= k < buckets@.len() ==> qviews(#[trigger] buckets@[k]@) == bucket_of(
                    qviews(pool_seq.take(i as int)),
                    texts_of(qviews(pool_seq.take(i as int)))[k],
                ),
            forall|k: int|
                0 <= k < buckets@.len() ==> #[trigger] buckets@[k]@.len() > 0
                    && buckets@[k]@[0]@.question == texts_of(qviews(pool_seq.take(i as int)))[k],
        decreases pool_seq.len() - i,
    {
        let ghost pv = qviews(pool_seq.take(i as int));
        let ghost pv_next = qviews(pool_seq.take(i + 1));
        let ghost qv = question_pool@[i as int]@;
        proof {
            assert(pv_next =~= pv.push(qv));
            assert(pv_next.drop_last() =~= pv);
            lemma_texts_distinct(pool_seq.take(i as int).map_values(|q: Question| q@));
            lemma_texts_complete(pv);
        }
        let q = &question_pool[i];
        match find_bucket(&buckets, &q.question) {
            Some(k) => {
                proof {
                    assert(texts_of(pv)[k as int] == qv.question);
                    assert(texts_of(pv).contains(qv.question));
                    assert(texts_of(pv_next) == texts_of(pv));
                    assert forall|m: int| 0 <= m < buckets@.len() && m != k implies bucket_of(
                        pv_next,
                        texts_of(pv)[m],
                    ) == bucket_of(pv, texts_of(pv)[m]) by {
                        lemma_bucket_extend(pv, qv, texts_of(pv)[m]);
                    }
                    lemma_bucket_extend(pv, qv, texts_of(pv)[k as int]);
                }
                let qc = clone_question(q);
                let ghost old_buckets = buckets@;
                buckets[k].push(qc);
                proof {
                    assert(buckets@.len() == old_buckets.len());
                    assert(forall|m: int|
                        0 <= m < old_buckets.len() && m != k ==> buckets@[m]
                            == #[trigger] old_buckets[m]);
                    assert(buckets@[k as int]@ == old_buckets[k as int]@.push(qc));
                    assert(qviews(buckets@[k as int]@) =~= qviews(old_buckets[k as int]@).push(
                        qv,
                    ));
                }
            },
            None => {
                proof {
                    assert forall|m: int|
                        0 <= m < texts_of(pv).len() implies texts_of(pv)[m] != qv.question by {
                        assert(buckets@[m]@.len() > 0);
                    }
                    assert(!texts_of(pv).contains(qv.question));
                    assert(texts_of(pv_next) == texts_of(pv).push(qv.question));
                    assert forall|m: int| 0 <= m < buckets@.len() implies bucket_of(
                        pv_next,
                        texts_of(pv)[m],
                    ) == bucket_of(pv, texts_of(pv)[m]) by {
                        lemma_bucket_extend(pv, qv, texts_of(pv)[m]);
                    }
                    assert(!pool_has_text(pv, qv.question));
                    assert(forall|m: int| 0 <= m < pv.len() ==> !text_pred(qv.question)(
                        #[trigger] pv[m],
                    ));
                    lemma_filter_none(pv, text_pred(qv.question));
                    lemma_bucket_extend(pv, qv, qv.question);
                }
                let qc = clone_question(q);
                let mut nb: Vec<Question> = Vec::new();
                nb.push(qc);
                buckets.push(nb);
                proof {
                    assert(qviews(buckets@[buckets@.len() - 1]@) =~= Seq::<
                        QuestionV,
                    >::empty().push(qv));
                }
            },
        }
        i = i + 1;
    }
    let ghost pv = qviews(pool_seq);
    proof {
        assert(pool_seq.take(i as int) =~= pool_seq);
    }
    let ghost cls = texts_of(pv).map_values(|t: Seq<char>| classify_bucket(bucket_of(pv, t)));
    let mut out: Vec<TypedQuestion> = Vec::new();
    let mut bi: usize = 0;
    while bi < buckets.len()
        invariant
            bi <= buckets@.len(),
            pv == qviews(question_pool@),
            cls == texts_of(pv).map_values(|t: Seq<char>| classify_bucket(bucket_of(pv, t))),
            buckets@.len() == texts_of(pv).len(),
            forall|k: int|
                0 <= k < buckets@.len() ==> qviews(#[trigger] buckets@[k]@) == bucket_of(
                    pv,
                    texts_of(pv)[k],
                ),
            forall|k: int| 0 <= k < buckets@.len() ==> #[trigger] buckets@[k]@.len() > 0,
            tqviews(out@) == cls.take(bi as int).flatten(),
        decreases buckets@.len() - bi,
    {
        let ghost bv = qviews(buckets@[bi as int]@);
        proof {
            assert(cls.take(bi + 1) =~= cls.take(bi as int).push(cls[bi as int]));
            cls.take(bi as int).lemma_flatten_push(cls[bi as int]);
            assert(cls[bi as int] == classify_bucket(bv));
        }
        let b = &buckets[bi];
        if b.len() == 1 {
            let tqn = TypedQuestion {
                qtype: QuestionType::DefaultItem,
                question: clone_question(&b[0]),
            };
            out.push(tqn);
            proof {
                assert(tqviews(out@) =~= cls.take(bi + 1).flatten());
            }
        } else {
            let ghost out_base = tqviews(out@);
            let mut ii: usize = 0;
            while ii < b.len()
                invariant
                    ii <= b@.len(),
                    bv == qviews(b@),
                    bv.len() != 1,
                    tqviews(out@) == out_base + classify_bucket(bv).take(ii as int),
                decreases b@.len() - ii,
            {
                let mut dup: bool = false;
                let mut j: usize = ii + 1;
                while j < b.len()
                    invariant
                        ii < j <= b@.len() || (j == ii + 1 && b@.len() <= ii + 1),
                        bv == qviews(b@),
                        dup ==> has_equal_later(bv, ii as int),
                        !dup ==> forall|j2: int| ii < j2 < j ==> bv[j2] != bv[ii as int],
                    decreases b@.len() - j,
                {
                    if !dup && b[ii] == b[j] {
                        dup = true;
                        assert(bv[j as int] == bv[ii as int]);
                    }
                    j = j + 1;
                }
                let qt = if dup {
                    QuestionType::DuplicateNodes
                } else {
                    QuestionType::DuplicateQuestions
                };
                let tqn = TypedQuestion { qtype: qt, question: clone_question(&b[ii]) };
                proof {
                    assert(dup == has_equal_later(bv, ii as int));
                    assert(classify_bucket(bv)[ii as int] == tqn@);
                    assert(classify_bucket(bv).take(ii + 1) =~= classify_bucket(bv).take(
                        ii as int,
                    ).push(tqn@));
                }
                let ghost old_out = out@;
                out.push(tqn);
                proof {
                    assert(tqviews(out@) =~= tqviews(old_out).push(tqn@));
                    assert(tqviews(out@) =~= out_base + classify_bucket(bv).take(ii + 1));
                }
                ii = ii + 1;
            }
            proof {
                assert(classify_bucket(bv).take(bv.len() as int) =~= classify_bucket(bv));
                assert(tqviews(out@) =~= cls.take(bi + 1).flatten());
            }
        }
        bi = bi + 1;
    }
    proof {
        assert(cls.take(cls.len() as int) =~= cls);
    }
    out
}

/// Counts the entries of a classified pool that carry the given tag.
pub fn count_of_type(pool: &Vec<TypedQuestion>, qtype: QuestionType) -> (n: usize)
    ensures
        n == count_type(tqviews(pool@), qtype),
{
    let mut n: usize = 0;
    let mut i: usize = 0;
    while i < pool.len()
        invariant
            i <= pool@.len(),
            n <= i,
            n == count_type(tqviews(pool@.take(i as int)), qtype),
        decreases pool@.len() - i,
    {
        proof {
            assert(tqviews(pool@.take(i + 1)) =~= tqviews(pool@.take(i as int)).push(
                pool@[i as int]@,
            ));
            lemma_filter_push(tqviews(pool@.take(i as int)), pool@[i as int]@, type_pred(qtype));
        }
        let matches_tag = match (&pool[i].qtype, &qtype) {
            (QuestionType::DuplicateNodes, QuestionType::DuplicateNodes) => true,
            (QuestionType::DuplicateQuestions, QuestionType::DuplicateQuestions) => true,
            (QuestionType::DefaultItem, QuestionType::DefaultItem) => true,
            _ => false,
        };
        if matches_tag {
            n = n + 1;
        }
        i = i + 1;
    }
    proof {
        assert(pool@.take(pool@.len() as int) =~= pool@);
    }
    n
}

/// A pool's texts are pairwise distinct.
proof fn lemma_texts_distinct(pool: Seq<QuestionV>)
    ensures
        forall|i: int, j: int|
            0 <= i < j < texts_of(pool).len() ==> texts_of(pool)[i] != texts_of(pool)[j],
    decreases pool.len(),
{
    if pool.len() > 0 {
        let p = pool.drop_last();
        lemma_texts_distinct(p);
        let q = pool.last();
        if !texts_of(p).contains(q.question) {
            assert forall|i: int, j: int|
                0 <= i < j < texts_of(pool).len() implies texts_of(pool)[i] != texts_of(
                pool,
            )[j] by {
                if j == texts_of(pool).len() - 1 {
                    assert(texts_of(p)[i] == texts_of(pool)[i]);
                }
            }
        }
    }
}

proof fn lemma_flatten_update_push<A>(bs: Seq<Seq<A>>, k: int, x: A)
    requires
        0 <= k < bs.len(),
    ensures
        bs.update(k, bs[k].push(x)).flatten().to_multiset() == bs.flatten().to_multiset().insert(
            x,
        ),
{
    broadcast use vstd::seq_lib::group_to_multiset_ensures;

    let pre = bs.take(k);
    let mid: Seq<Seq<A>> = seq![bs[k]];
    let mid2: Seq<Seq<A>> = seq![bs[k].push(x)];
    let post = bs.skip(k + 1);
    let bs2 = bs.update(k, bs[k].push(x));
    assert(bs =~= (pre + mid) + post);
    assert(bs2 =~= (pre + mid2) + post);
    lemma_flatten_concat(pre + mid, post);
    lemma_flatten_concat(pre, mid);
    lemma_flatten_concat(pre + mid2, post);
    lemma_flatten_concat(pre, mid2);
    mid.lemma_flatten_one_element();
    mid2.lemma_flatten_one_element();
    lemma_multiset_commutative(pre.flatten() + bs[k], post.flatten());
    lemma_multiset_commutative(pre.flatten(), bs[k]);
    lemma_multiset_commutative(pre.flatten() + bs[k].push(x), post.flatten());
    lemma_multiset_commutative(pre.flatten(), bs[k].push(x));
    assert(bs2.flatten().to_multiset() =~= bs.flatten().to_multiset().insert(x));
}

/// The groups of a pool, one per distinct text, together hold exactly the
/// pool's questions.
proof fn lemma_partition(pool: Seq<QuestionV>)
    ensures
        texts_of(pool).map_values(
            |t: Seq<char>| bucket_of(pool, t),
        ).flatten().to_multiset() == pool.to_multiset(),
    decreases pool.len(),
{
    broadcast use vstd::seq_lib::group_to_multiset_ensures;

    let bs = texts_of(pool).map_values(|t: Seq<char>| bucket_of(pool, t));
    if pool.len() == 0 {
        assert(texts_of(pool) =~= Seq::<Seq<char>>::empty());
        assert(bs =~= Seq::<Seq<QuestionV>>::empty());
        assert(bs.flatten() =~= Seq::<QuestionV>::empty());
        assert(bs.flatten().to_multiset() =~= pool.to_multiset());
    } else {
        let p = pool.drop_last();
        let q = pool.last();
        let t = q.question;
        lemma_partition(p);
        lemma_texts_complete(p);
        lemma_texts_distinct(p);
        let ps = texts_of(p).map_values(|u: Seq<char>| bucket_of(p, u));
        assert(pool =~= p.push(q));
        assert forall|m: int| 0 <= m < texts_of(p).len() implies bucket_of(
            pool,
            texts_of(p)[m],
        ) == (if texts_of(p)[m] == t {
            bucket_of(p, texts_of(p)[m]).push(q)
        } else {
            bucket_of(p, texts_of(p)[m])
        }) by {
            lemma_bucket_extend(p, q, texts_of(p)[m]);
        }
        if texts_of(p).contains(t) {
            assert(texts_of(pool) == texts_of(p));
            let k = choose|k: int| 0 <= k < texts_of(p).len() && texts_of(p)[k] == t;
            assert forall|m: int|
                0 <= m < texts_of(p).len() && m != k implies texts_of(p)[m] != t by {}
            assert(bs =~= ps.update(k, ps[k].push(q)));
            lemma_flatten_update_push(ps, k, q);
            assert(pool.to_multiset() =~= p.to_multiset().insert(q));
        } else {
            assert(texts_of(pool) == texts_of(p).push(t));
            assert(!pool_has_text(p, t));
            assert(forall|m: int| 0 <= m < p.len() ==> !text_pred(t)(#[trigger] p[m]));
            lemma_filter_none(p, text_pred(t));
            lemma_bucket_extend(p, q, t);
            assert(bucket_of(pool, t) =~= Seq::<QuestionV>::empty().push(q));
            assert(bs =~= ps.push(bucket_of(pool, t)));
            ps.lemma_flatten_push(bucket_of(pool, t));
            lemma_multiset_commutative(ps.flatten(), bucket_of(pool, t));
            assert(bucket_of(pool, t).to_multiset() =~= Seq::<QuestionV>::empty().to_multiset()
                .insert(q));
            assert(bs.flatten().to_multiset() =~= pool.to_multiset());
        }
    }
}

proof fn lemma_classify_bucket_questions(b: Seq<QuestionV>)
    ensures
        questions_of(classify_bucket(b)) == b,
{
    assert(questions_of(classify_bucket(b)) =~= b);
}

proof fn lemma_questions_of_flatten(ss: Seq<Seq<TypedQuestionV>>)
    ensures
        questions_of(ss.flatten()) == ss.map_values(
            |s: Seq<TypedQuestionV>| questions_of(s),
        ).flatten(),
    decreases ss.len(),
{
    let mapped = ss.map_values(|s: Seq<TypedQuestionV>| questions_of(s));
    if ss.len() == 0 {
        assert(questions_of(ss.flatten()) =~= mapped.flatten());
    } else {
        lemma_questions_of_flatten(ss.drop_first());
        assert(ss.flatten() == ss.first() + ss.drop_first().flatten());
        assert(questions_of(ss.first() + ss.drop_first().flatten()) =~= questions_of(ss.first())
            + questions_of(ss.drop_first().flatten()));
        assert(mapped.drop_first() =~= ss.drop_first().map_values(
            |s: Seq<TypedQuestionV>| questions_of(s),
        ));
        assert(mapped.flatten() == mapped.first() + mapped.drop_first().flatten());
        assert(questions_of(ss.flatten()) =~= mapped.flatten());
    }
}

/// The classified pool is a rearrangement of the input pool: taken as
/// multisets, the questions that come out of the classifier are exactly the
/// questions that went in.
pub proof fn lemma_classify_preserves_pool(pool: Seq<QuestionV>)
    ensures
        questions_of(classify_pool(pool)).to_multiset() == pool.to_multiset(),
{
    let cls = texts_of(pool).map_values(|t: Seq<char>| classify_bucket(bucket_of(pool, t)));
    lemma_questions_of_flatten(cls);
    let qcls = cls.map_values(|s: Seq<TypedQuestionV>| questions_of(s));
    let pbs = texts_of(pool).map_values(|t: Seq<char>| bucket_of(pool, t));
    assert forall|m: int| 0 <= m < cls.len() implies #[trigger] qcls[m] == pbs[m] by {
        lemma_classify_bucket_questions(bucket_of(pool, texts_of(pool)[m]));
    }
    assert(qcls =~= pbs);
    lemma_partition(pool);
}

proof fn lemma_classified_bucket_texts(pool: Seq<QuestionV>, u: Seq<char>)
    ensures
        forall|i: int|
            0 <= i < classify_bucket(bucket_of(pool, u)).len() ==> (#[trigger] classify_bucket(
                bucket_of(pool, u),
            )[i]).question.question == u,
{
    broadcast use vstd::seq_lib::group_filter_ensures;

    let b = bucket_of(pool, u);
    assert forall|i: int|
        0 <= i < classify_bucket(b).len() implies (#[trigger] classify_bucket(
        b,
    )[i]).question.question == u by {
        assert(text_pred(u)(b[i]));
        assert(classify_bucket(b)[i].question == b[i]);
    }
}

proof fn lemma_with_text_flatten(pool: Seq<QuestionV>, ts: Seq<Seq<char>>, t: Seq<char>)
    requires
        forall|i: int, j: int| 0 <= i < j < ts.len() ==> ts[i] != ts[j],
    ensures
        with_text(
            ts.map_values(|u: Seq<char>| classify_bucket(bucket_of(pool, u))).flatten(),
            t,
        ) == if ts.contains(t) {
            classify_bucket(bucket_of(pool, t))
        } else {
            Seq::<TypedQuestionV>::empty()
        },
    decreases ts.len(),
{
    broadcast use vstd::seq_lib::group_seq_lib_default;

    let cls = ts.map_values(|u: Seq<char>| classify_bucket(bucket_of(pool, u)));
    if ts.len() == 0 {
        assert(cls =~= Seq::<Seq<TypedQuestionV>>::empty());
        assert(cls.flatten() =~= Seq::<TypedQuestionV>::empty());
        lemma_filter_none(cls.flatten(), tq_text_pred(t));
        assert(!ts.contains(t));
    } else {
        let ts0 = ts.drop_last();
        let u = ts.last();
        let cls0 = ts0.map_values(|u2: Seq<char>| classify_bucket(bucket_of(pool, u2)));
        lemma_with_text_flatten(pool, ts0, t);
        assert(cls =~= cls0.push(classify_bucket(bucket_of(pool, u))));
        cls0.lemma_flatten_push(classify_bucket(bucket_of(pool, u)));
        let cb_u = classify_bucket(bucket_of(pool, u));
        Seq::filter_distributes_over_add(cls0.flatten(), cb_u, tq_text_pred(t));
        lemma_classified_bucket_texts(pool, u);
        if u == t {
            assert(forall|i: int| 0 <= i < cb_u.len() ==> tq_text_pred(t)(#[trigger] cb_u[i]));
            lemma_filter_all(cb_u, tq_text_pred(t));
            assert(ts.contains(t)) by {
                assert(ts[ts.len() - 1] == t);
            }
            assert(!ts0.contains(t)) by {
                if ts0.contains(t) {
                    let m = choose|m: int| 0 <= m < ts0.len() && ts0[m] == t;
                    assert(ts[m] == ts[ts.len() - 1]);
                    assert(false);
                }
            }
            assert(with_text(cls.flatten(), t) =~= cb_u);
        } else {
            assert(forall|i: int| 0 <= i < cb_u.len() ==> !tq_text_pred(t)(#[trigger] cb_u[i]));
            lemma_filter_none(cb_u, tq_text_pred(t));
            assert(ts.contains(t) == ts0.contains(t)) by {
                if ts0.contains(t) {
                    let m = choose|m: int| 0 <= m < ts0.len() && ts0[m] == t;
                    assert(ts[m] == t);
                }
                if ts.contains(t) {
                    let m = choose|m: int| 0 <= m < ts.len() && ts[m] == t;
                    assert(m < ts.len() - 1);
                    assert(ts0[m] == t);
                }
            }
            assert(with_text(cls.flatten(), t) =~= with_text(cls0.flatten(), t));
        }
    }
}

/// The classified entries bearing text `t` are exactly the classification of
/// the group of `t`, or nothing when no pool entry bears `t`.
pub proof fn lemma_with_text_of_classify(pool: Seq<QuestionV>, t: Seq<char>)
    ensures
        with_text(classify_pool(pool), t) == if pool_has_text(pool, t) {
            classify_bucket(bucket_of(pool, t))
        } else {
            Seq::<TypedQuestionV>::empty()
        },
{
    lemma_texts_distinct(pool);
    lemma_texts_complete(pool);
    lemma_with_text_flatten(pool, texts_of(pool), t);
}

/// A question text that appears exactly once in the pool yields exactly one
/// classified entry with that text; it is the question itself, tagged unique,
/// so no duplicate tag carries that text.
pub proof fn lemma_unique_text_classified(pool: Seq<QuestionV>, t: Seq<char>)
    requires
        bucket_of(pool, t).len() == 1,
    ensures
        with_text(classify_pool(pool), t) == seq![
            TypedQuestionV { qtype: QuestionType::DefaultItem, question: bucket_of(pool, t)[0] },
        ],
{
    lemma_with_text_of_classify(pool, t);
    if !pool_has_text(pool, t) {
        assert(forall|m: int| 0 <= m < pool.len() ==> !text_pred(t)(#[trigger] pool[m]));
        lemma_filter_none(pool, text_pred(t));
        assert(false);
    }
}

/// In a group of two or more entries that are equal in every field, every
/// entry but the last is tagged a full duplicate; the last entry, which no
/// later entry copies, is tagged a duplicate by text.
pub proof fn lemma_identical_bucket_tags(pool: Seq<QuestionV>, t: Seq<char>)
    requires
        bucket_of(pool, t).len() >= 2,
        forall|i: int, j: int|
            0 <= i < bucket_of(pool, t).len() && 0 <= j < bucket_of(pool, t).len() ==> bucket_of(
                pool,
                t,
            )[i] == bucket_of(pool, t)[j],
    ensures
        with_text(classify_pool(pool), t).len() == bucket_of(pool, t).len(),
        forall|i: int|
            0 <= i < bucket_of(pool, t).len() - 1 ==> #[trigger] with_text(
                classify_pool(pool),
                t,
            )[i].qtype == QuestionType::DuplicateNodes,
        with_text(classify_pool(pool), t).last().qtype == QuestionType::DuplicateQuestions,
{
    lemma_with_text_of_classify(pool, t);
    let b = bucket_of(pool, t);
    if !pool_has_text(pool, t) {
        assert(forall|m: int| 0 <= m < pool.len() ==> !text_pred(t)(#[trigger] pool[m]));
        lemma_filter_none(pool, text_pred(t));
        assert(false);
    }
    assert forall|i: int| 0 <= i < b.len() - 1 implies has_equal_later(b, i) by {
        assert(b[i + 1] == b[i]);
    }
    assert(!has_equal_later(b, b.len() - 1));
}

/// In a group of two or more entries that share their question text but of
/// which no two are equal in every field, every entry is tagged a duplicate
/// by text and none a full duplicate.
pub proof fn lemma_text_only_duplicates(pool: Seq<QuestionV>, t: Seq<char>)
    requires
        bucket_of(pool, t).len() >= 2,
        forall|i: int, j: int|
            0 <= i < j < bucket_of(pool, t).len() ==> bucket_of(pool, t)[i] != bucket_of(
                pool,
                t,
            )[j],
    ensures
        with_text(classify_pool(pool), t).len() == bucket_of(pool, t).len(),
        forall|i: int|
            0 <= i < bucket_of(pool, t).len() ==> #[trigger] with_text(
                classify_pool(pool),
                t,
            )[i].qtype == QuestionType::DuplicateQuestions,
{
    lemma_with_text_of_classify(pool, t);
    let b = bucket_of(pool, t);
    if !pool_has_text(pool, t) {
        assert(forall|m: int| 0 <= m < pool.len() ==> !text_pred(t)(#[trigger] pool[m]));
        lemma_filter_none(pool, text_pred(t));
        assert(false);
    }
    assert forall|i: int| 0 <= i < b.len() implies !has_equal_later(b, i) by {
        if has_equal_later(b, i) {
            let j = choose|j: int| i < j < b.len() && b[j] == b[i];
            assert(false);
        }
    }
}

} // verus!
