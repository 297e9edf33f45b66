//! The question data model: a multiple-choice question, its duplicate class,
//! and the pairing of the two.

use vstd::prelude::*;

verus! {

/// The mathematical value of a [`Question`]: every text field as a sequence
/// of characters.
#[verifier::ext_equal]
pub struct QuestionV {
    pub question: Seq<char>,
    pub answer: Seq<char>,
    pub hint: Option<Seq<char>>,
    pub options: Seq<Seq<char>>,
}

/// One multiple-choice question.  `options` is meant to hold exactly four
/// entries; `answer` is the canonical correct text; a missing `hint` is
/// rendered as "no hint available".
#[derive(Clone, Debug)]
pub struct Question {
    pub question: String,
    pub answer: String,
    pub hint: Option<String>,
    pub options: Vec<String>,
}

impl View for Question {
    type V = QuestionV;

    open spec fn view(&self) -> QuestionV {
        QuestionV {
            question: self.question@,
            answer: self.answer@,
            hint: self.hint.deep_view(),
            options: self.options.deep_view(),
        }
    }
}

/// The views of the questions of a pool, in pool order.
pub open spec fn qviews(s: Seq<Question>) -> Seq<QuestionV> {
    s.map_values(|q: Question| q@)
}

impl Question {
    /// A blank question: empty texts, no hint, four empty options.
    pub fn new() -> (r: Self)
        ensures
            r@.question == Seq::<char>::empty(),
            r@.answer == Seq::<char>::empty(),
            r@.hint is None,
            r@.options.len() == 4,
            forall|i: int| 0 <= i < 4 ==> r@.options[i] == Seq::<char>::empty(),
    {
        let mut options: Vec<String> = Vec::new();
        options.push(String::new());
        options.push(String::new());
        options.push(String::new());
        options.push(String::new());
        Question { question: String::new(), answer: String::new(), hint: None, options }
    }
}

impl PartialEq for Question {
    fn eq(&self, other: &Self) -> (r: bool) {
        if !(self.question == other.question && self.answer == other.answer) {
            return false;
        }
        let hints_match = match (&self.hint, &other.hint) {
            (Some(a), Some(b)) => *a == *b,
            (None, None) => true,
            _ => false,
        };
        if !hints_match {
            assert(self@.hint != other@.hint);
            return false;
        }
        if self.options.len() != other.options.len() {
            assert(self@.options.len() != other@.options.len());
            return false;
        }
        let mut i: usize = 0;
        while i < self.options.len()
            invariant
                i <= self.options.len(),
                self.options@.len() == other.options@.len(),
                forall|j: int| 0 <= j < i ==> self.options@[j]@ == other.options@[j]@,
            decreases self.options.len() - i,
        {
            if !(self.options[i] == other.options[i]) {
                assert(self@.options[i as int] != other@.options[i as int]);
                return false;
            }
            i = i + 1;
        }
        assert(self@.options =~= other@.options);
        assert(self@ =~= other@);
        true
    }
}

impl vstd::std_specs::cmp::PartialEqSpecImpl for Question {
    open spec fn obeys_eq_spec() -> bool {
        true
    }

    open spec fn eq_spec(&self, other: &Self) -> bool {
        self@ == other@
    }
}

/// The duplicate class of a question within its pool.
#[derive(Clone, Debug, PartialEq, Eq, Structural)]
pub enum QuestionType {
    /// Another pool entry shares the question text and every other field.
    DuplicateNodes,
    /// Another pool entry shares the question text but differs elsewhere.
    DuplicateQuestions,
    /// The question text appears exactly once in the pool.
    DefaultItem,
}

/// The mathematical value of a [`TypedQuestion`].
#[verifier::ext_equal]
pub struct TypedQuestionV {
    pub qtype: QuestionType,
    pub question: QuestionV,
}

/// A question paired with its duplicate class.
#[derive(Clone, Debug)]
pub struct TypedQuestion {
    pub qtype: QuestionType,
    pub question: Question,
}

impl View for TypedQuestion {
    type V = TypedQuestionV;

    open spec fn view(&self) -> TypedQuestionV {
        TypedQuestionV { qtype: self.qtype, question: self.question@ }
    }
}

/// The views of a classified pool, in order.
pub open spec fn tqviews(s: Seq<TypedQuestion>) -> Seq<TypedQuestionV> {
    s.map_values(|tq: TypedQuestion| tq@)
}

impl TypedQuestion {
    /// A placeholder pairing: a blank question classed as unique.
    pub fn new() -> (r: Self)
        ensures
            r@.qtype == QuestionType::DefaultItem,
            r@.question.question == Seq::<char>::empty(),
            r@.question.answer == Seq::<char>::empty(),
            r@.question.hint is None,
            r@.question.options.len() == 4,
    {
        TypedQuestion { qtype: QuestionType::DefaultItem, question: Question::new() }
    }
}

impl PartialEq for TypedQuestion {
    fn eq(&self, other: &Self) -> (r: bool) {
        let types_match = match (&self.qtype, &other.qtype) {
            (QuestionType::DuplicateNodes, QuestionType::DuplicateNodes) => true,
            (QuestionType::DuplicateQuestions, QuestionType::DuplicateQuestions) => true,
            (QuestionType::DefaultItem, QuestionType::DefaultItem) => true,
            _ => false,
        };
        types_match && self.question == other.question
    }
}

impl vstd::std_specs::cmp::PartialEqSpecImpl for TypedQuestion {
    open spec fn obeys_eq_spec() -> bool {
        true
    }

    open spec fn eq_spec(&self, other: &Self) -> bool {
        self@ == other@
    }
}

/// Copies a question; the copy has the same mathematical value.
pub fn clone_question(q: &Question) -> (r: Question)
    ensures
        r@ == q@,
{
    let mut options: Vec<String> = Vec::new();
    let mut i: usize = 0;
    while i < q.options.len()
        invariant
            i <= q.options@.len(),
            options@.len() == i,
            forall|j: int| 0 <= j < i ==> options@[j]@ == q.options@[j]@,
        decreases q.options@.len() - i,
    {
        options.push(q.options[i].clone());
        i = i + 1;
    }
    let hint = match &q.hint {
        Some(h) => Some(h.clone()),
        None => None,
    };
    let r = Question { question: q.question.clone(), answer: q.answer.clone(), hint, options };
    assert(r@.options =~= q@.options);
    assert(r@ =~= q@);
    r
}

/// Copies a classified question; the copy has the same mathematical value.
pub fn clone_typed_question(tq: &TypedQuestion) -> (r: TypedQuestion)
    ensures
        r@ == tq@,
{
    let qtype = match &tq.qtype {
        QuestionType::DuplicateNodes => QuestionType::DuplicateNodes,
        QuestionType::DuplicateQuestions => QuestionType::DuplicateQuestions,
        QuestionType::DefaultItem => QuestionType::DefaultItem,
    };
    TypedQuestion { qtype, question: clone_question(&tq.question) }
}

/// Looks up the first question of the pool with the given question text.
pub fn find_by_question_text(pool: &Vec<Question>, text: &String) -> (r: Option<Question>)
    ensures
        match r {
            Some(q) => exists|i: int|
                0 <= i < pool@.len() && q@ == pool@[i]@ && pool@[i]@.question == text@ && forall|
                    j: int,
                | 0 <= j < i ==> pool@[j]@.question != text@,
            None => forall|i: int| 0 <= i < pool@.len() ==> pool@[i]@.question != text@,
        },
{
    let mut i: usize = 0;
    while i < pool.len()
        invariant
            i <= pool@.len(),
            forall|j: int| 0 <= j < i ==> pool@[j]@.question != text@,
        decreases pool@.len() - i,
    {
        if pool[i].question == *text {
            return Some(clone_question(&pool[i]));
        }
        i = i + 1;
    }
    None
}

/// The error of a failed pool lookup.
#[derive(Clone, Debug, PartialEq, Eq, Structural)]
pub enum LookupError {
    /// No pool entry has the requested question text.
    NotFound,
}

impl LookupError {
    /// The diagnostic text of this error.
    pub fn message(&self) -> (r: String)
        ensures
            r@ == "Question not found"@,
    {
        "Question not found".to_owned()
    }
}

/// Finds the pool entry that shares `question`'s text, as the completed form
/// of a partially filled question.  Fails if and only if no entry of the pool
/// has that text.
pub fn get_filled_question(pool: &Vec<Question>, question: &Question) -> (r: Result<
    Question,
    LookupError,
>)
    ensures
        match r {
            Ok(q) => exists|i: int|
                0 <= i < pool@.len() && q@ == pool@[i]@ && pool@[i]@.question == question@.question,
            Err(e) => e == LookupError::NotFound && forall|i: int|
                0 <= i < pool@.len() ==> pool@[i]@.question != question@.question,
        },
{
    match find_by_question_text(pool, &question.question) {
        Some(q) => Ok(q),
        None => Err(LookupError::NotFound),
    }
}

/// The position of the first line feed of `s` at or after `i`, or the
/// text's length when there is none.
pub open spec fn nl_from(s: Seq<char>, i: int) -> int
    decreases s.len() - i,
{
    if 0 <= i < s.len() && s[i] != '\n' {
        nl_from(s, i + 1)
    } else if 0 <= i < s.len() {
        i
    } else {
        s.len() as int
    }
}

/// The text split at line feeds; a trailing line feed yields a final empty
/// part, as splitting does.
pub open spec fn split_lines(s: Seq<char>) -> Seq<Seq<char>>
    decreases s.len() via split_lines_decreases
{
    let e = nl_from(s, 0);
    if e == s.len() {
        seq![s]
    } else {
        seq![s.take(e)] + split_lines(s.skip(e + 1))
    }
}

proof fn lemma_nl_from_bounds(s: Seq<char>, i: int)
    requires
        0 <= i <= s.len(),
    ensures
        i <= nl_from(s, i) <= s.len(),
    decreases s.len() - i,
{
    if 0 <= i < s.len() && s[i] != '\n' {
        lemma_nl_from_bounds(s, i + 1);
    }
}

#[via_fn]
proof fn split_lines_decreases(s: Seq<char>) {
    lemma_nl_from_bounds(s, 0);
}

/// Whether a raw line is one of the option labels the importer recognizes.
pub open spec fn is_label(p: Seq<char>) -> bool {
    p == seq!['A'] || p == seq!['"', 'A', ',', '"']
}

/// The position of the first label line at or after `k`, or the number of
/// lines when there is none.
pub open spec fn first_label(parts: Seq<Seq<char>>, k: int) -> int
    decreases parts.len() - k,
{
    if 0 <= k < parts.len() {
        if is_label(parts[k]) {
            k
        } else {
            first_label(parts, k + 1)
        }
    } else {
        parts.len() as int
    }
}

/// The question text: the first line and every further line before the
/// first label, each trimmed, joined with single spaces.
pub open spec fn joined_question(parts: Seq<Seq<char>>, k: int) -> Seq<char>
    decreases k,
{
    if k <= 0 {
        crate::text::trimmed(parts[0])
    } else {
        joined_question(parts, k - 1) + seq![' '] + crate::text::trimmed(parts[k])
    }
}

/// The trimmed lines at the odd positions of the option region: each label
/// line is followed by its option's text.
pub open spec fn odd_options(rem: Seq<Seq<char>>) -> Seq<Seq<char>> {
    Seq::new((rem.len() / 2) as nat, |k: int| crate::text::trimmed(rem[2 * k + 1]))
}

/// What the importer reads from a clipboard text: the question text up to
/// the first label line, then four `(label, option)` line pairs; the answer
/// is left empty and there is no hint.  Fails on a text of fewer than two
/// lines, and when the option region does not hold exactly four pairs.
pub open spec fn clip_parse(text: Seq<char>) -> Result<QuestionV, ClipboardError> {
    let parts = split_lines(text);
    if parts.len() < 2 {
        Err(ClipboardError::InvalidFormat)
    } else {
        let start = first_label(parts, 1);
        let rem = parts.skip(start);
        let rem2 = if rem.len() > 0 && rem.last().len() == 0 {
            rem.drop_last()
        } else {
            rem
        };
        if rem2.len() / 2 != 4 {
            Err(ClipboardError::InvalidOptionCount)
        } else {
            Ok(
                QuestionV {
                    question: joined_question(parts, start - 1),
                    answer: Seq::empty(),
                    hint: None,
                    options: odd_options(rem2),
                },
            )
        }
    }
}

/// The errors of the clipboard importer.
#[derive(Clone, Copy, Debug, PartialEq, Eq, Structural)]
pub enum ClipboardError {
    /// The clipboard text has fewer than two lines.
    InvalidFormat,
    /// The option region does not hold exactly four labelled options.
    InvalidOptionCount,
}

impl ClipboardError {
    /// The diagnostic text of this error.
    pub fn message(&self) -> (r: String)
        ensures
            r@ == (match self {
                ClipboardError::InvalidFormat => "Invalid question format"@,
                ClipboardError::InvalidOptionCount => "Invalid number of options"@,
            }),
    {
        match self {
            ClipboardError::InvalidFormat => "Invalid question format".to_owned(),
            ClipboardError::InvalidOptionCount => "Invalid number of options".to_owned(),
        }
    }
}

proof fn lemma_nl_scan(s: Seq<char>, a: int, b: int)
    requires
        0 <= a <= b <= s.len(),
        forall|m: int| a <= m < b ==> s[m] != '\n',
        b < s.len() ==> s[b] == '\n',
    ensures
        nl_from(s, a) == b,
    decreases b - a,
{
    if a < b {
        lemma_nl_scan(s, a + 1, b);
    }
}

proof fn lemma_label_scan(parts: Seq<Seq<char>>, a: int, b: int)
    requires
        0 <= a <= b <= parts.len(),
        forall|m: int| a <= m < b ==> !is_label(#[trigger] parts[m]),
        b < parts.len() ==> is_label(parts[b]),
    ensures
        first_label(parts, a) == b,
    decreases b - a,
{
    if a < b {
        lemma_label_scan(parts, a + 1, b);
    }
}

/// Splits a text at line feeds.
fn split_text_lines(chars: &Vec<char>) -> (parts: Vec<Vec<char>>)
    ensures
        crate::json::cviews(parts@) == split_lines(chars@),
        parts@.len() >= 1,
{
    let mut parts: Vec<Vec<char>> = Vec::new();
    let mut cur: Vec<char> = Vec::new();
    let mut cs: usize = 0;
    let mut i: usize = 0;
    proof {
        assert(chars@.skip(0int) =~= chars@);
        assert(crate::json::cviews(parts@) =~= Seq::<Seq<char>>::empty());
    }
    while i < chars.len()
        invariant
            cs <= i <= chars@.len(),
            cur@ == chars@.subrange(cs as int, i as int),
            forall|m: int| cs <= m < i ==> chars@[m] != '\n',
            split_lines(chars@) == crate::json::cviews(parts@) + split_lines(
                chars@.skip(cs as int),
            ),
        decreases chars@.len() - i,
    {
        let c = chars[i];
        if c == '\n' {
            proof {
                let tail = chars@.skip(cs as int);
                assert forall|m: int| 0 <= m < i - cs implies tail[m] != '\n' by {
                    assert(tail[m] == chars@[cs + m]);
                }
                assert(tail[i - cs] == '\n');
                lemma_nl_scan(tail, 0, i - cs);
                assert(nl_from(tail, 0) == i - cs);
                assert(tail.take(i - cs) =~= chars@.subrange(cs as int, i as int));
                assert(tail.skip(i - cs + 1) =~= chars@.skip(i + 1));
                assert(split_lines(tail) == seq![cur@] + split_lines(chars@.skip(i + 1)));
            }
            let ghost old_parts = parts@;
            parts.push(cur);
            proof {
                assert(crate::json::cviews(parts@) =~= crate::json::cviews(old_parts) + seq![
                    cur@,
                ]);
            }
            cur = Vec::new();
            cs = i + 1;
        } else {
            cur.push(c);
            proof {
                assert(cur@ =~= chars@.subrange(cs as int, i + 1));
            }
        }
        i = i + 1;
    }
    proof {
        let tail = chars@.skip(cs as int);
        assert forall|m: int| 0 <= m < tail.len() implies tail[m] != '\n' by {
            assert(tail[m] == chars@[cs + m]);
        }
        lemma_nl_scan(tail, 0, tail.len() as int);
        assert(nl_from(tail, 0) == tail.len());
        assert(tail =~= chars@.subrange(cs as int, chars@.len() as int));
        assert(split_lines(tail) == seq![tail]);
        assert(cur@ =~= tail);
    }
    let ghost old_parts = parts@;
    parts.push(cur);
    proof {
        assert(crate::json::cviews(parts@) =~= crate::json::cviews(old_parts) + seq![cur@]);
        assert(crate::json::cviews(parts@) =~= split_lines(chars@));
    }
    parts
}

/// Reads a clipboard text as a question: the question text (possibly over
/// several lines) up to the first label line, then four labelled options.
/// The answer comes back empty and the hint absent, as the importer leaves
/// them for completion.
pub fn create_question_from_text(text: &str) -> (r: Result<Question, ClipboardError>)
    ensures
        match r {
            Ok(q) => clip_parse(text@) == Ok::<QuestionV, ClipboardError>(q@),
            Err(e) => clip_parse(text@) == Err::<QuestionV, ClipboardError>(e),
        },
{
    let chars = crate::text::chars_of(text);
    let parts = split_text_lines(&chars);
    let ghost pv = crate::json::cviews(parts@);
    if parts.len() < 2 {
        return Err(ClipboardError::InvalidFormat);
    }
    // Find the first label line.
    let mut label_a: Vec<char> = Vec::new();
    label_a.push('A');
    let mut label_b: Vec<char> = Vec::new();
    label_b.push('"');
    label_b.push('A');
    label_b.push(',');
    label_b.push('"');
    proof {
        assert(label_a@ =~= seq!['A']);
        assert(label_b@ =~= seq!['"', 'A', ',', '"']);
    }
    let mut start: usize = 1;
    while start < parts.len() && !(crate::text::chars_eq(&parts[start], &label_a)
        || crate::text::chars_eq(&parts[start], &label_b))
        invariant
            1 <= start <= parts@.len(),
            pv == crate::json::cviews(parts@),
            pv.len() == parts@.len(),
            label_a@ == seq!['A'],
            label_b@ == seq!['"', 'A', ',', '"'],
            forall|m: int| 1 <= m < start ==> !is_label(#[trigger] pv[m]),
        decreases parts@.len() - start,
    {
        start = start + 1;
    }
    proof {
        lemma_label_scan(pv, 1, start as int);
        assert(first_label(pv, 1) == start);
    }
    // The question text: first line and continuation lines, trimmed, joined.
    let mut qt = crate::text::trim_chars(&parts[0]);
    let mut m: usize = 1;
    while m < start
        invariant
            1 <= m <= start <= parts@.len(),
            pv == crate::json::cviews(parts@),
            pv.len() == parts@.len(),
            qt@ == joined_question(pv, m as int - 1),
        decreases start - m,
    {
        qt.push(' ');
        let tm = crate::text::trim_chars(&parts[m]);
        crate::text::append_chars(&mut qt, &tm);
        proof {
            assert(qt@ =~= joined_question(pv, m as int));
        }
        m = m + 1;
    }
    // The option region: drop a final empty line, then take the text under
    // each label.
    let ghost rem = pv.skip(start as int);
    let mut rem_len: usize = parts.len() - start;
    if rem_len > 0 && parts[parts.len() - 1].len() == 0 {
        rem_len = rem_len - 1;
        proof {
            assert(rem.last() == pv[pv.len() - 1]);
            assert(rem.last().len() == 0);
        }
    }
    let ghost rem2 = (if rem.len() > 0 && rem.last().len() == 0 {
        rem.drop_last()
    } else {
        rem
    });
    proof {
        assert(rem2.len() == rem_len);
        assert(forall|k: int| 0 <= k < rem2.len() ==> #[trigger] rem2[k] == pv[start + k]);
    }
    if rem_len / 2 != 4 {
        return Err(ClipboardError::InvalidOptionCount);
    }
    let mut options: Vec<String> = Vec::new();
    let mut k: usize = 0;
    while k < 4
        invariant
            k <= 4,
            pv == crate::json::cviews(parts@),
            pv.len() == parts@.len(),
            parts@.len() <= usize::MAX,
            start + rem_len <= parts@.len(),
            rem_len / 2 == 4,
            rem2.len() == rem_len,
            forall|t: int| 0 <= t < rem2.len() ==> #[trigger] rem2[t] == pv[start + t],
            options@.len() == k,
            forall|t: int| 0 <= t < k ==> options@[t]@ == #[trigger] odd_options(rem2)[t],
        decreases 4 - k,
    {
        let idx = start + 2 * k + 1;
        let tv = crate::text::trim_chars(&parts[idx]);
        options.push(crate::text::string_from_chars(&tv));
        proof {
            assert(odd_options(rem2)[k as int] == crate::text::trimmed(rem2[2 * k + 1]));
        }
        k = k + 1;
    }
    let q = Question {
        question: crate::text::string_from_chars(&qt),
        answer: String::new(),
        hint: None,
        options,
    };
    proof {
        assert(q@.options =~= odd_options(rem2));
        assert(q@ =~= (match clip_parse(text@) {
            Ok(qv) => qv,
            Err(_) => q@,
        }));
    }
    Ok(q)
}

/// Builds the sample pairing used when exercising the terminal by hand: a
/// deliberately mismatched geography question classed as a duplicate.
pub fn test_typed_question() -> (r: TypedQuestion)
    ensures
        r@.qtype == QuestionType::DuplicateQuestions,
        r@.question.question == "What is the capital of Burkina Faso?"@,
        r@.question.answer == "Paris"@,
        r@.question.hint == Some("It's a city in France"@),
        r@.question.options == seq![
            "Paris"@,
            "Ouagadougou"@,
            "Berlin"@,
            "Madrid"@,
        ],
{
    let mut options: Vec<String> = Vec::new();
    options.push("Paris".to_owned());
    options.push("Ouagadougou".to_owned());
    options.push("Berlin".to_owned());
    options.push("Madrid".to_owned());
    let question = Question {
        question: "What is the capital of Burkina Faso?".to_owned(),
        answer: "Paris".to_owned(),
        hint: Some("It's a city in France".to_owned()),
        options,
    };
    let r = TypedQuestion { qtype: QuestionType::DuplicateQuestions, question };
    assert(r@.question.options =~= seq!["Paris"@, "Ouagadougou"@, "Berlin"@, "Madrid"@]);
    r
}

} // verus!
