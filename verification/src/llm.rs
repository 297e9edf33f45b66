//! Completion of an imported question by a generative model.
//!
//! The model call itself happens outside the library.  This module builds
//! the prompt sent to the model, cleans the reply (stripping code fences and
//! doubled escapes, as the model tends to produce them), reads the reply's
//! JSON (`hint` and `option_number`, in either order), and applies the
//! result to the question.  Any reply that cannot be read degrades to option
//! one with a placeholder hint; a reply naming option zero degrades to
//! option one with its own placeholder.

use vstd::prelude::*;
use crate::questions::{Question, QuestionV, clone_question};
use crate::text::{chars_of, string_from_chars, trim_chars, trimmed, dec_str};
use crate::json::{ws_end, sp_string, sp_key, key_hint, p_ws, p_string, p_key, hint_key};
use crate::text::{is_digit, digits_val, parse_decimal};

verus! {

/// The shape of the model's reply: a hint and an option number.
#[derive(Clone, Debug)]
pub struct OllamaJson {
    pub hint: String,
    pub option_number: usize,
}

/// The mathematical value of an [`OllamaJson`].
#[verifier::ext_equal]
pub struct OllamaJsonV {
    pub hint: Seq<char>,
    pub option_number: nat,
}

impl View for OllamaJson {
    type V = OllamaJsonV;

    open spec fn view(&self) -> OllamaJsonV {
        OllamaJsonV { hint: self.hint@, option_number: self.option_number as nat }
    }
}

// ---------------------------------------------------------------------------
// Cleaning the reply.
// ---------------------------------------------------------------------------
/// `s` with every leading copy of `pat` removed.
pub open spec fn strip_start_all(s: Seq<char>, pat: Seq<char>) -> Seq<char>
    decreases s.len(),
{
    if pat.len() > 0 && s.len() >= pat.len() && s.take(pat.len() as int) == pat {
        strip_start_all(s.skip(pat.len() as int), pat)
    } else {
        s
    }
}

/// `s` with every trailing copy of `pat` removed.
pub open spec fn strip_end_all(s: Seq<char>, pat: Seq<char>) -> Seq<char>
    decreases s.len(),
{
    if pat.len() > 0 && s.len() >= pat.len() && s.skip(s.len() - pat.len()) == pat {
        strip_end_all(s.take(s.len() - pat.len()), pat)
    } else {
        s
    }
}

/// `s` with every occurrence of `pat` replaced by `rep`, scanning left to
/// right without overlap.
pub open spec fn replace_all(s: Seq<char>, pat: Seq<char>, rep: Seq<char>) -> Seq<char>
    decreases s.len(),
{
    if pat.len() == 0 || s.len() == 0 {
        s
    } else if s.len() >= pat.len() && s.take(pat.len() as int) == pat {
        rep + replace_all(s.skip(pat.len() as int), pat, rep)
    } else {
        seq![s[0]] + replace_all(s.drop_first(), pat, rep)
    }
}

/// The model's reply after cleaning: trimmed, fences stripped, doubled
/// newline and underscore escapes undone.
pub open spec fn cleaned_of(resp: Seq<char>) -> Seq<char> {
    let t = trimmed(resp);
    let a = strip_start_all(t, seq!['`', '`', '`', 'j', 's', 'o', 'n', '\n']);
    let b = strip_end_all(a, seq!['\n', '`', '`', '`']);
    let c = replace_all(b, seq!['\\', 'n'], seq!['\n']);
    replace_all(c, seq!['\\', '_'], seq!['_'])
}

fn match_at(s: &Vec<char>, i: usize, pat: &Vec<char>) -> (r: bool)
    requires
        i <= s@.len(),
    ensures
        r == (i + pat@.len() <= s@.len() && s@.subrange(i as int, i + pat@.len()) == pat@),
{
    if s.len() - i < pat.len() {
        return false;
    }
    let mut m: usize = 0;
    while m < pat.len()
        invariant
            m <= pat@.len(),
            s@.len() <= usize::MAX,
            i + pat@.len() <= s@.len(),
            forall|t: int| 0 <= t < m ==> s@[i + t] == pat@[t],
        decreases pat@.len() - m,
    {
        if s[i + m] != pat[m] {
            proof {
                assert(s@.subrange(i as int, i + pat@.len())[m as int] == s@[i + m]);
            }
            return false;
        }
        m = m + 1;
    }
    proof {
        assert(s@.subrange(i as int, i + pat@.len()) =~= pat@);
    }
    true
}

fn strip_fences(t: &Vec<char>) -> (r: Vec<char>)
    ensures
        r@ == strip_end_all(
            strip_start_all(t@, seq!['`', '`', '`', 'j', 's', 'o', 'n', '\n']),
            seq!['\n', '`', '`', '`'],
        ),
{
    let mut spat: Vec<char> = Vec::new();
    spat.push('`');
    spat.push('`');
    spat.push('`');
    spat.push('j');
    spat.push('s');
    spat.push('o');
    spat.push('n');
    spat.push('\n');
    proof {
        assert(spat@ =~= seq!['`', '`', '`', 'j', 's', 'o', 'n', '\n']);
    }
    let mut epat: Vec<char> = Vec::new();
    epat.push('\n');
    epat.push('`');
    epat.push('`');
    epat.push('`');
    proof {
        assert(epat@ =~= seq!['\n', '`', '`', '`']);
    }
    let mut st: usize = 0;
    proof {
        assert(t@.skip(0int) =~= t@);
    }
    while st < t.len() && t.len() - st >= 8 && match_at(t, st, &spat)
        invariant
            st <= t@.len(),
            spat@ == seq!['`', '`', '`', 'j', 's', 'o', 'n', '\n'],
            epat@ == seq!['\n', '`', '`', '`'],
            strip_start_all(t@, spat@) == strip_start_all(t@.skip(st as int), spat@),
        decreases t@.len() - st,
    {
        proof {
            assert(t@.skip(st as int).take(8) =~= t@.subrange(st as int, st + 8));
            assert(t@.skip(st as int).skip(8) =~= t@.skip(st + 8));
        }
        st = st + 8;
    }
    proof {
        if st + 8 <= t@.len() {
            assert(t@.skip(st as int).take(8) =~= t@.subrange(st as int, st + 8));
        }
        assert(strip_start_all(t@.skip(st as int), spat@) == t@.skip(st as int));
    }
    let ghost a = t@.skip(st as int);
    let mut en: usize = t.len();
    while en - st >= 4 && match_at(t, en - 4, &epat)
        invariant
            st <= en <= t@.len(),
            spat@ == seq!['`', '`', '`', 'j', 's', 'o', 'n', '\n'],
            epat@ == seq!['\n', '`', '`', '`'],
            a == t@.skip(st as int),
            strip_end_all(a, epat@) == strip_end_all(t@.subrange(st as int, en as int), epat@),
        decreases en,
    {
        proof {
            let cur = t@.subrange(st as int, en as int);
            assert(cur.skip(cur.len() - 4) =~= t@.subrange(en - 4, en as int));
            assert(t@.subrange(en - 4, en as int) =~= t@.subrange(st as int, en as int).skip(
                en - st - 4,
            ));
            assert(cur.take(cur.len() - 4) =~= t@.subrange(st as int, en - 4));
        }
        en = en - 4;
    }
    proof {
        let cur = t@.subrange(st as int, en as int);
        if en - st >= 4 {
            assert(cur.skip(cur.len() - 4) =~= t@.subrange(en - 4, en as int));
        }
        assert(strip_end_all(cur, epat@) == cur);
        assert(a =~= t@.subrange(st as int, t@.len() as int));
    }
    let mut r: Vec<char> = Vec::new();
    let mut i: usize = st;
    while i < en
        invariant
            st <= i <= en <= t@.len(),
            r@ == t@.subrange(st as int, i as int),
        decreases en - i,
    {
        r.push(t[i]);
        proof {
            assert(r@ =~= t@.subrange(st as int, i + 1));
        }
        i = i + 1;
    }
    r
}

fn replace_chars(s: &Vec<char>, pat: &Vec<char>, rep: &Vec<char>) -> (r: Vec<char>)
    requires
        pat@.len() > 0,
    ensures
        r@ == replace_all(s@, pat@, rep@),
{
    let mut r: Vec<char> = Vec::new();
    proof {
        assert(s@.skip(0int) =~= s@);
        assert(Seq::<char>::empty() + replace_all(s@, pat@, rep@) =~= replace_all(s@, pat@, rep@));
    }
    let mut i: usize = 0;
    while i < s.len()
        invariant
            i <= s@.len(),
            pat@.len() > 0,
            replace_all(s@, pat@, rep@) == r@ + replace_all(s@.skip(i as int), pat@, rep@),
        decreases s@.len() - i,
    {
        if match_at(s, i, pat) {
            let mut m: usize = 0;
            proof {
                assert(s@.skip(i as int).take(pat@.len() as int) =~= s@.subrange(
                    i as int,
                    i + pat@.len(),
                ));
                assert(s@.skip(i as int).skip(pat@.len() as int) =~= s@.skip(i + pat@.len()));
            }
            let ghost base_r = r@;
            proof {
                assert(rep@.take(0int) =~= Seq::<char>::empty());
                assert(r@ =~= base_r + rep@.take(0int));
            }
            while m < rep.len()
                invariant
                    m <= rep@.len(),
                    r@ == base_r + rep@.take(m as int),
                decreases rep@.len() - m,
            {
                r.push(rep[m]);
                proof {
                    assert(r@ =~= base_r + rep@.take(m + 1));
                }
                m = m + 1;
            }
            proof {
                assert(rep@.take(rep@.len() as int) =~= rep@);
            }
            i = i + pat.len();
        } else {
            proof {
                if s@.skip(i as int).len() >= pat@.len() {
                    assert(s@.skip(i as int).take(pat@.len() as int) =~= s@.subrange(
                        i as int,
                        i + pat@.len(),
                    ));
                }
                assert(s@.skip(i as int)[0] == s@[i as int]);
                assert(s@.skip(i as int).drop_first() =~= s@.skip(i + 1));
            }
            r.push(s[i]);
            i = i + 1;
        }
    }
    proof {
        assert(s@.skip(i as int).len() == 0);
        assert(replace_all(s@.skip(i as int), pat@, rep@) == s@.skip(i as int));
        assert(r@ =~= r@ + s@.skip(i as int));
    }
    r
}

/// Cleans a raw model reply.
pub fn clean_response(response: &str) -> (r: Vec<char>)
    ensures
        r@ == cleaned_of(response@),
{
    let chars = chars_of(response);
    let t = trim_chars(&chars);
    let stripped = strip_fences(&t);
    let mut pat_n: Vec<char> = Vec::new();
    pat_n.push('\\');
    pat_n.push('n');
    let mut rep_n: Vec<char> = Vec::new();
    rep_n.push('\n');
    proof {
        assert(pat_n@ =~= seq!['\\', 'n']);
        assert(rep_n@ =~= seq!['\n']);
    }
    let c = replace_chars(&stripped, &pat_n, &rep_n);
    let mut pat_u: Vec<char> = Vec::new();
    pat_u.push('\\');
    pat_u.push('_');
    let mut rep_u: Vec<char> = Vec::new();
    rep_u.push('_');
    proof {
        assert(pat_u@ =~= seq!['\\', '_']);
        assert(rep_u@ =~= seq!['_']);
    }
    replace_chars(&c, &pat_u, &rep_u)
}

// ---------------------------------------------------------------------------
// Reading the cleaned reply as JSON, and applying it.
// ---------------------------------------------------------------------------
/// The characters of the `option_number` key.
pub open spec fn key_option_number() -> Seq<char> {
    seq!['o', 'p', 't', 'i', 'o', 'n', '_', 'n', 'u', 'm', 'b', 'e', 'r']
}

fn option_number_key() -> (r: Vec<char>)
    ensures
        r@ == key_option_number(),
{
    let mut r: Vec<char> = Vec::new();
    r.push('o');
    r.push('p');
    r.push('t');
    r.push('i');
    r.push('o');
    r.push('n');
    r.push('_');
    r.push('n');
    r.push('u');
    r.push('m');
    r.push('b');
    r.push('e');
    r.push('r');
    proof {
        assert(r@ =~= key_option_number());
    }
    r
}

/// The first position at or after `i` holding a non-digit.
pub open spec fn digits_end(s: Seq<char>, i: int) -> int
    decreases s.len() - i,
{
    if 0 <= i < s.len() && is_digit(s[i]) {
        digits_end(s, i + 1)
    } else {
        i
    }
}

/// Parses an unsigned decimal number, blanks before it allowed.  Refused
/// when no digit stands there or the value does not fit the machine.
pub open spec fn sp_number(s: Seq<char>, i: int) -> Option<(nat, int)> {
    let j = ws_end(s, i);
    let e = digits_end(s, j);
    if j < e && digits_val(s.subrange(j, e)) <= usize::MAX {
        Some((digits_val(s.subrange(j, e)), e))
    } else {
        None
    }
}

proof fn lemma_digits_end_bounds(s: Seq<char>, i: int)
    requires
        0 <= i <= s.len(),
    ensures
        i <= digits_end(s, i) <= s.len(),
    decreases s.len() - i,
{
    if 0 <= i < s.len() && is_digit(s[i]) {
        lemma_digits_end_bounds(s, i + 1);
    }
}

fn p_number(s: &Vec<char>, i: usize) -> (r: Option<(usize, usize)>)
    requires
        i <= s@.len(),
    ensures
        match r {
            Some(v) => sp_number(s@, i as int) == Some((v.0 as nat, v.1 as int)) && i <= v.1
                <= s@.len(),
            None => sp_number(s@, i as int) is None,
        },
{
    let j = p_ws(s, i);
    let mut e: usize = j;
    let mut digits: Vec<char> = Vec::new();
    while e < s.len() && '0' <= s[e] && s[e] <= '9'
        invariant
            j <= e <= s@.len(),
            digits@ == s@.subrange(j as int, e as int),
            digits_end(s@, j as int) == digits_end(s@, e as int),
            forall|t: int| j <= t < e ==> is_digit(#[trigger] s@[t]),
        decreases s@.len() - e,
    {
        digits.push(s[e]);
        proof {
            assert(digits@ =~= s@.subrange(j as int, e + 1));
        }
        e = e + 1;
    }
    proof {
        assert(digits_end(s@, e as int) == e);
        lemma_digits_end_bounds(s@, j as int);
    }
    if e == j {
        return None;
    }
    proof {
        assert(crate::text::all_digits(digits@));
    }
    match parse_decimal(&digits) {
        Some(v) => {
            if v <= usize::MAX as u64 {
                Some((v as usize, e))
            } else {
                None
            }
        },
        None => None,
    }
}

/// Reads the cleaned reply as the JSON object `{hint, option_number}`, the
/// two fields in either order, nothing but blanks around the object.
pub open spec fn sp_ollama(s: Seq<char>) -> Option<(Seq<char>, nat)> {
    let j = ws_end(s, 0);
    if j < s.len() && s[j] == '{' {
        match sp_key(s, j + 1, key_hint()) {
            Some(i1) => match sp_string(s, i1) {
                Some((h, i2)) => {
                    let c = ws_end(s, i2);
                    if c < s.len() && s[c] == ',' {
                        match sp_key(s, c + 1, key_option_number()) {
                            Some(i3) => match sp_number(s, i3) {
                                Some((n, i4)) => {
                                    let e = ws_end(s, i4);
                                    if e < s.len() && s[e] == '}' && ws_end(s, e + 1) == s.len() {
                                        Some((h, n))
                                    } else {
                                        None
                                    }
                                },
                                None => None,
                            },
                            None => None,
                        }
                    } else {
                        None
                    }
                },
                None => None,
            },
            None => match sp_key(s, j + 1, key_option_number()) {
                Some(i1) => match sp_number(s, i1) {
                    Some((n, i2)) => {
                        let c = ws_end(s, i2);
                        if c < s.len() && s[c] == ',' {
                            match sp_key(s, c + 1, key_hint()) {
                                Some(i3) => match sp_string(s, i3) {
                                    Some((h, i4)) => {
                                        let e = ws_end(s, i4);
                                        if e < s.len() && s[e] == '}' && ws_end(s, e + 1)
                                            == s.len() {
                                            Some((h, n))
                                        } else {
                                            None
                                        }
                                    },
                                    None => None,
                                },
                                None => None,
                            }
                        } else {
                            None
                        }
                    },
                    None => None,
                },
                None => None,
            },
        }
    } else {
        None
    }
}

fn p_ollama(s: &Vec<char>) -> (r: Option<(Vec<char>, usize)>)
    ensures
        match r {
            Some(v) => sp_ollama(s@) == Some((v.0@, v.1 as nat)),
            None => sp_ollama(s@) is None,
        },
{
    let j = p_ws(s, 0);
    if !(j < s.len() && s[j] == '{') {
        return None;
    }
    match p_key(s, j + 1, &hint_key()) {
        Some(i1) => {
            let (h, i2) = match p_string(s, i1) {
                Some(v) => v,
                None => {
                    return None;
                },
            };
            let c = p_ws(s, i2);
            if !(c < s.len() && s[c] == ',') {
                return None;
            }
            let i3 = match p_key(s, c + 1, &option_number_key()) {
                Some(v) => v,
                None => {
                    return None;
                },
            };
            let (n, i4) = match p_number(s, i3) {
                Some(v) => v,
                None => {
                    return None;
                },
            };
            let e = p_ws(s, i4);
            if e < s.len() && s[e] == '}' && p_ws(s, e + 1) == s.len() {
                Some((h, n))
            } else {
                None
            }
        },
        None => {
            let i1 = match p_key(s, j + 1, &option_number_key()) {
                Some(v) => v,
                None => {
                    return None;
                },
            };
            let (n, i2) = match p_number(s, i1) {
                Some(v) => v,
                None => {
                    return None;
                },
            };
            let c = p_ws(s, i2);
            if !(c < s.len() && s[c] == ',') {
                return None;
            }
            let i3 = match p_key(s, c + 1, &hint_key()) {
                Some(v) => v,
                None => {
                    return None;
                },
            };
            let (h, i4) = match p_string(s, i3) {
                Some(v) => v,
                None => {
                    return None;
                },
            };
            let e = p_ws(s, i4);
            if e < s.len() && s[e] == '}' && p_ws(s, e + 1) == s.len() {
                Some((h, n))
            } else {
                None
            }
        },
    }
}

/// What the completion uses from a raw reply: the read hint and option
/// number, or the placeholder fallback when the reply cannot be read.
pub open spec fn reply_of(resp: Seq<char>) -> OllamaJsonV {
    match sp_ollama(cleaned_of(resp)) {
        Some((h, n)) => OllamaJsonV { hint: h, option_number: n },
        None => OllamaJsonV {
            hint: "Unable to parse hint"@,
            option_number: 1,
        },
    }
}

/// Cleans and reads a raw model reply; an unreadable reply degrades to
/// option one with a placeholder hint.
pub fn interpret_ollama_response(response: &str) -> (r: OllamaJson)
    ensures
        r@ == reply_of(response@),
{
    let cleaned = clean_response(response);
    match p_ollama(&cleaned) {
        Some((h, n)) => OllamaJson { hint: string_from_chars(&h), option_number: n },
        None => OllamaJson { hint: "Unable to parse hint".to_owned(), option_number: 1 },
    }
}

/// The option picked and the hint kept for a reply: option zero degrades to
/// one with its own placeholder, an option above four counts as unreadable.
pub open spec fn completion_choice(resp: Seq<char>) -> (nat, Seq<char>) {
    let oj = reply_of(resp);
    if oj.option_number == 0 {
        (1, "No ollama hint available"@)
    } else if oj.option_number <= 4 {
        (oj.option_number, oj.hint)
    } else {
        (1, "Unable to parse hint"@)
    }
}

/// Completes a question from the model's raw reply: the answer becomes the
/// option the reply names (option one when the reply is unreadable or names
/// zero), and the hint becomes the reply's hint or the matching placeholder.
/// The question text and options stay unchanged.
pub fn fill_question_from_ollama(question: &Question, response: &str) -> (r: Question)
    requires
        question@.options.len() == 4,
    ensures
        r@.question == question@.question,
        r@.options == question@.options,
        r@.answer == question@.options[completion_choice(response@).0 as int - 1],
        r@.hint == Some(completion_choice(response@).1),
{
    let oj = interpret_ollama_response(response);
    let (number, hint) = if oj.option_number == 0 {
        (1usize, "No ollama hint available".to_owned())
    } else if oj.option_number <= 4 {
        (oj.option_number, oj.hint)
    } else {
        (1usize, "Unable to parse hint".to_owned())
    };
    let mut r = clone_question(question);
    r.answer = r.options[number - 1].clone();
    r.hint = Some(hint);
    r
}

/// The fixed instruction block that precedes the question in the prompt.
pub open spec fn prompt_header() -> Seq<char> {
    "answer in correct JSON Format (so no comments) only two fields \"option_number  exact (1-4)\": int Number of the option\n\"hint\": some single line hint\n\n} Question:\n\n"@
}

/// The numbered option lines of the prompt.
pub open spec fn prompt_options(opts: Seq<Seq<char>>) -> Seq<char>
    decreases opts.len(),
{
    if opts.len() == 0 {
        Seq::empty()
    } else {
        prompt_options(opts.drop_last()) + dec_str(opts.len() as nat) + ":"@ + opts.last() + "\n"@
    }
}

/// The whole prompt for one question.
pub open spec fn prompt_of(q: QuestionV) -> Seq<char> {
    prompt_header() + q.question + "\nOptions:\n"@ + prompt_options(q.options)
}

/// Builds the prompt asking the model to complete a question.
pub fn build_prompt(question: &Question) -> (r: String)
    ensures
        r@ == prompt_of(question@),
{
    let mut r = String::new();
    r.append(
        "answer in correct JSON Format (so no comments) only two fields \"option_number  exact (1-4)\": int Number of the option\n\"hint\": some single line hint\n\n} Question:\n\n",
    );
    r.append(question.question.as_str());
    r.append("\nOptions:\n");
    let ghost header = r@;
    let mut i: usize = 0;
    while i < question.options.len()
        invariant
            i <= question.options@.len(),
            r@ == header + prompt_options(question@.options.take(i as int)),
        decreases question.options@.len() - i,
    {
        proof {
            assert(question@.options.take(i + 1).drop_last() =~= question@.options.take(i as int));
            assert(question@.options.take(i + 1).last() == question@.options[i as int]);
        }
        let num = crate::text::dec_string((i + 1) as u64);
        r.append(num.as_str());
        r.append(":");
        r.append(question.options[i].as_str());
        r.append("\n");
        proof {
            assert(r@ =~= header + prompt_options(question@.options.take(i + 1)));
        }
        i = i + 1;
    }
    proof {
        assert(question@.options.take(question@.options.len() as int) =~= question@.options);
    }
    r
}

} // verus!
