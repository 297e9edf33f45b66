//! The question file's JSON codec.
//!
//! The pool lives on disk as a JSON array of question objects with the
//! fields `question`, `answer`, `hint` (a string or `null`) and `options`
//! (an array of exactly four strings), in that order, pretty-printed with
//! two-space indent.  This module parses and writes that document; reading
//! the file and writing it back are left to the caller.
//!
//! The parser is pinned down by the specification functions below, the
//! writer by [`ser_pool`]; the round-trip laws at the end of the module
//! state that parsing what the writer produced gives back the pool.

use vstd::prelude::*;
use crate::questions::{Question, QuestionV, qviews, clone_question};
use crate::text::{string_from_chars, chars_of};

verus! {

// ---------------------------------------------------------------------------
// The specification of the parser.
// ---------------------------------------------------------------------------
/// The characters JSON treats as blank between tokens.
pub open spec fn is_json_ws(c: char) -> bool {
    c == ' ' || c == '\t' || c == '\n' || c == '\r'
}

/// The first position at or after `i` holding something other than a blank.
pub open spec fn ws_end(s: Seq<char>, i: int) -> int
    decreases s.len() - i,
{
    if 0 <= i < s.len() && is_json_ws(s[i]) {
        ws_end(s, i + 1)
    } else {
        i
    }
}

/// The value of one hexadecimal digit character, lower or upper case.
pub open spec fn hex_val(c: char) -> Option<nat> {
    if '0' <= c && c <= '9' {
        Some((c as int - '0' as int) as nat)
    } else if 'a' <= c && c <= 'f' {
        Some((c as int - 'a' as int + 10) as nat)
    } else if 'A' <= c && c <= 'F' {
        Some((c as int - 'A' as int + 10) as nat)
    } else {
        None
    }
}

/// The character stood for by a single-letter escape, if the letter is one.
pub open spec fn unescape_char(e: char) -> Option<char> {
    if e == '"' {
        Some('"')
    } else if e == '\\' {
        Some('\\')
    } else if e == '/' {
        Some('/')
    } else if e == 'b' {
        Some('\u{8}')
    } else if e == 'f' {
        Some('\u{c}')
    } else if e == 'n' {
        Some('\n')
    } else if e == 'r' {
        Some('\r')
    } else if e == 't' {
        Some('\t')
    } else {
        None
    }
}

/// Parses the inside of a JSON string from position `i` up to and including
/// the closing quote.  Escapes are decoded; `\u` escapes are accepted for
/// code points below 128; raw control characters are refused.
pub open spec fn sp_strbody(s: Seq<char>, i: int) -> Option<(Seq<char>, int)>
    decreases s.len() - i,
{
    if i < 0 || i >= s.len() {
        None
    } else if s[i] == '"' {
        Some((Seq::empty(), i + 1))
    } else if s[i] == '\\' {
        if i + 2 > s.len() {
            None
        } else if s[i + 1] == 'u' {
            if s.len() - i >= 6 {
                match (hex_val(s[i + 2]), hex_val(s[i + 3]), hex_val(s[i + 4]), hex_val(s[i + 5])) {
                    (Some(h3), Some(h2), Some(h1), Some(h0)) => {
                        let v = h3 * 4096 + h2 * 256 + h1 * 16 + h0;
                        if v < 128 {
                            match sp_strbody(s, i + 6) {
                                Some((t, j)) => Some((seq![(v as u32) as char] + t, j)),
                                None => None,
                            }
                        } else {
                            None
                        }
                    },
                    _ => None,
                }
            } else {
                None
            }
        } else {
            match unescape_char(s[i + 1]) {
                Some(c) => match sp_strbody(s, i + 2) {
                    Some((t, j)) => Some((seq![c] + t, j)),
                    None => None,
                },
                None => None,
            }
        }
    } else if (s[i] as u32) < 32 {
        None
    } else {
        match sp_strbody(s, i + 1) {
            Some((t, j)) => Some((seq![s[i]] + t, j)),
            None => None,
        }
    }
}

/// Parses a JSON string token, blanks before it allowed.
pub open spec fn sp_string(s: Seq<char>, i: int) -> Option<(Seq<char>, int)> {
    if i < 0 {
        None
    } else {
        let j = ws_end(s, i);
        if j < s.len() && s[j] == '"' {
            sp_strbody(s, j + 1)
        } else {
            None
        }
    }
}

/// Whether `pat` stands at position `i` of `s`.
pub open spec fn matches_at(s: Seq<char>, i: int, pat: Seq<char>) -> bool {
    0 <= i && i + pat.len() <= s.len() && s.subrange(i, i + pat.len()) == pat
}

/// The views of a vector of character vectors.
pub open spec fn cviews(s: Seq<Vec<char>>) -> Seq<Seq<char>> {
    s.map_values(|v: Vec<char>| v@)
}

/// Parses the hint value: `null` or a string.
pub open spec fn sp_hint(s: Seq<char>, i: int) -> Option<(Option<Seq<char>>, int)> {
    let j = ws_end(s, i);
    if matches_at(s, j, seq!['n', 'u', 'l', 'l']) {
        Some((None, j + 4))
    } else {
        match sp_string(s, i) {
            Some((v, k)) => Some((Some(v), k)),
            None => None,
        }
    }
}

/// Parses the items of a string array after its opening bracket, up to and
/// including the closing bracket.
pub open spec fn sp_str_items(s: Seq<char>, i: int) -> Option<(Seq<Seq<char>>, int)>
    decreases s.len() - i via sp_str_items_decreases
{
    match sp_string(s, i) {
        Some((v, j)) => {
            let k = ws_end(s, j);
            if k < s.len() && s[k] == ',' {
                match sp_str_items(s, k + 1) {
                    Some((vs, m)) => Some((seq![v] + vs, m)),
                    None => None,
                }
            } else if k < s.len() && s[k] == ']' {
                Some((seq![v], k + 1))
            } else {
                None
            }
        },
        None => None,
    }
}

#[via_fn]
proof fn sp_str_items_decreases(s: Seq<char>, i: int) {
    if 0 <= i <= s.len() {
        lemma_sp_string_bounds(s, i);
        if sp_string(s, i) is Some {
            let (v, j) = sp_string(s, i)->0;
            lemma_ws_end_bounds(s, j);
        }
    } else if i > s.len() {
        assert(ws_end(s, i) == i);
    }
}

/// Parses a string array: `[]`, or bracketed comma-separated strings.
pub open spec fn sp_str_array(s: Seq<char>, i: int) -> Option<(Seq<Seq<char>>, int)> {
    let j = ws_end(s, i);
    if j < s.len() && s[j] == '[' {
        let k = ws_end(s, j + 1);
        if k < s.len() && s[k] == ']' {
            Some((Seq::empty(), k + 1))
        } else {
            sp_str_items(s, j + 1)
        }
    } else {
        None
    }
}

/// The characters of each field's key.
pub open spec fn key_question() -> Seq<char> {
    seq!['q', 'u', 'e', 's', 't', 'i', 'o', 'n']
}

/// The characters of the `answer` key.
pub open spec fn key_answer() -> Seq<char> {
    seq!['a', 'n', 's', 'w', 'e', 'r']
}

/// The characters of the `hint` key.
pub open spec fn key_hint() -> Seq<char> {
    seq!['h', 'i', 'n', 't']
}

/// The characters of the `options` key.
pub open spec fn key_options() -> Seq<char> {
    seq!['o', 'p', 't', 'i', 'o', 'n', 's']
}

/// Consumes blanks, the quoted `key` and a colon; yields the position after
/// the colon.
pub open spec fn sp_key(s: Seq<char>, i: int, key: Seq<char>) -> Option<int> {
    let j = ws_end(s, i);
    if matches_at(s, j, seq!['"'] + key + seq!['"']) {
        let k = j + key.len() + 2;
        let m = ws_end(s, k);
        if m < s.len() && s[m] == ':' {
            Some(m + 1)
        } else {
            None
        }
    } else {
        None
    }
}

/// Parses one question object: the four fields in their fixed order, the
/// options array holding exactly four strings.
pub open spec fn sp_question(s: Seq<char>, i: int) -> Option<(QuestionV, int)> {
    let j = ws_end(s, i);
    if i >= 0 && j < s.len() && s[j] == '{' {
        match sp_key(s, j + 1, key_question()) {
            Some(i1) => match sp_string(s, i1) {
                Some((qtext, i2)) => {
                    let c1 = ws_end(s, i2);
                    if c1 < s.len() && s[c1] == ',' {
                        match sp_key(s, c1 + 1, key_answer()) {
                            Some(i3) => match sp_string(s, i3) {
                                Some((atext, i4)) => {
                                    let c2 = ws_end(s, i4);
                                    if c2 < s.len() && s[c2] == ',' {
                                        match sp_key(s, c2 + 1, key_hint()) {
                                            Some(i5) => match sp_hint(s, i5) {
                                                Some((hint, i6)) => {
                                                    let c3 = ws_end(s, i6);
                                                    if c3 < s.len() && s[c3] == ',' {
                                                        match sp_key(s, c3 + 1, key_options()) {
                                                            Some(i7) => match sp_str_array(s, i7) {
                                                                Some((opts, i8)) => {
                                                                    let e = ws_end(s, i8);
                                                                    if e < s.len() && s[e] == '}'
                                                                        && opts.len() == 4 {
                                                                        Some(
                                                                            (
                                                                                QuestionV {
                                                                                    question: qtext,
                                                                                    answer: atext,
                                                                                    hint,
                                                                                    options: opts,
                                                                                },
                                                                                e + 1,
                                                                            ),
                                                                        )
                                                                    } else {
                                                                        None
                                                                    }
                                                                },
                                                                None => None,
                                                            },
                                                            None => None,
                                                        }
                                                    } else {
                                                        None
                                                    }
                                                },
                                                None => None,
                                            },
                                            None => None,
                                        }
                                    } else {
                                        None
                                    }
                                },
                                None => None,
                            },
                            None => None,
                        }
                    } else {
                        None
                    }
                },
                None => None,
            },
            None => None,
        }
    } else {
        None
    }
}

/// Parses the items of the pool array after its opening bracket, up to and
/// including the closing bracket.
pub open spec fn sp_q_items(s: Seq<char>, i: int) -> Option<(Seq<QuestionV>, int)>
    decreases s.len() - i via sp_q_items_decreases
{
    match sp_question(s, i) {
        Some((q, j)) => {
            let k = ws_end(s, j);
            if k < s.len() && s[k] == ',' {
                match sp_q_items(s, k + 1) {
                    Some((qs, m)) => Some((seq![q] + qs, m)),
                    None => None,
                }
            } else if k < s.len() && s[k] == ']' {
                Some((seq![q], k + 1))
            } else {
                None
            }
        },
        None => None,
    }
}

#[via_fn]
proof fn sp_q_items_decreases(s: Seq<char>, i: int) {
    if 0 <= i <= s.len() {
        lemma_sp_question_bounds(s, i);
        if sp_question(s, i) is Some {
            let (q, j) = sp_question(s, i)->0;
            lemma_ws_end_bounds(s, j);
        }
    } else if i > s.len() {
        assert(ws_end(s, i) == i);
    }
}

/// Parses the whole pool document: a JSON array of question objects,
/// nothing but blanks after it.
pub open spec fn sp_pool(s: Seq<char>) -> Option<Seq<QuestionV>> {
    let j = ws_end(s, 0);
    if j < s.len() && s[j] == '[' {
        let k = ws_end(s, j + 1);
        if k < s.len() && s[k] == ']' {
            if ws_end(s, k + 1) == s.len() {
                Some(Seq::empty())
            } else {
                None
            }
        } else {
            match sp_q_items(s, j + 1) {
                Some((qs, m)) => {
                    if ws_end(s, m) == s.len() {
                        Some(qs)
                    } else {
                        None
                    }
                },
                None => None,
            }
        }
    } else {
        None
    }
}

// ---------------------------------------------------------------------------
// Bounds of the parser's positions.
// ---------------------------------------------------------------------------
proof fn lemma_ws_end_bounds(s: Seq<char>, i: int)
    requires
        0 <= i <= s.len(),
    ensures
        i <= ws_end(s, i) <= s.len(),
    decreases s.len() - i,
{
    if 0 <= i < s.len() && is_json_ws(s[i]) {
        lemma_ws_end_bounds(s, i + 1);
    }
}

proof fn lemma_sp_strbody_bounds(s: Seq<char>, i: int)
    ensures
        sp_strbody(s, i) is Some ==> i < (sp_strbody(s, i)->0).1 <= s.len(),
    decreases s.len() - i,
{
    if 0 <= i < s.len() {
        lemma_sp_strbody_bounds(s, i + 1);
        if i + 2 <= s.len() {
            lemma_sp_strbody_bounds(s, i + 2);
        }
        if i + 6 <= s.len() {
            lemma_sp_strbody_bounds(s, i + 6);
        }
    }
}

proof fn lemma_sp_string_bounds(s: Seq<char>, i: int)
    requires
        0 <= i <= s.len(),
    ensures
        sp_string(s, i) is Some ==> i < (sp_string(s, i)->0).1 <= s.len(),
{
    lemma_ws_end_bounds(s, i);
    let j = ws_end(s, i);
    if j < s.len() && s[j] == '"' {
        lemma_sp_strbody_bounds(s, j + 1);
    }
}

proof fn lemma_sp_hint_bounds(s: Seq<char>, i: int)
    requires
        0 <= i <= s.len(),
    ensures
        sp_hint(s, i) is Some ==> i < (sp_hint(s, i)->0).1 <= s.len(),
{
    lemma_ws_end_bounds(s, i);
    lemma_sp_string_bounds(s, i);
}

proof fn lemma_sp_str_items_bounds(s: Seq<char>, i: int)
    requires
        0 <= i <= s.len(),
    ensures
        sp_str_items(s, i) is Some ==> i < (sp_str_items(s, i)->0).1 <= s.len(),
    decreases s.len() - i,
{
    lemma_sp_string_bounds(s, i);
    match sp_string(s, i) {
        Some((v, j)) => {
            lemma_ws_end_bounds(s, j);
            let k = ws_end(s, j);
            if k < s.len() && s[k] == ',' {
                lemma_sp_str_items_bounds(s, k + 1);
            }
        },
        None => {},
    }
}

proof fn lemma_sp_str_array_bounds(s: Seq<char>, i: int)
    requires
        0 <= i <= s.len(),
    ensures
        sp_str_array(s, i) is Some ==> i < (sp_str_array(s, i)->0).1 <= s.len(),
{
    lemma_ws_end_bounds(s, i);
    let j = ws_end(s, i);
    if j < s.len() && s[j] == '[' {
        lemma_ws_end_bounds(s, j + 1);
        lemma_sp_str_items_bounds(s, j + 1);
    }
}

proof fn lemma_sp_key_bounds(s: Seq<char>, i: int, key: Seq<char>)
    requires
        0 <= i <= s.len(),
    ensures
        sp_key(s, i, key) is Some ==> i < sp_key(s, i, key)->0 <= s.len(),
{
    lemma_ws_end_bounds(s, i);
    let j = ws_end(s, i);
    if matches_at(s, j, seq!['"'] + key + seq!['"']) {
        lemma_ws_end_bounds(s, j + key.len() + 2);
    }
}

proof fn lemma_sp_question_bounds(s: Seq<char>, i: int)
    requires
        0 <= i <= s.len(),
    ensures
        sp_question(s, i) is Some ==> i < (sp_question(s, i)->0).1 <= s.len(),
{
    lemma_ws_end_bounds(s, i);
    let j = ws_end(s, i);
    if j < s.len() && s[j] == '{' {
        lemma_sp_key_bounds(s, j + 1, key_question());
        match sp_key(s, j + 1, key_question()) {
            Some(i1) => {
                lemma_sp_string_bounds(s, i1);
                match sp_string(s, i1) {
                    Some((qtext, i2)) => {
                        lemma_ws_end_bounds(s, i2);
                        let c1 = ws_end(s, i2);
                        if c1 < s.len() && s[c1] == ',' {
                            lemma_sp_key_bounds(s, c1 + 1, key_answer());
                            match sp_key(s, c1 + 1, key_answer()) {
                                Some(i3) => {
                                    lemma_sp_string_bounds(s, i3);
                                    match sp_string(s, i3) {
                                        Some((atext, i4)) => {
                                            lemma_ws_end_bounds(s, i4);
                                            let c2 = ws_end(s, i4);
                                            if c2 < s.len() && s[c2] == ',' {
                                                lemma_sp_key_bounds(s, c2 + 1, key_hint());
                                                match sp_key(s, c2 + 1, key_hint()) {
                                                    Some(i5) => {
                                                        lemma_sp_hint_bounds(s, i5);
                                                        match sp_hint(s, i5) {
                                                            Some((hint, i6)) => {
                                                                lemma_ws_end_bounds(s, i6);
                                                                let c3 = ws_end(s, i6);
                                                                if c3 < s.len() && s[c3] == ',' {
                                                                    lemma_sp_key_bounds(
                                                                        s,
                                                                        c3 + 1,
                                                                        key_options(),
                                                                    );
                                                                    match sp_key(
                                                                        s,
                                                                        c3 + 1,
                                                                        key_options(),
                                                                    ) {
                                                                        Some(i7) => {
                                                                            lemma_sp_str_array_bounds(
                                                                                s,
                                                                                i7,
                                                                            );
                                                                            match sp_str_array(
                                                                                s,
                                                                                i7,
                                                                            ) {
                                                                                Some((opts, i8)) => {
                                                                                    lemma_ws_end_bounds(
                                                                                        s,
                                                                                        i8,
                                                                                    );
                                                                                },
                                                                                None => {},
                                                                            }
                                                                        },
                                                                        None => {},
                                                                    }
                                                                }
                                                            },
                                                            None => {},
                                                        }
                                                    },
                                                    None => {},
                                                }
                                            }
                                        },
                                        None => {},
                                    }
                                },
                                None => {},
                            }
                        }
                    },
                    None => {},
                }
            },
            None => {},
        }
    }
}

// ---------------------------------------------------------------------------
// The executable parser.
// ---------------------------------------------------------------------------
pub(crate) fn p_ws(s: &Vec<char>, i: usize) -> (j: usize)
    requires
        i <= s@.len(),
    ensures
        j == ws_end(s@, i as int),
        i <= j <= s@.len(),
{
    let mut j = i;
    while j < s.len() && (s[j] == ' ' || s[j] == '\t' || s[j] == '\n' || s[j] == '\r')
        invariant
            i <= j <= s@.len(),
            ws_end(s@, i as int) == ws_end(s@, j as int),
        decreases s@.len() - j,
    {
        j = j + 1;
    }
    j
}

fn p_hex(c: char) -> (r: Option<u32>)
    ensures
        match r {
            Some(v) => hex_val(c) == Some(v as nat) && v < 16,
            None => hex_val(c) is None,
        },
{
    if '0' <= c && c <= '9' {
        Some(c as u32 - 48)
    } else if 'a' <= c && c <= 'f' {
        Some(c as u32 - 97 + 10)
    } else if 'A' <= c && c <= 'F' {
        Some(c as u32 - 65 + 10)
    } else {
        None
    }
}

/// Relies on `char::from_u32`: every code point below the surrogate range
/// is a character with exactly that scalar value.
#[verifier::external_body]
fn char_of_code(v: u32) -> (c: char)
    requires
        v < 0xD800,
    ensures
        c as u32 == v,
{
    char::from_u32(v).unwrap()
}

pub(crate) fn p_strbody(s: &Vec<char>, i: usize) -> (r: Option<(Vec<char>, usize)>)
    requires
        i <= s@.len(),
    ensures
        match r {
            Some(v) => sp_strbody(s@, i as int) == Some((v.0@, v.1 as int)) && i < v.1 <= s@.len(),
            None => sp_strbody(s@, i as int) is None,
        },
    decreases s@.len() - i,
{
    if i >= s.len() {
        return None;
    }
    let c = s[i];
    if c == '"' {
        let v: Vec<char> = Vec::new();
        return Some((v, i + 1));
    }
    if c == '\\' {
        if s.len() - i < 2 {
            return None;
        }
        let e = s[i + 1];
        if e == 'u' {
            if s.len() - i >= 6 {
                let h3 = p_hex(s[i + 2]);
                let h2 = p_hex(s[i + 3]);
                let h1 = p_hex(s[i + 4]);
                let h0 = p_hex(s[i + 5]);
                match (h3, h2, h1, h0) {
                    (Some(a3), Some(a2), Some(a1), Some(a0)) => {
                        let v = a3 * 4096 + a2 * 256 + a1 * 16 + a0;
                        if v < 128 {
                            match p_strbody(s, i + 6) {
                                Some((t, j)) => {
                                    let mut t = t;
                                    let ghost rest = t@;
                                    let cc = char_of_code(v);
                                    t.insert(0, cc);
                                    proof {
                                        vstd::utf8::char_u32_cast(cc, v);
                                        assert(t@ =~= seq![(((v as nat) as u32) as char)] + rest);
                                    }
                                    Some((t, j))
                                },
                                None => None,
                            }
                        } else {
                            None
                        }
                    },
                    _ => None,
                }
            } else {
                None
            }
        } else {
            let u = if e == '"' {
                Some('"')
            } else if e == '\\' {
                Some('\\')
            } else if e == '/' {
                Some('/')
            } else if e == 'b' {
                Some('\u{8}')
            } else if e == 'f' {
                Some('\u{c}')
            } else if e == 'n' {
                Some('\n')
            } else if e == 'r' {
                Some('\r')
            } else if e == 't' {
                Some('\t')
            } else {
                None
            };
            proof {
                assert(match u {
                    Some(c2) => unescape_char(e) == Some(c2),
                    None => unescape_char(e) is None,
                });
            }
            match u {
                Some(c2) => match p_strbody(s, i + 2) {
                    Some((t, j)) => {
                        let mut t = t;
                        let ghost rest = t@;
                        t.insert(0, c2);
                        proof {
                            assert(t@ =~= seq![c2] + rest);
                        }
                        Some((t, j))
                    },
                    None => None,
                },
                None => None,
            }
        }
    } else if (c as u32) < 32 {
        None
    } else {
        match p_strbody(s, i + 1) {
            Some((t, j)) => {
                let mut t = t;
                let ghost rest = t@;
                t.insert(0, c);
                proof {
                    assert(t@ =~= seq![c] + rest);
                }
                Some((t, j))
            },
            None => None,
        }
    }
}

pub(crate) fn p_string(s: &Vec<char>, i: usize) -> (r: Option<(Vec<char>, usize)>)
    requires
        i <= s@.len(),
    ensures
        match r {
            Some(v) => sp_string(s@, i as int) == Some((v.0@, v.1 as int)) && i < v.1 <= s@.len(),
            None => sp_string(s@, i as int) is None,
        },
{
    let j = p_ws(s, i);
    if j < s.len() && s[j] == '"' {
        p_strbody(s, j + 1)
    } else {
        None
    }
}

fn p_hint(s: &Vec<char>, i: usize) -> (r: Option<(Option<Vec<char>>, usize)>)
    requires
        i <= s@.len(),
    ensures
        match r {
            Some(v) => sp_hint(s@, i as int) == Some(
                (
                    match v.0 {
                        Some(h) => Some(h@),
                        None => None,
                    },
                    v.1 as int,
                ),
            ) && i < v.1 <= s@.len(),
            None => sp_hint(s@, i as int) is None,
        },
{
    let j = p_ws(s, i);
    if s.len() - j >= 4 && s[j] == 'n' && s[j + 1] == 'u' && s[j + 2] == 'l' && s[j + 3] == 'l' {
        proof {
            assert(matches_at(s@, j as int, seq!['n', 'u', 'l', 'l'])) by {
                assert(s@.subrange(j as int, j + 4) =~= seq!['n', 'u', 'l', 'l']);
            }
        }
        return Some((None, j + 4));
    }
    proof {
        assert(!matches_at(s@, j as int, seq!['n', 'u', 'l', 'l'])) by {
            if matches_at(s@, j as int, seq!['n', 'u', 'l', 'l']) {
                assert(s@.subrange(j as int, j + 4)[0] == 'n');
                assert(s@.subrange(j as int, j + 4)[1] == 'u');
                assert(s@.subrange(j as int, j + 4)[2] == 'l');
                assert(s@.subrange(j as int, j + 4)[3] == 'l');
            }
        }
    }
    match p_string(s, i) {
        Some((v, k)) => Some((Some(v), k)),
        None => None,
    }
}

fn p_str_items(s: &Vec<char>, i: usize) -> (r: Option<(Vec<Vec<char>>, usize)>)
    requires
        i <= s@.len(),
    ensures
        match r {
            Some(v) => sp_str_items(s@, i as int) == Some((cviews(v.0@), v.1 as int)) && i < v.1
                <= s@.len(),
            None => sp_str_items(s@, i as int) is None,
        },
    decreases s@.len() - i,
{
    match p_string(s, i) {
        Some((v, j)) => {
            let k = p_ws(s, j);
            if k < s.len() && s[k] == ',' {
                match p_str_items(s, k + 1) {
                    Some((vs, m)) => {
                        let mut vs = vs;
                        let ghost rest_dv = cviews(vs@);
                        vs.insert(0, v);
                        proof {
                            assert(cviews(vs@) =~= seq![v@] + rest_dv);
                        }
                        Some((vs, m))
                    },
                    None => None,
                }
            } else if k < s.len() && s[k] == ']' {
                let mut vs: Vec<Vec<char>> = Vec::new();
                vs.push(v);
                proof {
                    assert(cviews(vs@) =~= seq![v@]);
                }
                Some((vs, k + 1))
            } else {
                None
            }
        },
        None => None,
    }
}

fn p_str_array(s: &Vec<char>, i: usize) -> (r: Option<(Vec<Vec<char>>, usize)>)
    requires
        i <= s@.len(),
    ensures
        match r {
            Some(v) => sp_str_array(s@, i as int) == Some((cviews(v.0@), v.1 as int)) && i < v.1
                <= s@.len(),
            None => sp_str_array(s@, i as int) is None,
        },
{
    let j = p_ws(s, i);
    if j < s.len() && s[j] == '[' {
        let k = p_ws(s, j + 1);
        if k < s.len() && s[k] == ']' {
            let vs: Vec<Vec<char>> = Vec::new();
            proof {
                assert(cviews(vs@) =~= Seq::<Seq<char>>::empty());
            }
            Some((vs, k + 1))
        } else {
            p_str_items(s, j + 1)
        }
    } else {
        None
    }
}

pub(crate) fn p_key(s: &Vec<char>, i: usize, key: &Vec<char>) -> (r: Option<usize>)
    requires
        i <= s@.len(),
        key@.len() < 100,
    ensures
        match r {
            Some(j) => sp_key(s@, i as int, key@) == Some(j as int) && i < j <= s@.len(),
            None => sp_key(s@, i as int, key@) is None,
        },
{
    let j = p_ws(s, i);
    let pat_len = key.len() + 2;
    if j >= s.len() || s.len() - j < pat_len {
        proof {
            assert(!matches_at(s@, j as int, seq!['"'] + key@ + seq!['"']));
        }
        return None;
    }
    if s[j] != '"' || s[j + key.len() + 1] != '"' {
        proof {
            assert(!matches_at(s@, j as int, seq!['"'] + key@ + seq!['"'])) by {
                if matches_at(s@, j as int, seq!['"'] + key@ + seq!['"']) {
                    let pat = seq!['"'] + key@ + seq!['"'];
                    assert(s@.subrange(j as int, j + pat.len())[0] == pat[0]);
                    assert(s@.subrange(j as int, j + pat.len())[key@.len() as int + 1]
                        == pat[key@.len() as int + 1]);
                }
            }
        }
        return None;
    }
    let mut m: usize = 0;
    while m < key.len()
        invariant
            0 <= m <= key@.len(),
            s@.len() <= usize::MAX,
            i <= j <= s@.len(),
            j == ws_end(s@, i as int),
            j + key@.len() + 2 <= s@.len(),
            forall|t: int| 0 <= t < m ==> s@[j + 1 + t] == key@[t],
        decreases key@.len() - m,
    {
        if s[j + 1 + m] != key[m] {
            proof {
                assert(!matches_at(s@, j as int, seq!['"'] + key@ + seq!['"'])) by {
                    if matches_at(s@, j as int, seq!['"'] + key@ + seq!['"']) {
                        let pat = seq!['"'] + key@ + seq!['"'];
                        assert(s@.subrange(j as int, j + pat.len())[m + 1] == pat[m + 1]);
                    }
                }
            }
            return None;
        }
        m = m + 1;
    }
    proof {
        assert(matches_at(s@, j as int, seq!['"'] + key@ + seq!['"'])) by {
            let pat = seq!['"'] + key@ + seq!['"'];
            assert(s@.subrange(j as int, j + pat.len()) =~= pat);
        }
    }
    let k = j + key.len() + 2;
    let m2 = p_ws(s, k);
    if m2 < s.len() && s[m2] == ':' {
        Some(m2 + 1)
    } else {
        None
    }
}

fn question_key() -> (r: Vec<char>)
    ensures
        r@ == key_question(),
{
    let mut r: Vec<char> = Vec::new();
    r.push('q');
    r.push('u');
    r.push('e');
    r.push('s');
    r.push('t');
    r.push('i');
    r.push('o');
    r.push('n');
    proof {
        assert(r@ =~= key_question());
    }
    r
}

fn answer_key() -> (r: Vec<char>)
    ensures
        r@ == key_answer(),
{
    let mut r: Vec<char> = Vec::new();
    r.push('a');
    r.push('n');
    r.push('s');
    r.push('w');
    r.push('e');
    r.push('r');
    proof {
        assert(r@ =~= key_answer());
    }
    r
}

pub(crate) fn hint_key() -> (r: Vec<char>)
    ensures
        r@ == key_hint(),
{
    let mut r: Vec<char> = Vec::new();
    r.push('h');
    r.push('i');
    r.push('n');
    r.push('t');
    proof {
        assert(r@ =~= key_hint());
    }
    r
}

fn options_key() -> (r: Vec<char>)
    ensures
        r@ == key_options(),
{
    let mut r: Vec<char> = Vec::new();
    r.push('o');
    r.push('p');
    r.push('t');
    r.push('i');
    r.push('o');
    r.push('n');
    r.push('s');
    proof {
        assert(r@ =~= key_options());
    }
    r
}

fn p_question(s: &Vec<char>, i: usize) -> (r: Option<(Question, usize)>)
    requires
        i <= s@.len(),
    ensures
        match r {
            Some(v) => sp_question(s@, i as int) == Some((v.0@, v.1 as int)) && i < v.1 <= s@.len(),
            None => sp_question(s@, i as int) is None,
        },
{
    let j = p_ws(s, i);
    if !(j < s.len() && s[j] == '{') {
        return None;
    }
    let i1 = match p_key(s, j + 1, &question_key()) {
        Some(v) => v,
        None => {
            return None;
        },
    };
    let (qtext, i2) = match p_string(s, i1) {
        Some(v) => v,
        None => {
            return None;
        },
    };
    let c1 = p_ws(s, i2);
    if !(c1 < s.len() && s[c1] == ',') {
        return None;
    }
    let i3 = match p_key(s, c1 + 1, &answer_key()) {
        Some(v) => v,
        None => {
            return None;
        },
    };
    let (atext, i4) = match p_string(s, i3) {
        Some(v) => v,
        None => {
            return None;
        },
    };
    let c2 = p_ws(s, i4);
    if !(c2 < s.len() && s[c2] == ',') {
        return None;
    }
    let i5 = match p_key(s, c2 + 1, &hint_key()) {
        Some(v) => v,
        None => {
            return None;
        },
    };
    let (hint, i6) = match p_hint(s, i5) {
        Some(v) => v,
        None => {
            return None;
        },
    };
    let c3 = p_ws(s, i6);
    if !(c3 < s.len() && s[c3] == ',') {
        return None;
    }
    let i7 = match p_key(s, c3 + 1, &options_key()) {
        Some(v) => v,
        None => {
            return None;
        },
    };
    let (opts, i8) = match p_str_array(s, i7) {
        Some(v) => v,
        None => {
            return None;
        },
    };
    let e = p_ws(s, i8);
    if !(e < s.len() && s[e] == '}' && opts.len() == 4) {
        return None;
    }
    let question = string_from_chars(&qtext);
    let answer = string_from_chars(&atext);
    let hint_string = match &hint {
        Some(h) => Some(string_from_chars(h)),
        None => None,
    };
    let mut options: Vec<String> = Vec::new();
    let mut oi: usize = 0;
    while oi < opts.len()
        invariant
            oi <= opts@.len(),
            options@.len() == oi,
            forall|t: int| 0 <= t < oi ==> options@[t]@ == cviews(opts@)[t],
        decreases opts@.len() - oi,
    {
        options.push(string_from_chars(&opts[oi]));
        oi = oi + 1;
    }
    let q = Question { question, answer, hint: hint_string, options };
    proof {
        assert(q@.options =~= cviews(opts@));
        assert(sp_question(s@, i as int) == Some((q@, (e + 1) as int))) by {
            assert(q@ =~= (sp_question(s@, i as int)->0).0);
        }
    }
    Some((q, e + 1))
}

fn p_q_items(s: &Vec<char>, i: usize) -> (r: Option<(Vec<Question>, usize)>)
    requires
        i <= s@.len(),
    ensures
        match r {
            Some(v) => sp_q_items(s@, i as int) == Some((qviews(v.0@), v.1 as int)) && i < v.1
                <= s@.len(),
            None => sp_q_items(s@, i as int) is None,
        },
    decreases s@.len() - i,
{
    match p_question(s, i) {
        Some((q, j)) => {
            let k = p_ws(s, j);
            if k < s.len() && s[k] == ',' {
                match p_q_items(s, k + 1) {
                    Some((qs, m)) => {
                        let mut qs = qs;
                        let ghost rest_qv = qviews(qs@);
                        qs.insert(0, q);
                        proof {
                            assert(qviews(qs@) =~= seq![q@] + rest_qv);
                        }
                        Some((qs, m))
                    },
                    None => None,
                }
            } else if k < s.len() && s[k] == ']' {
                let mut qs: Vec<Question> = Vec::new();
                qs.push(q);
                proof {
                    assert(qviews(qs@) =~= seq![q@]);
                }
                Some((qs, k + 1))
            } else {
                None
            }
        },
        None => None,
    }
}

/// Parses a pool document.  Yields the questions exactly when the text is a
/// JSON array of well-formed question objects as [`sp_pool`] describes, and
/// nothing otherwise.
pub fn parse_questions(text: &str) -> (r: Option<Vec<Question>>)
    ensures
        match r {
            Some(qs) => sp_pool(text@) == Some(qviews(qs@)),
            None => sp_pool(text@) is None,
        },
{
    let s = chars_of(text);
    let j = p_ws(&s, 0);
    if !(j < s.len() && s[j] == '[') {
        return None;
    }
    let k = p_ws(&s, j + 1);
    if k < s.len() && s[k] == ']' {
        if p_ws(&s, k + 1) == s.len() {
            let qs: Vec<Question> = Vec::new();
            proof {
                assert(qviews(qs@) =~= Seq::<QuestionV>::empty());
            }
            return Some(qs);
        } else {
            return None;
        }
    }
    match p_q_items(&s, j + 1) {
        Some((qs, m)) => {
            if p_ws(&s, m) == s.len() {
                Some(qs)
            } else {
                None
            }
        },
        None => None,
    }
}

/// Reads a pool document as the question pool: a malformed document counts
/// as an empty pool.
pub fn load_question_pool(text: &str) -> (r: Vec<Question>)
    ensures
        match sp_pool(text@) {
            Some(qs) => qviews(r@) == qs,
            None => r@.len() == 0,
        },
{
    match parse_questions(text) {
        Some(qs) => qs,
        None => Vec::new(),
    }
}

// ---------------------------------------------------------------------------
// The writer.
// ---------------------------------------------------------------------------
/// The lower-case character of one hexadecimal digit value.
pub open spec fn hex_digit(d: nat) -> char {
    if d == 0 {
        '0'
    } else if d == 1 {
        '1'
    } else if d == 2 {
        '2'
    } else if d == 3 {
        '3'
    } else if d == 4 {
        '4'
    } else if d == 5 {
        '5'
    } else if d == 6 {
        '6'
    } else if d == 7 {
        '7'
    } else if d == 8 {
        '8'
    } else if d == 9 {
        '9'
    } else if d == 10 {
        'a'
    } else if d == 11 {
        'b'
    } else if d == 12 {
        'c'
    } else if d == 13 {
        'd'
    } else if d == 14 {
        'e'
    } else {
        'f'
    }
}

/// How one character is written inside a JSON string: quotes, backslashes
/// and control characters are escaped, everything else stands as itself.
pub open spec fn esc_char(c: char) -> Seq<char> {
    if c == '"' {
        seq!['\\', '"']
    } else if c == '\\' {
        seq!['\\', '\\']
    } else if c == '\u{8}' {
        seq!['\\', 'b']
    } else if c == '\u{c}' {
        seq!['\\', 'f']
    } else if c == '\n' {
        seq!['\\', 'n']
    } else if c == '\r' {
        seq!['\\', 'r']
    } else if c == '\t' {
        seq!['\\', 't']
    } else if (c as u32) < 32 {
        seq!['\\', 'u', '0', '0', hex_digit((c as u32 / 16) as nat), hex_digit(
            (c as u32 % 16) as nat,
        )]
    } else {
        seq![c]
    }
}

/// The escaped form of a whole text.
pub open spec fn esc_frag(s: Seq<char>) -> Seq<char>
    decreases s.len(),
{
    if s.len() == 0 {
        Seq::empty()
    } else {
        esc_char(s[0]) + esc_frag(s.drop_first())
    }
}

/// A JSON string token: the escaped text between quotes.
pub open spec fn ser_string(s: Seq<char>) -> Seq<char> {
    seq!['"'] + esc_frag(s) + seq!['"']
}

/// The written hint value: `null` or a string token.
pub open spec fn ser_hint(h: Option<Seq<char>>) -> Seq<char> {
    match h {
        None => seq!['n', 'u', 'l', 'l'],
        Some(v) => ser_string(v),
    }
}

/// The option strings, one per line, separated by commas.
pub open spec fn ser_opt_items(opts: Seq<Seq<char>>) -> Seq<char>
    decreases opts.len(),
{
    if opts.len() == 0 {
        Seq::empty()
    } else if opts.len() == 1 {
        ser_string(opts[0])
    } else {
        ser_string(opts[0]) + seq![',', '\n', ' ', ' ', ' ', ' ', ' ', ' '] + ser_opt_items(
            opts.drop_first(),
        )
    }
}

/// The written options array, pretty-printed.
pub open spec fn ser_options(opts: Seq<Seq<char>>) -> Seq<char> {
    if opts.len() == 0 {
        seq!['[', ']']
    } else {
        seq!['[', '\n', ' ', ' ', ' ', ' ', ' ', ' '] + ser_opt_items(opts) + seq!['\n', ' ', ' ',
            ' ', ' ', ']']
    }
}

/// A field's quoted key, colon and space.
pub open spec fn field_head(key: Seq<char>) -> Seq<char> {
    seq!['"'] + key + seq!['"', ':', ' ']
}

/// One written question object, pretty-printed at its place in the pool
/// array.
#[verifier::opaque]
pub open spec fn ser_question(q: QuestionV) -> Seq<char> {
    seq!['{', '\n', ' ', ' ', ' ', ' '] + field_head(key_question()) + ser_string(q.question)
        + seq![',', '\n', ' ', ' ', ' ', ' '] + field_head(key_answer()) + ser_string(q.answer)
        + seq![',', '\n', ' ', ' ', ' ', ' '] + field_head(key_hint()) + ser_hint(q.hint) + seq![
        ',',
        '\n',
        ' ',
        ' ',
        ' ',
        ' ',
    ] + field_head(key_options()) + ser_options(q.options) + seq!['\n', ' ', ' ', '}']
}

/// The written question objects, one per line pair, separated by commas.
pub open spec fn ser_q_items(qs: Seq<QuestionV>) -> Seq<char>
    decreases qs.len(),
{
    if qs.len() == 0 {
        Seq::empty()
    } else if qs.len() == 1 {
        ser_question(qs[0])
    } else {
        ser_question(qs[0]) + seq![',', '\n', ' ', ' '] + ser_q_items(qs.drop_first())
    }
}

/// The written pool document: the whole array, pretty-printed with
/// two-space indent.
pub open spec fn ser_pool(qs: Seq<QuestionV>) -> Seq<char> {
    if qs.len() == 0 {
        seq!['[', ']']
    } else {
        seq!['[', '\n', ' ', ' '] + ser_q_items(qs) + seq!['\n', ']']
    }
}

proof fn lemma_esc_frag_snoc(s: Seq<char>, c: char)
    ensures
        esc_frag(s.push(c)) == esc_frag(s) + esc_char(c),
    decreases s.len(),
{
    if s.len() == 0 {
        assert(s.push(c).drop_first() =~= Seq::<char>::empty());
        assert(esc_frag(Seq::<char>::empty()) == Seq::<char>::empty());
        assert(esc_frag(s.push(c)) =~= esc_frag(s) + esc_char(c));
    } else {
        assert(s.push(c).drop_first() =~= s.drop_first().push(c));
        lemma_esc_frag_snoc(s.drop_first(), c);
        assert(esc_frag(s.push(c)) =~= esc_frag(s) + esc_char(c));
    }
}

fn hex_char(d: u32) -> (c: char)
    requires
        d < 16,
    ensures
        c == hex_digit(d as nat),
{
    match d {
        0 => '0',
        1 => '1',
        2 => '2',
        3 => '3',
        4 => '4',
        5 => '5',
        6 => '6',
        7 => '7',
        8 => '8',
        9 => '9',
        10 => 'a',
        11 => 'b',
        12 => 'c',
        13 => 'd',
        14 => 'e',
        _ => 'f',
    }
}

fn push_escaped(out: &mut Vec<char>, s: &String)
    ensures
        final(out)@ == old(out)@ + ser_string(s@),
{
    out.push('"');
    let cs = chars_of(s.as_str());
    let mut i: usize = 0;
    while i < cs.len()
        invariant
            i <= cs@.len(),
            cs@ == s@,
            out@ == old(out)@ + seq!['"'] + esc_frag(s@.take(i as int)),
        decreases cs@.len() - i,
    {
        let c = cs[i];
        proof {
            assert(s@.take(i + 1).drop_last() =~= s@.take(i as int));
            assert(s@.take(i + 1) =~= s@.take(i as int).push(c));
            lemma_esc_frag_snoc(s@.take(i as int), c);
        }
        if c == '"' {
            out.push('\\');
            out.push('"');
        } else if c == '\\' {
            out.push('\\');
            out.push('\\');
        } else if c == '\u{8}' {
            out.push('\\');
            out.push('b');
        } else if c == '\u{c}' {
            out.push('\\');
            out.push('f');
        } else if c == '\n' {
            out.push('\\');
            out.push('n');
        } else if c == '\r' {
            out.push('\\');
            out.push('r');
        } else if c == '\t' {
            out.push('\\');
            out.push('t');
        } else if (c as u32) < 32 {
            out.push('\\');
            out.push('u');
            out.push('0');
            out.push('0');
            out.push(hex_char(c as u32 / 16));
            out.push(hex_char(c as u32 % 16));
        } else {
            out.push(c);
        }
        proof {
            assert(out@ =~= old(out)@ + seq!['"'] + esc_frag(s@.take(i + 1)));
        }
        i = i + 1;
    }
    out.push('"');
    proof {
        assert(s@.take(s@.len() as int) =~= s@);
        assert(out@ =~= old(out)@ + ser_string(s@));
    }
}

fn push_field_head(out: &mut Vec<char>, key: &Vec<char>)
    ensures
        final(out)@ == old(out)@ + seq![',', '\n', ' ', ' ', ' ', ' '] + field_head(key@),
{
    out.push(',');
    out.push('\n');
    out.push(' ');
    out.push(' ');
    out.push(' ');
    out.push(' ');
    out.push('"');
    let mut i: usize = 0;
    while i < key.len()
        invariant
            i <= key@.len(),
            out@ == old(out)@ + seq![',', '\n', ' ', ' ', ' ', ' ', '"'] + key@.take(i as int),
        decreases key@.len() - i,
    {
        out.push(key[i]);
        proof {
            assert(out@ =~= old(out)@ + seq![',', '\n', ' ', ' ', ' ', ' ', '"'] + key@.take(
                i + 1,
            ));
        }
        i = i + 1;
    }
    out.push('"');
    out.push(':');
    out.push(' ');
    proof {
        assert(key@.take(key@.len() as int) =~= key@);
        assert(out@ =~= old(out)@ + seq![',', '\n', ' ', ' ', ' ', ' '] + field_head(key@));
    }
}

fn push_object_open(out: &mut Vec<char>)
    ensures
        final(out)@ == old(out)@ + seq!['{', '\n', ' ', ' ', ' ', ' '] + field_head(
            key_question(),
        ),
{
    out.push('{');
    out.push('\n');
    out.push(' ');
    out.push(' ');
    out.push(' ');
    out.push(' ');
    out.push('"');
    out.push('q');
    out.push('u');
    out.push('e');
    out.push('s');
    out.push('t');
    out.push('i');
    out.push('o');
    out.push('n');
    out.push('"');
    out.push(':');
    out.push(' ');
    proof {
        assert(out@ =~= old(out)@ + seq!['{', '\n', ' ', ' ', ' ', ' '] + field_head(
            key_question(),
        ));
    }
}

fn push_hint(out: &mut Vec<char>, hint: &Option<String>)
    ensures
        final(out)@ == old(out)@ + ser_hint(hint.deep_view()),
{
    match hint {
        Some(h) => {
            push_escaped(out, h);
        },
        None => {
            out.push('n');
            out.push('u');
            out.push('l');
            out.push('l');
            proof {
                assert(out@ =~= old(out)@ + ser_hint(hint.deep_view()));
            }
        },
    }
}

fn push_options(out: &mut Vec<char>, options: &Vec<String>)
    ensures
        final(out)@ == old(out)@ + ser_options(options.deep_view()),
{
    let ghost base = out@;
    let ghost dv = options.deep_view();
    proof {
        assert forall|t: int| 0 <= t < options@.len() implies dv[t] == options@[t]@ by {}
    }
    if options.len() == 0 {
        out.push('[');
        out.push(']');
        proof {
            assert(out@ =~= base + ser_options(dv));
        }
        return ;
    }
    out.push('[');
    out.push('\n');
    out.push(' ');
    out.push(' ');
    out.push(' ');
    out.push(' ');
    out.push(' ');
    out.push(' ');
    push_escaped(out, &options[0]);
    proof {
        assert(dv.take(1) =~= seq![dv[0]]);
        assert(ser_opt_items(seq![dv[0]]) == ser_string(dv[0]));
        assert(out@ =~= base + seq!['[', '\n', ' ', ' ', ' ', ' ', ' ', ' '] + ser_opt_items(
            dv.take(1),
        ));
    }
    let mut i: usize = 1;
    while i < options.len()
        invariant
            1 <= i <= options@.len(),
            dv == options.deep_view(),
            dv.len() == options@.len(),
            forall|t: int| 0 <= t < options@.len() ==> dv[t] == #[trigger] options@[t]@,
            out@ == base + seq!['[', '\n', ' ', ' ', ' ', ' ', ' ', ' '] + ser_opt_items(
                dv.take(i as int),
            ),
        decreases options@.len() - i,
    {
        out.push(',');
        out.push('\n');
        out.push(' ');
        out.push(' ');
        out.push(' ');
        out.push(' ');
        out.push(' ');
        out.push(' ');
        push_escaped(out, &options[i]);
        proof {
            lemma_ser_opt_items_snoc(dv.take(i as int), dv[i as int]);
            assert(dv.take(i + 1) =~= dv.take(i as int).push(dv[i as int]));
            assert(out@ =~= base + seq!['[', '\n', ' ', ' ', ' ', ' ', ' ', ' '] + ser_opt_items(
                dv.take(i + 1),
            ));
        }
        i = i + 1;
    }
    out.push('\n');
    out.push(' ');
    out.push(' ');
    out.push(' ');
    out.push(' ');
    out.push(']');
    proof {
        assert(dv.take(dv.len() as int) =~= dv);
        assert(out@ =~= base + ser_options(dv));
    }
}

fn push_question(out: &mut Vec<char>, q: &Question)
    ensures
        final(out)@ == old(out)@ + ser_question(q@),
{
    push_object_open(out);
    push_escaped(out, &q.question);
    push_field_head(out, &answer_key());
    push_escaped(out, &q.answer);
    push_field_head(out, &hint_key());
    push_hint(out, &q.hint);
    push_field_head(out, &options_key());
    push_options(out, &q.options);
    out.push('\n');
    out.push(' ');
    out.push(' ');
    out.push('}');
    proof {
        reveal(ser_question);
        assert(q@.hint == q.hint.deep_view());
        assert(q@.options == q.options.deep_view());
        assert(out@ =~= old(out)@ + ser_question(q@));
    }
}

proof fn lemma_ser_opt_items_snoc(opts: Seq<Seq<char>>, v: Seq<char>)
    requires
        opts.len() >= 1,
    ensures
        ser_opt_items(opts.push(v)) == ser_opt_items(opts) + seq![',', '\n', ' ', ' ', ' ', ' ',
            ' ', ' '] + ser_string(v),
    decreases opts.len(),
{
    if opts.len() == 1 {
        assert(opts.push(v).drop_first() =~= seq![v]);
        assert(ser_opt_items(seq![v]) == ser_string(v));
        assert(ser_opt_items(opts.push(v)) =~= ser_opt_items(opts) + seq![',', '\n', ' ', ' ', ' ',
            ' ', ' ', ' '] + ser_string(v));
    } else {
        assert(opts.push(v).drop_first() =~= opts.drop_first().push(v));
        lemma_ser_opt_items_snoc(opts.drop_first(), v);
        assert(ser_opt_items(opts.push(v)) =~= ser_opt_items(opts) + seq![',', '\n', ' ', ' ', ' ',
            ' ', ' ', ' '] + ser_string(v));
    }
}

proof fn lemma_ser_q_items_snoc(qs: Seq<QuestionV>, q: QuestionV)
    requires
        qs.len() >= 1,
    ensures
        ser_q_items(qs.push(q)) == ser_q_items(qs) + seq![',', '\n', ' ', ' '] + ser_question(q),
    decreases qs.len(),
{
    if qs.len() == 1 {
        assert(qs.push(q).drop_first() =~= seq![q]);
        assert(ser_q_items(seq![q]) == ser_question(q));
        assert(ser_q_items(qs.push(q)) =~= ser_q_items(qs) + seq![',', '\n', ' ', ' ']
            + ser_question(q));
    } else {
        assert(qs.push(q).drop_first() =~= qs.drop_first().push(q));
        lemma_ser_q_items_snoc(qs.drop_first(), q);
        assert(ser_q_items(qs.push(q)) =~= ser_q_items(qs) + seq![',', '\n', ' ', ' ']
            + ser_question(q));
    }
}

/// Writes a pool as the pretty-printed JSON document that
/// [`load_question_pool`] reads back.
pub fn serialize_questions(pool: &Vec<Question>) -> (r: String)
    ensures
        r@ == ser_pool(qviews(pool@)),
{
    let mut out: Vec<char> = Vec::new();
    if pool.len() == 0 {
        out.push('[');
        out.push(']');
        proof {
            assert(qviews(pool@) =~= Seq::<QuestionV>::empty());
            assert(out@ =~= ser_pool(qviews(pool@)));
        }
        return string_from_chars(&out);
    }
    out.push('[');
    out.push('\n');
    out.push(' ');
    out.push(' ');
    push_question(&mut out, &pool[0]);
    proof {
        assert(qviews(pool@).take(1) =~= seq![pool@[0]@]);
        assert(ser_q_items(seq![pool@[0]@]) == ser_question(pool@[0]@));
        assert(out@ =~= seq!['[', '\n', ' ', ' '] + ser_q_items(qviews(pool@).take(1)));
    }
    let mut i: usize = 1;
    while i < pool.len()
        invariant
            1 <= i <= pool@.len(),
            out@ == seq!['[', '\n', ' ', ' '] + ser_q_items(qviews(pool@).take(i as int)),
        decreases pool@.len() - i,
    {
        out.push(',');
        out.push('\n');
        out.push(' ');
        out.push(' ');
        push_question(&mut out, &pool[i]);
        proof {
            lemma_ser_q_items_snoc(qviews(pool@).take(i as int), pool@[i as int]@);
            assert(qviews(pool@).take(i + 1) =~= qviews(pool@).take(i as int).push(
                pool@[i as int]@,
            ));
            assert(out@ =~= seq!['[', '\n', ' ', ' '] + ser_q_items(qviews(pool@).take(i + 1)));
        }
        i = i + 1;
    }
    out.push('\n');
    out.push(']');
    proof {
        assert(qviews(pool@).take(qviews(pool@).len() as int) =~= qviews(pool@));
        assert(out@ =~= ser_pool(qviews(pool@)));
    }
    string_from_chars(&out)
}

/// Appends one question to the pool and writes the grown pool as the
/// document to put back on disk: the document reads back as the old pool
/// followed by the new question.
pub fn add_question_to_json(pool: &Vec<Question>, new_question: &Question) -> (r: String)
    ensures
        r@ == ser_pool(qviews(pool@).push(new_question@)),
{
    let mut grown: Vec<Question> = Vec::new();
    let mut i: usize = 0;
    while i < pool.len()
        invariant
            i <= pool@.len(),
            grown@.len() == i,
            forall|t: int| 0 <= t < i ==> grown@[t]@ == #[trigger] pool@[t]@,
        decreases pool@.len() - i,
    {
        grown.push(clone_question(&pool[i]));
        i = i + 1;
    }
    grown.push(clone_question(new_question));
    let r = serialize_questions(&grown);
    proof {
        assert(qviews(grown@) =~= qviews(pool@).push(new_question@));
    }
    r
}

/// A field's quoted key and colon, as written without spacing.
pub open spec fn field_head_compact(key: Seq<char>) -> Seq<char> {
    seq!['"'] + key + seq!['"', ':']
}

/// The option strings separated by bare commas.
pub open spec fn ser_opt_items_compact(opts: Seq<Seq<char>>) -> Seq<char>
    decreases opts.len(),
{
    if opts.len() == 0 {
        Seq::empty()
    } else if opts.len() == 1 {
        ser_string(opts[0])
    } else {
        ser_string(opts[0]) + seq![','] + ser_opt_items_compact(opts.drop_first())
    }
}

/// One question object written without any spacing, as a single row of an
/// export holds it.
pub open spec fn ser_question_compact(q: QuestionV) -> Seq<char> {
    seq!['{'] + field_head_compact(key_question()) + ser_string(q.question) + seq![',']
        + field_head_compact(key_answer()) + ser_string(q.answer) + seq![','] + field_head_compact(
        key_hint(),
    ) + ser_hint(q.hint) + seq![','] + field_head_compact(key_options()) + seq!['[']
        + ser_opt_items_compact(q.options) + seq![']', '}']
}

proof fn lemma_ser_opt_items_compact_snoc(opts: Seq<Seq<char>>, v: Seq<char>)
    requires
        opts.len() >= 1,
    ensures
        ser_opt_items_compact(opts.push(v)) == ser_opt_items_compact(opts) + seq![','] + ser_string(
            v,
        ),
    decreases opts.len(),
{
    if opts.len() == 1 {
        assert(opts.push(v).drop_first() =~= seq![v]);
        assert(ser_opt_items_compact(seq![v]) == ser_string(v));
        assert(ser_opt_items_compact(opts.push(v)) =~= ser_opt_items_compact(opts) + seq![',']
            + ser_string(v));
    } else {
        assert(opts.push(v).drop_first() =~= opts.drop_first().push(v));
        lemma_ser_opt_items_compact_snoc(opts.drop_first(), v);
        assert(ser_opt_items_compact(opts.push(v)) =~= ser_opt_items_compact(opts) + seq![',']
            + ser_string(v));
    }
}

fn push_key_compact(out: &mut Vec<char>, key: &Vec<char>)
    ensures
        final(out)@ == old(out)@ + field_head_compact(key@),
{
    out.push('"');
    let ghost base = out@;
    let mut i: usize = 0;
    while i < key.len()
        invariant
            i <= key@.len(),
            out@ == base + key@.take(i as int),
        decreases key@.len() - i,
    {
        out.push(key[i]);
        proof {
            assert(out@ =~= base + key@.take(i + 1));
        }
        i = i + 1;
    }
    out.push('"');
    out.push(':');
    proof {
        assert(key@.take(key@.len() as int) =~= key@);
        assert(out@ =~= old(out)@ + field_head_compact(key@));
    }
}

/// Writes one question as a compact JSON object, the shape stored per row
/// by the database exporter.
pub fn question_to_json(q: &Question) -> (r: String)
    ensures
        r@ == ser_question_compact(q@),
{
    let mut out: Vec<char> = Vec::new();
    out.push('{');
    push_key_compact(&mut out, &question_key());
    push_escaped(&mut out, &q.question);
    out.push(',');
    push_key_compact(&mut out, &answer_key());
    push_escaped(&mut out, &q.answer);
    out.push(',');
    push_key_compact(&mut out, &hint_key());
    match &q.hint {
        Some(h) => {
            push_escaped(&mut out, h);
        },
        None => {
            out.push('n');
            out.push('u');
            out.push('l');
            out.push('l');
        },
    }
    out.push(',');
    push_key_compact(&mut out, &options_key());
    out.push('[');
    let ghost base = out@;
    let ghost dv = q@.options;
    let mut i: usize = 0;
    while i < q.options.len()
        invariant
            i <= q.options@.len(),
            dv == q@.options,
            dv.len() == q.options@.len(),
            forall|t: int| 0 <= t < dv.len() ==> #[trigger] dv[t] == q.options@[t]@,
            out@ == base + ser_opt_items_compact(dv.take(i as int)),
        decreases q.options@.len() - i,
    {
        if i > 0 {
            out.push(',');
            push_escaped(&mut out, &q.options[i]);
            proof {
                lemma_ser_opt_items_compact_snoc(dv.take(i as int), dv[i as int]);
                assert(dv.take(i + 1) =~= dv.take(i as int).push(dv[i as int]));
                assert(out@ =~= base + ser_opt_items_compact(dv.take(i + 1)));
            }
        } else {
            push_escaped(&mut out, &q.options[i]);
            proof {
                assert(dv.take(1) =~= seq![dv[0]]);
                assert(ser_opt_items_compact(seq![dv[0]]) == ser_string(dv[0]));
                assert(out@ =~= base + ser_opt_items_compact(dv.take(1)));
            }
        }
        i = i + 1;
    }
    out.push(']');
    out.push('}');
    proof {
        assert(dv.take(dv.len() as int) =~= dv);
        assert(q@.hint == q.hint.deep_view());
        assert(out@ =~= ser_question_compact(q@));
    }
    string_from_chars(&out)
}

// ---------------------------------------------------------------------------
// The round trip: parsing what the writer produced gives back the pool.
// ---------------------------------------------------------------------------
proof fn lemma_matches_index(s: Seq<char>, i: int, pat: Seq<char>, m: int)
    requires
        matches_at(s, i, pat),
        0 <= m < pat.len(),
    ensures
        s[i + m] == pat[m],
{
    assert(s.subrange(i, i + pat.len())[m] == pat[m]);
}

proof fn lemma_matches_split(s: Seq<char>, i: int, a: Seq<char>, b: Seq<char>)
    requires
        matches_at(s, i, a + b),
    ensures
        matches_at(s, i, a),
        matches_at(s, i + a.len(), b),
{
    assert forall|m: int| 0 <= m < (a + b).len() implies s[i + m] == (a + b)[m] by {
        assert(s.subrange(i, i + (a + b).len())[m] == (a + b)[m]);
    }
    assert(s.subrange(i, i + a.len()) =~= a);
    assert forall|t: int|
        0 <= t < b.len() implies s.subrange(i + a.len(), i + a.len() + b.len())[t] == b[t] by {
        assert(s[i + (a.len() + t)] == (a + b)[a.len() + t]);
    }
    assert(s.subrange(i + a.len(), i + a.len() + b.len()) =~= b);
}

proof fn lemma_ws_end_at(s: Seq<char>, i: int, j: int)
    requires
        0 <= i <= j <= s.len(),
        forall|m: int| i <= m < j ==> is_json_ws(#[trigger] s[m]),
        j < s.len() ==> !is_json_ws(s[j]),
    ensures
        ws_end(s, i) == j,
    decreases j - i,
{
    if i < j {
        lemma_ws_end_at(s, i + 1, j);
    }
}

proof fn lemma_hex_rt(d: nat)
    requires
        d < 16,
    ensures
        hex_val(hex_digit(d)) == Some(d),
{
}

proof fn lemma_rt_strbody(s: Seq<char>, i: int, v: Seq<char>)
    requires
        matches_at(s, i, esc_frag(v) + seq!['"']),
    ensures
        sp_strbody(s, i) == Some((v, i + esc_frag(v).len() + 1)),
    decreases v.len(),
{
    let pat = esc_frag(v) + seq!['"'];
    if v.len() == 0 {
        assert(esc_frag(v) == Seq::<char>::empty());
        lemma_matches_index(s, i, pat, 0);
        assert(s[i] == '"');
        assert(sp_strbody(s, i) == Some((Seq::<char>::empty(), i + 1)));
        assert(v =~= Seq::<char>::empty());
    } else {
        let c = v[0];
        let rest = v.drop_first();
        let e = esc_char(c);
        assert(esc_frag(v) == e + esc_frag(rest));
        let tailpat = esc_frag(rest) + seq!['"'];
        assert(pat =~= e + tailpat);
        lemma_matches_split(s, i, e, tailpat);
        lemma_rt_strbody(s, i + e.len(), rest);
        assert(seq![c] + rest =~= v);
        if c == '"' || c == '\\' || c == '\u{8}' || c == '\u{c}' || c == '\n' || c == '\r' || c
            == '\t' {
            lemma_matches_index(s, i, e, 0);
            lemma_matches_index(s, i, e, 1);
            assert(s[i] == '\\');
            assert(unescape_char(s[i + 1]) == Some(c));
            assert(s[i + 1] != 'u');
            assert(sp_strbody(s, i) == Some((v, i + esc_frag(v).len() + 1)));
        } else if (c as u32) < 32 {
            let hi = (c as u32 / 16) as nat;
            let lo = (c as u32 % 16) as nat;
            lemma_matches_index(s, i, e, 0);
            lemma_matches_index(s, i, e, 1);
            lemma_matches_index(s, i, e, 2);
            lemma_matches_index(s, i, e, 3);
            lemma_matches_index(s, i, e, 4);
            lemma_matches_index(s, i, e, 5);
            assert(s[i] == '\\' && s[i + 1] == 'u' && s[i + 2] == '0' && s[i + 3] == '0');
            assert(s[i + 4] == hex_digit(hi) && s[i + 5] == hex_digit(lo));
            lemma_hex_rt(hi);
            lemma_hex_rt(lo);
            assert(hex_val(s[i + 2]) == Some(0nat));
            assert(hex_val(s[i + 3]) == Some(0nat));
            let value: nat = 0nat * 4096 + 0nat * 256 + hi * 16 + lo;
            assert(value == c as u32) by {
                assert(c as u32 == 16 * (c as u32 / 16) + c as u32 % 16);
            }
            assert(value < 128);
            vstd::utf8::char_u32_cast(c, c as u32);
            assert(((value as u32) as char) == c);
            assert(sp_strbody(s, i) == Some((v, i + esc_frag(v).len() + 1)));
        } else {
            lemma_matches_index(s, i, e, 0);
            assert(s[i] == c);
            assert(c != '"' && c != '\\' && (c as u32) >= 32);
            assert(sp_strbody(s, i) == Some((v, i + esc_frag(v).len() + 1)));
        }
    }
}

proof fn lemma_rt_string(s: Seq<char>, i0: int, h: int, v: Seq<char>)
    requires
        0 <= i0,
        ws_end(s, i0) == h,
        matches_at(s, h, ser_string(v)),
    ensures
        sp_string(s, i0) == Some((v, h + ser_string(v).len())),
{
    lemma_matches_index(s, h, ser_string(v), 0);
    assert(s[h] == '"');
    assert(ser_string(v) =~= seq!['"'] + (esc_frag(v) + seq!['"']));
    lemma_matches_split(s, h, seq!['"'], esc_frag(v) + seq!['"']);
    lemma_rt_strbody(s, h + 1, v);
}

proof fn lemma_rt_hint(s: Seq<char>, i0: int, h: int, hint: Option<Seq<char>>)
    requires
        0 <= i0,
        ws_end(s, i0) == h,
        matches_at(s, h, ser_hint(hint)),
    ensures
        sp_hint(s, i0) == Some((hint, h + ser_hint(hint).len())),
{
    match hint {
        None => {
            assert(matches_at(s, h, seq!['n', 'u', 'l', 'l']));
        },
        Some(v) => {
            lemma_matches_index(s, h, ser_hint(hint), 0);
            assert(s[h] == '"');
            assert(!matches_at(s, h, seq!['n', 'u', 'l', 'l'])) by {
                if matches_at(s, h, seq!['n', 'u', 'l', 'l']) {
                    lemma_matches_index(s, h, seq!['n', 'u', 'l', 'l'], 0);
                }
            }
            lemma_rt_string(s, i0, h, v);
        },
    }
}

proof fn lemma_rt_key(s: Seq<char>, i0: int, h: int, key: Seq<char>)
    requires
        0 <= i0,
        ws_end(s, i0) == h,
        matches_at(s, h, field_head(key)),
    ensures
        sp_key(s, i0, key) == Some(h + key.len() + 3),
        s[h + key.len() + 3] == ' ',
{
    assert(field_head(key) =~= (seq!['"'] + key + seq!['"']) + seq![':', ' ']);
    lemma_matches_split(s, h, seq!['"'] + key + seq!['"'], seq![':', ' ']);
    let k = h + key.len() + 2;
    lemma_matches_index(s, k, seq![':', ' '], 0);
    lemma_matches_index(s, k, seq![':', ' '], 1);
    assert(s[k] == ':' && s[k + 1] == ' ');
    assert(ws_end(s, k) == k);
}

proof fn lemma_rt_opt_items(s: Seq<char>, i0: int, h: int, opts: Seq<Seq<char>>)
    requires
        opts.len() >= 1,
        0 <= i0,
        ws_end(s, i0) == h,
        matches_at(s, h, ser_opt_items(opts) + seq!['\n', ' ', ' ', ' ', ' ', ']']),
    ensures
        sp_str_items(s, i0) == Some((opts, h + ser_opt_items(opts).len() + 6)),
    decreases opts.len(),
{
    let tail = seq!['\n', ' ', ' ', ' ', ' ', ']'];
    if opts.len() == 1 {
        assert(ser_opt_items(opts) == ser_string(opts[0]));
        lemma_matches_split(s, h, ser_string(opts[0]), tail);
        lemma_rt_string(s, i0, h, opts[0]);
        let j = h + ser_string(opts[0]).len();
        lemma_matches_index(s, j, tail, 0);
        lemma_matches_index(s, j, tail, 1);
        lemma_matches_index(s, j, tail, 2);
        lemma_matches_index(s, j, tail, 3);
        lemma_matches_index(s, j, tail, 4);
        lemma_matches_index(s, j, tail, 5);
        lemma_ws_end_at(s, j, j + 5);
        assert(s[j + 5] == ']');
        assert(seq![opts[0]] =~= opts);
        assert(sp_str_items(s, i0) == Some((opts, h + ser_opt_items(opts).len() + 6)));
    } else {
        let sep = seq![',', '\n', ' ', ' ', ' ', ' ', ' ', ' '];
        let rest = opts.drop_first();
        assert(ser_opt_items(opts) == ser_string(opts[0]) + sep + ser_opt_items(rest));
        assert(ser_opt_items(opts) + tail =~= ser_string(opts[0]) + (sep + (ser_opt_items(rest)
            + tail)));
        lemma_matches_split(s, h, ser_string(opts[0]), sep + (ser_opt_items(rest) + tail));
        lemma_rt_string(s, i0, h, opts[0]);
        let j = h + ser_string(opts[0]).len();
        lemma_matches_split(s, j, sep, ser_opt_items(rest) + tail);
        lemma_matches_index(s, j, sep, 0);
        lemma_matches_index(s, j, sep, 1);
        lemma_matches_index(s, j, sep, 2);
        lemma_matches_index(s, j, sep, 3);
        lemma_matches_index(s, j, sep, 4);
        lemma_matches_index(s, j, sep, 5);
        lemma_matches_index(s, j, sep, 6);
        lemma_matches_index(s, j, sep, 7);
        assert(s[j] == ',');
        assert(ws_end(s, j) == j);
        assert(ser_opt_items(rest)[0] == '"') by {
            if rest.len() == 1 {
                assert(ser_opt_items(rest) == ser_string(rest[0]));
            }
            assert(ser_string(rest[0])[0] == '"');
        }
        lemma_matches_index(s, j + 8, ser_opt_items(rest) + tail, 0);
        assert(s[j + 8] == '"');
        lemma_ws_end_at(s, j + 1, j + 8);
        lemma_matches_split(s, j + 8, ser_opt_items(rest), tail);
        assert(matches_at(s, j + 8, ser_opt_items(rest) + tail));
        lemma_rt_opt_items(s, j + 1, j + 8, rest);
        assert(seq![opts[0]] + rest =~= opts);
        assert(sp_str_items(s, i0) == Some((opts, h + ser_opt_items(opts).len() + 6)));
    }
}

proof fn lemma_rt_str_array(s: Seq<char>, i0: int, h: int, opts: Seq<Seq<char>>)
    requires
        opts.len() >= 1,
        0 <= i0,
        ws_end(s, i0) == h,
        matches_at(s, h, ser_options(opts)),
    ensures
        sp_str_array(s, i0) == Some((opts, h + ser_options(opts).len())),
{
    let head = seq!['[', '\n', ' ', ' ', ' ', ' ', ' ', ' '];
    let tail = seq!['\n', ' ', ' ', ' ', ' ', ']'];
    assert(ser_options(opts) =~= head + (ser_opt_items(opts) + tail));
    lemma_matches_split(s, h, head, ser_opt_items(opts) + tail);
    lemma_matches_index(s, h, head, 0);
    lemma_matches_index(s, h, head, 1);
    lemma_matches_index(s, h, head, 2);
    lemma_matches_index(s, h, head, 3);
    lemma_matches_index(s, h, head, 4);
    lemma_matches_index(s, h, head, 5);
    lemma_matches_index(s, h, head, 6);
    lemma_matches_index(s, h, head, 7);
    assert(s[h] == '[');
    assert(ser_opt_items(opts)[0] == '"') by {
        if opts.len() == 1 {
            assert(ser_opt_items(opts) == ser_string(opts[0]));
        }
        assert(ser_string(opts[0])[0] == '"');
    }
    lemma_matches_index(s, h + 8, ser_opt_items(opts) + tail, 0);
    assert(s[h + 8] == '"');
    lemma_ws_end_at(s, h + 1, h + 8);
    lemma_rt_opt_items(s, h + 1, h + 8, opts);
    assert(sp_str_array(s, i0) == Some((opts, h + ser_options(opts).len())));
}

proof fn lemma_rt_sep_key(s: Seq<char>, c: int, key: Seq<char>)
    requires
        matches_at(s, c, seq![',', '\n', ' ', ' ', ' ', ' '] + field_head(key)),
    ensures
        s[c] == ',',
        ws_end(s, c) == c,
        sp_key(s, c + 1, key) == Some(c + key.len() + 9),
        s[c + key.len() + 9] == ' ',
{
    let pre = seq![',', '\n', ' ', ' ', ' ', ' '];
    lemma_matches_split(s, c, pre, field_head(key));
    lemma_matches_index(s, c, pre, 0);
    lemma_matches_index(s, c, pre, 1);
    lemma_matches_index(s, c, pre, 2);
    lemma_matches_index(s, c, pre, 3);
    lemma_matches_index(s, c, pre, 4);
    lemma_matches_index(s, c, pre, 5);
    lemma_matches_index(s, c + 6, field_head(key), 0);
    assert(s[c + 6] == '"');
    lemma_ws_end_at(s, c + 1, c + 6);
    lemma_rt_key(s, c + 1, c + 6, key);
}

#[verifier::rlimit(100)]
proof fn lemma_rt_question(s: Seq<char>, i0: int, h: int, q: QuestionV)
    requires
        0 <= i0,
        ws_end(s, i0) == h,
        matches_at(s, h, ser_question(q)),
        q.options.len() == 4,
    ensures
        sp_question(s, i0) == Some((q, h + ser_question(q).len())),
{
    reveal(ser_question);
    let pre = seq!['{', '\n', ' ', ' ', ' ', ' '];
    let fh_q = field_head(key_question());
    let ss_q = ser_string(q.question);
    let sep = seq![',', '\n', ' ', ' ', ' ', ' '];
    let fh_a = field_head(key_answer());
    let ss_a = ser_string(q.answer);
    let fh_h = field_head(key_hint());
    let sh = ser_hint(q.hint);
    let fh_o = field_head(key_options());
    let so = ser_options(q.options);
    let close = seq!['\n', ' ', ' ', '}'];
    let r9 = close;
    let r8 = so + r9;
    let r7 = sep + fh_o + r8;
    let r6 = sh + r7;
    let r5 = sep + fh_h + r6;
    let r4 = ss_a + r5;
    let r3 = sep + fh_a + r4;
    let r2 = ss_q + r3;
    let r1 = (pre + fh_q) + r2;
    assert(ser_question(q) =~= r1);
    lemma_matches_split(s, h, pre + fh_q, r2);
    lemma_matches_split(s, h, pre, fh_q);
    lemma_matches_index(s, h, pre, 0);
    lemma_matches_index(s, h, pre, 1);
    lemma_matches_index(s, h, pre, 2);
    lemma_matches_index(s, h, pre, 3);
    lemma_matches_index(s, h, pre, 4);
    lemma_matches_index(s, h, pre, 5);
    assert(s[h] == '{');
    lemma_matches_index(s, h + 6, fh_q, 0);
    assert(s[h + 6] == '"');
    lemma_ws_end_at(s, h + 1, h + 6);
    lemma_rt_key(s, h + 1, h + 6, key_question());
    let i1 = h + 6 + key_question().len() + 3;
    assert(i1 == h + 17);
    assert(s[i1] == ' ');
    // the question string
    let hq = h + 18;
    lemma_matches_split(s, hq, ss_q, r3);
    lemma_matches_index(s, hq, ss_q, 0);
    lemma_ws_end_at(s, i1 + 1, hq);
    lemma_ws_end_at(s, i1, hq);
    lemma_rt_string(s, i1, hq, q.question);
    let i2 = hq + ss_q.len();
    // the answer field
    lemma_matches_split(s, i2, sep + fh_a, r4);
    assert(sep + fh_a =~= sep + fh_a);
    lemma_rt_sep_key(s, i2, key_answer());
    let i3 = i2 + key_answer().len() + 9;
    let ha = i3 + 1;
    lemma_matches_split(s, ha, ss_a, r5);
    lemma_matches_index(s, ha, ss_a, 0);
    lemma_ws_end_at(s, i3, ha);
    lemma_rt_string(s, i3, ha, q.answer);
    let i4 = ha + ss_a.len();
    // the hint field
    lemma_matches_split(s, i4, sep + fh_h, r6);
    lemma_rt_sep_key(s, i4, key_hint());
    let i5 = i4 + key_hint().len() + 9;
    let hh = i5 + 1;
    lemma_matches_split(s, hh, sh, r7);
    lemma_matches_index(s, hh, sh, 0);
    assert(!is_json_ws(s[hh])) by {
        match q.hint {
            None => {
                assert(sh[0] == 'n');
            },
            Some(v) => {
                assert(sh[0] == '"');
            },
        }
    }
    lemma_ws_end_at(s, i5, hh);
    lemma_rt_hint(s, i5, hh, q.hint);
    let i6 = hh + sh.len();
    // the options field
    lemma_matches_split(s, i6, sep + fh_o, r8);
    lemma_rt_sep_key(s, i6, key_options());
    let i7 = i6 + key_options().len() + 9;
    let ho = i7 + 1;
    lemma_matches_split(s, ho, so, r9);
    lemma_matches_index(s, ho, so, 0);
    assert(s[ho] == '[');
    lemma_ws_end_at(s, i7, ho);
    lemma_rt_str_array(s, i7, ho, q.options);
    let i8 = ho + so.len();
    // the closing brace
    lemma_matches_index(s, i8, close, 0);
    lemma_matches_index(s, i8, close, 1);
    lemma_matches_index(s, i8, close, 2);
    lemma_matches_index(s, i8, close, 3);
    lemma_ws_end_at(s, i8, i8 + 3);
    assert(s[i8 + 3] == '}');
    assert((sp_question(s, i0)->0).0 =~= q);
    assert(sp_question(s, i0) == Some((q, h + ser_question(q).len())));
}

proof fn lemma_ser_question_first(q: QuestionV)
    ensures
        ser_question(q).len() >= 1,
        ser_question(q)[0] == '{',
{
    reveal(ser_question);
}

#[verifier::rlimit(100)]
#[verifier::spinoff_prover]
proof fn lemma_rt_q_items(s: Seq<char>, i0: int, h: int, qs: Seq<QuestionV>)
    requires
        qs.len() >= 1,
        forall|k: int| 0 <= k < qs.len() ==> (#[trigger] qs[k]).options.len() == 4,
        0 <= i0,
        ws_end(s, i0) == h,
        matches_at(s, h, ser_q_items(qs) + seq!['\n', ']']),
    ensures
        sp_q_items(s, i0) == Some((qs, h + ser_q_items(qs).len() + 2)),
    decreases qs.len(),
{
    let tail = seq!['\n', ']'];
    if qs.len() == 1 {
        assert(ser_q_items(qs) == ser_question(qs[0]));
        lemma_matches_split(s, h, ser_question(qs[0]), tail);
        lemma_rt_question(s, i0, h, qs[0]);
        let j = h + ser_question(qs[0]).len();
        lemma_matches_index(s, j, tail, 0);
        lemma_matches_index(s, j, tail, 1);
        lemma_ws_end_at(s, j, j + 1);
        assert(s[j + 1] == ']');
        assert(seq![qs[0]] =~= qs);
        assert(sp_q_items(s, i0) == Some((qs, h + ser_q_items(qs).len() + 2)));
    } else {
        let sep = seq![',', '\n', ' ', ' '];
        let rest = qs.drop_first();
        assert(ser_q_items(qs) == ser_question(qs[0]) + sep + ser_q_items(rest));
        assert(ser_q_items(qs) + tail =~= ser_question(qs[0]) + (sep + (ser_q_items(rest)
            + tail)));
        lemma_matches_split(s, h, ser_question(qs[0]), sep + (ser_q_items(rest) + tail));
        lemma_rt_question(s, i0, h, qs[0]);
        let j = h + ser_question(qs[0]).len();
        lemma_matches_split(s, j, sep, ser_q_items(rest) + tail);
        lemma_matches_index(s, j, sep, 0);
        lemma_matches_index(s, j, sep, 1);
        lemma_matches_index(s, j, sep, 2);
        lemma_matches_index(s, j, sep, 3);
        assert(s[j] == ',');
        assert(ws_end(s, j) == j);
        assert(ser_q_items(rest).len() >= 1 && ser_q_items(rest)[0] == '{') by {
            lemma_ser_question_first(rest[0]);
            if rest.len() == 1 {
                assert(ser_q_items(rest) == ser_question(rest[0]));
            }
        }
        lemma_matches_index(s, j + 4, ser_q_items(rest) + tail, 0);
        assert(s[j + 4] == '{');
        lemma_ws_end_at(s, j + 1, j + 4);
        lemma_rt_q_items(s, j + 1, j + 4, rest);
        assert(seq![qs[0]] + rest =~= qs);
        assert(sp_question(s, i0) == Some((qs[0], j)));
        assert(sp_q_items(s, j + 1) == Some((rest, j + 4 + ser_q_items(rest).len() + 2)));
        assert(ser_q_items(qs).len() == ser_question(qs[0]).len() + 4 + ser_q_items(rest).len());
        assert(sp_q_items(s, i0) == Some((qs, h + ser_q_items(qs).len() + 2)));
    }
}

/// The store's round trip: the document written for a pool of well-formed
/// questions parses back to exactly that pool.
#[verifier::rlimit(100)]
#[verifier::spinoff_prover]
pub proof fn lemma_store_round_trip(qs: Seq<QuestionV>)
    requires
        forall|k: int| 0 <= k < qs.len() ==> (#[trigger] qs[k]).options.len() == 4,
    ensures
        sp_pool(ser_pool(qs)) == Some(qs),
{
    let s = ser_pool(qs);
    if qs.len() == 0 {
        assert(s =~= seq!['[', ']']);
        assert(ws_end(s, 0) == 0);
        assert(ws_end(s, 1) == 1);
        assert(ws_end(s, 2) == 2);
        assert(sp_pool(s) == Some(Seq::<QuestionV>::empty()));
        assert(qs =~= Seq::<QuestionV>::empty());
    } else {
        let head = seq!['[', '\n', ' ', ' '];
        let tail = seq!['\n', ']'];
        assert(s =~= head + (ser_q_items(qs) + tail));
        assert(matches_at(s, 0, s)) by {
            assert(s.subrange(0, s.len() as int) =~= s);
        }
        assert(matches_at(s, 0, head + (ser_q_items(qs) + tail)));
        lemma_matches_split(s, 0, head, ser_q_items(qs) + tail);
        lemma_matches_index(s, 0, head, 0);
        lemma_matches_index(s, 0, head, 1);
        lemma_matches_index(s, 0, head, 2);
        lemma_matches_index(s, 0, head, 3);
        assert(s[0] == '[');
        assert(ws_end(s, 0) == 0);
        assert(ser_q_items(qs).len() >= 1 && ser_q_items(qs)[0] == '{') by {
            lemma_ser_question_first(qs[0]);
            if qs.len() == 1 {
                assert(ser_q_items(qs) == ser_question(qs[0]));
            }
        }
        lemma_matches_index(s, 4, ser_q_items(qs) + tail, 0);
        assert(s[4] == '{');
        lemma_ws_end_at(s, 1, 4);
        lemma_rt_q_items(s, 1, 4, qs);
        assert(sp_q_items(s, 1) == Some((qs, 4 + ser_q_items(qs).len() as int + 2)));
        let m: int = 4 + ser_q_items(qs).len() as int + 2;
        assert(m == s.len());
        assert(ws_end(s, m) == m);
        assert(ws_end(s, 0) == 0 && s[0] == '[');
        assert(ws_end(s, 1) == 4 && s[4] == '{');
        assert(sp_pool(s) == Some(qs));
    }
}

/// The append law: writing a pool with one question appended reads back as
/// the old pool followed by that question.
pub proof fn lemma_append_round_trip(qs: Seq<QuestionV>, q: QuestionV)
    requires
        forall|k: int| 0 <= k < qs.len() ==> (#[trigger] qs[k]).options.len() == 4,
        q.options.len() == 4,
    ensures
        sp_pool(ser_pool(qs.push(q))) == Some(qs.push(q)),
{
    assert(forall|k: int|
        0 <= k < qs.push(q).len() ==> (#[trigger] qs.push(q)[k]).options.len() == 4);
    lemma_store_round_trip(qs.push(q));
}

/// The import law: a question with its four options — as the clipboard
/// importer builds it — written as a one-question document reads back
/// unchanged.
pub proof fn lemma_import_round_trip(q: QuestionV)
    requires
        q.options.len() == 4,
    ensures
        sp_pool(ser_pool(seq![q])) == Some(seq![q]),
{
    lemma_store_round_trip(seq![q]);
}

/// The same law, stated of what the clipboard importer actually yields:
/// whatever question it reads from a clipboard text survives being written
/// to the pool document and read back.
pub proof fn lemma_clipboard_import_round_trip(text: Seq<char>, q: QuestionV)
    requires
        crate::questions::clip_parse(text) == Ok::<QuestionV, crate::questions::ClipboardError>(q),
    ensures
        sp_pool(ser_pool(seq![q])) == Some(seq![q]),
{
    assert(q.options.len() == 4);
    lemma_import_round_trip(q);
}

} // verus!
