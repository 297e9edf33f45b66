//! The interactive session's core: reading an answer choice, the session
//! state machine, the session size policy, and the exact text of everything
//! the quiz shows the user.
//!
//! The terminal itself (clearing, colors, reading lines) lives outside the
//! library; it hands raw input lines in and prints the strings handed back.

use vstd::prelude::*;
use vstd::arithmetic::div_mod::{lemma_div_is_ordered, lemma_div_multiples_vanish};
use crate::questions::{Question, QuestionV};
use crate::text::{
    all_digits, chars_of, dec_chars, dec_digit, dec_str, dec_string, digit_char, digits_val,
    parse_decimal, string_from_chars, trim_chars, trimmed,
};

verus! {

/// What the user chose at the answer prompt.
#[derive(Clone, Copy, Debug, PartialEq, Eq, Structural)]
pub enum Choice {
    /// An option number between 1 and 4.
    Answer(u8),
    /// The pseudo-answer `5`: show the hint and ask again.
    RevealHint,
    /// `X`: leave the quiz.
    Quit,
    /// Anything else: ask again.
    Invalid,
}

/// An answer choice carries an option number between 1 and 4.
pub open spec fn choice_wf(c: Choice) -> bool {
    match c {
        Choice::Answer(k) => 1 <= k <= 4,
        _ => true,
    }
}

/// The choice denoted by one input line: the line is trimmed, `X` (either
/// case) quits, a number 1 to 4 (optionally signed with `+`) answers, 5 asks
/// for the hint, and everything else is invalid.
pub open spec fn choice_of(input: Seq<char>) -> Choice {
    let s = trimmed(input);
    if s == seq!['X'] || s == seq!['x'] {
        Choice::Quit
    } else {
        let d = if s.len() >= 2 && s[0] == '+' {
            s.drop_first()
        } else {
            s
        };
        if d.len() > 0 && all_digits(d) {
            let v = digits_val(d);
            if 1 <= v && v <= 4 {
                Choice::Answer(v as u8)
            } else if v == 5 {
                Choice::RevealHint
            } else {
                Choice::Invalid
            }
        } else {
            Choice::Invalid
        }
    }
}

/// Reads one input line as an answer choice.
pub fn parse_choice(input: &str) -> (c: Choice)
    ensures
        c == choice_of(input@),
        choice_wf(c),
{
    let chars = chars_of(input);
    let mut t = trim_chars(&chars);
    if t.len() == 1 && (t[0] == 'X' || t[0] == 'x') {
        proof {
            if t@[0] == 'X' {
                assert(t@ =~= seq!['X']);
            } else {
                assert(t@ =~= seq!['x']);
            }
        }
        return Choice::Quit;
    }
    proof {
        assert(t@ != seq!['X'] && t@ != seq!['x']) by {
            if t@ == seq!['X'] || t@ == seq!['x'] {
                assert(t@.len() == 1);
            }
        }
    }
    if t.len() >= 2 && t[0] == '+' {
        t.remove(0);
        proof {
            assert(t@ =~= trimmed(chars@).drop_first());
        }
    }
    match parse_decimal(&t) {
        Some(v) => {
            if 1 <= v && v <= 4 {
                Choice::Answer(v as u8)
            } else if v == 5 {
                Choice::RevealHint
            } else {
                Choice::Invalid
            }
        },
        None => Choice::Invalid,
    }
}

/// The mutable state of a running session: the 1-based number of the question
/// being asked and the score so far.
#[derive(Clone, Copy, Debug, PartialEq, Eq, Structural)]
pub struct SessionState {
    pub index: usize,
    pub score: usize,
}

/// A session's state is well formed while fewer questions have been scored
/// than asked and the counter has room to advance.
pub open spec fn state_wf(s: SessionState) -> bool {
    s.score < s.index <= usize::MAX
}

impl SessionState {
    /// The state at the start of a session: question 1, score 0.
    pub fn start() -> (s: Self)
        ensures
            s.index == 1,
            s.score == 0,
            state_wf(s),
    {
        SessionState { index: 1, score: 0 }
    }
}

/// What the terminal must do after one input line.
#[derive(Clone, Copy, Debug, PartialEq, Eq, Structural)]
pub enum StepAction {
    /// An answer was taken: show the feedback and move to the next question.
    Answered { correct: bool },
    /// Show the hint, or say there is none, and ask the same question again.
    ShowHint,
    /// Say the input was invalid and ask the same question again.
    Reprompt,
    /// Leave the quiz at once.
    Exit,
}

/// Advances a session by one input line on the current question.
///
/// An answer `k` is correct exactly when option `k` equals the question's
/// canonical answer; it moves the session to the next question and adds one
/// to the score when correct, nothing otherwise.  A hint request, an invalid
/// line, and a quit all leave the state untouched: only an answer advances
/// the question counter or changes the score.
pub fn session_step(state: &mut SessionState, q: &Question, choice: Choice) -> (a: StepAction)
    requires
        state_wf(*old(state)),
        old(state).index < usize::MAX,
        choice_wf(choice),
        q@.options.len() == 4,
    ensures
        state_wf(*final(state)),
        match choice {
            Choice::Answer(k) => {
                let correct = q@.options[k - 1] == q@.answer;
                &&& a == (StepAction::Answered { correct })
                &&& final(state).index == old(state).index + 1
                &&& final(state).score == old(state).score + (if correct {
                    1int
                } else {
                    0int
                })
            },
            Choice::RevealHint => a == StepAction::ShowHint && *final(state) == *old(state),
            Choice::Invalid => a == StepAction::Reprompt && *final(state) == *old(state),
            Choice::Quit => a == StepAction::Exit && *final(state) == *old(state),
        },
{
    match choice {
        Choice::Answer(k) => {
            let correct = q.options[(k - 1) as usize] == q.answer;
            if correct {
                state.score = state.score + 1;
            }
            state.index = state.index + 1;
            StepAction::Answered { correct }
        },
        Choice::RevealHint => StepAction::ShowHint,
        Choice::Invalid => StepAction::Reprompt,
        Choice::Quit => StepAction::Exit,
    }
}

/// The number of questions a session asks: the requested count, 125 when
/// none was requested, clamped to the pool size.
pub open spec fn effective_count(requested: Option<usize>, pool_len: nat) -> nat {
    let n: nat = match requested {
        Some(v) => v as nat,
        None => 125,
    };
    if n <= pool_len {
        n
    } else {
        pool_len
    }
}

/// Computes the effective session size for a pool.
pub fn effective_session_size(requested: Option<usize>, pool_len: usize) -> (n: usize)
    ensures
        n as nat == effective_count(requested, pool_len as nat),
{
    let wanted = match requested {
        Some(v) => v,
        None => 125,
    };
    if wanted <= pool_len {
        wanted
    } else {
        pool_len
    }
}

/// The score as hundredths of a percent of the total, rounded down;
/// a total of zero counts as zero percent.
pub open spec fn percent_hundredths(score: nat, total: nat) -> nat {
    if total == 0 {
        0
    } else {
        (score * 10000) / total
    }
}

/// The percentage with two decimals, as text.
pub open spec fn percent_str(score: nat, total: nat) -> Seq<char> {
    let h = percent_hundredths(score, total);
    dec_str(h / 100) + seq!['.'] + seq![dec_digit((h / 10) % 10), dec_digit(h % 10)]
}

/// Renders the score as a percentage of the total with two decimals.
pub fn percent_string(score: usize, total: usize) -> (r: String)
    requires
        score <= total,
    ensures
        r@ == percent_str(score as nat, total as nat),
{
    let h: u64 = if total == 0 {
        0
    } else {
        let wide: u128 = (score as u128) * 10000 / (total as u128);
        proof {
            lemma_div_is_ordered(score as int * 10000, total as int * 10000, total as int);
            lemma_div_multiples_vanish(10000, total as int);
            assert(wide <= 10000);
        }
        wide as u64
    };
    let mut out = dec_chars(h / 100);
    out.push('.');
    out.push(digit_char((h / 10) % 10));
    out.push(digit_char(h % 10));
    proof {
        assert(out@ =~= percent_str(score as nat, total as nat));
    }
    string_from_chars(&out)
}

/// The closing line of a session, with the score, the total, and the
/// percentage with two decimals.
pub open spec fn summary_of(score: nat, total: nat) -> Seq<char> {
    "Quiz completed! Your score is "@ + dec_str(score) + " out of "@ + dec_str(total) + " ("@
        + percent_str(score, total) + "%)"@
}

/// Renders the closing line of a session.
pub fn summary_line(score: usize, total: usize) -> (r: String)
    requires
        score <= total,
    ensures
        r@ == summary_of(score as nat, total as nat),
{
    let mut r = String::new();
    r.append("Quiz completed! Your score is ");
    r.append(dec_string(score as u64).as_str());
    r.append(" out of ");
    r.append(dec_string(total as u64).as_str());
    r.append(" (");
    r.append(percent_string(score, total).as_str());
    r.append("%)");
    r
}

/// The duplicate diagnostics shown before sampling.
pub open spec fn report_of(dq: nat, dn: nat) -> Seq<char> {
    dec_str(dq) + " duplicate questions found, "@ + dec_str(dn) + " duplicate nodes found"@
}

/// Renders the duplicate diagnostics shown before sampling.
pub fn duplicate_report(dq: usize, dn: usize) -> (r: String)
    ensures
        r@ == report_of(dq as nat, dn as nat),
{
    let mut r = String::new();
    r.append(dec_string(dq as u64).as_str());
    r.append(" duplicate questions found, ");
    r.append(dec_string(dn as u64).as_str());
    r.append(" duplicate nodes found");
    r
}

/// One numbered option line of the question display.
pub open spec fn option_line_of(i: int, opt: Seq<char>) -> Seq<char> {
    dec_str((i + 1) as nat) + ". "@ + opt + "\n"@
}

/// The numbered option lines of a question, in order.
pub open spec fn option_lines_of(opts: Seq<Seq<char>>) -> Seq<char>
    decreases opts.len(),
{
    if opts.len() == 0 {
        Seq::empty()
    } else {
        option_lines_of(opts.drop_last()) + option_line_of(opts.len() - 1, opts.last())
    }
}

/// The question display: header, question text, and numbered options.
pub open spec fn present_of(n: nat, q: QuestionV) -> Seq<char> {
    "Question "@ + dec_str(n) + "\n\n"@ + q.question + "\n"@ + option_lines_of(q.options)
}

/// Renders a question for display: `Question <n>`, the question text, and
/// its options numbered from 1, one per line.
pub fn present_text(question_number: usize, q: &Question) -> (r: String)
    ensures
        r@ == present_of(question_number as nat, q@),
{
    let mut r = String::new();
    r.append("Question ");
    r.append(dec_string(question_number as u64).as_str());
    r.append("\n\n");
    r.append(q.question.as_str());
    r.append("\n");
    let ghost header = r@;
    let mut i: usize = 0;
    while i < q.options.len()
        invariant
            i <= q.options@.len(),
            r@ == header + option_lines_of(q@.options.take(i as int)),
        decreases q.options@.len() - i,
    {
        proof {
            assert(q@.options.take(i + 1).drop_last() =~= q@.options.take(i as int));
            assert(q@.options.take(i + 1).last() == q@.options[i as int]);
        }
        r.append(dec_string((i + 1) as u64).as_str());
        r.append(". ");
        r.append(q.options[i].as_str());
        r.append("\n");
        proof {
            assert(r@ =~= header + option_lines_of(q@.options.take(i + 1)));
        }
        i = i + 1;
    }
    proof {
        assert(q@.options.take(q@.options.len() as int) =~= q@.options);
    }
    r
}

/// The terminal's clear-screen-and-home control sequence.
pub fn clear_sequence() -> (r: String)
    ensures
        r@ == "\u{1b}[2J\u{1b}[1;1H"@,
{
    "\u{1b}[2J\u{1b}[1;1H".to_owned()
}

/// The answer prompt shown under each question.
pub fn prompt_line() -> (r: String)
    ensures
        r@ == "\nYour answer here [1-4] (X to exit): "@,
{
    "\nYour answer here [1-4] (X to exit): ".to_owned()
}

/// The feedback for a correct answer.
pub fn correct_feedback() -> (r: String)
    ensures
        r@ == "Correct!"@,
{
    "Correct!".to_owned()
}

/// The feedback for a wrong answer, naming the canonical answer.
pub fn wrong_feedback(answer: &String) -> (r: String)
    ensures
        r@ == "Wrong! The correct answer was: "@ + answer@,
{
    let mut r = String::new();
    r.append("Wrong! The correct answer was: ");
    r.append(answer.as_str());
    r
}

/// The hint display line.
pub fn hint_line(hint: &String) -> (r: String)
    ensures
        r@ == "Hint: "@ + hint@,
{
    let mut r = String::new();
    r.append("Hint: ");
    r.append(hint.as_str());
    r
}

/// What is shown when the hint pseudo-answer is used on a hintless question.
pub fn no_hint_line() -> (r: String)
    ensures
        r@ == "No hint available for this question."@,
{
    "No hint available for this question.".to_owned()
}

/// What is shown on input that is neither an option number nor a command.
pub fn invalid_input_line() -> (r: String)
    ensures
        r@ == "Invalid input. Please enter a number from 1 to 4 or 'X' to exit."@,
{
    "Invalid input. Please enter a number from 1 to 4 or 'X' to exit.".to_owned()
}

/// What is shown when the user leaves the quiz.
pub fn exit_line() -> (r: String)
    ensures
        r@ == "Exiting the quiz..."@,
{
    "Exiting the quiz...".to_owned()
}

/// Whether a trimmed reply spells "yes" in any case mix.
pub open spec fn is_yes(s: Seq<char>) -> bool {
    s.len() == 3 && (s[0] == 'y' || s[0] == 'Y') && (s[1] == 'e' || s[1] == 'E') && (s[2] == 's'
        || s[2] == 'S')
}

/// Interprets the reply to the custom-count question: only a trimmed "yes"
/// (in any case mix) asks for a count; everything else keeps the default.
pub fn wants_custom_count(input: &str) -> (r: bool)
    ensures
        r == is_yes(trimmed(input@)),
{
    let chars = chars_of(input);
    let t = trim_chars(&chars);
    t.len() == 3 && (t[0] == 'y' || t[0] == 'Y') && (t[1] == 'e' || t[1] == 'E') && (t[2] == 's'
        || t[2] == 'S')
}

/// Reads the reply to the count prompt as a number of questions.  Returns
/// `None` when the trimmed reply is not a plain decimal number that fits.
pub fn parse_question_count(input: &str) -> (r: Option<usize>)
    ensures
        match r {
            Some(v) => {
                let t = trimmed(input@);
                t.len() > 0 && all_digits(t) && digits_val(t) == v
            },
            None => {
                let t = trimmed(input@);
                t.len() == 0 || !all_digits(t) || digits_val(t) > usize::MAX
            },
        },
{
    let chars = chars_of(input);
    let t = trim_chars(&chars);
    match parse_decimal(&t) {
        Some(v) => {
            if v <= usize::MAX as u64 {
                Some(v as usize)
            } else {
                None
            }
        },
        None => None,
    }
}

} // verus!
