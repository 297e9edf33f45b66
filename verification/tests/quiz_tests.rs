use ceh_quiz::quiz::{
    parse_choice, Choice, SessionState, StepAction, session_step, effective_session_size,
    percent_string, summary_line, present_text, prompt_line, correct_feedback, wrong_feedback,
    hint_line, no_hint_line, invalid_input_line, exit_line, clear_sequence, wants_custom_count,
    parse_question_count,
};
use ceh_quiz::questions::Question;
use ceh_quiz::sample::{choose_questions, choose_typed_questions};
use ceh_quiz::classify::check_for_duplicates;

fn pool_question() -> Question {
    Question {
        question: "a".to_string(),
        answer: "x".to_string(),
        hint: None,
        options: vec!["x".to_string(), "y".to_string(), "z".to_string(), "w".to_string()],
    }
}

#[test]
fn choices_parse_as_the_prompt_describes() {
    assert_eq!(parse_choice("1"), Choice::Answer(1));
    assert_eq!(parse_choice(" 4 \n"), Choice::Answer(4));
    assert_eq!(parse_choice("5"), Choice::RevealHint);
    assert_eq!(parse_choice("05"), Choice::RevealHint);
    assert_eq!(parse_choice("+3"), Choice::Answer(3));
    assert_eq!(parse_choice("X"), Choice::Quit);
    assert_eq!(parse_choice("x\n"), Choice::Quit);
    assert_eq!(parse_choice("0"), Choice::Invalid);
    assert_eq!(parse_choice("6"), Choice::Invalid);
    assert_eq!(parse_choice(""), Choice::Invalid);
    assert_eq!(parse_choice("abc"), Choice::Invalid);
    assert_eq!(parse_choice("1a"), Choice::Invalid);
    assert_eq!(parse_choice("99999999999999999999999999"), Choice::Invalid);
}

#[test]
fn correct_answer_scores_one() {
    let q = pool_question();
    let mut state = SessionState::start();
    let action = session_step(&mut state, &q, parse_choice("1"));
    assert_eq!(action, StepAction::Answered { correct: true });
    assert_eq!(state.score, 1);
    assert_eq!(state.index, 2);
}

#[test]
fn wrong_answer_scores_nothing() {
    let q = pool_question();
    let mut state = SessionState::start();
    let action = session_step(&mut state, &q, parse_choice("2"));
    assert_eq!(action, StepAction::Answered { correct: false });
    assert_eq!(state.score, 0);
    assert_eq!(state.index, 2);
}

#[test]
fn hint_request_keeps_the_state() {
    let q = pool_question();
    let mut state = SessionState::start();
    let action = session_step(&mut state, &q, parse_choice("5"));
    assert_eq!(action, StepAction::ShowHint);
    assert_eq!(state.score, 0);
    assert_eq!(state.index, 1);
    let action2 = session_step(&mut state, &q, parse_choice("zzz"));
    assert_eq!(action2, StepAction::Reprompt);
    assert_eq!(state, SessionState { index: 1, score: 0 });
}

#[test]
fn quit_leaves_without_scoring() {
    let q = pool_question();
    let mut state = SessionState::start();
    let action = session_step(&mut state, &q, parse_choice("X"));
    assert_eq!(action, StepAction::Exit);
    assert_eq!(state, SessionState { index: 1, score: 0 });
    assert_eq!(exit_line(), "Exiting the quiz...");
}

#[test]
fn hint_then_answer_counts_once() {
    let mut q = pool_question();
    q.hint = Some("foo".to_string());
    let mut state = SessionState::start();
    let a1 = session_step(&mut state, &q, parse_choice("5"));
    assert_eq!(a1, StepAction::ShowHint);
    assert_eq!(hint_line(q.hint.as_ref().unwrap()), "Hint: foo");
    let a2 = session_step(&mut state, &q, parse_choice("1"));
    assert_eq!(a2, StepAction::Answered { correct: true });
    assert_eq!(state.score, 1);
    assert_eq!(state.index, 2);
}

#[test]
fn hintless_question_reports_no_hint() {
    assert_eq!(no_hint_line(), "No hint available for this question.");
    assert_eq!(invalid_input_line(), "Invalid input. Please enter a number from 1 to 4 or 'X' to exit.");
}

#[test]
fn session_size_defaults_and_clamps() {
    assert_eq!(effective_session_size(None, 1000), 125);
    assert_eq!(effective_session_size(None, 10), 10);
    assert_eq!(effective_session_size(Some(3), 10), 3);
    assert_eq!(effective_session_size(Some(30), 10), 10);
    assert_eq!(effective_session_size(Some(7), 0), 0);
}

#[test]
fn percent_has_two_decimals() {
    assert_eq!(percent_string(0, 0), "0.00");
    assert_eq!(percent_string(1, 1), "100.00");
    assert_eq!(percent_string(0, 1), "0.00");
    assert_eq!(percent_string(1, 3), "33.33");
    assert_eq!(percent_string(1, 2), "50.00");
    assert_eq!(percent_string(7, 8), "87.50");
}

#[test]
fn empty_session_reports_zero_of_zero() {
    assert_eq!(summary_line(0, 0), "Quiz completed! Your score is 0 out of 0 (0.00%)");
}

#[test]
fn full_score_summary() {
    assert_eq!(summary_line(1, 1), "Quiz completed! Your score is 1 out of 1 (100.00%)");
    assert_eq!(summary_line(0, 1), "Quiz completed! Your score is 0 out of 1 (0.00%)");
}

#[test]
fn question_renders_with_numbered_options() {
    let q = pool_question();
    let text = present_text(1, &q);
    assert_eq!(text, "Question 1\n\na\n1. x\n2. y\n3. z\n4. w\n");
    assert_eq!(prompt_line(), "\nYour answer here [1-4] (X to exit): ");
    assert_eq!(correct_feedback(), "Correct!");
    assert_eq!(wrong_feedback(&q.answer), "Wrong! The correct answer was: x");
    assert_eq!(clear_sequence(), "\u{1b}[2J\u{1b}[1;1H");
}

#[test]
fn sampling_draws_distinct_positions() {
    let mut pool = Vec::new();
    for i in 0..10 {
        let mut q = pool_question();
        q.question = format!("q{}", i);
        pool.push(q);
    }
    let drawn = choose_questions(&pool, 4);
    assert_eq!(drawn.len(), 4);
    let mut names: Vec<String> = drawn.iter().map(|q| q.question.clone()).collect();
    names.sort();
    names.dedup();
    assert_eq!(names.len(), 4);
    for d in &drawn {
        assert!(pool.iter().any(|p| p == d));
    }
}

#[test]
fn sampling_more_than_the_pool_clamps() {
    let pool = vec![pool_question(), pool_question()];
    let drawn = choose_questions(&pool, 125);
    assert_eq!(drawn.len(), 2);
    let empty: Vec<Question> = Vec::new();
    assert_eq!(choose_questions(&empty, 5).len(), 0);
}

#[test]
fn duplicated_pool_still_plays() {
    // Every question duplicated: classification changes nothing about play.
    let pool = vec![pool_question(), pool_question()];
    let classified = check_for_duplicates(&pool);
    let drawn = choose_typed_questions(&classified, 2);
    assert_eq!(drawn.len(), 2);
    let mut state = SessionState::start();
    for tq in &drawn {
        let action = session_step(&mut state, &tq.question, Choice::Answer(1));
        assert_eq!(action, StepAction::Answered { correct: true });
    }
    assert_eq!(state.score, 2);
    assert_eq!(summary_line(state.score, drawn.len()), "Quiz completed! Your score is 2 out of 2 (100.00%)");
}

#[test]
fn count_prompt_replies() {
    assert!(wants_custom_count("yes\n"));
    assert!(wants_custom_count(" YES "));
    assert!(!wants_custom_count("no"));
    assert!(!wants_custom_count("maybe"));
    assert_eq!(parse_question_count("42\n"), Some(42));
    assert_eq!(parse_question_count("  7 "), Some(7));
    assert_eq!(parse_question_count("x"), None);
    assert_eq!(parse_question_count(""), None);
}
