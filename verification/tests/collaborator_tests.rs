use ceh_quiz::feature_manager::{
    AppConfig, get_app_config, get_features_description, banner_text, usage_text, say_script,
    is_use_local, is_use_ki, debug_default_level,
};
use ceh_quiz::http::{parse_http_response, connection_ok, request_text, HttpError};
use ceh_quiz::llm::{interpret_ollama_response, fill_question_from_ollama, build_prompt, OllamaJson};
use ceh_quiz::questions::{Question, find_by_question_text, get_filled_question, LookupError,
    test_typed_question, QuestionType, TypedQuestion};

fn q(question: &str, answer: &str, hint: Option<&str>, options: [&str; 4]) -> Question {
    Question {
        question: question.to_string(),
        answer: answer.to_string(),
        hint: hint.map(|h| h.to_string()),
        options: options.iter().map(|o| o.to_string()).collect(),
    }
}

fn args(list: &[&str]) -> Vec<String> {
    list.iter().map(|s| s.to_string()).collect()
}

#[test]
fn flags_toggle_their_features() {
    let c = get_app_config(&args(&["--use_local", "--use_sqlite"])).expect("known flags");
    assert!(c.use_local && c.use_sqlite);
    assert!(!c.use_ki && !c.use_clipboard && !c.use_py && !c.use_db);
    assert!(is_use_local(&c));
    assert!(!is_use_ki(&c));
    let none = get_app_config(&args(&[])).expect("no flags");
    assert_eq!(none, AppConfig::new(false, false, false, false, false, false));
}

#[test]
fn unknown_flag_names_its_position() {
    assert_eq!(get_app_config(&args(&["--use_local", "--bogus"])), Err(1));
    assert_eq!(get_app_config(&args(&["nope"])), Err(0));
    assert!(usage_text().starts_with("Usage:"));
}

#[test]
fn features_list_enabled_names_in_order() {
    let c = get_app_config(&args(&["--use_sqlite", "--use_local", "--use_py"])).unwrap();
    assert_eq!(get_features_description(&c), vec!["use_local", "use_py", "use_sqlite"]);
    let all = AppConfig::new(true, true, true, true, true, true);
    assert_eq!(
        get_features_description(&all),
        vec!["use_local", "use_ki", "use_clipboard", "use_py", "use_db", "use_sqlite"],
    );
}

#[test]
fn banner_is_reproduced() {
    let art = banner_text();
    assert!(art.contains("For Certified Ethical Hacker Trainees"));
    assert!(art.contains("v1.5"));
    assert_eq!(debug_default_level(), 10);
}

#[test]
fn speech_command_line() {
    assert_eq!(
        say_script("hello", Some("Ting")),
        "osascript -e 'say \"hello\" using \"Ting)\"'",
    );
    assert_eq!(
        say_script("hi", None),
        "osascript -e 'say \"hi\" using \"Tingting)\"'",
    );
}

#[test]
fn http_response_splits_into_parts() {
    let raw = "HTTP/1.1 200 OK\r\nContent-Type: text/html\r\nServer: x\r\n\r\nbody text";
    let resp = parse_http_response(raw, true).expect("has a status line");
    assert_eq!(resp.status_line(), "HTTP/1.1 200 OK");
    assert_eq!(resp.body(), "body text");
    assert_eq!(resp.headers().len(), 2);
    assert_eq!(resp.headers()[0], ("Content-Type".to_string(), "text/html".to_string()));
    let head_only = parse_http_response(raw, false).expect("has a status line");
    assert_eq!(head_only.body(), "");
    assert_eq!(parse_http_response("", true).unwrap_err(), HttpError::NoStatusLine);
    assert_eq!(HttpError::NoStatusLine.message(), "No status line found");
}

#[test]
fn probe_accepts_only_http_200() {
    assert!(connection_ok("HTTP/1.1 200 OK"));
    assert!(connection_ok("HTTP/1.1 200"));
    assert!(!connection_ok("HTTP/1.1 301 Moved Permanently"));
    assert!(!connection_ok("HTTP/2 200"));
    assert!(!connection_ok(""));
    assert_eq!(
        request_text("HEAD", "/", "www.example.com"),
        "HEAD / HTTP/1.1\r\nHost: www.example.com\r\nConnection: close\r\n\r\n",
    );
}

#[test]
fn model_reply_parses_in_either_order() {
    let a = interpret_ollama_response("{\"hint\": \"think ports\", \"option_number\": 2}");
    assert_eq!(a.hint, "think ports");
    assert_eq!(a.option_number, 2);
    let b = interpret_ollama_response("{\"option_number\": 3, \"hint\": \"other order\"}");
    assert_eq!(b.hint, "other order");
    assert_eq!(b.option_number, 3);
}

#[test]
fn fenced_and_escaped_replies_are_cleaned() {
    let fenced = "```json\n{\"hint\": \"a\\_b\", \"option_number\": 1}\n```";
    let r = interpret_ollama_response(fenced);
    assert_eq!(r.hint, "a_b");
    assert_eq!(r.option_number, 1);
}

#[test]
fn unreadable_reply_falls_back() {
    let r = interpret_ollama_response("The answer is probably 2.");
    assert_eq!(r.hint, "Unable to parse hint");
    assert_eq!(r.option_number, 1);
}

#[test]
fn completion_fills_answer_and_hint() {
    let base = q("which?", "", None, ["one", "two", "three", "four"]);
    let filled = fill_question_from_ollama(&base, "{\"hint\": \"h\", \"option_number\": 2}");
    assert_eq!(filled.answer, "two");
    assert_eq!(filled.hint, Some("h".to_string()));
    assert_eq!(filled.question, base.question);
    assert_eq!(filled.options, base.options);
    let zero = fill_question_from_ollama(&base, "{\"hint\": \"h\", \"option_number\": 0}");
    assert_eq!(zero.answer, "one");
    assert_eq!(zero.hint, Some("No ollama hint available".to_string()));
    let bad = fill_question_from_ollama(&base, "garbage");
    assert_eq!(bad.answer, "one");
    assert_eq!(bad.hint, Some("Unable to parse hint".to_string()));
    let big = fill_question_from_ollama(&base, "{\"hint\": \"h\", \"option_number\": 9}");
    assert_eq!(big.answer, "one");
    assert_eq!(big.hint, Some("Unable to parse hint".to_string()));
}

#[test]
fn prompt_lists_the_options() {
    let base = q("which?", "", None, ["one", "two", "three", "four"]);
    let prompt = build_prompt(&base);
    assert!(prompt.starts_with("answer in correct JSON Format"));
    assert!(prompt.ends_with("which?\nOptions:\n1:one\n2:two\n3:three\n4:four\n"));
}

#[test]
fn pool_lookup_by_question_text() {
    let pool = vec![
        q("a", "x", None, ["x", "y", "z", "w"]),
        q("b", "y", Some("h"), ["y", "x", "z", "w"]),
    ];
    let found = find_by_question_text(&pool, &"b".to_string()).expect("present");
    assert_eq!(found, pool[1]);
    assert!(find_by_question_text(&pool, &"c".to_string()).is_none());
    let probe = q("b", "", None, ["", "", "", ""]);
    assert_eq!(get_filled_question(&pool, &probe), Ok(pool[1].clone()));
    let missing = q("zzz", "", None, ["", "", "", ""]);
    assert_eq!(get_filled_question(&pool, &missing), Err(LookupError::NotFound));
    assert_eq!(LookupError::NotFound.message(), "Question not found");
}

#[test]
fn sample_pairing_for_manual_runs() {
    let tq: TypedQuestion = test_typed_question();
    assert_eq!(tq.qtype, QuestionType::DuplicateQuestions);
    assert_eq!(tq.question.question, "What is the capital of Burkina Faso?");
    assert_eq!(tq.question.answer, "Paris");
    assert_eq!(tq.question.hint, Some("It's a city in France".to_string()));
    assert_eq!(tq.question.options, vec!["Paris", "Ouagadougou", "Berlin", "Madrid"]);
}

#[test]
fn reply_struct_round_trips_through_fields() {
    let oj = OllamaJson { hint: "h".to_string(), option_number: 4 };
    assert_eq!(oj.hint, "h");
    assert_eq!(oj.option_number, 4);
}
