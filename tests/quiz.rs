use study_quiz::bank::{BankError, QuestionBank};
use study_quiz::digits::{format_unsigned, parse_unsigned};
use study_quiz::grading::{count_correct, resolve_answer, resolve_submission, QuizResult, SubmitError, UserCookie};
use study_quiz::oauth::{DiscordConfig, DiscordGuildMember, DiscordUser, OauthRedirectUrlParams};
use study_quiz::parser::{parse, ParseError};
use study_quiz::persist::{combine_outcomes, finalize, Leaderboard, PersistError, Sink};
use study_quiz::question::{Answer, Question, SubmittedAnswer};
use study_quiz::service::{begin_submission, complete_callback, new_record_location, record_dir, record_file, CallbackError};
use study_quiz::session::{CorrelationError, SessionStore, SESSION_TTL_MS};
use study_quiz::text::same_answer_text;

fn fixed(label: &str) -> Answer {
    Answer::Choice { label: label.to_string() }
}

fn open(label: &str, value: &str) -> Answer {
    Answer::Subjective { label: label.to_string(), value: value.to_string() }
}

fn chosen(label: &str) -> SubmittedAnswer {
    SubmittedAnswer::Choice { label: label.to_string() }
}

fn typed(label: &str, value: &str) -> SubmittedAnswer {
    SubmittedAnswer::Subjective { label: label.to_string(), value: value.to_string() }
}

fn labels(q: &Question) -> Vec<String> {
    q.choices()
        .iter()
        .map(|c| match c {
            Answer::Choice { label } => format!("fixed:{}", label),
            Answer::Subjective { label, value } => format!("open:{}={}", label, value),
        })
        .collect()
}

fn sample_result(tag: &str) -> QuizResult {
    QuizResult { answers: vec![("Q".to_string(), tag.to_string())], correct: 1, total: 2 }
}

fn sample_bank() -> Vec<Question> {
    let a = parse("# First\nPick one\n\n- [ ] red\n- [x] blue\n- [ ] Year: [1989]\n").unwrap();
    let b = parse("# Second\n- [x] yes\n- [ ] no\n").unwrap();
    vec![a, b]
}

#[test]
fn fixed_choice_matches_trimmed_case_insensitive() {
    assert!(fixed("Paris").equivalent(&chosen(" paris ")));
    assert!(!fixed("Paris").equivalent(&chosen("London")));
    assert!(!fixed("x").equivalent(&typed("x", "y")));
}

#[test]
fn open_choice_matches_label_and_value() {
    assert!(open("Year", "1989").equivalent(&typed("year", "1989")));
    assert!(!open("Year", "1989").equivalent(&typed("year", "1990")));
    assert!(!open("Year", "1989").equivalent(&chosen("Year")));
}

#[test]
fn trimming_and_case_folding_of_answer_text() {
    assert!(same_answer_text("  Rust\t", "rUST"));
    assert!(!same_answer_text("Rust", "Rusty"));
    assert!(!same_answer_text("straße", "STRASSE"));
}

#[test]
fn end_to_end_two_choice_document() {
    let q = parse("# Q\nWhat is 2+2?\n\n- [ ] 3\n- [x] 4\n").unwrap();
    assert_eq!(q.name(), "Q");
    assert_eq!(q.description(), "What is 2+2?\n");
    assert_eq!(q.code(), "");
    assert_eq!(labels(&q), vec!["fixed:3".to_string(), "fixed:4".to_string()]);
    assert_eq!(q.answer_index(), 1);
    assert!(q.test(&chosen("4")));
    assert!(!q.test(&chosen("3")));
}

#[test]
fn answer_index_is_position_of_checked_line() {
    let q = parse("# T\n- [ ] a\n- [ ] b\n- [x] c\n- [ ] d\n").unwrap();
    assert_eq!(q.answer_index(), 2);
    let first = parse("# T\n- [x] a\n- [ ] b\n").unwrap();
    assert_eq!(first.answer_index(), 0);
}

#[test]
fn code_block_and_open_choice() {
    let doc = "# Borrow\nWhat prints?\n\n```rs\nfn main() {\n\n    println!(\"hi\");\n}\n```\n\n- [ ] nothing\n- [x] Output: [hi]\n";
    let q = parse(doc).unwrap();
    assert_eq!(q.description(), "What prints?\n");
    assert_eq!(q.code(), "fn main() {\n\n    println!(\"hi\");\n}\n");
    assert_eq!(labels(&q), vec!["fixed:nothing".to_string(), "open:Output=hi".to_string()]);
    assert_eq!(q.answer_index(), 1);
    assert!(q.test(&typed(" output", "HI ")));
    assert_eq!(q.answer_key(), "1 hi");
}

#[test]
fn crlf_lines_are_read_like_lf_lines() {
    let q = parse("# Q\r\nText\r\n\r\n- [ ] a\r\n- [x] b\r\n").unwrap();
    assert_eq!(q.name(), "Q");
    assert_eq!(q.description(), "Text\n");
    assert_eq!(labels(&q), vec!["fixed:a".to_string(), "fixed:b".to_string()]);
    assert_eq!(q.answer_key(), "1");
}

#[test]
fn open_choice_uses_last_separator() {
    let q = parse("# Q\n- [x] a: [b]: [c]\n").unwrap();
    assert_eq!(labels(&q), vec!["open:a: [b]=c".to_string()]);
}

#[test]
fn missing_title_fails() {
    assert_eq!(parse("What?\n- [x] a\n").err(), Some(ParseError::TitleMissing));
    assert_eq!(parse("").err(), Some(ParseError::TitleMissing));
    assert_eq!(parse("\n\n#Title\n- [x] a\n").err(), Some(ParseError::TitleMissing));
}

#[test]
fn missing_answer_fails() {
    assert_eq!(parse("# Q\n- [ ] a\n- [ ] b\n").err(), Some(ParseError::AnswerMissing));
}

#[test]
fn duplicate_answer_fails() {
    assert_eq!(parse("# Q\n- [x] a\n- [x] b\n").err(), Some(ParseError::DuplicateAnswer));
}

#[test]
fn invalid_choice_line_fails() {
    assert_eq!(parse("# Q\n- [x] a\nnot a choice\n").err(), Some(ParseError::InvalidChoiceLine));
    assert_eq!(parse("# Q\n- [x] a]\n").err(), Some(ParseError::InvalidChoiceLine));
    assert_eq!(parse("# Q\n- [?] a\n").err(), Some(ParseError::InvalidChoiceLine));
}

#[test]
fn bank_keeps_order_and_fails_fast() {
    let docs = vec!["# A\n- [x] 1\n".to_string(), "# B\n- [ ] 1\n- [x] 2\n".to_string()];
    let bank = QuestionBank::build(&docs).unwrap();
    assert_eq!(bank.size(), 2);
    assert_eq!(bank.by_index(1).unwrap().name(), "B");
    assert!(bank.by_index(2).is_none());
    assert_eq!(bank.all()[0].name(), "A");
    let bad = vec!["# A\n- [x] 1\n".to_string(), "# B\n- [ ] 1\n".to_string(), "oops".to_string()];
    assert_eq!(
        QuestionBank::build(&bad).err(),
        Some(BankError { index: 1, error: ParseError::AnswerMissing })
    );
}

#[test]
fn score_counts_correct_flags() {
    assert_eq!(count_correct(&[true, false, true]), 2);
    let bank = sample_bank();
    let cookie = UserCookie {
        correct: vec![true, false, true],
        sequence: vec![0, 1, 0],
        submitted: vec!["1".to_string(), "0".to_string(), "2 1989".to_string()],
    };
    let r = resolve_submission(&bank, &cookie).unwrap();
    assert_eq!(r.correct, 2);
    assert_eq!(r.total, 3);
    assert_eq!(
        r.answers,
        vec![
            ("First".to_string(), "blue".to_string()),
            ("Second".to_string(), "yes".to_string()),
            ("First".to_string(), "1989".to_string()),
        ]
    );
}

#[test]
fn malformed_submissions_are_rejected() {
    let bank = sample_bank();
    let case = |correct: Vec<bool>, sequence: Vec<usize>, submitted: Vec<&str>| {
        let cookie = UserCookie {
            correct,
            sequence,
            submitted: submitted.into_iter().map(|s| s.to_string()).collect(),
        };
        resolve_submission(&bank, &cookie).err()
    };
    let bad = Some(SubmitError::MalformedSubmission);
    assert_eq!(case(vec![true], vec![0, 1], vec!["0", "0"]), bad);
    assert_eq!(case(vec![true], vec![5], vec!["0"]), bad);
    assert_eq!(case(vec![true], vec![0], vec!["3"]), bad);
    assert_eq!(case(vec![true], vec![0], vec!["2"]), bad);
    assert_eq!(case(vec![true], vec![0], vec!["two"]), bad);
    assert_eq!(case(vec![], vec![], vec![]), None);
}

#[test]
fn entries_decode_against_their_question() {
    let bank = sample_bank();
    assert_eq!(resolve_answer(&bank[0], "0"), Some("red".to_string()));
    assert_eq!(resolve_answer(&bank[0], "+1"), Some("blue".to_string()));
    assert_eq!(resolve_answer(&bank[0], "2 the value"), Some("the value".to_string()));
    assert_eq!(resolve_answer(&bank[0], "2"), None);
    assert_eq!(resolve_answer(&bank[0], "18446744073709551616"), None);
}

#[test]
fn issue_then_redeem_once() {
    let mut store = SessionStore::new();
    store.issue_with(7, 1_000, sample_result("a"));
    let r = store.redeem(7, 1_000).unwrap();
    assert_eq!(r.answers[0].1, "a");
    assert_eq!(store.redeem(7, 1_000).err(), Some(CorrelationError::Unauthorized));
}

#[test]
fn redeem_after_ttl_is_refused_and_removes_entry() {
    let mut store = SessionStore::new();
    store.issue_with(9, 1_000, sample_result("a"));
    assert_eq!(
        store.redeem(9, 1_000 + SESSION_TTL_MS + 1).err(),
        Some(CorrelationError::Unauthorized)
    );
    assert!(!store.contains(9));
    store.issue_with(10, 1_000, sample_result("b"));
    assert!(store.redeem(10, 1_000 + SESSION_TTL_MS).is_ok());
}

#[test]
fn redeem_unknown_token_is_refused() {
    let mut store = SessionStore::new();
    assert_eq!(store.redeem(42, 0).err(), Some(CorrelationError::Unauthorized));
}

#[test]
fn sweep_drops_only_expired_entries() {
    let mut store = SessionStore::new();
    store.issue_with(1, 0, sample_result("old"));
    store.issue_with(2, 200_000, sample_result("new"));
    store.sweep(SESSION_TTL_MS + 1);
    assert_eq!(store.len(), 1);
    assert!(!store.contains(1));
    assert!(store.contains(2));
}

#[test]
fn issue_draws_a_random_token() {
    let mut store = SessionStore::new();
    let a = store.issue(5, sample_result("a")).unwrap();
    let b = store.issue(5, sample_result("b")).unwrap();
    assert_ne!(a, b);
    assert_eq!(store.len(), 2);
}

#[test]
fn durable_fault_still_updates_leaderboard() {
    let mut board = Leaderboard::new();
    let r = finalize(&mut board, "user1".to_string(), sample_result("x"), false);
    assert_eq!(r, Err(PersistError::PartialFailure { which: Sink::DurableRecord }));
    assert_eq!(board.get(&"user1".to_string()).unwrap().answers[0].1, "x");
    assert_eq!(finalize(&mut board, "user1".to_string(), sample_result("y"), true), Ok(()));
    assert_eq!(board.get(&"user1".to_string()).unwrap().answers[0].1, "y");
    assert_eq!(board.len(), 1);
    assert!(board.get(&"user2".to_string()).is_none());
}

#[test]
fn outcomes_prefer_durable_failure() {
    assert_eq!(combine_outcomes(false, false), Err(PersistError::PartialFailure { which: Sink::DurableRecord }));
    assert_eq!(combine_outcomes(false, true), Err(PersistError::PartialFailure { which: Sink::Leaderboard }));
    assert_eq!(combine_outcomes(true, true), Ok(()));
}

#[test]
fn numbers_in_decimal_and_hex() {
    let c = |s: &str| s.chars().collect::<Vec<char>>();
    assert_eq!(parse_unsigned(&c("ff"), 16, u128::MAX), Some(255));
    assert_eq!(parse_unsigned(&c("+10"), 10, 100), Some(10));
    assert_eq!(parse_unsigned(&c("101"), 10, 100), None);
    assert_eq!(parse_unsigned(&c("+"), 10, 100), None);
    assert_eq!(parse_unsigned(&c("1a"), 10, 100), None);
    assert_eq!(format_unsigned(255, 16), c("FF"));
    assert_eq!(format_unsigned(0, 10), c("0"));
    assert_eq!(format_unsigned(u128::MAX, 16), c("FFFFFFFFFFFFFFFFFFFFFFFFFFFFFFFF"));
}

#[test]
fn config_encodes_redirect_and_builds_links() {
    let config = DiscordConfig::new(
        "123".to_string(),
        "shh".to_string(),
        "https://quiz.example/oauth redirect".to_string(),
        "9".to_string(),
    );
    assert_eq!(config.redirect_uri_encoded, "https%3A%2F%2Fquiz.example%2Foauth+redirect");
    assert_eq!(
        config.authorize_url(0xAB),
        "https://discord.com/oauth2/authorize?client_id=123&response_type=code&redirect_uri=https%3A%2F%2Fquiz.example%2Foauth+redirect&state=AB&scope=identify+guilds.members.read&prompt=none"
    );
    assert_eq!(
        config.token_request_body("c0de"),
        "grant_type=authorization_code&code=c0de&redirect_uri=https%3A%2F%2Fquiz.example%2Foauth+redirect"
    );
}

#[test]
fn submission_and_callback_round_trip() {
    let config = DiscordConfig::new("1".to_string(), "s".to_string(), "r".to_string(), "g".to_string());
    let bank = sample_bank();
    let mut store = SessionStore::new();
    let cookie = UserCookie { correct: vec![true], sequence: vec![1], submitted: vec!["0".to_string()] };
    let url = begin_submission(&config, &mut store, &bank, &cookie, 50).unwrap();
    let state = url.split("&state=").nth(1).unwrap().split('&').next().unwrap().to_string();
    let params = OauthRedirectUrlParams { code: "c".to_string(), state };
    let result = complete_callback(&mut store, &params, 60).unwrap();
    assert_eq!(result.answers, vec![("Second".to_string(), "yes".to_string())]);
    assert_eq!(complete_callback(&mut store, &params, 60).err(), Some(CallbackError::Unauthorized));
    let junk = OauthRedirectUrlParams { code: "c".to_string(), state: "zz".to_string() };
    assert_eq!(complete_callback(&mut store, &junk, 60).err(), Some(CallbackError::BadRequest));
    let bad = UserCookie { correct: vec![true], sequence: vec![3], submitted: vec!["0".to_string()] };
    assert_eq!(
        begin_submission(&config, &mut store, &bank, &bad, 50).err(),
        Some(SubmitError::MalformedSubmission)
    );
    assert_eq!(store.len(), 0);
}

#[test]
fn state_parameter_is_hex_token() {
    let p = OauthRedirectUrlParams { code: String::new(), state: "DEADbeef".to_string() };
    assert_eq!(p.state_token(), Some(0xDEADBEEF));
    let long = OauthRedirectUrlParams { code: String::new(), state: "1".repeat(33) };
    assert_eq!(long.state_token(), None);
}

#[test]
fn member_display_name_fallbacks() {
    let user = |global: Option<&str>| DiscordUser {
        id: "77".to_string(),
        username: "uname".to_string(),
        global_name: global.map(|s| s.to_string()),
        avatar: None,
    };
    let m = DiscordGuildMember { user: user(Some("Global")), nick: Some("Nick".to_string()) };
    assert_eq!(m.display_name(), "Nick");
    assert_eq!(m.identity(), "77");
    let m = DiscordGuildMember { user: user(Some("Global")), nick: None };
    assert_eq!(m.display_name(), "Global");
    let m = DiscordGuildMember { user: user(None), nick: None };
    assert_eq!(m.display_name(), "uname");
}

#[test]
fn record_locations() {
    assert_eq!(record_dir("42"), "submissions/42");
    assert_eq!(record_file("42", "2024-01-02T03-04-05"), "submissions/42/2024-01-02T03-04-05.json");
    let (dir, file) = new_record_location("42");
    assert_eq!(dir, "submissions/42");
    assert!(file.starts_with("submissions/42/"));
    assert!(file.ends_with(".json"));
    assert_eq!(file.len(), "submissions/42/".len() + 19 + 5);
}

#[test]
fn answer_compares_with_submission_by_eq() {
    assert!(fixed("Paris") == chosen(" paris "));
    assert!(fixed("Paris") != chosen("London"));
    assert!(open("Year", "1989") == typed("YEAR ", " 1989"));
}

#[test]
fn answer_key_decodes_to_correct_choice() {
    let bank = sample_bank();
    assert_eq!(resolve_answer(&bank[0], &bank[0].answer_key()), Some("blue".to_string()));
    let q = parse("# Q\n- [ ] a\n- [x] Year: [1989]\n").unwrap();
    assert_eq!(q.answer_key(), "1 1989");
    assert_eq!(resolve_answer(&q, &q.answer_key()), Some("1989".to_string()));
}

#[test]
fn trimming_follows_unicode_white_space() {
    assert!(same_answer_text("\u{3000}Paris\u{2028}\u{85}", "paris"));
    assert!(same_answer_text("\u{a0}x\t\r\n", "X"));
    assert!(!same_answer_text("\u{200b}Paris", "paris"));
}
