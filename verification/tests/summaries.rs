use resurfacer::config::LlmConfig;
use resurfacer::presenter::{
    ai_summary, badge_name, generating_notice, shown_summary, wstr, AiReply, Backlog, Button,
    LoopStep, Outcome, PresenterAction, RecapEntry, RecapPayload, WM_QUIT, WM_RECAP_READY,
    WM_SUMMARIZE_DONE,
};
use resurfacer::summarizer::{
    build_summarizer, generate_url_for, prompt_for, response_text, short_host, summary_or_titles,
    written_text, Choice, NaiveSummarizer, OllamaSummarizer, Summarizer, TabCluster, TabEntry,
};

const HEAD: &str = "<|im_start|>system\nТи підсумовуєш сесії браузерних вкладок одним реченням. Будь стислим і конкретним. Відповідай лише українською мовою.<|im_end|>\n<|im_start|>user\nКористувач мав відкриті ці вкладки браузера, але так і не переглянув їх:\n";
const TAIL: &str = "\nНапиши рівно одне речення українською мовою, яке підсумовує, що він досліджував.<|im_end|>\n<|im_start|>assistant\n";

fn entry(url: &str, title: Option<&str>) -> TabEntry {
    TabEntry { url: url.to_string(), title: title.map(|t| t.to_string()), extracted_text: None }
}

fn cluster(tabs: Vec<TabEntry>) -> TabCluster {
    TabCluster { tabs, reason: "rabbit_hole".to_string() }
}

fn two() -> TabCluster {
    cluster(vec![entry("https://a.example/x", Some("First")), entry("http://b.example", None)])
}

fn config(url: &str) -> LlmConfig {
    LlmConfig { ollama_url: url.to_string(), ollama_model: "m".to_string(), ..LlmConfig::default() }
}

#[test]
fn a_naive_summary_lists_the_titles() {
    let mut n = NaiveSummarizer;
    assert_eq!(n.summarize(&two()), "2 tabs - First, http://b.example");
    assert_eq!(n.summarize(&cluster(vec![entry("u", Some("T"))])), "1 tab - T");
    assert_eq!(n.summarize(&cluster(vec![])), "0 tabs - ");
}

#[test]
fn a_host_stands_before_the_first_slash() {
    assert_eq!(short_host("https://www.youtube.com/watch?v=1"), "www.youtube.com");
    assert_eq!(short_host("http://a"), "a");
    assert_eq!(short_host("https://http://a/b"), "a");
    assert_eq!(short_host("http://https://a/b"), "https:");
    assert_eq!(short_host("about:blank"), "about:blank");
    assert_eq!(short_host(""), "");
}

#[test]
fn a_prompt_lists_the_tabs() {
    let s = OllamaSummarizer::new(&config("http://localhost:11434"));
    let list = "- First (a.example)\n- untitled (b.example)";
    assert_eq!(s.build_prompt(&two()), format!("{}{}{}", HEAD, list, TAIL));
    assert_eq!(prompt_for(""), format!("{}{}", HEAD, TAIL));
}

#[test]
fn the_server_has_two_addresses() {
    for url in ["http://localhost:11434", "http://localhost:11434/", "http://localhost:11434//"] {
        let s = OllamaSummarizer::new(&config(url));
        assert_eq!(s.generate_url, "http://localhost:11434/api/generate");
        assert_eq!(s.tags_url(), "http://localhost:11434/api/tags");
        assert_eq!(s.model, "m");
    }
    // a base that holds the path itself is changed too
    let s = OllamaSummarizer::new(&config("http://h/api/generate"));
    assert_eq!(s.tags_url(), "http://h/api/tags/api/tags");
    assert_eq!(generate_url_for(""), "/api/generate");
}

#[test]
fn the_server_is_used_if_it_can_be_reached() {
    assert!(matches!(build_summarizer(&config("u"), true), Choice::Ollama(s) if s.generate_url == "u/api/generate" && s.model == "m"));
    assert!(matches!(build_summarizer(&config("u"), false), Choice::Naive(_)));
}

#[test]
fn the_response_is_read_from_the_reply() {
    let read = |body: &str| response_text(&body.as_bytes().to_vec());
    assert_eq!(read("{\"response\":\"  A sentence.\\n\"}"), Some("A sentence.".to_string()));
    assert_eq!(read("{\"done\":true,\"response\":\"x\"}"), Some("x".to_string()));
    assert_eq!(read("{\"response\":\"\\u0456\"}"), Some("і".to_string()));
    for body in [
        "", "{", "[]", "\"response\"", "{\"response\":3}", "{\"response\":null}",
        "{\"Response\":\"x\"}", "{\"response\":\"\"}", "{\"response\":\" \\n\\t\"}",
        "{\"response\":\"x\"} trailing",
    ] {
        assert_eq!(read(body), None, "{}", body);
    }
    assert_eq!(response_text(&vec![0xff, 0xfe]), None);
}

#[test]
fn what_was_written_is_trimmed() {
    assert_eq!(written_text(Some(" a b ".to_string())), Some("a b".to_string()));
    assert_eq!(written_text(Some(" \n".to_string())), None);
    assert_eq!(written_text(None), None);
}

#[test]
fn the_titles_have_to_do_where_nothing_was_written() {
    let s = OllamaSummarizer::new(&config("u"));
    let naive = "2 tabs - First, http://b.example";
    assert_eq!(s.summary(&two(), None), naive);
    assert_eq!(s.summary(&two(), Some(b"oops".to_vec())), naive);
    assert_eq!(s.summary(&two(), Some(b"{\"response\":\" \"}".to_vec())), naive);
    assert_eq!(s.summary(&two(), Some(b"{\"response\":\" ok \"}".to_vec())), "ok");
    assert_eq!(summary_or_titles(&two(), Some("s".to_string())), "s");
    assert_eq!(summary_or_titles(&two(), None), naive);
}

fn recap() -> RecapPayload {
    let e = |title: &str, url: &str| RecapEntry { title: title.to_string(), url: url.to_string() };
    RecapPayload {
        reason: "watch_later".to_string(),
        tab_count: 2,
        entries: vec![e("One", "https://a.example/1"), e("", "https://b.example/2")],
        ollama_url: "http://localhost:11434/".to_string(),
        ollama_model: "m".to_string(),
    }
}

fn labels(buttons: &Vec<Button>) -> Vec<(i32, &'static str)> {
    buttons.iter().map(|b| (b.id, b.label)).collect()
}

#[test]
fn reasons_have_badges() {
    assert_eq!(badge_name("watch_later"), "Watch Later");
    assert_eq!(badge_name("rabbit_hole"), "Rabbit Hole");
    assert_eq!(badge_name(""), "Rabbit Hole");
}

#[test]
fn the_recap_dialog_lists_the_tabs() {
    let d = recap().recap_dialog();
    assert_eq!(d.title, "Resurfacer");
    assert_eq!(d.heading, "2 вкладок збережено — Watch Later");
    assert_eq!(d.content, "• One\n• https://b.example/2");
    assert_eq!(
        labels(&d.buttons),
        vec![(101, "Відкрити всі"), (102, "AI підсумок"), (103, "Зберегти в нотатки"), (104, "Закрити")]
    );
}

#[test]
fn the_summary_dialog_starts_with_the_summary() {
    let d = recap().summary_dialog("Речення.");
    assert_eq!(d.title, "Resurfacer — AI підсумок");
    assert_eq!(d.heading, "2 вкладок — Watch Later");
    assert_eq!(d.content, "Речення.\n\n• One\n• https://b.example/2");
    assert_eq!(
        labels(&d.buttons),
        vec![(201, "Відкрити всі"), (202, "Зберегти в нотатки"), (203, "Закрити")]
    );
    let empty = RecapPayload { entries: vec![], tab_count: 0, ..recap() };
    assert_eq!(empty.summary_dialog("x").content, "x");
    assert_eq!(empty.recap_dialog().content, "");
}

#[test]
fn the_notice_has_one_button() {
    let d = generating_notice();
    assert_eq!(d.title, "Resurfacer");
    assert_eq!(d.heading, "AI підсумок генерується");
    assert_eq!(d.content, "Ollama обробляє запит. Результат з'явиться автоматично.");
    assert_eq!(labels(&d.buttons), vec![(1, "OK")]);
}

fn reopened(outcome: Outcome) -> Vec<String> {
    match outcome {
        Outcome::Act(PresenterAction::ReopenUrls(urls)) => urls,
        other => panic!("{:?}", other),
    }
}

#[test]
fn buttons_decide_what_becomes_of_a_recap() {
    let urls = vec!["https://a.example/1", "https://b.example/2"];
    assert_eq!(reopened(recap().after_recap_dialog(101)), urls);
    assert!(matches!(recap().after_recap_dialog(102), Outcome::Summarize));
    assert!(matches!(recap().after_recap_dialog(103), Outcome::Save));
    for other in [104, 2, 0, 201, -1] {
        assert!(matches!(recap().after_recap_dialog(other), Outcome::Nothing));
    }
    assert_eq!(reopened(recap().after_summary_dialog(201)), urls);
    assert!(matches!(recap().after_summary_dialog(202), Outcome::Save));
    for other in [203, 101, 103, 0] {
        assert!(matches!(recap().after_summary_dialog(other), Outcome::Nothing));
    }
}

#[test]
fn the_model_is_asked_about_a_recap() {
    let r = recap().ai_request();
    assert_eq!(r.url, "http://localhost:11434/api/generate");
    assert_eq!(r.model, "m");
    assert_eq!(r.prompt, format!("{}- One (a.example)\n- без назви (b.example){}", HEAD, TAIL));
}

#[test]
fn the_user_reads_what_became_of_asking() {
    assert_eq!(ai_summary(&AiReply::NoClient), "Не вдалося підключитися до Ollama.");
    assert_eq!(
        ai_summary(&AiReply::Unreachable("refused".to_string())),
        "Ollama недоступний: refused"
    );
    assert_eq!(ai_summary(&AiReply::Body(b"{\"response\":\" ok\"}".to_vec())), "ok");
    assert_eq!(ai_summary(&AiReply::Body(b"{}".to_vec())), "Ollama не повернув результат.");
    assert_eq!(shown_summary(None), "Ollama не повернув результат.");
    assert_eq!(shown_summary(Some("s".to_string())), "s");
}

#[test]
fn a_note_is_headed_by_the_time() {
    let text = recap().note_at("2024-05-06 07:08", None);
    assert_eq!(
        text,
        "\n[2024-05-06 07:08] 2 вкладок — watch_later\n  One — https://a.example/1\n   — https://b.example/2\n"
    );
    let text = recap().note_at("t", Some("s"));
    assert_eq!(
        text,
        "\n[t] 2 вкладок — watch_later\nAI підсумок: s\n  One — https://a.example/1\n   — https://b.example/2\n"
    );
}

#[test]
fn a_note_is_headed_by_the_local_time() {
    let text = recap().note(None);
    let time: Vec<char> = text.chars().skip(2).take(16).collect();
    for (i, c) in time.iter().enumerate() {
        let wanted = match i {
            4 | 7 => *c == '-',
            10 => *c == ' ',
            13 => *c == ':',
            _ => c.is_ascii_digit(),
        };
        assert!(wanted, "{}", text);
    }
    assert!(text.contains("] 2 вкладок — watch_later\n"));
}

#[test]
fn wide_text_for_dialogs_ends_in_a_zero() {
    assert_eq!(wstr("Я"), vec![0x42f, 0]);
}

#[test]
fn recaps_and_summaries_are_shown_once_and_in_order() {
    let named = |reason: &str| RecapPayload { reason: reason.to_string(), ..recap() };
    let mut b = Backlog::new();
    b.recap_ready(named("a"));
    b.recap_ready(named("b"));
    b.summarize_done(named("a"), "s".to_string());
    assert!(matches!(b.on_message(None), LoopStep::Sleep));
    assert!(matches!(b.on_message(Some(0x0200)), LoopStep::Dispatch));
    match b.on_message(Some(WM_RECAP_READY)) {
        LoopStep::ShowRecaps(v) => {
            assert_eq!(v.iter().map(|r| r.reason.as_str()).collect::<Vec<&str>>(), vec!["a", "b"])
        }
        other => panic!("{:?}", other),
    }
    assert!(matches!(b.on_message(Some(WM_RECAP_READY)), LoopStep::ShowRecaps(v) if v.is_empty()));
    b.recap_ready(named("c"));
    match b.on_message(Some(WM_SUMMARIZE_DONE)) {
        LoopStep::ShowSummaries(v) => {
            assert_eq!(v.len(), 1);
            assert_eq!(v[0].0.reason, "a");
            assert_eq!(v[0].1, "s");
        }
        other => panic!("{:?}", other),
    }
    assert!(matches!(b.on_message(Some(WM_RECAP_READY)), LoopStep::ShowRecaps(v) if v.len() == 1));
    assert!(matches!(b.on_message(Some(WM_QUIT)), LoopStep::Quit));
    assert_eq!((WM_QUIT, WM_RECAP_READY, WM_SUMMARIZE_DONE), (0x12, 0x8001, 0x8002));
}
