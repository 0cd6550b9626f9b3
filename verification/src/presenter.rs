//! What the user is shown when tabs were put away, and what becomes of the answer.

use vstd::prelude::*;
use vstd::string::*;
use crate::summarizer::{
    generate_address, generate_url_for, item, json_text, list_item, prompt, prompt_for,
    response_text, written,
};
use crate::text::{
    decimal, decimal_text, join, joined, same, trim_end, trimmed_end, utf16, views, wide,
};

verus! {

/// What is shown of the tabs that were put away for one reason.
#[derive(Debug, Clone)]
pub struct RecapPayload {
    pub reason: String,
    pub tab_count: usize,
    pub entries: Vec<RecapEntry>,
    pub ollama_url: String,
    pub ollama_model: String,
}

/// A tab in a recap.
#[derive(Debug, Clone)]
pub struct RecapEntry {
    pub title: String,
    pub url: String,
}

/// What the user wants done.
#[derive(Debug)]
pub enum PresenterAction {
    ReopenUrls(Vec<String>),
}

/// A button of a dialog.
#[derive(Debug)]
pub struct Button {
    pub id: i32,
    pub label: &'static str,
}

/// A dialog.
#[derive(Debug)]
pub struct Dialog {
    pub title: &'static str,
    pub heading: String,
    pub content: String,
    pub buttons: Vec<Button>,
}

/// The ids and the labels of the buttons.
pub open spec fn labels(buttons: Seq<Button>) -> Seq<(i32, Seq<char>)> {
    buttons.map_values(|b: Button| (b.id, b.label@))
}

/// The reason as the user reads it.
pub open spec fn badge(reason: Seq<char>) -> Seq<char> {
    if reason == "watch_later"@ {
        "Watch Later"@
    } else {
        "Rabbit Hole"@
    }
}

/// The reason as the user reads it.
pub fn badge_name(reason: &str) -> (r: &'static str)
    ensures
        r@ == badge(reason@),
{
    if same(reason, "watch_later") {
        "Watch Later"
    } else {
        "Rabbit Hole"
    }
}

/// The text as a wide string: its UTF-16 code units and a zero.
pub fn wstr(s: &str) -> (r: Vec<u16>)
    ensures
        r@ == utf16(s@).push(0),
{
    wide(s)
}

impl RecapEntry {
    /// What the tab is called: its title, or its address where the title is empty.
    pub open spec fn label(self) -> Seq<char> {
        if self.title@.len() == 0 {
            self.url@
        } else {
            self.title@
        }
    }

    /// The tab's line in the prompt.
    pub open spec fn item(self) -> Seq<char> {
        item(
            if self.title@.len() == 0 {
                "без назви"@
            } else {
                self.title@
            },
            self.url@,
        )
    }
}

/// The tabs as a list with bullets, each line ended.
pub open spec fn bullets(entries: Seq<RecapEntry>) -> Seq<char>
    decreases entries.len(),
{
    if entries.len() == 0 {
        Seq::empty()
    } else {
        bullets(entries.drop_last()) + "• "@ + entries.last().label() + "\n"@
    }
}

/// The tabs as they are noted, each line ended.
pub open spec fn notes(entries: Seq<RecapEntry>) -> Seq<char>
    decreases entries.len(),
{
    if entries.len() == 0 {
        Seq::empty()
    } else {
        notes(entries.drop_last()) + "  "@ + entries.last().title@ + " — "@ + entries.last().url@
            + "\n"@
    }
}

/// Appends the tabs as a list with bullets.
fn push_bullets(text: &mut String, entries: &Vec<RecapEntry>)
    ensures
        final(text)@ == old(text)@ + bullets(entries@),
{
    let ghost start = text@;
    let mut i: usize = 0;
    assert(entries@.take(0) =~= Seq::empty());
    assert(text@ =~= start + bullets(entries@.take(0)));
    while i < entries.len()
        invariant
            i <= entries@.len(),
            text@ == start + bullets(entries@.take(i as int)),
        decreases entries@.len() - i,
    {
        let entry = &entries[i];
        proof {
            assert(entries@.take(i + 1).drop_last() =~= entries@.take(i as int));
            assert(entries@.take(i + 1).last() == entry);
        }
        text.append("• ");
        if entry.title.as_str().is_empty() {
            text.append(entry.url.as_str());
        } else {
            text.append(entry.title.as_str());
        }
        text.append("\n");
        assert(text@ =~= start + bullets(entries@.take(i + 1)));
        i += 1;
    }
    assert(entries@.take(i as int) =~= entries@);
}

impl RecapPayload {
    /// The addresses of the tabs.
    pub open spec fn urls(self) -> Seq<Seq<char>> {
        self.entries@.map_values(|e: RecapEntry| e.url@)
    }

    /// The tabs, one line each.
    pub open spec fn list(self) -> Seq<char> {
        joined(self.entries@.map_values(|e: RecapEntry| e.item()), "\n"@)
    }

    /// The addresses of the tabs.
    fn url_list(&self) -> (r: Vec<String>)
        ensures
            views(r@) == self.urls(),
            r@.len() == self.entries@.len(),
    {
        let entries = &self.entries;
        let mut urls: Vec<String> = Vec::new();
        let mut i: usize = 0;
        while i < entries.len()
            invariant
                i <= entries@.len(),
                views(urls@) == entries@.take(i as int).map_values(|e: RecapEntry| e.url@),
            decreases entries@.len() - i,
        {
            let ghost done = urls@;
            urls.push(entries[i].url.clone());
            assert(views(urls@) =~= views(done).push(entries@[i as int].url@));
            assert(entries@.take(i + 1).map_values(|e: RecapEntry| e.url@) =~= entries@.take(
                i as int,
            ).map_values(|e: RecapEntry| e.url@).push(entries@[i as int].url@));
            i += 1;
        }
        assert(entries@.take(i as int) =~= entries@);
        assert(views(urls@).len() == urls@.len());
        urls
    }

    /// The dialog that tells of the tabs that were put away.
    pub fn recap_dialog(&self) -> (r: Dialog)
        ensures
            r.title@ == "Resurfacer"@,
            r.heading@ == decimal(self.tab_count as nat) + " вкладок збережено — "@ + badge(
                self.reason@,
            ),
            r.content@ == trimmed_end(bullets(self.entries@)),
            labels(r.buttons@) == seq![
                (101i32, "Відкрити всі"@),
                (102i32, "AI підсумок"@),
                (103i32, "Зберегти в нотатки"@),
                (104i32, "Закрити"@),
            ],
    {
        let mut heading = decimal_text(self.tab_count as u64);
        heading.append(" вкладок збережено — ");
        heading.append(badge_name(self.reason.as_str()));
        let mut body = String::new();
        push_bullets(&mut body, &self.entries);
        assert(body@ =~= bullets(self.entries@));
        let buttons = vec![
            Button { id: 101, label: "Відкрити всі" },
            Button { id: 102, label: "AI підсумок" },
            Button { id: 103, label: "Зберегти в нотатки" },
            Button { id: 104, label: "Закрити" },
        ];
        assert(labels(buttons@) =~= seq![
            (101i32, "Відкрити всі"@),
            (102i32, "AI підсумок"@),
            (103i32, "Зберегти в нотатки"@),
            (104i32, "Закрити"@),
        ]);
        Dialog { title: "Resurfacer", heading, content: trim_end(body.as_str()), buttons }
    }

    /// The dialog that tells what the model wrote about the tabs.
    pub fn summary_dialog(&self, summary: &str) -> (r: Dialog)
        ensures
            r.title@ == "Resurfacer — AI підсумок"@,
            r.heading@ == decimal(self.tab_count as nat) + " вкладок — "@ + badge(self.reason@),
            r.content@ == trimmed_end(summary@ + "\n\n"@ + bullets(self.entries@)),
            labels(r.buttons@) == seq![
                (201i32, "Відкрити всі"@),
                (202i32, "Зберегти в нотатки"@),
                (203i32, "Закрити"@),
            ],
    {
        let mut heading = decimal_text(self.tab_count as u64);
        heading.append(" вкладок — ");
        heading.append(badge_name(self.reason.as_str()));
        let mut body = summary.to_string();
        body.append("\n\n");
        push_bullets(&mut body, &self.entries);
        let buttons = vec![
            Button { id: 201, label: "Відкрити всі" },
            Button { id: 202, label: "Зберегти в нотатки" },
            Button { id: 203, label: "Закрити" },
        ];
        assert(labels(buttons@) =~= seq![
            (201i32, "Відкрити всі"@),
            (202i32, "Зберегти в нотатки"@),
            (203i32, "Закрити"@),
        ]);
        Dialog {
            title: "Resurfacer — AI підсумок",
            heading,
            content: trim_end(body.as_str()),
            buttons,
        }
    }

    /// What becomes of the answer to the dialog of the recap.
    pub fn after_recap_dialog(&self, pressed: i32) -> (r: Outcome)
        ensures
            match pressed {
                101i32 => r matches Outcome::Act(PresenterAction::ReopenUrls(urls)) && views(urls@)
                    == self.urls() && urls@.len() == self.entries@.len(),
                102i32 => r is Summarize,
                103i32 => r is Save,
                _ => r is Nothing,
            },
    {
        if pressed == 101 {
            Outcome::Act(PresenterAction::ReopenUrls(self.url_list()))
        } else if pressed == 102 {
            Outcome::Summarize
        } else if pressed == 103 {
            Outcome::Save
        } else {
            Outcome::Nothing
        }
    }

    /// What becomes of the answer to the dialog of the summary.
    pub fn after_summary_dialog(&self, pressed: i32) -> (r: Outcome)
        ensures
            match pressed {
                201i32 => r matches Outcome::Act(PresenterAction::ReopenUrls(urls)) && views(urls@)
                    == self.urls() && urls@.len() == self.entries@.len(),
                202i32 => r is Save,
                _ => r is Nothing,
            },
    {
        if pressed == 201 {
            Outcome::Act(PresenterAction::ReopenUrls(self.url_list()))
        } else if pressed == 202 {
            Outcome::Save
        } else {
            Outcome::Nothing
        }
    }

    /// What the model is asked about the tabs.
    pub fn ai_request(&self) -> (r: AiRequest)
        ensures
            r.url@ == generate_address(self.ollama_url@),
            r.model == self.ollama_model,
            r.prompt@ == prompt(self.list()),
    {
        let entries = &self.entries;
        let mut items: Vec<String> = Vec::new();
        let mut i: usize = 0;
        while i < entries.len()
            invariant
                i <= entries@.len(),
                views(items@) == entries@.take(i as int).map_values(|e: RecapEntry| e.item()),
            decreases entries@.len() - i,
        {
            let entry = &entries[i];
            let line = if entry.title.as_str().is_empty() {
                list_item("без назви", entry.url.as_str())
            } else {
                list_item(entry.title.as_str(), entry.url.as_str())
            };
            let ghost done = items@;
            items.push(line);
            assert(views(items@) =~= views(done).push(line@));
            assert(entries@.take(i + 1).map_values(|e: RecapEntry| e.item()) =~= entries@.take(
                i as int,
            ).map_values(|e: RecapEntry| e.item()).push(line@));
            i += 1;
        }
        assert(entries@.take(i as int) =~= entries@);
        AiRequest {
            url: generate_url_for(self.ollama_url.as_str()),
            model: self.ollama_model.clone(),
            prompt: prompt_for(join(&items, "\n").as_str()),
        }
    }

    /// The note that is saved of the recap, headed by the local time.
    pub fn note(&self, ai_summary: Option<&str>) -> (r: String)
        ensures
            exists|time: Seq<char>|
                is_minute(time) && r@ == #[trigger] noted(*self, time, ai_summary),
    {
        let time = local_minute();
        self.note_at(time.as_str(), ai_summary)
    }

    /// The note that is saved of the recap, headed by the given time.
    pub fn note_at(&self, time: &str, ai_summary: Option<&str>) -> (r: String)
        ensures
            r@ == noted(*self, time@, ai_summary),
    {
        let mut r = "\n[".to_string();
        r.append(time);
        r.append("] ");
        r.append(decimal_text(self.tab_count as u64).as_str());
        r.append(" вкладок — ");
        r.append(self.reason.as_str());
        r.append("\n");
        let ghost head = r@;
        match ai_summary {
            Some(s) => {
                r.append("AI підсумок: ");
                r.append(s);
                r.append("\n");
                assert(r@ =~= head + ("AI підсумок: "@ + s@ + "\n"@));
            },
            None => {
                assert(r@ =~= head + Seq::empty());
            },
        }
        let entries = &self.entries;
        let ghost start = r@;
        let mut i: usize = 0;
        assert(entries@.take(0) =~= Seq::empty());
        assert(r@ =~= start + notes(entries@.take(0)));
        while i < entries.len()
            invariant
                i <= entries@.len(),
                r@ == start + notes(entries@.take(i as int)),
            decreases entries@.len() - i,
        {
            let entry = &entries[i];
            proof {
                assert(entries@.take(i + 1).drop_last() =~= entries@.take(i as int));
                assert(entries@.take(i + 1).last() == entry);
            }
            r.append("  ");
            r.append(entry.title.as_str());
            r.append(" — ");
            r.append(entry.url.as_str());
            r.append("\n");
            assert(r@ =~= start + notes(entries@.take(i + 1)));
            i += 1;
        }
        assert(entries@.take(i as int) =~= entries@);
        r
    }
}

/// The note that is saved of a recap.
pub open spec fn noted(recap: RecapPayload, time: Seq<char>, ai_summary: Option<&str>) -> Seq<
    char,
> {
    "\n["@ + time + "] "@ + decimal(recap.tab_count as nat) + " вкладок — "@ + recap.reason@
        + "\n"@ + (match ai_summary {
        Some(s) => "AI підсумок: "@ + s@ + "\n"@,
        None => Seq::empty(),
    }) + notes(recap.entries@)
}

/// The character is a decimal digit.
pub open spec fn is_digit(c: char) -> bool {
    '0' <= c && c <= '9'
}

/// A local time up to the minute: a year of four digits, or of a sign and at least
/// four digits; then the month, the day, the hour and the minute in two digits
/// each.
pub open spec fn is_minute(s: Seq<char>) -> bool {
    let n = s.len() as int;
    &&& n >= 16
    &&& n == 16 ==> is_digit(s[0])
    &&& n > 16 ==> s[0] == '+' || s[0] == '-'
    &&& s[n - 12] == '-'
    &&& s[n - 9] == '-'
    &&& s[n - 6] == ' '
    &&& s[n - 3] == ':'
    &&& forall|i: int|
        0 < i < n && i != n - 12 && i != n - 9 && i != n - 6 && i != n - 3 ==> is_digit(
            #[trigger] s[i],
        )
}

/// `chrono::Local::now`, written by `format` with `%Y-%m-%d %H:%M`: the local time
/// up to the minute. Which one depends on the clock and the time zone; its form
/// does not.
#[verifier::external_body]
fn local_minute() -> (r: String)
    ensures
        is_minute(r@),
{
    chrono::Local::now().format("%Y-%m-%d %H:%M").to_string()
}

/// What becomes of the answer to a dialog.
#[derive(Debug)]
pub enum Outcome {
    /// The daemon is told.
    Act(PresenterAction),
    /// The model is asked in the background, and a notice is shown meanwhile.
    Summarize,
    /// The recap is noted.
    Save,
    Nothing,
}

/// What the model is asked, and where.
#[derive(Debug)]
pub struct AiRequest {
    pub url: String,
    pub model: String,
    pub prompt: String,
}

/// What became of asking the model.
#[derive(Debug)]
pub enum AiReply {
    /// No client could be made.
    NoClient,
    /// The server could not be asked, with the error.
    Unreachable(String),
    /// The body of the server's reply.
    Body(Vec<u8>),
}

/// What the user reads of the model's reply.
pub fn ai_summary(reply: &AiReply) -> (r: String)
    ensures
        r@ == (match reply {
            AiReply::NoClient => "Не вдалося підключитися до Ollama."@,
            AiReply::Unreachable(error) => "Ollama недоступний: "@ + error@,
            AiReply::Body(body) => match written(json_text(body@, "response"@)) {
                Some(text) => text,
                None => "Ollama не повернув результат."@,
            },
        }),
{
    match reply {
        AiReply::NoClient => "Не вдалося підключитися до Ollama.".to_string(),
        AiReply::Unreachable(error) => {
            let mut r = "Ollama недоступний: ".to_string();
            r.append(error.as_str());
            r
        },
        AiReply::Body(body) => shown_summary(response_text(body)),
    }
}

/// What the user reads of what the model wrote.
pub fn shown_summary(text: Option<String>) -> (r: String)
    ensures
        r@ == (match text {
            Some(t) => t@,
            None => "Ollama не повернув результат."@,
        }),
{
    match text {
        Some(t) => t,
        None => "Ollama не повернув результат.".to_string(),
    }
}

/// The notice that is shown while the model writes.
pub fn generating_notice() -> (r: Dialog)
    ensures
        r.title@ == "Resurfacer"@,
        r.heading@ == "AI підсумок генерується"@,
        r.content@ == "Ollama обробляє запит. Результат з'явиться автоматично."@,
        labels(r.buttons@) == seq![(1i32, "OK"@)],
{
    let buttons = vec![Button { id: 1, label: "OK" }];
    assert(labels(buttons@) =~= seq![(1i32, "OK"@)]);
    Dialog {
        title: "Resurfacer",
        heading: "AI підсумок генерується".to_string(),
        content: "Ollama обробляє запит. Результат з'явиться автоматично.".to_string(),
        buttons,
    }
}

/// The window message that ends the loop.
pub const WM_QUIT: u32 = 0x0012;

/// The window message that tells of new recaps.
pub const WM_RECAP_READY: u32 = 0x8001;

/// The window message that tells of new summaries.
pub const WM_SUMMARIZE_DONE: u32 = 0x8002;

/// What the loop does next.
#[derive(Debug)]
pub enum LoopStep {
    Quit,
    /// Show a dialog for each of the recaps.
    ShowRecaps(Vec<RecapPayload>),
    /// Show a dialog for each of the summaries.
    ShowSummaries(Vec<(RecapPayload, String)>),
    /// Hand the message on to its window.
    Dispatch,
    /// Wait a little for the next message.
    Sleep,
}

/// The recaps and the summaries that were not shown yet.
pub struct Backlog {
    recaps: Vec<RecapPayload>,
    summaries: Vec<(RecapPayload, String)>,
}

/// The contents of a `Backlog`.
#[verifier::ext_equal]
pub struct BacklogView {
    pub recaps: Seq<RecapPayload>,
    pub summaries: Seq<(RecapPayload, String)>,
}

/// What can happen to a backlog.
pub enum BacklogEvent {
    /// A recap came from the daemon.
    Recap(RecapPayload),
    /// The model has written about a recap.
    Summary(RecapPayload, String),
    /// The loop saw a window message, or none.
    Message(Option<u32>),
}

impl BacklogView {
    /// Nothing is to be shown.
    pub open spec fn empty() -> BacklogView {
        BacklogView { recaps: Seq::empty(), summaries: Seq::empty() }
    }

    /// The backlog after an event: what is shown has left it.
    pub open spec fn after(self, event: BacklogEvent) -> BacklogView {
        match event {
            BacklogEvent::Recap(recap) => BacklogView { recaps: self.recaps.push(recap), ..self },
            BacklogEvent::Summary(recap, summary) => BacklogView {
                summaries: self.summaries.push((recap, summary)),
                ..self
            },
            BacklogEvent::Message(message) => if message == Some(WM_RECAP_READY) {
                BacklogView { recaps: Seq::empty(), ..self }
            } else if message == Some(WM_SUMMARIZE_DONE) {
                BacklogView { summaries: Seq::empty(), ..self }
            } else {
                self
            },
        }
    }

    /// The backlog after some events.
    pub open spec fn after_all(self, events: Seq<BacklogEvent>) -> BacklogView
        decreases events.len(),
    {
        if events.len() == 0 {
            self
        } else {
            self.after_all(events.drop_last()).after(events.last())
        }
    }

    /// The recaps that are shown during some events, in order.
    pub open spec fn shown_recaps(self, events: Seq<BacklogEvent>) -> Seq<RecapPayload>
        decreases events.len(),
    {
        if events.len() == 0 {
            Seq::empty()
        } else {
            let front = self.shown_recaps(events.drop_last());
            if events.last() == BacklogEvent::Message(Some(WM_RECAP_READY)) {
                front + self.after_all(events.drop_last()).recaps
            } else {
                front
            }
        }
    }

    /// The summaries that are shown during some events, in order.
    pub open spec fn shown_summaries(self, events: Seq<BacklogEvent>) -> Seq<
        (RecapPayload, String),
    >
        decreases events.len(),
    {
        if events.len() == 0 {
            Seq::empty()
        } else {
            let front = self.shown_summaries(events.drop_last());
            if events.last() == BacklogEvent::Message(Some(WM_SUMMARIZE_DONE)) {
                front + self.after_all(events.drop_last()).summaries
            } else {
                front
            }
        }
    }
}

/// The recaps that come during some events, in order.
pub open spec fn arrived_recaps(events: Seq<BacklogEvent>) -> Seq<RecapPayload>
    decreases events.len(),
{
    if events.len() == 0 {
        Seq::empty()
    } else {
        let front = arrived_recaps(events.drop_last());
        match events.last() {
            BacklogEvent::Recap(recap) => front.push(recap),
            _ => front,
        }
    }
}

/// The summaries that come during some events, in order.
pub open spec fn arrived_summaries(events: Seq<BacklogEvent>) -> Seq<(RecapPayload, String)>
    decreases events.len(),
{
    if events.len() == 0 {
        Seq::empty()
    } else {
        let front = arrived_summaries(events.drop_last());
        match events.last() {
            BacklogEvent::Summary(recap, summary) => front.push((recap, summary)),
            _ => front,
        }
    }
}

impl View for Backlog {
    type V = BacklogView;

    closed spec fn view(&self) -> BacklogView {
        BacklogView { recaps: self.recaps@, summaries: self.summaries@ }
    }
}

impl Backlog {
    /// Nothing is to be shown.
    pub fn new() -> (r: Backlog)
        ensures
            r@ == BacklogView::empty(),
    {
        Backlog { recaps: Vec::new(), summaries: Vec::new() }
    }

    /// A recap came from the daemon.
    pub fn recap_ready(&mut self, recap: RecapPayload)
        ensures
            final(self)@ == old(self)@.after(BacklogEvent::Recap(recap)),
    {
        self.recaps.push(recap);
    }

    /// The model has written about a recap.
    pub fn summarize_done(&mut self, recap: RecapPayload, summary: String)
        ensures
            final(self)@ == old(self)@.after(BacklogEvent::Summary(recap, summary)),
    {
        self.summaries.push((recap, summary));
    }

    /// What the loop does about a window message, or about there being none. What
    /// is to be shown leaves the backlog.
    pub fn on_message(&mut self, message: Option<u32>) -> (r: LoopStep)
        ensures
            final(self)@ == old(self)@.after(BacklogEvent::Message(message)),
            match r {
                LoopStep::ShowRecaps(v) => v@ + final(self)@.recaps == old(self)@.recaps
                    && final(self)@.summaries == old(self)@.summaries,
                LoopStep::ShowSummaries(v) => v@ + final(self)@.summaries == old(self)@.summaries
                    && final(self)@.recaps == old(self)@.recaps,
                _ => final(self)@ == old(self)@,
            },
            match message {
                None => r is Sleep,
                Some(m) => if m == WM_QUIT {
                    r is Quit
                } else if m == WM_RECAP_READY {
                    r matches LoopStep::ShowRecaps(v) && v@ == old(self)@.recaps
                } else if m == WM_SUMMARIZE_DONE {
                    r matches LoopStep::ShowSummaries(v) && v@ == old(self)@.summaries
                } else {
                    r is Dispatch
                },
            },
    {
        proof {
            assert(self@.recaps + Seq::empty() =~= self@.recaps);
            assert(self@.summaries + Seq::empty() =~= self@.summaries);
        }
        match message {
            None => LoopStep::Sleep,
            Some(m) => {
                if m == WM_QUIT {
                    LoopStep::Quit
                } else if m == WM_RECAP_READY {
                    let mut recaps: Vec<RecapPayload> = Vec::new();
                    std::mem::swap(&mut recaps, &mut self.recaps);
                    LoopStep::ShowRecaps(recaps)
                } else if m == WM_SUMMARIZE_DONE {
                    let mut summaries: Vec<(RecapPayload, String)> = Vec::new();
                    std::mem::swap(&mut summaries, &mut self.summaries);
                    LoopStep::ShowSummaries(summaries)
                } else {
                    LoopStep::Dispatch
                }
            },
        }
    }
}

/// Every recap and every summary is shown once, in the order in which they come:
/// what was shown and what is still in the backlog are together what has come.
pub proof fn law_everything_is_shown_once_and_in_order(events: Seq<BacklogEvent>)
    ensures
        ({
            let start = BacklogView::empty();
            let end = start.after_all(events);
            &&& start.shown_recaps(events) + end.recaps == arrived_recaps(events)
            &&& start.shown_summaries(events) + end.summaries == arrived_summaries(events)
        }),
    decreases events.len(),
{
    let start = BacklogView::empty();
    if events.len() == 0 {
        assert(start.shown_recaps(events) + start.recaps =~= arrived_recaps(events));
        assert(start.shown_summaries(events) + start.summaries =~= arrived_summaries(events));
    } else {
        let front = events.drop_last();
        law_everything_is_shown_once_and_in_order(front);
        let before = start.after_all(front);
        let end = start.after_all(events);
        assert(start.shown_recaps(events) + end.recaps =~= match events.last() {
            BacklogEvent::Recap(recap) => (start.shown_recaps(front) + before.recaps).push(recap),
            _ => start.shown_recaps(front) + before.recaps,
        });
        assert(start.shown_summaries(events) + end.summaries =~= match events.last() {
            BacklogEvent::Summary(recap, summary) => (start.shown_summaries(front)
                + before.summaries).push((recap, summary)),
            _ => start.shown_summaries(front) + before.summaries,
        });
    }
}

}
