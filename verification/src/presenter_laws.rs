//! What holds of the dialogs, of the answers to them, and of what is noted and asked.

use vstd::prelude::*;
use crate::presenter::{
    ai_summary, badge, badge_name, bullets, labels, notes, wstr, AiReply, AiRequest, BacklogEvent,
    BacklogView, Dialog, Outcome, PresenterAction, RecapEntry, RecapPayload,
};
use crate::summarizer::{generate_address, host, json_text, written, PROMPT_HEAD, PROMPT_TAIL};
use crate::summary_laws::{holds, lemma_holds_part, lemma_holds_through};
use crate::text::{decimal, joined, trimmed_end, utf16, views};

verus! {

/// The outcome has all tabs of the recap opened again: as many addresses as there
/// are entries, each the address of the entry at its place.
pub open spec fn reopens_all(recap: RecapPayload, outcome: Outcome) -> bool {
    outcome matches Outcome::Act(PresenterAction::ReopenUrls(urls)) && urls@.len()
        == recap.entries@.len() && forall|i: int|
        0 <= i < recap.entries@.len() ==> (#[trigger] urls@[i])@ == recap.entries@[i].url@
}

/// The addresses of a recap are as many as it has entries, each that of the entry at its
/// place.
pub proof fn law_the_addresses_of_a_recap(recap: RecapPayload)
    ensures
        recap.urls().len() == recap.entries@.len(),
        forall|i: int|
            0 <= i < recap.entries@.len() ==> #[trigger] recap.urls()[i] == recap.entries@[i].url@,
{
}

/// Whoever asks for all tabs to be opened, in either dialog, gets as many addresses as the
/// recap has entries, each the address of the entry at its place.
pub proof fn law_all_tabs_are_reopened(recap: RecapPayload, first: Outcome, second: Outcome)
    requires
        call_ensures(RecapPayload::after_recap_dialog, (&recap, 101i32), first),
        call_ensures(RecapPayload::after_summary_dialog, (&recap, 201i32), second),
    ensures
        reopens_all(recap, first),
        reopens_all(recap, second),
{
    lemma_reopens_all(recap, first);
    lemma_reopens_all(recap, second);
}

proof fn lemma_reopens_all(recap: RecapPayload, outcome: Outcome)
    requires
        outcome matches Outcome::Act(PresenterAction::ReopenUrls(urls)) && views(urls@)
            == recap.urls(),
    ensures
        reopens_all(recap, outcome),
{
    if let Outcome::Act(PresenterAction::ReopenUrls(urls)) = outcome {
        assert(views(urls@).len() == urls@.len());
        assert forall|i: int| 0 <= i < recap.entries@.len() implies (#[trigger] urls@[i])@
            == recap.entries@[i].url@ by {
            assert(views(urls@)[i] == urls@[i]@);
        }
    }
}

/// In the dialog of a recap each button does what it says: the tabs are opened again, the
/// model is asked, the recap is noted, or nothing is done, as when no button is pressed.
pub proof fn law_the_buttons_of_a_recap(
    recap: RecapPayload,
    dialog: Dialog,
    i: int,
    pressed: i32,
    outcome: Outcome,
)
    requires
        call_ensures(RecapPayload::recap_dialog, (&recap,), dialog),
        call_ensures(RecapPayload::after_recap_dialog, (&recap, pressed), outcome),
        0 <= i < dialog.buttons@.len(),
        pressed == dialog.buttons@[i].id,
    ensures
        dialog.buttons@.len() == 4,
        dialog.buttons@[i].label@ == "Відкрити всі"@ ==> reopens_all(recap, outcome),
        dialog.buttons@[i].label@ == "AI підсумок"@ ==> outcome is Summarize,
        dialog.buttons@[i].label@ == "Зберегти в нотатки"@ ==> outcome is Save,
        dialog.buttons@[i].label@ == "Закрити"@ ==> outcome is Nothing,
        i == 0 ==> dialog.buttons@[i].label@ == "Відкрити всі"@,
        i == 1 ==> dialog.buttons@[i].label@ == "AI підсумок"@,
        i == 2 ==> dialog.buttons@[i].label@ == "Зберегти в нотатки"@,
        i == 3 ==> dialog.buttons@[i].label@ == "Закрити"@,
{
    let named = labels(dialog.buttons@);
    assert(named.len() == 4);
    assert(named[i] == (dialog.buttons@[i].id, dialog.buttons@[i].label@));
    reveal_strlit("Відкрити всі");
    reveal_strlit("AI підсумок");
    reveal_strlit("Зберегти в нотатки");
    reveal_strlit("Закрити");
    assert("Відкрити всі"@.len() == 12 && "AI підсумок"@.len() == 11
        && "Зберегти в нотатки"@.len() == 18 && "Закрити"@.len() == 7);
    if pressed == 101 {
        lemma_reopens_all(recap, outcome);
    }
}

/// In the dialog of a summary each button does what it says.
pub proof fn law_the_buttons_of_a_summary(
    recap: RecapPayload,
    summary: &str,
    dialog: Dialog,
    i: int,
    pressed: i32,
    outcome: Outcome,
)
    requires
        call_ensures(RecapPayload::summary_dialog, (&recap, summary), dialog),
        call_ensures(RecapPayload::after_summary_dialog, (&recap, pressed), outcome),
        0 <= i < dialog.buttons@.len(),
        pressed == dialog.buttons@[i].id,
    ensures
        dialog.buttons@.len() == 3,
        dialog.buttons@[i].label@ == "Відкрити всі"@ ==> reopens_all(recap, outcome),
        dialog.buttons@[i].label@ == "Зберегти в нотатки"@ ==> outcome is Save,
        dialog.buttons@[i].label@ == "Закрити"@ ==> outcome is Nothing,
        i == 0 ==> dialog.buttons@[i].label@ == "Відкрити всі"@,
        i == 1 ==> dialog.buttons@[i].label@ == "Зберегти в нотатки"@,
        i == 2 ==> dialog.buttons@[i].label@ == "Закрити"@,
{
    let named = labels(dialog.buttons@);
    assert(named.len() == 3);
    assert(named[i] == (dialog.buttons@[i].id, dialog.buttons@[i].label@));
    reveal_strlit("Відкрити всі");
    reveal_strlit("Зберегти в нотатки");
    reveal_strlit("Закрити");
    assert("Відкрити всі"@.len() == 12 && "Зберегти в нотатки"@.len() == 18
        && "Закрити"@.len() == 7);
    if pressed == 201 {
        lemma_reopens_all(recap, outcome);
    }
}

/// A dialog that is closed without a button leads to nothing.
pub proof fn law_no_button_does_nothing(
    recap: RecapPayload,
    pressed: i32,
    first: Outcome,
    second: Outcome,
)
    requires
        pressed < 101 || pressed > 203,
        call_ensures(RecapPayload::after_recap_dialog, (&recap, pressed), first),
        call_ensures(RecapPayload::after_summary_dialog, (&recap, pressed), second),
    ensures
        first is Nothing,
        second is Nothing,
{
}

/// The reasons of the store have names that the user reads.
pub proof fn law_reasons_as_the_user_reads_them(name: &str, r: &'static str)
    requires
        call_ensures(badge_name, (name,), r),
    ensures
        name@ == "watch_later"@ ==> r@ == "Watch Later"@,
        name@ == "rabbit_hole"@ ==> r@ == "Rabbit Hole"@,
{
    reveal_strlit("watch_later");
    reveal_strlit("rabbit_hole");
    assert("watch_later"@[0] != "rabbit_hole"@[0]);
}

/// The heading says how many tabs there are and ends in the reason as the user reads it.
pub proof fn law_the_heading_of_a_recap(
    recap: RecapPayload,
    summary: &str,
    first: Dialog,
    second: Dialog,
)
    requires
        call_ensures(RecapPayload::recap_dialog, (&recap,), first),
        call_ensures(RecapPayload::summary_dialog, (&recap, summary), second),
    ensures
        ({
            let count = decimal(recap.tab_count as nat);
            let shown = if recap.reason@ == "watch_later"@ {
                "Watch Later"@
            } else {
                "Rabbit Hole"@
            };
            &&& first.heading@.len() >= count.len() + shown.len()
            &&& first.heading@.take(count.len() as int) == count
            &&& first.heading@.skip(first.heading@.len() - shown.len()) == shown
            &&& second.heading@.len() >= count.len() + shown.len()
            &&& second.heading@.take(count.len() as int) == count
            &&& second.heading@.skip(second.heading@.len() - shown.len()) == shown
        }),
{
    let count = decimal(recap.tab_count as nat);
    let shown = badge(recap.reason@);
    assert(first.heading@.take(count.len() as int) =~= count);
    assert(first.heading@.skip(first.heading@.len() - shown.len()) =~= shown);
    assert(second.heading@.take(count.len() as int) =~= count);
    assert(second.heading@.skip(second.heading@.len() - shown.len()) =~= shown);
}

/// A list with bullets has one line for each tab, in order: a bullet, and the title or,
/// where that is empty, the address.
pub proof fn law_a_bullet_for_each_tab(a: Seq<RecapEntry>, b: Seq<RecapEntry>, e: RecapEntry)
    ensures
        bullets(a + b) == bullets(a) + bullets(b),
        bullets(Seq::empty()) == Seq::<char>::empty(),
        e.title@.len() > 0 ==> bullets(seq![e]) == "• "@ + e.title@ + "\n"@,
        e.title@.len() == 0 ==> bullets(seq![e]) == "• "@ + e.url@ + "\n"@,
    decreases b.len(),
{
    let none = Seq::<RecapEntry>::empty();
    assert(seq![e].drop_last() =~= none);
    assert(bullets(none) =~= Seq::empty());
    assert(bullets(seq![e]) =~= "• "@ + e.label() + "\n"@);
    if b.len() == 0 {
        assert(a + b =~= a);
        assert(bullets(a) + bullets(b) =~= bullets(a));
    } else {
        law_a_bullet_for_each_tab(a, b.drop_last(), e);
        assert((a + b).drop_last() =~= a + b.drop_last());
        assert(bullets(a + b) =~= bullets(a) + bullets(b));
    }
}

/// Both dialogs list the tabs with bullets; that of a summary has the summary before
/// them. Only white space at the end is left away.
pub proof fn law_the_dialogs_list_the_tabs(
    recap: RecapPayload,
    summary: &str,
    first: Dialog,
    second: Dialog,
)
    requires
        call_ensures(RecapPayload::recap_dialog, (&recap,), first),
        call_ensures(RecapPayload::summary_dialog, (&recap, summary), second),
    ensures
        first.content@ == trimmed_end(bullets(recap.entries@)),
        second.content@ == trimmed_end(summary@ + "\n\n"@ + bullets(recap.entries@)),
        first.title@ == "Resurfacer"@,
        second.title@ == "Resurfacer — AI підсумок"@,
{
}

/// The tabs are noted one line each, in order: the title and the address.
pub proof fn law_a_line_noted_for_each_tab(a: Seq<RecapEntry>, b: Seq<RecapEntry>, e: RecapEntry)
    ensures
        notes(a + b) == notes(a) + notes(b),
        notes(Seq::empty()) == Seq::<char>::empty(),
        notes(seq![e]) == "  "@ + e.title@ + " — "@ + e.url@ + "\n"@,
    decreases b.len(),
{
    let none = Seq::<RecapEntry>::empty();
    assert(seq![e].drop_last() =~= none);
    assert(notes(none) =~= Seq::empty());
    assert(notes(seq![e]) =~= "  "@ + e.title@ + " — "@ + e.url@ + "\n"@);
    if b.len() == 0 {
        assert(a + b =~= a);
        assert(notes(a) + notes(b) =~= notes(a));
    } else {
        law_a_line_noted_for_each_tab(a, b.drop_last(), e);
        assert((a + b).drop_last() =~= a + b.drop_last());
        assert(notes(a + b) =~= notes(a) + notes(b));
    }
}

/// A note starts with the time in brackets on a line of its own, followed by the number of
/// tabs and the reason. Then comes the summary, if there is one, and at the end the lines of
/// all tabs.
pub proof fn law_what_is_noted(recap: RecapPayload, time: &str, ai: Option<&str>, note: String)
    requires
        call_ensures(RecapPayload::note_at, (&recap, time, ai), note),
    ensures
        ({
            let tail = notes(recap.entries@);
            let head = "\n["@ + time@ + "] "@;
            &&& note@.len() >= head.len() + tail.len()
            &&& note@.take(head.len() as int) == head
            &&& note@.skip(note@.len() - tail.len()) == tail
            &&& holds(note@, decimal(recap.tab_count as nat))
            &&& holds(note@, recap.reason@)
            &&& ai matches Some(s) ==> holds(note@, "AI підсумок: "@ + s@ + "\n"@)
            &&& ai matches Some(s) ==> note@ == head + decimal(recap.tab_count as nat)
                + " вкладок — "@ + recap.reason@ + "\n"@ + ("AI підсумок: "@ + s@ + "\n"@) + tail
            &&& ai is None ==> note@ == head + decimal(recap.tab_count as nat) + " вкладок — "@
                + recap.reason@ + "\n"@ + tail
        }),
{
    let tail = notes(recap.entries@);
    let head = "\n["@ + time@ + "] "@;
    let count = decimal(recap.tab_count as nat);
    let said = match ai {
        Some(s) => "AI підсумок: "@ + s@ + "\n"@,
        None => Seq::empty(),
    };
    let label = " вкладок — "@;
    if ai is None {
        assert(note@ =~= head + count + label + recap.reason@ + "\n"@ + tail);
    }
    assert(note@ =~= (head + count) + (label + recap.reason@ + "\n"@ + said + tail));
    assert(note@ =~= (head + count + label + recap.reason@) + ("\n"@ + said + tail));
    assert(note@ =~= (head + count + label + recap.reason@ + "\n"@ + said) + tail);
    assert(note@.take(head.len() as int) =~= head);
    assert(note@.skip(note@.len() - tail.len()) =~= tail);
    assert(note@ =~= ((head + count) + label + recap.reason@ + "\n"@ + said) + tail);
    assert(holds((head + count) + (label + recap.reason@ + "\n"@ + said + tail), count));
    assert(holds(
        (head + count + label + recap.reason@) + ("\n"@ + said + tail),
        recap.reason@,
    ));
    assert(holds((head + count + label + recap.reason@ + "\n"@ + said) + tail, said));
}

/// The model is asked at the configured server and with the configured name, and the
/// question lists the tabs in order, one line each: its title, or a word that it has none,
/// and its host.
pub proof fn law_the_model_is_asked_about_every_tab(
    recap: RecapPayload,
    request: AiRequest,
    i: int,
)
    requires
        call_ensures(RecapPayload::ai_request, (&recap,), request),
        0 <= i < recap.entries@.len(),
    ensures
        request.url@ == generate_address(recap.ollama_url@),
        request.model == recap.ollama_model,
        ({
            let e = recap.entries@[i];
            let title = if e.title@.len() == 0 {
                "без назви"@
            } else {
                e.title@
            };
            holds(request.prompt@, "- "@ + title + " ("@ + host(e.url@) + ")"@)
        }),
        exists|lines: Seq<Seq<char>>|
            request.prompt@ == PROMPT_HEAD@ + #[trigger] joined(lines, "\n"@) + PROMPT_TAIL@
                && lines.len() == recap.entries@.len() && forall|k: int|
                0 <= k < lines.len() ==> #[trigger] lines[k] == "- "@ + (
                if recap.entries@[k].title@.len() == 0 {
                    "без назви"@
                } else {
                    recap.entries@[k].title@
                }) + " ("@ + host(recap.entries@[k].url@) + ")"@,
{
    let items = recap.entries@.map_values(|e: RecapEntry| e.item());
    assert(items[i] == recap.entries@[i].item());
    lemma_holds_part(items, "\n"@, i);
    lemma_holds_through(recap.list(), items[i]);
    assert(request.prompt@ == PROMPT_HEAD@ + joined(items, "\n"@) + PROMPT_TAIL@);
}

/// What the user reads of a reply: what the model wrote, or that it wrote nothing, that it
/// could not be asked, and why.
pub proof fn law_what_the_user_reads_of_a_reply(
    body: Vec<u8>,
    error: String,
    replied: String,
    unreachable: String,
    alone: String,
)
    requires
        call_ensures(ai_summary, (&AiReply::Body(body),), replied),
        call_ensures(ai_summary, (&AiReply::Unreachable(error),), unreachable),
        call_ensures(ai_summary, (&AiReply::NoClient,), alone),
    ensures
        written(json_text(body@, "response"@)) matches Some(text) ==> replied@ == text,
        written(json_text(body@, "response"@)) is None ==> replied@
            == "Ollama не повернув результат."@,
        unreachable@ == "Ollama недоступний: "@ + error@,
        alone@ == "Не вдалося підключитися до Ollama."@,
{
}

/// A wide string is the text in UTF-16, and a zero after it.
pub proof fn law_a_wide_string_ends_in_zero(s: &str, r: Vec<u16>)
    requires
        call_ensures(wstr, (s,), r),
    ensures
        r@.len() == utf16(s@).len() + 1,
        r@.take(r@.len() - 1) == utf16(s@),
        r@[r@.len() - 1] == 0,
{
    assert(r@.take(r@.len() - 1) =~= utf16(s@));
}

/// What comes waits behind what came before it. The message about recaps empties the list
/// of recaps only, that about summaries the list of summaries only, and any other message,
/// or none, empties nothing.
pub proof fn law_what_waits_to_be_shown(
    waiting: BacklogView,
    recap: RecapPayload,
    summary: String,
    message: u32,
)
    ensures
        waiting.after(BacklogEvent::Recap(recap)).recaps == waiting.recaps.push(recap),
        waiting.after(BacklogEvent::Recap(recap)).summaries == waiting.summaries,
        waiting.after(BacklogEvent::Summary(recap, summary)).summaries == waiting.summaries.push(
            (recap, summary),
        ),
        waiting.after(BacklogEvent::Summary(recap, summary)).recaps == waiting.recaps,
        ({
            let later = waiting.after(BacklogEvent::Message(Some(message)));
            &&& message == 0x8001 ==> later.recaps.len() == 0
            &&& message != 0x8001 ==> later.recaps == waiting.recaps
            &&& message == 0x8002 ==> later.summaries.len() == 0
            &&& message != 0x8002 ==> later.summaries == waiting.summaries
        }),
        waiting.after(BacklogEvent::Message(None)) == waiting,
{
}

}
