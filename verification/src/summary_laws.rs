//! What holds of summaries: of the question to the model, of its answer, and of what has
//! to do where there is none.

use vstd::prelude::*;
use crate::config::LlmConfig;
use crate::summarizer::{
    build_summarizer, generate_address, host, item, json_text,
    law_tags_address_has_the_same_base, prompt, short_host, summary_or_titles,
    written, written_text, Choice, OllamaSummarizer, TabCluster, TabEntry, PROMPT_HEAD,
    PROMPT_TAIL,
};
use crate::text::{
    decimal, is_white_space, joined, occurs_in, part_before, trimmed, without_prefixes,
    without_trailing,
};
use crate::text_laws::{
    law_parts_are_joined, law_prefixes_are_stripped, law_the_part_before_ends_at_the_first_one,
    law_trailing_characters_are_stripped, law_white_space_around_is_stripped, starts_with,
};

verus! {

/// The text is made of something, the part, and something.
pub open spec fn holds(s: Seq<char>, part: Seq<char>) -> bool {
    exists|a: Seq<char>, b: Seq<char>| s == #[trigger] ((a + part) + b)
}

/// Joined parts hold each of the parts.
pub(crate) proof fn lemma_holds_part(parts: Seq<Seq<char>>, sep: Seq<char>, i: int)
    requires
        0 <= i < parts.len(),
    ensures
        holds(joined(parts, sep), parts[i]),
{
    let none = Seq::<char>::empty();
    let part = parts[i];
    let (left, right) = (parts.take(i), parts.skip(i + 1));
    let whole = joined(parts, sep);
    law_parts_are_joined(part, left, seq![part] + right, sep);
    law_parts_are_joined(part, seq![part], right, sep);
    assert(left + (seq![part] + right) =~= parts);
    let before = if i > 0 {
        joined(left, sep) + sep
    } else {
        none
    };
    let after = if right.len() > 0 {
        sep + joined(right, sep)
    } else {
        none
    };
    if right.len() == 0 {
        assert(seq![part] + right =~= seq![part]);
    }
    if i == 0 {
        assert(seq![part] + right =~= parts);
    }
    assert(whole =~= (before + part) + after);
}

/// A question holds what its list holds.
pub(crate) proof fn lemma_holds_through(list: Seq<char>, part: Seq<char>)
    requires
        holds(list, part),
    ensures
        holds(prompt(list), part),
{
    let (a, b) = choose|a: Seq<char>, b: Seq<char>| list == #[trigger] ((a + part) + b);
    assert(prompt(list) =~= ((PROMPT_HEAD@ + a) + part) + (b + PROMPT_TAIL@));
}

/// The host of an address is what stands between its scheme and the first slash after it.
pub proof fn law_the_host_of_an_address(name: Seq<char>, rest: Seq<char>)
    requires
        forall|i: int| 0 <= i < name.len() ==> #[trigger] name[i] != '/',
        rest.len() > 0 ==> rest[0] == '/',
        !starts_with(name + rest, "https://"@),
        !starts_with(name + rest, "http://"@),
    ensures
        host("https://"@ + (name + rest)) == name,
        host("http://"@ + (name + rest)) == name,
        host(name + rest) == name,
{
    reveal_strlit("https://");
    reveal_strlit("http://");
    let s = name + rest;
    let (long, short) = ("https://"@, "http://"@);
    law_prefixes_are_stripped(s, long);
    law_prefixes_are_stripped(s, short);
    assert(!starts_with(short + s, long)) by {
        if starts_with(short + s, long) {
            assert((short + s).take(8)[4] == long[4]);
        }
    }
    law_prefixes_are_stripped(short + s, long);
    assert(without_prefixes(without_prefixes(s, long), short) == s);
    law_the_part_before_ends_at_the_first_one(s, '/');
    let r = part_before(s, '/');
    if r.len() < name.len() {
        assert(s[r.len() as int] == name[r.len() as int]);
    }
    if r.len() > name.len() {
        assert(s[name.len() as int] == rest[0]);
        assert(r[name.len() as int] == s[name.len() as int]);
    }
    assert(r =~= name);
}

/// The executable host is that of the law.
pub proof fn law_the_short_host(name: Seq<char>, rest: Seq<char>, url: &str, r: String)
    requires
        forall|i: int| 0 <= i < name.len() ==> #[trigger] name[i] != '/',
        rest.len() > 0 ==> rest[0] == '/',
        !starts_with(name + rest, "https://"@),
        !starts_with(name + rest, "http://"@),
        url@ == "https://"@ + (name + rest),
        call_ensures(short_host, (url,), r),
    ensures
        r@ == name,
{
    law_the_host_of_an_address(name, rest);
}

/// The question about a cluster lists the tabs in order, one line each: its title, or a
/// word that it has none, and its host.
pub proof fn law_the_question_holds_every_tab(
    s: OllamaSummarizer,
    cluster: TabCluster,
    question: String,
    i: int,
)
    requires
        call_ensures(OllamaSummarizer::build_prompt, (&s, &cluster), question),
        0 <= i < cluster.tabs@.len(),
    ensures
        ({
            let tab = cluster.tabs@[i];
            let title = match tab.title {
                Some(title) => title@,
                None => "untitled"@,
            };
            holds(question@, "- "@ + title + " ("@ + host(tab.url@) + ")"@)
        }),
        exists|lines: Seq<Seq<char>>|
            question@ == PROMPT_HEAD@ + #[trigger] joined(lines, "\n"@) + PROMPT_TAIL@
                && lines.len() == cluster.tabs@.len() && forall|k: int|
                0 <= k < lines.len() ==> #[trigger] lines[k] == "- "@ + (
                match cluster.tabs@[k].title {
                    Some(title) => title@,
                    None => "untitled"@,
                }) + " ("@ + host(cluster.tabs@[k].url@) + ")"@,
{
    let items = cluster.tabs@.map_values(|t: TabEntry| t.item());
    assert(items[i] == cluster.tabs@[i].item());
    lemma_holds_part(items, "\n"@, i);
    lemma_holds_through(cluster.list(), items[i]);
    assert(question@ == PROMPT_HEAD@ + joined(items, "\n"@) + PROMPT_TAIL@);
}

/// Without a model the summary says how many tabs there are, one or several, and then
/// gives in order the title of each, or its address where it has none.
pub proof fn law_what_the_titles_say(cluster: TabCluster, i: int)
    requires
        0 <= i < cluster.tabs@.len(),
    ensures
        ({
            let tab = cluster.tabs@[i];
            let n = cluster.tabs@.len();
            let head = if n == 1 {
                decimal(n) + " tab - "@
            } else {
                decimal(n) + " tabs - "@
            };
            let r = cluster.naive_summary();
            &&& r.len() >= head.len()
            &&& r.take(head.len() as int) == head
            &&& tab.title is Some ==> holds(r, tab.title->0@)
            &&& tab.title is None ==> holds(r, tab.url@)
            &&& exists|names: Seq<Seq<char>>|
                r == head + #[trigger] joined(names, ", "@) && names.len() == n && forall|k: int|
                    0 <= k < names.len() ==> #[trigger] names[k] == match cluster.tabs@[k].title {
                        Some(title) => title@,
                        None => cluster.tabs@[k].url@,
                    }
        }),
{
    reveal_strlit(" tab");
    reveal_strlit("s");
    reveal_strlit("");
    reveal_strlit(" - ");
    reveal_strlit(" tab - ");
    reveal_strlit(" tabs - ");
    let n = cluster.tabs@.len();
    let names = cluster.tabs@.map_values(|t: TabEntry| t.label());
    let list = joined(names, ", "@);
    let head = if n == 1 {
        decimal(n) + " tab - "@
    } else {
        decimal(n) + " tabs - "@
    };
    let r = cluster.naive_summary();
    assert(r =~= head + list);
    assert(r.take(head.len() as int) =~= head);
    let name = cluster.tabs@[i].label();
    assert(names[i] == name);
    lemma_holds_part(names, ", "@, i);
    let (a, b) = choose|a: Seq<char>, b: Seq<char>| list == #[trigger] ((a + name) + b);
    assert(r =~= ((head + a) + name) + b);
    assert(holds(r, name));
}

/// What a model wrote counts if anything in it is not white space, and is then taken
/// without the white space around it: it starts and ends in something else.
pub proof fn law_what_a_model_wrote(text: String, r: Option<String>)
    requires
        call_ensures(written_text, (Some(text),), r),
    ensures
        r is None <==> forall|i: int| 0 <= i < text@.len() ==> is_white_space(#[trigger] text@[i]),
        r matches Some(w) ==> {
            &&& w@.len() > 0
            &&& !is_white_space(w@[0])
            &&& !is_white_space(w@[w@.len() - 1])
            &&& exists|a: int, b: int|
                0 <= a <= b <= text@.len() && w@ == #[trigger] text@.subrange(a, b) && (forall|i:
                    int|
                    0 <= i < a || b <= i < text@.len() ==> is_white_space(#[trigger] text@[i]))
        },
{
    law_white_space_around_is_stripped(text@);
    assert(trimmed(text@).len() == 0 <==> written(Some(text@)) is None);
}

/// Where the model wrote something, that is the summary; else the titles have to do.
pub proof fn law_the_model_goes_before_the_titles(
    cluster: TabCluster,
    text: String,
    with: String,
    without: String,
)
    requires
        call_ensures(summary_or_titles, (&cluster, Some(text)), with),
        call_ensures(summary_or_titles, (&cluster, None::<String>), without),
    ensures
        with@ == text@,
        without@ == cluster.naive_summary(),
{
}

/// Slashes at the end of the configured address make no difference; the path of the
/// server follows the rest of it.
pub proof fn law_where_the_server_is_asked(base: Seq<char>)
    ensures
        generate_address(base.push('/')) == generate_address(base),
        (base.len() == 0 || base[base.len() - 1] != '/') ==> generate_address(base) == base
            + "/api/generate"@,
{
    assert(base.push('/').drop_last() =~= base);
    law_trailing_characters_are_stripped(base, '/');
    let r = without_trailing(base, '/');
    if base.len() == 0 || base[base.len() - 1] != '/' {
        if r.len() < base.len() {
            assert(base[base.len() - 1] == '/');
        }
        assert(r =~= base);
    }
}

/// A server that can be reached is asked, at its address and with the configured model.
/// One that cannot is not.
pub proof fn law_which_summarizer_is_used(config: LlmConfig, reached: Choice, missed: Choice)
    requires
        call_ensures(build_summarizer, (&config, true), reached),
        call_ensures(build_summarizer, (&config, false), missed),
    ensures
        reached matches Choice::Ollama(s) && s.generate_url@ == generate_address(config.ollama_url@)
            && s.model == config.ollama_model,
        missed is Naive,
{
}

/// By default the model is asked at this machine.
pub proof fn law_the_server_by_default(config: LlmConfig)
    requires
        config.is_default(),
    ensures
        generate_address(config.ollama_url@) == "http://localhost:11434/api/generate"@,
        config.ollama_model@ == "qwen2.5:7b-instruct"@,
        config.max_tabs_per_summary_batch == 30,
        config.excerpt_word_limit == 300,
{
    reveal_strlit("http://localhost:11434");
    reveal_strlit("/api/generate");
    reveal_strlit("http://localhost:11434/api/generate");
    law_where_the_server_is_asked(config.ollama_url@);
    assert(config.ollama_url@ + "/api/generate"@ =~= "http://localhost:11434/api/generate"@);
}

/// A line of the list holds the title and the host, in this order and form.
pub proof fn law_a_line_of_the_list(title: Seq<char>, url: Seq<char>)
    ensures
        item(title, url).len() == title.len() + host(url).len() + 5,
        item(title, url).subrange(2, 2 + title.len() as int) == title,
        item(title, url).subrange(
            4 + title.len() as int,
            4 + title.len() as int + host(url).len() as int,
        ) == host(url),
        item(title, url).take(2) == "- "@,
        item(title, url)[item(title, url).len() - 1] == ')',
{
    reveal_strlit("- ");
    reveal_strlit(" (");
    reveal_strlit(")");
    let r = item(title, url);
    assert(r.subrange(2, 2 + title.len() as int) =~= title);
    assert(r.subrange(4 + title.len() as int, 4 + title.len() as int + host(url).len() as int)
        =~= host(url));
    assert(r.take(2) =~= "- "@);
}

/// Whether the server can be reached is asked at the same server as everything else.
pub proof fn law_where_the_server_is_looked_for(
    config: LlmConfig,
    s: OllamaSummarizer,
    tags: String,
)
    requires
        call_ensures(OllamaSummarizer::new, (&config,), s),
        call_ensures(OllamaSummarizer::tags_url, (&s,), tags),
        !occurs_in(config.ollama_url@, "/api/generate"@),
        config.ollama_url@.len() > 0,
        config.ollama_url@[config.ollama_url@.len() - 1] != '/',
    ensures
        tags@ == config.ollama_url@ + "/api/tags"@,
        s.generate_url@ == config.ollama_url@ + "/api/generate"@,
        s.model == config.ollama_model,
{
    law_where_the_server_is_asked(config.ollama_url@);
    law_tags_address_has_the_same_base(config.ollama_url@);
}

/// The summary of a cluster is what the model wrote in its reply. Where it wrote nothing,
/// or did not reply, it is what the titles say.
pub proof fn law_the_summary_of_a_cluster(
    s: OllamaSummarizer,
    cluster: TabCluster,
    body: Vec<u8>,
    replied: String,
    silent: String,
)
    requires
        call_ensures(OllamaSummarizer::summary, (&s, &cluster, Some(body)), replied),
        call_ensures(OllamaSummarizer::summary, (&s, &cluster, None::<Vec<u8>>), silent),
    ensures
        silent@ == cluster.naive_summary(),
        json_text(body@, "response"@) is None ==> replied@ == cluster.naive_summary(),
        json_text(body@, "response"@) matches Some(text) ==> {
            &&& (forall|i: int| 0 <= i < text.len() ==> is_white_space(#[trigger] text[i]))
                ==> replied@ == cluster.naive_summary()
            &&& !(forall|i: int| 0 <= i < text.len() ==> is_white_space(#[trigger] text[i]))
                ==> replied@ == trimmed(text)
        },
{
    if let Some(text) = json_text(body@, "response"@) {
        law_white_space_around_is_stripped(text);
    }
}

}
