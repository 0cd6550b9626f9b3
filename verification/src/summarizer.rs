//! One sentence about a cluster of tabs, from a language model where one can be
//! reached, and from the titles where none can.

use vstd::prelude::*;
use vstd::string::*;
use crate::config::LlmConfig;
use crate::text::{
    before, decimal, decimal_text, join, joined, occurs_at, occurs_in, part_before, replace,
    replaced, trim, trim_end_matches, trim_start_matches, trimmed, views, without_prefixes,
    without_trailing,
};

verus! {

/// What the model is told before the list of tabs.
pub const PROMPT_HEAD: &'static str = "<|im_start|>system\n\
    Ти підсумовуєш сесії браузерних вкладок одним реченням. Будь стислим і конкретним. Відповідай лише українською мовою.<|im_end|>\n\
    <|im_start|>user\n\
    Користувач мав відкриті ці вкладки браузера, але так і не переглянув їх:\n";

/// What the model is told after the list of tabs.
pub const PROMPT_TAIL: &'static str = "\n\
    Напиши рівно одне речення українською мовою, яке підсумовує, що він досліджував.<|im_end|>\n\
    <|im_start|>assistant\n";

/// The prompt for a list of tabs.
pub open spec fn prompt(list: Seq<char>) -> Seq<char> {
    PROMPT_HEAD@ + list + PROMPT_TAIL@
}

/// The prompt for a list of tabs.
pub fn prompt_for(list: &str) -> (r: String)
    ensures
        r@ == prompt(list@),
{
    let mut r = PROMPT_HEAD.to_string();
    r.append(list);
    r.append(PROMPT_TAIL);
    r
}

/// Tabs that belong together, and why they were put away.
#[derive(Debug)]
pub struct TabCluster {
    pub tabs: Vec<TabEntry>,
    pub reason: String,
}

/// A tab of a cluster.
#[derive(Debug)]
pub struct TabEntry {
    pub url: String,
    pub title: Option<String>,
    pub extracted_text: Option<String>,
}

/// Writes one sentence about a cluster.
pub trait Summarizer: Send {
    /// One sentence about the cluster.
    fn summarize(&mut self, cluster: &TabCluster) -> String;
}

/// The host of an address: what stands between the scheme and the first slash.
pub open spec fn host(url: Seq<char>) -> Seq<char> {
    part_before(without_prefixes(without_prefixes(url, "https://"@), "http://"@), '/')
}

/// The host of an address.
pub fn short_host(url: &str) -> (r: String)
    ensures
        r@ == host(url@),
{
    let rest = trim_start_matches(url, "https://");
    let rest = trim_start_matches(rest.as_str(), "http://");
    before(rest.as_str(), '/')
}

/// A line of the list of tabs.
pub open spec fn item(title: Seq<char>, url: Seq<char>) -> Seq<char> {
    "- "@ + title + " ("@ + host(url) + ")"@
}

/// A line of the list of tabs.
pub fn list_item(title: &str, url: &str) -> (r: String)
    ensures
        r@ == item(title@, url@),
{
    let mut r = "- ".to_string();
    r.append(title);
    r.append(" (");
    r.append(short_host(url).as_str());
    r.append(")");
    r
}

impl TabEntry {
    /// What the tab is called: its title, or its address.
    pub open spec fn label(self) -> Seq<char> {
        match self.title {
            Some(title) => title@,
            None => self.url@,
        }
    }

    /// The tab's line in the prompt.
    pub open spec fn item(self) -> Seq<char> {
        item(
            match self.title {
                Some(title) => title@,
                None => "untitled"@,
            },
            self.url@,
        )
    }
}

impl TabCluster {
    /// The cluster in a few words: how many tabs, and what they are called.
    pub open spec fn naive_summary(self) -> Seq<char> {
        let n = self.tabs@.len();
        decimal(n) + " tab"@ + (if n == 1 {
            ""@
        } else {
            "s"@
        }) + " - "@ + joined(self.tabs@.map_values(|t: TabEntry| t.label()), ", "@)
    }

    /// The tabs, one line each.
    pub open spec fn list(self) -> Seq<char> {
        joined(self.tabs@.map_values(|t: TabEntry| t.item()), "\n"@)
    }
}

/// Needs no server.
#[derive(Debug, Clone, Copy)]
pub struct NaiveSummarizer;

impl Summarizer for NaiveSummarizer {
    /// The number of tabs, and what they are called.
    fn summarize(&mut self, cluster: &TabCluster) -> (r: String)
        ensures
            r@ == cluster.naive_summary(),
    {
        naive_summary(cluster)
    }
}

/// The number of tabs of a cluster, and what they are called.
fn naive_summary(cluster: &TabCluster) -> (r: String)
    ensures
        r@ == cluster.naive_summary(),
{
    let tabs = &cluster.tabs;
    let mut titles: Vec<String> = Vec::new();
    let mut i: usize = 0;
    while i < tabs.len()
        invariant
            i <= tabs@.len(),
            views(titles@) == tabs@.take(i as int).map_values(|t: TabEntry| t.label()),
        decreases tabs@.len() - i,
    {
        let label = match &tabs[i].title {
            Some(title) => title.clone(),
            None => tabs[i].url.clone(),
        };
        let ghost done = titles@;
        titles.push(label);
        assert(views(titles@) =~= views(done).push(label@));
        assert(tabs@.take(i + 1).map_values(|t: TabEntry| t.label()) =~= tabs@.take(
            i as int,
        ).map_values(|t: TabEntry| t.label()).push(label@));
        i += 1;
    }
    assert(tabs@.take(i as int) =~= tabs@);
    let mut r = decimal_text(tabs.len() as u64);
    r.append(" tab");
    r.append(
        if tabs.len() == 1 {
            ""
        } else {
            "s"
        },
    );
    r.append(" - ");
    r.append(join(&titles, ", ").as_str());
    r
}

/// The text that stands in a JSON object under a key, where the bytes are such an
/// object: read by serde_json.
pub uninterp spec fn json_text(body: Seq<u8>, key: Seq<char>) -> Option<Seq<char>>;

/// `serde_json::from_slice` to a `serde_json::Value`, indexed by the key, and its
/// `as_str`. What it gives depends on the bytes and the key alone.
#[verifier::external_body]
fn serde_json_text(body: &Vec<u8>, key: &str) -> (r: Option<String>)
    ensures
        match json_text(body@, key@) {
            Some(text) => r matches Some(s) && s@ == text,
            None => r is None,
        },
{
    match serde_json::from_slice::<serde_json::Value>(body) {
        Ok(value) => value[key].as_str().map(|s| s.to_string()),
        Err(_) => None,
    }
}

/// What a model wrote, without the white space around it; `None` where that leaves
/// nothing, or it wrote nothing.
pub open spec fn written(text: Option<Seq<char>>) -> Option<Seq<char>> {
    match text {
        Some(t) => if trimmed(t).len() > 0 {
            Some(trimmed(t))
        } else {
            None
        },
        None => None,
    }
}

/// What the model wrote, without the white space around it, if that leaves
/// anything.
pub fn written_text(text: Option<String>) -> (r: Option<String>)
    ensures
        match text {
            Some(t) => match written(Some(t@)) {
                Some(w) => r matches Some(s) && s@ == w,
                None => r is None,
            },
            None => r is None,
        },
{
    match text {
        Some(t) => {
            let w = trim(t.as_str());
            if w.as_str().is_empty() {
                None
            } else {
                Some(w)
            }
        },
        None => None,
    }
}

/// What the model wrote in the body of a reply of the server.
pub fn response_text(body: &Vec<u8>) -> (r: Option<String>)
    ensures
        match written(json_text(body@, "response"@)) {
            Some(w) => r matches Some(s) && s@ == w,
            None => r is None,
        },
{
    written_text(serde_json_text(body, "response"))
}

/// Where the server takes requests, from the configured address.
pub open spec fn generate_address(base: Seq<char>) -> Seq<char> {
    without_trailing(base, '/') + "/api/generate"@
}

/// Where the server takes requests.
pub fn generate_url_for(base: &str) -> (r: String)
    ensures
        r@ == generate_address(base@),
{
    let mut r = trim_end_matches(base, '/');
    r.append("/api/generate");
    r
}

/// Asks an Ollama server.
#[derive(Debug)]
pub struct OllamaSummarizer {
    pub generate_url: String,
    pub model: String,
}

impl OllamaSummarizer {
    /// A summarizer for the configured server and model.
    pub fn new(config: &LlmConfig) -> (r: Self)
        ensures
            r.generate_url@ == generate_address(config.ollama_url@),
            r.model == config.ollama_model,
    {
        OllamaSummarizer {
            generate_url: generate_url_for(config.ollama_url.as_str()),
            model: config.ollama_model.clone(),
        }
    }

    /// The address that tells whether the server can be reached.
    pub fn tags_url(&self) -> (r: String)
        ensures
            r@ == replaced(self.generate_url@, "/api/generate"@, "/api/tags"@),
    {
        proof {
            reveal_strlit("/api/generate");
        }
        replace(self.generate_url.as_str(), "/api/generate", "/api/tags")
    }

    /// What the model is asked about a cluster.
    pub fn build_prompt(&self, cluster: &TabCluster) -> (r: String)
        ensures
            r@ == prompt(cluster.list()),
    {
        let tabs = &cluster.tabs;
        let mut items: Vec<String> = Vec::new();
        let mut i: usize = 0;
        while i < tabs.len()
            invariant
                i <= tabs@.len(),
                views(items@) == tabs@.take(i as int).map_values(|t: TabEntry| t.item()),
            decreases tabs@.len() - i,
        {
            let line = match &tabs[i].title {
                Some(title) => list_item(title.as_str(), tabs[i].url.as_str()),
                None => list_item("untitled", tabs[i].url.as_str()),
            };
            let ghost done = items@;
            items.push(line);
            assert(views(items@) =~= views(done).push(line@));
            assert(tabs@.take(i + 1).map_values(|t: TabEntry| t.item()) =~= tabs@.take(
                i as int,
            ).map_values(|t: TabEntry| t.item()).push(line@));
            i += 1;
        }
        assert(tabs@.take(i as int) =~= tabs@);
        prompt_for(join(&items, "\n").as_str())
    }

    /// The summary of a cluster, from the body of the server's reply; `None` where
    /// the request failed. Where the model wrote nothing, the titles have to do.
    pub fn summary(&self, cluster: &TabCluster, reply: Option<Vec<u8>>) -> (r: String)
        ensures
            r@ == (match reply {
                Some(body) => match written(json_text(body@, "response"@)) {
                    Some(text) => text,
                    None => cluster.naive_summary(),
                },
                None => cluster.naive_summary(),
            }),
    {
        let text = match reply {
            Some(body) => response_text(&body),
            None => None,
        };
        summary_or_titles(cluster, text)
    }
}

/// What the model wrote about a cluster; where it wrote nothing, the number of tabs
/// and what they are called.
pub fn summary_or_titles(cluster: &TabCluster, text: Option<String>) -> (r: String)
    ensures
        r@ == (match text {
            Some(t) => t@,
            None => cluster.naive_summary(),
        }),
{
    match text {
        Some(t) => t,
        None => naive_summary(cluster),
    }
}

/// The summarizer to use.
#[derive(Debug)]
pub enum Choice {
    Ollama(OllamaSummarizer),
    Naive(NaiveSummarizer),
}

/// The summarizer to use: the server if it can be reached, else the one that needs
/// none.
pub fn build_summarizer(config: &LlmConfig, available: bool) -> (r: Choice)
    ensures
        available ==> (r matches Choice::Ollama(s) && s.generate_url@ == generate_address(
            config.ollama_url@,
        ) && s.model == config.ollama_model),
        !available ==> r is Naive,
{
    if available {
        Choice::Ollama(OllamaSummarizer::new(config))
    } else {
        Choice::Naive(NaiveSummarizer)
    }
}

/// Whether the server can be reached is asked at the same server: its tags address
/// has the same base as its generate address, unless the base itself holds the path
/// of the generate address.
pub proof fn law_tags_address_has_the_same_base(base: Seq<char>)
    requires
        !occurs_in(base, "/api/generate"@),
    ensures
        replaced(base + "/api/generate"@, "/api/generate"@, "/api/tags"@) == base + "/api/tags"@,
    decreases base.len(),
{
    let path = "/api/generate"@;
    let to = "/api/tags"@;
    let url = base + path;
    reveal_strlit("/api/generate");
    if base.len() == 0 {
        assert(url =~= path);
        assert(url.subrange(0, path.len() as int) =~= path);
        assert(occurs_at(url, path, 0));
        assert(url.skip(path.len() as int) =~= Seq::empty());
        assert(to + replaced(Seq::empty(), path, to) =~= to);
        assert(base + to =~= to);
    } else {
        let rest = base.skip(1);
        assert(!occurs_in(rest, path)) by {
            if occurs_in(rest, path) {
                let i = choose|i: int| occurs_at(rest, path, i);
                assert(rest.subrange(i, i + path.len()) =~= base.subrange(
                    i + 1,
                    i + 1 + path.len(),
                ));
                assert(occurs_at(base, path, i + 1));
            }
        }
        assert(!occurs_at(url, path, 0)) by {
            if occurs_at(url, path, 0) {
                let front = url.subrange(0, path.len() as int);
                if base.len() >= path.len() {
                    assert(base.subrange(0, path.len() as int) =~= front);
                    assert(occurs_at(base, path, 0));
                } else {
                    let k = base.len() as int;
                    assert(front[k] == url[k] && url[k] == path[0]);
                    assert(front[k] == path[k]);
                    assert(k == 4);
                    assert(front[5] == url[5] && url[5] == path[1]);
                    assert(front[5] == path[5]);
                }
            }
        }
        law_tags_address_has_the_same_base(rest);
        assert(url.skip(1) =~= rest + path);
        assert(seq![base[0]] + (rest + to) =~= base + to);
    }
}

}
