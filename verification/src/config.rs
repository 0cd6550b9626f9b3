//! The daemon's settings and their defaults.

use vstd::prelude::*;
use crate::text::views;

verus! {

/// All settings.
#[derive(Debug, Clone)]
pub struct Config {
    pub watch_later: WatchLaterConfig,
    pub rabbit_hole: RabbitHoleConfig,
    pub idle_detection: IdleDetectionConfig,
    pub llm: LlmConfig,
}

/// When a video tab that was opened aside counts as put off.
#[derive(Debug, Clone)]
pub struct WatchLaterConfig {
    pub grace_period_seconds: u64,
    pub video_domains: Vec<String>,
}

/// When a cluster of tabs counts as abandoned.
#[derive(Debug, Clone)]
pub struct RabbitHoleConfig {
    pub cluster_window_minutes: u64,
    pub no_focus_threshold_minutes: u64,
    pub min_cluster_size: usize,
}

/// When the user counts as free.
#[derive(Debug, Clone)]
pub struct IdleDetectionConfig {
    pub presence_threshold_seconds: u64,
    pub debounce_seconds: u64,
    pub heavy_process_denylist: Vec<String>,
}

/// The language model that writes summaries, and the Ollama server that runs it.
#[derive(Debug, Clone)]
pub struct LlmConfig {
    pub model_path: String,
    pub max_tabs_per_summary_batch: usize,
    pub excerpt_word_limit: usize,
    pub ollama_url: String,
    pub ollama_model: String,
}

impl WatchLaterConfig {
    /// The settings are the default ones.
    pub open spec fn is_default(self) -> bool {
        &&& self.grace_period_seconds == 20
        &&& views(self.video_domains@) == seq!["youtube.com"@, "twitch.tv"@, "vimeo.com"@]
    }
}

impl RabbitHoleConfig {
    /// The settings are the default ones.
    pub open spec fn is_default(self) -> bool {
        &&& self.cluster_window_minutes == 10
        &&& self.no_focus_threshold_minutes == 15
        &&& self.min_cluster_size == 3
    }

    /// Both spans can be counted in seconds.
    pub open spec fn spans_fit(self) -> bool {
        &&& self.cluster_window_minutes * 60 <= u64::MAX
        &&& self.no_focus_threshold_minutes * 60 <= u64::MAX
    }
}

impl IdleDetectionConfig {
    /// The settings are the default ones.
    pub open spec fn is_default(self) -> bool {
        &&& self.presence_threshold_seconds == 120
        &&& self.debounce_seconds == 15
        &&& views(self.heavy_process_denylist@) == seq!["obs64.exe"@, "premiere.exe"@]
    }

    /// The presence threshold can be counted in milliseconds.
    pub open spec fn threshold_fits(self) -> bool {
        self.presence_threshold_seconds * 1000 <= u64::MAX
    }
}

impl LlmConfig {
    /// The settings are the default ones.
    pub open spec fn is_default(self) -> bool {
        &&& self.model_path@ == "./models/qwen2.5-7b-instruct-q4_k_m.gguf"@
        &&& self.max_tabs_per_summary_batch == 30
        &&& self.excerpt_word_limit == 300
        &&& self.ollama_url@ == "http://localhost:11434"@
        &&& self.ollama_model@ == "qwen2.5:7b-instruct"@
    }
}

impl Default for WatchLaterConfig {
    fn default() -> (r: Self)
        ensures
            r.is_default(),
    {
        let video_domains = vec![
            "youtube.com".to_string(),
            "twitch.tv".to_string(),
            "vimeo.com".to_string(),
        ];
        assert(views(video_domains@) =~= seq!["youtube.com"@, "twitch.tv"@, "vimeo.com"@]);
        WatchLaterConfig { grace_period_seconds: 20, video_domains }
    }
}

impl Default for RabbitHoleConfig {
    fn default() -> (r: Self)
        ensures
            r.is_default(),
    {
        RabbitHoleConfig {
            cluster_window_minutes: 10,
            no_focus_threshold_minutes: 15,
            min_cluster_size: 3,
        }
    }
}

impl Default for IdleDetectionConfig {
    fn default() -> (r: Self)
        ensures
            r.is_default(),
    {
        let heavy_process_denylist = vec!["obs64.exe".to_string(), "premiere.exe".to_string()];
        assert(views(heavy_process_denylist@) =~= seq!["obs64.exe"@, "premiere.exe"@]);
        IdleDetectionConfig {
            presence_threshold_seconds: 120,
            debounce_seconds: 15,
            heavy_process_denylist,
        }
    }
}

impl Default for LlmConfig {
    fn default() -> (r: Self)
        ensures
            r.is_default(),
    {
        LlmConfig {
            model_path: "./models/qwen2.5-7b-instruct-q4_k_m.gguf".to_string(),
            max_tabs_per_summary_batch: 30,
            excerpt_word_limit: 300,
            ollama_url: "http://localhost:11434".to_string(),
            ollama_model: "qwen2.5:7b-instruct".to_string(),
        }
    }
}

impl Default for Config {
    fn default() -> (r: Self)
        ensures
            r.watch_later.is_default(),
            r.rabbit_hole.is_default(),
            r.idle_detection.is_default(),
            r.llm.is_default(),
    {
        Config {
            watch_later: WatchLaterConfig::default(),
            rabbit_hole: RabbitHoleConfig::default(),
            idle_detection: IdleDetectionConfig::default(),
            llm: LlmConfig::default(),
        }
    }
}

}
