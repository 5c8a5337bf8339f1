//! Configuration value types.
//!
//! Plain data with exact defaults. Loading and saving these from the
//! configuration files is the embedding application's part; fractional
//! settings are carried in permille of the unit interval so that every
//! default is a plain integer.

use vstd::prelude::*;
use vstd::string::*;

verus! {

/// General application settings.
#[derive(Debug)]
pub struct GeneralConfig {
    /// Debug mode
    pub debug: bool,
    /// Log file path
    pub log_file: Option<String>,
    /// Input timeout in milliseconds
    pub input_timeout_ms: u64,
    /// User data directory for storing history, patterns and the like;
    /// empty means: resolve under the user's home directory
    pub user_data_dir: String,
    /// Enable ghost text
    pub enable_ghost_text: Option<bool>,
    /// Maximum response latency for UI interactions, milliseconds
    pub max_ui_latency_ms: Option<u64>,
    /// Prefer local AI models when available
    pub prefer_local_models: Option<bool>,
    /// Automatic startup
    pub auto_start: Option<bool>,
    /// Show welcome message on first run
    pub show_welcome: Option<bool>,
    /// Enable verbose logging
    pub verbose_logging: Option<bool>,
}

impl Default for GeneralConfig {
    /// The stock settings.
    fn default() -> (r: Self)
        ensures
            r.debug == false,
            r.log_file is None,
            r.input_timeout_ms == 10,
            r.user_data_dir@ =~= Seq::<char>::empty(),
            r.enable_ghost_text == Some(true),
            r.max_ui_latency_ms == Some(5u64),
            r.prefer_local_models == Some(true),
            r.auto_start == Some(true),
            r.show_welcome == Some(true),
            r.verbose_logging == Some(false),
    {
        GeneralConfig {
            debug: false,
            log_file: None,
            input_timeout_ms: 10,
            user_data_dir: String::new(),
            enable_ghost_text: Some(true),
            max_ui_latency_ms: Some(5),
            prefer_local_models: Some(true),
            auto_start: Some(true),
            show_welcome: Some(true),
            verbose_logging: Some(false),
        }
    }
}

/// How the dropdown orders its entries.
#[derive(Clone, Copy, Debug, PartialEq, Eq, Structural)]
pub enum DropdownSortMode {
    /// Sort by relevance score
    Relevance,
    /// Alphabetical sorting
    Alphabetical,
    /// Sort by most frequently used
    MostUsed,
    /// Sort by most recently used
    Recent,
}

/// Where the dropdown appears.
#[derive(Clone, Copy, Debug, PartialEq, Eq, Structural)]
pub enum DropdownPosition {
    /// Below the cursor
    Default,
    /// Always at the top of the terminal
    Top,
    /// Always at the bottom of the terminal
    Bottom,
    /// A fixed column and row
    Custom(u16, u16),
}

/// Custom interface colors, each an RGB hex string.
#[derive(Debug)]
pub struct ColorConfig {
    /// Primary UI color
    pub primary: Option<String>,
    /// Secondary UI color
    pub secondary: Option<String>,
    /// Accent color
    pub accent: Option<String>,
    /// Background color
    pub background: Option<String>,
    /// Foreground text color
    pub foreground: Option<String>,
    /// Selected item background
    pub selected_bg: Option<String>,
    /// Selected item foreground
    pub selected_fg: Option<String>,
    /// Border color
    pub border: Option<String>,
    /// Error color
    pub error: Option<String>,
    /// Warning color
    pub warning: Option<String>,
    /// Success color
    pub success: Option<String>,
    /// Syntax highlighting colors
    pub syntax: Option<SyntaxColors>,
}

/// Colors for the highlighted parts of a command line.
#[derive(Debug)]
pub struct SyntaxColors {
    /// Command color
    pub command: Option<String>,
    /// Argument color
    pub argument: Option<String>,
    /// Option and flag color
    pub option: Option<String>,
    /// Path color
    pub path: Option<String>,
    /// String color
    pub string: Option<String>,
    /// Variable color
    pub variable: Option<String>,
}

/// Terminal interface settings.
#[derive(Debug)]
pub struct UiConfig {
    /// Dropdown width
    pub dropdown_width: u16,
    /// Maximum dropdown height
    pub dropdown_max_height: u16,
    /// Show icons in dropdowns
    pub show_icons: bool,
    /// Color theme
    pub theme: String,
    /// Ghost text color, RGB hex
    pub ghost_text_color: Option<String>,
    /// Enable syntax highlighting
    pub syntax_highlighting: Option<bool>,
    /// Show command explanations in the dropdown
    pub show_explanations: Option<bool>,
    /// Custom colors
    pub colors: Option<ColorConfig>,
    /// Animation speed, 0 for off up to 10 for fast
    pub animation_speed: Option<u8>,
    /// Show the dropdown automatically
    pub auto_show_dropdown: Option<bool>,
    /// Dropdown sort order
    pub dropdown_sort: Option<DropdownSortMode>,
    /// Dropdown appearance delay, milliseconds
    pub dropdown_delay_ms: Option<u64>,
    /// Dropdown position
    pub dropdown_position: Option<DropdownPosition>,
}

impl Default for UiConfig {
    /// The stock settings.
    fn default() -> (r: Self)
        ensures
            r.dropdown_width == 50,
            r.dropdown_max_height == 10,
            r.show_icons == true,
            r.theme@ == "default"@,
            (r.ghost_text_color matches Some(c) && c@ == "#666666"@),
            r.syntax_highlighting == Some(true),
            r.show_explanations == Some(true),
            r.colors is None,
            r.animation_speed == Some(5u8),
            r.auto_show_dropdown == Some(false),
            r.dropdown_sort == Some(DropdownSortMode::Relevance),
            r.dropdown_delay_ms == Some(100u64),
            r.dropdown_position == Some(DropdownPosition::Default),
    {
        UiConfig {
            dropdown_width: 50,
            dropdown_max_height: 10,
            show_icons: true,
            theme: "default".to_owned(),
            ghost_text_color: Some("#666666".to_owned()),
            syntax_highlighting: Some(true),
            show_explanations: Some(true),
            colors: None,
            animation_speed: Some(5),
            auto_show_dropdown: Some(false),
            dropdown_sort: Some(DropdownSortMode::Relevance),
            dropdown_delay_ms: Some(100),
            dropdown_position: Some(DropdownPosition::Default),
        }
    }
}

/// Weights for suggestion scoring, in permille.
#[derive(Clone, Copy, Debug, PartialEq, Eq, Structural)]
pub struct ScoringConfig {
    /// Recency weight
    pub recency_weight_permille: u32,
    /// Frequency weight
    pub frequency_weight_permille: u32,
    /// Context weight
    pub context_weight_permille: u32,
}

/// Suggestion engine settings.
#[derive(Debug)]
pub struct SuggestionConfig {
    /// Maximum number of suggestions to show
    pub max_suggestions: usize,
    /// Enable command suggestions
    pub enable_commands: bool,
    /// Enable path suggestions
    pub enable_paths: bool,
    /// Enable flag suggestions
    pub enable_flags: bool,
    /// Enable AI-powered suggestions
    pub enable_ai: bool,
    /// Directories to ignore for path completion
    pub ignored_dirs: Vec<String>,
    /// Cache lifetime in seconds
    pub cache_lifetime_secs: u64,
    /// Enable fuzzy matching
    pub fuzzy_matching: Option<bool>,
    /// Maximum number of history items to search
    pub max_history_items: Option<usize>,
    /// Advanced scoring options
    pub scoring: Option<ScoringConfig>,
    /// Enable snippet suggestions
    pub enable_snippets: Option<bool>,
    /// Enable variable expansion suggestions
    pub enable_variables: Option<bool>,
    /// Enable file content suggestions
    pub enable_file_content: Option<bool>,
    /// Enable completion while typing
    pub complete_while_typing: Option<bool>,
    /// Minimum prefix length for suggestions
    pub min_prefix_length: Option<usize>,
}

impl Default for SuggestionConfig {
    /// The stock settings.
    fn default() -> (r: Self)
        ensures
            r.max_suggestions == 10,
            r.enable_commands == true,
            r.enable_paths == true,
            r.enable_flags == true,
            r.enable_ai == true,
            r.ignored_dirs@.len() == 3,
            r.ignored_dirs@[0]@ == ".git"@,
            r.ignored_dirs@[1]@ == "node_modules"@,
            r.ignored_dirs@[2]@ == "target"@,
            r.cache_lifetime_secs == 60,
            r.fuzzy_matching == Some(true),
            r.max_history_items == Some(1000usize),
            r.scoring == Some(
                ScoringConfig {
                    recency_weight_permille: 700,
                    frequency_weight_permille: 800,
                    context_weight_permille: 900,
                },
            ),
            r.enable_snippets == Some(true),
            r.enable_variables == Some(true),
            r.enable_file_content == Some(false),
            r.complete_while_typing == Some(true),
            r.min_prefix_length == Some(1usize),
    {
        let mut ignored_dirs: Vec<String> = Vec::new();
        ignored_dirs.push(".git".to_owned());
        ignored_dirs.push("node_modules".to_owned());
        ignored_dirs.push("target".to_owned());
        SuggestionConfig {
            max_suggestions: 10,
            enable_commands: true,
            enable_paths: true,
            enable_flags: true,
            enable_ai: true,
            ignored_dirs,
            cache_lifetime_secs: 60,
            fuzzy_matching: Some(true),
            max_history_items: Some(1000),
            scoring: Some(
                ScoringConfig {
                    recency_weight_permille: 700,
                    frequency_weight_permille: 800,
                    context_weight_permille: 900,
                },
            ),
            enable_snippets: Some(true),
            enable_variables: Some(true),
            enable_file_content: Some(false),
            complete_while_typing: Some(true),
            min_prefix_length: Some(1),
        }
    }
}

/// Per-source enable flags for the prediction pipeline.
#[derive(Clone, Copy, Debug, PartialEq, Eq, Structural)]
pub struct SourcesConfig {
    /// Enable history-based predictions
    pub history: bool,
    /// Enable directory context predictions
    pub directory_context: bool,
    /// Enable project type predictions
    pub project_type: bool,
    /// Enable git context predictions
    pub git_context: bool,
    /// Enable command pattern predictions
    pub command_patterns: bool,
    /// Enable user pattern predictions
    pub user_patterns: bool,
}

/// Prediction pipeline settings.
#[derive(Clone, Copy, Debug, PartialEq, Eq, Structural)]
pub struct PredictionConfig {
    /// Enable the prediction system
    pub enable: bool,
    /// Maximum number of predictions to generate
    pub max_predictions: usize,
    /// Minimum confidence for showing ghost text, permille
    pub min_ghost_confidence_permille: u32,
    /// Enable learning from user behavior
    pub enable_learning: bool,
    /// Maximum number of patterns in the learning store
    pub max_learning_patterns: usize,
    /// Enable project-aware predictions
    pub enable_project_awareness: bool,
    /// Enable git-aware predictions
    pub enable_git_awareness: bool,
    /// Prediction cache capacity
    pub cache_size: usize,
    /// Prediction cache time-to-live, seconds
    pub cache_ttl_seconds: u64,
    /// Maximum latency for predictions to be shown, milliseconds
    pub max_prediction_latency_ms: Option<u64>,
    /// Enable context-based ranking of predictions
    pub enable_context_ranking: Option<bool>,
    /// Per-source enable flags
    pub sources: Option<SourcesConfig>,
}

impl Default for PredictionConfig {
    /// The stock settings.
    fn default() -> (r: Self)
        ensures
            r == (PredictionConfig {
                enable: true,
                max_predictions: 5,
                min_ghost_confidence_permille: 400,
                enable_learning: true,
                max_learning_patterns: 10000,
                enable_project_awareness: true,
                enable_git_awareness: true,
                cache_size: 1000,
                cache_ttl_seconds: 300,
                max_prediction_latency_ms: Some(5u64),
                enable_context_ranking: Some(true),
                sources: Some(
                    SourcesConfig {
                        history: true,
                        directory_context: true,
                        project_type: true,
                        git_context: true,
                        command_patterns: true,
                        user_patterns: true,
                    },
                ),
            }),
    {
        PredictionConfig {
            enable: true,
            max_predictions: 5,
            min_ghost_confidence_permille: 400,
            enable_learning: true,
            max_learning_patterns: 10000,
            enable_project_awareness: true,
            enable_git_awareness: true,
            cache_size: 1000,
            cache_ttl_seconds: 300,
            max_prediction_latency_ms: Some(5),
            enable_context_ranking: Some(true),
            sources: Some(
                SourcesConfig {
                    history: true,
                    directory_context: true,
                    project_type: true,
                    git_context: true,
                    command_patterns: true,
                    user_patterns: true,
                },
            ),
        }
    }
}

/// Settings for the remote AI endpoint.
#[derive(Debug)]
pub struct AiConfig {
    /// Enable AI integration
    pub enabled: bool,
    /// API endpoint
    pub api_endpoint: String,
    /// API key
    pub api_key: Option<String>,
    /// Timeout in seconds
    pub timeout_secs: u64,
    /// Cache AI responses
    pub enable_cache: bool,
    /// Maximum cache entries
    pub max_cache_entries: usize,
    /// Model name for compatible endpoints
    pub model: Option<String>,
    /// Sampling temperature, permille
    pub temperature_permille: Option<u32>,
    /// Maximum tokens per response
    pub max_tokens: Option<u32>,
}

impl Default for AiConfig {
    /// The stock settings: the integration is off.
    fn default() -> (r: Self)
        ensures
            r.enabled == false,
            r.api_endpoint@ == "http://localhost:8000/v1"@,
            r.api_key is None,
            r.timeout_secs == 5,
            r.enable_cache == true,
            r.max_cache_entries == 1000,
            (r.model matches Some(m) && m@ == "gpt-3.5-turbo"@),
            r.temperature_permille == Some(200u32),
            r.max_tokens == Some(100u32),
    {
        AiConfig {
            enabled: false,
            api_endpoint: "http://localhost:8000/v1".to_owned(),
            api_key: None,
            timeout_secs: 5,
            enable_cache: true,
            max_cache_entries: 1000,
            model: Some("gpt-3.5-turbo".to_owned()),
            temperature_permille: Some(200),
            max_tokens: Some(100),
        }
    }
}

/// Generation parameters for the local model runner.
#[derive(Debug)]
pub struct OllamaParameters {
    /// Sampling temperature, permille
    pub temperature_permille: u32,
    /// Nucleus sampling threshold, permille
    pub top_p_permille: u32,
    /// Maximum tokens to generate
    pub max_tokens: u32,
    /// System prompt for context
    pub system_prompt: String,
}

/// Settings for the local model runner.
#[derive(Debug)]
pub struct OllamaConfig {
    /// Enable the integration
    pub enabled: bool,
    /// API URL
    pub api_url: String,
    /// Model to use
    pub model: String,
    /// Timeout in seconds
    pub timeout_secs: u64,
    /// Cache responses
    pub enable_cache: bool,
    /// Maximum cache entries
    pub max_cache_entries: usize,
    /// Advanced parameters
    pub parameters: Option<OllamaParameters>,
}

impl Default for OllamaConfig {
    /// The stock settings.
    fn default() -> (r: Self)
        ensures
            r.enabled == true,
            r.api_url@ == "http://localhost:11434"@,
            r.model@ == "codellama:7b-instruct"@,
            r.timeout_secs == 3,
            r.enable_cache == true,
            r.max_cache_entries == 500,
            (r.parameters matches Some(p) && p.temperature_permille == 100 && p.top_p_permille
                == 900 && p.max_tokens == 100),
    {
        OllamaConfig {
            enabled: true,
            api_url: "http://localhost:11434".to_owned(),
            model: "codellama:7b-instruct".to_owned(),
            timeout_secs: 3,
            enable_cache: true,
            max_cache_entries: 500,
            parameters: Some(
                OllamaParameters {
                    temperature_permille: 100,
                    top_p_permille: 900,
                    max_tokens: 100,
                    system_prompt:
                        "You are a helpful terminal assistant that provides accurate, concise shell command suggestions.".to_owned(),
                },
            ),
        }
    }
}

/// Per-shell integration settings.
#[derive(Debug)]
pub struct ShellConfig {
    /// Shell command to execute for shell-specific operations
    pub command: String,
    /// Shell initialization file
    pub init_file: Option<String>,
    /// History file path
    pub history_file: Option<String>,
    /// Enable custom keybindings for this shell
    pub enable_keybindings: Option<bool>,
    /// Load shell aliases
    pub load_aliases: Option<bool>,
}

/// Optimizations for remote sessions.
#[derive(Clone, Copy, Debug, PartialEq, Eq, Structural)]
pub struct SshConfig {
    /// Enable remote-session optimizations
    pub enable_optimizations: bool,
    /// Maximum bandwidth usage, kilobytes per second
    pub max_bandwidth_kb: Option<u32>,
    /// Enable command caching in remote sessions
    pub enable_command_caching: Option<bool>,
    /// Disable expensive features in remote sessions
    pub disable_expensive_features: Option<bool>,
    /// Reduce animation in remote sessions
    pub reduce_animations: Option<bool>,
}

impl Default for SshConfig {
    /// The stock settings.
    fn default() -> (r: Self)
        ensures
            r == (SshConfig {
                enable_optimizations: true,
                max_bandwidth_kb: Some(50u32),
                enable_command_caching: Some(true),
                disable_expensive_features: Some(true),
                reduce_animations: Some(true),
            }),
    {
        SshConfig {
            enable_optimizations: true,
            max_bandwidth_kb: Some(50),
            enable_command_caching: Some(true),
            disable_expensive_features: Some(true),
            reduce_animations: Some(true),
        }
    }
}

/// Telemetry settings.
#[derive(Debug)]
pub struct TelemetryConfig {
    /// Enable telemetry
    pub enabled: bool,
    /// Telemetry data directory
    pub data_dir: Option<String>,
    /// Telemetry upload URL
    pub upload_url: String,
    /// Feedback submission URL
    pub feedback_url: String,
}

impl Default for TelemetryConfig {
    /// The stock settings: telemetry is off.
    fn default() -> (r: Self)
        ensures
            r.enabled == false,
            r.data_dir is None,
            r.upload_url@ == "https://api.rustfig.dev/telemetry"@,
            r.feedback_url@ == "https://api.rustfig.dev/feedback"@,
    {
        TelemetryConfig {
            enabled: false,
            data_dir: None,
            upload_url: "https://api.rustfig.dev/telemetry".to_owned(),
            feedback_url: "https://api.rustfig.dev/feedback".to_owned(),
        }
    }
}

/// Input and output tuning.
#[derive(Clone, Copy, Debug, PartialEq, Eq, Structural)]
pub struct OptimizationConfig {
    /// Use memory mapped files
    pub mmap_files: bool,
    /// Buffer size for file operations
    pub file_buffer_size: usize,
    /// Compress cached data
    pub compress_cache: bool,
}

/// Performance tuning.
#[derive(Clone, Copy, Debug, PartialEq, Eq, Structural)]
pub struct PerformanceConfig {
    /// Number of worker threads, zero for automatic
    pub worker_threads: usize,
    /// Maximum memory usage in megabytes, zero for unlimited
    pub max_memory_mb: usize,
    /// Enable background cache warming
    pub enable_cache_warming: bool,
    /// Enable parallel suggestion generation
    pub parallel_suggestions: bool,
    /// Input and output optimizations
    pub optimizations: Option<OptimizationConfig>,
}

impl Default for PerformanceConfig {
    /// The stock settings.
    fn default() -> (r: Self)
        ensures
            r == (PerformanceConfig {
                worker_threads: 0,
                max_memory_mb: 0,
                enable_cache_warming: true,
                parallel_suggestions: true,
                optimizations: Some(
                    OptimizationConfig {
                        mmap_files: true,
                        file_buffer_size: 8192,
                        compress_cache: true,
                    },
                ),
            }),
    {
        PerformanceConfig {
            worker_threads: 0,
            max_memory_mb: 0,
            enable_cache_warming: true,
            parallel_suggestions: true,
            optimizations: Some(
                OptimizationConfig {
                    mmap_files: true,
                    file_buffer_size: 8192,
                    compress_cache: true,
                },
            ),
        }
    }
}

/// The whole configuration tree.
#[derive(Debug)]
pub struct Config {
    /// General configuration
    pub general: GeneralConfig,
    /// Terminal interface configuration
    pub ui: UiConfig,
    /// Suggestion engine configuration
    pub suggestions: SuggestionConfig,
    /// Prediction pipeline configuration
    pub prediction: PredictionConfig,
    /// Remote AI configuration
    pub ai: AiConfig,
    /// Local model configuration
    pub ollama: Option<OllamaConfig>,
    /// Per-shell configuration, keyed by shell name
    pub shells: Vec<(String, ShellConfig)>,
    /// Remote session configuration
    pub ssh: Option<SshConfig>,
    /// Telemetry configuration
    pub telemetry: Option<TelemetryConfig>,
    /// Performance tuning
    pub performance: Option<PerformanceConfig>,
}

impl Default for Config {
    /// The stock configuration: every section at its own defaults and
    /// no per-shell overrides.
    fn default() -> (r: Self)
        ensures
            r.prediction.enable == true,
            r.prediction.max_predictions == 5,
            r.prediction.min_ghost_confidence_permille == 400,
            r.prediction.cache_size == 1000,
            r.prediction.cache_ttl_seconds == 300,
            r.ai.enabled == false,
            r.ollama is Some,
            r.ssh is Some,
            r.performance is Some,
            (r.telemetry matches Some(t) && t.enabled == false),
            r.shells@.len() == 0,
    {
        Config {
            general: GeneralConfig::default(),
            ui: UiConfig::default(),
            suggestions: SuggestionConfig::default(),
            prediction: PredictionConfig::default(),
            ai: AiConfig::default(),
            ollama: Some(OllamaConfig::default()),
            shells: Vec::new(),
            ssh: Some(SshConfig::default()),
            telemetry: Some(TelemetryConfig::default()),
            performance: Some(PerformanceConfig::default()),
        }
    }
}

} // verus!
