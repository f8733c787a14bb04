//! The chat-panel configuration model and its normalization rules.
//!
//! Loading the file from disk, reading the process environment and parsing
//! YAML happen outside the library; they hand the raw field values and the
//! environment pairs in.  This module holds the verified rules: which
//! fields fall back to their defaults, how `$VAR` and `${VAR}` placeholders
//! resolve, and how the serialized form is made safe to embed in a script
//! element.

use vstd::prelude::*;

use crate::text::replace_all;
use crate::text::trim_spec;
use crate::text::trim_str;

verus! {

/// Connection settings for the chat backend.
#[derive(Debug, Clone)]
pub struct ApiConfig {
    pub base_url: String,
    pub model: String,
    pub timeout_ms: u64,
    pub headers: Vec<(String, String)>,
}

/// Prompt templates.
#[derive(Debug, Clone)]
pub struct PromptConfig {
    pub system: String,
    pub environment_template: String,
    pub fallback_language: String,
}

/// One redaction rule applied to page context.
#[derive(Debug, Clone)]
pub struct SanitizePattern {
    pub regex: String,
    pub replacement: String,
}

/// Context assembly settings.
#[derive(Debug, Clone)]
pub struct ContextConfig {
    pub history_window: usize,
    pub page_tokens_budget: usize,
    pub debounce_ms: u64,
    pub sanitize_patterns: Vec<SanitizePattern>,
}

/// Interface settings.
#[derive(Debug, Clone)]
pub struct UiConfig {
    pub language: String,
    pub show_context_preview: bool,
    pub allow_prompt_edit: bool,
}

/// The whole configuration.
#[derive(Debug, Clone)]
pub struct AppConfig {
    pub api: ApiConfig,
    pub prompts: PromptConfig,
    pub context: ContextConfig,
    pub ui: UiConfig,
}

pub open spec fn default_api_ok(r: ApiConfig) -> bool {
    &&& r.base_url@ == "https://api.openai.com/v1"@
    &&& r.model@ == "gpt-4.1-mini"@
    &&& r.timeout_ms == 15000
    &&& r.headers@.len() == 0
}

pub open spec fn default_system_prompt() -> Seq<char> {
    "You are Cargo Doc Viewer’s AI assistant. Provide clear, concise answers grounded in the supplied Rust documentation context. If the context is insufficient, ask for clarification instead of guessing."@
}

pub open spec fn default_environment_template() -> Seq<char> {
    "Crate: {{crate.name}}\nModule: {{page.module_path}}\nRust Edition: {{environment.edition}}\nAvailable Features: {{environment.features}}\n"@
}

pub open spec fn default_prompts_ok(r: PromptConfig) -> bool {
    &&& r.system@ == default_system_prompt()
    &&& r.environment_template@ == default_environment_template()
    &&& r.fallback_language@ == "auto"@
}

pub open spec fn default_pattern_ok(r: SanitizePattern) -> bool {
    &&& r.regex@ == "(?i)apikey=[A-Za-z0-9_-]+"@
    &&& r.replacement@ == "[redacted]"@
}

pub open spec fn default_context_ok(r: ContextConfig) -> bool {
    &&& r.history_window == 6
    &&& r.page_tokens_budget == 1200
    &&& r.debounce_ms == 300
    &&& r.sanitize_patterns@.len() == 1
    &&& default_pattern_ok(r.sanitize_patterns@[0])
}

pub open spec fn default_ui_ok(r: UiConfig) -> bool {
    &&& r.language@ == "auto"@
    &&& r.show_context_preview == true
    &&& r.allow_prompt_edit == true
}

impl Default for ApiConfig {
    fn default() -> (r: ApiConfig)
        ensures
            default_api_ok(r),
    {
        ApiConfig {
            base_url: "https://api.openai.com/v1".to_owned(),
            model: "gpt-4.1-mini".to_owned(),
            timeout_ms: 15000,
            headers: Vec::new(),
        }
    }
}

impl Default for PromptConfig {
    fn default() -> (r: PromptConfig)
        ensures
            default_prompts_ok(r),
    {
        PromptConfig {
            system:
                "You are Cargo Doc Viewer’s AI assistant. Provide clear, concise answers grounded in the supplied Rust documentation context. If the context is insufficient, ask for clarification instead of guessing.".to_owned(),
            environment_template:
                "Crate: {{crate.name}}\nModule: {{page.module_path}}\nRust Edition: {{environment.edition}}\nAvailable Features: {{environment.features}}\n".to_owned(),
            fallback_language: "auto".to_owned(),
        }
    }
}

impl Default for SanitizePattern {
    fn default() -> (r: SanitizePattern)
        ensures
            default_pattern_ok(r),
    {
        SanitizePattern {
            regex: "(?i)apikey=[A-Za-z0-9_-]+".to_owned(),
            replacement: "[redacted]".to_owned(),
        }
    }
}

impl Default for ContextConfig {
    fn default() -> (r: ContextConfig)
        ensures
            default_context_ok(r),
    {
        let mut patterns: Vec<SanitizePattern> = Vec::new();
        patterns.push(SanitizePattern::default());
        ContextConfig {
            history_window: 6,
            page_tokens_budget: 1200,
            debounce_ms: 300,
            sanitize_patterns: patterns,
        }
    }
}

impl Default for UiConfig {
    fn default() -> (r: UiConfig)
        ensures
            default_ui_ok(r),
    {
        UiConfig { language: "auto".to_owned(), show_context_preview: true, allow_prompt_edit: true }
    }
}

impl Default for AppConfig {
    fn default() -> (r: AppConfig)
        ensures
            default_api_ok(r.api),
            default_prompts_ok(r.prompts),
            default_context_ok(r.context),
            default_ui_ok(r.ui),
    {
        AppConfig {
            api: ApiConfig::default(),
            prompts: PromptConfig::default(),
            context: ContextConfig::default(),
            ui: UiConfig::default(),
        }
    }
}

/// A field kept only in trimmed form: trimmed when that leaves something,
/// the default otherwise.
pub open spec fn norm_str(s: Seq<char>, dflt: Seq<char>) -> Seq<char> {
    if trim_spec(s).len() == 0 {
        dflt
    } else {
        trim_spec(s)
    }
}

/// A field kept as written: replaced by the default only when blank.
pub open spec fn fill_str(s: Seq<char>, dflt: Seq<char>) -> Seq<char> {
    if trim_spec(s).len() == 0 {
        dflt
    } else {
        s
    }
}

fn normalize_trimmed(value: &str, dflt: &str) -> (r: String)
    ensures
        r@ == norm_str(value@, dflt@),
{
    let t = trim_str(value);
    if t.as_str().unicode_len() == 0 {
        dflt.to_owned()
    } else {
        t
    }
}

fn is_blank(value: &str) -> (r: bool)
    ensures
        r == (trim_spec(value@).len() == 0),
{
    let t = trim_str(value);
    t.as_str().unicode_len() == 0
}

impl AppConfig {
    /// Restores every blank or zero field to its default; trims the fields
    /// that are kept only in trimmed form.
    pub fn normalize(&mut self)
        ensures
            final(self).api.base_url@ == norm_str(
                old(self).api.base_url@,
                "https://api.openai.com/v1"@,
            ),
            final(self).api.model@ == norm_str(old(self).api.model@, "gpt-4.1-mini"@),
            final(self).api.timeout_ms == if old(self).api.timeout_ms == 0 {
                15000u64
            } else {
                old(self).api.timeout_ms
            },
            final(self).api.headers@ == old(self).api.headers@,
            final(self).prompts.system@ == fill_str(
                old(self).prompts.system@,
                default_system_prompt(),
            ),
            final(self).prompts.environment_template@ == fill_str(
                old(self).prompts.environment_template@,
                default_environment_template(),
            ),
            final(self).prompts.fallback_language@ == norm_str(
                old(self).prompts.fallback_language@,
                "auto"@,
            ),
            final(self).context.history_window == if old(self).context.history_window == 0 {
                6usize
            } else {
                old(self).context.history_window
            },
            final(self).context.page_tokens_budget == if old(self).context.page_tokens_budget == 0 {
                1200usize
            } else {
                old(self).context.page_tokens_budget
            },
            final(self).context.debounce_ms == if old(self).context.debounce_ms == 0 {
                300u64
            } else {
                old(self).context.debounce_ms
            },
            old(self).context.sanitize_patterns@.len() == 0 ==> final(self).context.sanitize_patterns@.len() == 1 && default_pattern_ok(
                final(self).context.sanitize_patterns@[0],
            ),
            old(self).context.sanitize_patterns@.len() > 0 ==> final(self).context.sanitize_patterns@.len() == old(self).context.sanitize_patterns@.len() && (
            forall|i: int|
                0 <= i < old(self).context.sanitize_patterns@.len() ==> (#[trigger] final(self).context.sanitize_patterns@[i]).regex@ == fill_str(
                    old(self).context.sanitize_patterns@[i].regex@,
                    "(?i)apikey=[A-Za-z0-9_-]+"@,
                ) && final(self).context.sanitize_patterns@[i].replacement@ == old(self).context.sanitize_patterns@[i].replacement@),
            final(self).ui.language@ == norm_str(old(self).ui.language@, "auto"@),
            final(self).ui.show_context_preview == old(self).ui.show_context_preview,
            final(self).ui.allow_prompt_edit == old(self).ui.allow_prompt_edit,
    {
        self.api.base_url = normalize_trimmed(
            self.api.base_url.as_str(),
            "https://api.openai.com/v1",
        );
        self.api.model = normalize_trimmed(self.api.model.as_str(), "gpt-4.1-mini");
        if self.api.timeout_ms == 0 {
            self.api.timeout_ms = 15000;
        }
        if is_blank(self.prompts.system.as_str()) {
            self.prompts.system =
                "You are Cargo Doc Viewer’s AI assistant. Provide clear, concise answers grounded in the supplied Rust documentation context. If the context is insufficient, ask for clarification instead of guessing.".to_owned();
        }
        if is_blank(self.prompts.environment_template.as_str()) {
            self.prompts.environment_template =
                "Crate: {{crate.name}}\nModule: {{page.module_path}}\nRust Edition: {{environment.edition}}\nAvailable Features: {{environment.features}}\n".to_owned();
        }
        self.prompts.fallback_language = normalize_trimmed(
            self.prompts.fallback_language.as_str(),
            "auto",
        );
        if self.context.history_window == 0 {
            self.context.history_window = 6;
        }
        if self.context.page_tokens_budget == 0 {
            self.context.page_tokens_budget = 1200;
        }
        if self.context.debounce_ms == 0 {
            self.context.debounce_ms = 300;
        }
        if self.context.sanitize_patterns.len() == 0 {
            let mut patterns: Vec<SanitizePattern> = Vec::new();
            patterns.push(SanitizePattern::default());
            self.context.sanitize_patterns = patterns;
        } else {
            let n = self.context.sanitize_patterns.len();
            let mut fixed: Vec<SanitizePattern> = Vec::new();
            let mut i: usize = 0;
            while i < n
                invariant
                    n == self.context.sanitize_patterns@.len(),
                    i <= n,
                    fixed@.len() == i,
                    forall|k: int|
                        0 <= k < i ==> (#[trigger] fixed@[k]).regex@ == fill_str(
                            self.context.sanitize_patterns@[k].regex@,
                            "(?i)apikey=[A-Za-z0-9_-]+"@,
                        ) && fixed@[k].replacement@
                            == self.context.sanitize_patterns@[k].replacement@,
                decreases n - i,
            {
                let p = &self.context.sanitize_patterns[i];
                let regex = if is_blank(p.regex.as_str()) {
                    "(?i)apikey=[A-Za-z0-9_-]+".to_owned()
                } else {
                    p.regex.clone()
                };
                fixed.push(SanitizePattern { regex, replacement: p.replacement.clone() });
                i = i + 1;
            }
            self.context.sanitize_patterns = fixed;
        }
        self.ui.language = normalize_trimmed(self.ui.language.as_str(), "auto");
    }
}

/// The environment pairs placeholders resolve against, in precedence
/// order: the first pair with a matching name wins.
pub struct EnvSource {
    pub vars: Vec<(String, String)>,
}

/// The value of the first pair whose name matches.
pub open spec fn assoc(pairs: Seq<(String, String)>, key: Seq<char>) -> Option<Seq<char>>
    decreases pairs.len(),
{
    if pairs.len() == 0 {
        None
    } else if pairs[0].0@ == key {
        Some(pairs[0].1@)
    } else {
        assoc(pairs.skip(1), key)
    }
}

impl EnvSource {
    /// An environment from name-value pairs, earlier pairs taking
    /// precedence.
    pub fn from_pairs(vars: Vec<(String, String)>) -> (r: EnvSource)
        ensures
            r.vars@ == vars@,
    {
        EnvSource { vars }
    }

    /// Looks a name up, first match winning.
    pub fn lookup(&self, key: &str) -> (r: Option<String>)
        ensures
            match r {
                Some(v) => assoc(self.vars@, key@) == Some(v@),
                None => assoc(self.vars@, key@) is None,
            },
    {
        let n = self.vars.len();
        let mut i: usize = 0;
        proof {
            assert(self.vars@.skip(0) =~= self.vars@);
        }
        while i < n
            invariant
                n == self.vars@.len(),
                i <= n,
                assoc(self.vars@, key@) == assoc(self.vars@.skip(i as int), key@),
            decreases n - i,
        {
            proof {
                assert(self.vars@.skip(i as int)[0] == self.vars@[i as int]);
                assert(self.vars@.skip(i as int).skip(1) =~= self.vars@.skip(i + 1));
            }
            let p = &self.vars[i];
            if crate::text::str_eq(p.0.as_str(), key) {
                return Some(p.1.clone());
            }
            i = i + 1;
        }
        None
    }
}

/// Whether a character may appear in a bare `$NAME` reference.
pub open spec fn valid_env_char_spec(c: char) -> bool {
    ('A' <= c && c <= 'Z') || ('a' <= c && c <= 'z') || ('0' <= c && c <= '9') || c == '_'
}

pub fn is_valid_env_char(c: char) -> (r: bool)
    ensures
        r == valid_env_char_spec(c),
{
    ('A' <= c && c <= 'Z') || ('a' <= c && c <= 'z') || ('0' <= c && c <= '9') || c == '_'
}

/// The environment name a value refers to: the inside of `${NAME}`, or the
/// rest after a `$` when it is a nonempty run of name characters.
pub open spec fn env_ref_spec(v: Seq<char>) -> Option<Seq<char>> {
    if v.len() >= 2 && v[0] == '$' && v[1] == '{' {
        if v.len() >= 3 && v[v.len() - 1] == '}' {
            Some(v.subrange(2, v.len() - 1))
        } else {
            None
        }
    } else if v.len() >= 2 && v[0] == '$' && (forall|k: int|
        1 <= k < v.len() ==> valid_env_char_spec(v[k])) {
        Some(v.skip(1))
    } else {
        None
    }
}

/// The environment name a value refers to, if any.
pub fn extract_env_ref(value: &str) -> (r: Option<String>)
    ensures
        match r {
            Some(name) => env_ref_spec(value@) == Some(name@),
            None => env_ref_spec(value@) is None,
        },
{
    let v = crate::text::to_char_vec(value);
    let n = v.len();
    if n >= 2 && v[0] == '$' && v[1] == '{' {
        if n >= 3 && v[n - 1] == '}' {
            let inner = value.substring_char(2, n - 1);
            proof {
                assert(inner@ =~= value@.subrange(2, n - 1));
            }
            Some(inner.to_owned())
        } else {
            None
        }
    } else if n >= 2 && v[0] == '$' {
        let mut k: usize = 1;
        while k < n
            invariant
                n == value@.len(),
                v@ == value@,
                n >= 2,
                value@[0] == '$',
                value@[1] != '{',
                1 <= k <= n,
                forall|t: int| 1 <= t < k ==> valid_env_char_spec(value@[t]),
            decreases n - k,
        {
            if !is_valid_env_char(v[k]) {
                return None;
            }
            k = k + 1;
        }
        let rest = value.substring_char(1, n);
        proof {
            assert(rest@ =~= value@.skip(1));
        }
        Some(rest.to_owned())
    } else {
        None
    }
}

/// The resolved form of one string field: a field that is, after trimming,
/// exactly one placeholder becomes the named value, or empty when the name
/// is unknown; any other field is untouched.
pub open spec fn resolve_str_spec(v: Seq<char>, pairs: Seq<(String, String)>) -> Seq<char> {
    match env_ref_spec(trim_spec(v)) {
        Some(name) => match assoc(pairs, name) {
            Some(val) => val,
            None => Seq::empty(),
        },
        None => v,
    }
}

fn resolve_string(value: &str, source: &EnvSource) -> (r: String)
    ensures
        r@ == resolve_str_spec(value@, source.vars@),
{
    let trimmed = trim_str(value);
    match extract_env_ref(trimmed.as_str()) {
        Some(name) => match source.lookup(name.as_str()) {
            Some(resolved) => resolved,
            None => String::new(),
        },
        None => value.to_owned(),
    }
}

impl AppConfig {
    /// Resolves `$VAR` and `${VAR}` placeholders in every string field
    /// against the environment pairs; a placeholder naming an unknown
    /// variable leaves the field empty.
    pub fn resolve_env(&mut self, source: &EnvSource)
        ensures
            final(self).api.base_url@ == resolve_str_spec(old(self).api.base_url@, source.vars@),
            final(self).api.model@ == resolve_str_spec(old(self).api.model@, source.vars@),
            final(self).api.timeout_ms == old(self).api.timeout_ms,
            final(self).api.headers@.len() == old(self).api.headers@.len(),
            forall|i: int|
                0 <= i < old(self).api.headers@.len() ==> (#[trigger] final(self).api.headers@[i]).0@
                    == old(self).api.headers@[i].0@ && final(self).api.headers@[i].1@
                    == resolve_str_spec(old(self).api.headers@[i].1@, source.vars@),
            final(self).prompts.system@ == resolve_str_spec(old(self).prompts.system@, source.vars@),
            final(self).prompts.environment_template@ == resolve_str_spec(
                old(self).prompts.environment_template@,
                source.vars@,
            ),
            final(self).prompts.fallback_language@ == resolve_str_spec(
                old(self).prompts.fallback_language@,
                source.vars@,
            ),
            final(self).context.history_window == old(self).context.history_window,
            final(self).context.page_tokens_budget == old(self).context.page_tokens_budget,
            final(self).context.debounce_ms == old(self).context.debounce_ms,
            final(self).context.sanitize_patterns@.len() == old(self).context.sanitize_patterns@.len(),
            forall|i: int|
                0 <= i < old(self).context.sanitize_patterns@.len() ==> (#[trigger] final(self).context.sanitize_patterns@[i]).regex@ == resolve_str_spec(
                    old(self).context.sanitize_patterns@[i].regex@,
                    source.vars@,
                ) && final(self).context.sanitize_patterns@[i].replacement@ == resolve_str_spec(
                    old(self).context.sanitize_patterns@[i].replacement@,
                    source.vars@,
                ),
            final(self).ui.language@ == resolve_str_spec(old(self).ui.language@, source.vars@),
            final(self).ui.show_context_preview == old(self).ui.show_context_preview,
            final(self).ui.allow_prompt_edit == old(self).ui.allow_prompt_edit,
    {
        self.api.base_url = resolve_string(self.api.base_url.as_str(), source);
        self.api.model = resolve_string(self.api.model.as_str(), source);
        let hn = self.api.headers.len();
        let mut headers: Vec<(String, String)> = Vec::new();
        let mut i: usize = 0;
        while i < hn
            invariant
                hn == self.api.headers@.len(),
                i <= hn,
                headers@.len() == i,
                forall|k: int|
                    0 <= k < i ==> (#[trigger] headers@[k]).0@ == self.api.headers@[k].0@
                        && headers@[k].1@ == resolve_str_spec(
                        self.api.headers@[k].1@,
                        source.vars@,
                    ),
            decreases hn - i,
        {
            let pair = &self.api.headers[i];
            let resolved = resolve_string(pair.1.as_str(), source);
            headers.push((pair.0.clone(), resolved));
            i = i + 1;
        }
        self.api.headers = headers;
        self.prompts.system = resolve_string(self.prompts.system.as_str(), source);
        self.prompts.environment_template = resolve_string(
            self.prompts.environment_template.as_str(),
            source,
        );
        self.prompts.fallback_language = resolve_string(
            self.prompts.fallback_language.as_str(),
            source,
        );
        let pn = self.context.sanitize_patterns.len();
        let mut patterns: Vec<SanitizePattern> = Vec::new();
        let mut j: usize = 0;
        while j < pn
            invariant
                pn == self.context.sanitize_patterns@.len(),
                j <= pn,
                patterns@.len() == j,
                forall|k: int|
                    0 <= k < j ==> (#[trigger] patterns@[k]).regex@ == resolve_str_spec(
                        self.context.sanitize_patterns@[k].regex@,
                        source.vars@,
                    ) && patterns@[k].replacement@ == resolve_str_spec(
                        self.context.sanitize_patterns@[k].replacement@,
                        source.vars@,
                    ),
            decreases pn - j,
        {
            let p = &self.context.sanitize_patterns[j];
            let regex = resolve_string(p.regex.as_str(), source);
            let replacement = resolve_string(p.replacement.as_str(), source);
            patterns.push(SanitizePattern { regex, replacement });
            j = j + 1;
        }
        self.context.sanitize_patterns = patterns;
        self.ui.language = resolve_string(self.ui.language.as_str(), source);
    }
}

/// The serialized configuration made safe to embed inside a script
/// element: every `</` becomes `<\/`, so no `</script>` can terminate the
/// element early.
pub fn escape_json_for_script(json: &str) -> (r: String)
    ensures
        r@ == replace_all(json@, "</"@, "<\\/"@),
{
    proof {
        reveal_strlit("</");
    }
    crate::text::replace_occurrences(json, "</", "<\\/")
}

} // verus!
