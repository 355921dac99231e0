//! Project-memory bookkeeping: where a project's memories live, when the
//! experiment is active, the layered experiment configuration, and model
//! overrides for the memory sub-agents.

use vstd::prelude::*;

use crate::catalog::ReasoningEffort;
use crate::providers::ModelProviderInfo;
use crate::providers::provider_pos;
use crate::providers::provider_pos_from;
use crate::text::str_eq;

verus! {

/// Subdirectory under the home directory that holds experiment storage.
pub open spec fn experiment_dir() -> Seq<char> {
    "memories_experiment"@
}

/// FNV-1a offset basis.
pub open spec fn fnv_offset() -> u64 {
    0xcbf29ce484222325u64
}

/// FNV-1a prime.
pub open spec fn fnv_prime() -> u64 {
    0x100000001b3u64
}

/// FNV-1a over the character scalar values of a path, from a running state.
pub open spec fn path_hash_from(h: u64, s: Seq<char>) -> u64
    decreases s.len(),
{
    if s.len() == 0 {
        h
    } else {
        path_hash_from(
            vstd::wrapping::u64_specs::wrapping_mul(h ^ (s[0] as u64), fnv_prime()),
            s.skip(1),
        )
    }
}

/// The stable project-local hash of a path.
pub open spec fn path_hash(s: Seq<char>) -> u64 {
    path_hash_from(fnv_offset(), s)
}

/// A stable hash of a path, used to name a project whose path has no usable
/// last component.  The FNV-1a construction is this library's own naming
/// scheme: it is deterministic across processes and machines, and directory
/// names derived from any other hash do not coincide with it.
pub fn hash_path(path: &str) -> (r: u64)
    ensures
        r == path_hash(path@),
{
    let n = path.unicode_len();
    let mut h: u64 = 0xcbf29ce484222325;
    let mut i: usize = 0;
    proof {
        assert(path@.skip(0) =~= path@);
    }
    while i < n
        invariant
            n == path@.len(),
            i <= n,
            path_hash(path@) == path_hash_from(h, path@.skip(i as int)),
        decreases n - i,
    {
        let c = path.get_char(i);
        proof {
            assert(path@.skip(i as int)[0] == path@[i as int]);
            assert(path@.skip(i as int).skip(1) =~= path@.skip(i as int + 1));
        }
        h = (h ^ (c as u64)).wrapping_mul(0x100000001b3);
        i = i + 1;
    }
    proof {
        assert(path@.skip(n as int) =~= Seq::<char>::empty());
    }
    h
}

/// The character of one hexadecimal digit.
pub open spec fn hex_char(d: int) -> char {
    if d < 10 {
        crate::events::digit_char(d)
    } else if d == 10 {
        'a'
    } else if d == 11 {
        'b'
    } else if d == 12 {
        'c'
    } else if d == 13 {
        'd'
    } else if d == 14 {
        'e'
    } else {
        'f'
    }
}

/// The zero-padded 16-digit hexadecimal rendering of a 64-bit value.
pub open spec fn hex16(n: int, w: nat) -> Seq<char>
    decreases w,
{
    if w == 0 {
        Seq::empty()
    } else {
        hex16(n / 16, (w - 1) as nat) + seq![hex_char(n % 16)]
    }
}

/// One hexadecimal digit as a string slice.
fn hex_digit_str(d: u64) -> (s: &'static str)
    requires
        d < 16,
    ensures
        s@ =~= seq![hex_char(d as int)],
{
    if d < 10 {
        crate::events::digit_str(d as usize)
    } else {
        proof {
            reveal_strlit("a");
            reveal_strlit("b");
            reveal_strlit("c");
            reveal_strlit("d");
            reveal_strlit("e");
            reveal_strlit("f");
        }
        if d == 10 {
            "a"
        } else if d == 11 {
            "b"
        } else if d == 12 {
            "c"
        } else if d == 13 {
            "d"
        } else if d == 14 {
            "e"
        } else {
            "f"
        }
    }
}

/// The zero-padded 16-digit hexadecimal rendering of a hash.
pub fn hex16_string(n: u64) -> (s: String)
    ensures
        s@ =~= hex16(n as int, 16),
{
    hex16_rec(n, 16)
}

fn hex16_rec(n: u64, w: usize) -> (s: String)
    ensures
        s@ =~= hex16(n as int, w as nat),
    decreases w,
{
    if w == 0 {
        String::new()
    } else {
        let mut s = hex16_rec(n / 16, w - 1);
        s.append(hex_digit_str(n % 16));
        s
    }
}

/// The maximal slash-free suffix of `s`.
pub open spec fn slash_free_suffix(s: Seq<char>) -> Seq<char>
    decreases s.len(),
{
    if s.len() == 0 {
        Seq::empty()
    } else if s.last() == '/' {
        Seq::empty()
    } else {
        slash_free_suffix(s.drop_last()) + seq![s.last()]
    }
}

/// `s` with trailing slashes removed.
pub open spec fn strip_trailing_slashes(s: Seq<char>) -> Seq<char>
    decreases s.len(),
{
    if s.len() > 0 && s.last() == '/' {
        strip_trailing_slashes(s.drop_last())
    } else {
        s
    }
}

/// The last path component of `s`: the slash-free suffix once trailing
/// slashes are ignored.  A bare root, or a path of slashes only, has none.
pub open spec fn last_component(s: Seq<char>) -> Seq<char> {
    slash_free_suffix(strip_trailing_slashes(s))
}

/// The last path component of `path`, as an owned string.
pub fn last_component_of(path: &str) -> (r: String)
    ensures
        r@ =~= last_component(path@),
{
    let n = path.unicode_len();
    let mut end: usize = n;
    proof {
        assert(path@.take(n as int) =~= path@);
        assert(strip_trailing_slashes(path@) =~= strip_trailing_slashes(path@.take(n as int)));
    }
    while end > 0 && path.get_char(end - 1) == '/'
        invariant
            n == path@.len(),
            end <= n,
            strip_trailing_slashes(path@) =~= strip_trailing_slashes(path@.take(end as int)),
        decreases end,
    {
        proof {
            let p = path@.take(end as int);
            assert(p.last() == path@[end - 1]);
            assert(p.drop_last() =~= path@.take(end - 1));
        }
        end = end - 1;
    }
    let ghost t = path@.take(end as int);
    proof {
        if end > 0 {
            assert(t.last() == path@[end - 1]);
        }
        assert(strip_trailing_slashes(t) =~= t);
        assert(t.take(end as int) =~= t);
        assert(t.skip(end as int) =~= Seq::<char>::empty());
        assert(slash_free_suffix(t) =~= slash_free_suffix(t.take(end as int)) + t.skip(
            end as int,
        ));
    }
    let mut start: usize = end;
    while start > 0 && path.get_char(start - 1) != '/'
        invariant
            n == path@.len(),
            start <= end <= n,
            t =~= path@.take(end as int),
            strip_trailing_slashes(path@) =~= t,
            slash_free_suffix(t) =~= slash_free_suffix(t.take(start as int)) + t.skip(
                start as int,
            ),
        decreases start,
    {
        proof {
            let p = t.take(start as int);
            assert(p.last() == path@[start - 1]);
            assert(p.drop_last() =~= t.take(start - 1));
            assert(slash_free_suffix(p) =~= slash_free_suffix(t.take(start - 1)) + seq![
                path@[start - 1],
            ]);
            assert(slash_free_suffix(t.take(start - 1)) + seq![path@[start - 1]] + t.skip(
                start as int,
            ) =~= slash_free_suffix(t.take(start - 1)) + t.skip(start - 1));
        }
        start = start - 1;
    }
    proof {
        let p = t.take(start as int);
        if start > 0 {
            assert(p.last() == path@[start - 1]);
            assert(slash_free_suffix(p) =~= Seq::<char>::empty());
        } else {
            assert(p =~= Seq::<char>::empty());
            assert(slash_free_suffix(p) =~= Seq::<char>::empty());
        }
        assert(last_component(path@) =~= t.skip(start as int));
        assert(t.skip(start as int) =~= path@.subrange(start as int, end as int));
    }
    path.substring_char(start, end).to_owned()
}

/// The project-scoped memory root for a repository path: the home directory,
/// the experiment subdirectory, and a human-readable project name — the last
/// path component, or the stable hash when the path has no usable component.
pub open spec fn project_memory_root_spec(home: Seq<char>, repo: Seq<char>) -> Seq<char> {
    let name = if last_component(repo).len() > 0 {
        last_component(repo)
    } else {
        hex16(path_hash(repo) as int, 16)
    };
    home + seq!['/'] + experiment_dir() + seq!['/'] + name
}

/// Derives the project-scoped memory root directory from the home directory
/// and the repository root (or working directory when there is no
/// repository).
pub fn get_project_memory_root(codex_home: &str, repo_root: &str) -> (r: String)
    ensures
        r@ =~= project_memory_root_spec(codex_home@, repo_root@),
{
    proof {
        reveal_strlit("/");
        assert("/"@ =~= seq!['/']);
    }
    let name = last_component_of(repo_root);
    let name = if name.as_str().unicode_len() > 0 {
        name
    } else {
        hex16_string(hash_path(repo_root))
    };
    let mut r = codex_home.to_owned();
    r.append("/");
    r.append("memories_experiment");
    r.append("/");
    r.append(name.as_str());
    r
}

/// Whether the memory experiment is active: either the feature flag is on,
/// or the project's memory directory carries a configuration file.
pub fn is_enabled(feature_flag_enabled: bool, project_config_exists: bool) -> (r: bool)
    ensures
        r == (feature_flag_enabled || project_config_exists),
{
    feature_flag_enabled || project_config_exists
}

/// Resolved experiment configuration with every default applied.
#[derive(Debug, Clone, PartialEq, Eq)]
pub struct ExperimentConfig {
    pub retrieval_model: String,
    pub retrieval_provider: Option<String>,
    pub retrieval_reasoning_effort: Option<ReasoningEffort>,
    pub archive_model: String,
    pub archive_provider: Option<String>,
    pub archive_reasoning_effort: Option<ReasoningEffort>,
    pub episodic_expiry_days: u32,
}

/// The hardcoded defaults: MiniMax for both sub-agents, thirty-day episodic
/// expiry, no reasoning-effort override.
pub open spec fn is_default_experiment_config(c: ExperimentConfig) -> bool {
    &&& c.retrieval_model@ =~= "MiniMax-M2.5"@
    &&& c.retrieval_provider matches Some(p) && p@ =~= "minimax"@
    &&& c.retrieval_reasoning_effort is None
    &&& c.archive_model@ =~= "MiniMax-M2.5"@
    &&& c.archive_provider matches Some(p) && p@ =~= "minimax"@
    &&& c.archive_reasoning_effort is None
    &&& c.episodic_expiry_days == 30u32
}

/// The default model of the retrieval sub-agent.
pub fn default_retrieval_model() -> (r: String)
    ensures
        r@ =~= "MiniMax-M2.5"@,
{
    "MiniMax-M2.5".to_owned()
}

/// The default provider of the retrieval sub-agent.
pub fn default_retrieval_provider() -> (r: Option<String>)
    ensures
        r matches Some(p) && p@ =~= "minimax"@,
{
    Some("minimax".to_owned())
}

/// The default model of the archive sub-agent.
pub fn default_archive_model() -> (r: String)
    ensures
        r@ =~= "MiniMax-M2.5"@,
{
    "MiniMax-M2.5".to_owned()
}

/// The default provider of the archive sub-agent.
pub fn default_archive_provider() -> (r: Option<String>)
    ensures
        r matches Some(p) && p@ =~= "minimax"@,
{
    Some("minimax".to_owned())
}

/// The default lifetime of an episodic memory, in days.
pub fn default_episodic_expiry_days() -> (r: u32)
    ensures
        r == 30u32,
{
    30
}

impl Default for ExperimentConfig {
    /// The configuration with every hardcoded default.
    fn default() -> (r: ExperimentConfig)
        ensures
            is_default_experiment_config(r),
    {
        ExperimentConfig {
            retrieval_model: default_retrieval_model(),
            retrieval_provider: default_retrieval_provider(),
            retrieval_reasoning_effort: None,
            archive_model: default_archive_model(),
            archive_provider: default_archive_provider(),
            archive_reasoning_effort: None,
            episodic_expiry_days: default_episodic_expiry_days(),
        }
    }
}

/// One raw configuration layer, as read from a single file.  Every field is
/// optional so that "explicitly set" and "missing" stay distinguishable
/// during merging.
#[derive(Debug, Clone, PartialEq, Eq)]
pub struct ExperimentConfigRaw {
    pub retrieval_model: Option<String>,
    pub retrieval_provider: Option<String>,
    pub retrieval_reasoning_effort: Option<ReasoningEffort>,
    pub archive_model: Option<String>,
    pub archive_provider: Option<String>,
    pub archive_reasoning_effort: Option<ReasoningEffort>,
    pub episodic_expiry_days: Option<u32>,
}

impl Default for ExperimentConfigRaw {
    /// The empty layer: nothing set.
    fn default() -> (r: ExperimentConfigRaw)
        ensures
            r.retrieval_model is None,
            r.retrieval_provider is None,
            r.retrieval_reasoning_effort is None,
            r.archive_model is None,
            r.archive_provider is None,
            r.archive_reasoning_effort is None,
            r.episodic_expiry_days is None,
    {
        ExperimentConfigRaw {
            retrieval_model: None,
            retrieval_provider: None,
            retrieval_reasoning_effort: None,
            archive_model: None,
            archive_provider: None,
            archive_reasoning_effort: None,
            episodic_expiry_days: None,
        }
    }
}

impl ExperimentConfigRaw {
    /// Merges `other` on top of `self`: a field set in `other` wins, one set
    /// only in `self` fills the gap.
    pub fn merge(self, other: ExperimentConfigRaw) -> (r: ExperimentConfigRaw)
        ensures
            r.retrieval_model == (if other.retrieval_model is Some {
                other.retrieval_model
            } else {
                self.retrieval_model
            }),
            r.retrieval_provider == (if other.retrieval_provider is Some {
                other.retrieval_provider
            } else {
                self.retrieval_provider
            }),
            r.retrieval_reasoning_effort == (if other.retrieval_reasoning_effort is Some {
                other.retrieval_reasoning_effort
            } else {
                self.retrieval_reasoning_effort
            }),
            r.archive_model == (if other.archive_model is Some {
                other.archive_model
            } else {
                self.archive_model
            }),
            r.archive_provider == (if other.archive_provider is Some {
                other.archive_provider
            } else {
                self.archive_provider
            }),
            r.archive_reasoning_effort == (if other.archive_reasoning_effort is Some {
                other.archive_reasoning_effort
            } else {
                self.archive_reasoning_effort
            }),
            r.episodic_expiry_days == (if other.episodic_expiry_days is Some {
                other.episodic_expiry_days
            } else {
                self.episodic_expiry_days
            }),
    {
        ExperimentConfigRaw {
            retrieval_model: match other.retrieval_model {
                Some(v) => Some(v),
                None => self.retrieval_model,
            },
            retrieval_provider: match other.retrieval_provider {
                Some(v) => Some(v),
                None => self.retrieval_provider,
            },
            retrieval_reasoning_effort: match other.retrieval_reasoning_effort {
                Some(v) => Some(v),
                None => self.retrieval_reasoning_effort,
            },
            archive_model: match other.archive_model {
                Some(v) => Some(v),
                None => self.archive_model,
            },
            archive_provider: match other.archive_provider {
                Some(v) => Some(v),
                None => self.archive_provider,
            },
            archive_reasoning_effort: match other.archive_reasoning_effort {
                Some(v) => Some(v),
                None => self.archive_reasoning_effort,
            },
            episodic_expiry_days: match other.episodic_expiry_days {
                Some(v) => Some(v),
                None => self.episodic_expiry_days,
            },
        }
    }

    /// Applies the hardcoded defaults to every unset field, yielding the
    /// resolved configuration.
    pub fn into_config(self) -> (r: ExperimentConfig)
        ensures
            r.retrieval_model@ =~= (match self.retrieval_model {
                Some(v) => v@,
                None => "MiniMax-M2.5"@,
            }),
            r.retrieval_provider == (if self.retrieval_provider is Some {
                self.retrieval_provider
            } else {
                r.retrieval_provider
            }),
            self.retrieval_provider is None ==> (r.retrieval_provider matches Some(p) && p@
                =~= "minimax"@),
            r.retrieval_reasoning_effort == self.retrieval_reasoning_effort,
            r.archive_model@ =~= (match self.archive_model {
                Some(v) => v@,
                None => "MiniMax-M2.5"@,
            }),
            r.archive_provider == (if self.archive_provider is Some {
                self.archive_provider
            } else {
                r.archive_provider
            }),
            self.archive_provider is None ==> (r.archive_provider matches Some(p) && p@
                =~= "minimax"@),
            r.archive_reasoning_effort == self.archive_reasoning_effort,
            r.episodic_expiry_days == (match self.episodic_expiry_days {
                Some(v) => v,
                None => 30u32,
            }),
    {
        ExperimentConfig {
            retrieval_model: match self.retrieval_model {
                Some(v) => v,
                None => default_retrieval_model(),
            },
            retrieval_provider: match self.retrieval_provider {
                Some(v) => Some(v),
                None => default_retrieval_provider(),
            },
            retrieval_reasoning_effort: self.retrieval_reasoning_effort,
            archive_model: match self.archive_model {
                Some(v) => v,
                None => default_archive_model(),
            },
            archive_provider: match self.archive_provider {
                Some(v) => Some(v),
                None => default_archive_provider(),
            },
            archive_reasoning_effort: self.archive_reasoning_effort,
            episodic_expiry_days: match self.episodic_expiry_days {
                Some(v) => v,
                None => default_episodic_expiry_days(),
            },
        }
    }
}

/// The sub-agent configuration fields that model overrides touch.
#[derive(Debug, Clone, PartialEq, Eq)]
pub struct SubAgentConfig {
    pub model: Option<String>,
    pub model_provider_id: String,
    pub model_provider: ModelProviderInfo,
    pub model_reasoning_effort: Option<ReasoningEffort>,
    pub model_providers: Vec<(String, ModelProviderInfo)>,
}

/// Applies model, provider and reasoning-effort overrides to a sub-agent
/// configuration: the model is set unconditionally; the provider only when
/// the given id is registered; the reasoning effort only when given.
pub fn apply_model_override(
    config: &mut SubAgentConfig,
    model: &str,
    provider_id: Option<&str>,
    reasoning_effort: Option<ReasoningEffort>,
)
    ensures
        final(config).model matches Some(m) && m@ =~= model@,
        final(config).model_providers@ =~= old(config).model_providers@,
        final(config).model_reasoning_effort == (if reasoning_effort is Some {
            reasoning_effort
        } else {
            old(config).model_reasoning_effort
        }),
        (match provider_id {
            Some(pid) => match provider_pos(old(config).model_providers@, pid@) {
                Some(pos) => final(config).model_provider_id@ =~= pid@
                    && crate::providers::provider_eq(
                    final(config).model_provider,
                    old(config).model_providers@[pos].1,
                ),
                None => final(config).model_provider_id == old(config).model_provider_id && final(config).model_provider == old(config).model_provider,
            },
            None => final(config).model_provider_id == old(config).model_provider_id && final(config).model_provider == old(config).model_provider,
        }),
{
    config.model = Some(model.to_owned());
    if let Some(pid) = provider_id {
        let n = config.model_providers.len();
        let mut i: usize = 0;
        let mut found: Option<usize> = None;
        while i < n && found.is_none()
            invariant
                n == config.model_providers@.len(),
                i <= n,
                config.model_provider_id == old(config).model_provider_id,
                config.model_provider == old(config).model_provider,
                config.model_providers == old(config).model_providers,
                config.model_reasoning_effort == old(config).model_reasoning_effort,
                config.model matches Some(m) && m@ =~= model@,
                (match found {
                    Some(p) => provider_pos(config.model_providers@, pid@) == Some(
                        p as int,
                    ) && p < n,
                    None => provider_pos(config.model_providers@, pid@) == provider_pos_from(
                        config.model_providers@,
                        pid@,
                        i as int,
                    ),
                }),
            decreases n - i, (if found is None { 1int } else { 0int }),
        {
            if str_eq(config.model_providers[i].0.as_str(), pid) {
                proof {
                    assert(config.model_providers@[i as int].0@ =~= pid@);
                }
                found = Some(i);
            } else {
                proof {
                    assert(!(config.model_providers@[i as int].0@ =~= pid@));
                }
                i = i + 1;
            }
        }
        if let Some(p) = found {
            let provider = crate::providers::clone_provider(&config.model_providers[p].1);
            config.model_provider = provider;
            config.model_provider_id = pid.to_owned();
        }
    }
    if let Some(effort) = reasoning_effort {
        config.model_reasoning_effort = Some(effort);
    }
}

} // verus!
