//! The validated configuration store. Reading the file, writing it back
//! and finding the home directory happen outside; the typed fields, the
//! key set, and what `get`/`set` do for every key are pinned down here.
use vstd::prelude::*;

verus! {

use vstd::string::StringExecFns;
use crate::text::str_eq;
use crate::text::starts_with_seq;
use crate::text::chars_of;
use crate::text::push_chars;

/// The daemon's settings, one typed field per key.
#[derive(Debug, Clone)]
pub struct Config {
    pub socket_path: String,
    pub default_model: String,
    pub rag_model: String,
    pub skills_dirs: Vec<String>,
    pub initial_skills: Vec<String>,
    pub banned_skills: Vec<String>,
    pub proactive_interval_secs: u64,
    pub log_level: String,
    pub tool_run_dir: String,
    pub tool_output_lines: u64,
    pub proxy_url: Option<String>,
}

/// The mathematical value of a `Config`.
pub struct ConfigView {
    pub socket_path: Seq<char>,
    pub default_model: Seq<char>,
    pub rag_model: Seq<char>,
    pub skills_dirs: Seq<Seq<char>>,
    pub initial_skills: Seq<Seq<char>>,
    pub banned_skills: Seq<Seq<char>>,
    pub proactive_interval_secs: u64,
    pub log_level: Seq<char>,
    pub tool_run_dir: Seq<char>,
    pub tool_output_lines: u64,
    pub proxy_url: Option<Seq<char>>,
}

pub open spec fn opt_text_view(o: Option<String>) -> Option<Seq<char>> {
    match o {
        Some(s) => Some(s@),
        None => None,
    }
}

impl View for Config {
    type V = ConfigView;

    open spec fn view(&self) -> ConfigView {
        ConfigView {
            socket_path: self.socket_path@,
            default_model: self.default_model@,
            rag_model: self.rag_model@,
            skills_dirs: self.skills_dirs.deep_view(),
            initial_skills: self.initial_skills.deep_view(),
            banned_skills: self.banned_skills.deep_view(),
            proactive_interval_secs: self.proactive_interval_secs,
            log_level: self.log_level@,
            tool_run_dir: self.tool_run_dir@,
            tool_output_lines: self.tool_output_lines,
            proxy_url: opt_text_view(self.proxy_url),
        }
    }
}

/// One configuration value as the protocol carries it.
#[derive(Debug, Clone)]
pub enum ConfigValue {
    Text(String),
    TextList(Vec<String>),
    Count(u64),
    OptText(Option<String>),
}

/// The mathematical value of a `ConfigValue`.
pub enum ConfigValueView {
    Text(Seq<char>),
    TextList(Seq<Seq<char>>),
    Count(u64),
    OptText(Option<Seq<char>>),
}

impl View for ConfigValue {
    type V = ConfigValueView;

    open spec fn view(&self) -> ConfigValueView {
        match self {
            ConfigValue::Text(t) => ConfigValueView::Text(t@),
            ConfigValue::TextList(l) => ConfigValueView::TextList(l.deep_view()),
            ConfigValue::Count(n) => ConfigValueView::Count(*n),
            ConfigValue::OptText(o) => ConfigValueView::OptText(opt_text_view(*o)),
        }
    }
}

/// Why a configuration access failed.
#[derive(Debug, Clone, Copy, PartialEq, Eq, Structural)]
pub enum ConfigError {
    UnknownKey,
    InvalidValue,
}

/// The configuration keys, in their listed order.
pub open spec fn config_keys() -> Seq<Seq<char>> {
    seq![
        "socket_path"@,
        "default_model"@,
        "rag_model"@,
        "skills_dirs"@,
        "initial_skills"@,
        "banned_skills"@,
        "proactive_interval_secs"@,
        "log_level"@,
        "tool_run_dir"@,
        "tool_output_lines"@,
        "proxy_url"@,
    ]
}

pub open spec fn key_is_known(key: Seq<char>) -> bool {
    config_keys().contains(key)
}

impl Config {
    /// The key set, for the `config list` reply.
    pub fn get_keys() -> (r: Vec<String>)
        ensures
            r.deep_view() == config_keys(),
    {
        let mut v: Vec<String> = Vec::new();
        v.push(String::from_str("socket_path"));
        v.push(String::from_str("default_model"));
        v.push(String::from_str("rag_model"));
        v.push(String::from_str("skills_dirs"));
        v.push(String::from_str("initial_skills"));
        v.push(String::from_str("banned_skills"));
        v.push(String::from_str("proactive_interval_secs"));
        v.push(String::from_str("log_level"));
        v.push(String::from_str("tool_run_dir"));
        v.push(String::from_str("tool_output_lines"));
        v.push(String::from_str("proxy_url"));
        assert(v.deep_view() =~= config_keys());
        v
    }

    /// The value under `key`; an unknown key is the one error.
    pub fn get_value(&self, key: &str) -> (r: Result<ConfigValue, ConfigError>)
        ensures
            r is Ok <==> key_is_known(key@),
            r is Err ==> r == Err::<ConfigValue, ConfigError>(ConfigError::UnknownKey),
            key@ == "socket_path"@ ==> (r matches Ok(ConfigValue::Text(t)) && t@
                == self@.socket_path),
            key@ == "default_model"@ ==> (r matches Ok(ConfigValue::Text(t)) && t@
                == self@.default_model),
            key@ == "rag_model"@ ==> (r matches Ok(ConfigValue::Text(t)) && t@ == self@.rag_model),
            key@ == "skills_dirs"@ ==> (r matches Ok(ConfigValue::TextList(l)) && l.deep_view()
                == self@.skills_dirs),
            key@ == "initial_skills"@ ==> (r matches Ok(ConfigValue::TextList(l)) && l.deep_view()
                == self@.initial_skills),
            key@ == "banned_skills"@ ==> (r matches Ok(ConfigValue::TextList(l)) && l.deep_view()
                == self@.banned_skills),
            key@ == "proactive_interval_secs"@ ==> (r matches Ok(ConfigValue::Count(n)) && n
                == self@.proactive_interval_secs),
            key@ == "log_level"@ ==> (r matches Ok(ConfigValue::Text(t)) && t@ == self@.log_level),
            key@ == "tool_run_dir"@ ==> (r matches Ok(ConfigValue::Text(t)) && t@
                == self@.tool_run_dir),
            key@ == "tool_output_lines"@ ==> (r matches Ok(ConfigValue::Count(n)) && n
                == self@.tool_output_lines),
            key@ == "proxy_url"@ ==> (r matches Ok(ConfigValue::OptText(o)) && opt_text_view(o)
                == self@.proxy_url),
    {
        proof {
            reveal_strlit("socket_path");
            reveal_strlit("default_model");
            reveal_strlit("rag_model");
            reveal_strlit("skills_dirs");
            reveal_strlit("initial_skills");
            reveal_strlit("banned_skills");
            reveal_strlit("proactive_interval_secs");
            reveal_strlit("log_level");
            reveal_strlit("tool_run_dir");
            reveal_strlit("tool_output_lines");
            reveal_strlit("proxy_url");
            assert("socket_path"@[1] == 'o' && "skills_dirs"@[1] == 'k');
            assert("socket_path"@ != "skills_dirs"@);
            assert("default_model"@[0] == 'd' && "banned_skills"@[0] == 'b');
            assert("default_model"@ != "banned_skills"@);
            assert("rag_model"@[0] == 'r' && "log_level"@[0] == 'l' && "proxy_url"@[0] == 'p');
            assert("rag_model"@ != "log_level"@);
            assert("rag_model"@ != "proxy_url"@);
            assert("log_level"@ != "proxy_url"@);
        }
        proof {
            assert(key_is_known(key@) ==> (key@ == "socket_path"@ || key@ == "default_model"@
                || key@ == "rag_model"@ || key@ == "skills_dirs"@ || key@ == "initial_skills"@
                || key@ == "banned_skills"@ || key@ == "proactive_interval_secs"@ || key@
                == "log_level"@ || key@ == "tool_run_dir"@ || key@ == "tool_output_lines"@ || key@
                == "proxy_url"@));
        }
        if str_eq(key, "socket_path") {
            assert(config_keys()[0] == key@);
            Ok(ConfigValue::Text(self.socket_path.clone()))
        } else if str_eq(key, "default_model") {
            assert(config_keys()[1] == key@);
            Ok(ConfigValue::Text(self.default_model.clone()))
        } else if str_eq(key, "rag_model") {
            assert(config_keys()[2] == key@);
            Ok(ConfigValue::Text(self.rag_model.clone()))
        } else if str_eq(key, "skills_dirs") {
            assert(config_keys()[3] == key@);
            Ok(ConfigValue::TextList(clone_text_list(&self.skills_dirs)))
        } else if str_eq(key, "initial_skills") {
            assert(config_keys()[4] == key@);
            Ok(ConfigValue::TextList(clone_text_list(&self.initial_skills)))
        } else if str_eq(key, "banned_skills") {
            assert(config_keys()[5] == key@);
            Ok(ConfigValue::TextList(clone_text_list(&self.banned_skills)))
        } else if str_eq(key, "proactive_interval_secs") {
            assert(config_keys()[6] == key@);
            Ok(ConfigValue::Count(self.proactive_interval_secs))
        } else if str_eq(key, "log_level") {
            assert(config_keys()[7] == key@);
            Ok(ConfigValue::Text(self.log_level.clone()))
        } else if str_eq(key, "tool_run_dir") {
            assert(config_keys()[8] == key@);
            Ok(ConfigValue::Text(self.tool_run_dir.clone()))
        } else if str_eq(key, "tool_output_lines") {
            assert(config_keys()[9] == key@);
            Ok(ConfigValue::Count(self.tool_output_lines))
        } else if str_eq(key, "proxy_url") {
            assert(config_keys()[10] == key@);
            Ok(ConfigValue::OptText(clone_opt_text(&self.proxy_url)))
        } else {
            Err(ConfigError::UnknownKey)
        }
    }

    /// Replaces the value under `key`, leaving every other field as it
    /// was. An unknown key and a value of the wrong shape are the only
    /// errors, and on error nothing changes. The caller persists the
    /// store after a successful change.
    pub fn set_value(&mut self, key: &str, value: ConfigValue) -> (r: Result<(), ConfigError>)
        ensures
            !key_is_known(key@) ==> r == Err::<(), ConfigError>(ConfigError::UnknownKey)
                && final(self)@ == old(self)@,
            r is Err ==> final(self)@ == old(self)@,
            key@ == "socket_path"@ ==> (match value {
                ConfigValue::Text(t) => r is Ok && final(self)@ == (ConfigView {
                    socket_path: t@,
                    ..old(self)@
                }),
                _ => r == Err::<(), ConfigError>(ConfigError::InvalidValue),
            }),
            key@ == "default_model"@ ==> (match value {
                ConfigValue::Text(t) => r is Ok && final(self)@ == (ConfigView {
                    default_model: t@,
                    ..old(self)@
                }),
                _ => r == Err::<(), ConfigError>(ConfigError::InvalidValue),
            }),
            key@ == "rag_model"@ ==> (match value {
                ConfigValue::Text(t) => r is Ok && final(self)@ == (ConfigView {
                    rag_model: t@,
                    ..old(self)@
                }),
                _ => r == Err::<(), ConfigError>(ConfigError::InvalidValue),
            }),
            key@ == "skills_dirs"@ ==> (match value {
                ConfigValue::TextList(l) => r is Ok && final(self)@ == (ConfigView {
                    skills_dirs: l.deep_view(),
                    ..old(self)@
                }),
                _ => r == Err::<(), ConfigError>(ConfigError::InvalidValue),
            }),
            key@ == "initial_skills"@ ==> (match value {
                ConfigValue::TextList(l) => r is Ok && final(self)@ == (ConfigView {
                    initial_skills: l.deep_view(),
                    ..old(self)@
                }),
                _ => r == Err::<(), ConfigError>(ConfigError::InvalidValue),
            }),
            key@ == "banned_skills"@ ==> (match value {
                ConfigValue::TextList(l) => r is Ok && final(self)@ == (ConfigView {
                    banned_skills: l.deep_view(),
                    ..old(self)@
                }),
                _ => r == Err::<(), ConfigError>(ConfigError::InvalidValue),
            }),
            key@ == "proactive_interval_secs"@ ==> (match value {
                ConfigValue::Count(n) => r is Ok && final(self)@ == (ConfigView {
                    proactive_interval_secs: n,
                    ..old(self)@
                }),
                _ => r == Err::<(), ConfigError>(ConfigError::InvalidValue),
            }),
            key@ == "log_level"@ ==> (match value {
                ConfigValue::Text(t) => r is Ok && final(self)@ == (ConfigView {
                    log_level: t@,
                    ..old(self)@
                }),
                _ => r == Err::<(), ConfigError>(ConfigError::InvalidValue),
            }),
            key@ == "tool_run_dir"@ ==> (match value {
                ConfigValue::Text(t) => r is Ok && final(self)@ == (ConfigView {
                    tool_run_dir: t@,
                    ..old(self)@
                }),
                _ => r == Err::<(), ConfigError>(ConfigError::InvalidValue),
            }),
            key@ == "tool_output_lines"@ ==> (match value {
                ConfigValue::Count(n) => r is Ok && final(self)@ == (ConfigView {
                    tool_output_lines: n,
                    ..old(self)@
                }),
                _ => r == Err::<(), ConfigError>(ConfigError::InvalidValue),
            }),
            key@ == "proxy_url"@ ==> (match value {
                ConfigValue::OptText(o) => r is Ok && final(self)@ == (ConfigView {
                    proxy_url: opt_text_view(o),
                    ..old(self)@
                }),
                ConfigValue::Text(t) => r is Ok && final(self)@ == (ConfigView {
                    proxy_url: Some(t@),
                    ..old(self)@
                }),
                _ => r == Err::<(), ConfigError>(ConfigError::InvalidValue),
            }),
    {
        proof {
            reveal_strlit("socket_path");
            reveal_strlit("default_model");
            reveal_strlit("rag_model");
            reveal_strlit("skills_dirs");
            reveal_strlit("initial_skills");
            reveal_strlit("banned_skills");
            reveal_strlit("proactive_interval_secs");
            reveal_strlit("log_level");
            reveal_strlit("tool_run_dir");
            reveal_strlit("tool_output_lines");
            reveal_strlit("proxy_url");
            assert("socket_path"@[1] == 'o' && "skills_dirs"@[1] == 'k');
            assert("socket_path"@ != "skills_dirs"@);
            assert("default_model"@[0] == 'd' && "banned_skills"@[0] == 'b');
            assert("default_model"@ != "banned_skills"@);
            assert("rag_model"@[0] == 'r' && "log_level"@[0] == 'l' && "proxy_url"@[0] == 'p');
            assert("rag_model"@ != "log_level"@);
            assert("rag_model"@ != "proxy_url"@);
            assert("log_level"@ != "proxy_url"@);
        }
        proof {
            assert(key_is_known(key@) ==> (key@ == "socket_path"@ || key@ == "default_model"@
                || key@ == "rag_model"@ || key@ == "skills_dirs"@ || key@ == "initial_skills"@
                || key@ == "banned_skills"@ || key@ == "proactive_interval_secs"@ || key@
                == "log_level"@ || key@ == "tool_run_dir"@ || key@ == "tool_output_lines"@ || key@
                == "proxy_url"@));
        }
        if str_eq(key, "socket_path") {
            assert(config_keys()[0] == key@);
            match value {
                ConfigValue::Text(t) => {
                    self.socket_path = t;
                    Ok(())
                },
                _ => Err(ConfigError::InvalidValue),
            }
        } else if str_eq(key, "default_model") {
            assert(config_keys()[1] == key@);
            match value {
                ConfigValue::Text(t) => {
                    self.default_model = t;
                    Ok(())
                },
                _ => Err(ConfigError::InvalidValue),
            }
        } else if str_eq(key, "rag_model") {
            assert(config_keys()[2] == key@);
            match value {
                ConfigValue::Text(t) => {
                    self.rag_model = t;
                    Ok(())
                },
                _ => Err(ConfigError::InvalidValue),
            }
        } else if str_eq(key, "skills_dirs") {
            assert(config_keys()[3] == key@);
            match value {
                ConfigValue::TextList(l) => {
                    self.skills_dirs = l;
                    Ok(())
                },
                _ => Err(ConfigError::InvalidValue),
            }
        } else if str_eq(key, "initial_skills") {
            assert(config_keys()[4] == key@);
            match value {
                ConfigValue::TextList(l) => {
                    self.initial_skills = l;
                    Ok(())
                },
                _ => Err(ConfigError::InvalidValue),
            }
        } else if str_eq(key, "banned_skills") {
            assert(config_keys()[5] == key@);
            match value {
                ConfigValue::TextList(l) => {
                    self.banned_skills = l;
                    Ok(())
                },
                _ => Err(ConfigError::InvalidValue),
            }
        } else if str_eq(key, "proactive_interval_secs") {
            assert(config_keys()[6] == key@);
            match value {
                ConfigValue::Count(n) => {
                    self.proactive_interval_secs = n;
                    Ok(())
                },
                _ => Err(ConfigError::InvalidValue),
            }
        } else if str_eq(key, "log_level") {
            assert(config_keys()[7] == key@);
            match value {
                ConfigValue::Text(t) => {
                    self.log_level = t;
                    Ok(())
                },
                _ => Err(ConfigError::InvalidValue),
            }
        } else if str_eq(key, "tool_run_dir") {
            assert(config_keys()[8] == key@);
            match value {
                ConfigValue::Text(t) => {
                    self.tool_run_dir = t;
                    Ok(())
                },
                _ => Err(ConfigError::InvalidValue),
            }
        } else if str_eq(key, "tool_output_lines") {
            assert(config_keys()[9] == key@);
            match value {
                ConfigValue::Count(n) => {
                    self.tool_output_lines = n;
                    Ok(())
                },
                _ => Err(ConfigError::InvalidValue),
            }
        } else if str_eq(key, "proxy_url") {
            assert(config_keys()[10] == key@);
            match value {
                ConfigValue::OptText(o) => {
                    self.proxy_url = o;
                    Ok(())
                },
                ConfigValue::Text(t) => {
                    self.proxy_url = Some(t);
                    Ok(())
                },
                _ => Err(ConfigError::InvalidValue),
            }
        } else {
            Err(ConfigError::UnknownKey)
        }
    }
    /// Adds a skill to the global ban list; a name already banned is kept
    /// once, and nothing else changes. The caller persists the store when
    /// the list changed.
    pub fn ban_skill(&mut self, name: &str) -> (changed: bool)
        ensures
            old(self)@.banned_skills.contains(name@) ==> !changed && final(self)@ == old(self)@,
            !old(self)@.banned_skills.contains(name@) ==> changed && final(self)@ == (ConfigView {
                banned_skills: old(self)@.banned_skills.push(name@),
                ..old(self)@
            }),
    {
        let mut i: usize = 0;
        while i < self.banned_skills.len()
            invariant
                i <= self.banned_skills@.len(),
                self == old(self),
                forall|k: int| 0 <= k < i ==> self@.banned_skills[k] != name@,
                self@.banned_skills.len() == self.banned_skills@.len(),
                forall|k: int|
                    0 <= k < self.banned_skills@.len() ==> self@.banned_skills[k]
                        == self.banned_skills@[k]@,
            decreases self.banned_skills@.len() - i,
        {
            if str_eq(self.banned_skills[i].as_str(), name) {
                assert(self@.banned_skills[i as int] == name@);
                return false;
            }
            i = i + 1;
        }
        assert(!self@.banned_skills.contains(name@));
        let entry = String::from_str(name);
        self.banned_skills.push(entry);
        assert(self@.banned_skills =~= old(self)@.banned_skills.push(name@));
        true
    }

    /// Removes every occurrence of a skill from the global ban list;
    /// nothing else changes. The caller persists the store.
    pub fn unban_skill(&mut self, name: &str)
        ensures
            final(self)@ == (ConfigView {
                banned_skills: old(self)@.banned_skills.filter(|x: Seq<char>| x != name@),
                ..old(self)@
            }),
    {
        let mut kept: Vec<String> = Vec::new();
        let mut j: usize = 0;
        proof {
            reveal(Seq::filter);
            assert(self.banned_skills.deep_view().subrange(0, 0) =~= Seq::<Seq<char>>::empty());
            assert(kept.deep_view() =~= self.banned_skills.deep_view().subrange(0, 0).filter(
                |x: Seq<char>| x != name@,
            ));
        }
        while j < self.banned_skills.len()
            invariant
                j <= self.banned_skills@.len(),
                self == old(self),
                self.banned_skills.deep_view().len() == self.banned_skills@.len(),
                forall|k: int|
                    0 <= k < self.banned_skills@.len() ==> self.banned_skills.deep_view()[k]
                        == self.banned_skills@[k]@,
                kept.deep_view() == self.banned_skills.deep_view().subrange(0, j as int).filter(
                    |x: Seq<char>| x != name@,
                ),
            decreases self.banned_skills@.len() - j,
        {
            proof {
                reveal(Seq::filter);
                let pre = self.banned_skills.deep_view().subrange(0, j as int);
                let ext = self.banned_skills.deep_view().subrange(0, j + 1 as int);
                assert(ext.drop_last() =~= pre);
                assert(ext.last() == self.banned_skills@[j as int]@);
            }
            if !str_eq(self.banned_skills[j].as_str(), name) {
                let entry = self.banned_skills[j].clone();
                kept.push(entry);
                assert(kept.deep_view() =~= self.banned_skills.deep_view().subrange(
                    0,
                    j + 1 as int,
                ).filter(|x: Seq<char>| x != name@));
            }
            j = j + 1;
            assert(kept.deep_view() =~= self.banned_skills.deep_view().subrange(0, j as int).filter(
                |x: Seq<char>| x != name@,
            ));
        }
        proof {
            assert(self.banned_skills.deep_view().subrange(0, j as int)
                =~= self.banned_skills.deep_view());
        }
        self.banned_skills = kept;
    }
}

impl Default for Config {
    /// The settings a fresh installation starts from.
    fn default() -> (r: Config)
        ensures
            r@.socket_path == "/tmp/ruster.sock"@,
            r@.default_model == "ollama/llama3.2"@,
            r@.rag_model == "ollama/nomic-embed-text"@,
            r@.skills_dirs == seq!["~/.config/ruster/skills"@, "/usr/share/ruster/skills"@],
            r@.initial_skills == Seq::<Seq<char>>::empty(),
            r@.banned_skills == Seq::<Seq<char>>::empty(),
            r@.proactive_interval_secs == 300,
            r@.log_level == "info"@,
            r@.tool_run_dir == "~/.var/app/ruster"@,
            r@.tool_output_lines == 50,
            r@.proxy_url == Some("http://localhost:8080"@),
    {
        let mut skills_dirs: Vec<String> = Vec::new();
        skills_dirs.push(String::from_str("~/.config/ruster/skills"));
        skills_dirs.push(String::from_str("/usr/share/ruster/skills"));
        let r = Config {
            socket_path: String::from_str("/tmp/ruster.sock"),
            default_model: String::from_str("ollama/llama3.2"),
            rag_model: String::from_str("ollama/nomic-embed-text"),
            skills_dirs,
            initial_skills: Vec::new(),
            banned_skills: Vec::new(),
            proactive_interval_secs: 300,
            log_level: String::from_str("info"),
            tool_run_dir: String::from_str("~/.var/app/ruster"),
            tool_output_lines: 50,
            proxy_url: Some(String::from_str("http://localhost:8080")),
        };
        assert(r@.skills_dirs =~= seq!["~/.config/ruster/skills"@, "/usr/share/ruster/skills"@]);
        assert(r@.initial_skills =~= Seq::<Seq<char>>::empty());
        assert(r@.banned_skills =~= Seq::<Seq<char>>::empty());
        r
    }
}

/// What a path means under the user's home directory: `~` alone is the
/// home, a `~/` prefix is replaced by it, anything else is kept as it is
/// (also when no home directory is known).
pub open spec fn expand_path_seq(p: Seq<char>, home: Option<Seq<char>>) -> Seq<char> {
    match home {
        Some(h) => if p == "~"@ {
            h
        } else if starts_with_seq(p, "~/"@) {
            h + p.skip(1)
        } else {
            p
        },
        None => p,
    }
}

/// Expands a leading `~` against the given home directory, exactly as
/// `expand_path_seq` says.
pub fn expand_path(path: &str, home: Option<&str>) -> (r: String)
    ensures
        r@ == expand_path_seq(
            path@,
            match home {
                Some(h) => Some(h@),
                None => None,
            },
        ),
{
    match home {
        None => String::from_str(path),
        Some(h) => {
            if str_eq(path, "~") {
                String::from_str(h)
            } else {
                let pv = chars_of(path);
                let tv = chars_of("~/");
                if crate::text::slice_starts_at(pv.as_slice(), 0, tv.as_slice()) {
                    assert(pv@.skip(0) =~= path@);
                    let mut out = String::from_str(h);
                    proof {
                        reveal_strlit("~/");
                        assert("~/"@.len() == 2);
                    }
                    let rest = vstd::slice::slice_subrange(pv.as_slice(), 1, pv.len());
                    push_chars(&mut out, rest);
                    assert(rest@ =~= path@.skip(1));
                    assert(out@ =~= h@ + path@.skip(1));
                    out
                } else {
                    assert(pv@.skip(0) =~= path@);
                    String::from_str(path)
                }
            }
        },
    }
}

/// A copy of a string list, entry for entry.
pub fn clone_text_list(v: &Vec<String>) -> (r: Vec<String>)
    ensures
        r.deep_view() == v.deep_view(),
{
    let mut out: Vec<String> = Vec::new();
    let mut i: usize = 0;
    while i < v.len()
        invariant
            i <= v@.len(),
            v.deep_view().len() == v@.len(),
            forall|k: int| 0 <= k < v@.len() ==> v.deep_view()[k] == v@[k]@,
            out.deep_view() == v.deep_view().subrange(0, i as int),
        decreases v@.len() - i,
    {
        let entry = v[i].clone();
        let ghost pre = out.deep_view();
        out.push(entry);
        assert(out.deep_view() =~= pre.push(v@[i as int]@));
        assert(out.deep_view() =~= v.deep_view().subrange(0, i + 1 as int));
        i = i + 1;
    }
    assert(v.deep_view().subrange(0, i as int) =~= v.deep_view());
    out
}

/// A copy of an optional string.
pub fn clone_opt_text(o: &Option<String>) -> (r: Option<String>)
    ensures
        (r matches Some(s) && *o matches Some(t) && s@ == t@) || (r is None && o is None),
{
    match o {
        Some(s) => Some(s.clone()),
        None => None,
    }
}

} // verus!
