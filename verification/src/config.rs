//! Normalized configuration values handed in by the configuration
//! provider: the list of long-running processes and the map of one-off
//! tasks. Reading and parsing the on-disk formats is the provider's job;
//! the library works on these plain values.
use crate::strutil::{chars_string, str_chars, trimmed, trimmed_range};
use vstd::prelude::*;
use vstd::string::StringExecFns;

verus! {

/// One long-running process to supervise.
#[derive(Debug, Clone)]
pub struct ProcessConfig {
    pub name: String,
    pub command: String,
    pub stdout_log: Option<String>,
    pub stderr_log: Option<String>,
    pub cwd: Option<String>,
}

/// The unit of work of a task.
#[derive(Debug, Clone)]
pub enum TaskKind {
    /// A shell task executes a command, optionally in a working directory.
    Shell { cmd: String, cwd: Option<String> },
    /// A composite task triggers other tasks, optionally in parallel.
    Composite { children: Vec<String>, parallel: bool },
}

#[derive(Debug, Clone)]
pub struct TaskConfig {
    pub kind: TaskKind,
}

/// Which configuration file a project uses.
#[derive(Debug, Clone, Copy, PartialEq, Eq, Structural)]
pub enum ConfigSource {
    ProcToml,
    Procfile,
}

/// Why a configuration could not be used. Message texts of the underlying
/// reader or parser are carried as plain strings.
#[derive(Debug, Clone)]
pub enum ConfigError {
    NoConfigFile,
    FileReadError { message: String },
    TomlParseError { message: String },
    EmptyProcfile,
    InvalidTask { task: String, reason: String },
}

/// The user-facing description of a configuration error.
pub open spec fn spec_config_error_message(e: ConfigError) -> Seq<char> {
    match e {
        ConfigError::NoConfigFile => "Neither proc.toml nor Procfile found in the current directory"@,
        ConfigError::FileReadError { message } => "Failed to read file: "@ + message@,
        ConfigError::TomlParseError { message } => "Failed to parse proc.toml: "@ + message@,
        ConfigError::EmptyProcfile => "Procfile is empty"@,
        ConfigError::InvalidTask { task, reason } => "Invalid task definition for '"@ + task@
            + "': "@ + reason@,
    }
}

impl ConfigError {
    /// Render this error for display.
    pub fn message(&self) -> (r: String)
        ensures
            r@ == spec_config_error_message(*self),
    {
        match self {
            ConfigError::NoConfigFile => String::from_str(
                "Neither proc.toml nor Procfile found in the current directory",
            ),
            ConfigError::FileReadError { message } => {
                let mut r = String::from_str("Failed to read file: ");
                r.append(message.as_str());
                r
            },
            ConfigError::TomlParseError { message } => {
                let mut r = String::from_str("Failed to parse proc.toml: ");
                r.append(message.as_str());
                r
            },
            ConfigError::EmptyProcfile => String::from_str("Procfile is empty"),
            ConfigError::InvalidTask { task, reason } => {
                let mut r = String::from_str("Invalid task definition for '");
                r.append(task.as_str());
                r.append("': ");
                r.append(reason.as_str());
                proof {
                    assert(r@ =~= "Invalid task definition for '"@ + task@ + "': "@ + reason@);
                }
                r
            },
        }
    }
}

/// Decide which configuration file governs a project, from whether each
/// candidate exists: an explicit task file wins over a plain process list.
pub fn detect_source(proc_toml_exists: bool, procfile_exists: bool) -> (r: Result<
    ConfigSource,
    ConfigError,
>)
    ensures
        proc_toml_exists ==> r == Ok::<ConfigSource, ConfigError>(ConfigSource::ProcToml),
        !proc_toml_exists && procfile_exists ==> r == Ok::<ConfigSource, ConfigError>(
            ConfigSource::Procfile,
        ),
        !proc_toml_exists && !procfile_exists ==> r matches Err(ConfigError::NoConfigFile),
{
    if proc_toml_exists {
        Ok(ConfigSource::ProcToml)
    } else if procfile_exists {
        Ok(ConfigSource::Procfile)
    } else {
        Err(ConfigError::NoConfigFile)
    }
}

/// The position of the first `:` in a line, or -1 if none.
pub open spec fn first_colon(s: Seq<char>) -> int
    decreases s.len(),
{
    if s.len() == 0 {
        -1
    } else if s[0] == ':' {
        0
    } else {
        let r = first_colon(s.drop_first());
        if r == -1 {
            -1
        } else {
            r + 1
        }
    }
}

proof fn lemma_first_colon_at(s: Seq<char>, k: int)
    requires
        0 <= k <= s.len(),
        forall|j: int| 0 <= j < k ==> s[j] != ':',
        k == s.len() || s[k] == ':',
    ensures
        first_colon(s) == if k == s.len() {
            -1
        } else {
            k
        },
    decreases k,
{
    if k == 0 {
        if s.len() == 0 {
        }
    } else {
        assert(s[0] != ':');
        lemma_first_colon_at(s.drop_first(), k - 1);
    }
}

/// What one Procfile line declares: the first `:` separates a process
/// name from its command, both taken without surrounding whitespace; a
/// line without a separator declares nothing.
pub open spec fn procfile_line_spec(s: Seq<char>) -> Option<(Seq<char>, Seq<char>)> {
    let i = first_colon(s);
    if i == -1 {
        None
    } else {
        Some((trimmed(s.take(i)), trimmed(s.skip(i + 1))))
    }
}

/// Parse one Procfile line into a process declaration, if it holds one.
/// Declared processes get no explicit log paths and no working directory.
pub fn parse_procfile_line(line: &str) -> (r: Option<ProcessConfig>)
    ensures
        (match procfile_line_spec(line@) {
            Some(nc) => r matches Some(c) && c.name@ == nc.0 && c.command@ == nc.1
                && c.stdout_log is None && c.stderr_log is None && c.cwd is None,
            None => r is None,
        }),
{
    let cs = str_chars(line);
    let mut i: usize = 0;
    while i < cs.len()
        invariant
            i <= cs@.len(),
            cs@ == line@,
            forall|j: int| 0 <= j < i ==> cs@[j] != ':',
        decreases cs@.len() - i,
    {
        if cs[i] == ':' {
            proof {
                lemma_first_colon_at(line@, i as int);
            }
            let before = &cs.as_slice()[0..i];
            let after = &cs.as_slice()[i + 1..cs.len()];
            proof {
                assert(before@ =~= line@.take(i as int));
                assert(after@ =~= line@.skip(i + 1));
            }
            let nb = trimmed_range(before);
            let cb = trimmed_range(after);
            let name = chars_string(&before[nb.0..nb.1]);
            let command = chars_string(&after[cb.0..cb.1]);
            return Some(
                ProcessConfig { name, command, stdout_log: None, stderr_log: None, cwd: None },
            );
        }
        i = i + 1;
    }
    proof {
        lemma_first_colon_at(line@, line@.len() as int);
    }
    None
}

/// Whether a configuration file's text is effectively empty: nothing but
/// whitespace.
pub fn content_is_blank(content: &str) -> (r: bool)
    ensures
        r == (trimmed(content@).len() == 0),
{
    let cs = str_chars(content);
    let bounds = trimmed_range(cs.as_slice());
    bounds.0 == bounds.1
}

} // verus!
