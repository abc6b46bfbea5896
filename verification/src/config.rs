//! The configuration values the session consumes: the persisted
//! discriminator, interface and names. Reading and writing the file
//! itself is a collaborator's job; here live the value rules — which
//! log level a stored string means, and which username the session
//! starts with.
use vstd::prelude::*;
use crate::ether_type::EtherType;
use crate::session::{INITIAL_USERNAME, spec_normalize_username, normalize_username};
use vstd::string::StrSliceExecFns;

verus! {

/// The verbosity levels a configuration can ask for.
#[derive(Copy, Clone, Debug, PartialEq, Eq, Structural)]
pub enum LogLevel {
    Off,
    Error,
    Warn,
    Info,
    Debug,
    Trace,
}

/// The level taken when the configuration names none or an unknown one.
pub const DEFAULT_LOG_LEVEL: LogLevel = LogLevel::Warn;

/// A character folded to lower case within ASCII, as a scalar value.
pub open spec fn spec_fold_char(c: char) -> int {
    if 65 <= c as int && c as int <= 90 {
        c as int + 32
    } else {
        c as int
    }
}

/// Equality of two texts up to ASCII case.
pub open spec fn spec_eq_ignore_ascii_case(a: Seq<char>, b: Seq<char>) -> bool {
    a.len() == b.len() && forall|i: int|
        0 <= i < a.len() ==> spec_fold_char(#[trigger] a[i]) == spec_fold_char(b[i])
}

fn fold_char(c: char) -> (r: u32)
    ensures
        r as int == spec_fold_char(c),
{
    let u = c as u32;
    if 65 <= u && u <= 90 {
        u + 32
    } else {
        u
    }
}

/// Decides [`spec_eq_ignore_ascii_case`], character by character.
pub fn eq_ignore_ascii_case_str(a: &str, b: &str) -> (r: bool)
    ensures
        r == spec_eq_ignore_ascii_case(a@, b@),
{
    let n = a.unicode_len();
    if n != b.unicode_len() {
        return false;
    }
    let mut i: usize = 0;
    while i < n
        invariant
            i <= n,
            n == a@.len(),
            n == b@.len(),
            forall|j: int| 0 <= j < i ==> spec_fold_char(#[trigger] a@[j]) == spec_fold_char(
                b@[j],
            ),
        decreases n - i,
    {
        if fold_char(a.get_char(i)) != fold_char(b.get_char(i)) {
            return false;
        }
        i = i + 1;
    }
    true
}

impl LogLevel {
    /// The canonical name of this level.
    pub open spec fn spec_name(&self) -> Seq<char> {
        match self {
            LogLevel::Off => "OFF"@,
            LogLevel::Error => "ERROR"@,
            LogLevel::Warn => "WARN"@,
            LogLevel::Info => "INFO"@,
            LogLevel::Debug => "DEBUG"@,
            LogLevel::Trace => "TRACE"@,
        }
    }

    pub fn name(&self) -> (r: &'static str)
        ensures
            r@ == self.spec_name(),
    {
        match self {
            LogLevel::Off => "OFF",
            LogLevel::Error => "ERROR",
            LogLevel::Warn => "WARN",
            LogLevel::Info => "INFO",
            LogLevel::Debug => "DEBUG",
            LogLevel::Trace => "TRACE",
        }
    }

    /// The level a stored string names, compared up to ASCII case;
    /// nothing for an unknown name.
    pub open spec fn spec_parse(s: Seq<char>) -> Option<LogLevel> {
        if spec_eq_ignore_ascii_case(s, "OFF"@) {
            Some(LogLevel::Off)
        } else if spec_eq_ignore_ascii_case(s, "ERROR"@) {
            Some(LogLevel::Error)
        } else if spec_eq_ignore_ascii_case(s, "WARN"@) {
            Some(LogLevel::Warn)
        } else if spec_eq_ignore_ascii_case(s, "INFO"@) {
            Some(LogLevel::Info)
        } else if spec_eq_ignore_ascii_case(s, "DEBUG"@) {
            Some(LogLevel::Debug)
        } else if spec_eq_ignore_ascii_case(s, "TRACE"@) {
            Some(LogLevel::Trace)
        } else {
            None
        }
    }

    /// Decides [`LogLevel::spec_parse`].
    pub fn from_name(s: &str) -> (r: Option<LogLevel>)
        ensures
            r == Self::spec_parse(s@),
    {
        if eq_ignore_ascii_case_str(s, "OFF") {
            Some(LogLevel::Off)
        } else if eq_ignore_ascii_case_str(s, "ERROR") {
            Some(LogLevel::Error)
        } else if eq_ignore_ascii_case_str(s, "WARN") {
            Some(LogLevel::Warn)
        } else if eq_ignore_ascii_case_str(s, "INFO") {
            Some(LogLevel::Info)
        } else if eq_ignore_ascii_case_str(s, "DEBUG") {
            Some(LogLevel::Debug)
        } else if eq_ignore_ascii_case_str(s, "TRACE") {
            Some(LogLevel::Trace)
        } else {
            None
        }
    }
}

/// The persisted preferences the session and its collaborators consume.
pub struct Config {
    pub ether_type: Option<EtherType>,
    pub interface_name: Option<String>,
    pub language: Option<String>,
    pub log_level: Option<String>,
    pub username: Option<String>,
}

impl Default for Config {
    fn default() -> (r: Self)
        ensures
            r.ether_type is None,
            r.interface_name is None,
            r.language is None,
            r.log_level is None,
            r.username is None,
    {
        Config {
            ether_type: None,
            interface_name: None,
            language: None,
            log_level: None,
            username: None,
        }
    }
}

/// The level a configuration means: the stored name if it parses, the
/// default otherwise.
pub open spec fn spec_effective_level(log_level: Option<Seq<char>>) -> LogLevel {
    match log_level {
        Some(s) => match LogLevel::spec_parse(s) {
            Some(l) => l,
            None => DEFAULT_LOG_LEVEL,
        },
        None => DEFAULT_LOG_LEVEL,
    }
}

/// The username a session starts with, given what the configuration
/// stores and what the machine is called: the stored name wins, an
/// empty choice falls back to the initial username, and the result is
/// normalized.
pub open spec fn spec_resolved_username(username: Option<Seq<char>>, hostname: Seq<char>) -> Seq<
    char,
> {
    let name = match username {
        Some(n) => n,
        None => hostname,
    };
    if name.len() == 0 {
        spec_normalize_username(INITIAL_USERNAME@, INITIAL_USERNAME@)
    } else {
        spec_normalize_username(name, INITIAL_USERNAME@)
    }
}

/// Relies on gethostname::gethostname: this machine's name, taken
/// lossily as text; nothing is assumed of its value.
#[verifier::external_body]
fn hostname_text() -> String {
    gethostname::gethostname().to_string_lossy().into_owned()
}

/// Where the first dot cuts a hostname into its first label.
pub open spec fn spec_dot_index(s: Seq<char>) -> int
    decreases s.len(),
{
    if s.len() == 0 {
        0
    } else if s[0] == '.' {
        0
    } else {
        1 + spec_dot_index(s.drop_first())
    }
}

/// The text before the first dot.
pub fn first_label(s: &str) -> (r: String)
    ensures
        r@ == s@.take(spec_dot_index(s@)),
{
    let n = s.unicode_len();
    let mut i: usize = 0;
    proof {
        assert(s@.skip(0) =~= s@);
    }
    while i < n
        invariant
            i <= n,
            n == s@.len(),
            spec_dot_index(s@) == i + spec_dot_index(s@.skip(i as int)),
            forall|j: int| 0 <= j < i ==> s@[j] != '.',
        decreases n - i,
    {
        proof {
            assert(s@.skip(i as int).first() == s@[i as int]);
            assert(s@.skip(i as int).drop_first() =~= s@.skip(i as int + 1));
        }
        if s.get_char(i) == '.' {
            let label = s.substring_char(0, i);
            proof {
                assert(s@.subrange(0, i as int) =~= s@.take(spec_dot_index(s@)));
            }
            return label.to_owned();
        }
        i = i + 1;
    }
    proof {
        assert(s@.skip(n as int) =~= Seq::<char>::empty());
        assert(s@.take(spec_dot_index(s@)) =~= s@);
    }
    s.to_owned()
}

impl Config {
    /// The verbosity this configuration asks for; never nothing.
    pub fn get_log_level(&self) -> (r: Option<LogLevel>)
        ensures
            r == Some(
                spec_effective_level(
                    match self.log_level {
                        Some(s) => Some(s@),
                        None => None,
                    },
                ),
            ),
    {
        match &self.log_level {
            Some(s) => match LogLevel::from_name(s.as_str()) {
                Some(l) => Some(l),
                None => Some(DEFAULT_LOG_LEVEL),
            },
            None => Some(DEFAULT_LOG_LEVEL),
        }
    }

    /// The starting username this configuration and the given machine
    /// name resolve to, exactly as [`spec_resolved_username`] says.
    pub fn resolved_username(&self, hostname: &str) -> (r: String)
        ensures
            r@ == spec_resolved_username(
                match self.username {
                    Some(ref n) => Some(n@),
                    None => None,
                },
                hostname@,
            ),
    {
        let name: String = match &self.username {
            Some(n) => n.clone(),
            None => hostname.to_owned(),
        };
        if name.as_str().unicode_len() == 0 {
            normalize_username(INITIAL_USERNAME)
        } else {
            normalize_username(name.as_str())
        }
    }

    /// The starting username, with the machine's own first name label
    /// standing in when none is configured; never nothing.
    pub fn get_username(&self) -> (r: Option<String>)
        ensures
            r is Some,
            self.username matches Some(n) ==> r matches Some(u) && u@ == spec_resolved_username(
                Some(n@),
                Seq::<char>::empty(),
            ),
            self.username is None ==> exists|h: Seq<char>| r matches Some(u) && u@
                == #[trigger] spec_resolved_username(None, h),
    {
        match &self.username {
            Some(_) => Some(self.resolved_username("")),
            None => {
                let host = hostname_text();
                let label = first_label(host.as_str());
                Some(self.resolved_username(label.as_str()))
            },
        }
    }
}

/// Records the chosen verbosity in a configuration, under the level's
/// canonical name; persisting the file is the caller's business.
pub fn set_log_level(config: &mut Config, level: LogLevel)
    ensures
        final(config).log_level matches Some(s) && s@ == level.spec_name(),
        final(config).ether_type == old(config).ether_type,
        final(config).interface_name == old(config).interface_name,
        final(config).language == old(config).language,
        final(config).username == old(config).username,
{
    config.log_level = Some(level.name().to_owned());
}

} // verus!
