//! The configuration: which tiles the bar shows and how often each updates,
//! where the configuration file is found, and how an update interval is written.
use vstd::prelude::*;

use crate::text::chars_of;

verus! {

broadcast use vstd::string::group_string_axioms;

/// A span of time, as `std::time::Duration` holds it: whole seconds and the
/// nanoseconds beyond them.
#[derive(Clone, Copy, Debug, PartialEq, Eq, Structural)]
pub struct Interval {
    pub secs: u64,
    pub nanos: u32,
}

impl Interval {
    /// The interval is one that `Duration` can hold: its nanoseconds are below
    /// one second.
    pub open spec fn is_valid(self) -> bool {
        self.nanos < 1_000_000_000
    }

    /// `secs` whole seconds.
    pub fn from_secs(secs: u64) -> (i: Interval)
        ensures
            i == (Interval { secs, nanos: 0 }),
            i.is_valid(),
    {
        Interval { secs, nanos: 0 }
    }
}

/// The `[default]` section of the configuration file.
#[derive(Clone, Copy, Debug, PartialEq, Eq, Structural)]
pub struct DefaultSection {
    pub spacing: Option<u32>,
}

impl Default for DefaultSection {
    /// No spacing is configured.
    fn default() -> (d: Self)
        ensures
            d.spacing is None,
    {
        DefaultSection { spacing: None }
    }
}

/// How the time tile writes the time (`strftime` patterns).
#[derive(Debug)]
pub struct TimeConfig {
    pub format: String,
    pub short_format: String,
}

impl TimeConfig {
    /// The two configurations write the time with the same formats.
    pub open spec fn same_as(self, other: TimeConfig) -> bool {
        self.format@ == other.format@ && self.short_format@ == other.short_format@
    }
}

impl Clone for TimeConfig {
    /// The same formats.
    fn clone(&self) -> (c: Self)
        ensures
            c.same_as(*self),
    {
        TimeConfig { format: self.format.clone(), short_format: self.short_format.clone() }
    }
}

impl Default for TimeConfig {
    /// Date and time in full, the time alone where space is scarce.
    fn default() -> (c: Self)
        ensures
            c.format@ == "%Y-%m-%d %H:%M:%S"@,
            c.short_format@ == "%H:%M:%S"@,
    {
        TimeConfig { format: "%Y-%m-%d %H:%M:%S".to_string(), short_format: "%H:%M:%S".to_string() }
    }
}

/// Which wireless interface the iwd tile reports on.
#[derive(Clone, Debug)]
pub struct IwdConfig {
    pub interface: String,
}

/// The kind of a tile, with what it alone needs.
#[derive(Debug)]
pub enum TileConfigType {
    Battery,
    Memory,
    Load,
    Hostname,
    Time(TimeConfig),
}

impl TileConfigType {
    /// The two are the same kind of tile, configured alike.
    pub open spec fn same_as(self, other: TileConfigType) -> bool {
        match (self, other) {
            (TileConfigType::Battery, TileConfigType::Battery) => true,
            (TileConfigType::Memory, TileConfigType::Memory) => true,
            (TileConfigType::Load, TileConfigType::Load) => true,
            (TileConfigType::Hostname, TileConfigType::Hostname) => true,
            (TileConfigType::Time(a), TileConfigType::Time(b)) => a.same_as(b),
            _ => false,
        }
    }
}

impl Clone for TileConfigType {
    /// The same kind, configured alike.
    fn clone(&self) -> (c: Self)
        ensures
            c.same_as(*self),
    {
        match self {
            TileConfigType::Battery => TileConfigType::Battery,
            TileConfigType::Memory => TileConfigType::Memory,
            TileConfigType::Load => TileConfigType::Load,
            TileConfigType::Hostname => TileConfigType::Hostname,
            TileConfigType::Time(t) => TileConfigType::Time(t.clone()),
        }
    }
}

/// One `[[tile]]` of the configuration file: its kind and, if given, how often
/// it may update at most.
#[derive(Debug)]
pub struct TileConfig {
    config_type: TileConfigType,
    update: Option<Interval>,
}

impl Clone for TileConfig {
    /// The same kind, configured alike, and the same interval.
    fn clone(&self) -> (c: Self)
        ensures
            c.kind().same_as(self.kind()),
            c.configured_update() == self.configured_update(),
    {
        proof {
            use_type_invariant(self);
        }
        TileConfig { config_type: self.config_type.clone(), update: self.update }
    }
}

/// The interval at which a tile that reads the kernel's files is read when its
/// configuration gives none: five seconds.
pub open spec fn polling_default() -> Interval {
    Interval { secs: 5, nanos: 0 }
}

/// How often a tile of kind `kind` with configured interval `update` may update
/// at most: the tiles that read a file again and again (battery, load, memory)
/// fall back to five seconds; the others update when their source does, unless
/// an interval is configured.
pub open spec fn throttle_of(kind: TileConfigType, update: Option<Interval>) -> Option<Interval> {
    match kind {
        TileConfigType::Battery | TileConfigType::Load | TileConfigType::Memory => match update {
            Some(i) => Some(i),
            None => Some(polling_default()),
        },
        TileConfigType::Hostname | TileConfigType::Time(_) => update,
    }
}

/// A configured interval, where there is one, is a valid one.
pub open spec fn valid_update(update: Option<Interval>) -> bool {
    update matches Some(i) ==> i.is_valid()
}

impl TileConfig {
    #[verifier::type_invariant]
    spec fn update_is_valid(self) -> bool {
        valid_update(self.update)
    }

    /// The tile's kind.
    pub closed spec fn kind(&self) -> TileConfigType {
        self.config_type
    }

    /// The tile's configured interval, if any.
    pub closed spec fn configured_update(&self) -> Option<Interval> {
        self.update
    }

    /// A tile of kind `config_type` with configured interval `update`.
    pub fn new(config_type: TileConfigType, update: Option<Interval>) -> (t: TileConfig)
        requires
            valid_update(update),
        ensures
            t.kind() == config_type,
            t.configured_update() == update,
    {
        TileConfig { config_type, update }
    }

    /// The tile's kind.
    pub fn config_type(&self) -> (k: &TileConfigType)
        ensures
            *k == self.kind(),
    {
        &self.config_type
    }

    /// The tile's configured interval, if any.
    pub fn update(&self) -> (u: Option<Interval>)
        ensures
            u == self.configured_update(),
            valid_update(u),
    {
        proof {
            use_type_invariant(self);
        }
        self.update
    }

    /// How often the tile may update at most (`None`: whenever its source does).
    pub fn throttle(&self) -> (t: Option<Interval>)
        ensures
            t == throttle_of(self.kind(), self.configured_update()),
            valid_update(t),
            self.configured_update() matches Some(i) ==> t == Some(i),
            self.configured_update() is None ==> t == (if is_polling(self.kind()) {
                Some(Interval { secs: 5, nanos: 0 })
            } else {
                None
            }),
    {
        proof {
            lemma_configured_interval_wins(self.kind(), self.configured_update());
        }
        proof {
            use_type_invariant(self);
        }
        match &self.config_type {
            TileConfigType::Battery | TileConfigType::Load | TileConfigType::Memory => {
                match self.update {
                    Some(i) => Some(i),
                    None => Some(Interval::from_secs(5)),
                }
            },
            TileConfigType::Hostname | TileConfigType::Time(_) => self.update,
        }
    }
}

/// Whether tiles of this kind read a file again and again (battery, load,
/// memory), rather than follow a source that tells them when it changes.
pub open spec fn is_polling(kind: TileConfigType) -> bool {
    kind is Battery || kind is Load || kind is Memory
}

/// A configured interval is the throttle of a tile of any kind; only where
/// none is configured does the kind decide: five seconds for the tiles that
/// poll, no throttle for the others.
pub proof fn lemma_configured_interval_wins(kind: TileConfigType, update: Option<Interval>)
    ensures
        update matches Some(i) ==> throttle_of(kind, update) == Some(i),
        update is None ==> throttle_of(kind, update) == (if is_polling(kind) {
            Some(Interval { secs: 5, nanos: 0 })
        } else {
            None
        }),
{
}

/// The whole configuration file.
#[derive(Clone, Debug)]
pub struct Config {
    pub default: DefaultSection,
    pub tile: Vec<TileConfig>,
}

impl Default for Config {
    /// No tiles, and no defaults set.
    fn default() -> (c: Self)
        ensures
            c.default.spacing is None,
            c.tile@.len() == 0,
    {
        Config { default: DefaultSection::default(), tile: Vec::new() }
    }
}

/// Where the configuration file is: the path given on the command line, or a
/// path made of components (joined the way `PathBuf` joins them).
#[derive(Clone, Debug)]
pub enum ConfigPath<P> {
    Given(P),
    Components(Vec<String>),
}

/// Why no configuration file could be located.
#[derive(Clone, Copy, Debug, PartialEq, Eq, Structural)]
pub enum ConfigError {
    /// No path was given and none of the environment variables is set.
    NotFound,
}

impl ConfigError {
    /// The message that explains the error.
    pub fn message(&self) -> (m: String)
        ensures
            m@ == "Could not find RUSTYBAR_CONFIG, XDG_CONFIG_HOME, or HOME environment variables"@,
    {
        "Could not find RUSTYBAR_CONFIG, XDG_CONFIG_HOME, or HOME environment variables".to_string()
    }
}

/// The texts of a list of path components.
pub open spec fn texts(v: Seq<String>) -> Seq<Seq<char>> {
    v.map_values(|s: String| s@)
}

/// Where the configuration file is, by precedence: the path given on the
/// command line; else `$RUSTYBAR_CONFIG`; else
/// `$XDG_CONFIG_HOME/rustybar/config.toml`; else
/// `$HOME/.config/rustybar/config.toml`. An environment variable counts where
/// it is set to valid Unicode (`None` otherwise).
pub fn config_path<P>(
    given: Option<P>,
    rustybar_config: Option<String>,
    xdg_config_home: Option<String>,
    home: Option<String>,
) -> (r: Result<ConfigPath<P>, ConfigError>)
    ensures
        given matches Some(p) ==> (r matches Ok(ConfigPath::Given(q)) && q == p),
        given is None && rustybar_config is Some ==> (r matches Ok(ConfigPath::Components(v))
            && texts(v@) == seq![rustybar_config->0@]),
        given is None && rustybar_config is None && xdg_config_home is Some ==> (r matches Ok(
            ConfigPath::Components(v),
        ) && texts(v@) == seq![xdg_config_home->0@, "rustybar"@, "config.toml"@]),
        given is None && rustybar_config is None && xdg_config_home is None && home is Some
            ==> (r matches Ok(ConfigPath::Components(v)) && texts(v@) == seq![
            home->0@,
            ".config"@,
            "rustybar"@,
            "config.toml"@,
        ]),
        given is None && rustybar_config is None && xdg_config_home is None && home is None
            ==> r == Err::<ConfigPath<P>, ConfigError>(ConfigError::NotFound),
{
    match given {
        Some(p) => Ok(ConfigPath::Given(p)),
        None => {
            if let Some(path) = rustybar_config {
                let mut v: Vec<String> = Vec::new();
                v.push(path);
                assert(texts(v@) =~= seq![rustybar_config->0@]);
                Ok(ConfigPath::Components(v))
            } else if let Some(xdg) = xdg_config_home {
                let mut v: Vec<String> = Vec::new();
                v.push(xdg);
                v.push("rustybar".to_string());
                v.push("config.toml".to_string());
                assert(texts(v@) =~= seq![xdg_config_home->0@, "rustybar"@, "config.toml"@]);
                Ok(ConfigPath::Components(v))
            } else if let Some(h) = home {
                let mut v: Vec<String> = Vec::new();
                v.push(h);
                v.push(".config".to_string());
                v.push("rustybar".to_string());
                v.push("config.toml".to_string());
                assert(texts(v@) =~= seq![home->0@, ".config"@, "rustybar"@, "config.toml"@]);
                Ok(ConfigPath::Components(v))
            } else {
                Err(ConfigError::NotFound)
            }
        },
    }
}

/// Whether `c` has the Unicode `Alphabetic` property, as `char::is_alphabetic`
/// reports it.
pub uninterp spec fn alphabetic(c: char) -> bool;

/// `char::is_alphabetic`. The contract claims that the answer depends on the
/// character alone and, for ASCII, that exactly the letters are alphabetic;
/// which other characters are is Unicode's table, not stated.
#[verifier::external_body]
fn char_is_alphabetic(c: char) -> (b: bool)
    ensures
        b == alphabetic(c),
        (c as u32) < 0x80 ==> (b <==> ('a' <= c <= 'z' || 'A' <= c <= 'Z')),
{
    c.is_alphabetic()
}

/// `s` without its trailing alphabetic characters
/// (`str::trim_end_matches(char::is_alphabetic)`).
pub open spec fn trim_end_alphabetic(s: Seq<char>) -> Seq<char>
    decreases s.len(),
{
    if s.len() > 0 && alphabetic(s.last()) {
        trim_end_alphabetic(s.drop_last())
    } else {
        s
    }
}

/// `s` without the copies of `p` at its start (`str::trim_start_matches(p)`;
/// an empty `p` removes nothing).
pub open spec fn trim_start_repeated(s: Seq<char>, p: Seq<char>) -> Seq<char>
    decreases s.len(),
{
    if p.len() > 0 && p.len() <= s.len() && s.take(p.len() as int) == p {
        trim_start_repeated(s.skip(p.len() as int), p)
    } else {
        s
    }
}

proof fn lemma_trim_end_alphabetic(s: Seq<char>, j: int)
    requires
        0 <= j <= s.len(),
        forall|k: int| j <= k < s.len() ==> alphabetic(#[trigger] s[k]),
    ensures
        trim_end_alphabetic(s) == trim_end_alphabetic(s.take(j)),
    decreases s.len() - j,
{
    if j < s.len() {
        assert(s.drop_last().take(j) =~= s.take(j));
        lemma_trim_end_alphabetic(s.drop_last(), j);
    } else {
        assert(s.take(j) =~= s);
    }
}

/// Whether `c` is an ASCII letter.
pub open spec fn is_ascii_letter(c: char) -> bool {
    ('a' <= c <= 'z') || ('A' <= c <= 'Z')
}

/// Whether every character of `s` is ASCII.
pub open spec fn is_ascii_text(s: Seq<char>) -> bool {
    forall|k: int| 0 <= k < s.len() ==> (#[trigger] s[k] as u32) < 0x80
}

/// `s` without its trailing ASCII letters: for an ASCII text, what remains when
/// its trailing alphabetic characters are taken off.
pub open spec fn trim_end_letters(s: Seq<char>) -> Seq<char>
    decreases s.len(),
{
    if s.len() > 0 && is_ascii_letter(s.last()) {
        trim_end_letters(s.drop_last())
    } else {
        s
    }
}

proof fn lemma_trim_end_letters(s: Seq<char>, j: int)
    requires
        0 <= j <= s.len(),
        forall|k: int| j <= k < s.len() ==> is_ascii_letter(#[trigger] s[k]),
        j > 0 ==> !is_ascii_letter(s[j - 1]),
    ensures
        trim_end_letters(s) == s.take(j),
    decreases s.len() - j,
{
    if j < s.len() {
        assert(s.drop_last().take(j) =~= s.take(j));
        lemma_trim_end_letters(s.drop_last(), j);
    } else {
        assert(s.take(j) =~= s);
        if j > 0 {
            assert(s.last() == s[j - 1]);
        }
    }
}

/// How an update interval is written in the configuration file: a number and
/// a unit, such as `"500ms"`, `"2s"`, `"1.5m"`, or a bare number of seconds.
#[derive(Clone, Copy, Debug, PartialEq, Eq, Structural)]
pub enum TimeUnit {
    Seconds,
    Minutes,
    Milliseconds,
}

/// The unit that a suffix names: `""` and `"s"` seconds, `"m"` minutes, `"ms"`
/// milliseconds; no other suffix is a unit.
pub open spec fn unit_of(suffix: Seq<char>) -> Option<TimeUnit> {
    if suffix == Seq::<char>::empty() || suffix == seq!['s'] {
        Some(TimeUnit::Seconds)
    } else if suffix == seq!['m'] {
        Some(TimeUnit::Minutes)
    } else if suffix == seq!['m', 's'] {
        Some(TimeUnit::Milliseconds)
    } else {
        None
    }
}

/// Splits an update interval as written into its number and its suffix: the
/// number is the text without its trailing alphabetic characters, the suffix is
/// what the text holds after the copies of the number at its start.
pub fn split_duration(s: &str) -> (r: (String, String))
    ensures
        r.0@ == trim_end_alphabetic(s@),
        r.1@ == trim_start_repeated(s@, r.0@),
        r.0@ + r.1@ == s@,
        is_ascii_text(s@) ==> r.0@ == trim_end_letters(s@),
        is_ascii_text(s@) ==> r.0@.len() == 0 || !is_ascii_letter(r.0@.last()),
        is_ascii_text(s@) ==> forall|k: int| 0 <= k < r.1@.len() ==> is_ascii_letter(#[trigger] r.1@[k]),
{
    let cs = chars_of(s);
    let mut j = cs.len();
    let mut done = false;
    while j > 0 && !done
        invariant
            0 <= j <= cs@.len(),
            cs@ == s@,
            forall|k: int| j <= k < cs@.len() ==> alphabetic(#[trigger] cs@[k]),
            is_ascii_text(s@) ==> forall|k: int| j <= k < cs@.len() ==> is_ascii_letter(
                #[trigger] cs@[k],
            ),
            done ==> j > 0 && !alphabetic(cs@[j - 1]),
            done && is_ascii_text(s@) ==> !is_ascii_letter(cs@[j - 1]),
        decreases j, (if done {
            0int
        } else {
            1int
        }),
    {
        if char_is_alphabetic(cs[j - 1]) {
            j = j - 1;
        } else {
            done = true;
        }
    }
    let ghost n = s@.take(j as int);
    let ghost rest = s@.skip(j as int);
    proof {
        lemma_trim_end_alphabetic(s@, j as int);
        if is_ascii_text(s@) {
            lemma_trim_end_letters(s@, j as int);
            assert forall|k: int| 0 <= k < rest.len() implies is_ascii_letter(#[trigger] rest[k]) by {
                assert(rest[k] == s@[j + k]);
            }
        }
        if j > 0 {
            assert(n.last() == s@[j - 1]);
        }
        assert(n + rest =~= s@);
        if j > 0 {
            assert(s@.take(n.len() as int) == n);
            assert(s@.skip(n.len() as int) == rest);
            if n.len() <= rest.len() && rest.take(n.len() as int) == n {
                assert(rest.take(n.len() as int)[j - 1] == rest[j - 1]);
                assert(rest[j - 1] == s@[j + j - 1]);
                assert(alphabetic(s@[j + j - 1]));
                assert(false);
            }
            assert(trim_start_repeated(rest, n) == rest);
        } else {
            assert(n =~= Seq::<char>::empty());
            assert(rest =~= s@);
        }
    }
    let number = crate::text::string_of(&cs.as_slice()[0..j]);
    let suffix = crate::text::string_of(&cs.as_slice()[j..cs.len()]);
    (number, suffix)
}

/// The unit that the suffix of an update interval names, if any.
pub fn duration_unit(suffix: &str) -> (u: Option<TimeUnit>)
    ensures
        u == unit_of(suffix@),
{
    let cs = chars_of(suffix);
    if cs.len() == 0 {
        assert(cs@ =~= Seq::<char>::empty());
        Some(TimeUnit::Seconds)
    } else if cs.len() == 1 && cs[0] == 's' {
        assert(cs@ =~= seq!['s']);
        Some(TimeUnit::Seconds)
    } else if cs.len() == 1 && cs[0] == 'm' {
        assert(cs@ =~= seq!['m']);
        Some(TimeUnit::Minutes)
    } else if cs.len() == 2 && cs[0] == 'm' && cs[1] == 's' {
        assert(cs@ =~= seq!['m', 's']);
        Some(TimeUnit::Milliseconds)
    } else {
        assert(cs@ != Seq::<char>::empty() ==> cs@.len() > 0);
        assert(cs@ != seq!['s'] && cs@ != seq!['m'] && cs@ != seq!['m', 's']) by {
            if cs@ == seq!['s'] || cs@ == seq!['m'] {
                assert(cs@.len() == 1);
            }
            if cs@ == seq!['m', 's'] {
                assert(cs@.len() == 2 && cs@[0] == 'm' && cs@[1] == 's');
            }
        }
        None
    }
}

} // verus!
