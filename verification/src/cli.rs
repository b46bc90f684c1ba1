//! The command line: subcommands, flags, and which flags go with which subcommand.

use vstd::prelude::*;
use vstd::string::*;

use crate::feed_source::FeedSource;
use crate::text;
use crate::types::Series;

verus! {

/// A command for the running bot's control plane.
#[derive(Clone, Debug, PartialEq, Eq)]
pub enum ControlSub {
    /// Show the control state.
    Status,
    /// Halt all trading.
    Kill,
    /// Resume after a halt.
    Reset,
    /// Lift the daily stop.
    ResetDailyStop,
    /// Set the paper capital.
    SetCapital(String),
    /// Change the paper capital by an amount.
    AdjustCapital(String),
    /// Enable a series.
    EnableSeries(String),
    /// Disable a series.
    DisableSeries(String),
    /// Override a parameter.
    SetParam {
        /// The series it is for, or all.
        series: Option<String>,
        /// The parameter.
        key: String,
        /// Its value.
        value: String,
    },
    /// Begin arming live trading.
    ArmLive,
    /// Confirm arming with a phrase.
    ConfirmArm(String),
    /// Disarm live trading.
    Disarm,
}

/// A [`ControlSub`] with its texts as character sequences.
pub enum ControlSubView {
    Status,
    Kill,
    Reset,
    ResetDailyStop,
    SetCapital(Seq<char>),
    AdjustCapital(Seq<char>),
    EnableSeries(Seq<char>),
    DisableSeries(Seq<char>),
    SetParam { series: Option<Seq<char>>, key: Seq<char>, value: Seq<char> },
    ArmLive,
    ConfirmArm(Seq<char>),
    Disarm,
}

/// The characters of an optional text.
pub open spec fn chars_of(t: Option<String>) -> Option<Seq<char>> {
    match t {
        Some(s) => Some(s@),
        None => None,
    }
}

impl View for ControlSub {
    type V = ControlSubView;

    open spec fn view(&self) -> ControlSubView {
        match *self {
            ControlSub::Status => ControlSubView::Status,
            ControlSub::Kill => ControlSubView::Kill,
            ControlSub::Reset => ControlSubView::Reset,
            ControlSub::ResetDailyStop => ControlSubView::ResetDailyStop,
            ControlSub::SetCapital(a) => ControlSubView::SetCapital(a@),
            ControlSub::AdjustCapital(a) => ControlSubView::AdjustCapital(a@),
            ControlSub::EnableSeries(a) => ControlSubView::EnableSeries(a@),
            ControlSub::DisableSeries(a) => ControlSubView::DisableSeries(a@),
            ControlSub::SetParam { series, key, value } => ControlSubView::SetParam {
                series: chars_of(series),
                key: key@,
                value: value@,
            },
            ControlSub::ArmLive => ControlSubView::ArmLive,
            ControlSub::ConfirmArm(a) => ControlSubView::ConfirmArm(a@),
            ControlSub::Disarm => ControlSubView::Disarm,
        }
    }
}

/// What the operator asked the program to do.
#[derive(Clone, Debug, PartialEq, Eq)]
pub enum Command {
    /// Trade all enabled series with simulated money until stopped.
    Run,
    /// Boot, log the configuration and exit (the default).
    Paper,
    /// Paper-trade one series against live data.
    PaperSim,
    /// Trade with real money, behind the arming gates.
    Live,
    /// Print the requests that orders would become.
    VenueCheck,
    /// Print the effective configuration.
    CheckConfig,
    /// Print current and upcoming windows.
    Discover,
    /// Roll all series and log every lifecycle event.
    Schedule,
    /// Stream one price feed.
    Feed,
    /// Compare both price feeds.
    Compare,
    /// Run the volatility estimators.
    Vol,
    /// Draw one series' order book.
    Ladder,
    /// Price one series' current window.
    Fair,
    /// Record every event to the journal.
    Record,
    /// Measure latency and write a report.
    Latency,
    /// Serve the dashboard over a paper pipeline.
    Dashboard,
    /// Send a command to the running dashboard.
    Control(ControlSub),
    /// Run the engine again over a recorded journal.
    Replay,
    /// Replay over a grid of parameters.
    Sweep,
    /// Write a day's operator digest.
    Digest,
}

/// A [`Command`] with its texts as character sequences.
pub enum CommandView {
    Run,
    Paper,
    PaperSim,
    Live,
    VenueCheck,
    CheckConfig,
    Discover,
    Schedule,
    Feed,
    Compare,
    Vol,
    Ladder,
    Fair,
    Record,
    Latency,
    Dashboard,
    Control(ControlSubView),
    Replay,
    Sweep,
    Digest,
}

impl View for Command {
    type V = CommandView;

    open spec fn view(&self) -> CommandView {
        match *self {
            Command::Run => CommandView::Run,
            Command::Paper => CommandView::Paper,
            Command::PaperSim => CommandView::PaperSim,
            Command::Live => CommandView::Live,
            Command::VenueCheck => CommandView::VenueCheck,
            Command::CheckConfig => CommandView::CheckConfig,
            Command::Discover => CommandView::Discover,
            Command::Schedule => CommandView::Schedule,
            Command::Feed => CommandView::Feed,
            Command::Compare => CommandView::Compare,
            Command::Vol => CommandView::Vol,
            Command::Ladder => CommandView::Ladder,
            Command::Fair => CommandView::Fair,
            Command::Record => CommandView::Record,
            Command::Latency => CommandView::Latency,
            Command::Dashboard => CommandView::Dashboard,
            Command::Control(sub) => CommandView::Control(sub@),
            Command::Replay => CommandView::Replay,
            Command::Sweep => CommandView::Sweep,
            Command::Digest => CommandView::Digest,
        }
    }
}

/// A flag that takes a value, as `--flag value` or `--flag=value`.
#[derive(Clone, Copy, PartialEq, Eq, Structural, Debug)]
pub enum Flag {
    /// The configuration directory.
    ConfigDir,
    /// The host or region of a latency report.
    Label,
    /// The output file.
    Out,
    /// The raw-frame capture file.
    Raw,
    /// The feed.
    Source,
    /// The series.
    Series,
    /// Levels per side.
    Depth,
    /// Seconds before one forced reconnect.
    RecycleAfter,
    /// The journal directory to write.
    OutDir,
    /// The comparison window.
    Window,
    /// The day of a digest.
    Date,
    /// Grid values of the minimum edge.
    MinEdge,
    /// Grid values of the skew strength.
    Gamma,
    /// Grid values of the cancel threshold.
    CancelTheta,
    /// Grid values of the taker buffer.
    TakerBuffer,
    /// The ranking column.
    Rank,
}

impl Flag {
    /// Every flag that takes a value.
    pub open spec fn all_spec() -> Seq<Flag> {
        seq![
            Flag::ConfigDir,
            Flag::Label,
            Flag::Out,
            Flag::Raw,
            Flag::Source,
            Flag::Series,
            Flag::Depth,
            Flag::RecycleAfter,
            Flag::OutDir,
            Flag::Window,
            Flag::Date,
            Flag::MinEdge,
            Flag::Gamma,
            Flag::CancelTheta,
            Flag::TakerBuffer,
            Flag::Rank,
        ]
    }

    /// Every flag that takes a value.
    fn all() -> (r: Vec<Flag>)
        ensures
            r@ == Flag::all_spec(),
    {
        let r = vec![
            Flag::ConfigDir,
            Flag::Label,
            Flag::Out,
            Flag::Raw,
            Flag::Source,
            Flag::Series,
            Flag::Depth,
            Flag::RecycleAfter,
            Flag::OutDir,
            Flag::Window,
            Flag::Date,
            Flag::MinEdge,
            Flag::Gamma,
            Flag::CancelTheta,
            Flag::TakerBuffer,
            Flag::Rank,
        ];
        assert(r@ =~= Flag::all_spec());
        r
    }

    /// The flag as it is written.
    pub open spec fn name_spec(self) -> Seq<char> {
        match self {
            Flag::ConfigDir => "--config-dir"@,
            Flag::Label => "--label"@,
            Flag::Out => "--out"@,
            Flag::Raw => "--raw"@,
            Flag::Source => "--source"@,
            Flag::Series => "--series"@,
            Flag::Depth => "--depth"@,
            Flag::RecycleAfter => "--recycle-after"@,
            Flag::OutDir => "--out-dir"@,
            Flag::Window => "--window"@,
            Flag::Date => "--date"@,
            Flag::MinEdge => "--min-edge"@,
            Flag::Gamma => "--gamma"@,
            Flag::CancelTheta => "--cancel-theta"@,
            Flag::TakerBuffer => "--taker-buffer"@,
            Flag::Rank => "--rank"@,
        }
    }

    /// The flag as it is written.
    pub fn name(&self) -> (r: &'static str)
        ensures
            r@ == self.name_spec(),
    {
        match self {
            Flag::ConfigDir => "--config-dir",
            Flag::Label => "--label",
            Flag::Out => "--out",
            Flag::Raw => "--raw",
            Flag::Source => "--source",
            Flag::Series => "--series",
            Flag::Depth => "--depth",
            Flag::RecycleAfter => "--recycle-after",
            Flag::OutDir => "--out-dir",
            Flag::Window => "--window",
            Flag::Date => "--date",
            Flag::MinEdge => "--min-edge",
            Flag::Gamma => "--gamma",
            Flag::CancelTheta => "--cancel-theta",
            Flag::TakerBuffer => "--taker-buffer",
            Flag::Rank => "--rank",
        }
    }

    /// The complaint where nothing follows the flag.
    pub open spec fn missing_spec(self) -> Seq<char> {
        match self {
            Flag::ConfigDir => "--config-dir requires a value"@,
            Flag::Label => "--label requires a value"@,
            Flag::Out => "--out requires a value"@,
            Flag::Raw => "--raw requires a value"@,
            Flag::Source => "--source requires a value (rtds|binance)"@,
            Flag::Series => "--series requires a value (e.g. BTC-5m)"@,
            Flag::Depth => "--depth requires a value"@,
            Flag::RecycleAfter => "--recycle-after requires a value (seconds)"@,
            Flag::OutDir => "--out-dir requires a value"@,
            Flag::Window => "--window requires a value (today|<N>d|all)"@,
            Flag::Date => "--date requires a value (YYYY-MM-DD)"@,
            Flag::MinEdge => "--min-edge requires a comma-separated list"@,
            Flag::Gamma => "--gamma requires a comma-separated list"@,
            Flag::CancelTheta => "--cancel-theta requires a comma-separated list"@,
            Flag::TakerBuffer => "--taker-buffer requires a comma-separated list"@,
            Flag::Rank => "--rank requires a value"@,
        }
    }

    /// The complaint where nothing follows the flag.
    fn missing(&self) -> (r: String)
        ensures
            r@ == self.missing_spec(),
    {
        match self {
            Flag::ConfigDir => "--config-dir requires a value".to_owned(),
            Flag::Label => "--label requires a value".to_owned(),
            Flag::Out => "--out requires a value".to_owned(),
            Flag::Raw => "--raw requires a value".to_owned(),
            Flag::Source => "--source requires a value (rtds|binance)".to_owned(),
            Flag::Series => "--series requires a value (e.g. BTC-5m)".to_owned(),
            Flag::Depth => "--depth requires a value".to_owned(),
            Flag::RecycleAfter => "--recycle-after requires a value (seconds)".to_owned(),
            Flag::OutDir => "--out-dir requires a value".to_owned(),
            Flag::Window => "--window requires a value (today|<N>d|all)".to_owned(),
            Flag::Date => "--date requires a value (YYYY-MM-DD)".to_owned(),
            Flag::MinEdge => "--min-edge requires a comma-separated list".to_owned(),
            Flag::Gamma => "--gamma requires a comma-separated list".to_owned(),
            Flag::CancelTheta => "--cancel-theta requires a comma-separated list".to_owned(),
            Flag::TakerBuffer => "--taker-buffer requires a comma-separated list".to_owned(),
            Flag::Rank => "--rank requires a value".to_owned(),
        }
    }
}

/// The first flag, from the `k`-th on, that a token names.
pub open spec fn named_flag(token: Seq<char>, k: int) -> Option<Flag>
    decreases Flag::all_spec().len() - k,
{
    if k < 0 || k >= Flag::all_spec().len() {
        None
    } else if token == Flag::all_spec()[k].name_spec() {
        Some(Flag::all_spec()[k])
    } else {
        named_flag(token, k + 1)
    }
}

/// The first flag, from the `k`-th on, that a token gives a value to in the form `--flag=value`,
/// with the value.
pub open spec fn inline_flag(token: Seq<char>, k: int) -> Option<(Flag, Seq<char>)>
    decreases Flag::all_spec().len() - k,
{
    if k < 0 || k >= Flag::all_spec().len() {
        None
    } else {
        let head = Flag::all_spec()[k].name_spec() + "="@;
        if text::begins_with(token, head) {
            Some((Flag::all_spec()[k], text::after_prefix(token, head)))
        } else {
            inline_flag(token, k + 1)
        }
    }
}

/// The flag that a token names.
fn find_named_flag(token: &str) -> (r: Option<Flag>)
    ensures
        r == named_flag(token@, 0),
{
    let all = Flag::all();
    let mut k: usize = 0;
    while k < all.len()
        invariant
            k <= all@.len(),
            all@ == Flag::all_spec(),
            named_flag(token@, 0) == named_flag(token@, k as int),
        decreases all.len() - k,
    {
        if text::same(token, all[k].name()) {
            return Some(all[k]);
        }
        k = k + 1;
    }
    None
}

/// The flag that a token gives a value to, with the value.
fn find_inline_flag(token: &str) -> (r: Option<(Flag, String)>)
    ensures
        match r {
            Some((f, v)) => inline_flag(token@, 0) == Some((f, v@)),
            None => inline_flag(token@, 0) is None,
        },
{
    let all = Flag::all();
    let mut k: usize = 0;
    while k < all.len()
        invariant
            k <= all@.len(),
            all@ == Flag::all_spec(),
            inline_flag(token@, 0) == inline_flag(token@, k as int),
        decreases all.len() - k,
    {
        let head = text::join2(all[k].name(), "=");
        match text::strip_prefix(token, head.as_str()) {
            Some(v) => {
                return Some((all[k], v));
            },
            None => {},
        }
        k = k + 1;
    }
    None
}

/// The subcommand that a token names, where it takes no arguments of its own.
pub open spec fn plain_command(token: Seq<char>) -> Option<CommandView> {
    if token == "run"@ {
        Some(CommandView::Run)
    } else if token == "paper"@ {
        Some(CommandView::Paper)
    } else if token == "paper-sim"@ {
        Some(CommandView::PaperSim)
    } else if token == "live"@ {
        Some(CommandView::Live)
    } else if token == "venue-check"@ {
        Some(CommandView::VenueCheck)
    } else if token == "check-config"@ {
        Some(CommandView::CheckConfig)
    } else if token == "discover"@ {
        Some(CommandView::Discover)
    } else if token == "schedule"@ {
        Some(CommandView::Schedule)
    } else if token == "feed"@ {
        Some(CommandView::Feed)
    } else if token == "compare"@ {
        Some(CommandView::Compare)
    } else if token == "vol"@ {
        Some(CommandView::Vol)
    } else if token == "ladder"@ {
        Some(CommandView::Ladder)
    } else if token == "fair"@ {
        Some(CommandView::Fair)
    } else if token == "record"@ {
        Some(CommandView::Record)
    } else if token == "latency"@ {
        Some(CommandView::Latency)
    } else if token == "dashboard"@ {
        Some(CommandView::Dashboard)
    } else if token == "digest"@ {
        Some(CommandView::Digest)
    } else {
        None
    }
}

/// The subcommand that a token names, where it takes no arguments of its own.
fn find_plain_command(token: &str) -> (r: Option<Command>)
    ensures
        match r {
            Some(c) => plain_command(token@) == Some(c@),
            None => plain_command(token@) is None,
        },
{
    if text::same(token, "run") {
        Some(Command::Run)
    } else if text::same(token, "paper") {
        Some(Command::Paper)
    } else if text::same(token, "paper-sim") {
        Some(Command::PaperSim)
    } else if text::same(token, "live") {
        Some(Command::Live)
    } else if text::same(token, "venue-check") {
        Some(Command::VenueCheck)
    } else if text::same(token, "check-config") {
        Some(Command::CheckConfig)
    } else if text::same(token, "discover") {
        Some(Command::Discover)
    } else if text::same(token, "schedule") {
        Some(Command::Schedule)
    } else if text::same(token, "feed") {
        Some(Command::Feed)
    } else if text::same(token, "compare") {
        Some(Command::Compare)
    } else if text::same(token, "vol") {
        Some(Command::Vol)
    } else if text::same(token, "ladder") {
        Some(Command::Ladder)
    } else if text::same(token, "fair") {
        Some(Command::Fair)
    } else if text::same(token, "record") {
        Some(Command::Record)
    } else if text::same(token, "latency") {
        Some(Command::Latency)
    } else if text::same(token, "dashboard") {
        Some(Command::Dashboard)
    } else if text::same(token, "digest") {
        Some(Command::Digest)
    } else {
        None
    }
}

/// A parsed command line.
#[derive(Clone, Debug, PartialEq, Eq)]
pub struct Cli {
    /// The subcommand.
    pub command: Command,
    /// `--config-dir`.
    pub config_dir: Option<String>,
    /// `--label`.
    pub label: Option<String>,
    /// `--out`.
    pub out: Option<String>,
    /// `--raw`.
    pub raw: Option<String>,
    /// `--source`.
    pub source: Option<FeedSource>,
    /// `--series`.
    pub series: Option<Series>,
    /// `--depth`.
    pub depth: Option<usize>,
    /// `--recycle-after`.
    pub recycle_after: Option<u64>,
    /// `--out-dir`.
    pub out_dir: Option<String>,
    /// `--with-model`.
    pub with_model: bool,
    /// The journal directory that follows `replay` or `sweep`.
    pub journal_dir: Option<String>,
    /// `--window`.
    pub window: Option<String>,
    /// `--min-edge`.
    pub min_edge: Option<String>,
    /// `--gamma`.
    pub gamma: Option<String>,
    /// `--cancel-theta`.
    pub cancel_theta: Option<String>,
    /// `--taker-buffer`.
    pub taker_buffer: Option<String>,
    /// `--rank`.
    pub rank: Option<String>,
    /// `--parallel`.
    pub parallel: bool,
    /// `--date`.
    pub date: Option<String>,
}

/// A command line as read so far.
struct Draft {
    command: Option<Command>,
    config_dir: Option<String>,
    label: Option<String>,
    out: Option<String>,
    raw: Option<String>,
    source: Option<FeedSource>,
    series: Option<Series>,
    depth: Option<usize>,
    recycle_after: Option<u64>,
    out_dir: Option<String>,
    with_model: bool,
    journal_dir: Option<String>,
    window: Option<String>,
    min_edge: Option<String>,
    gamma: Option<String>,
    cancel_theta: Option<String>,
    taker_buffer: Option<String>,
    rank: Option<String>,
    parallel: bool,
    date: Option<String>,
}

/// A command line as read so far, with its texts as character sequences.
pub struct CliView {
    pub command: Option<CommandView>,
    pub config_dir: Option<Seq<char>>,
    pub label: Option<Seq<char>>,
    pub out: Option<Seq<char>>,
    pub raw: Option<Seq<char>>,
    pub source: Option<FeedSource>,
    pub series: Option<Series>,
    pub depth: Option<usize>,
    pub recycle_after: Option<u64>,
    pub out_dir: Option<Seq<char>>,
    pub with_model: bool,
    pub journal_dir: Option<Seq<char>>,
    pub window: Option<Seq<char>>,
    pub min_edge: Option<Seq<char>>,
    pub gamma: Option<Seq<char>>,
    pub cancel_theta: Option<Seq<char>>,
    pub taker_buffer: Option<Seq<char>>,
    pub rank: Option<Seq<char>>,
    pub parallel: bool,
    pub date: Option<Seq<char>>,
}

impl View for Cli {
    type V = CliView;

    open spec fn view(&self) -> CliView {
        CliView {
            command: Some(self.command@),
            config_dir: chars_of(self.config_dir),
            label: chars_of(self.label),
            out: chars_of(self.out),
            raw: chars_of(self.raw),
            source: self.source,
            series: self.series,
            depth: self.depth,
            recycle_after: self.recycle_after,
            out_dir: chars_of(self.out_dir),
            with_model: self.with_model,
            journal_dir: chars_of(self.journal_dir),
            window: chars_of(self.window),
            min_edge: chars_of(self.min_edge),
            gamma: chars_of(self.gamma),
            cancel_theta: chars_of(self.cancel_theta),
            taker_buffer: chars_of(self.taker_buffer),
            rank: chars_of(self.rank),
            parallel: self.parallel,
            date: chars_of(self.date),
        }
    }
}

impl View for Draft {
    type V = CliView;

    closed spec fn view(&self) -> CliView {
        CliView {
            command: match self.command {
                Some(c) => Some(c@),
                None => None,
            },
            config_dir: chars_of(self.config_dir),
            label: chars_of(self.label),
            out: chars_of(self.out),
            raw: chars_of(self.raw),
            source: self.source,
            series: self.series,
            depth: self.depth,
            recycle_after: self.recycle_after,
            out_dir: chars_of(self.out_dir),
            with_model: self.with_model,
            journal_dir: chars_of(self.journal_dir),
            window: chars_of(self.window),
            min_edge: chars_of(self.min_edge),
            gamma: chars_of(self.gamma),
            cancel_theta: chars_of(self.cancel_theta),
            taker_buffer: chars_of(self.taker_buffer),
            rank: chars_of(self.rank),
            parallel: self.parallel,
            date: chars_of(self.date),
        }
    }
}

/// The command line before any token is read.
pub open spec fn empty_line() -> CliView {
    CliView {
        command: None,
        config_dir: None,
        label: None,
        out: None,
        raw: None,
        source: None,
        series: None,
        depth: None,
        recycle_after: None,
        out_dir: None,
        with_model: false,
        journal_dir: None,
        window: None,
        min_edge: None,
        gamma: None,
        cancel_theta: None,
        taker_buffer: None,
        rank: None,
        parallel: false,
        date: None,
    }
}

impl Draft {
    fn new() -> (r: Draft)
        ensures
            r@ == empty_line(),
    {
        Draft {
            command: None,
            config_dir: None,
            label: None,
            out: None,
            raw: None,
            source: None,
            series: None,
            depth: None,
            recycle_after: None,
            out_dir: None,
            with_model: false,
            journal_dir: None,
            window: None,
            min_edge: None,
            gamma: None,
            cancel_theta: None,
            taker_buffer: None,
            rank: None,
            parallel: false,
            date: None,
        }
    }
}
/// The texts of a list of arguments.
pub open spec fn texts(args: Seq<String>) -> Seq<Seq<char>> {
    args.map_values(|s: String| s@)
}

/// The series of a key, or what is wrong with the key.
pub open spec fn parsed_series(value: Seq<char>) -> Result<Series, Seq<char>> {
    match Series::parsed(value) {
        Some(s) => Ok(s),
        None => Err(
            "unknown series "@ + text::debug_quoted(value)
                + " (expected a key like BTC-5m, ETH-1h)"@,
        ),
    }
}

/// The series of a key, or what is wrong with the key.
pub fn parse_series(value: &str) -> (r: Result<Series, String>)
    ensures
        match r {
            Ok(s) => parsed_series(value@) == Ok::<Series, Seq<char>>(s),
            Err(e) => parsed_series(value@) == Err::<Series, Seq<char>>(e@),
        },
{
    match Series::parse(value) {
        Some(s) => Ok(s),
        None => Err(
            text::join3(
                "unknown series ",
                text::quoted(value).as_str(),
                " (expected a key like BTC-5m, ETH-1h)",
            ),
        ),
    }
}

/// A number of levels, at least one, or what is wrong with it.
pub open spec fn parsed_depth(value: Seq<char>) -> Result<usize, Seq<char>> {
    match text::parsed_unsigned(value, usize::MAX as nat) {
        Some(n) if n >= 1 => Ok(n as usize),
        _ => Err("--depth must be a positive integer, got "@ + text::debug_quoted(value)),
    }
}

/// A number of levels, at least one, or what is wrong with it.
pub fn parse_depth(value: &str) -> (r: Result<usize, String>)
    ensures
        match r {
            Ok(n) => parsed_depth(value@) == Ok::<usize, Seq<char>>(n),
            Err(e) => parsed_depth(value@) == Err::<usize, Seq<char>>(e@),
        },
{
    match text::parse_unsigned(value, usize::MAX as u64) {
        Some(n) if n >= 1 => Ok(n as usize),
        _ => Err(
            text::join2(
                "--depth must be a positive integer, got ",
                text::quoted(value).as_str(),
            ),
        ),
    }
}

/// A number of seconds, or what is wrong with it.
pub open spec fn parsed_secs(value: Seq<char>) -> Result<u64, Seq<char>> {
    match text::parsed_unsigned(value, u64::MAX as nat) {
        Some(n) => Ok(n as u64),
        None => Err(
            "--recycle-after must be a number of seconds, got "@ + text::debug_quoted(value),
        ),
    }
}

/// A number of seconds, or what is wrong with it.
pub fn parse_secs(value: &str) -> (r: Result<u64, String>)
    ensures
        match r {
            Ok(n) => parsed_secs(value@) == Ok::<u64, Seq<char>>(n),
            Err(e) => parsed_secs(value@) == Err::<u64, Seq<char>>(e@),
        },
{
    match text::parse_unsigned(value, u64::MAX) {
        Some(n) => Ok(n),
        None => Err(
            text::join2(
                "--recycle-after must be a number of seconds, got ",
                text::quoted(value).as_str(),
            ),
        ),
    }
}

/// A command line with a value given to a flag, or what is wrong with the value. A flag that is
/// given again takes the later value.
pub open spec fn with_value(d: CliView, flag: Flag, v: Seq<char>) -> Result<CliView, Seq<char>> {
    match flag {
        Flag::ConfigDir => Ok(CliView { config_dir: Some(v), ..d }),
        Flag::Label => Ok(CliView { label: Some(v), ..d }),
        Flag::Out => Ok(CliView { out: Some(v), ..d }),
        Flag::Raw => Ok(CliView { raw: Some(v), ..d }),
        Flag::Source => match FeedSource::parsed(v) {
            Ok(s) => Ok(CliView { source: Some(s), ..d }),
            Err(e) => Err(e),
        },
        Flag::Series => match parsed_series(v) {
            Ok(s) => Ok(CliView { series: Some(s), ..d }),
            Err(e) => Err(e),
        },
        Flag::Depth => match parsed_depth(v) {
            Ok(n) => Ok(CliView { depth: Some(n), ..d }),
            Err(e) => Err(e),
        },
        Flag::RecycleAfter => match parsed_secs(v) {
            Ok(n) => Ok(CliView { recycle_after: Some(n), ..d }),
            Err(e) => Err(e),
        },
        Flag::OutDir => Ok(CliView { out_dir: Some(v), ..d }),
        Flag::Window => Ok(CliView { window: Some(v), ..d }),
        Flag::Date => Ok(CliView { date: Some(v), ..d }),
        Flag::MinEdge => Ok(CliView { min_edge: Some(v), ..d }),
        Flag::Gamma => Ok(CliView { gamma: Some(v), ..d }),
        Flag::CancelTheta => Ok(CliView { cancel_theta: Some(v), ..d }),
        Flag::TakerBuffer => Ok(CliView { taker_buffer: Some(v), ..d }),
        Flag::Rank => Ok(CliView { rank: Some(v), ..d }),
    }
}

impl Draft {
    /// Gives a value to a flag.
    fn set(&mut self, flag: Flag, v: String) -> (r: Result<(), String>)
        ensures
            match r {
                Ok(_) => with_value(old(self)@, flag, v@) == Ok::<CliView, Seq<char>>(final(self)@),
                Err(e) => with_value(old(self)@, flag, v@) == Err::<CliView, Seq<char>>(e@),
            },
    {
        match flag {
            Flag::ConfigDir => {
                self.config_dir = Some(v);
            },
            Flag::Label => {
                self.label = Some(v);
            },
            Flag::Out => {
                self.out = Some(v);
            },
            Flag::Raw => {
                self.raw = Some(v);
            },
            Flag::Source => match FeedSource::parse(v.as_str()) {
                Ok(s) => {
                    self.source = Some(s);
                },
                Err(e) => {
                    return Err(e);
                },
            },
            Flag::Series => match parse_series(v.as_str()) {
                Ok(s) => {
                    self.series = Some(s);
                },
                Err(e) => {
                    return Err(e);
                },
            },
            Flag::Depth => match parse_depth(v.as_str()) {
                Ok(n) => {
                    self.depth = Some(n);
                },
                Err(e) => {
                    return Err(e);
                },
            },
            Flag::RecycleAfter => match parse_secs(v.as_str()) {
                Ok(n) => {
                    self.recycle_after = Some(n);
                },
                Err(e) => {
                    return Err(e);
                },
            },
            Flag::OutDir => {
                self.out_dir = Some(v);
            },
            Flag::Window => {
                self.window = Some(v);
            },
            Flag::Date => {
                self.date = Some(v);
            },
            Flag::MinEdge => {
                self.min_edge = Some(v);
            },
            Flag::Gamma => {
                self.gamma = Some(v);
            },
            Flag::CancelTheta => {
                self.cancel_theta = Some(v);
            },
            Flag::TakerBuffer => {
                self.taker_buffer = Some(v);
            },
            Flag::Rank => {
                self.rank = Some(v);
            },
        }
        Ok(())
    }
}

/// The argument of a control subcommand at place `i`: any token but a flag.
pub open spec fn positional(
    tokens: Seq<Seq<char>>,
    i: int,
    sub: Seq<char>,
    what: Seq<char>,
) -> Result<Seq<char>, Seq<char>> {
    if i >= tokens.len() {
        Err("control "@ + sub + " requires "@ + what)
    } else if text::begins_with(tokens[i], "--"@) {
        Err(
            "control "@ + sub + " expected "@ + what + ", got flag "@ + text::debug_quoted(
                tokens[i],
            ),
        )
    } else {
        Ok(tokens[i])
    }
}

/// The argument of a control subcommand at place `i`.
fn take_positional(args: &Vec<String>, i: usize, sub: &str, what: &str) -> (r: Result<
    String,
    String,
>)
    ensures
        match r {
            Ok(v) => i < args@.len() && positional(texts(args@), i as int, sub@, what@) == Ok::<
                Seq<char>,
                Seq<char>,
            >(v@),
            Err(e) => positional(texts(args@), i as int, sub@, what@) == Err::<
                Seq<char>,
                Seq<char>,
            >(e@),
        },
{
    if i >= args.len() {
        let mut e = text::join3("control ", sub, " requires ");
        e.append(what);
        return Err(e);
    }
    if text::starts_with(args[i].as_str(), "--") {
        let mut e = text::join5("control ", sub, " expected ", what, ", got flag ");
        e.append(text::quoted(args[i].as_str()).as_str());
        return Err(e);
    }
    Ok(args[i].clone())
}

/// The complaint where `control` stands alone.
pub open spec fn control_alone() -> Seq<char> {
    "control requires a subcommand (status|kill|reset|reset-daily-stop|set-capital|adjust-capital|enable-series|disable-series|set-param|arm-live|confirm-arm|disarm)"@
}

/// The `--series` that may follow `set-param KEY VAL` at place `i`, with the place after it.
pub open spec fn param_series(tokens: Seq<Seq<char>>, i: int) -> Result<
    (Option<Seq<char>>, int),
    Seq<char>,
> {
    if i < tokens.len() && tokens[i] == "--series"@ {
        if i + 1 < tokens.len() {
            Ok((Some(tokens[i + 1]), i + 2))
        } else {
            Err("--series requires a value"@)
        }
    } else if i < tokens.len() && text::begins_with(tokens[i], "--series="@) {
        Ok((Some(text::after_prefix(tokens[i], "--series="@)), i + 1))
    } else {
        Ok((None, i))
    }
}

/// The `--series` that may follow `set-param KEY VAL` at place `i`, with the place after it.
fn take_param_series(args: &Vec<String>, i: usize) -> (r: Result<(Option<String>, usize), String>)
    requires
        i <= args@.len(),
    ensures
        match r {
            Ok((s, next)) => next <= args@.len() && param_series(texts(args@), i as int) == Ok::<
                (Option<Seq<char>>, int),
                Seq<char>,
            >((chars_of(s), next as int)),
            Err(e) => param_series(texts(args@), i as int) == Err::<
                (Option<Seq<char>>, int),
                Seq<char>,
            >(e@),
        },
{
    if i < args.len() {
        if text::same(args[i].as_str(), "--series") {
            if i + 1 < args.len() {
                return Ok((Some(args[i + 1].clone()), i + 2));
            }
            return Err("--series requires a value".to_owned());
        }
        match text::strip_prefix(args[i].as_str(), "--series=") {
            Some(v) => {
                return Ok((Some(v), i + 1));
            },
            None => {},
        }
    }
    Ok((None, i))
}

/// A control subcommand with one argument, which stands at place `i`.
pub open spec fn with_positional(
    tokens: Seq<Seq<char>>,
    i: int,
    sub: Seq<char>,
    what: Seq<char>,
    make: spec_fn(Seq<char>) -> ControlSubView,
) -> Result<(ControlSubView, int), Seq<char>> {
    match positional(tokens, i, sub, what) {
        Ok(v) => Ok((make(v), i + 1)),
        Err(e) => Err(e),
    }
}

/// The control subcommand at place `i`, with the place after it and its arguments.
pub open spec fn control_sub(tokens: Seq<Seq<char>>, i: int) -> Result<
    (ControlSubView, int),
    Seq<char>,
> {
    if i >= tokens.len() {
        Err(control_alone())
    } else {
        let sub = tokens[i];
        let next = i + 1;
        if sub == "status"@ {
            Ok((ControlSubView::Status, next))
        } else if sub == "kill"@ {
            Ok((ControlSubView::Kill, next))
        } else if sub == "reset"@ {
            Ok((ControlSubView::Reset, next))
        } else if sub == "reset-daily-stop"@ {
            Ok((ControlSubView::ResetDailyStop, next))
        } else if sub == "set-capital"@ {
            with_positional(
                tokens,
                next,
                sub,
                "<amount>"@,
                |v: Seq<char>| ControlSubView::SetCapital(v),
            )
        } else if sub == "adjust-capital"@ {
            with_positional(
                tokens,
                next,
                sub,
                "<delta>"@,
                |v: Seq<char>| ControlSubView::AdjustCapital(v),
            )
        } else if sub == "enable-series"@ {
            with_positional(
                tokens,
                next,
                sub,
                "<series-key>"@,
                |v: Seq<char>| ControlSubView::EnableSeries(v),
            )
        } else if sub == "disable-series"@ {
            with_positional(
                tokens,
                next,
                sub,
                "<series-key>"@,
                |v: Seq<char>| ControlSubView::DisableSeries(v),
            )
        } else if sub == "set-param"@ {
            match positional(tokens, next, sub, "<key>"@) {
                Err(e) => Err(e),
                Ok(key) => match positional(tokens, next + 1, sub, "<value>"@) {
                    Err(e) => Err(e),
                    Ok(value) => match param_series(tokens, next + 2) {
                        Err(e) => Err(e),
                        Ok((series, after)) => Ok(
                            (ControlSubView::SetParam { series, key, value }, after),
                        ),
                    },
                },
            }
        } else if sub == "arm-live"@ {
            Ok((ControlSubView::ArmLive, next))
        } else if sub == "confirm-arm"@ {
            with_positional(
                tokens,
                next,
                sub,
                "<phrase>"@,
                |v: Seq<char>| ControlSubView::ConfirmArm(v),
            )
        } else if sub == "disarm"@ {
            Ok((ControlSubView::Disarm, next))
        } else {
            Err("unknown control subcommand "@ + text::debug_quoted(sub))
        }
    }
}

/// Parses the control subcommand at place `i`. It takes the tokens that it needs and no others,
/// so flags of the program may follow; the place after them is returned with it.
pub fn parse_control_sub(args: &Vec<String>, i: usize) -> (r: Result<(ControlSub, usize), String>)
    requires
        i <= args@.len(),
    ensures
        match r {
            Ok((c, next)) => i < next <= args@.len() && control_sub(texts(args@), i as int)
                == Ok::<(ControlSubView, int), Seq<char>>((c@, next as int)),
            Err(e) => control_sub(texts(args@), i as int) == Err::<
                (ControlSubView, int),
                Seq<char>,
            >(e@),
        },
{
    if i >= args.len() {
        return Err(
            "control requires a subcommand (status|kill|reset|reset-daily-stop|set-capital|adjust-capital|enable-series|disable-series|set-param|arm-live|confirm-arm|disarm)".to_owned(),
        );
    }
    let sub = args[i].as_str();
    let next: usize = i + 1;
    assert(texts(args@)[i as int] == sub@);
    if text::same(sub, "status") {
        Ok((ControlSub::Status, next))
    } else if text::same(sub, "kill") {
        Ok((ControlSub::Kill, next))
    } else if text::same(sub, "reset") {
        Ok((ControlSub::Reset, next))
    } else if text::same(sub, "reset-daily-stop") {
        Ok((ControlSub::ResetDailyStop, next))
    } else if text::same(sub, "set-capital") {
        match take_positional(args, next, sub, "<amount>") {
            Ok(v) => Ok((ControlSub::SetCapital(v), next + 1)),
            Err(e) => Err(e),
        }
    } else if text::same(sub, "adjust-capital") {
        match take_positional(args, next, sub, "<delta>") {
            Ok(v) => Ok((ControlSub::AdjustCapital(v), next + 1)),
            Err(e) => Err(e),
        }
    } else if text::same(sub, "enable-series") {
        match take_positional(args, next, sub, "<series-key>") {
            Ok(v) => Ok((ControlSub::EnableSeries(v), next + 1)),
            Err(e) => Err(e),
        }
    } else if text::same(sub, "disable-series") {
        match take_positional(args, next, sub, "<series-key>") {
            Ok(v) => Ok((ControlSub::DisableSeries(v), next + 1)),
            Err(e) => Err(e),
        }
    } else if text::same(sub, "set-param") {
        match take_positional(args, next, sub, "<key>") {
            Err(e) => Err(e),
            Ok(key) => match take_positional(args, next + 1, sub, "<value>") {
                Err(e) => Err(e),
                Ok(value) => match take_param_series(args, next + 2) {
                    Err(e) => Err(e),
                    Ok((series, after)) => Ok((ControlSub::SetParam { series, key, value }, after)),
                },
            },
        }
    } else if text::same(sub, "arm-live") {
        Ok((ControlSub::ArmLive, next))
    } else if text::same(sub, "confirm-arm") {
        match take_positional(args, next, sub, "<phrase>") {
            Ok(v) => Ok((ControlSub::ConfirmArm(v), next + 1)),
            Err(e) => Err(e),
        }
    } else if text::same(sub, "disarm") {
        Ok((ControlSub::Disarm, next))
    } else {
        Err(text::join2("unknown control subcommand ", text::quoted(sub).as_str()))
    }
}

/// The complaint about a second subcommand.
pub open spec fn second_command(arg: Seq<char>) -> Seq<char> {
    "more than one subcommand given (second: "@ + text::debug_quoted(arg) + ")"@
}

/// The command line with a subcommand put in, or the complaint that it has one.
pub open spec fn with_command(d: CliView, arg: Seq<char>, c: CommandView) -> Result<
    CliView,
    Seq<char>,
> {
    if d.command is Some {
        Err(second_command(arg))
    } else {
        Ok(CliView { command: Some(c), ..d })
    }
}

/// Reads the tokens from place `i` on into a command line, or says what is wrong.
///
/// A token is a subcommand, a switch, or a flag with its value behind it or behind an equals
/// sign. `control` takes its own arguments; `replay` and `sweep` take the token behind them as
/// the journal directory, unless it begins with two dashes.
pub open spec fn read_from(tokens: Seq<Seq<char>>, i: int, d: CliView) -> Result<
    CliView,
    Seq<char>,
>
    decreases tokens.len() - i,
{
    if i < 0 || i >= tokens.len() {
        Ok(d)
    } else {
        let arg = tokens[i];
        if plain_command(arg) is Some {
            match with_command(d, arg, plain_command(arg)->0) {
                Ok(d2) => read_from(tokens, i + 1, d2),
                Err(e) => Err(e),
            }
        } else if arg == "control"@ {
            if d.command is Some {
                Err(second_command(arg))
            } else {
                match control_sub(tokens, i + 1) {
                    Ok((sub, next)) => read_from(
                        tokens,
                        next,
                        CliView { command: Some(CommandView::Control(sub)), ..d },
                    ),
                    Err(e) => Err(e),
                }
            }
        } else if arg == "replay"@ || arg == "sweep"@ {
            let c = if arg == "replay"@ {
                CommandView::Replay
            } else {
                CommandView::Sweep
            };
            match with_command(d, arg, c) {
                Ok(d2) => if i + 1 < tokens.len() && !text::begins_with(tokens[i + 1], "--"@) {
                    read_from(tokens, i + 2, CliView { journal_dir: Some(tokens[i + 1]), ..d2 })
                } else {
                    read_from(tokens, i + 1, d2)
                },
                Err(e) => Err(e),
            }
        } else if arg == "--with-model"@ {
            read_from(tokens, i + 1, CliView { with_model: true, ..d })
        } else if arg == "--parallel"@ {
            read_from(tokens, i + 1, CliView { parallel: true, ..d })
        } else if named_flag(arg, 0) is Some {
            let flag = named_flag(arg, 0)->0;
            if i + 1 < tokens.len() {
                match with_value(d, flag, tokens[i + 1]) {
                    Ok(d2) => read_from(tokens, i + 2, d2),
                    Err(e) => Err(e),
                }
            } else {
                Err(flag.missing_spec())
            }
        } else if inline_flag(arg, 0) is Some {
            let (flag, v) = inline_flag(arg, 0)->0;
            match with_value(d, flag, v) {
                Ok(d2) => read_from(tokens, i + 1, d2),
                Err(e) => Err(e),
            }
        } else {
            Err("unrecognized argument: "@ + text::debug_quoted(arg))
        }
    }
}

/// The subcommand of a command line: `paper` where none was given.
pub open spec fn chosen(d: CliView) -> CommandView {
    match d.command {
        Some(c) => c,
        None => CommandView::Paper,
    }
}

/// Whether a flag of the sweep grid is given.
pub open spec fn has_sweep_flag(d: CliView) -> bool {
    d.min_edge is Some || d.gamma is Some || d.cancel_theta is Some || d.taker_buffer is Some
        || d.rank is Some || d.parallel
}

/// The complaint about a flag that does not go with the subcommand, if there is one.
pub open spec fn misplaced_flag(d: CliView) -> Option<Seq<char>> {
    let c = chosen(d);
    if d.label is Some && !(c is Latency) {
        Some("--label only applies to the latency subcommand"@)
    } else if d.out is Some && !(c is Latency || c is Replay || c is Sweep || c is Digest) {
        Some("--out only applies to the latency, replay, sweep, and digest subcommands"@)
    } else if d.date is Some && !(c is Digest) {
        Some("--date only applies to the digest subcommand"@)
    } else if d.window is Some && !(c is Replay || c is Sweep) {
        Some("--window only applies to the replay and sweep subcommands"@)
    } else if has_sweep_flag(d) && !(c is Sweep) {
        Some(
            "--min-edge/--gamma/--cancel-theta/--taker-buffer/--rank/--parallel only apply to the sweep subcommand"@,
        )
    } else if d.raw is Some && !(c is Feed || c is Ladder) {
        Some("--raw only applies to the feed and ladder subcommands"@)
    } else if d.source is Some && !(c is Feed) {
        Some("--source only applies to the feed subcommand"@)
    } else if d.series is Some && !(c is Ladder || c is Fair || c is PaperSim || c is Record || c
        is Dashboard || c is Run) {
        Some(
            "--series only applies to the run, ladder, fair, paper-sim, record, and dashboard subcommands"@,
        )
    } else if (d.depth is Some || d.recycle_after is Some) && !(c is Ladder) {
        Some("--depth/--recycle-after only apply to the ladder subcommand"@)
    } else if d.out_dir is Some && !(c is Record) {
        Some("--out-dir only applies to the record subcommand"@)
    } else if d.with_model && !(c is Dashboard) {
        Some("--with-model only applies to the dashboard subcommand"@)
    } else {
        None
    }
}

/// The command line that a list of arguments stands for, or what is wrong with it.
pub open spec fn parsed_args(tokens: Seq<Seq<char>>) -> Result<CliView, Seq<char>> {
    match read_from(tokens, 0, empty_line()) {
        Err(e) => Err(e),
        Ok(d) => match misplaced_flag(d) {
            Some(e) => Err(e),
            None => Ok(CliView { command: Some(chosen(d)), ..d }),
        },
    }
}

impl Draft {
    /// Puts a subcommand in.
    fn set_command(&mut self, arg: &str, c: Command) -> (r: Result<(), String>)
        ensures
            match r {
                Ok(_) => with_command(old(self)@, arg@, c@) == Ok::<CliView, Seq<char>>(
                    final(self)@,
                ),
                Err(e) => with_command(old(self)@, arg@, c@) == Err::<CliView, Seq<char>>(e@),
            },
    {
        if self.command.is_some() {
            return Err(
                text::join3(
                    "more than one subcommand given (second: ",
                    text::quoted(arg).as_str(),
                    ")",
                ),
            );
        }
        self.command = Some(c);
        Ok(())
    }

    /// Checks that the flags go with the subcommand.
    fn finish(self) -> (r: Result<Cli, String>)
        ensures
            match r {
                Ok(c) => misplaced_flag(self@) is None && c@ == (CliView {
                    command: Some(chosen(self@)),
                    ..self@
                }),
                Err(e) => misplaced_flag(self@) == Some(e@),
            },
    {
        let command = match self.command {
            Some(c) => c,
            None => Command::Paper,
        };
        if self.label.is_some() && !matches!(command, Command::Latency) {
            return Err("--label only applies to the latency subcommand".to_owned());
        }
        if self.out.is_some() && !matches!(
            command,
            Command::Latency | Command::Replay | Command::Sweep | Command::Digest
        ) {
            return Err(
                "--out only applies to the latency, replay, sweep, and digest subcommands".to_owned(),
            );
        }
        if self.date.is_some() && !matches!(command, Command::Digest) {
            return Err("--date only applies to the digest subcommand".to_owned());
        }
        if self.window.is_some() && !matches!(command, Command::Replay | Command::Sweep) {
            return Err("--window only applies to the replay and sweep subcommands".to_owned());
        }
        let sweep_only = self.min_edge.is_some() || self.gamma.is_some()
            || self.cancel_theta.is_some() || self.taker_buffer.is_some() || self.rank.is_some()
            || self.parallel;
        if sweep_only && !matches!(command, Command::Sweep) {
            return Err(
                "--min-edge/--gamma/--cancel-theta/--taker-buffer/--rank/--parallel only apply to the sweep subcommand".to_owned(),
            );
        }
        if self.raw.is_some() && !matches!(command, Command::Feed | Command::Ladder) {
            return Err("--raw only applies to the feed and ladder subcommands".to_owned());
        }
        if self.source.is_some() && !matches!(command, Command::Feed) {
            return Err("--source only applies to the feed subcommand".to_owned());
        }
        if self.series.is_some() && !matches!(
            command,
            Command::Ladder | Command::Fair | Command::PaperSim | Command::Record
                | Command::Dashboard | Command::Run
        ) {
            return Err(
                "--series only applies to the run, ladder, fair, paper-sim, record, and dashboard subcommands".to_owned(),
            );
        }
        if (self.depth.is_some() || self.recycle_after.is_some()) && !matches!(
            command,
            Command::Ladder
        ) {
            return Err("--depth/--recycle-after only apply to the ladder subcommand".to_owned());
        }
        if self.out_dir.is_some() && !matches!(command, Command::Record) {
            return Err("--out-dir only applies to the record subcommand".to_owned());
        }
        if self.with_model && !matches!(command, Command::Dashboard) {
            return Err("--with-model only applies to the dashboard subcommand".to_owned());
        }
        Ok(
            Cli {
                command,
                config_dir: self.config_dir,
                label: self.label,
                out: self.out,
                raw: self.raw,
                source: self.source,
                series: self.series,
                depth: self.depth,
                recycle_after: self.recycle_after,
                out_dir: self.out_dir,
                with_model: self.with_model,
                journal_dir: self.journal_dir,
                window: self.window,
                min_edge: self.min_edge,
                gamma: self.gamma,
                cancel_theta: self.cancel_theta,
                taker_buffer: self.taker_buffer,
                rank: self.rank,
                parallel: self.parallel,
                date: self.date,
            },
        )
    }
}

/// Parses the program's arguments.
pub fn parse_args(args: &Vec<String>) -> (r: Result<Cli, String>)
    ensures
        match r {
            Ok(c) => parsed_args(texts(args@)) == Ok::<CliView, Seq<char>>(c@),
            Err(e) => parsed_args(texts(args@)) == Err::<CliView, Seq<char>>(e@),
        },
{
    let ghost tokens = texts(args@);
    let mut d = Draft::new();
    let mut i: usize = 0;
    while i < args.len()
        invariant
            i <= args@.len(),
            tokens == texts(args@),
            read_from(tokens, 0, empty_line()) == read_from(tokens, i as int, d@),
        decreases args.len() - i,
    {
        let arg = args[i].as_str();
        assert(tokens[i as int] == arg@);
        match find_plain_command(arg) {
            Some(c) => {
                match d.set_command(arg, c) {
                    Ok(_) => {},
                    Err(e) => {
                        return Err(e);
                    },
                }
                i = i + 1;
                continue ;
            },
            None => {},
        }
        if text::same(arg, "control") {
            if d.command.is_some() {
                return Err(
                    text::join3(
                        "more than one subcommand given (second: ",
                        text::quoted(arg).as_str(),
                        ")",
                    ),
                );
            }
            match parse_control_sub(args, i + 1) {
                Ok((sub, next)) => {
                    d.command = Some(Command::Control(sub));
                    i = next;
                },
                Err(e) => {
                    return Err(e);
                },
            }
        } else if text::same(arg, "replay") || text::same(arg, "sweep") {
            let c = if text::same(arg, "replay") {
                Command::Replay
            } else {
                Command::Sweep
            };
            match d.set_command(arg, c) {
                Ok(_) => {},
                Err(e) => {
                    return Err(e);
                },
            }
            if i + 1 < args.len() && !text::starts_with(args[i + 1].as_str(), "--") {
                d.journal_dir = Some(args[i + 1].clone());
                i = i + 2;
            } else {
                i = i + 1;
            }
        } else if text::same(arg, "--with-model") {
            d.with_model = true;
            i = i + 1;
        } else if text::same(arg, "--parallel") {
            d.parallel = true;
            i = i + 1;
        } else {
            match find_named_flag(arg) {
                Some(flag) => {
                    if i + 1 >= args.len() {
                        return Err(flag.missing());
                    }
                    match d.set(flag, args[i + 1].clone()) {
                        Ok(_) => {},
                        Err(e) => {
                            return Err(e);
                        },
                    }
                    i = i + 2;
                },
                None => match find_inline_flag(arg) {
                    Some((flag, v)) => {
                        match d.set(flag, v) {
                            Ok(_) => {},
                            Err(e) => {
                                return Err(e);
                            },
                        }
                        i = i + 1;
                    },
                    None => {
                        return Err(
                            text::join2("unrecognized argument: ", text::quoted(arg).as_str()),
                        );
                    },
                },
            }
        }
    }
    d.finish()
}

/// Whether the flags of a command line go with its subcommand.
pub open spec fn flags_in_place(c: CliView) -> bool {
    &&& c.label is Some ==> c.command == Some(CommandView::Latency)
    &&& c.date is Some ==> c.command == Some(CommandView::Digest)
    &&& c.source is Some ==> c.command == Some(CommandView::Feed)
    &&& c.depth is Some || c.recycle_after is Some ==> c.command == Some(CommandView::Ladder)
    &&& c.out_dir is Some ==> c.command == Some(CommandView::Record)
    &&& c.with_model ==> c.command == Some(CommandView::Dashboard)
    &&& has_sweep_flag(c) ==> c.command == Some(CommandView::Sweep)
    &&& c.window is Some ==> c.command == Some(CommandView::Sweep) || c.command == Some(
        CommandView::Replay,
    )
    &&& c.raw is Some ==> c.command == Some(CommandView::Feed) || c.command == Some(
        CommandView::Ladder,
    )
    &&& c.out is Some ==> c.command == Some(CommandView::Latency) || c.command == Some(
        CommandView::Replay,
    ) || c.command == Some(CommandView::Sweep) || c.command == Some(CommandView::Digest)
    &&& c.series is Some ==> c.command == Some(CommandView::Run) || c.command == Some(
        CommandView::Ladder,
    ) || c.command == Some(CommandView::Fair) || c.command == Some(CommandView::PaperSim)
        || c.command == Some(CommandView::Record) || c.command == Some(CommandView::Dashboard)
    &&& c.journal_dir is Some ==> c.command == Some(CommandView::Replay) || c.command == Some(
        CommandView::Sweep,
    )
}

/// Every command line that parses has a subcommand, and only flags and a journal directory that go
/// with it.
pub proof fn law_flags_in_place(tokens: Seq<Seq<char>>)
    requires
        parsed_args(tokens) is Ok,
    ensures
        parsed_args(tokens)->Ok_0.command is Some,
        flags_in_place(parsed_args(tokens)->Ok_0),
{
    lemma_journal_dir(tokens, 0, empty_line());
}

/// Live trading is asked for only by the word `live` among the arguments.
pub proof fn law_live_is_spelled_out(tokens: Seq<Seq<char>>)
    requires
        parsed_args(tokens) is Ok,
        parsed_args(tokens)->Ok_0.command == Some(CommandView::Live),
    ensures
        tokens.contains("live"@),
{
    lemma_live_token(tokens, 0, empty_line());
}

proof fn lemma_live_token(tokens: Seq<Seq<char>>, i: int, d: CliView)
    requires
        0 <= i,
        read_from(tokens, i, d) is Ok,
        read_from(tokens, i, d)->Ok_0.command == Some(CommandView::Live),
        d.command != Some(CommandView::Live),
    ensures
        tokens.contains("live"@),
    decreases tokens.len() - i,
{
    if i < tokens.len() {
        let arg = tokens[i];
        if plain_command(arg) is Some {
            if arg != "live"@ {
                lemma_live_token(tokens, i + 1, CliView { command: plain_command(arg), ..d });
            }
        } else if arg == "control"@ {
            let (sub, next) = control_sub(tokens, i + 1)->Ok_0;
            lemma_live_token(
                tokens,
                next,
                CliView { command: Some(CommandView::Control(sub)), ..d },
            );
        } else if arg == "replay"@ || arg == "sweep"@ {
            let c = if arg == "replay"@ {
                CommandView::Replay
            } else {
                CommandView::Sweep
            };
            let d2 = CliView { command: Some(c), ..d };
            if i + 1 < tokens.len() && !text::begins_with(tokens[i + 1], "--"@) {
                lemma_live_token(tokens, i + 2, CliView { journal_dir: Some(tokens[i + 1]), ..d2 });
            } else {
                lemma_live_token(tokens, i + 1, d2);
            }
        } else if arg == "--with-model"@ {
            lemma_live_token(tokens, i + 1, CliView { with_model: true, ..d });
        } else if arg == "--parallel"@ {
            lemma_live_token(tokens, i + 1, CliView { parallel: true, ..d });
        } else if named_flag(arg, 0) is Some {
            lemma_live_token(
                tokens,
                i + 2,
                with_value(d, named_flag(arg, 0)->0, tokens[i + 1])->Ok_0,
            );
        } else {
            let (flag, v) = inline_flag(arg, 0)->0;
            lemma_live_token(tokens, i + 1, with_value(d, flag, v)->Ok_0);
        }
    }
}

/// The place of a flag among all.
spec fn flag_place(flag: Flag) -> int {
    match flag {
        Flag::ConfigDir => 0,
        Flag::Label => 1,
        Flag::Out => 2,
        Flag::Raw => 3,
        Flag::Source => 4,
        Flag::Series => 5,
        Flag::Depth => 6,
        Flag::RecycleAfter => 7,
        Flag::OutDir => 8,
        Flag::Window => 9,
        Flag::Date => 10,
        Flag::MinEdge => 11,
        Flag::Gamma => 12,
        Flag::CancelTheta => 13,
        Flag::TakerBuffer => 14,
        Flag::Rank => 15,
    }
}

/// A flag's name begins with two dashes and holds no equals sign.
proof fn lemma_name_shape(flag: Flag)
    ensures
        flag.name_spec().len() >= 5,
        flag.name_spec().len() <= 15,
        flag.name_spec()[0] == '-',
        flag.name_spec()[1] == '-',
        forall|i: int| 0 <= i < flag.name_spec().len() ==> flag.name_spec()[i] != '=',
{
    reveal_strlit("--config-dir");
    reveal_strlit("--label");
    reveal_strlit("--out");
    reveal_strlit("--raw");
    reveal_strlit("--source");
    reveal_strlit("--series");
    reveal_strlit("--depth");
    reveal_strlit("--recycle-after");
    reveal_strlit("--out-dir");
    reveal_strlit("--window");
    reveal_strlit("--date");
    reveal_strlit("--min-edge");
    reveal_strlit("--gamma");
    reveal_strlit("--cancel-theta");
    reveal_strlit("--taker-buffer");
    reveal_strlit("--rank");
    let name = flag.name_spec();
    assert forall|i: int| 0 <= i < name.len() implies name[i] != '=' by {
        if i == 0 || i == 1 {
        } else if i == 2 {
        } else if i == 3 {
        } else if i == 4 {
        } else if i == 5 {
        } else if i == 6 {
        } else if i == 7 {
        } else if i == 8 {
        } else if i == 9 {
        } else if i == 10 {
        } else if i == 11 {
        } else if i == 12 {
        } else if i == 13 {
        } else if i == 14 {
        }
    }
}

/// No two flags share a name.
proof fn lemma_name_unique(a: Flag, b: Flag)
    ensures
        a.name_spec() == b.name_spec() <==> a == b,
{
    reveal_strlit("--config-dir");
    reveal_strlit("--label");
    reveal_strlit("--out");
    reveal_strlit("--raw");
    reveal_strlit("--source");
    reveal_strlit("--series");
    reveal_strlit("--depth");
    reveal_strlit("--recycle-after");
    reveal_strlit("--out-dir");
    reveal_strlit("--window");
    reveal_strlit("--date");
    reveal_strlit("--min-edge");
    reveal_strlit("--gamma");
    reveal_strlit("--cancel-theta");
    reveal_strlit("--taker-buffer");
    reveal_strlit("--rank");
    if a.name_spec() == b.name_spec() {
        assert(a.name_spec().len() == b.name_spec().len());
        assert(a.name_spec()[2] == b.name_spec()[2]);
        assert(a.name_spec()[3] == b.name_spec()[3]);
    }
}

/// A token that begins with two dashes is no subcommand.
proof fn lemma_dashes_are_no_command(token: Seq<char>)
    requires
        token.len() >= 1,
        token[0] == '-',
    ensures
        plain_command(token) is None,
        token != "control"@,
        token != "replay"@,
        token != "sweep"@,
{
    reveal_strlit("run");
    reveal_strlit("paper");
    reveal_strlit("paper-sim");
    reveal_strlit("live");
    reveal_strlit("venue-check");
    reveal_strlit("check-config");
    reveal_strlit("discover");
    reveal_strlit("schedule");
    reveal_strlit("feed");
    reveal_strlit("compare");
    reveal_strlit("vol");
    reveal_strlit("ladder");
    reveal_strlit("fair");
    reveal_strlit("record");
    reveal_strlit("latency");
    reveal_strlit("dashboard");
    reveal_strlit("digest");
    reveal_strlit("control");
    reveal_strlit("replay");
    reveal_strlit("sweep");
}

/// A flag is none of the switches.
proof fn lemma_flag_is_no_switch(flag: Flag)
    ensures
        flag.name_spec() != "--with-model"@,
        flag.name_spec() != "--parallel"@,
{
    reveal_strlit("--config-dir");
    reveal_strlit("--label");
    reveal_strlit("--out");
    reveal_strlit("--raw");
    reveal_strlit("--source");
    reveal_strlit("--series");
    reveal_strlit("--depth");
    reveal_strlit("--recycle-after");
    reveal_strlit("--out-dir");
    reveal_strlit("--window");
    reveal_strlit("--date");
    reveal_strlit("--min-edge");
    reveal_strlit("--gamma");
    reveal_strlit("--cancel-theta");
    reveal_strlit("--taker-buffer");
    reveal_strlit("--rank");
    reveal_strlit("--with-model");
    reveal_strlit("--parallel");
    let name = flag.name_spec();
    if name == "--with-model"@ {
        assert(name.len() == "--with-model"@.len());
        assert(name[2] == "--with-model"@[2]);
    }
    if name == "--parallel"@ {
        assert(name.len() == "--parallel"@.len());
        assert(name[2] == "--parallel"@[2]);
    }
}

/// A token with an equals sign is none of the switches.
proof fn lemma_switch_has_no_equals(token: Seq<char>, i: int)
    requires
        0 <= i < token.len(),
        token[i] == '=',
    ensures
        token != "--with-model"@,
        token != "--parallel"@,
{
    reveal_strlit("--with-model");
    reveal_strlit("--parallel");
    if i == 0 || i == 1 || i == 2 || i == 3 || i == 4 || i == 5 {
    } else if i == 6 || i == 7 || i == 8 || i == 9 || i == 10 || i == 11 {
    }
}

proof fn lemma_named_from(flag: Flag, k: int)
    requires
        0 <= k <= flag_place(flag),
    ensures
        named_flag(flag.name_spec(), k) == Some(flag),
    decreases flag_place(flag) - k,
{
    lemma_name_unique(Flag::all_spec()[k], flag);
    assert(Flag::all_spec()[flag_place(flag)] == flag);
    if k < flag_place(flag) {
        assert(flag_place(Flag::all_spec()[k]) == k);
        lemma_named_from(flag, k + 1);
    }
}

proof fn lemma_named_none(token: Seq<char>, i: int, k: int)
    requires
        0 <= i < token.len(),
        token[i] == '=',
        0 <= k <= 16,
    ensures
        named_flag(token, k) is None,
    decreases 16 - k,
{
    if k < 16 {
        lemma_name_shape(Flag::all_spec()[k]);
        lemma_named_none(token, i, k + 1);
    }
}

proof fn lemma_inline_from(flag: Flag, v: Seq<char>, k: int)
    requires
        0 <= k <= flag_place(flag),
    ensures
        inline_flag(flag.name_spec() + "="@ + v, k) == Some((flag, v)),
    decreases flag_place(flag) - k,
{
    reveal_strlit("=");
    let token = flag.name_spec() + "="@ + v;
    let f = Flag::all_spec()[k];
    let head = f.name_spec() + "="@;
    let n = f.name_spec().len() as int;
    lemma_name_shape(f);
    lemma_name_shape(flag);
    lemma_name_unique(f, flag);
    assert(Flag::all_spec()[flag_place(flag)] == flag);
    if k == flag_place(flag) {
        assert(token.subrange(0, head.len() as int) =~= head);
        assert(text::after_prefix(token, head) =~= v);
    } else {
        assert(flag_place(f) == k);
        if text::begins_with(token, head) {
            let m = flag.name_spec().len() as int;
            assert(token[m] == '=');
            assert(head[n] == '=');
            assert(token.subrange(0, head.len() as int)[n] == token[n]);
            if n < m {
                assert(token[n] == flag.name_spec()[n]);
            } else if m < n {
                assert(token.subrange(0, head.len() as int)[m] == f.name_spec()[m]);
            } else {
                assert forall|j: int| 0 <= j < n implies f.name_spec()[j] == flag.name_spec()[j] by {
                    assert(token.subrange(0, head.len() as int)[j] == head[j]);
                }
                assert(f.name_spec() =~= flag.name_spec());
            }
        }
        lemma_inline_from(flag, v, k + 1);
    }
}

/// How the two forms of a flag are recognised.
proof fn lemma_flag_token(flag: Flag, v: Seq<char>)
    ensures
        plain_command(flag.name_spec()) is None,
        flag.name_spec() != "control"@ && flag.name_spec() != "replay"@ && flag.name_spec()
            != "sweep"@,
        flag.name_spec() != "--with-model"@ && flag.name_spec() != "--parallel"@,
        named_flag(flag.name_spec(), 0) == Some(flag),
        ({
            let token = flag.name_spec() + "="@ + v;
            &&& plain_command(token) is None
            &&& token != "control"@ && token != "replay"@ && token != "sweep"@
            &&& token != "--with-model"@ && token != "--parallel"@
            &&& named_flag(token, 0) is None
            &&& inline_flag(token, 0) == Some((flag, v))
        }),
{
    reveal_strlit("=");
    let token = flag.name_spec() + "="@ + v;
    let n = flag.name_spec().len() as int;
    lemma_name_shape(flag);
    lemma_dashes_are_no_command(flag.name_spec());
    lemma_dashes_are_no_command(token);
    lemma_flag_is_no_switch(flag);
    assert(token[n] == '=');
    lemma_switch_has_no_equals(token, n);
    lemma_named_from(flag, 0);
    lemma_named_none(token, n, 0);
    lemma_inline_from(flag, v, 0);
}

/// The tokens of two lists from their places on are the same.
spec fn same_rest(s: Seq<Seq<char>>, i: int, t: Seq<Seq<char>>, j: int) -> bool {
    &&& 0 <= i <= s.len()
    &&& 0 <= j <= t.len()
    &&& s.len() - i == t.len() - j
    &&& forall|k: int| 0 <= k < s.len() - i ==> #[trigger] s[i + k] == t[j + k]
}

/// What is the same from two places on is the same from later ones on.
proof fn lemma_same_rest_later(s: Seq<Seq<char>>, i: int, t: Seq<Seq<char>>, j: int, n: int)
    requires
        same_rest(s, i, t, j),
        0 <= n <= s.len() - i,
    ensures
        same_rest(s, i + n, t, j + n),
{
    assert forall|k: int| 0 <= k < s.len() - (i + n) implies #[trigger] s[i + n + k] == t[j + n
        + k] by {
        assert(s[i + (n + k)] == t[j + (n + k)]);
    }
}

/// A control subcommand is read from its place on alone.
proof fn lemma_control_shift(s: Seq<Seq<char>>, i: int, t: Seq<Seq<char>>, j: int)
    requires
        same_rest(s, i, t, j),
    ensures
        match control_sub(s, i) {
            Ok((sub, next)) => i < next <= s.len() && control_sub(t, j) == Ok::<
                (ControlSubView, int),
                Seq<char>,
            >((sub, next - i + j)),
            Err(e) => control_sub(t, j) == Err::<(ControlSubView, int), Seq<char>>(e),
        },
{
    let left = s.len() - i;
    if left > 0 {
        assert(s[i + 0] == t[j + 0]);
    }
    if left > 1 {
        assert(s[i + 1] == t[j + 1]);
    }
    if left > 2 {
        assert(s[i + 2] == t[j + 2]);
    }
    if left > 3 {
        assert(s[i + 3] == t[j + 3]);
    }
    if left > 4 {
        assert(s[i + 4] == t[j + 4]);
    }
}

/// Tokens are read from a place on alone.
proof fn lemma_read_shift(s: Seq<Seq<char>>, i: int, t: Seq<Seq<char>>, j: int, d: CliView)
    requires
        same_rest(s, i, t, j),
    ensures
        read_from(s, i, d) == read_from(t, j, d),
    decreases s.len() - i,
{
    if i < s.len() {
        assert(s[i + 0] == t[j + 0]);
        let arg = s[i];
        lemma_same_rest_later(s, i, t, j, 1);
        if i + 1 < s.len() {
            assert(s[i + 1] == t[j + 1]);
            lemma_same_rest_later(s, i, t, j, 2);
        }
        if plain_command(arg) is Some {
            if d.command is None {
                lemma_read_shift(
                    s,
                    i + 1,
                    t,
                    j + 1,
                    CliView { command: plain_command(arg), ..d },
                );
            }
        } else if arg == "control"@ {
            if d.command is None {
                lemma_control_shift(s, i + 1, t, j + 1);
                if let Ok((sub, next)) = control_sub(s, i + 1) {
                    lemma_same_rest_later(s, i, t, j, next - i);
                    lemma_read_shift(
                        s,
                        next,
                        t,
                        next - i + j,
                        CliView { command: Some(CommandView::Control(sub)), ..d },
                    );
                }
            }
        } else if arg == "replay"@ || arg == "sweep"@ {
            let c = if arg == "replay"@ {
                CommandView::Replay
            } else {
                CommandView::Sweep
            };
            if d.command is None {
                let d2 = CliView { command: Some(c), ..d };
                if i + 1 < s.len() && !text::begins_with(s[i + 1], "--"@) {
                    lemma_read_shift(
                        s,
                        i + 2,
                        t,
                        j + 2,
                        CliView { journal_dir: Some(s[i + 1]), ..d2 },
                    );
                } else {
                    lemma_read_shift(s, i + 1, t, j + 1, d2);
                }
            }
        } else if arg == "--with-model"@ {
            lemma_read_shift(s, i + 1, t, j + 1, CliView { with_model: true, ..d });
        } else if arg == "--parallel"@ {
            lemma_read_shift(s, i + 1, t, j + 1, CliView { parallel: true, ..d });
        } else if named_flag(arg, 0) is Some {
            if i + 1 < s.len() {
                if let Ok(d2) = with_value(d, named_flag(arg, 0)->0, s[i + 1]) {
                    lemma_read_shift(s, i + 2, t, j + 2, d2);
                }
            }
        } else if inline_flag(arg, 0) is Some {
            let (flag, v) = inline_flag(arg, 0)->0;
            if let Ok(d2) = with_value(d, flag, v) {
                lemma_read_shift(s, i + 1, t, j + 1, d2);
            }
        }
    }
}

/// Whether a list begins with another.
spec fn extends(s: Seq<Seq<char>>, a: Seq<Seq<char>>) -> bool {
    a.len() <= s.len() && forall|k: int| 0 <= k < a.len() ==> #[trigger] s[k] == a[k]
}

/// Whether the control subcommand at place `i` wants a token more than there are.
pub open spec fn control_wants_more(tokens: Seq<Seq<char>>, i: int) -> bool {
    if i >= tokens.len() {
        true
    } else if tokens[i] == "set-param"@ {
        ||| i + 1 >= tokens.len()
        ||| i + 2 >= tokens.len() && !text::begins_with(tokens[i + 1], "--"@)
        ||| i + 4 == tokens.len() && tokens[i + 3] == "--series"@ && !text::begins_with(
            tokens[i + 1],
            "--"@,
        ) && !text::begins_with(tokens[i + 2], "--"@)
    } else {
        i + 1 >= tokens.len() && (tokens[i] == "set-capital"@ || tokens[i] == "adjust-capital"@
            || tokens[i] == "enable-series"@ || tokens[i] == "disable-series"@ || tokens[i]
            == "confirm-arm"@)
    }
}

/// Whether tokens end where a flag wants its value, or a control subcommand an argument.
pub open spec fn wants_more(tokens: Seq<Seq<char>>, i: int, d: CliView) -> bool
    decreases tokens.len() - i,
{
    if i < 0 || i >= tokens.len() {
        false
    } else {
        let arg = tokens[i];
        if plain_command(arg) is Some {
            with_command(d, arg, plain_command(arg)->0) matches Ok(d2) && wants_more(
                tokens,
                i + 1,
                d2,
            )
        } else if arg == "control"@ {
            d.command is None && match control_sub(tokens, i + 1) {
                Ok((sub, next)) => next > i && wants_more(
                    tokens,
                    next,
                    CliView { command: Some(CommandView::Control(sub)), ..d },
                ),
                Err(_) => control_wants_more(tokens, i + 1),
            }
        } else if arg == "replay"@ || arg == "sweep"@ {
            let c = if arg == "replay"@ {
                CommandView::Replay
            } else {
                CommandView::Sweep
            };
            with_command(d, arg, c) matches Ok(d2) && if i + 1 < tokens.len()
                && !text::begins_with(tokens[i + 1], "--"@) {
                wants_more(tokens, i + 2, CliView { journal_dir: Some(tokens[i + 1]), ..d2 })
            } else {
                wants_more(tokens, i + 1, d2)
            }
        } else if arg == "--with-model"@ {
            wants_more(tokens, i + 1, CliView { with_model: true, ..d })
        } else if arg == "--parallel"@ {
            wants_more(tokens, i + 1, CliView { parallel: true, ..d })
        } else if named_flag(arg, 0) is Some {
            i + 1 >= tokens.len() || (with_value(d, named_flag(arg, 0)->0, tokens[i + 1]) matches Ok(
                d2,
            ) && wants_more(tokens, i + 2, d2))
        } else if inline_flag(arg, 0) is Some {
            with_value(d, (inline_flag(arg, 0)->0).0, (inline_flag(arg, 0)->0).1) matches Ok(d2)
                && wants_more(tokens, i + 1, d2)
        } else {
            false
        }
    }
}

/// A control subcommand that wants nothing more reads alike whatever follows, but that a `--series`
/// may follow a parameter.
proof fn lemma_control_extended(a: Seq<Seq<char>>, s: Seq<Seq<char>>, i: int)
    requires
        extends(s, a),
        0 <= i <= a.len(),
        control_sub(a, i) is Ok || !control_wants_more(a, i),
    ensures
        control_sub(a, i) is Err ==> control_sub(s, i) == control_sub(a, i),
        control_sub(a, i) is Ok ==> ({
            let (sub, next) = control_sub(a, i)->Ok_0;
            &&& i < next <= a.len()
            &&& match sub {
                ControlSubView::SetParam { series: None, key, value } if next == a.len() =>
                control_sub(s, i) == (match param_series(s, next) {
                    Ok((series, after)) => Ok::<(ControlSubView, int), Seq<char>>(
                        (ControlSubView::SetParam { series, key, value }, after),
                    ),
                    Err(e) => Err(e),
                }),
                _ => control_sub(s, i) == control_sub(a, i),
            }
        }),
{
    let n = a.len();
    if i < n {
        assert(s[i] == a[i]);
    }
    if i + 1 < n {
        assert(s[i + 1] == a[i + 1]);
    }
    if i + 2 < n {
        assert(s[i + 2] == a[i + 2]);
    }
    if i + 3 < n {
        assert(s[i + 3] == a[i + 3]);
    }
    if i + 4 < n {
        assert(s[i + 4] == a[i + 4]);
    }
}

/// The `--series` that may follow a parameter, in its two forms.
proof fn lemma_param_series_forms(
    spaced: Seq<Seq<char>>,
    inline: Seq<Seq<char>>,
    n: int,
    flag: Flag,
    v: Seq<char>,
)
    requires
        0 <= n,
        n + 1 < spaced.len(),
        n < inline.len(),
        spaced[n] == flag.name_spec(),
        spaced[n + 1] == v,
        inline[n] == flag.name_spec() + "="@ + v,
    ensures
        flag is Series ==> param_series(spaced, n) == Ok::<(Option<Seq<char>>, int), Seq<char>>(
            (Some(v), n + 2),
        ) && param_series(inline, n) == Ok::<(Option<Seq<char>>, int), Seq<char>>((Some(v), n + 1)),
        !(flag is Series) ==> param_series(spaced, n) == Ok::<
            (Option<Seq<char>>, int),
            Seq<char>,
        >((None, n)) && param_series(inline, n) == Ok::<(Option<Seq<char>>, int), Seq<char>>(
            (None, n),
        ),
{
    reveal_strlit("=");
    reveal_strlit("--series");
    reveal_strlit("--series=");
    let name = flag.name_spec();
    let token = name + "="@ + v;
    let m = name.len() as int;
    let head = "--series="@;
    lemma_name_shape(flag);
    lemma_name_unique(flag, Flag::Series);
    assert(Flag::Series.name_spec() == "--series"@);
    assert(token[m] == '=');
    assert("--series"@ != token) by {
        if "--series"@ == token {
            assert("--series"@[m] == '=');
        }
    }
    if flag is Series {
        assert(name + "="@ =~= head);
        assert(token =~= head + v);
        assert(token.subrange(0, head.len() as int) =~= head);
        assert(text::after_prefix(token, head) =~= v);
    } else {
        if text::begins_with(name, head) {
            assert(name.subrange(0, 9)[8] == name[8]);
        }
        if text::begins_with(token, head) {
            let front = token.subrange(0, 9);
            assert(front[8] == token[8]);
            if m > 8 {
                assert(token[8] == name[8]);
            } else if m < 8 {
                assert(front[m] == token[m]);
                assert(head[m] == '=');
            } else {
                assert forall|j: int| 0 <= j < 8 implies name[j] == "--series"@[j] by {
                    assert(front[j] == token[j]);
                }
                assert(name =~= "--series"@);
            }
        }
    }
}

/// Behind arguments that want nothing more, the two forms of a flag read alike.
proof fn lemma_forms_behind(
    a: Seq<Seq<char>>,
    flag: Flag,
    v: Seq<char>,
    b: Seq<Seq<char>>,
    i: int,
    d: CliView,
)
    requires
        0 <= i <= a.len(),
        !wants_more(a, i, d),
    ensures
        read_from(a + seq![flag.name_spec(), v] + b, i, d) == read_from(
            a + seq![flag.name_spec() + "="@ + v] + b,
            i,
            d,
        ),
    decreases a.len() - i,
{
    let n = a.len() as int;
    let s = a + seq![flag.name_spec(), v] + b;
    let t = a + seq![flag.name_spec() + "="@ + v] + b;
    assert(s[n] == flag.name_spec() && s[n + 1] == v);
    assert(t[n] == flag.name_spec() + "="@ + v);
    assert(extends(s, a) && extends(t, a));
    lemma_flag_token(flag, v);
    lemma_name_shape(flag);
    assert(same_rest(s, n + 2, t, n + 1)) by {
        assert forall|k: int| 0 <= k < s.len() - (n + 2) implies #[trigger] s[n + 2 + k] == t[n + 1
            + k] by {
            assert(s[n + 2 + k] == b[k]);
        }
    }
    if i == n {
        if let Ok(d2) = with_value(d, flag, v) {
            lemma_read_shift(s, n + 2, t, n + 1, d2);
        }
    } else {
        let arg = a[i];
        assert(s[i] == arg && t[i] == arg);
        if i + 1 < n {
            assert(s[i + 1] == a[i + 1] && t[i + 1] == a[i + 1]);
        }
        if plain_command(arg) is Some {
            if d.command is None {
                let d2 = CliView { command: plain_command(arg), ..d };
                lemma_forms_behind(a, flag, v, b, i + 1, d2);
            }
        } else if arg == "control"@ {
            if d.command is None {
                lemma_control_extended(a, s, i + 1);
                lemma_control_extended(a, t, i + 1);
                lemma_param_series_forms(s, t, n, flag, v);
                if let Ok((sub, next)) = control_sub(a, i + 1) {
                    match sub {
                        ControlSubView::SetParam { series: None, key, value } if next == n
                            && flag is Series => {
                            let with = ControlSubView::SetParam { series: Some(v), key, value };
                            lemma_read_shift(
                                s,
                                n + 2,
                                t,
                                n + 1,
                                CliView { command: Some(CommandView::Control(with)), ..d },
                            );
                        },
                        _ => {
                            let d2 = CliView { command: Some(CommandView::Control(sub)), ..d };
                            lemma_forms_behind(a, flag, v, b, next, d2);
                        },
                    }
                }
            }
        } else if arg == "replay"@ || arg == "sweep"@ {
            let c = if arg == "replay"@ {
                CommandView::Replay
            } else {
                CommandView::Sweep
            };
            if d.command is None {
                let d2 = CliView { command: Some(c), ..d };
                if i + 1 < n && !text::begins_with(a[i + 1], "--"@) {
                    let d3 = CliView { journal_dir: Some(a[i + 1]), ..d2 };
                    lemma_forms_behind(a, flag, v, b, i + 2, d3);
                } else {
                    reveal_strlit("--");
                    assert(s[n].subrange(0, 2) =~= "--"@);
                    assert(t[n].subrange(0, 2) =~= "--"@);
                    lemma_forms_behind(a, flag, v, b, i + 1, d2);
                }
            }
        } else if arg == "--with-model"@ {
            lemma_forms_behind(a, flag, v, b, i + 1, CliView { with_model: true, ..d });
        } else if arg == "--parallel"@ {
            lemma_forms_behind(a, flag, v, b, i + 1, CliView { parallel: true, ..d });
        } else if named_flag(arg, 0) is Some {
            if let Ok(d2) = with_value(d, named_flag(arg, 0)->0, a[i + 1]) {
                lemma_forms_behind(a, flag, v, b, i + 2, d2);
            }
        } else if inline_flag(arg, 0) is Some {
            let (f, w) = inline_flag(arg, 0)->0;
            if let Ok(d2) = with_value(d, f, w) {
                lemma_forms_behind(a, flag, v, b, i + 1, d2);
            }
        }
    }
}

/// Both ways to give a flag its value parse alike, `--flag value` and `--flag=value`, whatever stands
/// before and behind, unless what stands before ends where a value or an argument is wanted.
pub proof fn law_inline_flag_parses_alike(
    a: Seq<Seq<char>>,
    flag: Flag,
    v: Seq<char>,
    b: Seq<Seq<char>>,
)
    requires
        !wants_more(a, 0, empty_line()),
    ensures
        parsed_args(a + seq![flag.name_spec(), v] + b) == parsed_args(
            a + seq![flag.name_spec() + "="@ + v] + b,
        ),
{
    lemma_forms_behind(a, flag, v, b, 0, empty_line());
}

/// A journal directory is read only behind `replay` or `sweep`.
proof fn lemma_journal_dir(tokens: Seq<Seq<char>>, i: int, d: CliView)
    requires
        0 <= i,
        d.journal_dir is Some ==> d.command == Some(CommandView::Replay) || d.command == Some(
            CommandView::Sweep,
        ),
    ensures
        read_from(tokens, i, d) matches Ok(r) ==> r.journal_dir is Some ==> r.command == Some(
            CommandView::Replay,
        ) || r.command == Some(CommandView::Sweep),
    decreases tokens.len() - i,
{
    if i < tokens.len() {
        let arg = tokens[i];
        if plain_command(arg) is Some {
            if d.command is None {
                lemma_journal_dir(tokens, i + 1, CliView { command: plain_command(arg), ..d });
            }
        } else if arg == "control"@ {
            if let Ok((sub, next)) = control_sub(tokens, i + 1) {
                if d.command is None {
                    lemma_journal_dir(
                        tokens,
                        next,
                        CliView { command: Some(CommandView::Control(sub)), ..d },
                    );
                }
            }
        } else if arg == "replay"@ || arg == "sweep"@ {
            let c = if arg == "replay"@ {
                CommandView::Replay
            } else {
                CommandView::Sweep
            };
            let d2 = CliView { command: Some(c), ..d };
            if i + 1 < tokens.len() && !text::begins_with(tokens[i + 1], "--"@) {
                lemma_journal_dir(
                    tokens,
                    i + 2,
                    CliView { journal_dir: Some(tokens[i + 1]), ..d2 },
                );
            } else {
                lemma_journal_dir(tokens, i + 1, d2);
            }
        } else if arg == "--with-model"@ {
            lemma_journal_dir(tokens, i + 1, CliView { with_model: true, ..d });
        } else if arg == "--parallel"@ {
            lemma_journal_dir(tokens, i + 1, CliView { parallel: true, ..d });
        } else if named_flag(arg, 0) is Some {
            if i + 1 < tokens.len() {
                if let Ok(d2) = with_value(d, named_flag(arg, 0)->0, tokens[i + 1]) {
                    lemma_journal_dir(tokens, i + 2, d2);
                }
            }
        } else if inline_flag(arg, 0) is Some {
            let (flag, v) = inline_flag(arg, 0)->0;
            if let Ok(d2) = with_value(d, flag, v) {
                lemma_journal_dir(tokens, i + 1, d2);
            }
        }
    }
}

/// A flag is refused where it does not belong to the subcommand, and nowhere else: each belongs to
/// its own, and the directory of the configuration to all.
pub proof fn law_only_misplaced_flags_are_refused(d: CliView)
    ensures
        ({
            let c = if d.command is Some {
                d.command->0
            } else {
                CommandView::Paper
            };
            misplaced_flag(d) is None <==> {
                &&& d.label is None || c is Latency
                &&& d.out is None || c is Latency || c is Replay || c is Sweep || c is Digest
                &&& d.date is None || c is Digest
                &&& d.window is None || c is Replay || c is Sweep
                &&& d.min_edge is None || c is Sweep
                &&& d.gamma is None || c is Sweep
                &&& d.cancel_theta is None || c is Sweep
                &&& d.taker_buffer is None || c is Sweep
                &&& d.rank is None || c is Sweep
                &&& !d.parallel || c is Sweep
                &&& d.raw is None || c is Feed || c is Ladder
                &&& d.source is None || c is Feed
                &&& d.series is None || c is Run || c is Ladder || c is Fair || c is PaperSim || c
                    is Record || c is Dashboard
                &&& d.depth is None || c is Ladder
                &&& d.recycle_after is None || c is Ladder
                &&& d.out_dir is None || c is Record
                &&& !d.with_model || c is Dashboard
            }
        }),
{
}

/// A line that is accepted has a subcommand: the one that was given, and a paper session where
/// none was.
pub proof fn law_paper_where_none_is_given(d: CliView)
    ensures
        d.command is None ==> chosen(d) is Paper,
        d.command matches Some(c) ==> chosen(d) == c,
{
}

/// A flag sets what it is named after and nothing else, to its value as given; only the four that
/// are more than texts can be refused for their values.
pub proof fn law_flag_sets_what_it_is_named_after(d: CliView, flag: Flag, v: Seq<char>)
    ensures
        with_value(d, flag, v) is Err ==> flag is Source || flag is Series || flag is Depth || flag
            is RecycleAfter,
        with_value(d, flag, v) matches Ok(e) ==> {
            &&& e.command == d.command && e.with_model == d.with_model && e.parallel == d.parallel
                && e.journal_dir == d.journal_dir
            &&& e.config_dir == (if flag is ConfigDir { Some(v) } else { d.config_dir })
            &&& e.label == (if flag is Label { Some(v) } else { d.label })
            &&& e.out == (if flag is Out { Some(v) } else { d.out })
            &&& e.raw == (if flag is Raw { Some(v) } else { d.raw })
            &&& e.out_dir == (if flag is OutDir { Some(v) } else { d.out_dir })
            &&& e.window == (if flag is Window { Some(v) } else { d.window })
            &&& e.date == (if flag is Date { Some(v) } else { d.date })
            &&& e.min_edge == (if flag is MinEdge { Some(v) } else { d.min_edge })
            &&& e.gamma == (if flag is Gamma { Some(v) } else { d.gamma })
            &&& e.cancel_theta == (if flag is CancelTheta { Some(v) } else { d.cancel_theta })
            &&& e.taker_buffer == (if flag is TakerBuffer { Some(v) } else { d.taker_buffer })
            &&& e.rank == (if flag is Rank { Some(v) } else { d.rank })
            &&& flag is Series ==> e.series is Some && e.series == Series::parsed(v)
            &&& !(flag is Series) ==> e.series == d.series
            &&& flag is Depth ==> e.depth is Some && e.depth->0 >= 1 && text::parsed_unsigned(
                v,
                usize::MAX as nat,
            ) == Some(e.depth->0 as nat)
            &&& !(flag is Depth) ==> e.depth == d.depth
            &&& flag is RecycleAfter ==> e.recycle_after is Some && text::parsed_unsigned(
                v,
                u64::MAX as nat,
            ) == Some(e.recycle_after->0 as nat)
            &&& !(flag is RecycleAfter) ==> e.recycle_after == d.recycle_after
            &&& !(flag is Source) ==> e.source == d.source
            &&& flag is Source ==> e.source is Some
        },
{
}

/// Every positive depth and every number of seconds that the machine holds is accepted, and every
/// series by its key.
pub proof fn law_sound_values_are_accepted(d: CliView, v: Seq<char>)
    ensures
        with_value(d, Flag::Depth, v) is Ok <==> (text::parsed_unsigned(v, usize::MAX as nat) matches
            Some(n) && n > 0),
        with_value(d, Flag::RecycleAfter, v) is Ok <==> text::parsed_unsigned(v, u64::MAX as nat)
            is Some,
        with_value(d, Flag::Series, v) is Ok <==> Series::parsed(v) is Some,
{
}

/// A value that a control subcommand takes stands right behind what comes before it and is no
/// flag; it is taken as given.
pub proof fn law_positional_is_no_flag(
    tokens: Seq<Seq<char>>,
    i: int,
    sub: Seq<char>,
    what: Seq<char>,
)
    requires
        0 <= i,
    ensures
        positional(tokens, i, sub, what) is Ok <==> i < tokens.len() && !text::begins_with(
            tokens[i],
            "--"@,
        ),
        positional(tokens, i, sub, what) is Ok ==> positional(tokens, i, sub, what)->Ok_0
            == tokens[i],
{
}

/// A parameter is set by key and value in that order, and for one series where that is given
/// behind them.
pub proof fn law_param_is_key_then_value(tokens: Seq<Seq<char>>, i: int)
    requires
        0 <= i < tokens.len(),
    ensures
        control_sub(tokens, i) matches Ok((ControlSubView::SetParam { series, key, value }, next))
            ==> {
            &&& key == tokens[i + 1]
            &&& value == tokens[i + 2]
            &&& series is None ==> next == i + 3
            &&& series is Some ==> next == i + 4 || (next == i + 5 && series == Some(tokens[i + 4]))
        },
{
}

/// A subcommand that is read is the one that its word names, and every one of the words is read.
pub proof fn law_subcommand_is_read_by_its_name(token: Seq<char>)
    ensures
        plain_command(token) matches Some(c) ==> {
            &&& c is Run ==> token == "run"@
            &&& c is Paper ==> token == "paper"@
            &&& c is PaperSim ==> token == "paper-sim"@
            &&& c is Live ==> token == "live"@
            &&& c is VenueCheck ==> token == "venue-check"@
            &&& c is CheckConfig ==> token == "check-config"@
            &&& c is Discover ==> token == "discover"@
            &&& c is Schedule ==> token == "schedule"@
            &&& c is Feed ==> token == "feed"@
            &&& c is Compare ==> token == "compare"@
            &&& c is Vol ==> token == "vol"@
            &&& c is Ladder ==> token == "ladder"@
            &&& c is Fair ==> token == "fair"@
            &&& c is Record ==> token == "record"@
            &&& c is Latency ==> token == "latency"@
            &&& c is Dashboard ==> token == "dashboard"@
            &&& c is Digest ==> token == "digest"@
            &&& !(c is Control) && !(c is Replay) && !(c is Sweep)
        },
        plain_command(token) is None <==> token != "run"@ && token != "paper"@ && token != "paper-sim"@ && token != "live"@ && token != "venue-check"@ && token != "check-config"@ && token != "discover"@ && token != "schedule"@ && token != "feed"@ && token != "compare"@ && token != "vol"@ && token != "ladder"@ && token != "fair"@ && token != "record"@ && token != "latency"@ && token != "dashboard"@ && token != "digest"@,
{
}

/// What a control subcommand is read as is what its word names; what it takes stands right behind
/// it, and reading goes on behind that.
pub proof fn law_control_is_read_by_its_name(tokens: Seq<Seq<char>>, i: int)
    requires
        0 <= i < tokens.len(),
    ensures
        control_sub(tokens, i) matches Ok((sub, next)) ==> {
            &&& sub is Status ==> tokens[i] == "status"@ && next == i + 1
            &&& sub is Kill ==> tokens[i] == "kill"@ && next == i + 1
            &&& sub is Reset ==> tokens[i] == "reset"@ && next == i + 1
            &&& sub is ResetDailyStop ==> tokens[i] == "reset-daily-stop"@ && next == i + 1
            &&& sub matches ControlSubView::SetCapital(v) ==> tokens[i] == "set-capital"@ && v == tokens[i + 1] && next
                == i + 2
            &&& sub matches ControlSubView::AdjustCapital(v) ==> tokens[i] == "adjust-capital"@ && v == tokens[i + 1] && next
                == i + 2
            &&& sub matches ControlSubView::EnableSeries(v) ==> tokens[i] == "enable-series"@ && v == tokens[i + 1] && next
                == i + 2
            &&& sub matches ControlSubView::DisableSeries(v) ==> tokens[i] == "disable-series"@ && v == tokens[i + 1] && next
                == i + 2
            &&& sub is SetParam ==> tokens[i] == "set-param"@
            &&& sub is ArmLive ==> tokens[i] == "arm-live"@ && next == i + 1
            &&& sub matches ControlSubView::ConfirmArm(v) ==> tokens[i] == "confirm-arm"@ && v == tokens[i + 1] && next
                == i + 2
            &&& sub is Disarm ==> tokens[i] == "disarm"@ && next == i + 1
        },
        tokens[i] == "status"@ ==> control_sub(tokens, i) is Ok,
        tokens[i] == "kill"@ ==> control_sub(tokens, i) is Ok,
        tokens[i] == "reset"@ ==> control_sub(tokens, i) is Ok,
        tokens[i] == "reset-daily-stop"@ ==> control_sub(tokens, i) is Ok,
        tokens[i] == "set-capital"@ ==> (control_sub(tokens, i) is Ok <==> i + 1 < tokens.len()
            && !text::begins_with(tokens[i + 1], "--"@)),
        tokens[i] == "adjust-capital"@ ==> (control_sub(tokens, i) is Ok <==> i + 1 < tokens.len()
            && !text::begins_with(tokens[i + 1], "--"@)),
        tokens[i] == "enable-series"@ ==> (control_sub(tokens, i) is Ok <==> i + 1 < tokens.len()
            && !text::begins_with(tokens[i + 1], "--"@)),
        tokens[i] == "disable-series"@ ==> (control_sub(tokens, i) is Ok <==> i + 1 < tokens.len()
            && !text::begins_with(tokens[i + 1], "--"@)),
        tokens[i] == "arm-live"@ ==> control_sub(tokens, i) is Ok,
        tokens[i] == "confirm-arm"@ ==> (control_sub(tokens, i) is Ok <==> i + 1 < tokens.len()
            && !text::begins_with(tokens[i + 1], "--"@)),
        tokens[i] == "disarm"@ ==> control_sub(tokens, i) is Ok,
{
    reveal_strlit("status");
    reveal_strlit("kill");
    reveal_strlit("reset");
    reveal_strlit("reset-daily-stop");
    reveal_strlit("set-capital");
    reveal_strlit("adjust-capital");
    reveal_strlit("enable-series");
    reveal_strlit("disable-series");
    reveal_strlit("set-param");
    reveal_strlit("arm-live");
    reveal_strlit("confirm-arm");
    reveal_strlit("disarm");
    assert("status"@.len() != "kill"@.len());
    assert("status"@.len() != "reset"@.len());
    assert("status"@.len() != "reset-daily-stop"@.len());
    assert("status"@.len() != "set-capital"@.len());
    assert("status"@.len() != "adjust-capital"@.len());
    assert("status"@.len() != "enable-series"@.len());
    assert("status"@.len() != "disable-series"@.len());
    assert("status"@.len() != "set-param"@.len());
    assert("status"@.len() != "arm-live"@.len());
    assert("status"@.len() != "confirm-arm"@.len());
    assert("status"@[0] != "disarm"@[0]);
    assert("kill"@.len() != "reset"@.len());
    assert("kill"@.len() != "reset-daily-stop"@.len());
    assert("kill"@.len() != "set-capital"@.len());
    assert("kill"@.len() != "adjust-capital"@.len());
    assert("kill"@.len() != "enable-series"@.len());
    assert("kill"@.len() != "disable-series"@.len());
    assert("kill"@.len() != "set-param"@.len());
    assert("kill"@.len() != "arm-live"@.len());
    assert("kill"@.len() != "confirm-arm"@.len());
    assert("kill"@.len() != "disarm"@.len());
    assert("reset"@.len() != "reset-daily-stop"@.len());
    assert("reset"@.len() != "set-capital"@.len());
    assert("reset"@.len() != "adjust-capital"@.len());
    assert("reset"@.len() != "enable-series"@.len());
    assert("reset"@.len() != "disable-series"@.len());
    assert("reset"@.len() != "set-param"@.len());
    assert("reset"@.len() != "arm-live"@.len());
    assert("reset"@.len() != "confirm-arm"@.len());
    assert("reset"@.len() != "disarm"@.len());
    assert("reset-daily-stop"@.len() != "set-capital"@.len());
    assert("reset-daily-stop"@.len() != "adjust-capital"@.len());
    assert("reset-daily-stop"@.len() != "enable-series"@.len());
    assert("reset-daily-stop"@.len() != "disable-series"@.len());
    assert("reset-daily-stop"@.len() != "set-param"@.len());
    assert("reset-daily-stop"@.len() != "arm-live"@.len());
    assert("reset-daily-stop"@.len() != "confirm-arm"@.len());
    assert("reset-daily-stop"@.len() != "disarm"@.len());
    assert("set-capital"@.len() != "adjust-capital"@.len());
    assert("set-capital"@.len() != "enable-series"@.len());
    assert("set-capital"@.len() != "disable-series"@.len());
    assert("set-capital"@.len() != "set-param"@.len());
    assert("set-capital"@.len() != "arm-live"@.len());
    assert("set-capital"@[0] != "confirm-arm"@[0]);
    assert("set-capital"@.len() != "disarm"@.len());
    assert("adjust-capital"@.len() != "enable-series"@.len());
    assert("adjust-capital"@[0] != "disable-series"@[0]);
    assert("adjust-capital"@.len() != "set-param"@.len());
    assert("adjust-capital"@.len() != "arm-live"@.len());
    assert("adjust-capital"@.len() != "confirm-arm"@.len());
    assert("adjust-capital"@.len() != "disarm"@.len());
    assert("enable-series"@.len() != "disable-series"@.len());
    assert("enable-series"@.len() != "set-param"@.len());
    assert("enable-series"@.len() != "arm-live"@.len());
    assert("enable-series"@.len() != "confirm-arm"@.len());
    assert("enable-series"@.len() != "disarm"@.len());
    assert("disable-series"@.len() != "set-param"@.len());
    assert("disable-series"@.len() != "arm-live"@.len());
    assert("disable-series"@.len() != "confirm-arm"@.len());
    assert("disable-series"@.len() != "disarm"@.len());
    assert("set-param"@.len() != "arm-live"@.len());
    assert("set-param"@.len() != "confirm-arm"@.len());
    assert("set-param"@.len() != "disarm"@.len());
    assert("arm-live"@.len() != "confirm-arm"@.len());
    assert("arm-live"@.len() != "disarm"@.len());
    assert("confirm-arm"@.len() != "disarm"@.len());
}

} // verus!
