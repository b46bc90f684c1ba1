//! What a run goes by before it starts: the configuration directory, dates, and what each
//! command sets up.

use vstd::prelude::*;
use vstd::string::*;

use crate::calendar;
use crate::calendar::Date;
use crate::cli::Command;
use crate::control::{bool_text, bool_word};
use crate::text;
use crate::types::{Asset, Series, WindowDuration};

verus! {

/// The levels that a ladder shows where none are asked for.
pub const DEFAULT_LADDER_DEPTH: usize = 8;

/// The configuration directory: the one on the command line, else the environment's where it is
/// not empty, else `config`.
pub fn resolve_config_dir(cli_dir: Option<&str>, env_dir: Option<&str>) -> (r: String)
    ensures
        r@ == (match cli_dir {
            Some(d) => d@,
            None => match env_dir {
                Some(e) => if e@.len() > 0 {
                    e@
                } else {
                    "config"@
                },
                None => "config"@,
            },
        }),
{
    match cli_dir {
        Some(d) => d.to_owned(),
        None => match env_dir {
            Some(e) => if e.unicode_len() > 0 {
                e.to_owned()
            } else {
                "config".to_owned()
            },
            None => "config".to_owned(),
        },
    }
}

/// The series of a run that names none: five-minute Bitcoin windows.
pub fn default_btc_5m_series() -> (r: Series)
    ensures
        r == (Series { asset: Asset::Btc, duration: WindowDuration::M5 }),
{
    Series { asset: Asset::Btc, duration: WindowDuration::M5 }
}

/// A message about a `--date` that cannot be read.
pub open spec fn date_message(what: Seq<char>, s: Seq<char>) -> Seq<char> {
    "--date "@ + what + text::debug_quoted(s)
}

/// A date written `YYYY-MM-DD`, or what is wrong with it. No part holds a dash, so only a plus
/// can stand before its digits.
pub open spec fn parsed_date(s: Seq<char>) -> Result<Date, Seq<char>> {
    let parts = text::parts_of(s, '-');
    if parts.len() != 3 {
        Err(date_message("must be YYYY-MM-DD, got "@, s))
    } else {
        match text::parsed_unsigned(parts[0], i32::MAX as nat) {
            None => Err(date_message("has an invalid year in "@, s)),
            Some(year) => match text::parsed_unsigned(parts[1], u8::MAX as nat) {
                None => Err(date_message("has an invalid month in "@, s)),
                Some(month) => match text::parsed_unsigned(parts[2], u8::MAX as nat) {
                    None => Err(date_message("has an invalid day in "@, s)),
                    Some(day) => if !(1 <= month <= 12) {
                        Err(date_message("month must be 1..=12 in "@, s))
                    } else {
                        match calendar::date_problem(year as int, month as int, day as int) {
                            Some(e) => Err(
                                date_message(""@, s) + " is not a valid calendar date: "@ + e,
                            ),
                            None => Ok(
                                Date { year: year as i32, month: month as u8, day: day as u8 },
                            ),
                        }
                    },
                },
            },
        }
    }
}

/// A date from the year 0 on, written `YYYY-MM-DD`, is read back as that date.
pub proof fn law_date_is_read_back(d: Date)
    requires
        calendar::is_date(d),
        d.year >= 0,
    ensures
        parsed_date(d.dashed_spec()) == Ok::<Date, Seq<char>>(d),
{
    let year = calendar::zero_padded(d.year as int, 4);
    let month = calendar::zero_padded(d.month as int, 2);
    let day = calendar::zero_padded(d.day as int, 2);
    text::law_written_number_is_read_back(d.year as nat, 4, i32::MAX as nat);
    text::law_written_number_is_read_back(d.month as nat, 2, u8::MAX as nat);
    text::law_written_number_is_read_back(d.day as nat, 2, u8::MAX as nat);
    lemma_no_dash(year);
    lemma_no_dash(month);
    lemma_no_dash(day);
    reveal_strlit("-");
    let tail = month.push('-') + day;
    assert(d.dashed_spec() =~= year.push('-') + tail);
    text::law_parts_are_read_back(year, tail, '-');
    text::law_parts_are_read_back(month, day, '-');
    text::law_parts_are_read_back(day, Seq::empty(), '-');
    let parts = text::parts_of(d.dashed_spec(), '-');
    assert(parts =~= seq![year, month, day]);
}

/// Digits hold no dash.
proof fn lemma_no_dash(s: Seq<char>)
    requires
        text::all_digits(s),
    ensures
        !s.contains('-'),
{
    if s.contains('-') {
        let i = choose|i: int| 0 <= i < s.len() && s[i] == '-';
        assert(text::is_digit(s[i]));
    }
}

fn date_error(what: &str, s: &str) -> (r: String)
    ensures
        r@ == date_message(what@, s@),
{
    text::join3("--date ", what, text::quoted(s).as_str())
}

/// Reads a date written `YYYY-MM-DD`.
pub fn parse_date(s: &str) -> (r: Result<Date, String>)
    ensures
        match r {
            Ok(d) => parsed_date(s@) == Ok::<Date, Seq<char>>(d),
            Err(e) => parsed_date(s@) == Err::<Date, Seq<char>>(e@),
        },
{
    let parts = text::split(s, '-');
    let ghost seen = text::parts_of(s@, '-');
    if parts.len() != 3 {
        return Err(date_error("must be YYYY-MM-DD, got ", s));
    }
    assert(seen[0] == parts@[0]@ && seen[1] == parts@[1]@ && seen[2] == parts@[2]@);
    let year: i32 = match text::parse_unsigned(parts[0].as_str(), i32::MAX as u64) {
        Some(n) => n as i32,
        None => {
            return Err(date_error("has an invalid year in ", s));
        },
    };
    let month: u8 = match text::parse_unsigned(parts[1].as_str(), u8::MAX as u64) {
        Some(n) => n as u8,
        None => {
            return Err(date_error("has an invalid month in ", s));
        },
    };
    let day: u8 = match text::parse_unsigned(parts[2].as_str(), u8::MAX as u64) {
        Some(n) => n as u8,
        None => {
            return Err(date_error("has an invalid day in ", s));
        },
    };
    if !(1 <= month && month <= 12) {
        return Err(date_error("month must be 1..=12 in ", s));
    }
    match calendar::calendar_date(year, month, day) {
        Ok(d) => Ok(d),
        Err(e) => Err(
            text::join3(
                date_error("", s).as_str(),
                " is not a valid calendar date: ",
                e.as_str(),
            ),
        ),
    }
}

/// What a command sets up before it does its work.
#[derive(Clone, Copy, PartialEq, Eq, Debug)]
pub struct Startup {
    /// Whether it logs.
    pub telemetry: bool,
    /// The mode under which it logs its start, where it does.
    pub boot_mode: Option<&'static str>,
    /// Whether it restores what was journaled.
    pub restores: bool,
}

/// The commands that only print what they were asked for: they do not log.
pub open spec fn prints_only(c: Command) -> bool {
    c is CheckConfig || c is Control || c is Replay || c is Sweep || c is Digest
}

/// The mode under which a command logs its start.
pub open spec fn boot_mode_of(c: Command) -> Option<Seq<char>> {
    match c {
        Command::Paper => Some("paper"@),
        Command::Run => Some("run"@),
        Command::Live => Some("live"@),
        _ => None,
    }
}

/// What a command sets up before it does its work.
pub fn startup(command: &Command) -> (r: Startup)
    ensures
        r.telemetry == !prints_only(*command),
        match r.boot_mode {
            Some(m) => boot_mode_of(*command) == Some(m@),
            None => boot_mode_of(*command) is None,
        },
        r.restores == (*command is Paper || *command is Live || *command is PaperSim || *command
            is Dashboard),
{
    match command {
        Command::Paper => Startup { telemetry: true, boot_mode: Some("paper"), restores: true },
        Command::Live => Startup { telemetry: true, boot_mode: Some("live"), restores: true },
        Command::Run => Startup { telemetry: true, boot_mode: Some("run"), restores: false },
        Command::PaperSim | Command::Dashboard => Startup {
            telemetry: true,
            boot_mode: None,
            restores: true,
        },
        Command::CheckConfig
        | Command::Control(_)
        | Command::Replay
        | Command::Sweep
        | Command::Digest => Startup { telemetry: false, boot_mode: None, restores: false },
        _ => Startup { telemetry: true, boot_mode: None, restores: false },
    }
}

/// The lines of which secrets are set; never their values.
pub open spec fn presence_lines(secrets: Seq<(String, bool)>) -> Seq<char>
    decreases secrets.len(),
{
    if secrets.len() == 0 {
        Seq::empty()
    } else {
        presence_lines(secrets.drop_last()) + "  "@ + secrets.last().0@ + ": "@ + (
        if secrets.last().1 {
            "set"@
        } else {
            "not set"@
        }) + "\n"@
    }
}

/// Which secrets are set, and how far live trading is armed.
pub fn presence_text(
    secrets: &Vec<(String, bool)>,
    config_enabled: bool,
    env_confirmed: bool,
) -> (r: String)
    ensures
        r@ == "\nsecrets (values are env-only and never shown):\n"@ + presence_lines(secrets@)
            + "live arming gates: config_enabled="@ + bool_text(config_enabled)
            + " env_confirmed="@ + bool_text(env_confirmed)
            + " (gate 3 is the dashboard arm action)\n"@,
{
    let mut lines = String::new();
    let mut i: usize = 0;
    assert(secrets@.subrange(0, 0) =~= Seq::empty());
    while i < secrets.len()
        invariant
            i <= secrets@.len(),
            lines@ == presence_lines(secrets@.subrange(0, i as int)),
        decreases secrets.len() - i,
    {
        proof {
            let part = secrets@.subrange(0, i + 1);
            assert(part.drop_last() =~= secrets@.subrange(0, i as int));
            assert(part.last() == secrets@[i as int]);
        }
        lines.append("  ");
        lines.append(secrets[i].0.as_str());
        lines.append(": ");
        lines.append(
            if secrets[i].1 {
                "set"
            } else {
                "not set"
            },
        );
        lines.append("\n");
        i = i + 1;
    }
    assert(secrets@.subrange(0, i as int) =~= secrets@);
    let mut s = "\nsecrets (values are env-only and never shown):\n".to_owned();
    s.append(lines.as_str());
    s.append("live arming gates: config_enabled=");
    s.append(bool_word(config_enabled));
    s.append(" env_confirmed=");
    s.append(bool_word(env_confirmed));
    s.append(" (gate 3 is the dashboard arm action)\n");
    s
}

/// A command logs where it runs: all do but those that answer on the spot. A mode is named for the
/// three that trade or watch, which all log, and for no other.
pub proof fn law_commands_that_run_log(c: Command)
    ensures
        !prints_only(c) <==> c is Run || c is Paper || c is PaperSim || c is Live || c is VenueCheck
            || c is Discover || c is Schedule || c is Feed || c is Compare || c is Vol || c
            is Ladder || c is Fair || c is Record || c is Latency || c is Dashboard,
        boot_mode_of(c) is Some <==> c is Run || c is Paper || c is Live,
        boot_mode_of(c) is Some ==> !prints_only(c),
        c is Run ==> boot_mode_of(c) == Some("run"@),
        c is Paper ==> boot_mode_of(c) == Some("paper"@),
        c is Live ==> boot_mode_of(c) == Some("live"@),
{
}

/// A date that is read is one of the calendar, and is what its three parts say: year, month and
/// day, in that order.
pub proof fn law_date_that_is_read_is_its_parts(s: Seq<char>)
    ensures
        parsed_date(s) matches Ok(d) ==> {
            let parts = text::parts_of(s, '-');
            &&& parts.len() == 3
            &&& text::parsed_unsigned(parts[0], i32::MAX as nat) == Some(d.year as nat)
            &&& text::parsed_unsigned(parts[1], u8::MAX as nat) == Some(d.month as nat)
            &&& text::parsed_unsigned(parts[2], u8::MAX as nat) == Some(d.day as nat)
            &&& 1 <= d.month <= 12
            &&& calendar::date_problem(d.year as int, d.month as int, d.day as int) is None
        },
        text::parts_of(s, '-').len() != 3 ==> parsed_date(s) is Err,
{
}

/// Each secret has a line of its own, behind those before it, which says whether it is set.
pub proof fn law_each_secret_has_its_line(secrets: Seq<(String, bool)>, name: String)
    ensures
        presence_lines(Seq::empty()).len() == 0,
        presence_lines(secrets.push((name, true))) == presence_lines(secrets) + "  "@ + name@
            + ": "@ + "set"@ + "\n"@,
        presence_lines(secrets.push((name, false))) == presence_lines(secrets) + "  "@ + name@
            + ": "@ + "not set"@ + "\n"@,
{
    assert(secrets.push((name, true)).drop_last() == secrets);
    assert(secrets.push((name, false)).drop_last() == secrets);
}

} // verus!
