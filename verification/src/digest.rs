//! The daily digest: a report in Markdown on one UTC day.

use vstd::prelude::*;
use vstd::string::*;

use crate::calendar;
use crate::calendar::{civil_time, date_part, floor_secs, Date};
use crate::decimal::{Amount, Figure, UNIT};
use crate::driver_matrix::{
    has_booking, has_sums, settled_cells, waiting, DriverCell, DriverFill, DriverMatrix, FillDriver,
    SeriesDriver,
};
use crate::sorting::{ranked, ranked_places, Ranked};
use crate::table::{lookup, put, Table};
use crate::text;
use crate::types::{Fill, Id, Liquidity, Outcome, Series, WindowId};

verus! {

/// The items that a condition holds of, in order.
pub open spec fn chosen<A>(s: Seq<A>, p: spec_fn(A) -> bool) -> Seq<A>
    decreases s.len(),
{
    if s.len() == 0 {
        Seq::empty()
    } else if p(s.last()) {
        chosen(s.drop_last(), p).push(s.last())
    } else {
        chosen(s.drop_last(), p)
    }
}

/// Whether an instant is on a UTC day.
pub open spec fn on_day(ms: i64, day: Date) -> bool {
    civil_time(floor_secs(ms as int)) matches Some(c) && date_part(c) == day
}

/// Whether an instant is on a UTC day.
fn is_on_day(ms: i64, day: Date) -> (r: bool)
    ensures
        r == on_day(ms, day),
{
    match calendar::civil_of_ms(ms) {
        Some(c) => c.year == day.year && c.month == day.month && c.day == day.day,
        None => false,
    }
}

/// What is chosen is what the condition holds of, in its order.
pub proof fn law_chosen_are_those_that_hold<A>(s: Seq<A>, p: spec_fn(A) -> bool)
    ensures
        chosen(s, p) == s.filter(p),
    decreases s.len(),
{
    reveal(Seq::filter);
    if s.len() > 0 {
        law_chosen_are_those_that_hold(s.drop_last(), p);
    }
}

/// An instant that the calendar reaches is on the date of its day since the epoch, and on no other.
pub proof fn law_instant_is_on_its_own_day(ms: i64, day: Date)
    requires
        calendar::in_calendar(floor_secs(ms as int)),
        calendar::is_date(day),
    ensures
        on_day(ms, day) <==> calendar::day_number(day) * 86_400_000 <= ms < (calendar::day_number(
            day,
        ) + 1) * 86_400_000,
{
    calendar::law_civil_time_is_the_instant(floor_secs(ms as int));
    let c = civil_time(floor_secs(ms as int))->0;
    let (a, b) = (calendar::day_number(date_part(c)), calendar::day_number(day));
    if a == b {
        calendar::lemma_one_date(date_part(c), day);
    }
}

/// An instant as `YYYY-MM-DDTHH:MM:SSZ`, or its milliseconds out of the calendar's range.
pub open spec fn iso_text(ms: i64) -> Seq<char> {
    match civil_time(floor_secs(ms as int)) {
        Some(c) => c.rfc3339_spec(),
        None => "ms:"@ + text::signed_digits(ms as int),
    }
}

/// An instant as `YYYY-MM-DDTHH:MM:SSZ`, or its milliseconds out of the calendar's range.
pub fn iso_time(ms: i64) -> (r: String)
    ensures
        r@ == iso_text(ms),
{
    match calendar::civil_of_ms(ms) {
        Some(c) => c.rfc3339(),
        None => text::join2("ms:", text::i64_text(ms).as_str()),
    }
}

/// An amount of money.
pub open spec fn money_text(a: Amount) -> Seq<char> {
    "$"@ + a.text_spec()
}

/// An amount of money.
fn fmt_money(a: &Amount) -> (r: String)
    ensures
        r@ == money_text(*a),
{
    text::join2("$", a.text().as_str())
}

/// The name of a strategy.
pub open spec fn driver_text(driver: FillDriver) -> Seq<char> {
    match driver {
        FillDriver::MakerCore => "maker-core"@,
        FillDriver::Momentum => "momentum"@,
        FillDriver::Late => "late"@,
        FillDriver::Model => "model"@,
    }
}

/// The name of a strategy.
pub fn driver_label(driver: FillDriver) -> (r: &'static str)
    ensures
        r@ == driver_text(driver),
{
    match driver {
        FillDriver::MakerCore => "maker-core",
        FillDriver::Momentum => "momentum",
        FillDriver::Late => "late",
        FillDriver::Model => "model",
    }
}

/// The strategy of a name.
pub open spec fn driver_of(label: Seq<char>) -> Option<FillDriver> {
    if label == "maker-core"@ {
        Some(FillDriver::MakerCore)
    } else if label == "momentum"@ {
        Some(FillDriver::Momentum)
    } else if label == "late"@ {
        Some(FillDriver::Late)
    } else if label == "model"@ {
        Some(FillDriver::Model)
    } else {
        None
    }
}

/// The strategy of a name.
pub fn parse_driver(label: &str) -> (r: Option<FillDriver>)
    ensures
        r == driver_of(label@),
{
    if text::same(label, "maker-core") {
        Some(FillDriver::MakerCore)
    } else if text::same(label, "momentum") {
        Some(FillDriver::Momentum)
    } else if text::same(label, "late") {
        Some(FillDriver::Late)
    } else if text::same(label, "model") {
        Some(FillDriver::Model)
    } else {
        None
    }
}

/// A strategy's name is read back as that strategy.
pub proof fn law_driver_name_is_read_back(driver: FillDriver)
    ensures
        driver_of(driver_text(driver)) == Some(driver),
{
    reveal_strlit("maker-core");
    reveal_strlit("momentum");
    reveal_strlit("late");
    reveal_strlit("model");
    assert("maker-core"@.len() == 10);
    assert("momentum"@.len() == 8);
    assert("late"@.len() == 4);
    assert("model"@.len() == 5);
}

/// The outcome of a name.
pub open spec fn outcome_of(label: Seq<char>) -> Option<Outcome> {
    if label == "Up"@ {
        Some(Outcome::Up)
    } else if label == "Down"@ {
        Some(Outcome::Down)
    } else {
        None
    }
}

/// The outcome of a name.
pub fn parse_outcome(label: &str) -> (r: Option<Outcome>)
    ensures
        r == outcome_of(label@),
{
    if text::same(label, "Up") {
        Some(Outcome::Up)
    } else if text::same(label, "Down") {
        Some(Outcome::Down)
    } else {
        None
    }
}

/// A line of the record of fills by strategy.
#[derive(Clone, Debug)]
pub struct DriverAttribLine {
    /// When it was filled, Unix milliseconds.
    pub ts: i64,
    /// The series' key.
    pub series: String,
    /// The window's opening, Unix milliseconds.
    pub window_open_ms: i64,
    /// The strategy's name.
    pub driver: String,
    /// The outcome's name.
    pub outcome: String,
    /// The shares.
    pub shares: String,
    /// The price.
    pub price: String,
    /// The fee.
    pub fee: String,
}

impl DriverAttribLine {
    /// Whether a line is the record of a strategy's fill.
    pub open spec fn records(self, driver: FillDriver, fill: Fill) -> bool {
        &&& self.ts == fill.ts_venue_ms
        &&& self.series@ == fill.window.series.key_spec()
        &&& self.window_open_ms == fill.window.open_ms
        &&& self.driver@ == driver_text(driver)
        &&& self.outcome@ == fill.outcome.text_spec()
        &&& self.shares@ == fill.size.text_spec()
        &&& self.price@ == fill.price.text_spec()
        &&& self.fee@ == fill.fee.text_spec()
    }

    /// The record of a strategy's fill.
    pub fn build(driver: FillDriver, fill: &Fill) -> (r: DriverAttribLine)
        ensures
            r.records(driver, *fill),
    {
        DriverAttribLine {
            ts: fill.ts_venue_ms,
            series: fill.window.series.key().to_owned(),
            window_open_ms: fill.window.open_ms,
            driver: driver_label(driver).to_owned(),
            outcome: fill.outcome.text().to_owned(),
            shares: fill.size.text(),
            price: fill.price.text(),
            fee: fill.fee.text(),
        }
    }
}

/// Whether a fill is one that a venue reports: its size is not negative, and its price is within
/// `[0, 1]`.
pub open spec fn reported(fill: Fill) -> bool {
    &&& fill.size.wf() && 0 <= fill.size.value()
    &&& fill.price.wf() && 0 <= fill.price.value() <= UNIT
    &&& fill.fee.wf()
}

/// The fill of a line: `None` where a name or a number in it is none, the price is not within
/// `[0, 1]`, or the shares are negative.
pub open spec fn line_fill(r: DriverAttribLine) -> Option<(WindowId, DriverFill)> {
    match (
        Series::parsed(r.series@),
        driver_of(r.driver@),
        outcome_of(r.outcome@),
        Amount::parsed(r.shares@),
        Amount::parsed(r.price@),
        Amount::parsed(r.fee@),
    ) {
        (Some(series), Some(driver), Some(outcome), Some(shares), Some(price), Some(fee)) => if 0
            <= shares.value() && 0 <= price.value() <= UNIT {
            Some(
                (
                    WindowId { series, open_ms: r.window_open_ms },
                    DriverFill { driver, outcome, shares, price, fee, ts_ms: r.ts },
                ),
            )
        } else {
            None
        },
        _ => None,
    }
}

/// The fill of a line. What was recorded is read back.
pub fn parse_line(r: &DriverAttribLine) -> (f: Option<(WindowId, DriverFill)>)
    ensures
        f == line_fill(*r),
        forall|driver: FillDriver, fill: Fill| #[trigger]
            r.records(driver, fill) && reported(fill) ==> f == Some(
                (
                    fill.window,
                    DriverFill {
                        driver,
                        outcome: fill.outcome,
                        shares: fill.size,
                        price: fill.price,
                        fee: fill.fee,
                        ts_ms: fill.ts_venue_ms,
                    },
                ),
            ),
{
    proof {
        assert forall|driver: FillDriver, fill: Fill| #[trigger]
            r.records(driver, fill) && reported(fill) implies Series::parsed(r.series@) == Some(
            fill.window.series,
        ) && driver_of(r.driver@) == Some(driver) && outcome_of(r.outcome@) == Some(
            fill.outcome,
        ) by {
            fill.window.series.law_key_is_read_back();
            law_driver_name_is_read_back(driver);
            reveal_strlit("Up");
            reveal_strlit("Down");
            assert("Up"@.len() == 2);
            assert("Down"@.len() == 4);
        }
    }
    match (
        Series::parse(r.series.as_str()),
        parse_driver(r.driver.as_str()),
        parse_outcome(r.outcome.as_str()),
        Amount::parse(r.shares.as_str()),
        Amount::parse(r.price.as_str()),
        Amount::parse(r.fee.as_str()),
    ) {
        (Some(series), Some(driver), Some(outcome), Some(shares), Some(price), Some(fee)) => {
            let one = Amount::from_i64(1);
            if shares.is_negative() || price.is_negative() || one.less(&price) {
                None
            } else {
                Some(
                    (
                        WindowId { series, open_ms: r.window_open_ms },
                        DriverFill { driver, outcome, shares, price, fee, ts_ms: r.ts },
                    ),
                )
            }
        },
        _ => None,
    }
}

/// An outcome's name is read back as that outcome, and nothing else is read as one.
pub proof fn law_outcome_name_is_read_back(outcome: Outcome, label: Seq<char>)
    ensures
        outcome_of(outcome.text_spec()) == Some(outcome),
        outcome_of(label) matches Some(o) ==> o.text_spec() == label,
{
    reveal_strlit("Up");
    reveal_strlit("Down");
    assert("Up"@.len() == 2);
    assert("Down"@.len() == 4);
}

/// A line is a fill exactly where its series, strategy and outcome are known, its numbers are
/// numbers, its shares are not negative and its price is within `[0, 1]`; the fill is then what the
/// line says.
pub proof fn law_line_is_a_fill_where_all_of_it_is_sound(r: DriverAttribLine)
    ensures
        line_fill(r) is Some <==> Series::parsed(r.series@) is Some && driver_of(r.driver@) is Some
            && outcome_of(r.outcome@) is Some && (Amount::parsed(r.shares@) matches Some(n) && 0
            <= n.value()) && (Amount::parsed(r.price@) matches Some(n) && 0 <= n.value() <= UNIT)
            && Amount::parsed(r.fee@) is Some,
        line_fill(r) matches Some((w, f)) ==> Series::parsed(r.series@) == Some(w.series)
            && w.open_ms == r.window_open_ms && driver_of(r.driver@) == Some(f.driver)
            && outcome_of(r.outcome@) == Some(f.outcome) && Amount::parsed(r.shares@) == Some(
            f.shares,
        ) && Amount::parsed(r.price@) == Some(f.price) && Amount::parsed(r.fee@) == Some(f.fee)
            && f.ts_ms == r.ts,
{
}

/// A settled window.
#[derive(Clone, Copy, PartialEq, Eq, Structural, Debug)]
pub struct SettlementRow {
    /// The window.
    pub window: WindowId,
    /// The winner.
    pub outcome: Outcome,
    /// The ledger's profit or loss.
    pub realized_pnl: Amount,
    /// When it settled, Unix milliseconds.
    pub settle_ms: i64,
}

impl Ranked for SettlementRow {
    open spec fn before(self, other: Self) -> bool {
        self.settle_ms < other.settle_ms
    }

    fn is_before(&self, other: &Self) -> (r: bool) {
        self.settle_ms < other.settle_ms
    }
}

/// A line of the breaker log.
#[derive(Clone, Debug)]
pub struct BreakerRow {
    /// When, Unix milliseconds.
    pub ts_ms: i64,
    /// What happened: `tripped` or `cancel_all` among others.
    pub kind: String,
    /// The breaker's name.
    pub breaker: String,
}

/// One of our fills.
#[derive(Clone, Copy, PartialEq, Eq, Structural, Debug)]
pub struct FillRow {
    /// The venue's time, Unix milliseconds.
    pub ts_ms: i64,
    /// Whether the order rested.
    pub liquidity: Liquidity,
    /// The price.
    pub price: Amount,
    /// The shares.
    pub size: Amount,
}

/// A loss stop that would have tripped.
#[derive(Clone, Debug)]
pub struct ShadowStopLine {
    /// When, Unix milliseconds.
    pub ts: i64,
    /// The stop.
    pub kind: String,
    /// The series' key, where it is one series'.
    pub series: Option<String>,
    /// The window's opening, where it is one window's.
    pub window_open_ms: Option<i64>,
    /// The threshold.
    pub threshold: String,
    /// The value.
    pub value: String,
}

impl ShadowStopLine {
    /// The same line again.
    fn duplicate(&self) -> (r: ShadowStopLine)
        ensures
            r == *self,
    {
        ShadowStopLine {
            ts: self.ts,
            kind: self.kind.clone(),
            series: match &self.series {
                Some(s) => Some(s.clone()),
                None => None,
            },
            window_open_ms: self.window_open_ms,
            threshold: self.threshold.clone(),
            value: self.value.clone(),
        }
    }
}

impl Ranked for ShadowStopLine {
    open spec fn before(self, other: Self) -> bool {
        self.ts < other.ts
    }

    fn is_before(&self, other: &Self) -> (r: bool) {
        self.ts < other.ts
    }
}

/// The fills of the lines of a day, in order.
pub open spec fn day_fills(lines: Seq<DriverAttribLine>, day: Date) -> Seq<(WindowId, DriverFill)>
    decreases lines.len(),
{
    if lines.len() == 0 {
        Seq::empty()
    } else {
        let before = day_fills(lines.drop_last(), day);
        match line_fill(lines.last()) {
            Some(f) if on_day(lines.last().ts, day) => before.push(f),
            _ => before,
        }
    }
}

/// The fills of the lines of a day, in order.
pub fn read_day_fills(lines: &Vec<DriverAttribLine>, day: Date) -> (r: Vec<(WindowId, DriverFill)>)
    ensures
        r@ == day_fills(lines@, day),
{
    let mut out: Vec<(WindowId, DriverFill)> = Vec::new();
    let mut i: usize = 0;
    assert(lines@.subrange(0, 0) =~= Seq::empty());
    while i < lines.len()
        invariant
            i <= lines@.len(),
            out@ == day_fills(lines@.subrange(0, i as int), day),
        decreases lines.len() - i,
    {
        proof {
            let part = lines@.subrange(0, i + 1);
            assert(part.drop_last() =~= lines@.subrange(0, i as int));
            assert(part.last() == lines@[i as int]);
        }
        let line = &lines[i];
        if is_on_day(line.ts, day) {
            if let Some(f) = parse_line(line) {
                out.push(f);
            }
        }
        i = i + 1;
    }
    assert(lines@.subrange(0, i as int) =~= lines@);
    out
}

/// The fills of a day are those of its lines that are fills, in their order.
pub proof fn law_day_fills_are_of_the_day(lines: Seq<DriverAttribLine>, day: Date)
    ensures
        day_fills(lines, day) == lines.filter(
            |r: DriverAttribLine| on_day(r.ts, day) && line_fill(r) is Some,
        ).map_values(|r: DriverAttribLine| line_fill(r)->0),
    decreases lines.len(),
{
    reveal(Seq::filter);
    let own = |r: DriverAttribLine| on_day(r.ts, day) && line_fill(r) is Some;
    let fill = |r: DriverAttribLine| line_fill(r)->0;
    if lines.len() == 0 {
        assert(lines.filter(own).map_values(fill) =~= Seq::empty());
    } else {
        law_day_fills_are_of_the_day(lines.drop_last(), day);
        let before = lines.drop_last().filter(own);
        assert(before.push(lines.last()).map_values(fill) =~= before.map_values(fill).push(
            fill(lines.last()),
        ));
    }
}

/// Settlements and stops are listed by their times, the oldest first, and notionals the smallest
/// first; none is lost.
pub proof fn law_listed_in_order(
    rows: Seq<SettlementRow>,
    stops: Seq<ShadowStopLine>,
    notionals: Seq<Figure>,
    i: int,
    j: int,
)
    requires
        0 <= i < j,
    ensures
        j < ranked(rows).len() ==> ranked(rows)[i].settle_ms <= ranked(rows)[j].settle_ms,
        ranked(rows).to_multiset() == rows.to_multiset(),
        j < ranked(stops).len() ==> ranked(stops)[i].ts <= ranked(stops)[j].ts,
        ranked(stops).to_multiset() == stops.to_multiset(),
        j < ranked(notionals).len() ==> ranked(notionals)[i].value() <= ranked(notionals)[j].value(),
        ranked(notionals).to_multiset() == notionals.to_multiset(),
{
    crate::sorting::law_ranked_is_in_order(rows);
    crate::sorting::law_ranked_is_in_order(stops);
    crate::sorting::law_ranked_is_in_order(notionals);
}

/// Whether a matrix is what comes of recording fills one after the other. Past its cap of waiting
/// windows a matrix lets one of the oldest go, and which is not fixed.
pub open spec fn fills_recorded(fills: Seq<(WindowId, DriverFill)>, m: DriverMatrix) -> bool
    decreases fills.len(),
{
    if fills.len() == 0 {
        m.pending().len() == 0 && m.cells().len() == 0
    } else {
        exists|before: DriverMatrix|
            fills_recorded(fills.drop_last(), before) && #[trigger] fill_recorded(
                before,
                fills.last(),
                m,
            )
    }
}

/// Whether a matrix is what comes of recording a fill.
pub open spec fn fill_recorded(
    before: DriverMatrix,
    f: (WindowId, DriverFill),
    after: DriverMatrix,
) -> bool {
    &&& crate::driver_matrix::after_fill(before.pending(), f.0, f.1, after.pending())
    &&& after.cells() == before.cells()
}

/// Whether a matrix is what comes of settling the windows of a day one after the other.
pub open spec fn windows_settled(
    start: DriverMatrix,
    rows: Seq<SettlementRow>,
    day: Date,
    m: DriverMatrix,
) -> bool
    decreases rows.len(),
{
    if rows.len() == 0 {
        m == start
    } else {
        exists|before: DriverMatrix|
            windows_settled(start, rows.drop_last(), day, before) && #[trigger] window_settled(
                before,
                rows.last(),
                day,
                m,
            )
    }
}

/// Whether a matrix is what comes of settling a window.
pub open spec fn window_settled(
    before: DriverMatrix,
    row: SettlementRow,
    day: Date,
    after: DriverMatrix,
) -> bool {
    if on_day(row.settle_ms, day) {
        let fills = waiting(before.pending(), row.window);
        &&& has_booking(before.cells(), row.window.series, fills, row.outcome)
        &&& after.pending() == crate::table::cut(before.pending(), row.window)
        &&& after.cells() == settled_cells(
            before.cells(),
            row.window.series,
            fills,
            row.outcome,
        )
    } else {
        after == before
    }
}

/// Whether the windows of a day, settled one after the other, come to one whose fills there is no
/// room for.
pub open spec fn comes_to_a_stop(start: DriverMatrix, rows: Seq<SettlementRow>, day: Date) -> bool {
    exists|k: int, before: DriverMatrix|
        0 <= k < rows.len() && #[trigger] windows_settled(start, rows.subrange(0, k), day, before)
            && on_day(rows[k].settle_ms, day) && !has_booking(
            before.cells(),
            rows[k].window.series,
            waiting(before.pending(), rows[k].window),
            rows[k].outcome,
        )
}

/// Records the fills of a day first, and settles its windows then, so that every window has all
/// its fills when it is marked. There is no matrix where there is no room for the fills of one.
pub fn fold_fills(
    fills: &Vec<(WindowId, DriverFill)>,
    settlements: &Vec<SettlementRow>,
    day: Date,
) -> (r: Option<DriverMatrix>)
    ensures
        r matches Some(m) ==> m.wf() && exists|recorded: DriverMatrix| #[trigger]
            fills_recorded(fills@, recorded) && windows_settled(recorded, settlements@, day, m),
        r is None ==> exists|recorded: DriverMatrix| #[trigger]
            fills_recorded(fills@, recorded) && comes_to_a_stop(recorded, settlements@, day),
{
    let mut matrix = DriverMatrix::new();
    let mut i: usize = 0;
    assert(fills@.subrange(0, 0) =~= Seq::empty());
    while i < fills.len()
        invariant
            i <= fills@.len(),
            matrix.wf(),
            fills_recorded(fills@.subrange(0, i as int), matrix),
        decreases fills.len() - i,
    {
        let ghost before = matrix;
        let ghost part = fills@.subrange(0, i + 1);
        proof {
            assert(part.drop_last() =~= fills@.subrange(0, i as int));
            assert(part.last() == fills@[i as int]);
        }
        let (window, fill) = fills[i];
        matrix.record_fill(window, fill);
        proof {
            assert(fill_recorded(before, part.last(), matrix));
            assert(fills_recorded(part.drop_last(), before));
            assert(fills_recorded(part, matrix));
        }
        i = i + 1;
    }
    assert(fills@.subrange(0, i as int) =~= fills@);
    let ghost recorded = matrix;
    let mut j: usize = 0;
    assert(settlements@.subrange(0, 0) =~= Seq::empty());
    while j < settlements.len()
        invariant
            j <= settlements@.len(),
            matrix.wf(),
            fills_recorded(fills@, recorded),
            windows_settled(recorded, settlements@.subrange(0, j as int), day, matrix),
        decreases settlements.len() - j,
    {
        let ghost before = matrix;
        let ghost part = settlements@.subrange(0, j + 1);
        proof {
            assert(part.drop_last() =~= settlements@.subrange(0, j as int));
            assert(part.last() == settlements@[j as int]);
        }
        let row = settlements[j];
        if is_on_day(row.settle_ms, day) {
            if !matrix.checked_settle(row.window, row.outcome) {
                assert(comes_to_a_stop(recorded, settlements@, day));
                return None;
            }
        }
        proof {
            assert(window_settled(before, part.last(), day, matrix));
            assert(windows_settled(recorded, part.drop_last(), day, before));
            assert(windows_settled(recorded, part, day, matrix));
        }
        j = j + 1;
    }
    assert(settlements@.subrange(0, j as int) =~= settlements@);
    assert(fills_recorded(fills@, recorded));
    Some(matrix)
}

/// Records the lines of a day and settles its windows. There is no matrix where there is no room
/// for the fills of one.
pub fn fold_drivers(
    lines: &Vec<DriverAttribLine>,
    settlements: &Vec<SettlementRow>,
    day: Date,
) -> (r: Option<DriverMatrix>)
    ensures
        r matches Some(m) ==> m.wf() && exists|recorded: DriverMatrix| #[trigger]
            fills_recorded(day_fills(lines@, day), recorded) && windows_settled(
                recorded,
                settlements@,
                day,
                m,
            ),
        r is None ==> exists|recorded: DriverMatrix| #[trigger]
            fills_recorded(day_fills(lines@, day), recorded) && comes_to_a_stop(
                recorded,
                settlements@,
                day,
            ),
{
    let fills = read_day_fills(lines, day);
    fold_fills(&fills, settlements, day)
}

/// A row of the table by strategy.
#[derive(Clone, Copy, PartialEq, Eq, Structural, Debug)]
pub struct DriverRow {
    /// The series.
    pub series: Series,
    /// The strategy.
    pub driver: FillDriver,
    /// What it made.
    pub cell: DriverCell,
}

impl Ranked for DriverRow {
    open spec fn before(self, other: Self) -> bool {
        text::text_before(self.series.key_spec(), other.series.key_spec()) || (
        self.series.key_spec() == other.series.key_spec() && text::text_before(
            driver_text(self.driver),
            driver_text(other.driver),
        ))
    }

    fn is_before(&self, other: &Self) -> (r: bool) {
        text::comes_before(self.series.key(), other.series.key()) || (text::same(
            self.series.key(),
            other.series.key(),
        ) && text::comes_before(driver_label(self.driver), driver_label(other.driver)))
    }
}

/// The rows of a matrix's totals.
pub open spec fn rows_of(totals: Seq<(SeriesDriver, DriverCell)>) -> Seq<DriverRow> {
    totals.map_values(
        |e: (SeriesDriver, DriverCell)|
            DriverRow { series: e.0.series, driver: e.0.driver, cell: e.1 },
    )
}

/// The rows of the table by strategy, by the series' key and the strategy's name.
pub fn driver_rows(matrix: &DriverMatrix) -> (r: Vec<DriverRow>)
    requires
        matrix.wf(),
        has_sums(matrix.cells()),
    ensures
        r@ == ranked(rows_of(crate::driver_matrix::summed(matrix.cells()))),
{
    checked_driver_rows(matrix).unwrap()
}

/// The rows of the table by strategy, by the series' key and the strategy's name; `None` where the
/// cells do not add up within the counters and the decimal type.
pub fn checked_driver_rows(matrix: &DriverMatrix) -> (r: Option<Vec<DriverRow>>)
    requires
        matrix.wf(),
    ensures
        r is Some <==> has_sums(matrix.cells()),
        r matches Some(rows) ==> rows@ == ranked(
            rows_of(crate::driver_matrix::summed(matrix.cells())),
        ),
{
    let totals = match matrix.checked_totals() {
        Some(totals) => totals,
        None => return None,
    };
    let ghost all = rows_of(totals@);
    let mut rows: Vec<DriverRow> = Vec::new();
    let mut i: usize = 0;
    while i < totals.len()
        invariant
            i <= totals@.len(),
            all == rows_of(totals@),
            rows@ == all.subrange(0, i as int),
        decreases totals@.len() - i,
    {
        let k = *totals.key_at(i);
        let c = *totals.value_at(i);
        rows.push(DriverRow { series: k.series, driver: k.driver, cell: c });
        i = i + 1;
        assert(rows@ =~= all.subrange(0, i as int));
    }
    assert(rows@ =~= all);
    let order = ranked_places(&rows);
    let mut out: Vec<DriverRow> = Vec::new();
    let mut j: usize = 0;
    while j < order.len()
        invariant
            j <= order@.len(),
            order@.len() == ranked(rows@).len(),
            forall|k: int|
                0 <= k < order@.len() ==> #[trigger] order@[k] < rows@.len()
                    && rows@[order@[k] as int] == ranked(rows@)[k],
            out@ == ranked(rows@).subrange(0, j as int),
        decreases order.len() - j,
    {
        out.push(rows[order[j]]);
        j = j + 1;
        assert(out@ =~= ranked(rows@).subrange(0, j as int));
    }
    assert(out@ =~= ranked(rows@));
    Some(out)
}

/// The line of a row; `percent` is the share of its fills that won, in words.
pub open spec fn row_line(r: DriverRow, percent: Seq<char>) -> Seq<char> {
    "| "@ + r.series.key_spec() + " | "@ + driver_text(r.driver) + " | "@ + money_text(
        r.cell.realized_pnl,
    ) + " | "@ + text::digits(r.cell.resolved_fills as nat) + " | "@ + percent + " |\n"@
}

/// The lines of some rows.
pub open spec fn row_lines(rows: Seq<DriverRow>, percents: Seq<Seq<char>>) -> Seq<char>
    decreases rows.len(),
{
    if rows.len() == 0 {
        Seq::empty()
    } else {
        row_lines(rows.drop_last(), percents.drop_last()) + row_line(rows.last(), percents.last())
    }
}

/// The section on the strategies.
pub open spec fn drivers_section(rows: Seq<DriverRow>, percents: Seq<Seq<char>>) -> Seq<char> {
    if rows.len() == 0 {
        "## Per-driver PnL\n\n"@ + "No resolved driver-tagged fills today.\n\n"@
    } else {
        "## Per-driver PnL\n\n"@ + "| series | driver | realized PnL | resolved fills | win% |\n"@
            + "|---|---|---:|---:|---:|\n"@ + row_lines(rows, percents) + "\n"@
    }
}

/// The section on the strategies.
pub fn render_per_driver_pnl(rows: &Vec<DriverRow>, percents: &Vec<String>) -> (r: String)
    requires
        percents@.len() == rows@.len(),
    ensures
        r@ == drivers_section(rows@, crate::screen::line_views(percents@)),
{
    let mut out = "## Per-driver PnL\n\n".to_owned();
    if rows.len() == 0 {
        out.append("No resolved driver-tagged fills today.\n\n");
        return out;
    }
    let ghost words = crate::screen::line_views(percents@);
    let mut body = String::new();
    let mut i: usize = 0;
    assert(rows@.subrange(0, 0) =~= Seq::empty());
    while i < rows.len()
        invariant
            i <= rows@.len(),
            percents@.len() == rows@.len(),
            words == crate::screen::line_views(percents@),
            body@ == row_lines(rows@.subrange(0, i as int), words.subrange(0, i as int)),
        decreases rows.len() - i,
    {
        proof {
            let part = rows@.subrange(0, i + 1);
            let part_words = words.subrange(0, i + 1);
            assert(part.drop_last() =~= rows@.subrange(0, i as int));
            assert(part_words.drop_last() =~= words.subrange(0, i as int));
            assert(part.last() == rows@[i as int]);
            assert(part_words.last() == percents@[i as int]@);
        }
        let r = rows[i];
        let mut line = "| ".to_owned();
        line.append(r.series.key());
        line.append(" | ");
        line.append(driver_label(r.driver));
        line.append(" | ");
        line.append(fmt_money(&r.cell.realized_pnl).as_str());
        line.append(" | ");
        line.append(text::u64_text(r.cell.resolved_fills as u64).as_str());
        line.append(" | ");
        line.append(percents[i].as_str());
        line.append(" |\n");
        body.append(line.as_str());
        i = i + 1;
    }
    assert(rows@.subrange(0, i as int) =~= rows@);
    assert(words.subrange(0, i as int) =~= words);
    out.append("| series | driver | realized PnL | resolved fills | win% |\n");
    out.append("|---|---|---:|---:|---:|\n");
    out.append(body.as_str());
    out.append("\n");
    out
}

impl Ranked for Figure {
    open spec fn before(self, other: Self) -> bool {
        self.value() < other.value()
    }

    fn is_before(&self, other: &Self) -> (r: bool) {
        self.less(other)
    }
}

/// What our resting orders were filled for on a day, with the decimal places that each product came
/// with.
pub open spec fn maker_notionals(fills: Seq<FillRow>, day: Date) -> Seq<Figure> {
    chosen(fills, maker_on(day)).map_values(
        |f: FillRow| Figure::product_of(f.price, f.size),
    )
}

/// Whether a fill is a resting order's on a day.
pub open spec fn maker_on(day: Date) -> spec_fn(FillRow) -> bool {
    |f: FillRow| f.liquidity == Liquidity::Maker && on_day(f.ts_ms, day)
}

/// The place of a percentile among `n` sorted values: the nearest rank.
pub open spec fn nearest_rank(n: int, p: int) -> int {
    let rank = (p * n + 99) / 100;
    if rank < 1 {
        0
    } else if rank > n {
        n - 1
    } else {
        rank - 1
    }
}

/// A percentile of sorted values; zero where there are none.
pub open spec fn percentile_of(sorted: Seq<Figure>, p: int) -> Figure {
    if sorted.len() == 0 {
        Figure::of_parts((0, 0))
    } else {
        sorted[nearest_rank(sorted.len() as int, p)]
    }
}

/// A percentile of sorted values; zero where there are none.
pub fn percentile(sorted: &Vec<Figure>, p: usize) -> (r: Figure)
    requires
        p <= 100,
    ensures
        r == percentile_of(sorted@, p as int),
{
    let n: usize = sorted.len();
    if n == 0 {
        return Figure::new(0, 0);
    }
    proof {
        assert(p * n <= 100 * n) by (nonlinear_arith)
            requires
                p <= 100,
        ;
    }
    let rank: u128 = (p as u128 * n as u128 + 99) / 100;
    let at: usize = if rank < 1 {
        0
    } else if rank > n as u128 {
        n - 1
    } else {
        (rank - 1) as usize
    };
    sorted[at]
}

/// A percentile is the first of the sorted values that at least so many in a hundred are at or
/// before.
pub proof fn law_percentile_is_the_nearest_rank(sorted: Seq<Figure>, p: int, rank: int)
    requires
        0 < p <= 100,
        0 < rank <= sorted.len(),
        100 * rank >= p * sorted.len(),
        100 * (rank - 1) < p * sorted.len(),
    ensures
        percentile_of(sorted, p) == sorted[rank - 1],
{
}

/// The notionals of a day are the prices times the sizes of that day's resting fills, and of no
/// others.
pub proof fn law_notionals_are_of_resting_fills(fills: Seq<FillRow>, day: Date)
    ensures
        maker_notionals(fills, day) == fills.filter(
            |f: FillRow| f.liquidity == Liquidity::Maker && on_day(f.ts_ms, day),
        ).map_values(|f: FillRow| Figure::product_of(f.price, f.size)),
{
    law_chosen_are_those_that_hold(fills, maker_on(day));
    assert(maker_on(day) =~= (|f: FillRow|
        f.liquidity == Liquidity::Maker && on_day(f.ts_ms, day)));
}

/// The section on our resting orders.
pub open spec fn maker_section(fills: Seq<FillRow>, day: Date) -> Seq<char> {
    let sorted = ranked(maker_notionals(fills, day));
    "## Maker fill quality vs competitors\n\n"@ + (if sorted.len() == 0 {
        "- Our maker fills today: none.\n"@
    } else {
        "- Our maker fill notional (n="@ + text::digits(sorted.len()) + "): median $"@
            + percentile_of(sorted, 50).text_spec() + " / p90 $"@ + percentile_of(
            sorted,
            90,
        ).text_spec() + "\n"@
    }) + "- Competitor reference (nagi777): median $4 / p90 $21\n"@
        + "- At-touch %: n/a (requires live dashboard \u{2014} not in the sqlite index)\n"@
        + "- 5s / 30s markout: n/a (requires live dashboard \u{2014} not in the sqlite index)\n"@
        + "\n"@
}

/// Whether the prices of fills are within `[0, 1]`.
pub open spec fn fills_plausible(fills: Seq<FillRow>) -> bool {
    forall|i: int| 0 <= i < fills.len() ==> 0 <= (#[trigger] fills[i]).price.value() <= UNIT
}

/// The section on our resting orders.
pub fn render_maker_quality(fills: &Vec<FillRow>, day: Date) -> (r: String)
    requires
        fills_plausible(fills@),
    ensures
        r@ == maker_section(fills@, day),
{
    let ghost all = maker_notionals(fills@, day);
    let mut notionals: Vec<Figure> = Vec::new();
    let mut i: usize = 0;
    assert(fills@.subrange(0, 0) =~= Seq::empty());
    assert(notionals@ =~= maker_notionals(fills@.subrange(0, 0), day));
    while i < fills.len()
        invariant
            i <= fills@.len(),
            fills_plausible(fills@),
            notionals@ == maker_notionals(fills@.subrange(0, i as int), day),
        decreases fills.len() - i,
    {
        let f = fills[i];
        let ghost before = notionals@;
        proof {
            let part = fills@.subrange(0, i + 1);
            assert(part.drop_last() =~= fills@.subrange(0, i as int));
            assert(part.last() == f);
        }
        if f.liquidity == Liquidity::Maker && is_on_day(f.ts_ms, day) {
            proof {
                use_type_invariant(&f.size);
                f.size.lemma_limits();
                lemma_notional(f.price.value(), f.size.value());
            }
            notionals.push(f.price.times_unstripped(&f.size));
        }
        i = i + 1;
        assert(notionals@ =~= maker_notionals(fills@.subrange(0, i as int), day));
    }
    assert(fills@.subrange(0, i as int) =~= fills@);
    let order = ranked_places(&notionals);
    let mut sorted: Vec<Figure> = Vec::new();
    let mut j: usize = 0;
    while j < order.len()
        invariant
            j <= order@.len(),
            order@.len() == ranked(notionals@).len(),
            forall|k: int|
                0 <= k < order@.len() ==> #[trigger] order@[k] < notionals@.len()
                    && notionals@[order@[k] as int] == ranked(notionals@)[k],
            sorted@ == ranked(notionals@).subrange(0, j as int),
        decreases order.len() - j,
    {
        sorted.push(notionals[order[j]]);
        j = j + 1;
        assert(sorted@ =~= ranked(notionals@).subrange(0, j as int));
    }
    assert(sorted@ =~= ranked(notionals@));
    let size = if sorted.len() == 0 {
        "- Our maker fills today: none.\n".to_owned()
    } else {
        let mut line = "- Our maker fill notional (n=".to_owned();
        line.append(text::u64_text(sorted.len() as u64).as_str());
        line.append("): median $");
        line.append(percentile(&sorted, 50).text().as_str());
        line.append(" / p90 $");
        line.append(percentile(&sorted, 90).text().as_str());
        line.append("\n");
        line
    };
    let mut out = "## Maker fill quality vs competitors\n\n".to_owned();
    out.append(size.as_str());
    out.append("- Competitor reference (nagi777): median $4 / p90 $21\n");
    out.append("- At-touch %: n/a (requires live dashboard \u{2014} not in the sqlite index)\n");
    out.append(
        "- 5s / 30s markout: n/a (requires live dashboard \u{2014} not in the sqlite index)\n",
    );
    out.append("\n");
    out
}

/// A price of at most one makes no size too large.
proof fn lemma_notional(price: int, size: int)
    requires
        0 <= price <= UNIT,
        crate::decimal::abs_int(size) <= crate::decimal::max_value(),
    ensures
        crate::decimal::abs_int(price * size) <= crate::decimal::max_value() * UNIT,
{
    let top = crate::decimal::max_value();
    assert(-(top * UNIT) <= price * size <= top * UNIT) by (nonlinear_arith)
        requires
            0 <= price <= UNIT,
            -top <= size <= top,
    ;
}

/// Whether a row of the breaker log is of a kind and on a day.
pub open spec fn kind_on(kind: Seq<char>, day: Date) -> spec_fn(BreakerRow) -> bool {
    |r: BreakerRow| r.kind@ == kind && on_day(r.ts_ms, day)
}

/// The trips of a day.
pub open spec fn trips_on(rows: Seq<BreakerRow>, day: Date) -> Seq<BreakerRow> {
    chosen(rows, kind_on("tripped"@, day))
}

/// How often each breaker tripped, in the order of its first trip.
pub open spec fn trip_counts(trips: Seq<BreakerRow>) -> Seq<(Seq<char>, u32)>
    decreases trips.len(),
{
    if trips.len() == 0 {
        Seq::empty()
    } else {
        let before = trip_counts(trips.drop_last());
        let name = trips.last().breaker@;
        put(
            before,
            name,
            match lookup(before, name) {
                Some(n) => (n + 1) as u32,
                None => 1,
            },
        )
    }
}

/// The trips of a day are the log's lines of that day that say so.
pub proof fn law_trips_are_the_days_tripped_lines(rows: Seq<BreakerRow>, day: Date)
    ensures
        trips_on(rows, day) == rows.filter(
            |r: BreakerRow| r.kind@ == "tripped"@ && on_day(r.ts_ms, day),
        ),
{
    law_chosen_are_those_that_hold(rows, kind_on("tripped"@, day));
    assert(kind_on("tripped"@, day) =~= (|r: BreakerRow|
        r.kind@ == "tripped"@ && on_day(r.ts_ms, day)));
}

/// A breaker is counted as often as it tripped, and listed where it did.
pub proof fn law_each_breaker_counts_its_trips(trips: Seq<BreakerRow>, name: Seq<char>)
    requires
        trips.len() <= u32::MAX,
    ensures
        crate::table::unique_keys(trip_counts(trips)),
        ({
            let own = trips.filter(|r: BreakerRow| r.breaker@ == name);
            &&& own.len() <= trips.len()
            &&& lookup(trip_counts(trips), name) == (if own.len() == 0 {
                None
            } else {
                Some(own.len() as u32)
            })
        }),
    decreases trips.len(),
{
    reveal(Seq::filter);
    if trips.len() > 0 {
        let rest = trips.drop_last();
        law_each_breaker_counts_its_trips(rest, name);
        let before = trip_counts(rest);
        let last = trips.last().breaker@;
        crate::table::lemma_put(
            before,
            last,
            match lookup(before, last) {
                Some(n) => (n + 1) as u32,
                None => 1,
            },
        );
        assert(lookup(before, name) == lookup(before, name));
    }
}

/// A name with its count.
pub open spec fn count_line(e: (Seq<char>, u32)) -> Seq<char> {
    "- "@ + e.0 + ": "@ + text::digits(e.1 as nat) + "\n"@
}

/// The lines of some counts.
pub open spec fn count_lines(s: Seq<(Seq<char>, u32)>) -> Seq<char>
    decreases s.len(),
{
    if s.len() == 0 {
        Seq::empty()
    } else {
        count_lines(s.drop_last()) + count_line(s.last())
    }
}

/// Counts with one more in its place, by name.
pub open spec fn count_placed(s: Seq<(Seq<char>, u32)>, e: (Seq<char>, u32)) -> Seq<
    (Seq<char>, u32),
>
    decreases s.len(),
{
    if s.len() > 0 && text::text_before(e.0, s.last().0) {
        count_placed(s.drop_last(), e).push(s.last())
    } else {
        s.push(e)
    }
}

/// Counts by name.
pub open spec fn by_name(s: Seq<(Seq<char>, u32)>) -> Seq<(Seq<char>, u32)>
    decreases s.len(),
{
    if s.len() == 0 {
        Seq::empty()
    } else {
        count_placed(by_name(s.drop_last()), s.last())
    }
}

/// Counts by name are the counts that there were, and no name stands behind a later one.
pub proof fn law_counts_stand_by_name(s: Seq<(Seq<char>, u32)>, i: int, j: int)
    requires
        0 <= i < j < by_name(s).len(),
    ensures
        by_name(s).len() == s.len(),
        !text::text_before(by_name(s)[j].0, by_name(s)[i].0),
        s.contains(by_name(s)[i]),
{
    lemma_by_name(s);
    assert(by_name(s).contains(by_name(s)[i]));
}

proof fn lemma_by_name(s: Seq<(Seq<char>, u32)>)
    ensures
        by_name(s).len() == s.len(),
        forall|i: int, j: int|
            0 <= i < j < by_name(s).len() ==> !text::text_before(
                (#[trigger] by_name(s)[j]).0,
                (#[trigger] by_name(s)[i]).0,
            ),
        forall|e: (Seq<char>, u32)| #[trigger] by_name(s).contains(e) <==> s.contains(e),
    decreases s.len(),
{
    if s.len() > 0 {
        let rest = s.drop_last();
        lemma_by_name(rest);
        lemma_count_placed(by_name(rest), s.last());
        assert(rest.push(s.last()) =~= s);
        assert forall|e: (Seq<char>, u32)| #[trigger] by_name(s).contains(e) <==> s.contains(e) by {
            if s.contains(e) {
                let k = choose|k: int| 0 <= k < s.len() && s[k] == e;
                if k < rest.len() {
                    assert(rest[k] == e);
                    assert(by_name(rest).contains(e));
                }
            }
            if rest.contains(e) {
                let k = choose|k: int| 0 <= k < rest.len() && rest[k] == e;
                assert(s[k] == e);
            }
            assert(s[s.len() - 1] == s.last());
            assert(by_name(rest).contains(e) <==> rest.contains(e));
        }
    }
}

proof fn lemma_count_placed(s: Seq<(Seq<char>, u32)>, e: (Seq<char>, u32))
    requires
        forall|i: int, j: int|
            0 <= i < j < s.len() ==> !text::text_before((#[trigger] s[j]).0, (#[trigger] s[i]).0),
    ensures
        count_placed(s, e).len() == s.len() + 1,
        forall|i: int, j: int|
            0 <= i < j < count_placed(s, e).len() ==> !text::text_before(
                (#[trigger] count_placed(s, e)[j]).0,
                (#[trigger] count_placed(s, e)[i]).0,
            ),
        forall|x: (Seq<char>, u32)| #[trigger]
            count_placed(s, e).contains(x) <==> s.contains(x) || x == e,
    decreases s.len(),
{
    let t = count_placed(s, e);
    if s.len() > 0 && text::text_before(e.0, s.last().0) {
        let rest = s.drop_last();
        let last = s.last();
        assert forall|i: int, j: int| 0 <= i < j < rest.len() implies !text::text_before(
            (#[trigger] rest[j]).0,
            (#[trigger] rest[i]).0,
        ) by {
            assert(rest[i] == s[i] && rest[j] == s[j]);
        }
        lemma_count_placed(rest, e);
        let u = count_placed(rest, e);
        text::lemma_text_order(e.0, last.0);
        assert(s[s.len() - 1] == last);
        assert forall|i: int, j: int| 0 <= i < j < t.len() implies !text::text_before(
            (#[trigger] t[j]).0,
            (#[trigger] t[i]).0,
        ) by {
            assert(t[i] == u[i]);
            if j < u.len() {
                assert(t[j] == u[j]);
            } else {
                assert(u.contains(u[i]));
                if u[i] != e {
                    let m = choose|m: int| 0 <= m < rest.len() && rest[m] == u[i];
                    assert(s[m] == u[i]);
                }
            }
        }
        assert forall|x: (Seq<char>, u32)| #[trigger]
            t.contains(x) <==> s.contains(x) || x == e by {
            assert(u.contains(x) <==> rest.contains(x) || x == e);
            lemma_pushed_contains(u, last, x);
            lemma_pushed_contains(rest, last, x);
            assert(rest.push(last) =~= s);
        }
    } else {
        assert forall|i: int, j: int| 0 <= i < j < t.len() implies !text::text_before(
            (#[trigger] t[j]).0,
            (#[trigger] t[i]).0,
        ) by {
            assert(t[i] == s[i]);
            if j < s.len() {
                assert(t[j] == s[j]);
            } else {
                let last = s[s.len() - 1];
                if i < s.len() - 1 {
                    assert(!text::text_before(last.0, s[i].0));
                    text::lemma_text_order(last.0, s[i].0);
                    text::lemma_text_order(e.0, last.0);
                    text::lemma_text_order(e.0, s[i].0);
                    if text::text_before(e.0, s[i].0) {
                        if text::text_before(s[i].0, last.0) {
                            text::lemma_text_order_carries(e.0, s[i].0, last.0);
                        }
                    }
                }
            }
        }
        assert forall|x: (Seq<char>, u32)| #[trigger]
            t.contains(x) <==> s.contains(x) || x == e by {
            lemma_pushed_contains(s, e, x);
        }
    }
}

pub proof fn lemma_pushed_contains<A>(s: Seq<A>, last: A, x: A)
    ensures
        s.push(last).contains(x) <==> s.contains(x) || x == last,
{
    let t = s.push(last);
    assert(t[s.len() as int] == last);
    if s.contains(x) {
        let i = choose|i: int| 0 <= i < s.len() && s[i] == x;
        assert(t[i] == x);
    }
    if t.contains(x) {
        let i = choose|i: int| 0 <= i < t.len() && t[i] == x;
        if i < s.len() {
            assert(s[i] == x);
        }
    }
}

/// The trips of an hour are those whose clock stood at that hour.
pub proof fn law_trips_of_an_hour(trips: Seq<BreakerRow>, hour: int)
    ensures
        trips_in_hour(trips, hour) == trips.filter(
            |r: BreakerRow|
                civil_time(floor_secs(r.ts_ms as int)) matches Some(c) && c.hour == hour,
        ).len(),
    decreases trips.len(),
{
    reveal(Seq::filter);
    if trips.len() > 0 {
        law_trips_of_an_hour(trips.drop_last(), hour);
    }
}

/// The trips by breaker.
pub open spec fn trips_by_breaker(trips: Seq<BreakerRow>) -> Seq<char> {
    if trips.len() == 0 {
        "Trips by breaker: none\n"@
    } else {
        "Trips by breaker:\n"@ + count_lines(by_name(trip_counts(trips)))
    }
}

/// How many trips were in an hour of the day.
pub open spec fn trips_in_hour(trips: Seq<BreakerRow>, hour: int) -> nat
    decreases trips.len(),
{
    if trips.len() == 0 {
        0
    } else {
        trips_in_hour(trips.drop_last(), hour) + if civil_time(
            floor_secs(trips.last().ts_ms as int),
        ) matches Some(c) && c.hour == hour {
            1nat
        } else {
            0nat
        }
    }
}

/// The hours before `n` with trips, as a list.
pub open spec fn hour_list(trips: Seq<BreakerRow>, n: int) -> Seq<char>
    decreases n,
{
    if n <= 0 {
        Seq::empty()
    } else {
        let before = hour_list(trips, n - 1);
        let count = trips_in_hour(trips, n - 1);
        if count == 0 {
            before
        } else {
            (if before.len() == 0 {
                before
            } else {
                before + ", "@
            }) + calendar::zero_padded(n - 1, 2) + ": "@ + text::digits(count)
        }
    }
}

/// The trips by hour.
pub open spec fn trips_by_hour(trips: Seq<BreakerRow>) -> Seq<char> {
    if hour_list(trips, 24).len() == 0 {
        "Trips/hour (UTC): none\n"@
    } else {
        "Trips/hour (UTC): "@ + hour_list(trips, 24) + "  (total "@ + text::digits(trips.len())
            + ")\n"@
    }
}

/// The section on the breakers.
pub open spec fn breakers_section(rows: Seq<BreakerRow>, day: Date) -> Seq<char> {
    "## Breakers\n\n"@ + trips_by_breaker(trips_on(rows, day)) + "Cancel-all: "@ + text::digits(
        chosen(rows, kind_on("cancel_all"@, day)).len(),
    ) + "\n"@ + trips_by_hour(trips_on(rows, day)) + "\n"@
}

/// The places of the rows of a kind on a day.
fn places_on(rows: &Vec<BreakerRow>, kind: &str, day: Date) -> (r: Vec<usize>)
    ensures
        r@.len() == chosen(rows@, kind_on(kind@, day)).len(),
        r@.len() <= rows@.len(),
        forall|j: int|
            0 <= j < r@.len() ==> #[trigger] r@[j] < rows@.len() && rows@[r@[j] as int] == chosen(
                rows@,
                kind_on(kind@, day),
            )[j],
{
    let ghost p = kind_on(kind@, day);
    let mut out: Vec<usize> = Vec::new();
    let mut i: usize = 0;
    assert(rows@.subrange(0, 0) =~= Seq::empty());
    while i < rows.len()
        invariant
            i <= rows@.len(),
            p == kind_on(kind@, day),
            out@.len() == chosen(rows@.subrange(0, i as int), p).len(),
            out@.len() <= i,
            forall|j: int|
                0 <= j < out@.len() ==> #[trigger] out@[j] < rows@.len() && rows@[out@[j] as int]
                    == chosen(rows@.subrange(0, i as int), p)[j],
        decreases rows.len() - i,
    {
        proof {
            let part = rows@.subrange(0, i + 1);
            assert(part.drop_last() =~= rows@.subrange(0, i as int));
            assert(part.last() == rows@[i as int]);
        }
        if text::same(rows[i].kind.as_str(), kind) && is_on_day(rows[i].ts_ms, day) {
            out.push(i);
        }
        i = i + 1;
    }
    assert(rows@.subrange(0, i as int) =~= rows@);
    out
}

/// Some rows at their places.
pub open spec fn rows_at(rows: Seq<BreakerRow>, places: Seq<usize>) -> Seq<BreakerRow> {
    places.map_values(|i: usize| rows[i as int])
}

/// How often each breaker tripped.
fn count_trips(rows: &Vec<BreakerRow>, places: &Vec<usize>) -> (r: Table<Id, u32>)
    requires
        places@.len() <= u32::MAX,
        forall|j: int| 0 <= j < places@.len() ==> #[trigger] places@[j] < rows@.len(),
    ensures
        r.wf(),
        r@ == trip_counts(rows_at(rows@, places@)),
{
    let ghost trips = rows_at(rows@, places@);
    let mut counts: Table<Id, u32> = Table::new();
    let mut i: usize = 0;
    assert(trips.subrange(0, 0) =~= Seq::empty());
    while i < places.len()
        invariant
            i <= places@.len() <= u32::MAX,
            forall|j: int| 0 <= j < places@.len() ==> #[trigger] places@[j] < rows@.len(),
            trips == rows_at(rows@, places@),
            counts.wf(),
            counts@ == trip_counts(trips.subrange(0, i as int)),
            forall|j: int| 0 <= j < counts@.len() ==> (#[trigger] counts@[j]).1 <= i,
        decreases places.len() - i,
    {
        let ghost before = counts@;
        proof {
            let part = trips.subrange(0, i + 1);
            assert(part.drop_last() =~= trips.subrange(0, i as int));
            assert(part.last() == rows@[places@[i as int] as int]);
        }
        let name = Id::new(rows[places[i]].breaker.as_str());
        let n: u32 = match counts.get(&name) {
            Some(n) => {
                proof {
                    let p = crate::table::place(before, name@);
                    assert(before[p].1 <= i);
                }
                *n + 1
            },
            None => 1,
        };
        counts.insert(name, n);
        proof {
            assert forall|j: int| 0 <= j < counts@.len() implies (#[trigger] counts@[j]).1 <= i
                + 1 by {
                if j < before.len() && counts@[j] == before[j] {
                    assert(before[j].1 <= i);
                } else {
                    assert(counts@[j].1 == n);
                }
            }
        }
        i = i + 1;
    }
    assert(trips.subrange(0, i as int) =~= trips);
    counts
}

/// The lines of some counts, by name.
fn name_lines(counts: &Table<Id, u32>) -> (r: String)
    requires
        counts.wf(),
    ensures
        r@ == count_lines(by_name(counts@)),
{
    let order = name_order(counts);
    let ghost all = by_name(counts@);
    let mut out = String::new();
    let mut i: usize = 0;
    assert(all.subrange(0, 0) =~= Seq::empty());
    while i < order.len()
        invariant
            i <= order@.len(),
            order@.len() == all.len(),
            forall|j: int|
                0 <= j < order@.len() ==> #[trigger] order@[j] < counts@.len()
                    && counts@[order@[j] as int] == all[j],
            out@ == count_lines(all.subrange(0, i as int)),
        decreases order.len() - i,
    {
        proof {
            let part = all.subrange(0, i + 1);
            assert(part.drop_last() =~= all.subrange(0, i as int));
            assert(part.last() == all[i as int]);
        }
        let mut line = "- ".to_owned();
        line.append(counts.key_at(order[i]).text.as_str());
        line.append(": ");
        line.append(text::u64_text(*counts.value_at(order[i]) as u64).as_str());
        line.append("\n");
        out.append(line.as_str());
        i = i + 1;
    }
    assert(all.subrange(0, i as int) =~= all);
    out
}

/// The places of some counts, by name.
fn name_order(counts: &Table<Id, u32>) -> (r: Vec<usize>)
    ensures
        r@.len() == by_name(counts@).len(),
        forall|j: int|
            0 <= j < r@.len() ==> #[trigger] r@[j] < counts@.len() && counts@[r@[j] as int]
                == by_name(counts@)[j],
{
    let ghost all = counts@;
    let mut order: Vec<usize> = Vec::new();
    let n: usize = counts.len();
    let mut i: usize = 0;
    assert(all.subrange(0, 0) =~= Seq::empty());
    while i < n
        invariant
            i <= n == all.len(),
            all == counts@,
            order@.len() == by_name(all.subrange(0, i as int)).len(),
            forall|j: int|
                0 <= j < order@.len() ==> #[trigger] order@[j] < n && all[order@[j] as int]
                    == by_name(all.subrange(0, i as int))[j],
        decreases n - i,
    {
        let ghost e = all[i as int];
        let ghost s = by_name(all.subrange(0, i as int));
        let ghost before = order@;
        proof {
            let part = all.subrange(0, i + 1);
            assert(part.drop_last() =~= all.subrange(0, i as int));
            assert(part.last() == e);
        }
        let mut at: usize = order.len();
        assert(s.subrange(0, at as int) =~= s);
        assert(count_placed(s, e) =~= count_placed(s.subrange(0, at as int), e) + s.subrange(
            at as int,
            s.len() as int,
        ));
        while at > 0 && text::comes_before(
            counts.key_at(i).text.as_str(),
            counts.key_at(order[at - 1]).text.as_str(),
        )
            invariant
                i < n == all.len(),
                all == counts@,
                e == all[i as int],
                at <= s.len(),
                order@ == before,
                order@.len() == s.len(),
                forall|j: int|
                    0 <= j < order@.len() ==> #[trigger] order@[j] < n && all[order@[j] as int]
                        == s[j],
                count_placed(s, e) == count_placed(s.subrange(0, at as int), e) + s.subrange(
                    at as int,
                    s.len() as int,
                ),
            decreases at,
        {
            proof {
                let part = s.subrange(0, at as int);
                assert(part.last() == s[at - 1]);
                assert(part.drop_last() =~= s.subrange(0, at - 1));
                assert(count_placed(part, e) + s.subrange(at as int, s.len() as int)
                    =~= count_placed(s.subrange(0, at - 1), e) + s.subrange(
                    at - 1,
                    s.len() as int,
                ));
            }
            at = at - 1;
        }
        order.insert(at, i);
        proof {
            let part = s.subrange(0, at as int);
            if at > 0 {
                assert(part.last() == s[at - 1]);
            }
            assert(count_placed(part, e) =~= part.push(e));
            let now = count_placed(s, e);
            assert(now =~= s.insert(at as int, e));
            assert forall|j: int| 0 <= j < order@.len() implies #[trigger] order@[j] < n
                && all[order@[j] as int] == now[j] by {
                if j < at {
                    assert(order@[j] == before[j]);
                } else if j > at {
                    assert(order@[j] == before[j - 1]);
                }
            }
        }
        i = i + 1;
    }
    assert(all.subrange(0, i as int) =~= all);
    order
}

/// How many trips were in an hour of the day.
fn count_hour(rows: &Vec<BreakerRow>, places: &Vec<usize>, hour: u8) -> (r: u64)
    requires
        forall|j: int| 0 <= j < places@.len() ==> #[trigger] places@[j] < rows@.len(),
    ensures
        r == trips_in_hour(rows_at(rows@, places@), hour as int),
{
    let ghost trips = rows_at(rows@, places@);
    let mut n: u64 = 0;
    let mut i: usize = 0;
    assert(trips.subrange(0, 0) =~= Seq::empty());
    while i < places.len()
        invariant
            i <= places@.len(),
            forall|j: int| 0 <= j < places@.len() ==> #[trigger] places@[j] < rows@.len(),
            trips == rows_at(rows@, places@),
            n == trips_in_hour(trips.subrange(0, i as int), hour as int),
            n <= i,
        decreases places.len() - i,
    {
        proof {
            let part = trips.subrange(0, i + 1);
            assert(part.drop_last() =~= trips.subrange(0, i as int));
            assert(part.last() == rows@[places@[i as int] as int]);
        }
        if let Some(c) = calendar::civil_of_ms(rows[places[i]].ts_ms) {
            if c.hour == hour {
                n = n + 1;
            }
        }
        i = i + 1;
    }
    assert(trips.subrange(0, i as int) =~= trips);
    n
}

/// The hours with trips, as a list.
fn hours(rows: &Vec<BreakerRow>, places: &Vec<usize>) -> (r: String)
    requires
        forall|j: int| 0 <= j < places@.len() ==> #[trigger] places@[j] < rows@.len(),
    ensures
        r@ == hour_list(rows_at(rows@, places@), 24),
{
    let mut out = String::new();
    let mut h: u8 = 0;
    while h < 24
        invariant
            h <= 24,
            forall|j: int| 0 <= j < places@.len() ==> #[trigger] places@[j] < rows@.len(),
            out@ == hour_list(rows_at(rows@, places@), h as int),
        decreases 24 - h,
    {
        let n: u64 = count_hour(rows, places, h);
        if n > 0 {
            if out.as_str().unicode_len() > 0 {
                out.append(", ");
            }
            out.append(calendar::zero_pad(h as i64, 2).as_str());
            out.append(": ");
            out.append(text::u64_text(n).as_str());
        }
        h = h + 1;
    }
    out
}

/// The section on the breakers.
pub fn render_breakers(rows: &Vec<BreakerRow>, day: Date) -> (r: String)
    requires
        rows@.len() <= u32::MAX,
    ensures
        r@ == breakers_section(rows@, day),
{
    let tripped = places_on(rows, "tripped", day);
    let cancelled = places_on(rows, "cancel_all", day);
    let ghost trips = trips_on(rows@, day);
    assert(rows_at(rows@, tripped@) =~= trips);
    let by_breaker = if tripped.len() == 0 {
        "Trips by breaker: none\n".to_owned()
    } else {
        let counts = count_trips(rows, &tripped);
        text::join2("Trips by breaker:\n", name_lines(&counts).as_str())
    };
    let list = hours(rows, &tripped);
    let by_hour = if list.as_str().unicode_len() == 0 {
        "Trips/hour (UTC): none\n".to_owned()
    } else {
        let mut line = text::join2("Trips/hour (UTC): ", list.as_str());
        line.append("  (total ");
        line.append(text::u64_text(tripped.len() as u64).as_str());
        line.append(")\n");
        line
    };
    let mut out = "## Breakers\n\n".to_owned();
    out.append(by_breaker.as_str());
    out.append("Cancel-all: ");
    out.append(text::u64_text(cancelled.len() as u64).as_str());
    out.append("\n");
    out.append(by_hour.as_str());
    out.append("\n");
    out
}

/// What a stop is of.
pub open spec fn scope_text(s: ShadowStopLine) -> Seq<char> {
    match (s.series, s.window_open_ms) {
        (Some(series), Some(open_ms)) => series@ + "@"@ + iso_text(open_ms),
        (Some(series), None) => series@,
        _ => "global"@,
    }
}

/// The line of a stop.
pub open spec fn stop_line(s: ShadowStopLine) -> Seq<char> {
    "- "@ + iso_text(s.ts) + " "@ + s.kind@ + " "@ + scope_text(s) + " threshold="@ + s.threshold@
        + " value="@ + s.value@ + "\n"@
}

/// The lines of some stops.
pub open spec fn stop_lines(s: Seq<ShadowStopLine>) -> Seq<char>
    decreases s.len(),
{
    if s.len() == 0 {
        Seq::empty()
    } else {
        stop_lines(s.drop_last()) + stop_line(s.last())
    }
}

/// Whether a stop is on a day.
pub open spec fn stop_on(day: Date) -> spec_fn(ShadowStopLine) -> bool {
    |s: ShadowStopLine| on_day(s.ts, day)
}

/// The section on the stops.
pub open spec fn stops_section(stops: Seq<ShadowStopLine>, day: Date) -> Seq<char> {
    let today = chosen(stops, stop_on(day));
    if today.len() == 0 {
        "## Shadow loss-stops (would-have-tripped)\n\n"@ + "- none\n"@ + "\n"@
    } else {
        "## Shadow loss-stops (would-have-tripped)\n\n"@ + stop_lines(ranked(today)) + "\n"@
    }
}

/// The section on the stops.
pub fn render_shadow_stops(stops: &Vec<ShadowStopLine>, day: Date) -> (r: String)
    ensures
        r@ == stops_section(stops@, day),
{
    let ghost p = stop_on(day);
    let mut today: Vec<ShadowStopLine> = Vec::new();
    let mut i: usize = 0;
    assert(stops@.subrange(0, 0) =~= Seq::empty());
    while i < stops.len()
        invariant
            i <= stops@.len(),
            p == stop_on(day),
            today@ == chosen(stops@.subrange(0, i as int), p),
        decreases stops.len() - i,
    {
        proof {
            let part = stops@.subrange(0, i + 1);
            assert(part.drop_last() =~= stops@.subrange(0, i as int));
            assert(part.last() == stops@[i as int]);
        }
        if is_on_day(stops[i].ts, day) {
            today.push(stops[i].duplicate());
        }
        i = i + 1;
    }
    assert(stops@.subrange(0, i as int) =~= stops@);
    let mut out = "## Shadow loss-stops (would-have-tripped)\n\n".to_owned();
    if today.len() == 0 {
        out.append("- none\n");
        out.append("\n");
        return out;
    }
    let order = ranked_places(&today);
    let ghost all = ranked(today@);
    let mut body = String::new();
    let mut j: usize = 0;
    assert(all.subrange(0, 0) =~= Seq::empty());
    while j < order.len()
        invariant
            j <= order@.len(),
            order@.len() == all.len(),
            forall|k: int|
                0 <= k < order@.len() ==> #[trigger] order@[k] < today@.len()
                    && today@[order@[k] as int] == all[k],
            body@ == stop_lines(all.subrange(0, j as int)),
        decreases order.len() - j,
    {
        let s = &today[order[j]];
        proof {
            let part = all.subrange(0, j + 1);
            assert(part.drop_last() =~= all.subrange(0, j as int));
            assert(part.last() == *s);
        }
        body.append(stop_text(s).as_str());
        j = j + 1;
    }
    assert(all.subrange(0, j as int) =~= all);
    out.append(body.as_str());
    out.append("\n");
    out
}

/// The line of a stop.
fn stop_text(s: &ShadowStopLine) -> (r: String)
    ensures
        r@ == stop_line(*s),
{
    let scope = match (&s.series, s.window_open_ms) {
        (Some(series), Some(open_ms)) => text::join3(
            series.as_str(),
            "@",
            iso_time(open_ms).as_str(),
        ),
        (Some(series), None) => series.clone(),
        _ => "global".to_owned(),
    };
    let mut out = text::join2("- ", iso_time(s.ts).as_str());
    out.append(" ");
    out.append(s.kind.as_str());
    out.append(" ");
    out.append(scope.as_str());
    out.append(" threshold=");
    out.append(s.threshold.as_str());
    out.append(" value=");
    out.append(s.value.as_str());
    out.append("\n");
    out
}

/// The line of a settlement.
pub open spec fn settlement_line(s: SettlementRow) -> Seq<char> {
    "- "@ + s.window.series.key_spec() + " @ "@ + iso_text(s.window.open_ms) + " \u{2192} "@
        + s.outcome.text_spec() + " "@ + money_text(s.realized_pnl) + "\n"@
}

/// The lines of some settlements.
pub open spec fn settlement_lines(s: Seq<SettlementRow>) -> Seq<char>
    decreases s.len(),
{
    if s.len() == 0 {
        Seq::empty()
    } else {
        settlement_lines(s.drop_last()) + settlement_line(s.last())
    }
}

/// Whether a settlement is on a day.
pub open spec fn settled_on(day: Date) -> spec_fn(SettlementRow) -> bool {
    |s: SettlementRow| on_day(s.settle_ms, day)
}

/// The section on the settlements, oldest first.
pub open spec fn settlements_section(rows: Seq<SettlementRow>, day: Date) -> Seq<char> {
    let today = chosen(rows, settled_on(day));
    if today.len() == 0 {
        "## Settlements\n\n"@ + "- none\n"@ + "\n"@
    } else {
        "## Settlements\n\n"@ + settlement_lines(ranked(today)) + "\n"@
    }
}

/// The section on the settlements.
pub fn render_settlements(rows: &Vec<SettlementRow>, day: Date) -> (r: String)
    ensures
        r@ == settlements_section(rows@, day),
{
    let ghost p = settled_on(day);
    let mut today: Vec<SettlementRow> = Vec::new();
    let mut i: usize = 0;
    assert(rows@.subrange(0, 0) =~= Seq::empty());
    while i < rows.len()
        invariant
            i <= rows@.len(),
            p == settled_on(day),
            today@ == chosen(rows@.subrange(0, i as int), p),
        decreases rows.len() - i,
    {
        proof {
            let part = rows@.subrange(0, i + 1);
            assert(part.drop_last() =~= rows@.subrange(0, i as int));
            assert(part.last() == rows@[i as int]);
        }
        if is_on_day(rows[i].settle_ms, day) {
            today.push(rows[i]);
        }
        i = i + 1;
    }
    assert(rows@.subrange(0, i as int) =~= rows@);
    let mut out = "## Settlements\n\n".to_owned();
    if today.len() == 0 {
        out.append("- none\n");
        out.append("\n");
        return out;
    }
    let order = ranked_places(&today);
    let ghost all = ranked(today@);
    let mut body = String::new();
    let mut j: usize = 0;
    assert(all.subrange(0, 0) =~= Seq::empty());
    while j < order.len()
        invariant
            j <= order@.len(),
            order@.len() == all.len(),
            forall|k: int|
                0 <= k < order@.len() ==> #[trigger] order@[k] < today@.len()
                    && today@[order@[k] as int] == all[k],
            body@ == settlement_lines(all.subrange(0, j as int)),
        decreases order.len() - j,
    {
        let s = today[order[j]];
        proof {
            let part = all.subrange(0, j + 1);
            assert(part.drop_last() =~= all.subrange(0, j as int));
            assert(part.last() == s);
        }
        let mut line = "- ".to_owned();
        line.append(s.window.series.key());
        line.append(" @ ");
        line.append(iso_time(s.window.open_ms).as_str());
        line.append(" \u{2192} ");
        line.append(s.outcome.text());
        line.append(" ");
        line.append(fmt_money(&s.realized_pnl).as_str());
        line.append("\n");
        body.append(line.as_str());
        j = j + 1;
    }
    assert(all.subrange(0, j as int) =~= all);
    out.append(body.as_str());
    out.append("\n");
    out
}

/// The whole report.
pub open spec fn digest_text(
    rows: Seq<DriverRow>,
    percents: Seq<Seq<char>>,
    fills: Seq<FillRow>,
    trips: Seq<BreakerRow>,
    stops: Seq<ShadowStopLine>,
    settlements: Seq<SettlementRow>,
    day: Date,
) -> Seq<char> {
    "# Daily digest \u{2014} "@ + day.dashed_spec() + "\n\n"@ + drivers_section(rows, percents)
        + maker_section(fills, day) + breakers_section(trips, day) + stops_section(stops, day)
        + settlements_section(settlements, day)
}

/// The whole report. `percents` holds, for each row by strategy, the share of its fills that
/// won, in words.
pub fn build_markdown(
    rows: &Vec<DriverRow>,
    percents: &Vec<String>,
    fills: &Vec<FillRow>,
    trips: &Vec<BreakerRow>,
    stops: &Vec<ShadowStopLine>,
    settlements: &Vec<SettlementRow>,
    day: Date,
) -> (r: String)
    requires
        percents@.len() == rows@.len(),
        fills_plausible(fills@),
        trips@.len() <= u32::MAX,
    ensures
        r@ == digest_text(
            rows@,
            crate::screen::line_views(percents@),
            fills@,
            trips@,
            stops@,
            settlements@,
            day,
        ),
{
    let mut md = "# Daily digest \u{2014} ".to_owned();
    md.append(day.dashed().as_str());
    md.append("\n\n");
    md.append(render_per_driver_pnl(rows, percents).as_str());
    md.append(render_maker_quality(fills, day).as_str());
    md.append(render_breakers(trips, day).as_str());
    md.append(render_shadow_stops(stops, day).as_str());
    md.append(render_settlements(settlements, day).as_str());
    md
}

/// Where a day's report goes unless it is told otherwise.
pub fn digest_path(day: Date) -> (r: String)
    ensures
        r@ == "data/digests/"@ + day.dashed_spec() + ".md"@,
{
    text::join3("data/digests/", day.dashed().as_str(), ".md")
}

/// Whether a text ends with another.
pub open spec fn ends_with(s: Seq<char>, suffix: Seq<char>) -> bool {
    s.len() >= suffix.len() && s.subrange(s.len() - suffix.len(), s.len() as int) == suffix
}

/// Whether a file is part of a record: by the prefix of its name, and compressed lines of JSON.
pub fn is_record_file(name: &str, prefix: &str) -> (r: bool)
    ensures
        r == (text::begins_with(name@, prefix@) && ends_with(name@, ".jsonl.gz"@)),
{
    let suffix = ".jsonl.gz";
    let n: usize = name.unicode_len();
    let m: usize = suffix.unicode_len();
    if n < m {
        return false;
    }
    text::starts_with(name, prefix) && text::same(name.substring_char(n - m, n), suffix)
}

/// The stops and the settlements that are reported are those of the day, in order.
pub proof fn law_stops_and_settlements_are_of_the_day(
    stops: Seq<ShadowStopLine>,
    rows: Seq<SettlementRow>,
    day: Date,
)
    ensures
        chosen(stops, stop_on(day)) == stops.filter(|s: ShadowStopLine| on_day(s.ts, day)),
        chosen(rows, settled_on(day)) == rows.filter(|s: SettlementRow| on_day(s.settle_ms, day)),
{
    law_chosen_are_those_that_hold(stops, stop_on(day));
    law_chosen_are_those_that_hold(rows, settled_on(day));
    assert(stop_on(day) =~= (|s: ShadowStopLine| on_day(s.ts, day)));
    assert(settled_on(day) =~= (|s: SettlementRow| on_day(s.settle_ms, day)));
}

/// The lines of one kind that are counted are those of that kind and of the day, in order.
pub proof fn law_lines_of_a_kind_are_of_the_day(rows: Seq<BreakerRow>, kind: Seq<char>, day: Date)
    ensures
        chosen(rows, kind_on(kind, day)) == rows.filter(
            |r: BreakerRow| r.kind@ == kind && on_day(r.ts_ms, day),
        ),
{
    law_chosen_are_those_that_hold(rows, kind_on(kind, day));
    assert(kind_on(kind, day) =~= (|r: BreakerRow| r.kind@ == kind && on_day(r.ts_ms, day)));
}

/// Each total has a row, of its series and driver, in order.
pub proof fn law_each_total_has_a_row(totals: Seq<(SeriesDriver, DriverCell)>, i: int)
    requires
        0 <= i < totals.len(),
    ensures
        rows_of(totals).len() == totals.len(),
        rows_of(totals)[i].series == totals[i].0.series,
        rows_of(totals)[i].driver == totals[i].0.driver,
        rows_of(totals)[i].cell == totals[i].1,
{
}

/// A stop is of one window where its series and opening are told, of the series where only that
/// is, and of everything otherwise.
pub proof fn law_scope_of_a_stop(s: ShadowStopLine)
    ensures
        s.series is None ==> scope_text(s) == "global"@,
        s.series is Some && s.window_open_ms is None ==> scope_text(s) == s.series->0@,
        s.series is Some && s.window_open_ms is Some ==> scope_text(s) == s.series->0@ + "@"@
            + iso_text(s.window_open_ms->0),
{
}

/// A window that settled on the day is booked by its own fills, and one that did not is left as it
/// is.
pub proof fn law_only_the_days_windows_are_settled(
    before: DriverMatrix,
    row: SettlementRow,
    day: Date,
    after: DriverMatrix,
)
    requires
        window_settled(before, row, day, after),
    ensures
        !on_day(row.settle_ms, day) ==> after == before,
        on_day(row.settle_ms, day) ==> after.cells() == settled_cells(
            before.cells(),
            row.window.series,
            waiting(before.pending(), row.window),
            row.outcome,
        ) && after.pending() == crate::table::cut(before.pending(), row.window),
{
}

/// An hour is listed where a breaker tripped in it, with how often, behind the hours before it,
/// and not otherwise.
pub proof fn law_hours_with_trips_are_listed(trips: Seq<BreakerRow>, hour: int)
    requires
        0 <= hour < 24,
    ensures
        trips_in_hour(trips, hour) == 0 ==> hour_list(trips, hour + 1) == hour_list(trips, hour),
        trips_in_hour(trips, hour) > 0 && hour_list(trips, hour).len() == 0 ==> hour_list(
            trips,
            hour + 1,
        ) == calendar::zero_padded(hour, 2) + ": "@ + text::digits(trips_in_hour(trips, hour)),
        trips_in_hour(trips, hour) > 0 && hour_list(trips, hour).len() > 0 ==> hour_list(
            trips,
            hour + 1,
        ) == hour_list(trips, hour) + ", "@ + calendar::zero_padded(hour, 2) + ": "@ + text::digits(
            trips_in_hour(trips, hour),
        ),
        hour_list(trips, 0).len() == 0,
{
    let before = hour_list(trips, hour);
    if before.len() == 0 {
        assert(before + calendar::zero_padded(hour, 2) == calendar::zero_padded(hour, 2));
    }
}

/// The breakers' section tells the trips and the cancellations of the day and of no other: it is
/// the same whatever other days' lines stand among them.
pub proof fn law_breakers_section_is_of_the_day(a: Seq<BreakerRow>, b: Seq<BreakerRow>, day: Date)
    requires
        a.filter(|r: BreakerRow| on_day(r.ts_ms, day)) == b,
    ensures
        breakers_section(a, day) == breakers_section(b, day),
{
    let today = |r: BreakerRow| on_day(r.ts_ms, day);
    let tripped = kind_on("tripped"@, day);
    let canceled = kind_on("cancel_all"@, day);
    assert((|r: BreakerRow| on_day(r.ts_ms, day)) =~= today);
    assert(a.filter(today) == b);
    law_chosen_are_those_that_hold(a, tripped);
    law_chosen_are_those_that_hold(b, tripped);
    law_chosen_are_those_that_hold(a, canceled);
    law_chosen_are_those_that_hold(b, canceled);
    lemma_filtered_twice(a, today, tripped);
    lemma_filtered_twice(a, today, canceled);
    assert(trips_on(a, day) == trips_on(b, day));
    assert(chosen(a, canceled) == chosen(b, canceled));
}

proof fn lemma_filtered_twice<A>(s: Seq<A>, p: spec_fn(A) -> bool, q: spec_fn(A) -> bool)
    requires
        forall|e: A| #[trigger] q(e) ==> p(e),
    ensures
        s.filter(p).filter(q) == s.filter(q),
    decreases s.len(),
{
    reveal(Seq::filter);
    if s.len() > 0 {
        lemma_filtered_twice(s.drop_last(), p, q);
        let kept = s.drop_last().filter(p);
        if p(s.last()) {
            assert(s.filter(p) == kept.push(s.last()));
            assert(kept.push(s.last()).drop_last() == kept);
        }
    }
}

/// The line of a settlement tells the window, the outcome and what was made, and that of a stop
/// when it was, of what kind and scope, its threshold and the value that was past it.
pub proof fn law_what_the_lines_tell(s: SettlementRow, stop: ShadowStopLine)
    ensures
        settlement_line(s) == "- "@ + s.window.series.key_spec() + " @ "@ + iso_text(
            s.window.open_ms,
        ) + " \u{2192} "@ + s.outcome.text_spec() + " $"@ + s.realized_pnl.text_spec() + "\n"@,
        stop_line(stop) == "- "@ + iso_text(stop.ts) + " "@ + stop.kind@ + " "@ + scope_text(stop)
            + " threshold="@ + stop.threshold@ + " value="@ + stop.value@ + "\n"@,
{
    reveal_strlit(" ");
    reveal_strlit("$");
    reveal_strlit(" $");
    let head = "- "@ + s.window.series.key_spec() + " @ "@ + iso_text(s.window.open_ms)
        + " \u{2192} "@ + s.outcome.text_spec();
    let money = s.realized_pnl.text_spec();
    assert(head + " "@ + ("$"@ + money) == head + " $"@ + money);
}

/// The sections of a digest stand in their order behind its date.
pub proof fn law_sections_stand_in_order(
    rows: Seq<DriverRow>,
    percents: Seq<Seq<char>>,
    fills: Seq<FillRow>,
    trips: Seq<BreakerRow>,
    stops: Seq<ShadowStopLine>,
    settlements: Seq<SettlementRow>,
    day: Date,
)
    ensures
        digest_text(rows, percents, fills, trips, stops, settlements, day) == (
        "# Daily digest \u{2014} "@ + day.dashed_spec() + "\n\n"@) + drivers_section(
            rows,
            percents,
        ) + maker_section(fills, day) + breakers_section(trips, day) + stops_section(stops, day)
            + settlements_section(settlements, day),
{
}

/// The line of a fill holds the fill's own figures, each in its place, and what brought it about.
pub proof fn law_line_holds_its_fill(r: DriverAttribLine, driver: FillDriver, fill: Fill)
    requires
        r.records(driver, fill),
    ensures
        r.ts == fill.ts_venue_ms,
        r.window_open_ms == fill.window.open_ms,
        Series::parsed(r.series@) == Some(fill.window.series),
        r.driver@ == driver_text(driver),
        r.outcome@ == fill.outcome.text_spec(),
        r.shares@ == fill.size.text_spec(),
        r.price@ == fill.price.text_spec(),
        r.fee@ == fill.fee.text_spec(),
{
    fill.window.series.law_key_is_read_back();
}

} // verus!
