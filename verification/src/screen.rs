//! Pieces of the full-screen views: the pane of recent events, shortened identifiers, and the
//! top of a book in words.

use vstd::prelude::*;
use vstd::string::*;

use crate::calendar;
use crate::decimal::{Amount, Figure, SAFE_UNITS};
use crate::text;
use crate::types::{Level, TopOfBook, WindowLifecycle};

verus! {

/// Clears a terminal and goes to its top left corner.
pub open spec fn clear_screen() -> Seq<char> {
    "\u{1b}[H\u{1b}[J"@
}

/// A bounded list of lines, each with its time; the oldest goes first.
#[derive(Clone, Debug)]
pub struct EventPane {
    cap: usize,
    lines: Vec<String>,
}

/// Texts as sequences.
pub open spec fn line_views(lines: Seq<String>) -> Seq<Seq<char>> {
    lines.map_values(|l: String| l@)
}

/// A pane's lines after one more.
pub open spec fn with_line(lines: Seq<Seq<char>>, cap: nat, now_ms: int, line: Seq<char>) -> Seq<
    Seq<char>,
> {
    let stamped = calendar::fmt_ts_spec(now_ms) + " "@ + line;
    if lines.len() >= cap {
        lines.drop_first().push(stamped)
    } else {
        lines.push(stamped)
    }
}

/// A pane's lines, each indented and on a line of its own.
pub open spec fn pane_lines(lines: Seq<Seq<char>>) -> Seq<char>
    decreases lines.len(),
{
    if lines.len() == 0 {
        Seq::empty()
    } else {
        pane_lines(lines.drop_last()) + "  "@ + lines.last() + "\n"@
    }
}

/// A pane as text.
pub open spec fn pane_text(lines: Seq<Seq<char>>) -> Seq<char> {
    if lines.len() == 0 {
        "recent events:\n"@ + "  (none yet)\n"@
    } else {
        "recent events:\n"@ + pane_lines(lines)
    }
}

impl View for EventPane {
    type V = Seq<Seq<char>>;

    closed spec fn view(&self) -> Seq<Seq<char>> {
        line_views(self.lines@)
    }
}

impl EventPane {
    /// How many lines the pane keeps.
    pub closed spec fn cap(&self) -> nat {
        self.cap as nat
    }

    /// An empty pane that keeps so many lines.
    pub fn new(cap: usize) -> (r: EventPane)
        requires
            cap >= 1,
        ensures
            r.cap() == cap,
            r@ == Seq::<Seq<char>>::empty(),
    {
        let r = EventPane { cap, lines: Vec::new() };
        assert(r@ =~= Seq::empty());
        r
    }

    /// Adds a line with its time; where the pane is full, the oldest line goes.
    pub fn push(&mut self, now_ms: i64, line: &str)
        requires
            old(self).cap() >= 1,
        ensures
            final(self).cap() == old(self).cap(),
            final(self)@ == with_line(old(self)@, old(self).cap(), now_ms as int, line@),
    {
        let ghost before = self@;
        if self.lines.len() >= self.cap {
            let _ = self.lines.remove(0);
            assert(self@ =~= before.drop_first());
        }
        let ghost kept = self@;
        let stamped = text::join3(calendar::fmt_ts(now_ms).as_str(), " ", line);
        self.lines.push(stamped);
        assert(self@ =~= kept.push(stamped@));
    }

    /// The pane as text.
    pub fn text(&self) -> (r: String)
        ensures
            r@ == pane_text(self@),
    {
        let head = "recent events:\n";
        if self.lines.len() == 0 {
            return text::join2(head, "  (none yet)\n");
        }
        let mut out = String::new();
        let mut i: usize = 0;
        let ghost all = self@;
        assert(all.subrange(0, 0) =~= Seq::empty());
        while i < self.lines.len()
            invariant
                i <= self.lines@.len(),
                all == line_views(self.lines@),
                out@ == pane_lines(all.subrange(0, i as int)),
            decreases self.lines.len() - i,
        {
            proof {
                let part = all.subrange(0, i + 1);
                assert(part.drop_last() =~= all.subrange(0, i as int));
                assert(part.last() == self.lines@[i as int]@);
            }
            out.append("  ");
            out.append(self.lines[i].as_str());
            out.append("\n");
            i = i + 1;
        }
        assert(all.subrange(0, i as int) =~= all);
        text::join2(head, out.as_str())
    }
}

/// A pane never holds more lines than it may, and its newest is the last that came.
pub proof fn law_pane_is_bounded(lines: Seq<Seq<char>>, cap: nat, now_ms: int, line: Seq<char>)
    requires
        cap >= 1,
        lines.len() <= cap,
    ensures
        with_line(lines, cap, now_ms, line).len() <= cap,
        with_line(lines, cap, now_ms, line).last() == calendar::fmt_ts_spec(now_ms) + " "@ + line,
{
}

/// The bytes that a character takes.
pub open spec fn char_bytes(c: char) -> nat {
    if (c as int) < 0x80 {
        1
    } else if (c as int) < 0x800 {
        2
    } else if (c as int) < 0x10000 {
        3
    } else {
        4
    }
}

/// Where the last `n` bytes of the first `i` characters of a text start.
pub open spec fn tail_start(s: Seq<char>, i: nat, n: nat) -> nat
    decreases i,
{
    if i == 0 || i > s.len() || char_bytes(s[i - 1]) > n {
        i
    } else {
        tail_start(s, (i - 1) as nat, (n - char_bytes(s[i - 1])) as nat)
    }
}

/// The end of a text: as many whole characters as fit in `n` bytes.
pub open spec fn tail_spec(s: Seq<char>, n: nat) -> Seq<char> {
    s.subrange(tail_start(s, s.len(), n) as int, s.len() as int)
}

/// The end of a text: as many whole characters as fit in `n` bytes.
pub fn tail(s: &str, n: usize) -> (r: String)
    ensures
        r@ == tail_spec(s@, n as nat),
{
    let all: usize = s.unicode_len();
    let mut at: usize = all;
    let mut left: usize = n;
    let mut go = true;
    while at > 0 && go
        invariant
            all == s@.len(),
            at <= all,
            tail_start(s@, all as nat, n as nat) == tail_start(s@, at as nat, left as nat),
            !go ==> tail_start(s@, at as nat, left as nat) == at,
        decreases at, go as int,
    {
        let c: u32 = s.get_char(at - 1) as u32;
        let size: usize = if c < 0x80 {
            1
        } else if c < 0x800 {
            2
        } else if c < 0x10000 {
            3
        } else {
            4
        };
        if size > left {
            go = false;
        } else {
            left = left - size;
            at = at - 1;
        }
    }
    s.substring_char(at, all).to_owned()
}

/// The time from one instant to another, held within what an instant can be.
pub open spec fn time_between(from_ms: int, to_ms: int) -> int {
    let d = to_ms - from_ms;
    if d > i64::MAX {
        i64::MAX as int
    } else if d < i64::MIN {
        i64::MIN as int
    } else {
        d
    }
}

/// The time from one instant to another, held within what an instant can be.
pub fn ms_between(from_ms: i64, to_ms: i64) -> (r: i64)
    ensures
        r == time_between(from_ms as int, to_ms as int),
{
    let d: i128 = to_ms as i128 - from_ms as i128;
    if d > i64::MAX as i128 {
        i64::MAX
    } else if d < i64::MIN as i128 {
        i64::MIN
    } else {
        d as i64
    }
}

/// The whole seconds in a span, rounded toward zero.
pub open spec fn whole_seconds(ms: int) -> int {
    if ms >= 0 {
        ms / 1000
    } else {
        -((-ms) / 1000)
    }
}

/// The whole seconds in a span, rounded toward zero.
pub fn seconds_in(ms: i64) -> (r: i64)
    ensures
        r == whole_seconds(ms as int),
{
    if ms >= 0 {
        ms / 1000
    } else {
        let magnitude: u64 = (-(ms as i128)) as u64;
        -((magnitude / 1000) as i64)
    }
}

/// Where a window stands, in a word; a dash where that is not known.
pub open spec fn phase_text(lifecycle: Option<WindowLifecycle>) -> Seq<char> {
    match lifecycle {
        None => "-"@,
        Some(WindowLifecycle::Discovered) => "Discovered"@,
        Some(WindowLifecycle::Open) => "Open"@,
        Some(WindowLifecycle::Closing) => "Closing"@,
        Some(WindowLifecycle::Closed) => "Closed"@,
        Some(WindowLifecycle::Resolved { outcome }) => "Resolved { outcome: "@
            + outcome.text_spec() + " }"@,
    }
}

/// Where a window stands, in a word; a dash where that is not known.
pub fn phase(lifecycle: Option<WindowLifecycle>) -> (r: String)
    ensures
        r@ == phase_text(lifecycle),
{
    match lifecycle {
        None => "-".to_owned(),
        Some(WindowLifecycle::Discovered) => "Discovered".to_owned(),
        Some(WindowLifecycle::Open) => "Open".to_owned(),
        Some(WindowLifecycle::Closing) => "Closing".to_owned(),
        Some(WindowLifecycle::Closed) => "Closed".to_owned(),
        Some(WindowLifecycle::Resolved { outcome }) => text::join3(
            "Resolved { outcome: ",
            outcome.text(),
            " }",
        ),
    }
}

/// An optional amount as text; a dash where there is none.
pub open spec fn amount_or_dash(a: Option<Amount>) -> Seq<char> {
    match a {
        Some(x) => x.text_spec(),
        None => "-"@,
    }
}

/// An optional amount as text; a dash where there is none.
pub fn or_dash(a: Option<Amount>) -> (r: String)
    ensures
        r@ == amount_or_dash(a),
{
    match a {
        Some(x) => x.text(),
        None => "-".to_owned(),
    }
}

/// An optional figure as text; a dash where there is none.
pub open spec fn figure_or_dash(f: Option<Figure>) -> Seq<char> {
    match f {
        Some(x) => x.text_spec(),
        None => "-"@,
    }
}

/// An optional figure as text; a dash where there is none.
pub fn figure_text(f: Option<Figure>) -> (r: String)
    ensures
        r@ == figure_or_dash(f),
{
    match f {
        Some(x) => x.text(),
        None => "-".to_owned(),
    }
}

/// The price of an optional level.
pub open spec fn price_of(level: Option<Level>) -> Option<Amount> {
    match level {
        Some(l) => Some(l.price),
        None => None,
    }
}

/// The price of an optional level.
fn price_in(level: Option<Level>) -> (r: Option<Amount>)
    ensures
        r == price_of(level),
{
    match level {
        Some(l) => Some(l.price),
        None => None,
    }
}

impl TopOfBook {
    /// Whether the prices are small enough to be added.
    pub open spec fn sane(self) -> bool {
        &&& self.bid matches Some(l) ==> l.price.within(SAFE_UNITS as int)
        &&& self.ask matches Some(l) ==> l.price.within(SAFE_UNITS as int)
    }

    /// Half way between bid and ask.
    pub open spec fn mid_spec(self) -> Option<Figure> {
        match (self.bid, self.ask) {
            (Some(b), Some(a)) => Figure::quotient_of(
                Figure::sum_of(b.price, a.price),
                Amount::of_parts((2, 0)),
            ),
            _ => None,
        }
    }

    /// Half way between bid and ask.
    pub fn mid(&self) -> (r: Option<Figure>)
        requires
            self.sane(),
        ensures
            r == self.mid_spec(),
            r is Some ==> self.bid is Some && self.ask is Some,
            r matches Some(m) ==> forall|half: int| #[trigger]
                crate::decimal::is_decimal(half) && crate::decimal::is_decimal(2 * half) && 2 * half
                    == self.bid->0.price.value() + self.ask->0.price.value() ==> m.value() == half,
    {
        match (self.bid, self.ask) {
            (Some(b), Some(a)) => {
                let two = Amount::from_i64(2);
                let sum = b.price.plus_unstripped(&a.price);
                let m = sum.divided_by(&two);
                proof {
                    let whole = b.price.value() + a.price.value();
                    assert forall|half: int| #[trigger]
                        crate::decimal::is_decimal(half) && crate::decimal::is_decimal(2 * half) && 2
                            * half == whole implies m matches Some(q) && q.value() == half by {
                        assert(sum.value() == whole);
                        assert(half * two.value() == sum.value() * crate::decimal::UNIT) by (nonlinear_arith)
                            requires
                                two.value() == 2 * crate::decimal::UNIT,
                                sum.value() == 2 * half,
                        ;
                    }
                }
                m
            },
            _ => None,
        }
    }

    /// The ask less the bid.
    pub open spec fn spread_spec(self) -> Option<Figure> {
        match (self.bid, self.ask) {
            (Some(b), Some(a)) => Some(Figure::difference_of(a.price, b.price)),
            _ => None,
        }
    }

    /// The ask less the bid.
    pub fn spread(&self) -> (r: Option<Figure>)
        requires
            self.sane(),
        ensures
            r == self.spread_spec(),
            r is Some <==> self.bid is Some && self.ask is Some,
            r matches Some(s) ==> crate::decimal::is_rounded(
                s.value(),
                self.ask->0.price.value() - self.bid->0.price.value(),
            ),
    {
        match (self.bid, self.ask) {
            (Some(b), Some(a)) => Some(a.price.minus_unstripped(&b.price)),
            _ => None,
        }
    }
}

/// The top of a book in words.
pub open spec fn top_text(label: Seq<char>, top: Option<TopOfBook>) -> Seq<char> {
    match top {
        Some(t) => label + ": bid "@ + amount_or_dash(price_of(t.bid)) + " ask "@ + amount_or_dash(
            price_of(t.ask),
        ) + " mid "@ + figure_or_dash(t.mid_spec()),
        None => label + ": (no book yet)"@,
    }
}

/// The top of a book in words.
pub fn fmt_top(label: &str, top: Option<TopOfBook>) -> (r: String)
    requires
        top matches Some(t) ==> t.sane(),
    ensures
        r@ == top_text(label@, top),
{
    match top {
        Some(t) => {
            let mut out = label.to_owned();
            out.append(": bid ");
            out.append(or_dash(price_in(t.bid)).as_str());
            out.append(" ask ");
            out.append(or_dash(price_in(t.ask)).as_str());
            out.append(" mid ");
            out.append(figure_text(t.mid()).as_str());
            out
        },
        None => text::join2(label, ": (no book yet)"),
    }
}

/// A line joins the pane's end; where the pane is full its oldest goes, and where it is not none
/// does.
pub proof fn law_oldest_line_makes_room(
    lines: Seq<Seq<char>>,
    cap: nat,
    now_ms: int,
    line: Seq<char>,
    i: int,
)
    requires
        cap >= 1,
        lines.len() <= cap,
    ensures
        lines.len() < cap && 0 <= i < lines.len() ==> with_line(lines, cap, now_ms, line)[i]
            == lines[i] && with_line(lines, cap, now_ms, line).len() == lines.len() + 1,
        lines.len() == cap && 0 <= i < lines.len() - 1 ==> with_line(lines, cap, now_ms, line)[i]
            == lines[i + 1] && with_line(lines, cap, now_ms, line).len() == cap,
{
}

/// The bytes that a text takes.
pub open spec fn text_bytes(s: Seq<char>) -> nat
    decreases s.len(),
{
    if s.len() == 0 {
        0
    } else {
        text_bytes(s.drop_first()) + char_bytes(s[0])
    }
}

/// The end of a text is the longest one that takes no more bytes than asked for: it is the whole
/// text, or one more character would not have found room.
pub proof fn law_tail_is_the_longest_end(s: Seq<char>, n: nat)
    ensures
        text_bytes(tail_spec(s, n)) <= n,
        tail_spec(s, n) == s.subrange(s.len() - tail_spec(s, n).len(), s.len() as int),
        tail_spec(s, n).len() < s.len() ==> text_bytes(
            s.subrange(s.len() - tail_spec(s, n).len() - 1, s.len() as int),
        ) > n,
{
    let whole = s.subrange(s.len() as int, s.len() as int);
    assert(text_bytes(whole) == 0);
    lemma_tail(s, s.len(), n);
}

proof fn lemma_tail(s: Seq<char>, i: nat, n: nat)
    requires
        i <= s.len(),
    ensures
        ({
            let k = tail_start(s, i, n) as int;
            let all = n + text_bytes(s.subrange(i as int, s.len() as int));
            &&& 0 <= k <= i
            &&& text_bytes(s.subrange(k, s.len() as int)) <= all
            &&& k > 0 ==> text_bytes(s.subrange(k - 1, s.len() as int)) > all
        }),
    decreases i,
{
    if i > 0 {
        let longer = s.subrange(i - 1, s.len() as int);
        assert(longer.drop_first() == s.subrange(i as int, s.len() as int));
        assert(longer[0] == s[i - 1]);
        if char_bytes(s[i - 1]) <= n {
            lemma_tail(s, (i - 1) as nat, (n - char_bytes(s[i - 1])) as nat);
        }
    }
}

/// Seconds are whole and rounded toward zero, on either side of it.
pub proof fn law_seconds_are_whole(ms: int)
    ensures
        ms >= 0 ==> 1_000 * whole_seconds(ms) <= ms < 1_000 * whole_seconds(ms) + 1_000,
        whole_seconds(-ms) == -whole_seconds(ms),
{
}

/// The time from one instant to another is what makes up the difference, as far as it can be
/// told.
pub proof fn law_time_makes_up_the_difference(from_ms: int, to_ms: int)
    ensures
        i64::MIN <= to_ms - from_ms <= i64::MAX ==> from_ms + time_between(from_ms, to_ms) == to_ms,
        time_between(from_ms, to_ms) > 0 <==> to_ms > from_ms,
        time_between(from_ms, to_ms) < 0 <==> to_ms < from_ms,
        i64::MIN <= time_between(from_ms, to_ms) <= i64::MAX,
{
}

/// A middle and a spread are there where both sides are, a spread from the bid up to the ask.
pub proof fn law_both_sides_make_a_middle(top: TopOfBook)
    ensures
        top.bid is None || top.ask is None ==> top.mid_spec() is None && top.spread_spec() is None,
        top.bid is Some && top.ask is Some ==> top.spread_spec() == Some(
            Figure::difference_of(top.ask->0.price, top.bid->0.price),
        ) && top.mid_spec() == Figure::quotient_of(
            Figure::sum_of(top.bid->0.price, top.ask->0.price),
            Amount::of_parts((2, 0)),
        ),
{
}

/// Each line of a pane stands on a line of its own behind those before it, and an empty pane says
/// so.
pub proof fn law_pane_shows_each_line(lines: Seq<Seq<char>>, line: Seq<char>)
    ensures
        pane_text(lines.push(line)) == "recent events:\n"@ + (pane_lines(lines) + "  "@ + line
            + "\n"@),
        pane_lines(Seq::empty()).len() == 0,
{
    assert(lines.push(line).drop_last() == lines);
}

} // verus!
