//! The dry run of the live venue: what it would go by, and the requests that orders would become.

use vstd::prelude::*;
use vstd::string::*;

use crate::feed::{shown_or, text_or};
use crate::text;

verus! {

/// What the live venue would go by, as it is shown.
#[derive(Clone, Debug)]
pub struct LiveParams {
    /// The venue's address.
    pub clob_host: String,
    /// The chain.
    pub chain_id: u64,
    /// How orders are signed.
    pub sig_type: String,
    /// Whose money it is, where that is set.
    pub funder: Option<String>,
}

/// The request that an order would become, as it is shown.
#[derive(Clone, Debug)]
pub struct BuiltOrder {
    /// The token.
    pub token_id: String,
    /// The side.
    pub side: String,
    /// The price.
    pub price: String,
    /// The amount.
    pub amount: String,
    /// The class.
    pub class: String,
    /// How it is signed.
    pub sig_type: String,
    /// Whose money it is, where that is set.
    pub funder: Option<String>,
}

/// What became of a demonstrated order: its label, and the request, or why there is none.
pub type Demonstrated = (String, Result<BuiltOrder, String>);

/// The lines of what the live venue would go by; `problem` is what is wrong with it.
pub open spec fn params_lines(p: LiveParams, problem: Option<String>) -> Seq<char> {
    "live params (non-secret):\n  clob_host   = "@ + p.clob_host@ + "\n  chain_id    = "@
        + text::digits(p.chain_id as nat) + "\n  sig_type    = "@ + p.sig_type@
        + "\n  funder      = "@ + text_or(p.funder, "<unset — required before arming live>"@) + (
    match problem {
        None => "\n  validate()  = OK\n"@,
        Some(e) => "\n  validate()  = "@ + e@ + " (expected until [live].funder is set)\n"@,
    })
}

fn params_text(p: &LiveParams, problem: &Option<String>) -> (r: String)
    ensures
        r@ == params_lines(*p, *problem),
{
    let valid = match problem {
        None => "\n  validate()  = OK\n".to_owned(),
        Some(e) => text::join3(
            "\n  validate()  = ",
            e.as_str(),
            " (expected until [live].funder is set)\n",
        ),
    };
    let mut s = "live params (non-secret):\n  clob_host   = ".to_owned();
    s.append(p.clob_host.as_str());
    s.append("\n  chain_id    = ");
    s.append(text::u64_text(p.chain_id).as_str());
    s.append("\n  sig_type    = ");
    s.append(p.sig_type.as_str());
    s.append("\n  funder      = ");
    s.append(shown_or(&p.funder, "<unset — required before arming live>").as_str());
    s.append(valid.as_str());
    s
}

/// The lines of a demonstrated order.
pub open spec fn order_lines(d: Demonstrated) -> Seq<char> {
    match d.1 {
        Ok(b) => "  "@ + d.0@ + ":\n    token_id  = "@ + b.token_id@ + "\n    side      = "@
            + b.side@ + "\n    price     = "@ + b.price@ + "\n    amount    = "@ + b.amount@
            + "\n    class     = "@ + b.class@ + "\n    sig_type  = "@ + b.sig_type@
            + "\n    funder    = "@ + text_or(b.funder, "<none>"@) + "\n"@,
        Err(e) => "  "@ + d.0@ + ": BUILD ERROR: "@ + e@ + "\n"@,
    }
}

fn order_text(d: &Demonstrated) -> (r: String)
    ensures
        r@ == order_lines(*d),
{
    let mut s = "  ".to_owned();
    s.append(d.0.as_str());
    match &d.1 {
        Ok(b) => {
            s.append(":\n    token_id  = ");
            s.append(b.token_id.as_str());
            s.append("\n    side      = ");
            s.append(b.side.as_str());
            s.append("\n    price     = ");
            s.append(b.price.as_str());
            s.append("\n    amount    = ");
            s.append(b.amount.as_str());
            s.append("\n    class     = ");
            s.append(b.class.as_str());
            s.append("\n    sig_type  = ");
            s.append(b.sig_type.as_str());
            s.append("\n    funder    = ");
            s.append(shown_or(&b.funder, "<none>").as_str());
            s.append("\n");
        },
        Err(e) => {
            s.append(": BUILD ERROR: ");
            s.append(e.as_str());
            s.append("\n");
        },
    }
    s
}

/// The lines of some demonstrated orders.
pub open spec fn all_order_lines(all: Seq<Demonstrated>) -> Seq<char>
    decreases all.len(),
{
    if all.len() == 0 {
        Seq::empty()
    } else {
        all_order_lines(all.drop_last()) + order_lines(all.last())
    }
}

/// What the dry run ends in: what it leaves to the live mode.
pub open spec fn closing_line() -> Seq<char> {
    "\n`bot live` constructs LiveVenue::connect, which refuses (NotArmed) until "@
        + "all three gates pass; signing + submission is the operator-only "@
        + "`cargo test -p venue-live --features live-smoke -- --ignored` path.\n"@
}

/// The dry run as text.
pub fn venue_check_text(p: &LiveParams, problem: &Option<String>, orders: &Vec<Demonstrated>) -> (r:
    String)
    ensures
        r@ == params_lines(*p, *problem)
            + "\nconstructed (unsent, unsigned) requests for each order class:\n"@
            + all_order_lines(orders@) + closing_line(),
{
    let mut lines = String::new();
    let mut i: usize = 0;
    assert(orders@.subrange(0, 0) =~= Seq::empty());
    while i < orders.len()
        invariant
            i <= orders@.len(),
            lines@ == all_order_lines(orders@.subrange(0, i as int)),
        decreases orders.len() - i,
    {
        proof {
            let part = orders@.subrange(0, i + 1);
            assert(part.drop_last() =~= orders@.subrange(0, i as int));
            assert(part.last() == orders@[i as int]);
        }
        lines.append(order_text(&orders[i]).as_str());
        i = i + 1;
    }
    assert(orders@.subrange(0, i as int) =~= orders@);
    let mut s = text::join3(
        params_text(p, problem).as_str(),
        "\nconstructed (unsent, unsigned) requests for each order class:\n",
        lines.as_str(),
    );
    s.append("\n`bot live` constructs LiveVenue::connect, which refuses (NotArmed) until ");
    s.append("all three gates pass; signing + submission is the operator-only ");
    s.append("`cargo test -p venue-live --features live-smoke -- --ignored` path.\n");
    s
}

} // verus!
