//! The control plane's HTTP endpoints, as the command line calls them.

use vstd::prelude::*;
use vstd::string::*;

use crate::cli::{ControlSub, ControlSubView};
use crate::json;
use crate::text;

verus! {

/// A request to the control plane.
pub struct Route {
    /// Whether it is a POST; a GET otherwise.
    pub post: bool,
    /// The path.
    pub path: &'static str,
    /// The JSON body.
    pub body: Option<String>,
}

/// A request, with its texts as character sequences.
pub struct RouteView {
    pub post: bool,
    pub path: Seq<char>,
    pub body: Option<Seq<char>>,
}

impl View for Route {
    type V = RouteView;

    open spec fn view(&self) -> RouteView {
        RouteView {
            post: self.post,
            path: self.path@,
            body: match self.body {
                Some(b) => Some(b@),
                None => None,
            },
        }
    }
}

/// A POST without a body.
pub open spec fn bare_post(path: Seq<char>) -> RouteView {
    RouteView { post: true, path, body: None }
}

/// A POST of an object with one member.
pub open spec fn post_of(path: Seq<char>, name: Seq<char>, value: Seq<char>) -> RouteView {
    RouteView { post: true, path, body: Some(json::object1(name, value)) }
}

/// The body of a parameter override: the members `key`, `series` and `value`, in that order, and
/// `null` where no series is named.
pub open spec fn param_body(
    series: Option<Seq<char>>,
    key: Seq<char>,
    value: Seq<char>,
) -> Seq<char> {
    let middle = match series {
        Some(s) => json::member("series"@, s),
        None => json::json_string("series"@) + ":"@ + "null"@,
    };
    "{"@ + json::member("key"@, key) + ","@ + middle + ","@ + json::member("value"@, value) + "}"@
}

/// The request of a control subcommand.
pub open spec fn route_spec(sub: ControlSubView) -> RouteView {
    match sub {
        ControlSubView::Status => RouteView {
            post: false,
            path: "/api/control/status"@,
            body: None,
        },
        ControlSubView::Kill => bare_post("/api/control/kill"@),
        ControlSubView::Reset => bare_post("/api/control/reset"@),
        ControlSubView::ResetDailyStop => bare_post("/api/control/reset-daily-stop"@),
        ControlSubView::SetCapital(a) => post_of("/api/control/paper-capital"@, "amount"@, a),
        ControlSubView::AdjustCapital(d) => post_of("/api/control/paper-capital"@, "delta"@, d),
        ControlSubView::EnableSeries(s) => post_of("/api/control/enable-series"@, "series"@, s),
        ControlSubView::DisableSeries(s) => post_of("/api/control/disable-series"@, "series"@, s),
        ControlSubView::SetParam { series, key, value } => RouteView {
            post: true,
            path: "/api/control/set-param"@,
            body: Some(param_body(series, key, value)),
        },
        ControlSubView::ArmLive => bare_post("/api/control/arm-live/begin"@),
        ControlSubView::ConfirmArm(p) => post_of("/api/control/arm-live/confirm"@, "phrase"@, p),
        ControlSubView::Disarm => bare_post("/api/control/disarm"@),
    }
}

fn post_bare(path: &'static str) -> (r: Route)
    ensures
        r@ == bare_post(path@),
{
    Route { post: true, path, body: None }
}

fn post_one(path: &'static str, name: &str, value: &str) -> (r: Route)
    ensures
        r@ == post_of(path@, name@, value@),
{
    Route { post: true, path, body: Some(json::object_of(name, value)) }
}

/// The body of a parameter override.
fn param_text(series: &Option<String>, key: &str, value: &str) -> (r: String)
    ensures
        r@ == param_body(crate::cli::chars_of(*series), key@, value@),
{
    let middle = match series {
        Some(s) => json::member_text("series", s.as_str()),
        None => text::join3(json::string_text("series").as_str(), ":", "null"),
    };
    let mut r = text::join5("{", json::member_text("key", key).as_str(), ",", middle.as_str(), ",");
    r.append(json::member_text("value", value).as_str());
    r.append("}");
    r
}

/// The request of a control subcommand.
pub fn route(sub: &ControlSub) -> (r: Route)
    ensures
        r@ == route_spec(sub@),
{
    match sub {
        ControlSub::Status => Route { post: false, path: "/api/control/status", body: None },
        ControlSub::Kill => post_bare("/api/control/kill"),
        ControlSub::Reset => post_bare("/api/control/reset"),
        ControlSub::ResetDailyStop => post_bare("/api/control/reset-daily-stop"),
        ControlSub::SetCapital(a) => post_one("/api/control/paper-capital", "amount", a.as_str()),
        ControlSub::AdjustCapital(d) => post_one(
            "/api/control/paper-capital",
            "delta",
            d.as_str(),
        ),
        ControlSub::EnableSeries(s) => post_one(
            "/api/control/enable-series",
            "series",
            s.as_str(),
        ),
        ControlSub::DisableSeries(s) => post_one(
            "/api/control/disable-series",
            "series",
            s.as_str(),
        ),
        ControlSub::SetParam { series, key, value } => Route {
            post: true,
            path: "/api/control/set-param",
            body: Some(param_text(series, key.as_str(), value.as_str())),
        },
        ControlSub::ArmLive => post_bare("/api/control/arm-live/begin"),
        ControlSub::ConfirmArm(p) => post_one(
            "/api/control/arm-live/confirm",
            "phrase",
            p.as_str(),
        ),
        ControlSub::Disarm => post_bare("/api/control/disarm"),
    }
}

/// The status is read and everything else is posted; what a command takes goes along, and a
/// command that takes nothing sends nothing.
pub proof fn law_only_the_status_is_read(sub: ControlSubView)
    ensures
        !route_spec(sub).post <==> sub is Status,
        route_spec(sub).body is Some <==> sub is SetCapital || sub is AdjustCapital || sub
            is EnableSeries || sub is DisableSeries || sub is SetParam || sub is ConfirmArm,
        sub matches ControlSubView::SetCapital(a) ==> route_spec(sub).body == Some(
            json::object1("amount"@, a),
        ),
        sub matches ControlSubView::AdjustCapital(a) ==> route_spec(sub).body == Some(
            json::object1("delta"@, a),
        ),
        sub matches ControlSubView::EnableSeries(s) ==> route_spec(sub).body == Some(
            json::object1("series"@, s),
        ),
        sub matches ControlSubView::DisableSeries(s) ==> route_spec(sub).body == Some(
            json::object1("series"@, s),
        ),
        sub matches ControlSubView::ConfirmArm(p) ==> route_spec(sub).body == Some(
            json::object1("phrase"@, p),
        ),
{
}

/// Setting the capital and adjusting it go one way; enabling a series and disabling it do not.
pub proof fn law_ways_of_the_commands(a: Seq<char>, b: Seq<char>)
    ensures
        route_spec(ControlSubView::SetCapital(a)).path == route_spec(
            ControlSubView::AdjustCapital(b),
        ).path,
        route_spec(ControlSubView::EnableSeries(a)).path != route_spec(
            ControlSubView::DisableSeries(b),
        ).path,
        route_spec(ControlSubView::Kill).path != route_spec(ControlSubView::Reset).path,
        route_spec(ControlSubView::ArmLive).path != route_spec(ControlSubView::Disarm).path,
{
    reveal_strlit("/api/control/enable-series");
    reveal_strlit("/api/control/disable-series");
    reveal_strlit("/api/control/kill");
    reveal_strlit("/api/control/reset");
    reveal_strlit("/api/control/arm-live/begin");
    reveal_strlit("/api/control/disarm");
    assert("/api/control/enable-series"@.len() != "/api/control/disable-series"@.len());
    assert("/api/control/kill"@.len() != "/api/control/reset"@.len());
    assert("/api/control/arm-live/begin"@.len() != "/api/control/disarm"@.len());
}

/// The word of a control subcommand.
pub open spec fn word_of(sub: ControlSubView) -> Seq<char> {
    match sub {
        ControlSubView::Status => "status"@,
        ControlSubView::Kill => "kill"@,
        ControlSubView::Reset => "reset"@,
        ControlSubView::ResetDailyStop => "reset-daily-stop"@,
        ControlSubView::SetCapital(_) => "set-capital"@,
        ControlSubView::AdjustCapital(_) => "adjust-capital"@,
        ControlSubView::EnableSeries(_) => "enable-series"@,
        ControlSubView::DisableSeries(_) => "disable-series"@,
        ControlSubView::SetParam { .. } => "set-param"@,
        ControlSubView::ArmLive => "arm-live"@,
        ControlSubView::ConfirmArm(_) => "confirm-arm"@,
        ControlSubView::Disarm => "disarm"@,
    }
}

/// A command goes the way that its word names, but for the two of the capital, which go one way,
/// and the two of arming, which are steps of one way.
pub proof fn law_way_is_named_by_the_word(sub: ControlSubView)
    ensures
        !(sub is SetCapital || sub is AdjustCapital || sub is ArmLive || sub is ConfirmArm)
            ==> route_spec(sub).path == "/api/control/"@ + word_of(sub),
        sub is SetCapital || sub is AdjustCapital ==> route_spec(sub).path
            == "/api/control/paper-capital"@,
        sub is ArmLive ==> route_spec(sub).path == "/api/control/"@ + word_of(sub) + "/begin"@,
        sub is ConfirmArm ==> route_spec(sub).path == "/api/control/"@ + word_of(
            ControlSubView::ArmLive,
        ) + "/confirm"@,
{
    reveal_strlit("/api/control/");
    reveal_strlit("/begin");
    reveal_strlit("/confirm");
    reveal_strlit("/api/control/arm-live/begin");
    reveal_strlit("/api/control/arm-live/confirm");
    reveal_strlit("status");
    reveal_strlit("/api/control/status");
    assert("/api/control/status"@ == "/api/control/"@ + "status"@);
    reveal_strlit("kill");
    reveal_strlit("/api/control/kill");
    assert("/api/control/kill"@ == "/api/control/"@ + "kill"@);
    reveal_strlit("reset");
    reveal_strlit("/api/control/reset");
    assert("/api/control/reset"@ == "/api/control/"@ + "reset"@);
    reveal_strlit("reset-daily-stop");
    reveal_strlit("/api/control/reset-daily-stop");
    assert("/api/control/reset-daily-stop"@ == "/api/control/"@ + "reset-daily-stop"@);
    reveal_strlit("set-capital");
    reveal_strlit("adjust-capital");
    reveal_strlit("enable-series");
    reveal_strlit("/api/control/enable-series");
    assert("/api/control/enable-series"@ == "/api/control/"@ + "enable-series"@);
    reveal_strlit("disable-series");
    reveal_strlit("/api/control/disable-series");
    assert("/api/control/disable-series"@ == "/api/control/"@ + "disable-series"@);
    reveal_strlit("set-param");
    reveal_strlit("/api/control/set-param");
    assert("/api/control/set-param"@ == "/api/control/"@ + "set-param"@);
    reveal_strlit("arm-live");
    reveal_strlit("confirm-arm");
    reveal_strlit("disarm");
    reveal_strlit("/api/control/disarm");
    assert("/api/control/disarm"@ == "/api/control/"@ + "disarm"@);
    assert("/api/control/arm-live/begin"@ == "/api/control/"@ + "arm-live"@ + "/begin"@);
    assert("/api/control/arm-live/confirm"@ == "/api/control/"@ + "arm-live"@ + "/confirm"@);
}

} // verus!
