//! The watch of a running backend.
use crate::config::{ActiveSource, Config, GatewayNode};
use crate::net::{ip_text, push_ip};
use crate::text::{
    contains_text, decimal, law_texts_are_found, occurs_at, opt_text, push_decimal, same_text,
};
use vstd::prelude::*;

verus! {

/// Who drives a backend.
#[derive(Clone, Copy, Debug, PartialEq, Eq, Structural)]
pub enum BackendDriver {
    /// The control planes, by subscription.
    ControlPlane,
    /// Its own watch on the active gateway.
    Watch,
}

/// Who drives a backend.
pub fn backend_driver(cfg: &Config) -> (driver: BackendDriver)
    ensures
        driver == (if cfg.active_source is Xds {
            BackendDriver::ControlPlane
        } else {
            BackendDriver::Watch
        }),
{
    match cfg.active_source {
        ActiveSource::Xds => BackendDriver::ControlPlane,
        _ => BackendDriver::Watch,
    }
}

/// What a look at the active gateway asks for.
#[derive(Clone, Copy, Debug, PartialEq, Eq, Structural)]
pub enum WatchStep {
    /// No gateway is known to be active.
    Unresolved,
    /// The first one is noted.
    Noted,
    /// Another one is active now.
    Switch,
    /// It is still the same.
    Heal,
}

/// The watch: the gateway that replies go to, and how often it changed or was healed.
#[derive(Clone, Debug)]
pub struct BackendWatch {
    pub last: Option<String>,
    pub failovers: u64,
    pub heals: u64,
}

/// The watch, as plain values.
pub struct WatchView {
    pub last: Option<Seq<char>>,
    pub failovers: u64,
    pub heals: u64,
}

impl View for BackendWatch {
    type V = WatchView;

    open spec fn view(&self) -> WatchView {
        WatchView { last: opt_text(self.last), failovers: self.failovers, heals: self.heals }
    }
}

/// What a look at the active gateway asks for.
pub open spec fn watch_step(last: Option<Seq<char>>, active: Option<Seq<char>>) -> WatchStep {
    match (last, active) {
        (_, None) => WatchStep::Unresolved,
        (None, Some(_)) => WatchStep::Noted,
        (Some(last), Some(name)) => if last == name {
            WatchStep::Heal
        } else {
            WatchStep::Switch
        },
    }
}

/// The names of a gateway that may be there.
pub open spec fn name_of(gateway: Option<GatewayNode>) -> Option<Seq<char>> {
    match gateway {
        Some(gateway) => Some(gateway.name@),
        None => None,
    }
}

impl WatchView {
    /// The watch behind a look at the active gateway.
    pub open spec fn seen(self, active: Option<Seq<char>>) -> WatchView {
        match watch_step(self.last, active) {
            WatchStep::Noted => WatchView { last: active, ..self },
            WatchStep::Switch => WatchView { failovers: (self.failovers + 1) as u64, ..self },
            _ => self,
        }
    }
}

/// The figures of a backend, as text.
pub open spec fn watch_text(watch: WatchView, active: Option<GatewayNode>) -> Seq<char> {
    (match (watch.last, active) {
        (Some(name), Some(gateway)) => "# TYPE edge_lb_backend_active_gateway gauge\n"@
            + "edge_lb_backend_active_gateway{gateway=\""@ + name + "\",underlay=\""@ + ip_text(
            gateway.underlay_ip,
        ) + "\"} 1\n"@,
        _ => Seq::empty(),
    }) + "# TYPE edge_lb_backend_failovers_total counter\n"@ + "edge_lb_backend_failovers_total "@
        + decimal(watch.failovers as nat) + "\n# TYPE edge_lb_backend_heals_total counter\n"@
        + "edge_lb_backend_heals_total "@ + decimal(watch.heals as nat) + "\n"@
}

impl BackendWatch {
    /// Starts to watch.
    pub fn new() -> (watch: BackendWatch)
        ensures
            watch@ == (WatchView { last: None, failovers: 0, heals: 0 }),
    {
        BackendWatch { last: None, failovers: 0, heals: 0 }
    }

    /// Looks at the active gateway. A change counts as a failover at once; the gateway
    /// is taken over when the switch has passed, so one that failed is tried again.
    pub fn on_active(&mut self, active: &Option<GatewayNode>) -> (step: WatchStep)
        requires
            old(self).failovers < u64::MAX,
        ensures
            step == watch_step(old(self)@.last, name_of(*active)),
            final(self)@ == old(self)@.seen(name_of(*active)),
    {
        let gateway = match active {
            None => {
                return WatchStep::Unresolved;
            },
            Some(gateway) => gateway,
        };
        let same = match &self.last {
            None => {
                self.last = Some(gateway.name.clone());
                return WatchStep::Noted;
            },
            Some(last) => same_text(last.as_str(), gateway.name.as_str()),
        };
        if same {
            WatchStep::Heal
        } else {
            self.failovers = self.failovers + 1;
            WatchStep::Switch
        }
    }

    /// Takes in whether the switch to a gateway has passed.
    pub fn on_switched(&mut self, gateway: &GatewayNode, passed: bool)
        ensures
            final(self)@ == (if passed {
                WatchView { last: Some(gateway.name@), ..old(self)@ }
            } else {
                old(self)@
            }),
    {
        if passed {
            self.last = Some(gateway.name.clone());
        }
    }

    /// Takes in whether healing has passed.
    pub fn on_healed(&mut self, passed: bool)
        requires
            old(self).heals < u64::MAX,
        ensures
            final(self)@ == (if passed {
                WatchView { heals: (old(self)@.heals + 1) as u64, ..old(self)@ }
            } else {
                old(self)@
            }),
    {
        if passed {
            self.heals = self.heals + 1;
        }
    }

    /// The figures of a backend, as text.
    pub fn metrics_text(&self, active: &Option<GatewayNode>) -> (text: String)
        ensures
            text@ == watch_text(self@, *active),
    {
        let mut text = String::new();
        if let (Some(name), Some(gateway)) = (&self.last, active) {
            text.append("# TYPE edge_lb_backend_active_gateway gauge\n");
            text.append("edge_lb_backend_active_gateway{gateway=\"");
            text.append(name.as_str());
            text.append("\",underlay=\"");
            push_ip(&mut text, gateway.underlay_ip);
            text.append("\"} 1\n");
        }
        text.append("# TYPE edge_lb_backend_failovers_total counter\n");
        text.append("edge_lb_backend_failovers_total ");
        push_decimal(&mut text, self.failovers);
        text.append("\n# TYPE edge_lb_backend_heals_total counter\n");
        text.append("edge_lb_backend_heals_total ");
        push_decimal(&mut text, self.heals);
        text.append("\n");
        assert(text@ =~= watch_text(self@, *active));
        text
    }
}

// ---------------------------------------------------------------------------
// Laws
// ---------------------------------------------------------------------------

/// A switch that failed is asked for again as long as the same gateway is active.
pub proof fn law_failed_switch_is_repeated(watch: WatchView, active: Seq<char>)
    requires
        watch_step(watch.last, Some(active)) is Switch,
    ensures
        watch_step(watch.seen(Some(active)).last, Some(active)) is Switch,
{
}

/// Once a gateway is taken over, it is healed and not switched to.
pub proof fn law_taken_over_is_healed(watch: WatchView, active: Seq<char>)
    ensures
        watch_step((WatchView { last: Some(active), ..watch }).last, Some(active)) is Heal,
        watch_step(None, Some(active)) is Noted,
        watch_step(watch.last, None) is Unresolved,
{
}

/// The first gateway that is active is noted, the same one is healed, another one is switched
/// to and counts as a failover; where none is known nothing happens.
pub proof fn law_changes_of_the_active_gateway_count(
    watch: WatchView,
    old_name: Seq<char>,
    name: Seq<char>,
)
    requires
        watch.failovers < u64::MAX,
    ensures
        watch_step(watch.last, None) == WatchStep::Unresolved,
        watch.seen(None) == watch,
        watch.last is None ==> watch_step(watch.last, Some(name)) == WatchStep::Noted && watch.seen(
            Some(name),
        ).last == Some(name) && watch.seen(Some(name)).failovers == watch.failovers,
        watch.last == Some(name) ==> watch_step(watch.last, Some(name)) == WatchStep::Heal
            && watch.seen(Some(name)) == watch,
        watch.last == Some(old_name) && old_name != name ==> watch_step(watch.last, Some(name))
            == WatchStep::Switch && watch.seen(Some(name)).failovers == watch.failovers + 1
            && watch.seen(Some(name)).last == Some(old_name),
{
}

/// The figures hold the number of failovers and of times that the backend was healed, and
/// the active gateway with its address where one is known.
pub proof fn law_figures_are_shown(watch: WatchView, active: Option<GatewayNode>)
    ensures
        contains_text(
            watch_text(watch, active),
            "edge_lb_backend_failovers_total "@ + decimal(watch.failovers as nat),
        ),
        contains_text(
            watch_text(watch, active),
            "edge_lb_backend_heals_total "@ + decimal(watch.heals as nat),
        ),
        watch.last matches Some(name) ==> (active matches Some(gateway) ==> contains_text(
            watch_text(watch, active),
            "edge_lb_backend_active_gateway{gateway=\""@ + name + "\",underlay=\""@ + ip_text(
                gateway.underlay_ip,
            ) + "\"} 1"@,
        )),
{
    let head = match (watch.last, active) {
        (Some(name), Some(gateway)) => "# TYPE edge_lb_backend_active_gateway gauge\n"@
            + "edge_lb_backend_active_gateway{gateway=\""@ + name + "\",underlay=\""@ + ip_text(
            gateway.underlay_ip,
        ) + "\"} 1\n"@,
        _ => Seq::empty(),
    };
    lemma_counters_are_found(
        head,
        "# TYPE edge_lb_backend_failovers_total counter\n"@,
        "edge_lb_backend_failovers_total "@,
        decimal(watch.failovers as nat),
        "\n# TYPE edge_lb_backend_heals_total counter\n"@,
        "edge_lb_backend_heals_total "@,
        decimal(watch.heals as nat),
        "\n"@,
    );
    if let (Some(name), Some(gateway)) = (watch.last, active) {
        assert("\"} 1\n"@ =~= "\"} 1"@ + "\n"@) by {
            reveal_strlit("\"} 1\n");
            reveal_strlit("\"} 1");
            reveal_strlit("\n");
        }
        lemma_line_is_found(
            "# TYPE edge_lb_backend_active_gateway gauge\n"@,
            "edge_lb_backend_active_gateway{gateway=\""@,
            name,
            "\",underlay=\""@,
            ip_text(gateway.underlay_ip),
            "\"} 1"@,
            "\n"@,
        );
        lemma_front_is_found(
            head,
            "# TYPE edge_lb_backend_failovers_total counter\n"@,
            "edge_lb_backend_failovers_total "@,
            decimal(watch.failovers as nat),
            "\n# TYPE edge_lb_backend_heals_total counter\n"@,
            "edge_lb_backend_heals_total "@,
            decimal(watch.heals as nat),
            "\n"@,
            "edge_lb_backend_active_gateway{gateway=\""@ + name + "\",underlay=\""@ + ip_text(
                gateway.underlay_ip,
            ) + "\"} 1"@,
        );
    }
}

proof fn lemma_line_is_found(
    first: Seq<char>,
    a: Seq<char>,
    x: Seq<char>,
    b: Seq<char>,
    y: Seq<char>,
    c: Seq<char>,
    end: Seq<char>,
)
    ensures
        contains_text(first + a + x + b + y + (c + end), a + x + b + y + c),
{
    law_texts_are_found(first, a + x + b + y + c, end);
    assert(first + a + x + b + y + (c + end) =~= first + (a + x + b + y + c) + end);
}

proof fn lemma_front_is_found(
    head: Seq<char>,
    first: Seq<char>,
    a: Seq<char>,
    x: Seq<char>,
    between: Seq<char>,
    b: Seq<char>,
    y: Seq<char>,
    end: Seq<char>,
    text: Seq<char>,
)
    requires
        contains_text(head, text),
    ensures
        contains_text(head + first + a + x + between + b + y + end, text),
{
    let whole = head + first + a + x + between + b + y + end;
    let at = choose|at: int| occurs_at(head, text, at);
    assert(whole.skip(at).take(text.len() as int) =~= head.skip(at).take(text.len() as int));
    assert(occurs_at(whole, text, at));
}

proof fn lemma_counters_are_found(
    head: Seq<char>,
    first: Seq<char>,
    a: Seq<char>,
    x: Seq<char>,
    between: Seq<char>,
    b: Seq<char>,
    y: Seq<char>,
    end: Seq<char>,
)
    ensures
        contains_text(head + first + a + x + between + b + y + end, a + x),
        contains_text(head + first + a + x + between + b + y + end, b + y),
{
    let whole = head + first + a + x + between + b + y + end;
    law_texts_are_found(head + first, a + x, between + b + y + end);
    assert(whole =~= (head + first) + (a + x) + (between + b + y + end));
    law_texts_are_found(head + first + a + x + between, b + y, end);
    assert(whole =~= (head + first + a + x + between) + (b + y) + end);
}

} // verus!
