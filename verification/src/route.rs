//! How a connection to a hostname is made.

use crate::addr::SocketAddr;
use crate::rule_table;
use crate::rule_table::{RuleOverride, RuleTable, TlsInterceptConfig};
use vstd::prelude::*;

verus! {

/// The settings that hold where no rule says otherwise.
pub struct ProxyContext {
    pub default_resolver: String,
    pub default_fwmark: u32,
    pub enable_proxy_protocol: bool,
}

/// How the address of the upstream server is found.
pub enum RouteTarget {
    /// By asking this resolver.
    Resolve(String),
    /// It is this one.
    Direct(SocketAddr),
}

/// The way to the upstream server.
pub struct RouteSelection {
    pub target: RouteTarget,
    pub fwmark: u32,
    pub tls_intercept: Option<TlsInterceptConfig>,
}

impl ProxyContext {
    /// The route under a rule, or under none: what the rule leaves open comes from the settings.
    pub open spec fn route(self, rule: Option<RuleOverride>) -> RouteSelection {
        match rule {
            None => RouteSelection {
                target: RouteTarget::Resolve(self.default_resolver),
                fwmark: self.default_fwmark,
                tls_intercept: None,
            },
            Some(rule) => RouteSelection {
                target: match rule.direct {
                    Some(addr) => RouteTarget::Direct(addr),
                    None => match rule.resolver {
                        Some(resolver) => RouteTarget::Resolve(resolver),
                        None => RouteTarget::Resolve(self.default_resolver),
                    },
                },
                fwmark: if rule.fwmark_set {
                    rule.fwmark
                } else {
                    self.default_fwmark
                },
                tls_intercept: rule.tls_intercept,
            },
        }
    }

    /// The route to a hostname under a table, or under none.
    pub open spec fn route_to(
        self,
        maps: Option<rule_table::RuleMaps>,
        hostname: Seq<char>,
    ) -> RouteSelection {
        self.route(
            match maps {
                Some(maps) => maps.rule_for(hostname),
                None => None,
            },
        )
    }

    /// Selects the route under a rule.
    pub fn apply(&self, rule: Option<RuleOverride>) -> (r: RouteSelection)
        ensures
            r == self.route(rule),
    {
        match rule {
            None => RouteSelection {
                target: RouteTarget::Resolve(self.default_resolver.clone()),
                fwmark: self.default_fwmark,
                tls_intercept: None,
            },
            Some(rule) => {
                let target = match rule.direct {
                    Some(addr) => RouteTarget::Direct(addr),
                    None => match rule.resolver {
                        Some(resolver) => RouteTarget::Resolve(resolver),
                        None => RouteTarget::Resolve(self.default_resolver.clone()),
                    },
                };
                let fwmark: u32 = if rule.fwmark_set {
                    rule.fwmark
                } else {
                    self.default_fwmark
                };
                RouteSelection { target, fwmark, tls_intercept: rule.tls_intercept }
            },
        }
    }

    /// Selects the route to a hostname.
    pub fn select_route(&self, rule_table: Option<&RuleTable>, hostname: &str) -> (r: RouteSelection)
        ensures
            r == self.route_to(
                match rule_table {
                    Some(table) => Some(table@),
                    None => None,
                },
                hostname@,
            ),
    {
        let rule = match rule_table {
            Some(table) => table.lookup(hostname),
            None => None,
        };
        self.apply(rule)
    }
}

/// Fields that a rule leaves out fall back to the settings, each on its own.
pub proof fn law_missing_fields_fall_back(ctx: ProxyContext, rule: RuleOverride)
    ensures
        !rule.fwmark_set ==> ctx.route(Some(rule)).fwmark == ctx.default_fwmark,
        rule.direct is None && rule.resolver is None ==> ctx.route(Some(rule)).target
            == RouteTarget::Resolve(ctx.default_resolver),
        rule.tls_intercept is None ==> ctx.route(Some(rule)).tls_intercept is None,
{
}

/// A rule with a direct address never asks a resolver.
pub proof fn law_direct_skips_resolution(ctx: ProxyContext, rule: RuleOverride, addr: SocketAddr)
    requires
        rule.direct == Some(addr),
    ensures
        ctx.route(Some(rule)).target == RouteTarget::Direct(addr),
{
}

/// A hostname without a rule is routed by the settings alone.
pub proof fn law_no_rule_no_change(
    ctx: ProxyContext,
    maps: rule_table::RuleMaps,
    hostname: Seq<char>,
)
    requires
        maps.rule_for(hostname) is None,
    ensures
        ctx.route_to(Some(maps), hostname) == ctx.route_to(None, hostname),
{
}

/// What a rule sets is what the route has, each field on its own, whatever else the rule sets.
pub proof fn law_rule_fields_kept(ctx: ProxyContext, rule: RuleOverride)
    ensures
        ctx.route(Some(rule)).tls_intercept == rule.tls_intercept,
        rule.fwmark_set ==> ctx.route(Some(rule)).fwmark == rule.fwmark,
        !rule.fwmark_set ==> ctx.route(Some(rule)).fwmark == ctx.default_fwmark,
        rule.direct is Some ==> ctx.route(Some(rule)).target == RouteTarget::Direct(rule.direct->0),
        rule.direct is None && rule.resolver is Some ==> ctx.route(Some(rule)).target
            == RouteTarget::Resolve(rule.resolver->0),
        rule.direct is None && rule.resolver is None ==> ctx.route(Some(rule)).target
            == RouteTarget::Resolve(ctx.default_resolver),
{
}

/// Two rules that agree on a field give routes that agree on it.
pub proof fn law_fields_independent(ctx: ProxyContext, a: RuleOverride, b: RuleOverride)
    ensures
        a.tls_intercept == b.tls_intercept ==> ctx.route(Some(a)).tls_intercept == ctx.route(
            Some(b),
        ).tls_intercept,
        a.fwmark == b.fwmark && a.fwmark_set == b.fwmark_set ==> ctx.route(Some(a)).fwmark
            == ctx.route(Some(b)).fwmark,
        a.direct == b.direct && a.resolver == b.resolver ==> ctx.route(Some(a)).target == ctx.route(
            Some(b),
        ).target,
{
}

/// A hostname is routed by the rule that it selects, and by the settings if there is no table or no
/// rule.
pub proof fn law_routed_by_selected_rule(
    ctx: ProxyContext,
    maps: rule_table::RuleMaps,
    hostname: Seq<char>,
)
    ensures
        forall|rule: RuleOverride|
            maps.rule_for(hostname) == Some(rule) ==> ctx.route_to(Some(maps), hostname)
                == #[trigger] ctx.route(Some(rule)),
        maps.rule_for(hostname) is None ==> ctx.route_to(Some(maps), hostname) == (RouteSelection {
            target: RouteTarget::Resolve(ctx.default_resolver),
            fwmark: ctx.default_fwmark,
            tls_intercept: None,
        }),
        ctx.route_to(None, hostname) == (RouteSelection {
            target: RouteTarget::Resolve(ctx.default_resolver),
            fwmark: ctx.default_fwmark,
            tls_intercept: None,
        }),
        ctx.route(None) == ctx.route_to(None, hostname),
{
}

}
