//! The state that requests are handled with, and what is decided for each.

use crate::config::HostConfig;
use crate::config::HostModel;
use crate::config::WebConfig;
use crate::config::WebModel;
use crate::headers::get_text;
use crate::headers::header_text;
use crate::headers::header_values;
use crate::headers::is_field_text;
use crate::headers::known_names;
use crate::headers::set_field;
use crate::headers::with_field;
use crate::proxy::rule_matches;
use crate::proxy::slice_text;
use crate::proxy::target_of;
use crate::proxy::ProxyRule;
use crate::proxy::ProxyTarget;
use crate::proxy::RuleModel;
use crate::proxy::Scheme;
use crate::proxy::TargetError;
use crate::proxy::TargetFault;
use crate::respond::error;
use crate::respond::text;
use crate::respond::text_reply;
use crate::respond::Reply;
use crate::respond::ReplyModel;
use crate::text::ascii_lowercase;
use crate::text::chars_of;
use crate::text::decimal;
use crate::text::decimal_of;
use crate::text::first_at;
use crate::text::first_index;
use crate::text::lower;
use crate::text::same;
use crate::text::string_of;
use crate::text::trim_end_slashes;
use crate::text::trim_slashes;
use crate::uri::uri_of;
use http::header::HeaderValue;
use http::HeaderMap;
use vstd::prelude::*;
use vstd::utf8::encode_utf8;

verus! {

/// A virtual host with its name list, static root, and compiled proxy rules
#[derive(Debug)]
pub struct HostState {
    /// Server names (lowercased) matched against the Host header / SNI
    pub names: Vec<String>,
    pub webroot: String,
    /// The proxy rules, those with the longest prefixes first
    pub rules: Vec<ProxyRule>,
}

/// Globally shared state
#[derive(Debug)]
pub struct State {
    /// Virtual hosts; the first one is the default when nothing matches
    pub hosts: Vec<HostState>,
    /// HTTPS port; when set, all plain-HTTP requests are redirected to it
    pub https_port: Option<u16>,
}

/// A virtual host, as a mathematical value.
pub struct SiteModel {
    pub names: Seq<Seq<char>>,
    pub webroot: Seq<char>,
    pub rules: Seq<RuleModel>,
}

/// The state, as a mathematical value.
pub struct StateModel {
    pub hosts: Seq<SiteModel>,
    pub https_port: Option<u16>,
}

impl View for HostState {
    type V = SiteModel;

    open spec fn view(&self) -> SiteModel {
        SiteModel {
            names: self.names.deep_view(),
            webroot: self.webroot@,
            rules: self.rules@.map_values(|r: ProxyRule| r@),
        }
    }
}

impl View for State {
    type V = StateModel;

    open spec fn view(&self) -> StateModel {
        StateModel {
            hosts: self.hosts@.map_values(|h: HostState| h@),
            https_port: self.https_port,
        }
    }
}

/// What to do with a request.
#[derive(Debug)]
pub enum Action<'a> {
    /// Answer at once
    Answer(Reply),
    /// Forward it by this rule
    Forward(&'a ProxyRule),
    /// Serve a static file of this host
    Static(&'a HostState),
}

/// What to do with a request, as a mathematical value.
pub enum ActionModel {
    Answer(ReplyModel),
    Forward(RuleModel),
    Static(SiteModel),
}

impl<'a> View for Action<'a> {
    type V = ActionModel;

    open spec fn view(&self) -> ActionModel {
        match self {
            Action::Answer(reply) => ActionModel::Answer(reply@),
            Action::Forward(rule) => ActionModel::Forward(rule@),
            Action::Static(host) => ActionModel::Static(host@),
        }
    }
}

/// The length of the prefix that a rule matches, in bytes; trailing slashes of the
/// key do not count.
pub open spec fn prefix_len(rule: RuleModel) -> nat {
    encode_utf8(trim_slashes(rule.key)).len()
}

/// No rule stands before one with a longer prefix.
pub open spec fn longest_first(rules: Seq<RuleModel>) -> bool {
    forall|i: int, j: int|
        0 <= i < j < rules.len() ==> prefix_len(#[trigger] rules[i]) >= prefix_len(#[trigger] rules[j])
}

/// The index of the first rule with a shorter prefix than `rule`, or the number of
/// rules if there is none.
pub open spec fn place_of(rules: Seq<RuleModel>, rule: RuleModel) -> int
    decreases rules.len(),
{
    if rules.len() == 0 || prefix_len(rules[0]) < prefix_len(rule) {
        0
    } else {
        1 + place_of(rules.skip(1), rule)
    }
}

/// `rules` with those that have longer prefixes first, and otherwise in their order.
pub open spec fn arranged(rules: Seq<RuleModel>) -> Seq<RuleModel>
    decreases rules.len(),
{
    if rules.len() == 0 {
        rules
    } else {
        let before = arranged(rules.drop_last());
        before.insert(place_of(before, rules.last()), rules.last())
    }
}

/// The rules that a host is configured with, in file order, or the first fault
/// among their targets.
pub open spec fn rules_of(proxy: Seq<(Seq<char>, Seq<char>)>) -> Result<
    Seq<RuleModel>,
    TargetFault,
>
    decreases proxy.len(),
{
    if proxy.len() == 0 {
        Ok(Seq::empty())
    } else {
        let (key, target) = proxy.last();
        match (rules_of(proxy.drop_last()), target_of(target, uri_of(target))) {
            (Err(fault), _) => Err(fault),
            (Ok(_), Err(fault)) => Err(fault),
            (Ok(rules), Ok(target)) => Ok(rules.push(RuleModel { key, target })),
        }
    }
}

/// A virtual host that is configured as `host` with the given rules.
pub open spec fn site_with(host: HostModel, rules: Seq<RuleModel>) -> SiteModel {
    SiteModel {
        names: host.names.map_values(|n: Seq<char>| lower(n)),
        webroot: host.webroot,
        rules: arranged(rules),
    }
}

/// The virtual hosts of a configuration, or the first fault among their targets.
pub open spec fn sites_of(hosts: Seq<HostModel>) -> Result<Seq<SiteModel>, TargetFault>
    decreases hosts.len(),
{
    if hosts.len() == 0 {
        Ok(Seq::empty())
    } else {
        match (sites_of(hosts.drop_last()), rules_of(hosts.last().proxy)) {
            (Err(fault), _) => Err(fault),
            (Ok(_), Err(fault)) => Err(fault),
            (Ok(sites), Ok(rules)) => Ok(sites.push(site_with(hosts.last(), rules))),
        }
    }
}

/// The state for a configuration, or the first fault among its targets.
pub open spec fn state_of(config: WebModel) -> Result<StateModel, TargetFault> {
    match sites_of(config.hosts) {
        Ok(hosts) => Ok(StateModel { hosts, https_port: config.https_port }),
        Err(fault) => Err(fault),
    }
}

/// An outcome, as a mathematical value.
pub open spec fn state_outcome(r: Result<State, TargetError>) -> Result<StateModel, TargetFault> {
    match r {
        Ok(state) => Ok(state@),
        Err(error) => Err(error@),
    }
}

/// A host value without its port; a bracketed IPv6 literal is kept whole.
pub open spec fn host_only(host: Seq<char>) -> Seq<char> {
    if host.len() > 0 && host[0] == '[' {
        let end = first_at(host, ']');
        if end < host.len() {
            host.take(end + 1)
        } else {
            host
        }
    } else {
        host.take(first_at(host, ':'))
    }
}

/// The index of the first host that has the given name, or the number of hosts
/// if none has it.
pub open spec fn first_named(hosts: Seq<SiteModel>, name: Seq<char>) -> int
    decreases hosts.len(),
{
    if hosts.len() == 0 || hosts[0].names.contains(name) {
        0
    } else {
        1 + first_named(hosts.skip(1), name)
    }
}

/// The index of the host that a Host header selects: the first one with that
/// name, whatever the port and the case, or else the first one of all.
pub open spec fn host_index(hosts: Seq<SiteModel>, host: Seq<char>) -> int {
    let i = first_named(hosts, lower(host_only(host)));
    if i < hosts.len() {
        i
    } else {
        0
    }
}

/// The first rule that matches a path.
pub open spec fn first_match(rules: Seq<RuleModel>, path: Seq<char>) -> Option<RuleModel>
    decreases rules.len(),
{
    if rules.len() == 0 {
        None
    } else if rule_matches(rules[0].key, path) {
        Some(rules[0])
    } else {
        first_match(rules.skip(1), path)
    }
}

/// Where a plain-HTTP request is redirected to.
pub open spec fn location_of(host: Seq<char>, https_port: u16, path_and_query: Seq<char>) -> Seq<
    char,
> {
    "https://"@ + host_only(host) + (if https_port == 443 {
        Seq::empty()
    } else {
        ":"@ + decimal_of(https_port as nat)
    }) + path_and_query
}

/// The reply that redirects a plain-HTTP request to the HTTPS listener.
pub open spec fn redirect_reply(
    values: Map<Seq<char>, Seq<Seq<u8>>>,
    path_and_query: Option<Seq<char>>,
    https_port: u16,
) -> ReplyModel {
    match header_text(values, "host"@) {
        None => text_reply(400, "400 Bad Request\n"@),
        Some(host) => {
            let location = location_of(
                host,
                https_port,
                if path_and_query is Some {
                    path_and_query->0
                } else {
                    "/"@
                },
            );
            let reply = text_reply(301, "301 Moved Permanently\n"@);
            if is_field_text(location) {
                ReplyModel { headers: with_field(reply.headers, "location"@, location), ..reply }
            } else {
                reply
            }
        },
    }
}

/// The Host header of a request; empty if there is none that can be read.
pub open spec fn host_header(values: Map<Seq<char>, Seq<Seq<u8>>>) -> Seq<char> {
    match header_text(values, "host"@) {
        Some(host) => host,
        None => Seq::empty(),
    }
}

/// What to do with a request that came over `scheme`.
pub open spec fn action_of(
    state: StateModel,
    scheme: Scheme,
    path: Seq<char>,
    path_and_query: Option<Seq<char>>,
    values: Map<Seq<char>, Seq<Seq<u8>>>,
) -> ActionModel {
    if scheme == Scheme::Http && state.https_port is Some {
        ActionModel::Answer(redirect_reply(values, path_and_query, state.https_port->0))
    } else {
        let host = state.hosts[host_index(state.hosts, host_header(values))];
        match first_match(host.rules, path) {
            Some(rule) => ActionModel::Forward(rule),
            None => ActionModel::Static(host),
        }
    }
}

/// `rules` in the order in which they are tried.
fn arrange(rules: Vec<ProxyRule>) -> (r: Vec<ProxyRule>)
    ensures
        r@.map_values(|x: ProxyRule| x@) == arranged(rules@.map_values(|x: ProxyRule| x@)),
{
    let ghost view = |x: ProxyRule| x@;
    let ghost all = rules@.map_values(view);
    let mut rest = rules;
    let mut r: Vec<ProxyRule> = Vec::new();
    let ghost mut done: int = 0;
    assert(r@.map_values(view) =~= arranged(all.take(0)));
    while rest.len() > 0
        invariant
            0 <= done <= all.len(),
            view == (|x: ProxyRule| x@),
            rest@.map_values(view) == all.skip(done),
            r@.map_values(view) == arranged(all.take(done)),
        decreases rest@.len(),
    {
        let ghost before = rest@;
        let rule = rest.remove(0);
        proof {
            assert(all.skip(done).len() == before.len());
            assert(all.skip(done)[0] == rule@);
            assert(all.take(done + 1).drop_last() =~= all.take(done));
            assert(all.take(done + 1).last() == rule@);
            assert(rest@.map_values(view) =~= before.map_values(view).skip(1));
            assert(all.skip(done).skip(1) =~= all.skip(done + 1));
            done = done + 1;
        }
        insert_rule(&mut r, rule);
    }
    assert(all.skip(done).len() == 0);
    assert(all.take(done) =~= all);
    r
}

/// The length of the prefix that a rule matches, in bytes.
fn measure(rule: &ProxyRule) -> (r: usize)
    ensures
        r == prefix_len(rule@),
{
    let prefix = trim_end_slashes(rule.key.as_str());
    prefix.as_str().as_bytes().len()
}

/// Put a rule in its place.
fn insert_rule(rules: &mut Vec<ProxyRule>, rule: ProxyRule)
    ensures
        final(rules)@.map_values(|x: ProxyRule| x@) == old(rules)@.map_values(
            |x: ProxyRule| x@,
        ).insert(place_of(old(rules)@.map_values(|x: ProxyRule| x@), rule@), rule@),
{
    let ghost view = |x: ProxyRule| x@;
    let ghost all = rules@.map_values(view);
    let ghost before = rules@;
    let n: usize = measure(&rule);
    let mut i: usize = 0;
    assert(all.skip(0) =~= all);
    while i < rules.len() && measure(&rules[i]) >= n
        invariant
            i <= rules@.len(),
            rules@ == before,
            view == (|x: ProxyRule| x@),
            all == before.map_values(view),
            n == prefix_len(rule@),
            place_of(all, rule@) == i + place_of(all.skip(i as int), rule@),
        decreases rules@.len() - i,
    {
        assert(all.skip(i as int)[0] == before[i as int]@);
        assert(all.skip(i as int).skip(1) =~= all.skip(i + 1));
        i += 1;
    }
    proof {
        if i < before.len() {
            assert(all.skip(i as int)[0] == before[i as int]@);
        }
        assert(place_of(all, rule@) == i);
    }
    let ghost model = rule@;
    rules.insert(i, rule);
    assert(rules@.map_values(view) =~= all.insert(i as int, model));
}

impl HostState {
    /// The virtual host that is configured as `host`, with the rules in file order.
    pub fn from_rules(host: &HostConfig, rules: Vec<ProxyRule>) -> (r: HostState)
        ensures
            r@ == site_with(host@, rules@.map_values(|x: ProxyRule| x@)),
    {
        let mut names: Vec<String> = Vec::new();
        let mut i: usize = 0;
        while i < host.names.len()
            invariant
                i <= host.names@.len(),
                names@.len() == i,
                forall|j: int| 0 <= j < i ==> (#[trigger] names@[j])@ == lower(host.names@[j]@),
            decreases host.names@.len() - i,
        {
            names.push(ascii_lowercase(host.names[i].as_str()));
            i += 1;
        }
        assert(names.deep_view() =~= host.names.deep_view().map_values(|n: Seq<char>| lower(n)));
        HostState { names, webroot: host.webroot.clone(), rules: arrange(rules) }
    }

    /// The first rule that matches a path.
    pub fn find_rule(&self, path: &str) -> (r: Option<&ProxyRule>)
        ensures
            match r {
                Some(rule) => first_match(self@.rules, path@) == Some(rule@),
                None => first_match(self@.rules, path@) is None,
            },
    {
        let mut i: usize = 0;
        assert(self@.rules.skip(0) =~= self@.rules);
        while i < self.rules.len()
            invariant
                i <= self.rules@.len(),
                first_match(self@.rules.skip(i as int), path@) == first_match(self@.rules, path@),
            decreases self.rules@.len() - i,
        {
            assert(self@.rules.skip(i as int)[0] == self.rules@[i as int]@);
            if self.rules[i].matches(path) {
                return Some(&self.rules[i]);
            }
            assert(self@.rules.skip(i as int).skip(1) =~= self@.rules.skip(i + 1));
            i += 1;
        }
        None
    }

    /// Whether the host has a name.
    fn has_name(&self, name: &str) -> (r: bool)
        ensures
            r == self@.names.contains(name@),
    {
        let mut i: usize = 0;
        while i < self.names.len()
            invariant
                i <= self.names@.len(),
                forall|j: int| 0 <= j < i ==> self@.names[j] != name@,
            decreases self.names@.len() - i,
        {
            assert(self@.names[i as int] == self.names@[i as int]@);
            if same(self.names[i].as_str(), name) {
                return true;
            }
            i += 1;
        }
        false
    }
}

/// The rules that a host is configured with, in file order.
fn parse_rules(host: &HostConfig) -> (r: Result<Vec<ProxyRule>, TargetError>)
    ensures
        match r {
            Ok(rules) => rules_of(host@.proxy) == Ok::<Seq<RuleModel>, TargetFault>(
                rules@.map_values(|x: ProxyRule| x@),
            ),
            Err(e) => rules_of(host@.proxy) == Err::<Seq<RuleModel>, TargetFault>(e@),
        },
{
    let ghost proxy = host@.proxy;
    let ghost view = |x: ProxyRule| x@;
    let mut rules: Vec<ProxyRule> = Vec::new();
    let mut i: usize = 0;
    assert(rules@.map_values(view) =~= Seq::<RuleModel>::empty());
    while i < host.proxy.len()
        invariant
            i <= host.proxy@.len(),
            proxy == host@.proxy,
            view == (|x: ProxyRule| x@),
            rules_of(proxy.take(i as int)) == Ok::<Seq<RuleModel>, TargetFault>(
                rules@.map_values(view),
            ),
        decreases host.proxy@.len() - i,
    {
        let entry = &host.proxy[i];
        proof {
            assert(proxy[i as int] == (entry.0@, entry.1@));
            assert(proxy.take(i + 1).drop_last() =~= proxy.take(i as int));
            assert(proxy.take(i + 1).last() == (entry.0@, entry.1@));
        }
        let target = match ProxyTarget::parse(entry.1.as_str()) {
            Ok(target) => target,
            Err(e) => {
                proof {
                    rules_fault_stays(proxy, i + 1);
                }
                return Err(e);
            },
        };
        let ghost before = rules@.map_values(view);
        let rule = ProxyRule { key: entry.0.clone(), target };
        let ghost model = rule@;
        rules.push(rule);
        assert(rules@.map_values(view) =~= before.push(model));
        i += 1;
    }
    assert(proxy.take(proxy.len() as int) =~= proxy);
    Ok(rules)
}

/// The first fault among the rules is that among any number of them from the start.
proof fn rules_fault_stays(proxy: Seq<(Seq<char>, Seq<char>)>, n: int)
    requires
        0 <= n <= proxy.len(),
        rules_of(proxy.take(n)) is Err,
    ensures
        rules_of(proxy) == rules_of(proxy.take(n)),
    decreases proxy.len(),
{
    if n < proxy.len() {
        assert(proxy.drop_last().take(n) =~= proxy.take(n));
        rules_fault_stays(proxy.drop_last(), n);
    } else {
        assert(proxy.take(n) =~= proxy);
    }
}

/// The first fault among the hosts is that among any number of them from the start.
proof fn sites_fault_stays(hosts: Seq<HostModel>, n: int)
    requires
        0 <= n <= hosts.len(),
        sites_of(hosts.take(n)) is Err,
    ensures
        sites_of(hosts) == sites_of(hosts.take(n)),
    decreases hosts.len(),
{
    if n < hosts.len() {
        assert(hosts.drop_last().take(n) =~= hosts.take(n));
        sites_fault_stays(hosts.drop_last(), n);
    } else {
        assert(hosts.take(n) =~= hosts);
    }
}

impl State {
    /// The state for a configuration.
    pub fn from_config(cfg: &WebConfig) -> (r: Result<State, TargetError>)
        ensures
            state_outcome(r) == state_of(cfg@),
            r matches Ok(state) ==> state.hosts@.len() == cfg.hosts@.len(),
    {
        let ghost models = cfg@.hosts;
        let ghost view = |h: HostState| h@;
        let mut hosts: Vec<HostState> = Vec::new();
        let mut i: usize = 0;
        assert(hosts@.map_values(view) =~= Seq::<SiteModel>::empty());
        while i < cfg.hosts.len()
            invariant
                i <= cfg.hosts@.len(),
                hosts@.len() == i,
                models == cfg@.hosts,
                view == (|h: HostState| h@),
                sites_of(models.take(i as int)) == Ok::<Seq<SiteModel>, TargetFault>(
                    hosts@.map_values(view),
                ),
            decreases cfg.hosts@.len() - i,
        {
            let host = &cfg.hosts[i];
            proof {
                assert(models[i as int] == host@);
                assert(models.take(i + 1).drop_last() =~= models.take(i as int));
                assert(models.take(i + 1).last() == host@);
            }
            let rules = match parse_rules(host) {
                Ok(rules) => rules,
                Err(e) => {
                    proof {
                        sites_fault_stays(models, i + 1);
                    }
                    return Err(e);
                },
            };
            let ghost before = hosts@.map_values(view);
            let site = HostState::from_rules(host, rules);
            let ghost model = site@;
            hosts.push(site);
            assert(hosts@.map_values(view) =~= before.push(model));
            i += 1;
        }
        assert(models.take(models.len() as int) =~= models);
        Ok(State { hosts, https_port: cfg.https_port })
    }

    /// Find the virtual host for a Host header; falls back to the default
    /// (first) host when no name matches. Note that on TLS connections the
    /// handshake has already restricted the client to a known SNI name.
    pub fn find_host(&self, host: &str) -> (r: &HostState)
        requires
            self.hosts@.len() > 0,
        ensures
            0 <= host_index(self@.hosts, host@) < self.hosts@.len(),
            *r == self.hosts@[host_index(self@.hosts, host@)],
    {
        let name = ascii_lowercase(strip_port(host).as_str());
        let mut i: usize = 0;
        assert(self@.hosts.skip(0) =~= self@.hosts);
        while i < self.hosts.len()
            invariant
                i <= self.hosts@.len(),
                name@ == lower(host_only(host@)),
                first_named(self@.hosts, name@) == i + first_named(
                    self@.hosts.skip(i as int),
                    name@,
                ),
            decreases self.hosts@.len() - i,
        {
            assert(self@.hosts.skip(i as int)[0] == self.hosts@[i as int]@);
            if self.hosts[i].has_name(name.as_str()) {
                return &self.hosts[i];
            }
            assert(self@.hosts.skip(i as int).skip(1) =~= self@.hosts.skip(i + 1));
            i += 1;
        }
        &self.hosts[0]
    }

    /// Main decision for each request: when HTTPS is enabled, plain-HTTP requests
    /// are redirected to it; otherwise, forward if a proxy rule of the matching
    /// virtual host applies, or fall back to its static files.
    pub fn handle_request(
        &self,
        scheme: Scheme,
        path: &str,
        path_and_query: Option<&str>,
        headers: &HeaderMap<HeaderValue>,
    ) -> (r: Action<'_>)
        requires
            self.hosts@.len() > 0,
        ensures
            r@ == action_of(
                self@,
                scheme,
                path@,
                slice_text(path_and_query),
                header_values(*headers),
            ),
    {
        if scheme == Scheme::Http {
            if let Some(port) = self.https_port {
                return Action::Answer(redirect_to_https(headers, path_and_query, port));
            }
        }
        proof {
            known_names();
        }
        let host_hdr = match get_text(headers, "host") {
            Some(h) => h,
            None => String::new(),
        };
        let host = self.find_host(host_hdr.as_str());
        match host.find_rule(path) {
            Some(rule) => Action::Forward(rule),
            None => Action::Static(host),
        }
    }
}

/// Build a 301 redirect that moves a plain-HTTP request to the HTTPS listener
pub fn redirect_to_https(
    headers: &HeaderMap<HeaderValue>,
    path_and_query: Option<&str>,
    https_port: u16,
) -> (r: Reply)
    ensures
        r@ == redirect_reply(header_values(*headers), slice_text(path_and_query), https_port),
{
    proof {
        known_names();
    }
    let host = match get_text(headers, "host") {
        Some(h) => strip_port(h.as_str()),
        None => return error(400, "400 Bad Request\n"),
    };
    let pq = match path_and_query {
        Some(pq) => pq,
        None => "/",
    };
    let mut location = "https://".to_owned();
    location.append(host.as_str());
    if https_port != 443 {
        location.append(":");
        location.append(decimal(https_port as u64).as_str());
    }
    location.append(pq);
    let ghost header = header_text(header_values(*headers), "host"@)->0;
    assert(location@ =~= location_of(header, https_port, pq@));
    let mut res = text(301, "301 Moved Permanently\n");
    let _ = set_field(&mut res.headers, "location", location.as_str());
    res
}

/// Strip any port from a host value, keeping bracketed IPv6 literals intact
pub fn strip_port(host: &str) -> (r: String)
    ensures
        r@ == host_only(host@),
{
    let v = chars_of(host);
    if v.len() > 0 && v[0] == '[' {
        // [::1]:443 -> [::1]
        let end = first_index(&v, ']');
        if end < v.len() {
            let r = string_of(&v, 0, end + 1);
            assert(r@ =~= host@.take(end + 1));
            r
        } else {
            host.to_owned()
        }
    } else {
        let end = first_index(&v, ':');
        let r = string_of(&v, 0, end);
        assert(r@ =~= host@.take(end as int));
        r
    }
}

} // verus!
