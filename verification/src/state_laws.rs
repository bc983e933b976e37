//! What holds of the state that is made from a configuration, and of the host, the
//! rule and the redirect that each request is given by it.

use crate::config::HostModel;
use crate::config::WebModel;
use crate::gateway::action_of;
use crate::gateway::arranged;
use crate::gateway::first_match;
use crate::gateway::first_named;
use crate::gateway::host_header;
use crate::gateway::host_index;
use crate::gateway::host_only;
use crate::gateway::location_of;
use crate::gateway::place_of;
use crate::gateway::prefix_len;
use crate::gateway::redirect_reply;
use crate::gateway::rules_of;
use crate::gateway::sites_of;
use crate::gateway::state_of;
use crate::gateway::ActionModel;
use crate::gateway::SiteModel;
use crate::gateway::StateModel;
use crate::gateway_laws::arranging;
use crate::gateway_laws::place_of_bounds;
use crate::gateway_laws::sites_follow_config;
use crate::headers::header_text;
use crate::headers::is_field_text;
use crate::proxy::rule_matches;
use crate::proxy::target_of;
use crate::proxy::RuleModel;
use crate::proxy::Scheme;
use crate::proxy::TargetFault;
use crate::proxy::TargetModel;
use crate::respond::text_reply;
use crate::text::decimal_of;
use crate::text::first_at_is;
use crate::text::lower;
use crate::text::trim_slashes;
use crate::uri::uri_of;
use vstd::prelude::*;
use vstd::utf8::encode_utf8;

verus! {

/// The target that a configured text is.
pub open spec fn configured_target(text: Seq<char>) -> Result<TargetModel, TargetFault> {
    target_of(text, uri_of(text))
}

/// The rules of a host are read from its configuration one by one, in file order,
/// each with its own path and target.
pub proof fn rules_as_configured(proxy: Seq<(Seq<char>, Seq<char>)>)
    requires
        forall|i: int| 0 <= i < proxy.len() ==> configured_target((#[trigger] proxy[i]).1) is Ok,
    ensures
        rules_of(proxy) matches Ok(rules) && {
            &&& rules.len() == proxy.len()
            &&& forall|i: int|
                0 <= i < proxy.len() ==> {
                    &&& (#[trigger] rules[i]).key == proxy[i].0
                    &&& configured_target(proxy[i].1) == Ok::<TargetModel, TargetFault>(
                        rules[i].target,
                    )
                }
        },
    decreases proxy.len(),
{
    if proxy.len() > 0 {
        let first = proxy.drop_last();
        assert forall|i: int| 0 <= i < first.len() implies configured_target(
            (#[trigger] first[i]).1,
        ) is Ok by {
            assert(first[i] == proxy[i]);
        }
        rules_as_configured(first);
        assert(configured_target(proxy[proxy.len() - 1].1) is Ok);
        let rules = rules_of(proxy)->Ok_0;
        let before = rules_of(first)->Ok_0;
        assert forall|i: int| 0 <= i < proxy.len() implies {
            &&& (#[trigger] rules[i]).key == proxy[i].0
            &&& configured_target(proxy[i].1) == Ok::<TargetModel, TargetFault>(rules[i].target)
        } by {
            if i < first.len() {
                assert(rules[i] == before[i]);
                assert(first[i] == proxy[i]);
            }
        }
    }
}

/// The first target of a host that is none makes its rules fail, for its own reason.
pub proof fn first_bad_target(proxy: Seq<(Seq<char>, Seq<char>)>, i: int, fault: TargetFault)
    requires
        0 <= i < proxy.len(),
        configured_target(proxy[i].1) == Err::<TargetModel, TargetFault>(fault),
        forall|j: int| 0 <= j < i ==> configured_target((#[trigger] proxy[j]).1) is Ok,
    ensures
        rules_of(proxy) == Err::<Seq<RuleModel>, TargetFault>(fault),
    decreases proxy.len(),
{
    let first = proxy.drop_last();
    assert forall|j: int| 0 <= j < i implies configured_target((#[trigger] first[j]).1) is Ok by {
        assert(first[j] == proxy[j]);
    }
    if i < first.len() {
        assert(first[i] == proxy[i]);
        first_bad_target(first, i, fault);
    } else {
        rules_as_configured(first);
    }
}

/// Rules are tried in the order of their prefixes' lengths in bytes, the longest
/// first; trailing slashes do not count.
pub proof fn order_of_rules(rules: Seq<RuleModel>, i: int, j: int)
    requires
        0 <= i < j < rules.len(),
    ensures
        arranged(rules).len() == rules.len(),
        encode_utf8(trim_slashes(arranged(rules)[i].key)).len() >= encode_utf8(
            trim_slashes(arranged(rules)[j].key),
        ).len(),
{
    arranging(rules);
    assert(prefix_len(arranged(rules)[i]) >= prefix_len(arranged(rules)[j]));
}

/// Of the rules with a given length of prefix, exactly those that are configured
/// are tried, in file order.
pub proof fn file_order_is_kept(rules: Seq<RuleModel>, length: nat)
    ensures
        arranged(rules).filter(
            |r: RuleModel| encode_utf8(trim_slashes(r.key)).len() == length,
        ) == rules.filter(|r: RuleModel| encode_utf8(trim_slashes(r.key)).len() == length),
    decreases rules.len(),
{
    let keep = |r: RuleModel| encode_utf8(trim_slashes(r.key)).len() == length;
    if rules.len() == 0 {
        assert(arranged(rules) =~= rules);
    } else {
        let first = rules.drop_last();
        let last = rules.last();
        let before = arranged(first);
        let at = place_of(before, last);
        file_order_is_kept(first, length);
        arranging(first);
        place_of_bounds(before, last);
        let x = before.take(at);
        let y = before.skip(at);
        assert(before =~= x + y);
        assert(before.insert(at, last) =~= x + seq![last] + y);
        assert(rules =~= first + seq![last]);
        Seq::filter_distributes_over_add(x, y, keep);
        Seq::filter_distributes_over_add(x, seq![last], keep);
        Seq::filter_distributes_over_add(x + seq![last], y, keep);
        Seq::filter_distributes_over_add(first, seq![last], keep);
        if keep(last) {
            assert forall|i: int| 0 <= i < y.len() implies !keep(#[trigger] y[i]) by {
                assert(y[i] == before[at + i]);
                assert(prefix_len(before[at]) < prefix_len(last));
                if i > 0 {
                    assert(prefix_len(before[at]) >= prefix_len(before[at + i]));
                }
            }
            nothing_kept(y, keep);
            assert(x.filter(keep) + Seq::<RuleModel>::empty() =~= x.filter(keep));
            assert(x.filter(keep) + seq![last].filter(keep) + Seq::<RuleModel>::empty()
                =~= x.filter(keep) + seq![last].filter(keep));
        } else {
            nothing_kept(seq![last], keep);
            assert(x.filter(keep) + Seq::<RuleModel>::empty() =~= x.filter(keep));
            assert(first.filter(keep) + Seq::<RuleModel>::empty() =~= first.filter(keep));
        }
    }
}

proof fn nothing_kept(rules: Seq<RuleModel>, keep: spec_fn(RuleModel) -> bool)
    requires
        forall|i: int| 0 <= i < rules.len() ==> !keep(#[trigger] rules[i]),
    ensures
        rules.filter(keep) == Seq::<RuleModel>::empty(),
    decreases rules.len(),
{
    reveal(Seq::filter);
    if rules.len() > 0 {
        assert(!keep(rules[rules.len() - 1]));
        assert forall|i: int| 0 <= i < rules.drop_last().len() implies !keep(
            #[trigger] rules.drop_last()[i],
        ) by {
            assert(!keep(rules[i]));
        }
        nothing_kept(rules.drop_last(), keep);
    }
}

/// A path is given to the first rule that matches it.
pub proof fn first_matching_rule(rules: Seq<RuleModel>, path: Seq<char>, i: int)
    requires
        0 <= i < rules.len(),
        rule_matches(rules[i].key, path),
        forall|j: int| 0 <= j < i ==> !rule_matches((#[trigger] rules[j]).key, path),
    ensures
        first_match(rules, path) == Some(rules[i]),
    decreases i,
{
    if i > 0 {
        assert(!rule_matches(rules[0].key, path));
        let rest = rules.skip(1);
        assert(rest[i - 1] == rules[i]);
        assert forall|j: int| 0 <= j < i - 1 implies !rule_matches(
            (#[trigger] rest[j]).key,
            path,
        ) by {
            assert(rest[j] == rules[j + 1]);
        }
        first_matching_rule(rest, path, i - 1);
    }
}

/// A path that no rule matches is given to none.
pub proof fn no_matching_rule(rules: Seq<RuleModel>, path: Seq<char>)
    requires
        forall|j: int| 0 <= j < rules.len() ==> !rule_matches((#[trigger] rules[j]).key, path),
    ensures
        first_match(rules, path) is None,
    decreases rules.len(),
{
    if rules.len() > 0 {
        let rest = rules.skip(1);
        assert(!rule_matches(rules[0].key, path));
        assert forall|j: int| 0 <= j < rest.len() implies !rule_matches(
            (#[trigger] rest[j]).key,
            path,
        ) by {
            assert(rest[j] == rules[j + 1]);
        }
        no_matching_rule(rest, path);
    }
}

/// Every host of a configuration has a virtual host in its place, with all of its
/// names in lower case, its webroot, and its rules in the order in which they are
/// tried.
pub proof fn hosts_as_configured(config: WebModel, i: int)
    requires
        0 <= i < config.hosts.len(),
    ensures
        state_of(config) matches Ok(state) ==> {
            &&& state.https_port == config.https_port
            &&& state.hosts.len() == config.hosts.len()
            &&& state.hosts[i].names.len() == config.hosts[i].names.len()
            &&& forall|j: int|
                0 <= j < config.hosts[i].names.len() ==> #[trigger] state.hosts[i].names[j]
                    == lower(config.hosts[i].names[j])
            &&& state.hosts[i].webroot == config.hosts[i].webroot
            &&& rules_of(config.hosts[i].proxy) matches Ok(rules)
            &&& state.hosts[i].rules == arranged(rules)
        },
{
    sites_follow_config(config, i);
}

/// A configuration without a host has no virtual host; one whose targets are all
/// targets has a state; and otherwise its first bad target is reported.
pub proof fn state_or_first_fault(config: WebModel, i: int, fault: TargetFault)
    ensures
        (forall|k: int| 0 <= k < config.hosts.len() ==> rules_of((#[trigger] config.hosts[k]).proxy)
            is Ok) ==> state_of(config) is Ok,
        0 <= i < config.hosts.len() && rules_of(config.hosts[i].proxy) == Err::<
            Seq<RuleModel>,
            TargetFault,
        >(fault) && (forall|k: int|
            0 <= k < i ==> rules_of((#[trigger] config.hosts[k]).proxy) is Ok) ==> state_of(config)
            == Err::<StateModel, TargetFault>(fault),
{
    if forall|k: int| 0 <= k < config.hosts.len() ==> rules_of(
        (#[trigger] config.hosts[k]).proxy,
    ) is Ok {
        sites_succeed(config.hosts);
    }
    if 0 <= i < config.hosts.len() && rules_of(config.hosts[i].proxy) == Err::<
        Seq<RuleModel>,
        TargetFault,
    >(fault) && (forall|k: int| 0 <= k < i ==> rules_of((#[trigger] config.hosts[k]).proxy) is Ok) {
        sites_fail(config.hosts, i, fault);
    }
}

proof fn sites_succeed(hosts: Seq<HostModel>)
    requires
        forall|k: int| 0 <= k < hosts.len() ==> rules_of((#[trigger] hosts[k]).proxy) is Ok,
    ensures
        sites_of(hosts) is Ok,
    decreases hosts.len(),
{
    if hosts.len() > 0 {
        let first = hosts.drop_last();
        assert forall|k: int| 0 <= k < first.len() implies rules_of(
            (#[trigger] first[k]).proxy,
        ) is Ok by {
            assert(first[k] == hosts[k]);
        }
        sites_succeed(first);
        assert(rules_of(hosts[hosts.len() - 1].proxy) is Ok);
    }
}

proof fn sites_fail(hosts: Seq<HostModel>, i: int, fault: TargetFault)
    requires
        0 <= i < hosts.len(),
        rules_of(hosts[i].proxy) == Err::<Seq<RuleModel>, TargetFault>(fault),
        forall|k: int| 0 <= k < i ==> rules_of((#[trigger] hosts[k]).proxy) is Ok,
    ensures
        sites_of(hosts) == Err::<Seq<SiteModel>, TargetFault>(fault),
    decreases hosts.len(),
{
    let first = hosts.drop_last();
    assert forall|k: int| 0 <= k < i implies rules_of((#[trigger] first[k]).proxy) is Ok by {
        assert(first[k] == hosts[k]);
    }
    if i < first.len() {
        assert(first[i] == hosts[i]);
        sites_fail(first, i, fault);
    } else {
        sites_succeed(first);
    }
}

/// A request goes to the host that is configured with the name in its Host header,
/// whatever its case and its port, as long as no host before it has that name too.
pub proof fn configured_name_selects(config: WebModel, host: Seq<char>, i: int, j: int)
    requires
        0 <= i < config.hosts.len(),
        0 <= j < config.hosts[i].names.len(),
        lower(host_only(host)) == lower(config.hosts[i].names[j]),
        forall|k: int, l: int|
            0 <= k < i && 0 <= l < config.hosts[k].names.len() ==> lower(host_only(host)) != lower(
                #[trigger] config.hosts[k].names[l],
            ),
    ensures
        state_of(config) matches Ok(state) ==> host_index(state.hosts, host) == i,
{
    if let Ok(state) = state_of(config) {
        let name = lower(host_only(host));
        hosts_as_configured(config, i);
        assert(state.hosts[i].names[j] == name);
        assert forall|k: int| 0 <= k < i implies !(#[trigger] state.hosts[k]).names.contains(
            name,
        ) by {
            hosts_as_configured(config, k);
            if state.hosts[k].names.contains(name) {
                let l = state.hosts[k].names.index_of(name);
                assert(state.hosts[k].names[l] == lower(config.hosts[k].names[l]));
            }
        }
        first_named_is(state.hosts, name, i);
    }
}

/// A request whose Host header names no configured host goes to the first one.
pub proof fn unknown_name_selects_the_first(config: WebModel, host: Seq<char>)
    requires
        config.hosts.len() > 0,
        forall|k: int, l: int|
            0 <= k < config.hosts.len() && 0 <= l < config.hosts[k].names.len() ==> lower(
                host_only(host),
            ) != lower(#[trigger] config.hosts[k].names[l]),
    ensures
        state_of(config) matches Ok(state) ==> host_index(state.hosts, host) == 0,
{
    if let Ok(state) = state_of(config) {
        let name = lower(host_only(host));
        hosts_as_configured(config, 0);
        assert forall|k: int| 0 <= k < state.hosts.len() implies !(
        #[trigger] state.hosts[k]).names.contains(name) by {
            hosts_as_configured(config, k);
            if state.hosts[k].names.contains(name) {
                let l = state.hosts[k].names.index_of(name);
                assert(state.hosts[k].names[l] == lower(config.hosts[k].names[l]));
            }
        }
        none_named(state.hosts, name);
    }
}

proof fn first_named_is(hosts: Seq<SiteModel>, name: Seq<char>, i: int)
    requires
        0 <= i < hosts.len(),
        hosts[i].names.contains(name),
        forall|k: int| 0 <= k < i ==> !(#[trigger] hosts[k]).names.contains(name),
    ensures
        first_named(hosts, name) == i,
    decreases i,
{
    if i > 0 {
        let rest = hosts.skip(1);
        assert(!hosts[0].names.contains(name));
        assert(rest[i - 1] == hosts[i]);
        assert forall|k: int| 0 <= k < i - 1 implies !(#[trigger] rest[k]).names.contains(name) by {
            assert(rest[k] == hosts[k + 1]);
        }
        first_named_is(rest, name, i - 1);
    }
}

proof fn none_named(hosts: Seq<SiteModel>, name: Seq<char>)
    requires
        forall|k: int| 0 <= k < hosts.len() ==> !(#[trigger] hosts[k]).names.contains(name),
    ensures
        first_named(hosts, name) == hosts.len(),
    decreases hosts.len(),
{
    if hosts.len() > 0 {
        let rest = hosts.skip(1);
        assert(!hosts[0].names.contains(name));
        assert forall|k: int| 0 <= k < rest.len() implies !(#[trigger] rest[k]).names.contains(
            name,
        ) by {
            assert(rest[k] == hosts[k + 1]);
        }
        none_named(rest, name);
    }
}

/// A bracket that is never closed begins no literal: the value is kept whole.
pub proof fn unclosed_bracket(rest: Seq<char>)
    requires
        !rest.contains(']'),
    ensures
        host_only(seq!['['] + rest) == seq!['['] + rest,
{
    let whole = seq!['['] + rest;
    assert forall|j: int| 0 <= j < whole.len() implies whole[j] != ']' by {
        if j > 0 {
            assert(rest.contains(rest[j - 1]));
        }
    }
    first_at_is(whole, ']', whole.len() as int);
}

/// The Host header decides by its text; one that is missing or cannot be read
/// counts as empty.
pub proof fn host_of_request(values: Map<Seq<char>, Seq<Seq<u8>>>)
    ensures
        header_text(values, "host"@) matches Some(text) ==> host_header(values) == text,
        header_text(values, "host"@) is None ==> host_header(values).len() == 0,
{
}

/// A request is redirected to the same host, without its port, and the same path
/// and query; the HTTPS port follows the host exactly if it is not 443.
pub proof fn redirect_locations(host: Seq<char>, https_port: u16, path_and_query: Seq<char>)
    ensures
        https_port == 443 ==> location_of(host, https_port, path_and_query) == "https://"@
            + host_only(host) + path_and_query,
        https_port != 443 ==> location_of(host, https_port, path_and_query) == "https://"@
            + host_only(host) + ":"@ + decimal_of(https_port as nat) + path_and_query,
{
    assert(location_of(host, 443, path_and_query) =~= "https://"@ + host_only(host)
        + path_and_query);
    if https_port != 443 {
        assert(location_of(host, https_port, path_and_query) =~= "https://"@ + host_only(host)
            + ":"@ + decimal_of(https_port as nat) + path_and_query);
    }
}

/// A redirect has status 301, a short text, and the location where a header can
/// hold it; a request without a path goes to /.
pub proof fn redirect_replies(
    values: Map<Seq<char>, Seq<Seq<u8>>>,
    host: Seq<char>,
    path_and_query: Option<Seq<char>>,
    https_port: u16,
    name: Seq<char>,
)
    requires
        header_text(values, "host"@) == Some(host),
    ensures
        ({
            let reply = redirect_reply(values, path_and_query, https_port);
            let location = location_of(
                host,
                https_port,
                match path_and_query {
                    Some(text) => text,
                    None => "/"@,
                },
            );
            &&& reply.status == 301
            &&& reply.body == encode_utf8("301 Moved Permanently\n"@)
            &&& reply.headers.dom().contains(name) <==> name == "content-type"@ || (name
                == "location"@ && is_field_text(location))
            &&& reply.headers["content-type"@] == seq![encode_utf8("text/plain; charset=utf-8"@)]
            &&& is_field_text(location) ==> reply.headers["location"@] == seq![
                encode_utf8(location),
            ]
        }),
{
    reveal_strlit("location");
    reveal_strlit("content-type");
    assert("location"@.len() != "content-type"@.len());
}

/// A request that is to be redirected but has no Host header is refused with 400.
pub proof fn no_redirect_without_host(
    values: Map<Seq<char>, Seq<Seq<u8>>>,
    path_and_query: Option<Seq<char>>,
    https_port: u16,
)
    requires
        header_text(values, "host"@) is None,
    ensures
        redirect_reply(values, path_and_query, https_port) == text_reply(
            400,
            "400 Bad Request\n"@,
        ),
{
}

/// With HTTPS enabled, what a plain-HTTP request gets is the redirect to the
/// configured port, whatever the path and the host.
pub proof fn redirect_is_the_answer(
    state: StateModel,
    https_port: u16,
    path: Seq<char>,
    path_and_query: Option<Seq<char>>,
    values: Map<Seq<char>, Seq<Seq<u8>>>,
)
    requires
        state.https_port == Some(https_port),
    ensures
        action_of(state, Scheme::Http, path, path_and_query, values) == ActionModel::Answer(
            redirect_reply(values, path_and_query, https_port),
        ),
{
}

/// A request that is not redirected is forwarded by the first rule of its host that
/// matches, and otherwise served from the webroot of that host.
pub proof fn handled_by_host(
    config: WebModel,
    scheme: Scheme,
    path: Seq<char>,
    path_and_query: Option<Seq<char>>,
    values: Map<Seq<char>, Seq<Seq<u8>>>,
    i: int,
    j: int,
)
    requires
        config.https_port is None || scheme == Scheme::Https,
        0 <= i < config.hosts.len(),
        0 <= j < config.hosts[i].names.len(),
        lower(host_only(host_header(values))) == lower(config.hosts[i].names[j]),
        forall|k: int, l: int|
            0 <= k < i && 0 <= l < config.hosts[k].names.len() ==> lower(
                host_only(host_header(values)),
            ) != lower(#[trigger] config.hosts[k].names[l]),
    ensures
        state_of(config) matches Ok(state) ==> {
            let action = action_of(state, scheme, path, path_and_query, values);
            match first_match(state.hosts[i].rules, path) {
                Some(rule) => action == ActionModel::Forward(rule),
                None => action matches ActionModel::Static(site) && site.webroot
                    == config.hosts[i].webroot,
            }
        },
{
    configured_name_selects(config, host_header(values), i, j);
    hosts_as_configured(config, i);
}

} // verus!
