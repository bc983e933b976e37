//! What holds of every request that the gateway decides on.

use crate::config::HostModel;
use crate::config::WebModel;
use crate::gateway::action_of;
use crate::gateway::arranged;
use crate::gateway::first_match;
use crate::gateway::first_named;
use crate::gateway::host_header;
use crate::gateway::host_index;
use crate::gateway::host_only;
use crate::gateway::prefix_len;
use crate::gateway::location_of;
use crate::gateway::longest_first;
use crate::gateway::place_of;
use crate::gateway::redirect_reply;
use crate::gateway::rules_of;
use crate::gateway::site_with;
use crate::gateway::sites_of;
use crate::gateway::state_of;
use crate::gateway::ActionModel;
use crate::gateway::SiteModel;
use crate::gateway::StateModel;
use crate::headers::header_text;
use crate::headers::is_field_text;
use crate::proxy::rule_matches;
use crate::proxy::RuleModel;
use crate::proxy::Scheme;
use crate::text::all_digits;
use crate::text::decimal_of;
use crate::text::decimal_round_trip;
use crate::text::first_at;
use crate::text::first_at_bounds;
use crate::text::first_at_is;
use crate::text::lower;
use crate::text::lower_char;
use crate::text::lower_idempotent;
use crate::text::trim_slashes;
use vstd::prelude::*;
use vstd::utf8::encode_utf8;

verus! {

/// Of the rules that match a path, the one with the longest prefix; of several such,
/// the one that stands first.
pub open spec fn best_match(rules: Seq<RuleModel>, path: Seq<char>) -> Option<RuleModel>
    decreases rules.len(),
{
    if rules.len() == 0 {
        None
    } else {
        let best = best_match(rules.drop_last(), path);
        let last = rules.last();
        if rule_matches(last.key, path) && (best is None || prefix_len(best->0) < prefix_len(last)) {
            Some(last)
        } else {
            best
        }
    }
}

/// The rules of a host are those that it is configured with, the longest prefixes
/// first.
pub proof fn arranging(rules: Seq<RuleModel>)
    ensures
        longest_first(arranged(rules)),
        arranged(rules).to_multiset() == rules.to_multiset(),
        arranged(rules).len() == rules.len(),
    decreases rules.len(),
{
    broadcast use vstd::seq_lib::group_to_multiset_ensures;

    if rules.len() > 0 {
        let first = rules.drop_last();
        let last = rules.last();
        let before = arranged(first);
        let at = place_of(before, last);
        arranging(first);
        place_of_bounds(before, last);
        let after = before.insert(at, last);
        assert forall|i: int, j: int| 0 <= i < j < after.len() implies prefix_len(
            #[trigger] after[i],
        ) >= prefix_len(#[trigger] after[j]) by {
            let bi = if i < at {
                i
            } else {
                i - 1
            };
            let bj = if j < at {
                j
            } else {
                j - 1
            };
            if i != at && j != at {
                assert(after[i] == before[bi] && after[j] == before[bj]);
            } else if i == at {
                assert(after[j] == before[bj]);
                if at < bj {
                    assert(prefix_len(before[at]) >= prefix_len(before[bj]));
                }
            } else {
                assert(after[i] == before[bi]);
            }
        }
        assert(after.to_multiset() == before.to_multiset().insert(last));
        assert(rules =~= first.push(last));
    } else {
        assert(arranged(rules) =~= rules);
    }
}

/// A request is forwarded by the rule with the longest prefix among those that
/// match its path, by the first in file order where prefixes are equally long,
/// and by none only if none matches.
pub proof fn longest_match_wins(rules: Seq<RuleModel>, path: Seq<char>)
    ensures
        first_match(arranged(rules), path) == best_match(rules, path),
    decreases rules.len(),
{
    if rules.len() > 0 {
        let first = rules.drop_last();
        let last = rules.last();
        let before = arranged(first);
        longest_match_wins(first, path);
        arranging(first);
        place_of_bounds(before, last);
        match_after_insert(before, last, path);
    } else {
        assert(arranged(rules) =~= rules);
    }
}

/// What [`best_match`] promises.
pub proof fn best_match_facts(rules: Seq<RuleModel>, path: Seq<char>, j: int)
    ensures
        best_match(rules, path) matches Some(best) ==> {
            &&& rules.contains(best)
            &&& rule_matches(best.key, path)
            &&& 0 <= j < rules.len() && rule_matches(rules[j].key, path) ==> prefix_len(rules[j])
                <= prefix_len(best)
        },
        best_match(rules, path) is None && 0 <= j < rules.len() ==> !rule_matches(
            rules[j].key,
            path,
        ),
    decreases rules.len(),
{
    if rules.len() > 0 {
        let first = rules.drop_last();
        best_match_facts(first, path, j);
        if let Some(best) = best_match(first, path) {
            let k = first.index_of(best);
            assert(rules[k] == best);
        }
        assert(rules[rules.len() - 1] == rules.last());
        if 0 <= j < first.len() {
            assert(first[j] == rules[j]);
        }
    }
}

/// The longest prefix wins: of the rules that match a path, the one that is chosen
/// has the longest prefix, trailing slashes not counted.
pub proof fn longest_prefix_wins(rules: Seq<RuleModel>, path: Seq<char>, j: int)
    requires
        0 <= j < rules.len(),
        rule_matches(rules[j].key, path),
    ensures
        first_match(arranged(rules), path) matches Some(chosen) && trim_slashes(
            rules[j].key,
        ).len() <= trim_slashes(chosen.key).len(),
{
    longest_match_wins(rules, path);
    best_match_facts(rules, path, j);
    let chosen = best_match(rules, path)->0;
    if trim_slashes(rules[j].key).len() > trim_slashes(chosen.key).len() {
        longer_prefix_more_bytes(chosen.key, rules[j].key, path);
    }
}

/// A host header with a port selects the same host as one without.
pub proof fn port_makes_no_difference(hosts: Seq<SiteModel>, name: Seq<char>, port: Seq<char>)
    requires
        !name.contains(':'),
        name.len() == 0 || name[0] != '[',
    ensures
        host_only(name.push(':') + port) == name,
        host_only(name) == name,
        host_index(hosts, name.push(':') + port) == host_index(hosts, name),
{
    let whole = name.push(':') + port;
    assert forall|j: int| 0 <= j < name.len() implies name[j] != ':' by {
        assert(name.contains(name[j]));
    }
    assert(forall|j: int| 0 <= j < name.len() ==> whole[j] == name[j]);
    first_at_is(whole, ':', name.len() as int);
    first_at_is(name, ':', name.len() as int);
    assert(whole.take(name.len() as int) =~= name);
    assert(name.take(name.len() as int) =~= name);
}

/// A bracketed IPv6 literal is kept whole, whatever follows it.
pub proof fn bracketed_literal_is_kept(address: Seq<char>, rest: Seq<char>)
    requires
        !address.contains(']'),
    ensures
        host_only(seq!['['] + address + seq![']'] + rest) == seq!['['] + address + seq![']'],
{
    let literal = seq!['['] + address + seq![']'];
    let whole = literal + rest;
    let end: int = address.len() as int + 1;
    assert forall|j: int| 0 <= j < end implies whole[j] != ']' by {
        if j > 0 {
            assert(whole[j] == address[j - 1]);
            assert(address.contains(address[j - 1]));
        }
    }
    assert(whole[end as int] == ']');
    first_at_is(whole, ']', end as int);
    assert(whole.take(end + 1) =~= literal);
}

/// The case of a host header makes no difference.
pub proof fn case_makes_no_difference(hosts: Seq<SiteModel>, host: Seq<char>)
    ensures
        host_index(hosts, lower(host)) == host_index(hosts, host),
{
    let low = lower(host);
    first_at_lower(host, ':');
    first_at_lower(host, ']');
    first_at_bounds(host, ':');
    first_at_bounds(host, ']');
    assert(host_only(low) =~= lower(host_only(host)));
    lower_idempotent(host_only(host));
}

/// A request goes to the first host with the name in its Host header, and to the
/// first host of all if there is none with that name.
pub proof fn host_selection(hosts: Seq<SiteModel>, host: Seq<char>, j: int)
    requires
        hosts.len() > 0,
    ensures
        0 <= host_index(hosts, host) < hosts.len(),
        0 <= j < hosts.len() && hosts[j].names.contains(lower(host_only(host))) ==> {
            &&& hosts[host_index(hosts, host)].names.contains(lower(host_only(host)))
            &&& host_index(hosts, host) <= j
        },
        !hosts[host_index(hosts, host)].names.contains(lower(host_only(host))) ==> host_index(
            hosts,
            host,
        ) == 0,
{
    first_named_facts(hosts, lower(host_only(host)), j);
}

/// The virtual hosts are those of the configuration, in its order, each with the
/// names, the webroot and the rules that it is configured with.
pub proof fn sites_follow_config(config: WebModel, i: int)
    requires
        0 <= i < config.hosts.len(),
    ensures
        state_of(config) matches Ok(state) ==> {
            &&& state.https_port == config.https_port
            &&& state.hosts.len() == config.hosts.len()
            &&& rules_of(config.hosts[i].proxy) matches Ok(rules)
            &&& state.hosts[i] == site_with(config.hosts[i], rules)
        },
{
    sites_follow_hosts(config.hosts, i);
}

/// A request that is not redirected is handled as the host that its Host header
/// selects is configured: by the rule with the longest matching prefix, in
/// file order where prefixes are equally long, or else from its webroot.
pub proof fn requests_follow_config(
    config: WebModel,
    scheme: Scheme,
    path: Seq<char>,
    path_and_query: Option<Seq<char>>,
    values: Map<Seq<char>, Seq<Seq<u8>>>,
)
    requires
        config.hosts.len() > 0,
        config.https_port is None || scheme == Scheme::Https,
    ensures
        state_of(config) matches Ok(state) ==> ({
            let i = host_index(state.hosts, host_header(values));
            let action = action_of(state, scheme, path, path_and_query, values);
            &&& 0 <= i < config.hosts.len()
            &&& rules_of(config.hosts[i].proxy) matches Ok(rules)
            &&& match best_match(rules, path) {
                Some(rule) => action == ActionModel::Forward(rule),
                None => action matches ActionModel::Static(site) && site.webroot
                    == config.hosts[i].webroot,
            }
        }),
{
    if let Ok(state) = state_of(config) {
        sites_follow_config(config, 0);
        let i = host_index(state.hosts, host_header(values));
        host_selection(state.hosts, host_header(values), 0);
        sites_follow_config(config, i);
        longest_match_wins(rules_of(config.hosts[i].proxy)->Ok_0, path);
    }
}

/// When HTTPS is enabled, every plain-HTTP request is answered with a redirect, or
/// refused if it has no Host header; it is neither forwarded nor served.
pub proof fn plain_http_is_redirected(
    state: StateModel,
    path: Seq<char>,
    path_and_query: Option<Seq<char>>,
    values: Map<Seq<char>, Seq<Seq<u8>>>,
)
    requires
        state.https_port is Some,
    ensures
        action_of(state, Scheme::Http, path, path_and_query, values) matches ActionModel::Answer(
            reply,
        ) && reply.status == (if header_text(values, "host"@) is Some {
            301u16
        } else {
            400u16
        }),
{
}

/// Without HTTPS, and on HTTPS itself, no request is redirected: it is forwarded
/// by a rule of the host that its Host header selects, or served from the
/// webroot of that host if no rule matches.
pub proof fn no_redirect_otherwise(
    state: StateModel,
    scheme: Scheme,
    path: Seq<char>,
    path_and_query: Option<Seq<char>>,
    values: Map<Seq<char>, Seq<Seq<u8>>>,
)
    requires
        state.https_port is None || scheme == Scheme::Https,
    ensures
        ({
            let host = state.hosts[host_index(state.hosts, host_header(values))];
            action_of(state, scheme, path, path_and_query, values) == (match first_match(
                host.rules,
                path,
            ) {
                Some(rule) => ActionModel::Forward(rule),
                None => ActionModel::Static(host),
            })
        }),
{
}

/// A redirect always says where to go: to the same host, path and query on the
/// HTTPS port, which is left out if it is 443.
pub proof fn redirect_has_location(
    values: Map<Seq<char>, Seq<Seq<u8>>>,
    path_and_query: Seq<char>,
    https_port: u16,
)
    requires
        header_text(values, "host"@) is Some,
        is_field_text(path_and_query),
    ensures
        ({
            let reply = redirect_reply(values, Some(path_and_query), https_port);
            let location = location_of(
                header_text(values, "host"@)->0,
                https_port,
                path_and_query,
            );
            &&& reply.status == 301
            &&& reply.headers.dom().contains("location"@)
            &&& reply.headers["location"@] == seq![encode_utf8(location)]
        }),
        location_of(header_text(values, "host"@)->0, 443, path_and_query) == "https://"@
            + host_only(header_text(values, "host"@)->0) + path_and_query,
{
    let host = header_text(values, "host"@)->0;
    let value = values["host"@][0];
    let stripped = host_only(host);
    let port = decimal_of(https_port as nat);
    let location = location_of(host, https_port, path_and_query);
    reveal_strlit("https://");
    reveal_strlit(":");
    decimal_round_trip(https_port as nat);
    first_at_bounds(host, ':');
    first_at_bounds(host, ']');
    assert forall|i: int| 0 <= i < host.len() implies (#[trigger] host[i] == '\t' || (host[i]
        >= ' ' && host[i] != '\x7f')) by {
        assert(crate::headers::is_visible(value[i]));
    }
    assert(is_field_text(stripped)) by {
        assert forall|i: int| 0 <= i < stripped.len() implies (#[trigger] stripped[i] == '\t' || (
        stripped[i] >= ' ' && stripped[i] != '\x7f')) by {
            assert(stripped[i] == host[i]);
        }
    }
    assert(is_field_text(port)) by {
        assert(all_digits(port));
    }
    let middle = if https_port == 443 {
        Seq::empty()
    } else {
        ":"@ + port
    };
    field_text_joined(":"@, port);
    field_text_joined("https://"@, stripped);
    field_text_joined("https://"@ + stripped, middle);
    field_text_joined("https://"@ + stripped + middle, path_and_query);
    assert(location_of(host, 443, path_and_query) =~= "https://"@ + stripped + path_and_query);
}

proof fn field_text_joined(a: Seq<char>, b: Seq<char>)
    requires
        is_field_text(a),
        is_field_text(b),
    ensures
        is_field_text(a + b),
{
    let whole = a + b;
    assert forall|i: int| 0 <= i < whole.len() implies (#[trigger] whole[i] == '\t' || (whole[i]
        >= ' ' && whole[i] != '\x7f')) by {
        if i < a.len() {
            assert(whole[i] == a[i]);
        } else {
            assert(whole[i] == b[i - a.len()]);
        }
    }
}

pub(crate) proof fn place_of_bounds(rules: Seq<RuleModel>, rule: RuleModel)
    ensures
        0 <= place_of(rules, rule) <= rules.len(),
        forall|i: int|
            0 <= i < place_of(rules, rule) ==> prefix_len(#[trigger] rules[i]) >= prefix_len(rule),
        place_of(rules, rule) < rules.len() ==> prefix_len(rules[place_of(rules, rule)]) < prefix_len(
            rule,
        ),
    decreases rules.len(),
{
    if rules.len() > 0 && prefix_len(rules[0]) >= prefix_len(rule) {
        place_of_bounds(rules.skip(1), rule);
        assert forall|i: int| 0 <= i < place_of(rules, rule) implies prefix_len(#[trigger] rules[i])
            >= prefix_len(rule) by {
            if i > 0 {
                assert(rules.skip(1)[i - 1] == rules[i]);
            }
        }
    }
}

/// The first match among rules in order, once another rule is put in its place.
proof fn match_after_insert(rules: Seq<RuleModel>, rule: RuleModel, path: Seq<char>)
    requires
        longest_first(rules),
    ensures
        first_match(rules.insert(place_of(rules, rule), rule), path) == ({
            let best = first_match(rules, path);
            if rule_matches(rule.key, path) && (best is None || prefix_len(best->0) < prefix_len(rule)) {
                Some(rule)
            } else {
                best
            }
        }),
    decreases rules.len(),
{
    let at = place_of(rules, rule);
    place_of_bounds(rules, rule);
    let after = rules.insert(at, rule);
    if at == 0 {
        assert(after[0] == rule);
        assert(after.skip(1) =~= rules);
        if first_match(rules, path) is Some {
            first_match_is_no_longer(rules, path);
        }
    } else {
        let rest = rules.skip(1);
        assert(after[0] == rules[0]);
        assert(after.skip(1) =~= rest.insert(at - 1, rule));
        assert forall|i: int, j: int| 0 <= i < j < rest.len() implies prefix_len(#[trigger] rest[i])
            >= prefix_len(#[trigger] rest[j]) by {
            assert(rest[i] == rules[i + 1] && rest[j] == rules[j + 1]);
        }
        match_after_insert(rest, rule, path);
    }
}

/// No match is longer than the first of the rules in order.
proof fn first_match_is_no_longer(rules: Seq<RuleModel>, path: Seq<char>)
    requires
        longest_first(rules),
        first_match(rules, path) is Some,
    ensures
        prefix_len(first_match(rules, path)->0) <= prefix_len(rules[0]),
    decreases rules.len(),
{
    if !rule_matches(rules[0].key, path) {
        let rest = rules.skip(1);
        assert forall|i: int, j: int| 0 <= i < j < rest.len() implies prefix_len(#[trigger] rest[i])
            >= prefix_len(#[trigger] rest[j]) by {
            assert(rest[i] == rules[i + 1] && rest[j] == rules[j + 1]);
        }
        first_match_is_no_longer(rest, path);
        assert(rest[0] == rules[1]);
        assert(prefix_len(rules[0]) >= prefix_len(rules[1]));
    }
}

proof fn encoded_len_joined(a: Seq<char>, b: Seq<char>)
    ensures
        encode_utf8(a + b).len() == encode_utf8(a).len() + encode_utf8(b).len(),
    decreases a.len(),
{
    if a.len() == 0 {
        assert(a + b =~= b);
    } else {
        assert((a + b).drop_first() =~= a.drop_first() + b);
        encoded_len_joined(a.drop_first(), b);
    }
}

proof fn encoded_len_min(a: Seq<char>)
    ensures
        encode_utf8(a).len() >= a.len(),
    decreases a.len(),
{
    if a.len() > 0 {
        encoded_len_min(a.drop_first());
    }
}

/// Of two keys that match a path, the one with the longer prefix has that of more
/// bytes.
proof fn longer_prefix_more_bytes(short: Seq<char>, long: Seq<char>, path: Seq<char>)
    requires
        rule_matches(short, path),
        rule_matches(long, path),
        trim_slashes(short).len() < trim_slashes(long).len(),
    ensures
        encode_utf8(trim_slashes(short)).len() < encode_utf8(trim_slashes(long)).len(),
{
    let a = trim_slashes(short);
    let b = trim_slashes(long);
    crate::proxy::matching_path_begins_with_key(short, path);
    crate::proxy::matching_path_begins_with_key(long, path);
    assert forall|i: int| 0 <= i < a.len() implies a[i] == b[i] by {
        assert(a[i] == path.subrange(0, a.len() as int)[i]);
        assert(b[i] == path.subrange(0, b.len() as int)[i]);
    }
    let rest = b.skip(a.len() as int);
    assert(b =~= a + rest);
    encoded_len_joined(a, rest);
    encoded_len_min(rest);
}

proof fn first_at_lower(s: Seq<char>, c: char)
    requires
        c == ':' || c == ']',
    ensures
        first_at(lower(s), c) == first_at(s, c),
{
    first_at_bounds(s, c);
    let i = first_at(s, c);
    let low = lower(s);
    assert forall|j: int| 0 <= j < i implies low[j] != c by {
        assert(s[j] != c);
        assert(low[j] == lower_char(s[j]));
    }
    first_at_is(low, c, i);
}

proof fn first_named_facts(hosts: Seq<SiteModel>, name: Seq<char>, j: int)
    ensures
        0 <= first_named(hosts, name) <= hosts.len(),
        first_named(hosts, name) < hosts.len() ==> hosts[first_named(hosts, name)].names.contains(
            name,
        ),
        0 <= j < hosts.len() && hosts[j].names.contains(name) ==> first_named(hosts, name) <= j,
    decreases hosts.len(),
{
    if hosts.len() > 0 && !hosts[0].names.contains(name) {
        first_named_facts(hosts.skip(1), name, j - 1);
        if 0 < j < hosts.len() {
            assert(hosts.skip(1)[j - 1] == hosts[j]);
        }
    }
}

proof fn sites_follow_hosts(hosts: Seq<HostModel>, i: int)
    requires
        0 <= i < hosts.len(),
    ensures
        sites_of(hosts) matches Ok(sites) ==> {
            &&& sites.len() == hosts.len()
            &&& rules_of(hosts[i].proxy) matches Ok(rules)
            &&& sites[i] == site_with(hosts[i], rules)
        },
    decreases hosts.len(),
{
    reveal_with_fuel(sites_of, 2);
    if hosts.len() > 1 {
        sites_follow_hosts(hosts.drop_last(), if i < hosts.len() - 1 {
            i
        } else {
            0
        });
    }
    if i < hosts.len() - 1 {
        assert(hosts.drop_last()[i] == hosts[i]);
    }
}

} // verus!
