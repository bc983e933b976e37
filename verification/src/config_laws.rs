//! What holds of every configuration document.

use crate::config::blank;
use crate::config::blank_host;
use crate::config::config_of;
use crate::config::distinct_names;
use crate::config::finished;
use crate::config::is_valid;
use crate::config::loaded;
use crate::config::read_from;
use crate::config::validity;
use crate::config::with_token;
use crate::config::DraftModel;
use crate::config::Fault;
use crate::config::HostModel;
use crate::config::WebModel;
use crate::text::decimal_of;
use crate::text::lower;
use crate::text::port_round_trip;
use crate::xml::attr_of;
use crate::xml::Tag;
use crate::xml::Token;
use vstd::prelude::*;

verus! {

/// An element with one attribute and no content.
pub open spec fn element1(name: Seq<char>, key: Seq<char>, value: Seq<char>) -> Token {
    Token::Empty(Tag { name, attributes: seq![Some((key, value))] })
}

/// An element with two attributes and no content.
pub open spec fn element2(
    name: Seq<char>,
    key1: Seq<char>,
    value1: Seq<char>,
    key2: Seq<char>,
    value2: Seq<char>,
) -> Token {
    Token::Empty(Tag { name, attributes: seq![Some((key1, value1)), Some((key2, value2))] })
}

/// The `<ports>` element of a configuration.
pub open spec fn ports_written(config: WebModel) -> Token {
    let http = decimal_of(config.http_port as nat);
    match config.https_port {
        Some(port) => element2("ports"@, "http"@, http, "https"@, decimal_of(port as nat)),
        None => element1("ports"@, "http"@, http),
    }
}

/// The `<name>` elements of a host.
pub open spec fn names_written(names: Seq<Seq<char>>) -> Seq<Token> {
    names.map_values(|name: Seq<char>| element1("name"@, "value"@, name))
}

/// The `<ssl>` element of a host, if it has one.
pub open spec fn ssl_written(ssl: Option<(Seq<char>, Seq<char>)>) -> Seq<Token> {
    match ssl {
        Some((cert, key)) => seq![element2("ssl"@, "cert"@, cert, "key"@, key)],
        None => Seq::empty(),
    }
}

/// The `<proxy>` elements of a host.
pub open spec fn proxy_written(proxy: Seq<(Seq<char>, Seq<char>)>) -> Seq<Token> {
    proxy.map_values(
        |rule: (Seq<char>, Seq<char>)| element2("proxy"@, "path"@, rule.0, "target"@, rule.1),
    )
}

/// The `<host>` element of a host, with all that it contains.
pub open spec fn host_written(host: HostModel) -> Seq<Token> {
    seq![Token::Start(Tag { name: "host"@, attributes: Seq::empty() })] + names_written(host.names)
        + ssl_written(host.ssl) + seq![element1("webroot"@, "value"@, host.webroot)]
        + proxy_written(host.proxy) + seq![Token::End("host"@)]
}

/// The `<host>` elements of a configuration.
pub open spec fn hosts_written(hosts: Seq<HostModel>) -> Seq<Token>
    decreases hosts.len(),
{
    if hosts.len() == 0 {
        Seq::empty()
    } else {
        hosts_written(hosts.drop_last()) + host_written(hosts.last())
    }
}

/// The document that describes a configuration.
pub open spec fn written(config: WebModel) -> Seq<Token> {
    seq![Token::Start(Tag { name: "web"@, attributes: Seq::empty() }), ports_written(config)]
        + hosts_written(config.hosts) + seq![Token::End("web"@), Token::Eof]
}

/// Every server name is in lower case.
pub open spec fn names_lowered(hosts: Seq<HostModel>) -> bool {
    forall|i: int, j: int|
        0 <= i < hosts.len() && 0 <= j < hosts[i].names.len() ==> lower(
            #[trigger] hosts[i].names[j],
        ) == hosts[i].names[j]
}

/// A token that the gateway passes over: anything between elements, and the
/// elements that it does not know.
pub open spec fn is_passed_over(token: Token) -> bool {
    match token {
        Token::Start(tag) => !is_known(tag.name),
        Token::Empty(tag) => !is_known(tag.name),
        Token::End(name) => name != "host"@,
        Token::Other => true,
        Token::Eof => false,
        Token::Malformed(_) => false,
    }
}

/// The elements that the gateway knows.
pub open spec fn is_known(name: Seq<char>) -> bool {
    ||| name == "ports"@
    ||| name == "host"@
    ||| name == "name"@
    ||| name == "ssl"@
    ||| name == "webroot"@
    ||| name == "proxy"@
}

/// The document that describes a configuration is read back as that configuration.
pub proof fn config_round_trip(config: WebModel)
    requires
        names_lowered(config.hosts),
    ensures
        config_of(written(config)) == Ok::<WebModel, Fault>(config),
{
    distinct_names();
    port_round_trip(config.http_port);
    reveal_with_fuel(attr_of, 3);
    assert("http"@ != "https"@) by {
        reveal_strlit("http");
        reveal_strlit("https");
        assert("http"@.len() != "https"@.len());
    }
    let web = Token::Start(Tag { name: "web"@, attributes: Seq::empty() });
    let ports = ports_written(config);
    let hosts = hosts_written(config.hosts);
    let tail = seq![Token::End("web"@), Token::Eof];
    let tokens = written(config);
    let opened = DraftModel {
        http_port: Some(config.http_port),
        https_port: config.https_port,
        hosts: Seq::empty(),
        host: None,
    };
    if let Some(port) = config.https_port {
        port_round_trip(port);
        let attributes = ports->Empty_0.attributes;
        assert(attributes.skip(1)[0] == attributes[1]);
        assert(attr_of(attributes, "http"@) == Some(decimal_of(config.http_port as nat)));
        assert(attr_of(attributes, "https"@) == Some(decimal_of(port as nat)));
    } else {
        let attributes = ports->Empty_0.attributes;
        assert(attr_of(attributes, "http"@) == Some(decimal_of(config.http_port as nat)));
        assert(attr_of(attributes.skip(1), "https"@) is None);
        assert(attr_of(attributes, "https"@) is None);
    }
    assert(with_token(blank(), web) == Ok::<DraftModel, Fault>(blank()));
    assert(with_token(blank(), ports) == Ok::<DraftModel, Fault>(opened));
    assert(tokens[0] == web && tokens[1] == ports);
    assert(tokens.skip(1)[0] == ports);
    assert(tokens.skip(1).skip(1) =~= hosts + tail);
    assert(read_from(blank(), tokens) == read_from(blank(), tokens.skip(1)));
    assert(read_from(blank(), tokens.skip(1)) == read_from(opened, tokens.skip(1).skip(1)));
    hosts_read_back(opened, config.hosts);
    let done = DraftModel { hosts: config.hosts, ..opened };
    assert(opened.hosts + config.hosts =~= config.hosts);
    read_then(opened, hosts, tail);
    assert(tail.skip(1)[0] == Token::Eof);
    assert(read_from(done, tail) == read_from(done, tail.skip(1)));
    assert(read_from(done, tail.skip(1)) == finished(done));
}

/// What the gateway passes over does not change what a document describes.
pub proof fn passed_over(before: Seq<Token>, token: Token, after: Seq<Token>)
    requires
        is_passed_over(token),
    ensures
        config_of(before + seq![token] + after) == config_of(before + after),
{
    passed_over_from(blank(), before, token, after);
}

/// `<host/>` is a host with nothing in it, as `<host></host>` is.
pub proof fn empty_host(before: Seq<Token>, tag: Tag, after: Seq<Token>)
    requires
        tag.name == "host"@,
    ensures
        config_of(before + seq![Token::Empty(tag)] + after) == config_of(
            before + seq![Token::Start(tag), Token::End("host"@)] + after,
        ),
{
    empty_host_from(blank(), before, tag, after);
}

/// A configuration that is loaded can be run with: there is a host, every host
/// has a name, and every host has a certificate when HTTPS is enabled.
pub proof fn loaded_is_valid(tokens: Seq<Token>)
    ensures
        loaded(tokens) matches Ok(config) ==> is_valid(config) && config_of(tokens) == Ok::<
            WebModel,
            Fault,
        >(config),
        loaded(tokens) is Ok <==> (config_of(tokens) matches Ok(config) && is_valid(config)),
{
    if let Ok(config) = config_of(tokens) {
        validity(config);
    }
}

/// A configuration that can be run with is loaded from the document that describes it.
pub proof fn load_round_trip(config: WebModel)
    requires
        names_lowered(config.hosts),
        is_valid(config),
    ensures
        loaded(written(config)) == Ok::<WebModel, Fault>(config),
{
    config_round_trip(config);
    validity(config);
}

/// Every server name of a configuration that is read is in lower case.
pub proof fn read_names_lowered(tokens: Seq<Token>)
    ensures
        config_of(tokens) matches Ok(config) ==> names_lowered(config.hosts),
{
    names_lowered_from(blank(), tokens);
}

proof fn passed_over_from(draft: DraftModel, before: Seq<Token>, token: Token, after: Seq<Token>)
    requires
        is_passed_over(token),
    ensures
        read_from(draft, before + seq![token] + after) == read_from(draft, before + after),
    decreases before.len(),
{
    let long = before + seq![token] + after;
    let short = before + after;
    if before.len() == 0 {
        assert(long[0] == token);
        assert(long.skip(1) =~= short);
        assert(with_token(draft, token) == Ok::<DraftModel, Fault>(draft));
    } else {
        assert(long[0] == before[0] && short[0] == before[0]);
        assert(long.skip(1) =~= before.skip(1) + seq![token] + after);
        assert(short.skip(1) =~= before.skip(1) + after);
        if let Ok(next) = with_token(draft, before[0]) {
            passed_over_from(next, before.skip(1), token, after);
        }
    }
}

proof fn empty_host_from(draft: DraftModel, before: Seq<Token>, tag: Tag, after: Seq<Token>)
    requires
        tag.name == "host"@,
    ensures
        read_from(draft, before + seq![Token::Empty(tag)] + after) == read_from(
            draft,
            before + seq![Token::Start(tag), Token::End("host"@)] + after,
        ),
    decreases before.len(),
{
    let short = before + seq![Token::Empty(tag)] + after;
    let long = before + seq![Token::Start(tag), Token::End("host"@)] + after;
    distinct_names();
    if before.len() == 0 {
        assert(short[0] == Token::Empty(tag));
        assert(short.skip(1) =~= after);
        assert(long[0] == Token::Start(tag));
        assert(long.skip(1)[0] == Token::End("host"@));
        assert(long.skip(1).skip(1) =~= after);
        if draft.host is None {
            let open = DraftModel { host: Some(blank_host()), ..draft };
            let done = DraftModel { hosts: draft.hosts.push(blank_host()), ..draft };
            assert(with_token(draft, long[0]) == Ok::<DraftModel, Fault>(open));
            assert(with_token(open, long[1]) == Ok::<DraftModel, Fault>(done));
            assert(with_token(draft, short[0]) == Ok::<DraftModel, Fault>(done));
            assert(read_from(open, long.skip(1)) == read_from(done, after));
        }
    } else {
        assert(short[0] == before[0] && long[0] == before[0]);
        assert(short.skip(1) =~= before.skip(1) + seq![Token::Empty(tag)] + after);
        assert(long.skip(1) =~= before.skip(1) + seq![Token::Start(tag), Token::End("host"@)]
            + after);
        if let Ok(next) = with_token(draft, before[0]) {
            empty_host_from(next, before.skip(1), tag, after);
        }
    }
}

/// The hosts of a draft, the open one last.
spec fn all_hosts(draft: DraftModel) -> Seq<HostModel> {
    match draft.host {
        Some(host) => draft.hosts.push(host),
        None => draft.hosts,
    }
}

proof fn names_lowered_from(draft: DraftModel, tokens: Seq<Token>)
    requires
        names_lowered(all_hosts(draft)),
    ensures
        read_from(draft, tokens) matches Ok(config) ==> names_lowered(config.hosts),
    decreases tokens.len(),
{
    if tokens.len() > 0 && !(tokens[0] is Eof) {
        if let Ok(next) = with_token(draft, tokens[0]) {
            assert(names_lowered(all_hosts(next))) by {
                names_lowered_step(draft, tokens[0]);
            }
            names_lowered_from(next, tokens.skip(1));
        }
    }
}

proof fn names_lowered_step(draft: DraftModel, token: Token)
    requires
        names_lowered(all_hosts(draft)),
    ensures
        with_token(draft, token) matches Ok(next) ==> names_lowered(all_hosts(next)),
{
    if let Ok(next) = with_token(draft, token) {
        let old_hosts = all_hosts(draft);
        let new_hosts = all_hosts(next);
        assert forall|i: int, j: int|
            0 <= i < new_hosts.len() && 0 <= j < new_hosts[i].names.len() implies lower(
            #[trigger] new_hosts[i].names[j],
        ) == new_hosts[i].names[j] by {
            if i < old_hosts.len() && j < old_hosts[i].names.len() {
                assert(lower(old_hosts[i].names[j]) == old_hosts[i].names[j]);
            } else {
                let tag = if token is Start { token->Start_0 } else { token->Empty_0 };
                if let Some(value) = attr_of(tag.attributes, "value"@) {
                    crate::text::lower_idempotent(value);
                }
            }
        }
    }
}

/// Reading all of `tokens` into a draft.
spec fn advanced(draft: DraftModel, tokens: Seq<Token>) -> Result<DraftModel, Fault>
    decreases tokens.len(),
{
    if tokens.len() == 0 {
        Ok(draft)
    } else {
        match with_token(draft, tokens[0]) {
            Ok(next) => advanced(next, tokens.skip(1)),
            Err(fault) => Err(fault),
        }
    }
}

spec fn no_end(tokens: Seq<Token>) -> bool {
    forall|i: int| 0 <= i < tokens.len() ==> !(#[trigger] tokens[i] is Eof)
}

proof fn read_then(draft: DraftModel, first: Seq<Token>, rest: Seq<Token>)
    requires
        no_end(first),
    ensures
        read_from(draft, first + rest) == (match advanced(draft, first) {
            Ok(next) => read_from(next, rest),
            Err(fault) => Err(fault),
        }),
    decreases first.len(),
{
    let all = first + rest;
    if first.len() == 0 {
        assert(all =~= rest);
    } else {
        assert(all[0] == first[0]);
        assert(all.skip(1) =~= first.skip(1) + rest);
        if let Ok(next) = with_token(draft, first[0]) {
            assert forall|i: int| 0 <= i < first.skip(1).len() implies !(#[trigger] first.skip(
                1,
            )[i] is Eof) by {
                assert(!(first[i + 1] is Eof));
            }
            read_then(next, first.skip(1), rest);
        }
    }
}

proof fn advanced_then(draft: DraftModel, first: Seq<Token>, rest: Seq<Token>)
    ensures
        advanced(draft, first + rest) == (match advanced(draft, first) {
            Ok(next) => advanced(next, rest),
            Err(fault) => Err(fault),
        }),
    decreases first.len(),
{
    let all = first + rest;
    if first.len() == 0 {
        assert(all =~= rest);
    } else {
        assert(all[0] == first[0]);
        assert(all.skip(1) =~= first.skip(1) + rest);
        if let Ok(next) = with_token(draft, first[0]) {
            advanced_then(next, first.skip(1), rest);
        }
    }
}

proof fn advanced_one(draft: DraftModel, token: Token)
    ensures
        advanced(draft, seq![token]) == with_token(draft, token),
{
    let tokens = seq![token];
    if let Ok(next) = with_token(draft, token) {
        assert(tokens.skip(1).len() == 0);
        assert(advanced(next, tokens.skip(1)) == Ok::<DraftModel, Fault>(next));
    }
}

proof fn names_read_back(draft: DraftModel, host: HostModel, names: Seq<Seq<char>>)
    requires
        draft.host == Some(host),
        forall|j: int| 0 <= j < names.len() ==> lower(#[trigger] names[j]) == names[j],
    ensures
        advanced(draft, names_written(names)) == Ok::<DraftModel, Fault>(
            DraftModel {
                host: Some(HostModel { names: host.names + names, ..host }),
                ..draft
            },
        ),
        no_end(names_written(names)),
    decreases names.len(),
{
    let tokens = names_written(names);
    if names.len() == 0 {
        assert(host.names + names =~= host.names);
    } else {
        distinct_names();
        let name = names[0];
        assert(tokens[0] == element1("name"@, "value"@, name));
        assert(attr_of(tokens[0]->Empty_0.attributes, "value"@) == Some(name));
        let next_host = HostModel { names: host.names.push(name), ..host };
        let next = DraftModel { host: Some(next_host), ..draft };
        assert(lower(names[0]) == name);
        assert(with_token(draft, tokens[0]) == Ok::<DraftModel, Fault>(next));
        assert(tokens.skip(1) =~= names_written(names.skip(1)));
        assert forall|j: int| 0 <= j < names.skip(1).len() implies lower(
            #[trigger] names.skip(1)[j],
        ) == names.skip(1)[j] by {
            assert(lower(names[j + 1]) == names[j + 1]);
        }
        names_read_back(next, next_host, names.skip(1));
        assert(host.names.push(name) + names.skip(1) =~= host.names + names);
    }
}

proof fn proxy_read_back(draft: DraftModel, host: HostModel, proxy: Seq<(Seq<char>, Seq<char>)>)
    requires
        draft.host == Some(host),
    ensures
        advanced(draft, proxy_written(proxy)) == Ok::<DraftModel, Fault>(
            DraftModel {
                host: Some(HostModel { proxy: host.proxy + proxy, ..host }),
                ..draft
            },
        ),
        no_end(proxy_written(proxy)),
    decreases proxy.len(),
{
    let tokens = proxy_written(proxy);
    if proxy.len() == 0 {
        assert(host.proxy + proxy =~= host.proxy);
    } else {
        distinct_names();
        let rule = proxy[0];
        assert(tokens[0] == element2("proxy"@, "path"@, rule.0, "target"@, rule.1));
        two_attributes(tokens[0], "path"@, rule.0, "target"@, rule.1);
        let next_host = HostModel { proxy: host.proxy.push(rule), ..host };
        let next = DraftModel { host: Some(next_host), ..draft };
        assert(with_token(draft, tokens[0]) == Ok::<DraftModel, Fault>(next));
        assert(tokens.skip(1) =~= proxy_written(proxy.skip(1)));
        proxy_read_back(next, next_host, proxy.skip(1));
        assert(host.proxy.push(rule) + proxy.skip(1) =~= host.proxy + proxy);
    }
}

proof fn two_attributes(
    token: Token,
    key1: Seq<char>,
    value1: Seq<char>,
    key2: Seq<char>,
    value2: Seq<char>,
)
    requires
        token is Empty,
        token->Empty_0.attributes == seq![Some((key1, value1)), Some((key2, value2))],
        (key1 == "path"@ && key2 == "target"@) || (key1 == "cert"@ && key2 == "key"@),
    ensures
        attr_of(token->Empty_0.attributes, key1) == Some(value1),
        attr_of(token->Empty_0.attributes, key2) == Some(value2),
{
    reveal_strlit("path");
    reveal_strlit("target");
    reveal_strlit("cert");
    reveal_strlit("key");
    let attributes = token->Empty_0.attributes;
    assert(key1.len() != key2.len());
    assert(attributes.skip(1)[0] == attributes[1]);
    assert(attr_of(attributes.skip(1), key2) == Some(value2));
}

proof fn host_read_back(draft: DraftModel, host: HostModel)
    requires
        draft.host is None,
        forall|j: int| 0 <= j < host.names.len() ==> lower(#[trigger] host.names[j])
            == host.names[j],
    ensures
        advanced(draft, host_written(host)) == Ok::<DraftModel, Fault>(
            DraftModel { hosts: draft.hosts.push(host), ..draft },
        ),
        no_end(host_written(host)),
{
    distinct_names();
    let t0 = seq![Token::Start(Tag { name: "host"@, attributes: Seq::empty() })];
    let t1 = names_written(host.names);
    let t2 = ssl_written(host.ssl);
    let t3 = seq![element1("webroot"@, "value"@, host.webroot)];
    let t4 = proxy_written(host.proxy);
    let t5 = seq![Token::End("host"@)];
    let h0 = blank_host();
    let h1 = HostModel { names: host.names, ..h0 };
    let h2 = HostModel { ssl: host.ssl, ..h1 };
    let h3 = HostModel { webroot: host.webroot, ..h2 };
    let d0 = DraftModel { host: Some(h0), ..draft };
    let d1 = DraftModel { host: Some(h1), ..draft };
    let d2 = DraftModel { host: Some(h2), ..draft };
    let d3 = DraftModel { host: Some(h3), ..draft };
    let d4 = DraftModel { host: Some(host), ..draft };
    advanced_one(draft, t0[0]);
    names_read_back(d0, h0, host.names);
    assert(h0.names + host.names =~= host.names);
    advanced_then(draft, t0, t1);
    assert(advanced(draft, t0 + t1) == Ok::<DraftModel, Fault>(d1));
    if let Some((cert, key)) = host.ssl {
        two_attributes(t2[0], "cert"@, cert, "key"@, key);
        advanced_one(d1, t2[0]);
    }
    assert(advanced(d1, t2) == Ok::<DraftModel, Fault>(d2));
    advanced_then(draft, t0 + t1, t2);
    assert(attr_of(t3[0]->Empty_0.attributes, "value"@) == Some(host.webroot));
    advanced_one(d2, t3[0]);
    advanced_then(draft, t0 + t1 + t2, t3);
    assert(advanced(draft, t0 + t1 + t2 + t3) == Ok::<DraftModel, Fault>(d3));
    proxy_read_back(d3, h3, host.proxy);
    assert(h3.proxy + host.proxy =~= host.proxy);
    advanced_then(draft, t0 + t1 + t2 + t3, t4);
    assert(advanced(draft, t0 + t1 + t2 + t3 + t4) == Ok::<DraftModel, Fault>(d4));
    advanced_one(d4, t5[0]);
    advanced_then(draft, t0 + t1 + t2 + t3 + t4, t5);
}

proof fn hosts_read_back(draft: DraftModel, hosts: Seq<HostModel>)
    requires
        draft.host is None,
        names_lowered(hosts),
    ensures
        advanced(draft, hosts_written(hosts)) == Ok::<DraftModel, Fault>(
            DraftModel { hosts: draft.hosts + hosts, ..draft },
        ),
        no_end(hosts_written(hosts)),
    decreases hosts.len(),
{
    if hosts.len() == 0 {
        assert(draft.hosts + hosts =~= draft.hosts);
    } else {
        let first = hosts.drop_last();
        let last = hosts.last();
        assert forall|i: int, j: int|
            0 <= i < first.len() && 0 <= j < first[i].names.len() implies lower(
            #[trigger] first[i].names[j],
        ) == first[i].names[j] by {
            assert(lower(hosts[i].names[j]) == hosts[i].names[j]);
        }
        hosts_read_back(draft, first);
        let next = DraftModel { hosts: draft.hosts + first, ..draft };
        assert forall|j: int| 0 <= j < last.names.len() implies lower(#[trigger] last.names[j])
            == last.names[j] by {
            assert(lower(hosts[hosts.len() - 1].names[j]) == hosts[hosts.len() - 1].names[j]);
        }
        host_read_back(next, last);
        advanced_then(draft, hosts_written(first), host_written(last));
        assert((draft.hosts + first).push(last) =~= draft.hosts + hosts);
    }
}

} // verus!
