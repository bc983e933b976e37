//! What holds of the certificates that TLS clients are shown.

use crate::config::HostModel;
use crate::sni::certificate_by_name;
use crate::sni::is_shown_for;
use crate::sni::parts_of;
use crate::sni::with_hosts;
use crate::sni::FilesModel;
use crate::text::lower;
use crate::tls::certs_outcome;
use crate::tls::is_name_of;
use crate::tls::is_valid_for;
use crate::tls::key_outcome;
use crate::tls::names_share_certificate;
use crate::tls::pem_certs;
use crate::tls::pem_key;
use crate::tls::tls_fault_text;
use crate::tls::with_names;
use crate::tls::KeyModel;
use crate::tls::TlsFault;
use vstd::prelude::*;

verus! {

/// A certificate file gives exactly the certificates in it, in their order; one
/// that is malformed or holds none is refused.
pub proof fn chain_is_the_file(chain: Seq<Seq<u8>>)
    ensures
        chain.len() > 0 ==> certs_outcome(Some(chain)) == Ok::<Seq<Seq<u8>>, TlsFault>(chain),
        chain.len() == 0 ==> certs_outcome(Some(chain)) == Err::<Seq<Seq<u8>>, TlsFault>(
            TlsFault::NoCertificates,
        ),
        certs_outcome(None) == Err::<Seq<Seq<u8>>, TlsFault>(TlsFault::MalformedCerts),
{
}

/// A key file gives the key in it as it is; one that is malformed or holds none is
/// refused.
pub proof fn key_is_the_file(key: KeyModel)
    ensures
        key_outcome(Some(Some(key))) == Ok::<KeyModel, TlsFault>(key),
        key_outcome(Some(None)) == Err::<KeyModel, TlsFault>(TlsFault::NoPrivateKey),
        key_outcome(None) == Err::<KeyModel, TlsFault>(TlsFault::MalformedKey),
{
}

/// A host has the certificates of its certificate file, first one first, and the
/// key of its key file.
pub proof fn parts_of_files(cert: Seq<u8>, key: Seq<u8>, chain: Seq<Seq<u8>>, private: KeyModel)
    requires
        pem_certs(cert) == Some(chain),
        chain.len() > 0,
        pem_key(key) == Some(Some(private)),
    ensures
        parts_of(FilesModel { cert: Some(cert), key: Some(key) }) == Ok::<
            (Seq<Seq<u8>>, KeyModel),
            TlsFault,
        >((chain, private)),
{
    chain_is_the_file(chain);
    key_is_the_file(private);
}

/// The faults of a host's files are looked for in this order: whether the
/// certificate file can be read, what it holds, whether the key file can be read,
/// what it holds.
pub proof fn faults_of_files(files: FilesModel)
    ensures
        files.cert is None ==> parts_of(files) == Err::<(Seq<Seq<u8>>, KeyModel), TlsFault>(
            TlsFault::UnreadableCerts,
        ),
        files.cert matches Some(cert) ==> {
            &&& pem_certs(cert) is None ==> parts_of(files) == Err::<
                (Seq<Seq<u8>>, KeyModel),
                TlsFault,
            >(TlsFault::MalformedCerts)
            &&& pem_certs(cert) matches Some(chain) ==> {
                &&& chain.len() == 0 ==> parts_of(files) == Err::<
                    (Seq<Seq<u8>>, KeyModel),
                    TlsFault,
                >(TlsFault::NoCertificates)
                &&& chain.len() > 0 && files.key is None ==> parts_of(files) == Err::<
                    (Seq<Seq<u8>>, KeyModel),
                    TlsFault,
                >(TlsFault::UnreadableKey)
                &&& chain.len() > 0 ==> (files.key matches Some(key) ==> {
                    &&& pem_key(key) is None ==> parts_of(files) == Err::<
                        (Seq<Seq<u8>>, KeyModel),
                        TlsFault,
                    >(TlsFault::MalformedKey)
                    &&& pem_key(key) == Some(None::<KeyModel>) ==> parts_of(files) == Err::<
                        (Seq<Seq<u8>>, KeyModel),
                        TlsFault,
                    >(TlsFault::NoPrivateKey)
                })
            }
        },
{
}

/// The first name that a certificate is not valid for is refused; the names before
/// it have been given the certificate, and nothing else has changed.
pub proof fn first_refused_name(
    all: Map<Seq<char>, (Seq<Seq<u8>>, KeyModel)>,
    names: Seq<Seq<char>>,
    parts: (Seq<Seq<u8>>, KeyModel),
    i: int,
    name: Seq<char>,
)
    requires
        0 <= i < names.len(),
        !is_valid_for(parts.0, names[i]),
        forall|j: int| 0 <= j < i ==> is_valid_for(parts.0, #[trigger] names[j]),
    ensures
        with_names(all, names, parts).0 == Err::<(), TlsFault>(TlsFault::RejectedName(names[i])),
        ({
            let shown = with_names(all, names, parts).1;
            if is_name_of(names.take(i), name) {
                shown.dom().contains(name) && shown[name] == parts
            } else {
                (shown.dom().contains(name) <==> all.dom().contains(name)) && shown[name]
                    == all[name]
            }
        }),
    decreases names.len(),
{
    let first = names.drop_last();
    assert forall|j: int| 0 <= j < i implies is_valid_for(parts.0, #[trigger] first[j]) by {
        assert(first[j] == names[j]);
    }
    if i < first.len() {
        assert(first[i] == names[i]);
        assert(first.take(i) =~= names.take(i));
        first_refused_name(all, first, parts, i, name);
    } else {
        assert(first =~= names.take(i));
        names_share_certificate(all, first, parts, name);
    }
}

/// A name is one of a host's names exactly if it is the lower-case form of one.
pub proof fn names_in_any_case(names: Seq<Seq<char>>, i: int)
    requires
        0 <= i < names.len(),
    ensures
        is_name_of(names, lower(names[i])),
{
}

/// A text that is the lower-case form of none of the names is no name of a host.
pub proof fn no_other_names(names: Seq<Seq<char>>, name: Seq<char>)
    requires
        forall|i: int| 0 <= i < names.len() ==> lower(#[trigger] names[i]) != name,
    ensures
        !is_name_of(names, name),
{
}

/// A host that is configured without a certificate changes nothing, whatever its
/// names and files.
pub proof fn host_without_certificate(
    hosts: Seq<HostModel>,
    host: HostModel,
    files: Seq<FilesModel>,
)
    requires
        host.ssl is None,
    ensures
        with_hosts(hosts.push(host), files) == with_hosts(hosts, files),
        with_hosts(Seq::empty(), files) == Ok::<_, (int, TlsFault)>(
            Map::<Seq<char>, (Seq<Seq<u8>>, KeyModel)>::empty(),
        ),
{
    assert(hosts.push(host).drop_last() =~= hosts);
}

/// A host that is configured with a certificate is given it after all hosts before
/// it, under each of its names.
pub proof fn host_with_certificate(
    hosts: Seq<HostModel>,
    host: HostModel,
    files: Seq<FilesModel>,
    parts: (Seq<Seq<u8>>, KeyModel),
    name: Seq<char>,
)
    requires
        host.ssl is Some,
        with_hosts(hosts, files) is Ok,
        parts_of(files[hosts.len() as int]) == Ok::<_, TlsFault>(parts),
        forall|i: int| 0 <= i < host.names.len() ==> is_valid_for(parts.0, #[trigger] host.names[i]),
    ensures
        with_hosts(hosts.push(host), files) matches Ok(shown) && ({
            let before = with_hosts(hosts, files)->Ok_0;
            if is_name_of(host.names, name) {
                shown.dom().contains(name) && shown[name] == parts
            } else {
                (shown.dom().contains(name) <==> before.dom().contains(name)) && shown[name]
                    == before[name]
            }
        }),
{
    assert(hosts.push(host).drop_last() =~= hosts);
    names_share_certificate(with_hosts(hosts, files)->Ok_0, host.names, parts, name);
}

/// A refusal names what is refused and why.
pub proof fn refusals_are_explained(text: Seq<char>)
    ensures
        tls_fault_text(TlsFault::RejectedName(text)) == "cannot use certificate for name "@ + text,
        tls_fault_text(TlsFault::UnsupportedKey(text)) == "unsupported key: "@ + text,
{
}

/// A client that asks for a name of a host is shown the certificates in that host's
/// own file, in their order, with that host's own key; of several hosts with the
/// name, the last one counts.
pub proof fn own_chain_is_shown(
    hosts: Seq<HostModel>,
    files: Seq<FilesModel>,
    i: int,
    j: int,
    cert: Seq<u8>,
    key: Seq<u8>,
)
    requires
        with_hosts(hosts, files) is Ok,
        0 <= i < hosts.len(),
        hosts[i].ssl is Some,
        0 <= j < hosts[i].names.len(),
        files[i].cert == Some(cert),
        files[i].key == Some(key),
        forall|k: int|
            i < k < hosts.len() ==> !is_shown_for(#[trigger] hosts[k], lower(hosts[i].names[j])),
    ensures
        ({
            let shown = with_hosts(hosts, files)->Ok_0;
            let name = lower(hosts[i].names[j]);
            &&& shown.dom().contains(name)
            &&& pem_certs(cert) == Some(shown[name].0)
            &&& pem_key(key) == Some(Some(shown[name].1))
        }),
{
    let name = lower(hosts[i].names[j]);
    names_in_any_case(hosts[i].names, j);
    assert(is_shown_for(hosts[i], name));
    certificate_by_name(hosts, files, name);
}

/// Hosts are given their certificates in order, and the first that cannot be given
/// its own is reported, with the fault of its files or of its names.
pub proof fn first_host_at_fault(hosts: Seq<HostModel>, files: Seq<FilesModel>, i: int)
    requires
        0 <= i < hosts.len(),
        with_hosts(hosts.take(i), files) is Ok,
        hosts[i].ssl is Some,
    ensures
        parts_of(files[i]) matches Err(fault) ==> with_hosts(hosts, files) == Err::<
            Map<Seq<char>, (Seq<Seq<u8>>, KeyModel)>,
            (int, TlsFault),
        >((i, fault)),
        parts_of(files[i]) matches Ok(parts) ==> (with_names(
            with_hosts(hosts.take(i), files)->Ok_0,
            hosts[i].names,
            parts,
        ).0 matches Err(fault) ==> with_hosts(hosts, files) == Err::<
            Map<Seq<char>, (Seq<Seq<u8>>, KeyModel)>,
            (int, TlsFault),
        >((i, fault))),
    decreases hosts.len(),
{
    let first = hosts.drop_last();
    if i < first.len() {
        assert(first.take(i) =~= hosts.take(i));
        assert(first[i] == hosts[i]);
        first_host_at_fault(first, files, i);
    } else {
        assert(first =~= hosts.take(i));
    }
}

} // verus!
