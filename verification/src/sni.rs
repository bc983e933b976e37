//! The certificates of all hosts, one of which each TLS client is shown by the
//! name that it asks for.

use crate::config::HostConfig;
use crate::config::HostModel;
use crate::tls::add_host;
use crate::tls::certificates;
use crate::tls::certs_outcome;
use crate::tls::is_name_of;
use crate::tls::is_valid_for;
use crate::tls::key_outcome;
use crate::tls::load_certs;
use crate::tls::load_key;
use crate::tls::names_share_certificate;
use crate::tls::new_resolver;
use crate::tls::no_certificates;
use crate::tls::pem_certs;
use crate::tls::pem_key;
use crate::tls::with_names;
use crate::tls::KeyModel;
use crate::tls::PrivateKey;
use crate::tls::TlsError;
use crate::tls::TlsFault;
use rustls::server::ResolvesServerCertUsingSni;
use vstd::prelude::*;

verus! {

/// The files that a host's certificate and private key are in; `None` stands for
/// a file that cannot be read.
#[derive(Debug)]
pub struct SslFiles {
    pub cert: Option<Vec<u8>>,
    pub key: Option<Vec<u8>>,
}

/// The files of a host, as a mathematical value.
pub struct FilesModel {
    pub cert: Option<Seq<u8>>,
    pub key: Option<Seq<u8>>,
}

impl View for SslFiles {
    type V = FilesModel;

    open spec fn view(&self) -> FilesModel {
        FilesModel { cert: self.cert.deep_view(), key: self.key.deep_view() }
    }
}

/// The certificate chain and the private key in the files of a host, or the first
/// fault of these files.
pub open spec fn parts_of(files: FilesModel) -> Result<(Seq<Seq<u8>>, KeyModel), TlsFault> {
    match files.cert {
        None => Err(TlsFault::UnreadableCerts),
        Some(cert) => match certs_outcome(pem_certs(cert)) {
            Err(fault) => Err(fault),
            Ok(chain) => match files.key {
                None => Err(TlsFault::UnreadableKey),
                Some(key) => match key_outcome(pem_key(key)) {
                    Err(fault) => Err(fault),
                    Ok(key) => Ok((chain, key)),
                },
            },
        },
    }
}

/// The certificates that all names have when every host that is configured with
/// one is given it, in order; or the first host that cannot be given its own, and
/// why. All keys are taken to be supported.
pub open spec fn with_hosts(hosts: Seq<HostModel>, files: Seq<FilesModel>) -> Result<
    Map<Seq<char>, (Seq<Seq<u8>>, KeyModel)>,
    (int, TlsFault),
>
    decreases hosts.len(),
{
    if hosts.len() == 0 {
        Ok(no_certificates())
    } else {
        let last = hosts.len() - 1;
        match with_hosts(hosts.drop_last(), files) {
            Err(fault) => Err(fault),
            Ok(all) => if hosts[last].ssl is None {
                Ok(all)
            } else {
                match parts_of(files[last]) {
                    Err(fault) => Err((last, fault)),
                    Ok(parts) => match with_names(all, hosts[last].names, parts) {
                        (Ok(_), shown) => Ok(shown),
                        (Err(fault), _) => Err((last, fault)),
                    },
                }
            },
        }
    }
}

/// The certificate chain and the private key in the files of a host.
pub fn load_parts(files: &SslFiles) -> (r: Result<(Vec<Vec<u8>>, PrivateKey), TlsError>)
    ensures
        match r {
            Ok((chain, key)) => parts_of(files@) == Ok::<(Seq<Seq<u8>>, KeyModel), TlsFault>(
                (chain.deep_view(), key@),
            ),
            Err(error) => parts_of(files@) == Err::<(Seq<Seq<u8>>, KeyModel), TlsFault>(error@),
        },
{
    let chain = match &files.cert {
        Some(cert) => {
            assert(cert.deep_view() =~= cert@);
            match load_certs(cert.as_slice()) {
                Ok(chain) => chain,
                Err(error) => return Err(error),
            }
        },
        None => return Err(TlsError::UnreadableCerts),
    };
    match &files.key {
        Some(key) => {
            assert(key.deep_view() =~= key@);
            match load_key(key.as_slice()) {
                Ok(key) => Ok((chain, key)),
                Err(error) => Err(error),
            }
        },
        None => Err(TlsError::UnreadableKey),
    }
}

/// The resolver that shows the names of each host its certificate; hosts without
/// an `<ssl>` element are passed over. On failure, which host cannot be given its
/// certificate, and why.
pub fn build_resolver(hosts: &Vec<HostConfig>, files: &Vec<SslFiles>) -> (r: Result<
    ResolvesServerCertUsingSni,
    (usize, TlsError),
>)
    requires
        files@.len() == hosts@.len(),
    ensures
        ({
            let models = hosts@.map_values(|h: HostConfig| h@);
            let texts = files@.map_values(|f: SslFiles| f@);
            match r {
                Ok(resolver) => with_hosts(models, texts) == Ok::<_, (int, TlsFault)>(
                    certificates(resolver),
                ),
                Err((i, TlsError::UnsupportedKey(_))) => {
                    &&& i < models.len()
                    &&& models[i as int].ssl is Some
                    &&& parts_of(texts[i as int]) is Ok
                    &&& with_hosts(models.take(i as int), texts) is Ok
                },
                Err((i, error)) => with_hosts(models, texts) == Err::<
                    Map<Seq<char>, (Seq<Seq<u8>>, KeyModel)>,
                    _,
                >((i as int, error@)),
            }
        }),
{
    let ghost models = hosts@.map_values(|h: HostConfig| h@);
    let ghost texts = files@.map_values(|f: SslFiles| f@);
    let mut resolver = new_resolver();
    let mut i: usize = 0;
    while i < hosts.len()
        invariant
            i <= hosts@.len(),
            files@.len() == hosts@.len(),
            models == hosts@.map_values(|h: HostConfig| h@),
            texts == files@.map_values(|f: SslFiles| f@),
            with_hosts(models.take(i as int), texts) == Ok::<_, (int, TlsFault)>(
                certificates(resolver),
            ),
        decreases hosts@.len() - i,
    {
        let ghost upto = models.take(i + 1);
        proof {
            assert(upto.drop_last() =~= models.take(i as int));
            assert(upto[i as int] == hosts@[i as int]@);
            assert(texts[i as int] == files@[i as int]@);
        }
        if hosts[i].ssl.is_some() {
            let (chain, key) = match load_parts(&files[i]) {
                Ok(parts) => parts,
                Err(error) => {
                    proof {
                        hosts_fault_stays(models, texts, i + 1);
                    }
                    return Err((i, error));
                },
            };
            match add_host(&mut resolver, &hosts[i], &chain, &key) {
                Ok(()) => {},
                Err(error) => {
                    proof {
                        if !(error is UnsupportedKey) {
                            hosts_fault_stays(models, texts, i + 1);
                        }
                    }
                    return Err((i, error));
                },
            }
        }
        i += 1;
    }
    assert(models.take(models.len() as int) =~= models);
    Ok(resolver)
}

/// The first fault among the hosts is that among any number of them from the start.
proof fn hosts_fault_stays(hosts: Seq<HostModel>, files: Seq<FilesModel>, n: int)
    requires
        0 <= n <= hosts.len(),
        with_hosts(hosts.take(n), files) is Err,
    ensures
        with_hosts(hosts, files) == with_hosts(hosts.take(n), files),
    decreases hosts.len(),
{
    if n < hosts.len() {
        assert(hosts.drop_last().take(n) =~= hosts.take(n));
        hosts_fault_stays(hosts.drop_last(), files, n);
    } else {
        assert(hosts.take(n) =~= hosts);
    }
}

/// A host is configured with a certificate, and `name` is one of its names.
pub open spec fn is_shown_for(host: HostModel, name: Seq<char>) -> bool {
    host.ssl is Some && is_name_of(host.names, name)
}

/// The files of a host, if it is configured with a certificate, hold one with its
/// key, and the certificate is valid for all names of the host.
pub open spec fn has_usable_files(host: HostModel, files: FilesModel) -> bool {
    host.ssl is Some ==> {
        &&& parts_of(files) is Ok
        &&& forall|i: int|
            0 <= i < host.names.len() ==> is_valid_for(
                (parts_of(files)->Ok_0).0,
                #[trigger] host.names[i],
            )
    }
}

/// Every host can be given its certificate exactly if the files of each are usable.
pub proof fn usable_files_suffice(hosts: Seq<HostModel>, files: Seq<FilesModel>)
    requires
        files.len() >= hosts.len(),
    ensures
        with_hosts(hosts, files) is Ok <==> (forall|i: int|
            0 <= i < hosts.len() ==> has_usable_files(#[trigger] hosts[i], files[i])),
    decreases hosts.len(),
{
    if hosts.len() > 0 {
        let first = hosts.drop_last();
        let last = hosts.len() - 1;
        usable_files_suffice(first, files);
        assert(forall|i: int| 0 <= i < last ==> first[i] == #[trigger] hosts[i]);
        if with_hosts(first, files) is Ok {
            assert forall|i: int| 0 <= i < last implies has_usable_files(
                #[trigger] hosts[i],
                files[i],
            ) by {
                assert(has_usable_files(first[i], files[i]));
            }
            if parts_of(files[last]) is Ok {
                names_share_certificate(
                    with_hosts(first, files)->Ok_0,
                    hosts[last].names,
                    parts_of(files[last])->Ok_0,
                    Seq::empty(),
                );
            }
            assert(with_hosts(hosts, files) is Ok <==> has_usable_files(hosts[last], files[last]));
        } else {
            let k = choose|k: int|
                0 <= k < first.len() && !has_usable_files(#[trigger] first[k], files[k]);
            assert(!has_usable_files(hosts[k], files[k]));
        }
    }
}

/// A client that asks for a name is shown the certificate of the host that has
/// it, of the last such host if there are several; one that asks for a name that
/// no host has is shown none.
pub proof fn certificate_by_name(hosts: Seq<HostModel>, files: Seq<FilesModel>, name: Seq<char>)
    requires
        with_hosts(hosts, files) is Ok,
    ensures
        (forall|i: int| 0 <= i < hosts.len() ==> !is_shown_for(#[trigger] hosts[i], name))
            ==> !with_hosts(hosts, files)->Ok_0.dom().contains(name),
        forall|i: int|
            0 <= i < hosts.len() && is_shown_for(#[trigger] hosts[i], name) && (forall|j: int|
                i < j < hosts.len() ==> !is_shown_for(#[trigger] hosts[j], name)) ==> {
                &&& with_hosts(hosts, files)->Ok_0.dom().contains(name)
                &&& parts_of(files[i]) == Ok::<_, TlsFault>(with_hosts(hosts, files)->Ok_0[name])
            },
    decreases hosts.len(),
{
    if hosts.len() > 0 {
        let first = hosts.drop_last();
        let last = hosts.len() - 1;
        certificate_by_name(first, files, name);
        assert(forall|i: int| 0 <= i < last ==> first[i] == #[trigger] hosts[i]);
        let shown = with_hosts(hosts, files)->Ok_0;
        let before = with_hosts(first, files)->Ok_0;
        if hosts[last].ssl is Some {
            names_share_certificate(
                before,
                hosts[last].names,
                parts_of(files[last])->Ok_0,
                name,
            );
        }
        if is_shown_for(hosts[last], name) {
            assert(shown.dom().contains(name) && shown[name] == parts_of(files[last])->Ok_0);
        } else {
            assert(shown.dom().contains(name) <==> before.dom().contains(name));
            assert(shown[name] == before[name]);
            assert forall|i: int|
                0 <= i < hosts.len() && is_shown_for(#[trigger] hosts[i], name) && (forall|j: int|
                    i < j < hosts.len() ==> !is_shown_for(#[trigger] hosts[j], name)) implies {
                &&& shown.dom().contains(name)
                &&& parts_of(files[i]) == Ok::<_, TlsFault>(shown[name])
            } by {
                assert(first[i] == hosts[i]);
                assert forall|j: int| i < j < first.len() implies !is_shown_for(
                    #[trigger] first[j],
                    name,
                ) by {
                    assert(first[j] == hosts[j]);
                }
            }
        }
    }
}

} // verus!
