//! The TLS identity of an HTTPS server: the certificates and the private
//! key read from its PEM files. PEM sections are decoded by
//! `rustls_pemfile`; which of them are used is decided here.
use vstd::prelude::*;

verus! {

broadcast use vstd::std_specs::vec::group_vec_axioms, vstd::seq::group_seq_axioms;

/// A section of a PEM text, as `rustls_pemfile` classifies it.
#[derive(Debug, Clone, PartialEq, Eq)]
pub enum PemSection {
    /// An X.509 certificate, in DER.
    Certificate(Vec<u8>),
    /// A PKCS#8 private key, in DER.
    Pkcs8Key(Vec<u8>),
    /// Any other kind of section that `rustls_pemfile` decodes.
    Other,
}

/// The mathematical model of a [`PemSection`].
pub enum PemSectionView {
    Certificate(Seq<u8>),
    Pkcs8Key(Seq<u8>),
    Other,
}

impl View for PemSection {
    type V = PemSectionView;

    open spec fn view(&self) -> PemSectionView {
        match self {
            PemSection::Certificate(d) => PemSectionView::Certificate(d@),
            PemSection::Pkcs8Key(d) => PemSectionView::Pkcs8Key(d@),
            PemSection::Other => PemSectionView::Other,
        }
    }
}

/// Why no TLS identity could be read.
#[derive(Debug, Clone, PartialEq, Eq)]
pub enum TlsIdentityError {
    /// The certificate file is not valid PEM (the decoder's message).
    UnreadableCertificates(String),
    /// The certificate file holds no certificate.
    NoCertificates,
    /// The key file is not valid PEM (the decoder's message).
    UnreadableKeys(String),
    /// The key file holds no PKCS#8 private key.
    NoPrivateKeys,
}

/// What `rustls_pemfile::read_one_from_slice` finds first in `input`:
/// `None` when the text is not valid PEM, `Some(None)` when no section is
/// left, else the section and the part of `input` that follows it.
pub uninterp spec fn pem_next(input: Seq<u8>) -> Option<Option<(PemSectionView, Seq<u8>)>>;

/// `rustls_pemfile::read_one_from_slice`, with the section converted to a
/// [`PemSection`]. What follows a section is, as the crate documents, the
/// part of the input after it: a proper suffix of the input.
#[verifier::external_body]
fn read_pem_section<'a>(input: &'a [u8]) -> (r: Result<Option<(PemSection, &'a [u8])>, String>)
    ensures
        match r {
            Err(_) => pem_next(input@) is None,
            Ok(None) => pem_next(input@) == Some(None::<(PemSectionView, Seq<u8>)>),
            Ok(Some((s, rest))) => {
                &&& pem_next(input@) == Some(Some((s@, rest@)))
                &&& rest@.len() < input@.len()
                &&& rest@ == input@.subrange(input@.len() - rest@.len(), input@.len() as int)
            },
        },
{
    match rustls_pemfile::read_one_from_slice(input) {
        Ok(Some((rustls_pemfile::Item::X509Certificate(c), rest))) => Ok(
            Some((PemSection::Certificate(c.to_vec()), rest)),
        ),
        Ok(Some((rustls_pemfile::Item::Pkcs8Key(k), rest))) => Ok(
            Some((PemSection::Pkcs8Key(k.secret_pkcs8_der().to_vec()), rest)),
        ),
        Ok(Some((_, rest))) => Ok(Some((PemSection::Other, rest))),
        Ok(None) => Ok(None),
        Err(e) => Err(format!("{:?}", e)),
    }
}

/// All the sections of a PEM text, in order, or `None` when reading fails.
pub open spec fn pem_sections(input: Seq<u8>) -> Option<Seq<PemSectionView>>
    decreases input.len(),
{
    match pem_next(input) {
        None => None,
        Some(None) => Some(Seq::empty()),
        Some(Some((s, rest))) => if rest.len() < input.len() {
            match pem_sections(rest) {
                None => None,
                Some(t) => Some(seq![s] + t),
            }
        } else {
            None
        },
    }
}

/// The models of a sequence of sections.
pub open spec fn section_views(s: Seq<PemSection>) -> Seq<PemSectionView> {
    s.map_values(|x: PemSection| x@)
}

/// The certificates among `s`, in order.
pub open spec fn certificates_of(s: Seq<PemSectionView>) -> Seq<Seq<u8>>
    decreases s.len(),
{
    if s.len() == 0 {
        Seq::empty()
    } else {
        match s.last() {
            PemSectionView::Certificate(d) => certificates_of(s.drop_last()).push(d),
            _ => certificates_of(s.drop_last()),
        }
    }
}

/// The PKCS#8 keys among `s`, in order.
pub open spec fn keys_of(s: Seq<PemSectionView>) -> Seq<Seq<u8>>
    decreases s.len(),
{
    if s.len() == 0 {
        Seq::empty()
    } else {
        match s.last() {
            PemSectionView::Pkcs8Key(d) => keys_of(s.drop_last()).push(d),
            _ => keys_of(s.drop_last()),
        }
    }
}

/// Reads every section of a PEM text, in order; fails with the decoder's
/// message when the text is not valid PEM.
pub fn read_pem(input: &[u8]) -> (r: Result<Vec<PemSection>, String>)
    ensures
        r is Ok <==> pem_sections(input@) is Some,
        r matches Ok(v) ==> pem_sections(input@) == Some(section_views(v@)),
{
    let mut out: Vec<PemSection> = Vec::new();
    let mut cur: &[u8] = input;
    loop
        invariant
            pem_sections(input@) == match pem_sections(cur@) {
                None => None,
                Some(t) => Some(section_views(out@) + t),
            },
        decreases cur@.len(),
    {
        match read_pem_section(cur) {
            Err(message) => {
                return Err(message);
            },
            Ok(None) => {
                assert(section_views(out@) + Seq::<PemSectionView>::empty() =~= section_views(
                    out@,
                ));
                return Ok(out);
            },
            Ok(Some((section, rest))) => {
                let ghost old_out = out@;
                let ghost sv = section@;
                out.push(section);
                proof {
                    assert(section_views(out@) =~= section_views(old_out).push(sv));
                    match pem_sections(rest@) {
                        None => {},
                        Some(t) => {
                            assert(section_views(old_out) + (seq![sv] + t) =~= section_views(
                                out@,
                            ) + t);
                        },
                    }
                }
                cur = rest;
            },
        }
    }
}

/// The certificates of `sections`, in order.
fn certificates(sections: &Vec<PemSection>) -> (r: Vec<Vec<u8>>)
    ensures
        r@.map_values(|d: Vec<u8>| d@) == certificates_of(section_views(sections@)),
{
    let mut out: Vec<Vec<u8>> = Vec::new();
    let mut i: usize = 0;
    while i < sections.len()
        invariant
            i <= sections.len(),
            out@.map_values(|d: Vec<u8>| d@) == certificates_of(
                section_views(sections@.take(i as int)),
            ),
        decreases sections.len() - i,
    {
        assert(section_views(sections@.take(i + 1)).drop_last() =~= section_views(
            sections@.take(i as int),
        ));
        let ghost old_out = out@;
        if let PemSection::Certificate(d) = &sections[i] {
            out.push(d.clone());
            assert(out@.map_values(|d: Vec<u8>| d@) =~= old_out.map_values(|d: Vec<u8>| d@).push(
                d@,
            ));
        }
        i = i + 1;
    }
    assert(sections@.take(sections.len() as int) =~= sections@);
    out
}

/// The PKCS#8 keys of `sections`, in order.
fn keys(sections: &Vec<PemSection>) -> (r: Vec<Vec<u8>>)
    ensures
        r@.map_values(|d: Vec<u8>| d@) == keys_of(section_views(sections@)),
{
    let mut out: Vec<Vec<u8>> = Vec::new();
    let mut i: usize = 0;
    while i < sections.len()
        invariant
            i <= sections.len(),
            out@.map_values(|d: Vec<u8>| d@) == keys_of(section_views(sections@.take(i as int))),
        decreases sections.len() - i,
    {
        assert(section_views(sections@.take(i + 1)).drop_last() =~= section_views(
            sections@.take(i as int),
        ));
        let ghost old_out = out@;
        if let PemSection::Pkcs8Key(d) = &sections[i] {
            out.push(d.clone());
            assert(out@.map_values(|d: Vec<u8>| d@) =~= old_out.map_values(|d: Vec<u8>| d@).push(
                d@,
            ));
        }
        i = i + 1;
    }
    assert(sections@.take(sections.len() as int) =~= sections@);
    out
}

/// The TLS identity of a server from the texts of its certificate file and
/// of its key file: every certificate of the first, in order, and the first
/// PKCS#8 key of the second. The certificate file is read first; a file
/// that is not valid PEM, or that holds none of what is wanted from it,
/// gives the matching error.
pub fn tls_identity(cert_pem: &[u8], key_pem: &[u8]) -> (r: Result<
    (Vec<Vec<u8>>, Vec<u8>),
    TlsIdentityError,
>)
    ensures
        match pem_sections(cert_pem@) {
            None => r matches Err(TlsIdentityError::UnreadableCertificates(_)),
            Some(c) => if certificates_of(c).len() == 0 {
                r matches Err(TlsIdentityError::NoCertificates)
            } else {
                match pem_sections(key_pem@) {
                    None => r matches Err(TlsIdentityError::UnreadableKeys(_)),
                    Some(k) => if keys_of(k).len() == 0 {
                        r matches Err(TlsIdentityError::NoPrivateKeys)
                    } else {
                        r matches Ok((certs, key)) && certs@.map_values(|d: Vec<u8>| d@)
                            == certificates_of(c) && key@ == keys_of(k)[0]
                    },
                }
            },
        },
{
    let cert_sections = match read_pem(cert_pem) {
        Ok(s) => s,
        Err(message) => {
            return Err(TlsIdentityError::UnreadableCertificates(message));
        },
    };
    let certs = certificates(&cert_sections);
    if certs.len() == 0 {
        return Err(TlsIdentityError::NoCertificates);
    }
    let key_sections = match read_pem(key_pem) {
        Ok(s) => s,
        Err(message) => {
            return Err(TlsIdentityError::UnreadableKeys(message));
        },
    };
    let mut found = keys(&key_sections);
    if found.len() == 0 {
        return Err(TlsIdentityError::NoPrivateKeys);
    }
    let ghost found_view = found@.map_values(|d: Vec<u8>| d@);
    let key = found.swap_remove(0);
    assert(key@ == found_view[0]);
    Ok((certs, key))
}

} // verus!
