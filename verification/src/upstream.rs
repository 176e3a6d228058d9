//! The extra root certificates that upstream TLS is verified against.

use vstd::prelude::*;
use vstd::string::*;

use crate::text;

verus! {

/// What is found of one certificate in a PEM text: its DER form, or what is
/// wrong with it.
pub open spec fn found_view(found: Result<Vec<u8>, String>) -> Result<Seq<u8>, Seq<char>> {
    match found {
        Ok(der) => Ok(der@),
        Err(e) => Err(e@),
    }
}

/// The views of what is found of the certificates in a PEM text.
pub open spec fn found_views(found: Seq<Result<Vec<u8>, String>>) -> Seq<
    Result<Seq<u8>, Seq<char>>,
> {
    found.map_values(|f: Result<Vec<u8>, String>| found_view(f))
}

/// What is found of the certificates in a PEM text, in order.
pub uninterp spec fn pem_certificates(pem: Seq<char>) -> Seq<Result<Seq<u8>, Seq<char>>>;

/// `rustls_pemfile::certs`, read to its end: what it finds of the
/// certificates in a PEM text. What a PEM text looks like is left to the
/// crate.
#[verifier::external_body]
fn read_certificates(pem: &str) -> (r: Vec<Result<Vec<u8>, String>>)
    ensures
        found_views(r@) == pem_certificates(pem@),
{
    rustls_pemfile::certs(&mut pem.as_bytes())
        .map(|c| c.map(|der| der.to_vec()).map_err(|e| e.to_string()))
        .collect()
}

/// Why a certificate is not accepted as a root; nothing when it is.
pub uninterp spec fn root_refusal(der: Seq<u8>) -> Option<Seq<char>>;

/// `RootCertStore::add` of `rustls`: whether a certificate is accepted as a
/// root. Which are is left to the crate.
#[verifier::external_body]
fn refuse_root(der: &[u8]) -> (r: Option<String>)
    ensures
        crate::uri::optional_text(r) == root_refusal(der@),
{
    let mut store = rustls::RootCertStore::empty();
    store.add(rustls::pki_types::CertificateDer::from(der)).err().map(|e| e.to_string())
}

/// What becomes of a certificate that was found, and that is or is not
/// accepted as a root.
pub open spec fn root_of(
    found: Result<Seq<u8>, Seq<char>>,
    refusal: Option<Seq<char>>,
) -> Result<Seq<u8>, Seq<char>> {
    match found {
        Err(e) => Err("parsing extra root certificate: "@ + e),
        Ok(der) => match refusal {
            Some(e) => Err("adding extra root certificate: "@ + e),
            None => Ok(der),
        },
    }
}

/// What becomes of a certificate that was found, and that is or is not
/// accepted as a root.
pub fn admit_root(found: Result<Vec<u8>, String>, refusal: Option<String>) -> (r: Result<
    Vec<u8>,
    String,
>)
    ensures
        found_view(r) == root_of(found_view(found), crate::uri::optional_text(refusal)),
{
    match found {
        Err(e) => {
            let mut message = "parsing extra root certificate: ".to_owned();
            message.append(e.as_str());
            Err(message)
        },
        Ok(der) => match refusal {
            Some(e) => {
                let mut message = "adding extra root certificate: ".to_owned();
                message.append(e.as_str());
                Err(message)
            },
            None => Ok(der),
        },
    }
}

/// Whether a certificate that was found is accepted as a root.
pub open spec fn refusal_of(found: Result<Seq<u8>, Seq<char>>) -> Option<Seq<char>> {
    match found {
        Ok(der) => root_refusal(der),
        Err(_) => None,
    }
}

/// The certificates in a list of PEM texts, in order.
pub open spec fn all_certificates(pems: Seq<Seq<char>>) -> Seq<Result<Seq<u8>, Seq<char>>>
    decreases pems.len(),
{
    if pems.len() == 0 {
        Seq::empty()
    } else {
        all_certificates(pems.drop_last()) + pem_certificates(pems.last())
    }
}

/// The roots that a list of certificates makes, or the first error.
pub open spec fn roots_of(found: Seq<Result<Seq<u8>, Seq<char>>>) -> Result<
    Seq<Seq<u8>>,
    Seq<char>,
>
    decreases found.len(),
{
    if found.len() == 0 {
        Ok(Seq::empty())
    } else {
        match roots_of(found.drop_last()) {
            Err(e) => Err(e),
            Ok(roots) => match root_of(found.last(), refusal_of(found.last())) {
                Ok(der) => Ok(roots.push(der)),
                Err(e) => Err(e),
            },
        }
    }
}

/// The views of a list of certificates.
pub open spec fn ders(roots: Seq<Vec<u8>>) -> Seq<Seq<u8>> {
    roots.map_values(|der: Vec<u8>| der@)
}

/// After an error nothing else matters.
proof fn lemma_first_error(
    found: Seq<Result<Seq<u8>, Seq<char>>>,
    more: Seq<Result<Seq<u8>, Seq<char>>>,
)
    requires
        roots_of(found) is Err,
    ensures
        roots_of(found + more) == roots_of(found),
    decreases more.len(),
{
    if more.len() == 0 {
        assert(found + more =~= found);
    } else {
        lemma_first_error(found, more.drop_last());
        assert((found + more).drop_last() =~= found + more.drop_last());
    }
}

/// Certificates come after those of the earlier texts.
proof fn lemma_all_certificates(pems: Seq<Seq<char>>, k: int)
    requires
        0 <= k <= pems.len(),
    ensures
        exists|more: Seq<Result<Seq<u8>, Seq<char>>>|
            all_certificates(pems) == #[trigger] (all_certificates(pems.take(k)) + more),
    decreases pems.len(),
{
    if k == pems.len() {
        assert(pems.take(k) =~= pems);
        assert(all_certificates(pems) =~= all_certificates(pems.take(k)) + Seq::empty());
    } else {
        let shorter = pems.drop_last();
        lemma_all_certificates(shorter, k);
        let more = choose|more: Seq<Result<Seq<u8>, Seq<char>>>|
            all_certificates(shorter) == #[trigger] (all_certificates(shorter.take(k)) + more);
        assert(shorter.take(k) =~= pems.take(k));
        assert(all_certificates(pems) =~= all_certificates(pems.take(k)) + (more
            + pem_certificates(pems.last())));
    }
}

/// Take in the certificates of one PEM text.
fn add_roots(
    roots: &mut Vec<Vec<u8>>,
    pem: &str,
    Ghost(before): Ghost<Seq<Result<Seq<u8>, Seq<char>>>>,
) -> (r: Result<(), String>)
    requires
        roots_of(before) == Ok::<Seq<Seq<u8>>, Seq<char>>(ders(old(roots)@)),
    ensures
        match r {
            Ok(_) => roots_of(before + pem_certificates(pem@)) == Ok::<Seq<Seq<u8>>, Seq<char>>(
                ders(final(roots)@),
            ),
            Err(e) => roots_of(before + pem_certificates(pem@)) == Err::<Seq<Seq<u8>>, Seq<char>>(
                e@,
            ),
        },
{
    let found = read_certificates(pem);
    let ghost all = found_views(found@);
    let ghost items = found@;
    proof {
        assert(before + all.take(0) =~= before);
    }
    for item in it: found
        invariant
            it.seq() == items,
            all == found_views(items),
            all == pem_certificates(pem@),
            roots_of(before + all.take(it.index())) == Ok::<Seq<Seq<u8>>, Seq<char>>(
                ders(roots@),
            ),
    {
        let ghost k = it.index();
        let ghost grown = before + all.take(k + 1);
        proof {
            assert(all[k] == found_view(item));
            assert(grown.drop_last() =~= before + all.take(k));
            assert(grown.last() == all[k]);
            assert(before + all =~= grown + all.skip(k + 1));
        }
        let refusal = match &item {
            Ok(der) => refuse_root(der.as_slice()),
            Err(_) => None,
        };
        match admit_root(item, refusal) {
            Ok(der) => {
                let ghost had = ders(roots@);
                roots.push(der);
                proof {
                    assert(ders(roots@) =~= had.push(der@));
                }
            },
            Err(e) => {
                proof {
                    assert(roots_of(grown) == Err::<Seq<Seq<u8>>, Seq<char>>(e@));
                    lemma_first_error(grown, all.skip(k + 1));
                }
                return Err(e);
            },
        }
    }
    proof {
        assert(all.take(all.len() as int) =~= all);
    }
    Ok(())
}

/// The roots in a list of PEM texts, in order; or the first error.
pub fn extra_roots(pems: &Vec<String>) -> (r: Result<Vec<Vec<u8>>, String>)
    ensures
        match r {
            Ok(roots) => roots_of(all_certificates(text::texts(pems@))) == Ok::<
                Seq<Seq<u8>>,
                Seq<char>,
            >(ders(roots@)),
            Err(e) => roots_of(all_certificates(text::texts(pems@))) == Err::<
                Seq<Seq<u8>>,
                Seq<char>,
            >(e@),
        },
{
    let ghost all = text::texts(pems@);
    let mut roots: Vec<Vec<u8>> = Vec::new();
    let mut i: usize = 0;
    proof {
        assert(all.take(0) =~= Seq::<Seq<char>>::empty());
        assert(ders(roots@) =~= Seq::<Seq<u8>>::empty());
    }
    while i < pems.len()
        invariant
            i <= pems@.len(),
            all == text::texts(pems@),
            roots_of(all_certificates(all.take(i as int))) == Ok::<Seq<Seq<u8>>, Seq<char>>(
                ders(roots@),
            ),
        decreases pems@.len() - i,
    {
        let ghost before = all_certificates(all.take(i as int));
        let ghost grown = all.take(i + 1);
        proof {
            assert(grown.drop_last() =~= all.take(i as int));
            assert(grown.last() == pems@[i as int]@);
        }
        match add_roots(&mut roots, pems[i].as_str(), Ghost(before)) {
            Ok(_) => {},
            Err(e) => {
                proof {
                    lemma_all_certificates(all, i + 1);
                    let more = choose|more: Seq<Result<Seq<u8>, Seq<char>>>|
                        all_certificates(all) == #[trigger] (all_certificates(grown) + more);
                    lemma_first_error(all_certificates(grown), more);
                }
                return Err(e);
            },
        }
        i += 1;
    }
    proof {
        assert(all.take(all.len() as int) =~= all);
    }
    Ok(roots)
}

/// Extra roots are taken all or not at all: they are the certificates that
/// were found, all of them and in order, if every one was read and accepted.
/// Otherwise the error is that of the first which was not, and ends with its
/// cause.
pub proof fn law_roots_are_all_or_the_first_error(found: Seq<Result<Seq<u8>, Seq<char>>>)
    ensures
        roots_of(found) is Ok <==> forall|i: int|
            0 <= i < found.len() ==> (#[trigger] found[i]) is Ok && root_refusal(found[i]->Ok_0)
                is None,
        roots_of(found) matches Ok(roots) ==> roots.len() == found.len() && forall|i: int|
            0 <= i < found.len() ==> found[i] == Ok::<Seq<u8>, Seq<char>>(#[trigger] roots[i]),
        roots_of(found) is Err ==> exists|i: int|
            #[trigger] is_first_refused(found, i, roots_of(found)->Err_0),
    decreases found.len(),
{
    if found.len() > 0 {
        let fewer = found.drop_last();
        let n = fewer.len() as int;
        law_roots_are_all_or_the_first_error(fewer);
        assert(found[n] == found.last());
        assert forall|i: int| 0 <= i < n implies fewer[i] == #[trigger] found[i] by {}
        match roots_of(fewer) {
            Err(e) => {
                let i = choose|i: int| is_first_refused(fewer, i, e);
                assert forall|j: int| 0 <= j < i implies (#[trigger] found[j]) is Ok
                    && root_refusal(found[j]->Ok_0) is None by {
                    assert(fewer[j] == found[j]);
                }
                assert(fewer[i] == found[i]);
                assert(is_first_refused(found, i, e));
                assert(exists|i: int|
                    #[trigger] is_first_refused(found, i, roots_of(found)->Err_0));
                assert(!(found[i] is Ok && root_refusal(found[i]->Ok_0) is None));
            },
            Ok(roots) => {
                assert forall|j: int| 0 <= j < n implies (#[trigger] found[j]) is Ok
                    && root_refusal(found[j]->Ok_0) is None by {
                    assert(fewer[j] == found[j]);
                }
                match root_of(found.last(), refusal_of(found.last())) {
                    Ok(der) => {
                        let all = roots.push(der);
                        assert forall|i: int| 0 <= i < found.len() implies found[i] == Ok::<
                            Seq<u8>,
                            Seq<char>,
                        >(#[trigger] all[i]) by {
                            if i < n {
                                assert(fewer[i] == Ok::<Seq<u8>, Seq<char>>(roots[i]));
                            }
                        }
                    },
                    Err(e) => {
                        let cause = if found[n] is Err {
                            found[n]->Err_0
                        } else {
                            root_refusal(found[n]->Ok_0)->0
                        };
                        assert(e.skip(e.len() - cause.len()) =~= cause);
                        assert(is_first_refused(found, n, e));
                        let said = roots_of(found)->Err_0;
                        assert(roots_of(found) is Err);
                        assert(said == e);
                        assert(is_first_refused(found, n, said));
                        assert(!(found[n] is Ok && root_refusal(found[n]->Ok_0) is None));
                    },
                }
            },
        }
    } else {
        assert(roots_of(found) is Ok);
    }
}

/// The certificate at `i` was not read or not accepted, all before it were,
/// and `e` ends with the cause.
pub open spec fn is_first_refused(
    found: Seq<Result<Seq<u8>, Seq<char>>>,
    i: int,
    e: Seq<char>,
) -> bool {
    &&& 0 <= i < found.len()
    &&& found[i] is Err && text::ends(e, found[i]->Err_0) || found[i] is Ok && root_refusal(
        found[i]->Ok_0,
    ) is Some && text::ends(e, root_refusal(found[i]->Ok_0)->0)
    &&& forall|j: int|
        0 <= j < i ==> (#[trigger] found[j]) is Ok && root_refusal(found[j]->Ok_0) is None
}

/// The certificates of a list of PEM texts are those of each text, one text
/// after the other.
pub proof fn law_certificates_go_text_by_text(pems: Seq<Seq<char>>, pem: Seq<char>)
    ensures
        all_certificates(Seq::empty()).len() == 0,
        all_certificates(pems.push(pem)) == all_certificates(pems) + pem_certificates(pem),
{
    assert(pems.push(pem).drop_last() =~= pems);
}

/// The extra roots of some PEM texts are all certificates in them, in order;
/// there are none where one of them is not read or not accepted.
pub proof fn law_extra_roots_are_all_certificates(
    pems: &Vec<String>,
    r: Result<Vec<Vec<u8>>, String>,
)
    requires
        call_ensures(extra_roots, (pems,), r),
    ensures
        ({
            let found = all_certificates(text::texts(pems@));
            &&& r is Ok <==> forall|i: int|
                0 <= i < found.len() ==> (#[trigger] found[i]) is Ok && root_refusal(
                    found[i]->Ok_0,
                ) is None
            &&& r is Ok ==> r->Ok_0@.len() == found.len() && forall|i: int|
                0 <= i < found.len() ==> found[i] == Ok::<Seq<u8>, Seq<char>>(
                    (#[trigger] r->Ok_0@[i])@,
                )
        }),
{
    let found = all_certificates(text::texts(pems@));
    law_roots_are_all_or_the_first_error(found);
    if let Ok(roots) = r {
        let all = ders(roots@);
        assert(all.len() == roots@.len());
        assert forall|i: int| 0 <= i < found.len() implies found[i] == Ok::<Seq<u8>, Seq<char>>(
            (#[trigger] roots@[i])@,
        ) by {
            assert(all[i] == roots@[i]@);
        }
    }
}

} // verus!
