use vstd::prelude::*;

verus! {

/// The PEM text could not be parsed: a malformed section or bad base64.
#[derive(Clone, Copy, PartialEq, Eq, Structural, Debug)]
pub enum PemError {
    Malformed,
}

/// The recognised PEM sections of a byte text, in order, each as a tag and
/// its DER payload: `1` an RSA private key, `2` a PKCS#8 private key, `3` a
/// SEC1 EC private key, `4` an X.509 certificate, `5` a certificate
/// revocation list.
pub uninterp spec fn pem_items_of(data: Seq<u8>) -> Seq<(u8, Seq<u8>)>;

/// Relies on `rustls_pemfile::read_all`: the recognised PEM sections of the
/// text, in order; what it returns depends on the bytes alone.
#[verifier::external_body]
fn read_pem_items(data: &Vec<u8>) -> (r: Result<Vec<(u8, Vec<u8>)>, PemError>)
    ensures
        match r {
            Ok(items) => {
                &&& items@.len() == pem_items_of(data@).len()
                &&& forall|i: int|
                    0 <= i < items@.len() ==> (#[trigger] items@[i]).0 == pem_items_of(data@)[i].0
                        && items@[i].1@ == pem_items_of(data@)[i].1
            },
            Err(_) => true,
        },
{
    let mut rd: &[u8] = data.as_slice();
    let items = match rustls_pemfile::read_all(&mut rd) {
        Ok(items) => items,
        Err(_) => return Err(PemError::Malformed),
    };
    Ok(items.into_iter().map(|it| match it {
        rustls_pemfile::Item::RSAKey(k) => (1, k),
        rustls_pemfile::Item::PKCS8Key(k) => (2, k),
        rustls_pemfile::Item::ECKey(k) => (3, k),
        rustls_pemfile::Item::X509Certificate(c) => (4, c),
        rustls_pemfile::Item::Crl(c) => (5, c),
        _ => (0, Vec::new()),
    }).collect())
}

/// The tags that carry a private key.
pub open spec fn key_tag(t: u8) -> bool {
    t == 1 || t == 2 || t == 3
}

/// The DER payloads of the private-key sections, in order, every other
/// section dropped.
pub open spec fn spec_private_keys(items: Seq<(u8, Seq<u8>)>) -> Seq<Seq<u8>>
    decreases items.len(),
{
    if items.len() == 0 {
        Seq::empty()
    } else if key_tag(items[0].0) {
        seq![items[0].1] + spec_private_keys(items.drop_first())
    } else {
        spec_private_keys(items.drop_first())
    }
}

/// The models of parsed PEM items.
pub open spec fn item_models(s: Seq<(u8, Vec<u8>)>) -> Seq<(u8, Seq<u8>)> {
    s.map_values(|p: (u8, Vec<u8>)| (p.0, p.1@))
}

/// The models of a vector of byte payloads.
pub open spec fn byte_vec_models(s: Seq<Vec<u8>>) -> Seq<Seq<u8>> {
    s.map_values(|v: Vec<u8>| v@)
}

/// Keep the private-key payloads of already-parsed PEM sections, in order:
/// exactly `spec_private_keys`.
pub fn extract_private_keys(items: &Vec<(u8, Vec<u8>)>) -> (r: Vec<Vec<u8>>)
    ensures
        byte_vec_models(r@) == spec_private_keys(item_models(items@)),
{
    let ghost full = item_models(items@);
    let mut out: Vec<Vec<u8>> = Vec::new();
    let mut i: usize = 0;
    proof {
        assert(full.skip(0) =~= full);
        assert(byte_vec_models(out@) =~= Seq::<Seq<u8>>::empty());
    }
    while i < items.len()
        invariant
            i <= items.len(),
            full == item_models(items@),
            full.len() == items.len(),
            spec_private_keys(full) == byte_vec_models(out@) + spec_private_keys(
                full.skip(i as int),
            ),
        decreases items.len() - i,
    {
        let ghost rest = full.skip(i as int);
        let ghost out0 = byte_vec_models(out@);
        proof {
            assert(rest[0] == full[i as int]);
            assert(rest.drop_first() =~= full.skip(i + 1));
        }
        let tag = items[i].0;
        if tag == 1 || tag == 2 || tag == 3 {
            let mut payload: Vec<u8> = Vec::new();
            payload.extend_from_slice(items[i].1.as_slice());
            proof {
                assert(payload@ =~= full[i as int].1);
            }
            out.push(payload);
            proof {
                assert(byte_vec_models(out@) =~= out0.push(full[i as int].1));
                assert(out0 + (seq![rest[0].1] + spec_private_keys(rest.drop_first()))
                    =~= out0.push(full[i as int].1) + spec_private_keys(full.skip(i + 1)));
            }
        }
        i = i + 1;
    }
    proof {
        assert(full.skip(items.len() as int) =~= Seq::<(u8, Seq<u8>)>::empty());
        assert(byte_vec_models(out@) + Seq::<Seq<u8>>::empty() =~= byte_vec_models(out@));
    }
    out
}

/// Every private key of a PEM text: parse the sections, then keep the key
/// payloads in order. What parsing yields is up to the PEM grammar; whatever
/// it yields, the selection is exact.
pub fn private_keys(data: &Vec<u8>) -> (r: Result<Vec<Vec<u8>>, PemError>)
    ensures
        match r {
            Ok(keys) => byte_vec_models(keys@) == spec_private_keys(pem_items_of(data@)),
            Err(e) => e == PemError::Malformed,
        },
{
    match read_pem_items(data) {
        Err(e) => Err(e),
        Ok(items) => {
            proof {
                assert(item_models(items@) =~= pem_items_of(data@));
            }
            Ok(extract_private_keys(&items))
        },
    }
}

} // verus!
