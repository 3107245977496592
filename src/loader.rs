//! The certificate loader: turns the bytes of one key file into index entries,
//! one per policy-valid identity that carries a parsable email address.

use crate::db::{CertEntry, CertKey};
use crate::hash::{key_entry_of, mail_to_key_entry, wkd_hash};
use sequoia_openpgp::armor::{Kind, Reader, ReaderMode};
use sequoia_openpgp::parse::Parse;
use sequoia_openpgp::policy::StandardPolicy;
use sequoia_openpgp::serialize::SerializeInto;
use sequoia_openpgp::Cert;
use sequoia_openpgp::packet::UserID;
use vstd::prelude::*;

verus! {

/// Why a key file contributes no entries.
#[derive(Debug, Clone, PartialEq, Eq)]
pub enum LoadError {
    /// The path does not name a readable regular file.
    NotAFile(String),
    /// The certificate does not pass policy evaluation.
    InvalidCertificate,
    /// An identity's email address could not be split into local part and domain.
    UnparsableEmail(String),
    /// The public certificate could not be serialized.
    Serialization,
}

#[verifier::external_type_specification]
#[verifier::external_body]
pub struct ExCert(Cert);

#[verifier::external_type_specification]
#[verifier::external_body]
pub struct ExUserID(UserID);

#[verifier::external_type_specification]
#[verifier::external_body]
pub struct ExAnyhowError(anyhow::Error);

/// Whether bytes parse as a public certificate (armored or binary, public-key
/// armor blocks only).
pub uninterp spec fn public_cert_parses(content: Seq<u8>) -> bool;

/// Relies on sequoia_openpgp's armor::Reader (tolerant mode, public-key blocks
/// only) and Cert::from_reader: `None` when the bytes hold no public
/// certificate, which depends on the bytes alone.
#[verifier::external_body]
fn parse_public_cert(content: &[u8]) -> (r: Option<Cert>)
    ensures
        r is Some <==> public_cert_parses(content@),
{
    let reader = std::io::BufReader::new(
        Reader::from_bytes(content, ReaderMode::Tolerant(Some(Kind::PublicKey))),
    );
    Cert::from_reader(reader).ok()
}

/// Relies on sequoia_openpgp's Cert::with_policy under the StandardPolicy at the
/// current time, and ValidCert::userids: the identities that pass evaluation.
#[verifier::external_body]
fn valid_userids(cert: &Cert) -> (r: Result<Vec<UserID>, anyhow::Error>) {
    let policy = StandardPolicy::new();
    cert.with_policy(&policy, None).map(|valid| valid.userids().map(|u| u.userid().clone()).collect())
}

/// Relies on sequoia_openpgp's UserID::email: the address part of an identity,
/// if it has one.
#[verifier::external_body]
fn userid_email(uid: &UserID) -> (r: Result<Option<String>, anyhow::Error>) {
    uid.email()
}

/// Relies on sequoia_openpgp's Cert::strip_secret_key_material: a copy of the
/// certificate with all secret key material removed.
#[verifier::external_body]
fn public_copy(cert: &Cert) -> (r: Cert) {
    cert.clone().strip_secret_key_material()
}

/// Relies on sequoia_openpgp's Cert::retain_userids: the certificate keeping
/// only the identity `uid`.
#[verifier::external_body]
fn retain_only(cert: Cert, uid: &UserID) -> (r: Cert) {
    cert.retain_userids(|a| a.userid() == uid)
}

/// Relies on sequoia_openpgp's SerializeInto::to_vec for Cert: the
/// transferable public key as binary packets.
#[verifier::external_body]
fn serialize_cert(cert: &Cert) -> (r: Result<Vec<u8>, anyhow::Error>) {
    cert.to_vec()
}

/// A loaded pair is tied to its file and to an address: the key is the lookup
/// key of that address, and the entry keeps its local part.
pub open spec fn loaded_from(k: (Seq<char>, Seq<char>), e: (Seq<char>, Seq<u8>, Seq<char>), path: Seq<char>) -> bool {
    &&& e.2 == path
    &&& k.0 == wkd_hash(e.0)
    &&& exists|addr: Seq<char>| #[trigger] key_entry_of(addr) == Some((e.0, k))
}

/// The views of the identities' email addresses.
pub open spec fn email_views(emails: Seq<Option<String>>) -> Seq<Option<Seq<char>>> {
    emails.map_values(
        |o: Option<String>|
            match o {
                Some(e) => Some(e@),
                None => None,
            },
    )
}

/// Which identities yield entries: for each identity with an email address, in
/// order, its index, local part and lookup key; identities without one are
/// skipped. The first address that does not parse fails the whole file.
pub open spec fn identity_plan(emails: Seq<Option<Seq<char>>>) -> Result<
    Seq<(int, Seq<char>, (Seq<char>, Seq<char>))>,
    Seq<char>,
>
    decreases emails.len(),
{
    if emails.len() == 0 {
        Ok(Seq::empty())
    } else {
        match identity_plan(emails.drop_last()) {
            Err(e) => Err(e),
            Ok(s) => match emails.last() {
                None => Ok(s),
                Some(e) => match key_entry_of(e) {
                    None => Err(e),
                    Some((u, k)) => Ok(s.push(((emails.len() - 1) as int, u, k))),
                },
            },
        }
    }
}

/// The views of planned identities.
pub open spec fn plan_views(v: Seq<(usize, String, CertKey)>) -> Seq<
    (int, Seq<char>, (Seq<char>, Seq<char>)),
> {
    v.map_values(|t: (usize, String, CertKey)| (t.0 as int, t.1@, t.2@))
}

/// Decides, from the email address of each valid identity (`None` for an
/// identity without one), which identities become entries and under which keys.
pub fn plan_identities(emails: &Vec<Option<String>>) -> (r: Result<Vec<(usize, String, CertKey)>, LoadError>)
    ensures
        match identity_plan(email_views(emails@)) {
            Ok(s) => r matches Ok(v) && plan_views(v@) == s,
            Err(e) => r matches Err(LoadError::UnparsableEmail(x)) && x@ == e,
        },
{
    let mut out: Vec<(usize, String, CertKey)> = Vec::new();
    let mut i: usize = 0;
    assert(email_views(emails@).take(0) =~= Seq::<Option<Seq<char>>>::empty());
    assert(plan_views(out@) =~= Seq::<(int, Seq<char>, (Seq<char>, Seq<char>))>::empty());
    while i < emails.len()
        invariant
            i <= emails@.len(),
            identity_plan(email_views(emails@).take(i as int)) == Ok::<
                Seq<(int, Seq<char>, (Seq<char>, Seq<char>))>,
                Seq<char>,
            >(plan_views(out@)),
        decreases emails@.len() - i,
    {
        let ghost before = email_views(emails@).take(i as int);
        assert(email_views(emails@).take(i + 1).drop_last() =~= before);
        match &emails[i] {
            None => {},
            Some(email) => {
                match mail_to_key_entry(email.as_str()) {
                    Ok(Some((username, key))) => {
                        let ghost old_out = out@;
                        out.push((i, username, key));
                        assert(out@.drop_last() =~= old_out);
                        assert(plan_views(out@) =~= plan_views(old_out).push(
                            (i as int, out@.last().1@, out@.last().2@),
                        ));
                    },
                    _ => {
                        proof {
                            lemma_plan_fails_on(email_views(emails@), i as int);
                        }
                        return Err(LoadError::UnparsableEmail(email.clone()));
                    },
                }
            },
        }
        i = i + 1;
    }
    assert(email_views(emails@).take(i as int) =~= email_views(emails@));
    Ok(out)
}

/// Once a prefix of the addresses fails to plan, every longer prefix fails
/// with the same address.
proof fn lemma_plan_fails_on(emails: Seq<Option<Seq<char>>>, i: int)
    requires
        0 <= i < emails.len(),
        identity_plan(emails.take(i)) is Ok,
        emails[i] is Some,
        key_entry_of(emails[i]->0) is None,
    ensures
        identity_plan(emails) == Err::<Seq<(int, Seq<char>, (Seq<char>, Seq<char>))>, Seq<char>>(
            emails[i]->0,
        ),
    decreases emails.len(),
{
    if emails.len() == i + 1 {
        assert(emails.drop_last() =~= emails.take(i));
    } else {
        assert(emails.drop_last().take(i) =~= emails.take(i));
        lemma_plan_fails_on(emails.drop_last(), i);
    }
}

/// The entries for planned identities: entry `j` holds the key and local part
/// of plan item `j`, certificate `certs[j]`, and source `path`.
pub fn entries_from_plan(
    plan: &Vec<(usize, String, CertKey)>,
    certs: Vec<Vec<u8>>,
    path: &str,
) -> (r: Vec<(CertKey, CertEntry)>)
    requires
        certs@.len() == plan@.len(),
    ensures
        r@.len() == plan@.len(),
        forall|j: int|
            0 <= j < plan@.len() ==> (#[trigger] r@[j]).0@ == plan@[j].2@ && r@[j].1.username@
                == plan@[j].1@ && r@[j].1.cert@ == certs@[j]@ && r@[j].1.path@ == path@,
{
    let ghost all = certs@;
    let mut rest = certs;
    let mut out: Vec<(CertKey, CertEntry)> = Vec::new();
    let mut j: usize = 0;
    while j < plan.len()
        invariant
            j <= plan@.len(),
            all.len() == plan@.len(),
            rest@ == all.skip(j as int),
            out@.len() == j,
            forall|t: int|
                0 <= t < j ==> (#[trigger] out@[t]).0@ == plan@[t].2@ && out@[t].1.username@
                    == plan@[t].1@ && out@[t].1.cert@ == all[t]@ && out@[t].1.path@ == path@,
        decreases plan@.len() - j,
    {
        let cert = rest.remove(0);
        assert(rest@ =~= all.skip(j + 1));
        let item = &plan[j];
        let key = CertKey {
            hashed_username: item.2.hashed_username.clone(),
            domain: item.2.domain.clone(),
        };
        let entry = CertEntry { username: item.1.clone(), cert, path: path.to_owned() };
        out.push((key, entry));
        j = j + 1;
    }
    out
}

/// Reads a key file's contents into index entries for `path`. Bytes that hold
/// no public certificate give no entries. Otherwise there is one entry per
/// policy-valid identity with an email address, in order; an identity whose
/// address cannot be read is skipped. With `split_keys`, each entry's
/// certificate keeps only its own identity; otherwise every entry carries the
/// whole public certificate.
pub fn read_key_bytes(content: &[u8], path: &str, split_keys: bool) -> (r: Result<
    Vec<(CertKey, CertEntry)>,
    LoadError,
>)
    ensures
        !public_cert_parses(content@) ==> (r matches Ok(v) && v@.len() == 0),
        r matches Ok(v) ==> exists|emails: Seq<Option<Seq<char>>>|
            #[trigger] identity_plan(emails) is Ok && v@.len() == identity_plan(emails)->Ok_0.len()
                && forall|j: int|
                0 <= j < v@.len() ==> (#[trigger] v@[j]).0@ == identity_plan(emails)->Ok_0[j].2
                    && v@[j].1.username@ == identity_plan(emails)->Ok_0[j].1 && v@[j].1.path@
                    == path@,
        r matches Ok(v) ==> forall|i: int|
            0 <= i < v@.len() ==> loaded_from(#[trigger] v@[i].0@, v@[i].1@, path@),
        r matches Err(e) ==> !(e is NotAFile),
{
    let cert = match parse_public_cert(content) {
        None => {
            proof {
                let none = Seq::<Option<Seq<char>>>::empty();
                assert(identity_plan(none)->Ok_0.len() == 0);
            }
            return Ok(Vec::new());
        },
        Some(c) => c,
    };
    let uids = match valid_userids(&cert) {
        Err(_) => return Err(LoadError::InvalidCertificate),
        Ok(u) => u,
    };
    let mut emails: Vec<Option<String>> = Vec::new();
    let mut i: usize = 0;
    while i < uids.len()
        invariant
            i <= uids@.len(),
            emails@.len() == i,
            public_cert_parses(content@),
        decreases uids@.len() - i,
    {
        let email = match userid_email(&uids[i]) {
            Ok(e) => e,
            Err(_) => None,
        };
        emails.push(email);
        i = i + 1;
    }
    let plan = plan_identities(&emails)?;
    let ghost ev = email_views(emails@);
    let mut certs: Vec<Vec<u8>> = Vec::new();
    let mut j: usize = 0;
    while j < plan.len()
        invariant
            j <= plan@.len(),
            certs@.len() == j,
            public_cert_parses(content@),
            emails@.len() == uids@.len(),
            ev == email_views(emails@),
            plan_views(plan@) == identity_plan(ev)->Ok_0,
            identity_plan(ev) is Ok,
        decreases plan@.len() - j,
    {
        proof {
            lemma_plan_entry(ev, j as int);
        }
        let mut cert_copy = public_copy(&cert);
        if split_keys {
            cert_copy = retain_only(cert_copy, &uids[plan[j].0]);
        }
        let bytes = match serialize_cert(&cert_copy) {
            Ok(b) => b,
            Err(_) => return Err(LoadError::Serialization),
        };
        certs.push(bytes);
        j = j + 1;
    }
    let out = entries_from_plan(&plan, certs, path);
    proof {
        let s = identity_plan(ev)->Ok_0;
        assert forall|t: int| 0 <= t < out@.len() implies loaded_from(
            #[trigger] out@[t].0@,
            out@[t].1@,
            path@,
        ) by {
            lemma_plan_entry(ev, t);
            assert(plan_views(plan@)[t] == (plan@[t].0 as int, plan@[t].1@, plan@[t].2@));
            assert(key_entry_of(ev[s[t].0]->0) == Some((out@[t].1@.0, out@[t].0@)));
        }
        assert forall|t: int| 0 <= t < out@.len() implies (#[trigger] out@[t]).0@ == s[t].2
            && out@[t].1.username@ == s[t].1 && out@[t].1.path@ == path@ by {
            assert(plan_views(plan@)[t] == (plan@[t].0 as int, plan@[t].1@, plan@[t].2@));
        }
        assert(identity_plan(ev) is Ok);
    }
    Ok(out)
}

/// Each planned identity has a valid index and comes from an address.
proof fn lemma_plan_entry(emails: Seq<Option<Seq<char>>>, j: int)
    requires
        identity_plan(emails) is Ok,
        0 <= j < identity_plan(emails)->Ok_0.len(),
    ensures
        0 <= identity_plan(emails)->Ok_0[j].0 < emails.len(),
        key_entry_of(emails[identity_plan(emails)->Ok_0[j].0]->0) == Some(
            (identity_plan(emails)->Ok_0[j].1, identity_plan(emails)->Ok_0[j].2),
        ),
        emails[identity_plan(emails)->Ok_0[j].0] is Some,
    decreases emails.len(),
{
    let t = emails.drop_last();
    if emails.len() > 0 {
        if j < identity_plan(t)->Ok_0.len() {
            lemma_plan_entry(t, j);
        }
    }
}

} // verus!
