//! The identity hasher: splitting an address into local part and domain, and
//! deriving the lookup hash of a local part.

use crate::db::CertKey;
use crate::loader::LoadError;
use sha1::Digest;
use vstd::arithmetic::power2::pow2;
use vstd::prelude::*;
use vstd::utf8::encode_utf8;

verus! {

/// The z-base-32 alphabet, indexed by a 5-bit value.
pub open spec fn zbase32_alphabet() -> Seq<char> {
    seq![
        'y', 'b', 'n', 'd', 'r', 'f', 'g', '8', 'e', 'j', 'k', 'm', 'c', 'p', 'q', 'x',
        'o', 't', '1', 'u', 'w', 'i', 's', 'z', 'a', '3', '4', '5', 'h', '7', '6', '9',
    ]
}

/// Bit `j` of `b`, counting from the most significant bit of the first byte;
/// positions past the end read as zero.
pub open spec fn bit_at(b: Seq<u8>, j: int) -> nat {
    if 0 <= j < 8 * b.len() {
        ((b[j / 8] as nat) / pow2((7 - j % 8) as nat)) % 2
    } else {
        0
    }
}

/// The 5-bit group number `k` of `b`, zero-padded at the end.
pub open spec fn quintet(b: Seq<u8>, k: int) -> nat {
    16 * bit_at(b, 5 * k) + 8 * bit_at(b, 5 * k + 1) + 4 * bit_at(b, 5 * k + 2) + 2 * bit_at(
        b,
        5 * k + 3,
    ) + bit_at(b, 5 * k + 4)
}

/// z-base-32 encoding of all bits of `b`: one character per 5 bits, the last
/// group padded with zero bits.
pub open spec fn zbase32_full(b: Seq<u8>) -> Seq<char> {
    Seq::new(
        ((8 * b.len() + 4) / 5) as nat,
        |k: int| zbase32_alphabet()[quintet(b, k) as int],
    )
}

/// The SHA-1 digest of a byte sequence.
pub uninterp spec fn sha1_of(data: Seq<u8>) -> Seq<u8>;

/// The lookup hash of a local part: z-base-32 of the SHA-1 digest of its UTF-8
/// bytes, with no case folding or trimming.
pub open spec fn wkd_hash(local: Seq<char>) -> Seq<char> {
    zbase32_full(sha1_of(encode_utf8(local)))
}

/// Relies on sha1::Sha1 (through the Digest trait): the 20-byte digest of the
/// input, a function of the input alone.
#[verifier::external_body]
fn sha1_digest(data: &[u8]) -> (r: Vec<u8>)
    ensures
        r@ == sha1_of(data@),
        r@.len() == 20,
{
    let mut hasher = sha1::Sha1::new();
    hasher.update(data);
    hasher.finalize().to_vec()
}

/// Relies on zbase32::encode_full_bytes: the z-base-32 encoding of every bit of
/// the input, with the final group zero-padded.
#[verifier::external_body]
fn zbase32_encode(data: &[u8]) -> (r: String)
    ensures
        r@ == zbase32_full(data@),
{
    zbase32::encode_full_bytes(data)
}

/// Lookup hash of a local part (32 characters).
pub fn hash_file_name(name: &str) -> (r: String)
    ensures
        r@ == wkd_hash(name@),
        r@.len() == 32,
{
    let digest = sha1_digest(name.as_bytes());
    zbase32_encode(digest.as_slice())
}


/// No character of `s` is an `@`.
pub open spec fn at_free(s: Seq<char>) -> bool {
    forall|j: int| 0 <= j < s.len() ==> s[j] != '@'
}

/// `s` is a non-empty local part, the single `@` at index `i`, and a non-empty rest.
pub open spec fn splits_at(s: Seq<char>, i: int) -> bool {
    &&& 0 < i
    &&& i + 1 < s.len()
    &&& s[i] == '@'
    &&& at_free(s.take(i))
    &&& at_free(s.skip(i + 1))
}

/// The rest after the `@` without one trailing `.asc`, kept whole when
/// removing the suffix would leave nothing.
pub open spec fn without_asc(rest: Seq<char>) -> Seq<char> {
    if rest.len() > 4 && rest.skip(rest.len() - 4) == seq!['.', 'a', 's', 'c'] {
        rest.take(rest.len() - 4)
    } else {
        rest
    }
}

/// `local@domain`, optionally followed by `.asc`, split into local part and
/// domain; `None` unless the input holds exactly one `@` with text on both sides.
pub open spec fn address_parts(s: Seq<char>) -> Option<(Seq<char>, Seq<char>)> {
    if exists|i: int| splits_at(s, i) {
        let i = choose|i: int| splits_at(s, i);
        Some((s.take(i), without_asc(s.skip(i + 1))))
    } else {
        None
    }
}

/// Splits an address into its local part and domain.
pub fn parse_address(s: &str) -> (r: Option<(String, String)>)
    ensures
        r matches None <==> address_parts(s@) is None,
        r matches Some((l, d)) ==> address_parts(s@) == Some((l@, d@)),
{
    let n = s.unicode_len();
    let mut at: Option<usize> = None;
    let mut i: usize = 0;
    while i < n
        invariant
            n == s@.len(),
            i <= n,
            at matches None ==> at_free(s@.take(i as int)),
            at matches Some(p) ==> p < i && s@[p as int] == '@' && (forall|j: int|
                0 <= j < i && j != p ==> s@[j] != '@'),
        decreases n - i,
    {
        let c = s.get_char(i);
        if c == '@' {
            if let Some(p) = at {
                proof {
                    assert forall|k: int| !splits_at(s@, k) by {
                        if splits_at(s@, k) {
                            if k < i {
                                assert(s@.skip(k + 1)[i - k - 1] == '@');
                            } else {
                                assert(s@.take(k)[p as int] == '@');
                            }
                        }
                    }
                }
                return None;
            }
            proof {
                assert forall|j: int| 0 <= j < i implies s@[j] != '@' by {
                    assert(s@.take(i as int)[j] == s@[j]);
                }
            }
            at = Some(i);
        } else {
            proof {
                if at is None {
                    assert(s@.take(i + 1) == s@.take(i as int).push(c));
                }
            }
        }
        i = i + 1;
    }
    match at {
        None => {
            proof {
                assert(s@.take(n as int) == s@);
                assert forall|k: int| !splits_at(s@, k) by {
                    if splits_at(s@, k) {
                        assert(s@.take(n as int)[k] == '@');
                    }
                }
            }
            None
        },
        Some(p) => {
            if p == 0 || p + 1 == n {
                proof {
                    assert forall|k: int| !splits_at(s@, k) by {
                        if splits_at(s@, k) {
                            assert(k == p);
                        }
                    }
                }
                return None;
            }
            let rest_len = n - p - 1;
            let mut end = n;
            if rest_len > 4 && s.get_char(n - 4) == '.' && s.get_char(n - 3) == 'a'
                && s.get_char(n - 2) == 's' && s.get_char(n - 1) == 'c' {
                end = n - 4;
            }
            let local = s.substring_char(0, p).to_owned();
            let domain = s.substring_char(p + 1, end).to_owned();
            proof {
                let t = s@;
                assert forall|j: int| 0 <= j < t.take(p as int).len() implies #[trigger] t.take(p as int)[j]
                    != '@' by {
                    assert(t[j] != '@');
                }
                assert forall|j: int| 0 <= j < t.skip(p + 1).len() implies #[trigger] t.skip(p + 1)[j]
                    != '@' by {
                    assert(t[p + 1 + j] != '@');
                }
                assert(splits_at(t, p as int));
                assert forall|k: int| splits_at(t, k) implies k == p by {
                    if k != p {
                        assert(t[k] == '@');
                    }
                }
                let rest = t.skip(p + 1);
                if rest.len() > 4 && rest.skip(rest.len() - 4) == seq!['.', 'a', 's', 'c'] {
                    assert(rest.skip(rest.len() - 4)[0] == t[n - 4]);
                    assert(rest.skip(rest.len() - 4)[1] == t[n - 3]);
                    assert(rest.skip(rest.len() - 4)[2] == t[n - 2]);
                    assert(rest.skip(rest.len() - 4)[3] == t[n - 1]);
                }
                if end == n - 4 {
                    assert(rest.skip(rest.len() - 4) =~= seq!['.', 'a', 's', 'c']);
                    assert(t.subrange(p + 1, end as int) =~= rest.take(rest.len() - 4));
                } else {
                    assert(t.subrange(p + 1, end as int) =~= rest);
                }
                assert(t.subrange(0, p as int) =~= t.take(p as int));
            }
            Some((local, domain))
        },
    }
}


/// The local part and lookup key that an address yields, if it parses.
pub open spec fn key_entry_of(email: Seq<char>) -> Option<(Seq<char>, (Seq<char>, Seq<char>))> {
    match address_parts(email) {
        None => None,
        Some((l, d)) => Some((l, (wkd_hash(l), d))),
    }
}

/// Splits an address and derives its lookup key; `Ok(None)` when the address
/// does not parse. Never fails.
pub fn mail_to_key_entry(email: &str) -> (r: Result<Option<(String, CertKey)>, LoadError>)
    ensures
        r matches Ok(o) && match o {
            None => key_entry_of(email@) is None,
            Some((u, k)) => key_entry_of(email@) == Some((u@, k@)),
        },
{
    match parse_address(email) {
        None => Ok(None),
        Some((username, host)) => {
            let hashed_username = hash_file_name(username.as_str());
            let key = CertKey { hashed_username, domain: host };
            Ok(Some((username, key)))
        },
    }
}

} // verus!
