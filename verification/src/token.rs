//! The refresh-token codec.
//!
//! A refresh token is the pair (principal, expiry epoch in milliseconds),
//! carried client-side as the value of a signed cookie.  The value is the
//! JSON text `{"principal":"<text>","expiry_epoch_ms":<number>}`.  Tamper
//! protection is the cookie layer's job, not this codec's: decoding treats
//! a malformed or expired value exactly like an absent one.
use crate::crypto::is_principal_text;
use crate::digits::{append_u64, dec_digits, digits_val, is_canon_digits};
use crate::strutil::quote_free;
use vstd::prelude::*;
use vstd::string::StrSliceExecFns;
use vstd::string::StringExecFns;

verus! {

/// The text that precedes the principal.
pub open spec fn token_prefix() -> Seq<char> {
    "{\"principal\":\""@
}

/// The text between the principal and the expiry number.
pub open spec fn token_mid() -> Seq<char> {
    "\",\"expiry_epoch_ms\":"@
}

/// The encoding of a refresh token for principal `p` expiring at
/// `expiry_ms`.
pub open spec fn encode_spec(p: Seq<char>, expiry_ms: u64) -> Seq<char> {
    token_prefix() + p + token_mid() + dec_digits(expiry_ms as nat) + "}"@
}

/// The position of the first `"` at or after `i`.
pub open spec fn scan_quote(s: Seq<char>, i: nat) -> Option<nat>
    decreases s.len() - i,
{
    if i >= s.len() {
        None
    } else if s[i as int] == '"' {
        Some(i)
    } else {
        scan_quote(s, i + 1)
    }
}

/// The unique (principal, expiry) pair whose encoding is `s`, if any.
pub open spec fn spec_parse_token(s: Seq<char>) -> Option<(Seq<char>, u64)> {
    if s.len() < 36 || s.subrange(0, 14) != token_prefix() {
        None
    } else {
        match scan_quote(s, 14) {
            None => None,
            Some(q) => {
                if q + 21 > s.len() || s.subrange(q as int, q as int + 20) != token_mid()
                    || s[s.len() - 1] != '}' {
                    None
                } else {
                    let ds = s.subrange(q as int + 20, s.len() - 1);
                    if is_canon_digits(ds) && digits_val(ds) <= u64::MAX {
                        Some((s.subrange(14, q as int), digits_val(ds) as u64))
                    } else {
                        None
                    }
                }
            },
        }
    }
}

/// What decoding at time `now_ms` yields: the principal of a well-formed,
/// unexpired token whose principal text is canonical; nothing otherwise.
/// A token is valid up to and including its expiry instant.
pub open spec fn spec_decode(s: Seq<char>, now_ms: u64) -> Option<Seq<char>> {
    match spec_parse_token(s) {
        Some((p, e)) => if is_principal_text(p) && now_ms <= e {
            Some(p)
        } else {
            None
        },
        None => None,
    }
}

/// Serializes a refresh token.  The caller fixes the expiry; re-issuing a
/// token replaces the old value outright, it never extends it in place.
pub fn encode(principal_text: &str, expiry_epoch_ms: u64) -> (r: String)
    ensures
        r@ == encode_spec(principal_text@, expiry_epoch_ms),
{
    let mut out = String::new();
    out.append("{\"principal\":\"");
    out.append(principal_text);
    out.append("\",\"expiry_epoch_ms\":");
    append_u64(&mut out, expiry_epoch_ms);
    out.append("}");
    proof {
        assert(out@ =~= encode_spec(principal_text@, expiry_epoch_ms));
    }
    out
}

/// Deserializes a refresh token and checks it against the clock: the
/// principal of a well-formed token whose expiry has not passed, `None`
/// for anything else.
pub fn decode(s: &str, now_ms: u64) -> (r: Option<String>)
    ensures
        r is Some <==> spec_decode(s@, now_ms) is Some,
        r matches Some(t) ==> Some(t@) == spec_decode(s@, now_ms),
{
    let n = s.unicode_len();
    if n < 36 {
        return None;
    }
    let lit_pre: &str = "{\"principal\":\"";
    proof {
        reveal_strlit("{\"principal\":\"");
    }
    let mut i: usize = 0;
    while i < 14
        invariant
            0 <= i <= 14,
            n == s@.len(),
            36 <= n,
            lit_pre@ == token_prefix(),
            lit_pre@.len() == 14,
            forall|k: int| 0 <= k < i ==> s@[k] == token_prefix()[k],
        decreases 14 - i,
    {
        if s.get_char(i) != lit_pre.get_char(i) {
            proof {
                assert(s@.subrange(0, 14)[i as int] != token_prefix()[i as int]);
            }
            return None;
        }
        i = i + 1;
    }
    proof {
        assert(s@.subrange(0, 14) =~= token_prefix());
    }
    let mut q: usize = 14;
    while q < n && s.get_char(q) != '"'
        invariant
            14 <= q <= n,
            n == s@.len(),
            scan_quote(s@, 14) == scan_quote(s@, q as nat),
        decreases n - q,
    {
        proof {
            assert(scan_quote(s@, q as nat) == scan_quote(s@, (q + 1) as nat));
        }
        q = q + 1;
    }
    if q == n {
        proof {
            assert(scan_quote(s@, q as nat) is None);
        }
        return None;
    }
    proof {
        assert(scan_quote(s@, 14) == Some(q as nat));
    }
    if q > n - 21 {
        return None;
    }
    let lit_mid: &str = "\",\"expiry_epoch_ms\":";
    proof {
        reveal_strlit("\",\"expiry_epoch_ms\":");
    }
    let mut j: usize = 0;
    while j < 20
        invariant
            0 <= j <= 20,
            n == s@.len(),
            14 <= q,
            q + 21 <= n,
            scan_quote(s@, 14) == Some(q as nat),
            lit_mid@ == token_mid(),
            lit_mid@.len() == 20,
            forall|k: int| 0 <= k < j ==> s@[q + k] == token_mid()[k],
        decreases 20 - j,
    {
        if s.get_char(q + j) != lit_mid.get_char(j) {
            proof {
                assert(s@.subrange(q as int, q as int + 20)[j as int]
                    != token_mid()[j as int]);
            }
            return None;
        }
        j = j + 1;
    }
    proof {
        assert(s@.subrange(q as int, q as int + 20) =~= token_mid());
    }
    if s.get_char(n - 1) != '}' {
        return None;
    }
    let e: u64 = match crate::digits::parse_u64_digits(s, q + 20, n - 1) {
        Some(v) => v,
        None => {
            return None;
        },
    };
    let p = s.substring_char(14, q);
    if !crate::crypto::principal_text_valid(p) {
        return None;
    }
    if now_ms > e {
        return None;
    }
    Some(p.to_owned())
}

/// `scan_quote` finds the quote that is there.
pub(crate) proof fn lemma_scan_quote_finds(s: Seq<char>, i: nat, q: nat)
    requires
        i <= q < s.len(),
        s[q as int] == '"',
        forall|k: int| i <= k < q ==> s[k] != '"',
    ensures
        scan_quote(s, i) == Some(q),
    decreases q - i,
{
    if i < q {
        lemma_scan_quote_finds(s, i + 1, q);
    }
}

/// What a successful `scan_quote` says about the string.
pub(crate) proof fn lemma_scan_quote_props(s: Seq<char>, i: nat, q: nat)
    requires
        scan_quote(s, i) == Some(q),
    ensures
        i <= q < s.len(),
        s[q as int] == '"',
        forall|k: int| i <= k < q ==> s[k] != '"',
    decreases s.len() - i,
{
    if i < s.len() && s[i as int] != '"' {
        lemma_scan_quote_props(s, i + 1, q);
    }
}

/// Parsing inverts encoding: the encoding of any quote-free principal and
/// any expiry parses back to exactly that pair.
pub proof fn lemma_parse_encode(p: Seq<char>, e: u64)
    requires
        quote_free(p),
    ensures
        spec_parse_token(encode_spec(p, e)) == Some((p, e)),
{
    let s = encode_spec(p, e);
    reveal_strlit("{\"principal\":\"");
    reveal_strlit("\",\"expiry_epoch_ms\":");
    reveal_strlit("}");
    crate::digits::lemma_dec_digits_canon(e as nat);
    let dd = dec_digits(e as nat);
    let q: int = 14 + p.len() as int;
    assert(s.len() == 35 + p.len() + dd.len());
    assert(s.subrange(0, 14) =~= token_prefix());
    assert(s.subrange(14, q) =~= p);
    assert(s.subrange(q, q + 20) =~= token_mid());
    assert(s.subrange(q + 20, s.len() - 1) =~= dd);
    assert(s[s.len() - 1] == '}');
    assert(forall|k: int| 14 <= k < q ==> s[k] == p[k - 14] && s[k] != '"');
    assert(s[q] == token_mid()[0]);
    lemma_scan_quote_finds(s, 14, q as nat);
}

/// Only exact encodings parse: a successful parse reconstructs its input.
pub proof fn lemma_parse_shape(s: Seq<char>, p: Seq<char>, e: u64)
    requires
        spec_parse_token(s) == Some((p, e)),
    ensures
        s == encode_spec(p, e),
        quote_free(p),
{
    reveal_strlit("{\"principal\":\"");
    reveal_strlit("\",\"expiry_epoch_ms\":");
    reveal_strlit("}");
    let q = scan_quote(s, 14)->Some_0;
    lemma_scan_quote_props(s, 14, q);
    let ds = s.subrange(q as int + 20, s.len() - 1);
    crate::digits::lemma_canon_digits_roundtrip(ds);
    assert(dec_digits(e as nat) == ds);
    assert(p == s.subrange(14, q as int));
    assert(forall|k: int| 0 <= k < p.len() ==> p[k] == s[14 + k]);
    assert(quote_free(p));
    assert(s =~= encode_spec(p, e));
}

/// A refresh token decodes to exactly the principal it was issued for, as
/// long as its expiry instant has not passed.
pub proof fn lemma_token_roundtrip(p: Seq<char>, e: u64, now_ms: u64)
    requires
        quote_free(p),
        is_principal_text(p),
        now_ms <= e,
    ensures
        spec_decode(encode_spec(p, e), now_ms) == Some(p),
{
    lemma_parse_encode(p, e);
}

/// A token whose expiry lies in the past decodes to nothing: the stale
/// principal is never surfaced.
pub proof fn lemma_token_expired(p: Seq<char>, e: u64, now_ms: u64)
    requires
        quote_free(p),
        e < now_ms,
    ensures
        spec_decode(encode_spec(p, e), now_ms) is None,
{
    lemma_parse_encode(p, e);
}

} // verus!

