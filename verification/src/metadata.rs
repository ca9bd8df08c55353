//! Per-principal metadata: a JSON document stored 1:1 with a principal,
//! created or overwritten by explicit writes and read on demand, with no
//! implicit expiry.  A document is a flat JSON object of named boolean
//! flags — such as the visitor's NSFW content preference — serialized as
//! `{"name":true,...}`.
use crate::kv::KVStore;
use crate::strutil::quote_free;
use crate::token::scan_quote;
use crate::AuthError;
use vstd::prelude::*;
use vstd::string::StrSliceExecFns;
use vstd::string::StringExecFns;

verus! {

/// The metadata document associated with a principal: named boolean
/// flags, in order.  Keys must be free of double quotes.
#[derive(Debug, PartialEq, Eq)]
pub struct UserMetadata {
    pub entries: Vec<(String, bool)>,
}

/// The (key characters, value) pairs a list of entries denotes.
pub open spec fn entries_view(es: Seq<(String, bool)>) -> Seq<(Seq<char>, bool)> {
    Seq::new(es.len(), |i: int| (es[i].0@, es[i].1))
}

impl UserMetadata {
    pub open spec fn view_entries(&self) -> Seq<(Seq<char>, bool)> {
        entries_view(self.entries@)
    }

    /// Keys contain no double quote: the document grammar depends on it.
    pub open spec fn wf(&self) -> bool {
        meta_keys_wf(self.view_entries())
    }
}

pub open spec fn meta_keys_wf(es: Seq<(Seq<char>, bool)>) -> bool {
    forall|i: int| 0 <= i < es.len() ==> quote_free(#[trigger] es[i].0)
}

/// The JSON text of a boolean value.
pub open spec fn bool_text(v: bool) -> Seq<char> {
    if v {
        "true"@
    } else {
        "false"@
    }
}

/// The JSON text of one field.
pub open spec fn pair_text(k: Seq<char>, v: bool) -> Seq<char> {
    "\""@ + k + "\":"@ + bool_text(v)
}

/// The comma-joined JSON texts of a document's fields.
pub open spec fn pairs_text(es: Seq<(Seq<char>, bool)>) -> Seq<char>
    decreases es.len(),
{
    if es.len() == 0 {
        Seq::empty()
    } else if es.len() == 1 {
        pair_text(es[0].0, es[0].1)
    } else {
        pair_text(es[0].0, es[0].1) + ","@ + pairs_text(es.drop_first())
    }
}

/// The JSON text a document serializes to.
pub open spec fn encode_meta_spec(es: Seq<(Seq<char>, bool)>) -> Seq<char> {
    "{"@ + pairs_text(es) + "}"@
}

/// Parses a nonempty field list starting at `i` and running to a closing
/// brace that ends the text.
pub open spec fn parse_meta_pairs(s: Seq<char>, i: nat) -> Option<Seq<(Seq<char>, bool)>>
    decreases s.len() - i, 1int,
{
    if i >= s.len() || s[i as int] != '"' {
        None
    } else {
        match scan_quote(s, i + 1) {
            None => None,
            Some(q) => {
                if q <= i || q + 1 >= s.len() || s[q as int + 1] != ':' {
                    None
                } else if q + 6 <= s.len() && s.subrange(q as int + 2, q as int + 6)
                    == "true"@ {
                    parse_meta_after(s, q + 6, s.subrange(i as int + 1, q as int), true)
                } else if q + 7 <= s.len() && s.subrange(q as int + 2, q as int + 7)
                    == "false"@ {
                    parse_meta_after(s, q + 7, s.subrange(i as int + 1, q as int), false)
                } else {
                    None
                }
            },
        }
    }
}

/// After one parsed field: either the text closes here, or a comma
/// introduces further fields.
pub open spec fn parse_meta_after(s: Seq<char>, j: nat, k: Seq<char>, v: bool) -> Option<
    Seq<(Seq<char>, bool)>,
>
    decreases s.len() - j, 0int,
{
    if j == s.len() - 1 && s[j as int] == '}' {
        Some(seq![(k, v)])
    } else if j < s.len() && s[j as int] == ',' {
        match parse_meta_pairs(s, j + 1) {
            None => None,
            Some(rest) => Some(seq![(k, v)] + rest),
        }
    } else {
        None
    }
}

/// The document a stored text deserializes to: the inverse of
/// `encode_meta_spec`, `None` for any other text.
pub open spec fn spec_decode_meta(s: Seq<char>) -> Option<Seq<(Seq<char>, bool)>> {
    if s.len() == 2 && s[0] == '{' && s[1] == '}' {
        Some(Seq::empty())
    } else if s.len() >= 2 && s[0] == '{' {
        parse_meta_pairs(s, 1)
    } else {
        None
    }
}

/// Serializes a metadata document.
pub fn encode_metadata(m: &UserMetadata) -> (r: String)
    ensures
        r@ == encode_meta_spec(m.view_entries()),
{
    let mut out = String::new();
    out.append("{");
    append_pairs(&m.entries, 0, &mut out);
    out.append("}");
    proof {
        assert(entries_view(m.entries@).subrange(0, m.entries@.len() as int) =~= m.view_entries());
        assert(out@ =~= encode_meta_spec(m.view_entries()));
    }
    out
}

/// Appends the texts of the fields from `i` on, comma-joined.
fn append_pairs(entries: &Vec<(String, bool)>, i: usize, out: &mut String)
    requires
        i <= entries@.len(),
    ensures
        final(out)@ == old(out)@ + pairs_text(
            entries_view(entries@).subrange(i as int, entries@.len() as int),
        ),
    decreases entries@.len() - i,
{
    let ghost sub = entries_view(entries@).subrange(i as int, entries@.len() as int);
    if i >= entries.len() {
        proof {
            assert(sub =~= Seq::<(Seq<char>, bool)>::empty());
            assert(out@ =~= old(out)@ + pairs_text(sub));
        }
        return ;
    }
    out.append("\"");
    out.append(entries[i].0.as_str());
    out.append("\":");
    if entries[i].1 {
        out.append("true");
    } else {
        out.append("false");
    }
    if i + 1 < entries.len() {
        out.append(",");
        append_pairs(entries, i + 1, out);
        proof {
            assert(sub.drop_first() =~= entries_view(entries@).subrange(
                i as int + 1,
                entries@.len() as int,
            ));
            assert(sub[0] == (entries@[i as int].0@, entries@[i as int].1));
            assert(out@ =~= old(out)@ + pairs_text(sub));
        }
    } else {
        proof {
            assert(sub.len() == 1);
            assert(sub[0] == (entries@[i as int].0@, entries@[i as int].1));
            assert(out@ =~= old(out)@ + pairs_text(sub));
        }
    }
}

/// Deserializes a metadata document; `None` exactly on text that no
/// document serializes to.
pub fn decode_metadata(s: &str) -> (r: Option<UserMetadata>)
    ensures
        match r {
            Some(m) => spec_decode_meta(s@) == Some(m.view_entries()),
            None => spec_decode_meta(s@) is None,
        },
{
    let n = s.unicode_len();
    if n == 2 && s.get_char(0) == '{' && s.get_char(1) == '}' {
        let m = UserMetadata { entries: Vec::new() };
        proof {
            assert(m.view_entries() =~= Seq::<(Seq<char>, bool)>::empty());
        }
        return Some(m);
    }
    if n >= 2 && s.get_char(0) == '{' {
        match parse_pairs_exec(s, 1) {
            Some(entries) => {
                let m = UserMetadata { entries };
                Some(m)
            },
            None => None,
        }
    } else {
        None
    }
}

/// Executable mirror of `parse_meta_pairs`.
fn parse_pairs_exec(s: &str, i: usize) -> (r: Option<Vec<(String, bool)>>)
    requires
        i <= s@.len(),
    ensures
        match r {
            Some(v) => parse_meta_pairs(s@, i as nat) == Some(entries_view(v@)),
            None => parse_meta_pairs(s@, i as nat) is None,
        },
    decreases s@.len() - i,
{
    let n = s.unicode_len();
    if i >= n {
        return None;
    }
    if s.get_char(i) != '"' {
        return None;
    }
    let mut q: usize = i + 1;
    while q < n && s.get_char(q) != '"'
        invariant
            i + 1 <= q <= n,
            n == s@.len(),
            scan_quote(s@, (i + 1) as nat) == scan_quote(s@, q as nat),
        decreases n - q,
    {
        proof {
            assert(scan_quote(s@, q as nat) == scan_quote(s@, (q + 1) as nat));
        }
        q = q + 1;
    }
    if q == n {
        proof {
            assert(scan_quote(s@, q as nat) is None);
        }
        return None;
    }
    proof {
        assert(scan_quote(s@, (i + 1) as nat) == Some(q as nat));
    }
    if q + 1 >= n {
        return None;
    }
    if s.get_char(q + 1) != ':' {
        return None;
    }
    let ghost kview = s@.subrange(i as int + 1, q as int);
    let is_true = n - q >= 6 && s.get_char(q + 2) == 't' && s.get_char(q + 3) == 'r'
        && s.get_char(q + 4) == 'u' && s.get_char(q + 5) == 'e';
    let is_false = !is_true && n - q >= 7 && s.get_char(q + 2) == 'f' && s.get_char(q + 3) == 'a'
        && s.get_char(q + 4) == 'l' && s.get_char(q + 5) == 's' && s.get_char(q + 6) == 'e';
    proof {
        reveal_strlit("true");
        reveal_strlit("false");
        if is_true {
            assert(s@.subrange(q as int + 2, q as int + 6) =~= "true"@);
        } else {
            if q + 6 <= n {
                let ghost t4 = s@.subrange(q as int + 2, q as int + 6);
                assert(t4[0] == s@[q as int + 2] && t4[1] == s@[q as int + 3] && t4[2] == s@[
                    q as int + 4] && t4[3] == s@[q as int + 5]);
                assert(t4 == "true"@ ==> s@[q as int + 2] == 't' && s@[q as int + 3] == 'r'
                    && s@[q as int + 4] == 'u' && s@[q as int + 5] == 'e');
            }
            if is_false {
                assert(s@.subrange(q as int + 2, q as int + 7) =~= "false"@);
            } else if q + 7 <= n {
                let ghost t5 = s@.subrange(q as int + 2, q as int + 7);
                assert(t5[0] == s@[q as int + 2] && t5[1] == s@[q as int + 3] && t5[2] == s@[
                    q as int + 4] && t5[3] == s@[q as int + 5] && t5[4] == s@[q as int + 6]);
                assert(t5 == "false"@ ==> s@[q as int + 2] == 'f' && s@[q as int + 3] == 'a'
                    && s@[q as int + 4] == 'l' && s@[q as int + 5] == 's' && s@[q as int + 6]
                    == 'e');
            }
        }
    }
    if !is_true && !is_false {
        return None;
    }
    let v: bool = is_true;
    let j: usize = if is_true {
        q + 6
    } else {
        q + 7
    };
    let key = s.substring_char(i + 1, q).to_owned();
    if j == n - 1 && s.get_char(j) == '}' {
        let mut out: Vec<(String, bool)> = Vec::new();
        out.push((key, v));
        proof {
            assert(entries_view(out@) =~= seq![(kview, v)]);
        }
        return Some(out);
    }
    if j < n && s.get_char(j) == ',' {
        match parse_pairs_exec(s, j + 1) {
            Some(mut rest) => {
                let ghost restview = entries_view(rest@);
                rest.insert(0, (key, v));
                proof {
                    assert(entries_view(rest@) =~= seq![(kview, v)] + restview);
                }
                Some(rest)
            },
            None => None,
        }
    } else {
        None
    }
}

/// Serialization round-trips: every well-formed document deserializes
/// from its own encoding, so distinct documents have distinct encodings.
pub proof fn lemma_metadata_roundtrip(es: Seq<(Seq<char>, bool)>)
    requires
        meta_keys_wf(es),
    ensures
        spec_decode_meta(encode_meta_spec(es)) == Some(es),
{
    reveal_strlit("{");
    reveal_strlit("}");
    let s = encode_meta_spec(es);
    if es.len() == 0 {
        assert(pairs_text(es) == Seq::<char>::empty());
        assert(s.len() == 2);
        assert(s[0] == '{' && s[1] == '}');
    } else {
        lemma_pair_text_len(es[0].0, es[0].1);
        lemma_pairs_text_len(es);
        assert(s.len() >= 2 + 7);
        assert(s[0] == '{');
        assert(s.subrange(1, s.len() as int) =~= pairs_text(es) + "}"@);
        lemma_parse_pairs_of_text(s, 1, es);
    }
}

proof fn lemma_pair_text_len(k: Seq<char>, v: bool)
    ensures
        pair_text(k, v).len() == 7 + k.len() || pair_text(k, v).len() == 8 + k.len(),
{
    reveal_strlit("\"");
    reveal_strlit("\":");
    reveal_strlit("true");
    reveal_strlit("false");
}

proof fn lemma_pairs_text_len(es: Seq<(Seq<char>, bool)>)
    requires
        es.len() >= 1,
    ensures
        pairs_text(es).len() >= 7,
    decreases es.len(),
{
    lemma_pair_text_len(es[0].0, es[0].1);
}

/// The character layout of one printed field.
proof fn lemma_pair_structure(k: Seq<char>, v: bool)
    ensures
        pair_text(k, v).len() == 3 + k.len() + bool_text(v).len(),
        pair_text(k, v)[0] == '"',
        forall|t: int| 0 <= t < k.len() ==> pair_text(k, v)[1 + t] == k[t],
        pair_text(k, v)[1 + k.len() as int] == '"',
        pair_text(k, v)[2 + k.len() as int] == ':',
        forall|t: int| 0 <= t < bool_text(v).len() ==> pair_text(k, v)[3 + k.len() + t]
            == bool_text(v)[t],
        bool_text(v).len() == (if v { 4int } else { 5int }),
{
    reveal_strlit("\"");
    reveal_strlit("\":");
    reveal_strlit("true");
    reveal_strlit("false");
}

/// Parsing inverts printing: a field list printed at `i`, closed by the
/// final brace that ends the text, parses back to exactly that list.
#[verifier::rlimit(50)]
proof fn lemma_parse_pairs_of_text(s: Seq<char>, i: int, es: Seq<(Seq<char>, bool)>)
    requires
        meta_keys_wf(es),
        es.len() >= 1,
        0 <= i < s.len(),
        s.subrange(i, s.len() as int) == pairs_text(es) + "}"@,
    ensures
        parse_meta_pairs(s, i as nat) == Some(es),
    decreases es.len(),
{
    reveal_strlit("\"");
    reveal_strlit("\":");
    reveal_strlit("true");
    reveal_strlit("false");
    reveal_strlit(",");
    reveal_strlit("}");
    let k = es[0].0;
    let v = es[0].1;
    let pt = pair_text(k, v);
    let tail = s.subrange(i, s.len() as int);
    lemma_pair_structure(k, v);
    assert(quote_free(k));
    assert(forall|x: int| 0 <= x < tail.len() ==> tail[x] == s[i + x]);
    if es.len() > 1 {
        assert(pairs_text(es) == pt + ","@ + pairs_text(es.drop_first()));
        lemma_pairs_text_len(es.drop_first());
        assert(tail.len() == pt.len() + 1 + pairs_text(es.drop_first()).len() + 1);
    } else {
        assert(pairs_text(es) == pt);
        assert(tail.len() == pt.len() + 1);
    }
    assert(forall|x: int| 0 <= x < pt.len() ==> tail[x] == pt[x]);
    assert(s[i] == '"');
    let q = i + 1 + k.len() as int;
    assert(forall|t: int| i + 1 <= t < q ==> s[t] == k[t - i - 1]);
    assert(forall|t: int| i + 1 <= t < q ==> s[t] != '"');
    assert(s[q] == pt[1 + k.len() as int]);
    assert(s[q] == '"');
    assert(q - i < pt.len());
    assert(q < s.len());
    crate::token::lemma_scan_quote_finds(s, (i + 1) as nat, q as nat);
    assert(s[q + 1] == ':');
    let j = if v {
        q + 6
    } else {
        q + 7
    };
    assert(j == q + 2 + bool_text(v).len());
    assert(j == i + pt.len() as int);
    assert(forall|t: int| 0 <= t < bool_text(v).len() ==> s[q + 2 + t] == bool_text(v)[t]);
    if v {
        assert(s.subrange(q + 2, q + 6) =~= "true"@);
    } else {
        assert(s.subrange(q + 2, q + 7) =~= "false"@);
        if q + 6 <= s.len() {
            assert(s.subrange(q + 2, q + 6)[0] == s[q + 2]);
            assert(s[q + 2] == 'f');
            assert(("true"@)[0] == 't');
            assert(s.subrange(q + 2, q + 6) != "true"@);
        }
    }
    assert(s.subrange(i + 1, q) =~= k);
    if es.len() == 1 {
        assert(j == s.len() - 1);
        assert(tail[pt.len() as int] == '}');
        assert(s[j] == '}');
        assert(parse_meta_after(s, j as nat, k, v) == Some(seq![(k, v)]));
        assert(seq![(k, v)] =~= es);
    } else {
        let rest = es.drop_first();
        assert(tail[pt.len() as int] == ',');
        assert(s[j] == ',');
        assert(j < s.len());
        assert(forall|x: int| 0 <= x < pairs_text(rest).len() + 1 ==> tail[pt.len() + 1 + x]
            == (pairs_text(rest) + "}"@)[x]);
        assert(s.subrange(j + 1, s.len() as int) =~= pairs_text(rest) + "}"@);
        assert(meta_keys_wf(rest)) by {
            assert(forall|t: int| 0 <= t < rest.len() ==> rest[t] == es[t + 1]);
        }
        lemma_parse_pairs_of_text(s, j + 1, rest);
        assert(parse_meta_after(s, j as nat, k, v) == Some(seq![(k, v)] + rest));
        assert(seq![(k, v)] + rest =~= es);
    }
}

impl KVStore {
    /// Serializes `m` and binds it to `key` in the metadata namespace:
    /// exactly one write, appended to the journal.
    pub fn write_json_metadata(&mut self, key: String, m: &UserMetadata)
        ensures
            final(self).secrets_log() == old(self).secrets_log(),
            final(self).metadata_log().len() == old(self).metadata_log().len() + 1,
            final(self).metadata_log().drop_last() == old(self).metadata_log(),
            final(self).metadata_log().last().0@ == key@,
            final(self).metadata_log().last().1@ == encode_meta_spec(m.view_entries()),
            final(self).metadata_at(key@) == Some(encode_meta_spec(m.view_entries())),
            forall|k2: Seq<char>| k2 != key@ ==> final(self).metadata_at(k2)
                == old(self).metadata_at(k2),
    {
        let value = encode_metadata(m);
        self.write_metadata_raw(key, value);
        proof {
            assert(self.metadata_log().drop_last() =~= old(self).metadata_log());
        }
    }

    /// Reads and deserializes the metadata bound to `key`: the document
    /// for a present well-formed text, `None` for an absent key, an error
    /// for stored text that is not a valid document.
    pub fn read_json_metadata(&self, key: &str) -> (r: Result<Option<UserMetadata>, AuthError>)
        ensures
            match r {
                Ok(Some(m)) => self.metadata_at(key@) matches Some(t) && spec_decode_meta(t)
                    == Some(m.view_entries()),
                Ok(None) => self.metadata_at(key@) is None,
                Err(e) => e == AuthError::MetadataDecode
                    && (self.metadata_at(key@) matches Some(t) && spec_decode_meta(t) is None),
            },
    {
        match self.read_metadata_raw(key) {
            None => Ok(None),
            Some(s) => match decode_metadata(s.as_str()) {
                Some(m) => Ok(Some(m)),
                None => Err(AuthError::MetadataDecode),
            },
        }
    }
}

} // verus!
