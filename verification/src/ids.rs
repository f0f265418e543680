//! Global object identifiers and pagination cursors.
//!
//! A global id encodes a `(type tag, pk, sk)` triple as base64 of the
//! colon-joined parts. Joining is reversible as long as the tag and the
//! partition key are colon-free; the sort key, split off last, may
//! contain colons. Decoding rejects anything the encoder cannot have
//! produced, never silently truncating or defaulting a field.

use vstd::prelude::*;

use base64::prelude::{Engine, BASE64_STANDARD_NO_PAD};

use crate::errors::DataError;

verus! {

/// The base64 rendering (standard alphabet, no padding) of a string's
/// UTF-8 bytes.
pub uninterp spec fn b64_of(s: Seq<char>) -> Seq<char>;

/// Relies on base64's `STANDARD_NO_PAD` engine: encoding depends on the
/// input alone.
#[verifier::external_body]
fn b64_encode_str(s: &str) -> (r: String)
    ensures
        r@ == b64_of(s@),
{
    BASE64_STANDARD_NO_PAD.encode(s)
}

/// Relies on base64's `STANDARD_NO_PAD` engine: with padding refused and
/// trailing bits checked, decoding succeeds exactly on encoder outputs
/// and inverts the encoding; a decode that fails, or yields bytes that
/// are not UTF-8, answers to no encoded string at all.
#[verifier::external_body]
fn b64_decode_str(s: &str) -> (r: Option<String>)
    ensures
        match r {
            Some(v) => b64_of(v@) == s@ && forall|w: Seq<char>|
                #[trigger] b64_of(w) == s@ ==> w == v@,
            None => forall|w: Seq<char>| #[trigger] b64_of(w) != s@,
        },
{
    match BASE64_STANDARD_NO_PAD.decode(s) {
        Ok(bytes) => String::from_utf8(bytes).ok(),
        Err(_) => None,
    }
}

/// The colon-joined form of a `(type tag, pk, sk)` triple.
pub open spec fn joined(prefix: Seq<char>, pk: Seq<char>, sk: Seq<char>) -> Seq<char> {
    prefix + seq![':'] + pk + seq![':'] + sk
}

/// The string contains no colon.
pub open spec fn no_colon(s: Seq<char>) -> bool {
    forall|i: int| 0 <= i < s.len() ==> s[i] != ':'
}

/// The position of the first colon, or the length when there is none.
pub open spec fn colon_idx(w: Seq<char>) -> int
    decreases w.len(),
{
    if w.len() == 0 {
        0
    } else if w[0] == ':' {
        0
    } else {
        1 + colon_idx(w.drop_first())
    }
}

/// The position characterised: everything before it is colon-free, and
/// it holds a colon unless it is the end.
pub proof fn lemma_colon_idx_split(w: Seq<char>, j: int)
    requires
        0 <= j <= w.len(),
        forall|i: int| 0 <= i < j ==> w[i] != ':',
        j < w.len() ==> w[j] == ':',
    ensures
        colon_idx(w) == j,
    decreases j,
{
    if w.len() > 0 {
        if j == 0 {
        } else {
            assert(forall|i: int|
                0 <= i < w.drop_first().len() ==> #[trigger] w.drop_first()[i] == w[i + 1]);
            lemma_colon_idx_split(w.drop_first(), j - 1);
        }
    }
}

/// Splitting at the first two colons, the way the decoder reads a joined
/// triple: the first two parts end at the first two colons, the third is
/// the rest, colons and all. `None` when the string has fewer than two
/// colons.
pub open spec fn split3_spec(w: Seq<char>) -> Option<(Seq<char>, Seq<char>, Seq<char>)> {
    let i1 = colon_idx(w);
    if i1 == w.len() {
        None
    } else {
        let rest = w.skip(i1 + 1);
        let i2 = colon_idx(rest);
        if i2 == rest.len() {
            None
        } else {
            Some((w.subrange(0, i1), rest.subrange(0, i2), rest.skip(i2 + 1)))
        }
    }
}

/// Joining then splitting returns the triple exactly, whenever the tag
/// and the partition key are colon-free.
pub proof fn lemma_split_of_joined(prefix: Seq<char>, pk: Seq<char>, sk: Seq<char>)
    requires
        no_colon(prefix),
        no_colon(pk),
    ensures
        split3_spec(joined(prefix, pk, sk)) == Some((prefix, pk, sk)),
{
    let w = joined(prefix, pk, sk);
    let pl = prefix.len() as int;
    let kl = pk.len() as int;
    assert(w.len() == pl + 1 + kl + 1 + sk.len());
    assert(forall|i: int| 0 <= i < pl ==> w[i] == prefix[i]);
    assert(w[pl] == ':');
    assert(forall|i: int| 0 <= i < kl ==> w[pl + 1 + i] == pk[i]);
    assert(w[pl + 1 + kl] == ':');
    assert(forall|i: int| 0 <= i < sk.len() ==> w[pl + 1 + kl + 1 + i] == sk[i]);
    lemma_colon_idx_split(w, pl);
    let rest = w.skip(pl + 1);
    assert(forall|i: int| 0 <= i < rest.len() ==> rest[i] == w[pl + 1 + i]);
    lemma_colon_idx_split(rest, kl);
    assert(w.subrange(0, pl) =~= prefix);
    assert(rest.subrange(0, kl) =~= pk);
    assert(rest.skip(kl + 1) =~= sk);
}

/// A decoded global identifier: the type tag and the two key parts of
/// the record it names.
#[derive(Debug)]
pub struct NodeId {
    pub prefix: String,
    pub pk: String,
    pub sk: String,
}

impl NodeId {
    /// Encodes a `(type tag, pk, sk)` triple as an opaque global id.
    pub fn global_id(prefix: &str, pk: &str, sk: &str) -> (r: String)
        ensures
            r@ == b64_of(joined(prefix@, pk@, sk@)),
    {
        let mut s = prefix.to_owned();
        s.append(":");
        s.append(pk);
        s.append(":");
        s.append(sk);
        proof {
            reveal_strlit(":");
            assert(":"@ =~= seq![':']);
            assert(s@ =~= joined(prefix@, pk@, sk@));
        }
        b64_encode_str(s.as_str())
    }

    /// Decodes an opaque global id back into its triple. Fails with
    /// `DecodeError` on anything `global_id` cannot have produced: bad
    /// base64, bytes that are not text, or text with fewer than two
    /// colons.
    pub fn from_global_id(id: &str) -> (r: Result<NodeId, DataError>)
        ensures
            match r {
                Ok(n) => {
                    &&& exists|w: Seq<char>| #[trigger] b64_of(w) == id@
                    &&& forall|w: Seq<char>|
                        #[trigger] b64_of(w) == id@ ==> split3_spec(w) == Some(
                            (n.prefix@, n.pk@, n.sk@),
                        )
                },
                Err(e) => {
                    &&& e == DataError::DecodeError
                    &&& forall|w: Seq<char>|
                        #[trigger] b64_of(w) == id@ ==> split3_spec(w) is None
                },
            },
    {
        let text = match b64_decode_str(id) {
            Some(t) => t,
            None => {
                return Err(DataError::DecodeError);
            },
        };
        match split3(text.as_str()) {
            Some((prefix, pk, sk)) => Ok(NodeId { prefix, pk, sk }),
            None => Err(DataError::DecodeError),
        }
    }

    /// Re-encodes this triple as its opaque global id.
    pub fn to_global_id(&self) -> (r: String)
        ensures
            r@ == b64_of(joined(self.prefix@, self.pk@, self.sk@)),
    {
        Self::global_id(self.prefix.as_str(), self.pk.as_str(), self.sk.as_str())
    }
}

/// Finds the first colon at or past `from`, or the length when none
/// remains.
fn find_colon(s: &str, from: usize) -> (r: usize)
    requires
        from <= s@.len(),
    ensures
        from <= r <= s@.len(),
        forall|i: int| from <= i < r ==> s@[i] != ':',
        r < s@.len() ==> s@[r as int] == ':',
{
    let n = s.unicode_len();
    let mut i: usize = from;
    while i < n
        invariant
            n == s@.len(),
            from <= i <= n,
            forall|j: int| from <= j < i ==> s@[j] != ':',
        decreases n - i,
    {
        if s.get_char(i) == ':' {
            return i;
        }
        i = i + 1;
    }
    i
}

/// Splits a string at its first two colons, the third part keeping any
/// further colons; `None` when the string has fewer than two colons.
fn split3(s: &str) -> (r: Option<(String, String, String)>)
    ensures
        match r {
            Some(parts) => split3_spec(s@) == Some((parts.0@, parts.1@, parts.2@)),
            None => split3_spec(s@) is None,
        },
{
    let n = s.unicode_len();
    let i1 = find_colon(s, 0);
    proof {
        lemma_colon_idx_split(s@, i1 as int);
    }
    if i1 == n {
        return None;
    }
    let ghost rest = s@.skip(i1 as int + 1);
    proof {
        assert(forall|i: int| 0 <= i < rest.len() ==> rest[i] == s@[i1 + 1 + i]);
    }
    let i2 = find_colon(s, i1 + 1);
    proof {
        assert(forall|i: int| 0 <= i < i2 - (i1 + 1) ==> rest[i] != ':');
        if i2 < n {
            assert(rest[i2 - (i1 + 1)] == ':');
        }
        lemma_colon_idx_split(rest, i2 - (i1 + 1));
    }
    if i2 == n {
        return None;
    }
    let a = s.substring_char(0, i1).to_owned();
    let b = s.substring_char(i1 + 1, i2).to_owned();
    let c = s.substring_char(i2 + 1, n).to_owned();
    proof {
        assert(a@ =~= s@.subrange(0, i1 as int));
        assert(b@ =~= rest.subrange(0, i2 - (i1 + 1)));
        assert(c@ =~= rest.skip(i2 - (i1 + 1) + 1));
    }
    Some((a, b, c))
}

} // verus!
