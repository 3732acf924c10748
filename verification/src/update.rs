//! The update orchestrator: verifying an inbound webhook signature and
//! applying a sync to the content store. The signature is an HMAC-SHA-256
//! tag over the raw request body, rendered as lowercase hex and compared
//! case-insensitively with the value presented in the
//! `x-hub-signature-256: sha256=<hex>` header.
use crate::post::post_views;
use crate::post::posts_of_texts;
use crate::post::sorted_desc;
use crate::post::ContextState;
use crate::text::spec_split;
use crate::text::spec_trim;
use crate::text::split_str;
use crate::text::trim;
use crate::wiki::wiki_of_file;
use crate::wiki::wiki_v;
use hmac::Mac;
use vstd::prelude::*;
use vstd::string::*;

verus! {

/// The signature string presented by the webhook caller.
#[derive(Debug, Clone)]
pub struct GithubSecret(pub String);

pub open spec fn hex_digit(d: int) -> char {
    if d == 0 {
        '0'
    } else if d == 1 {
        '1'
    } else if d == 2 {
        '2'
    } else if d == 3 {
        '3'
    } else if d == 4 {
        '4'
    } else if d == 5 {
        '5'
    } else if d == 6 {
        '6'
    } else if d == 7 {
        '7'
    } else if d == 8 {
        '8'
    } else if d == 9 {
        '9'
    } else if d == 10 {
        'a'
    } else if d == 11 {
        'b'
    } else if d == 12 {
        'c'
    } else if d == 13 {
        'd'
    } else if d == 14 {
        'e'
    } else {
        'f'
    }
}

/// Lowercase hexadecimal rendering, two digits per byte.
pub open spec fn hex_of(bytes: Seq<u8>) -> Seq<char>
    decreases bytes.len(),
{
    if bytes.len() == 0 {
        Seq::empty()
    } else {
        hex_of(bytes.drop_last()) + seq![
            hex_digit(bytes.last() as int / 16),
            hex_digit(bytes.last() as int % 16),
        ]
    }
}

fn hex_char_str(d: u8) -> (r: &'static str)
    requires
        d < 16,
    ensures
        r@ == seq![hex_digit(d as int)],
{
    proof {
        reveal_strlit("0");
        reveal_strlit("1");
        reveal_strlit("2");
        reveal_strlit("3");
        reveal_strlit("4");
        reveal_strlit("5");
        reveal_strlit("6");
        reveal_strlit("7");
        reveal_strlit("8");
        reveal_strlit("9");
        reveal_strlit("a");
        reveal_strlit("b");
        reveal_strlit("c");
        reveal_strlit("d");
        reveal_strlit("e");
        reveal_strlit("f");
    }
    if d == 0 {
        "0"
    } else if d == 1 {
        "1"
    } else if d == 2 {
        "2"
    } else if d == 3 {
        "3"
    } else if d == 4 {
        "4"
    } else if d == 5 {
        "5"
    } else if d == 6 {
        "6"
    } else if d == 7 {
        "7"
    } else if d == 8 {
        "8"
    } else if d == 9 {
        "9"
    } else if d == 10 {
        "a"
    } else if d == 11 {
        "b"
    } else if d == 12 {
        "c"
    } else if d == 13 {
        "d"
    } else if d == 14 {
        "e"
    } else {
        "f"
    }
}

/// Render bytes as lowercase hexadecimal, two digits per byte.
pub fn to_hex(data: &[u8]) -> (r: String)
    ensures
        r@ == hex_of(data@),
{
    let mut out = String::new();
    let mut i: usize = 0;
    proof {
        assert(data@.take(0) =~= Seq::<u8>::empty());
    }
    while i < data.len()
        invariant
            i <= data@.len(),
            out@ == hex_of(data@.take(i as int)),
        decreases data@.len() - i,
    {
        let b = data[i];
        out.append(hex_char_str(b / 16));
        out.append(hex_char_str(b % 16));
        proof {
            assert(data@.take(i + 1).drop_last() =~= data@.take(i as int));
            assert(data@.take(i + 1).last() == data@[i as int]);
            assert(out@ =~= hex_of(data@.take(i + 1)));
        }
        i += 1;
    }
    proof {
        assert(data@.take(data@.len() as int) =~= data@);
    }
    out
}

/// The code point of a character with ASCII uppercase folded to lowercase.
pub open spec fn lower_code(c: char) -> int {
    if 65 <= c as int <= 90 {
        c as int + 32
    } else {
        c as int
    }
}

/// Equality tolerant of ASCII character case.
pub open spec fn eq_ci(a: Seq<char>, b: Seq<char>) -> bool {
    a.len() == b.len() && forall|i: int| 0 <= i < a.len() ==> lower_code(a[i]) == lower_code(b[i])
}

fn eq_ignore_case(a: &str, b: &str) -> (r: bool)
    ensures
        r == eq_ci(a@, b@),
{
    let a_len = a.unicode_len();
    let b_len = b.unicode_len();
    if a_len != b_len {
        return false;
    }
    let mut i: usize = 0;
    while i < a_len
        invariant
            i <= a_len,
            a_len == a@.len(),
            b_len == b@.len(),
            a_len == b_len,
            forall|j: int| 0 <= j < i ==> lower_code(a@[j]) == lower_code(b@[j]),
        decreases a_len - i,
    {
        let ca = a.get_char(i) as u32;
        let cb = b.get_char(i) as u32;
        let la = if ca >= 65 && ca <= 90 {
            ca + 32
        } else {
            ca
        };
        let lb = if cb >= 65 && cb <= 90 {
            cb + 32
        } else {
            cb
        };
        if la != lb {
            return false;
        }
        i += 1;
    }
    true
}

/// The HMAC-SHA-256 tag of a message under a key.
pub uninterp spec fn hmac_sha256_of(key: Seq<char>, data: Seq<u8>) -> Seq<u8>;

/// Relies on hmac::Hmac<sha2::Sha256>: the HMAC-SHA-256 tag of `data` under
/// `secret`, a function of the two alone, 32 bytes long; any key length is
/// accepted.
#[verifier::external_body]
fn hmac_sha256(secret: &str, data: &[u8]) -> (r: Vec<u8>)
    ensures
        r@ == hmac_sha256_of(secret@, data@),
        r@.len() == 32,
{
    let mut mac = hmac::Hmac::<sha2::Sha256>::new_from_slice(secret.as_bytes()).expect(
        "any key length is accepted",
    );
    mac.update(data);
    mac.finalize().into_bytes().to_vec()
}

/// The signature this service computes for a body under a secret.
pub open spec fn digest_spec(secret: Seq<char>, body: Seq<u8>) -> Seq<char> {
    hex_of(hmac_sha256_of(secret, body))
}

/// The signature this service computes: lowercase hex of the HMAC-SHA-256
/// tag of `data` under `secret`.
pub fn compute_digest(secret: &str, data: &[u8]) -> (r: String)
    ensures
        r@ == digest_spec(secret@, data@),
{
    let mac = hmac_sha256(secret, data);
    to_hex(mac.as_slice())
}

/// A presented signature is accepted exactly when it equals the digest of
/// the body under the secret, tolerating character case.
pub open spec fn verify_spec(secret: Seq<char>, body: Seq<u8>, sig: Seq<char>) -> bool {
    eq_ci(digest_spec(secret, body), sig)
}

/// Check a presented signature against the secret over the raw body.
pub fn verify_signature(secret: &str, body: &[u8], github_sig: &str) -> (r: bool)
    ensures
        r == verify_spec(secret@, body@, github_sig@),
{
    let digest = compute_digest(secret, body);
    eq_ignore_case(digest.as_str(), github_sig)
}

/// A body signed with the secret itself always verifies: presenting the
/// digest of (secret, body) as the signature is accepted.
pub proof fn lemma_verify_accepts_own_digest(secret: Seq<char>, body: Seq<u8>, sig: Seq<char>)
    requires
        sig == digest_spec(secret, body),
    ensures
        verify_spec(secret, body, sig),
{
}

/// A lowercase hexadecimal digit.
pub open spec fn is_lower_hex(c: char) -> bool {
    (48 <= c as int <= 57) || (97 <= c as int <= 102)
}

proof fn lemma_hex_of_len(x: Seq<u8>)
    ensures
        hex_of(x).len() == 2 * x.len(),
    decreases x.len(),
{
    if x.len() > 0 {
        lemma_hex_of_len(x.drop_last());
    }
}

proof fn lemma_hex_of_lowercase(x: Seq<u8>)
    ensures
        forall|i: int| 0 <= i < hex_of(x).len() ==> is_lower_hex(hex_of(x)[i]),
    decreases x.len(),
{
    if x.len() > 0 {
        lemma_hex_of_lowercase(x.drop_last());
        lemma_hex_of_len(x.drop_last());
    }
}

proof fn lemma_hex_of_injective(x: Seq<u8>, y: Seq<u8>)
    requires
        hex_of(x) == hex_of(y),
    ensures
        x == y,
    decreases x.len(),
{
    lemma_hex_of_len(x);
    lemma_hex_of_len(y);
    if x.len() == 0 {
        assert(x =~= y);
    } else {
        let hx = hex_of(x);
        let hy = hex_of(y);
        let n = hx.len() as int;
        assert(hex_of(x.drop_last()) =~= hx.subrange(0, n - 2));
        assert(hex_of(y.drop_last()) =~= hy.subrange(0, n - 2));
        lemma_hex_of_injective(x.drop_last(), y.drop_last());
        assert(hx[n - 2] == hex_digit(x.last() as int / 16));
        assert(hx[n - 1] == hex_digit(x.last() as int % 16));
        assert(hy[n - 2] == hex_digit(y.last() as int / 16));
        assert(hy[n - 1] == hex_digit(y.last() as int % 16));
        assert(x.last() as int / 16 == y.last() as int / 16);
        assert(x.last() as int % 16 == y.last() as int % 16);
        assert(x.last() == y.last());
        assert(x =~= x.drop_last().push(x.last()));
        assert(y =~= y.drop_last().push(y.last()));
    }
}

/// Case-tolerant comparison never confuses distinct tags: the digest of
/// another (secret, body) pair is accepted exactly when the two HMAC tags
/// are equal byte for byte. That a changed body or secret yields a changed
/// tag is a property of the hash itself, outside what is stated here.
pub proof fn lemma_verify_pins_the_tag(
    secret: Seq<char>,
    body: Seq<u8>,
    secret2: Seq<char>,
    body2: Seq<u8>,
)
    ensures
        verify_spec(secret, body, digest_spec(secret2, body2)) <==> hmac_sha256_of(secret, body)
            == hmac_sha256_of(secret2, body2),
{
    let t1 = hmac_sha256_of(secret, body);
    let t2 = hmac_sha256_of(secret2, body2);
    if verify_spec(secret, body, digest_spec(secret2, body2)) {
        lemma_hex_of_lowercase(t1);
        lemma_hex_of_lowercase(t2);
        assert(hex_of(t1) =~= hex_of(t2)) by {
            assert(forall|i: int|
                0 <= i < hex_of(t1).len() ==> lower_code(hex_of(t1)[i]) == lower_code(
                    hex_of(t2)[i],
                ));
            assert forall|i: int| 0 <= i < hex_of(t1).len() implies hex_of(t1)[i] == hex_of(
                t2,
            )[i] by {
                assert(is_lower_hex(hex_of(t1)[i]) && is_lower_hex(hex_of(t2)[i]));
                assert(hex_of(t1)[i] as int == hex_of(t2)[i] as int);
            }
        }
        lemma_hex_of_injective(t1, t2);
    }
}

/// The signature presented in a `sha256=<hex>` header value: the text after
/// the first `=`, trimmed. A value without `=` carries no signature and is
/// rejected before any digest is computed.
pub fn github_secret(header_value: &str) -> (r: Option<String>)
    ensures
        ({
            let parts = spec_split(header_value@, seq!['=']);
            match r {
                Some(s) => parts.len() >= 2 && s@ == spec_trim(parts[1]),
                None => parts.len() < 2,
            }
        }),
{
    proof {
        reveal_strlit("=");
        assert("="@ =~= seq!['=']);
    }
    let parts = split_str(header_value, "=");
    if parts.len() >= 2 {
        Some(trim(parts[1].as_str()))
    } else {
        None
    }
}

impl GithubSecret {
    /// The signature a request presents, as the extractor builds it from
    /// the `x-hub-signature-256` header value; `None` when the value
    /// carries no signature.
    pub fn from_header_value(header_value: &str) -> (r: Option<GithubSecret>)
        ensures
            ({
                let parts = spec_split(header_value@, seq!['=']);
                match r {
                    Some(s) => parts.len() >= 2 && s.0@ == spec_trim(parts[1]),
                    None => parts.len() < 2,
                }
            }),
    {
        match github_secret(header_value) {
            Some(s) => Some(GithubSecret(s)),
            None => None,
        }
    }
}

/// A webhook call is authorized exactly when its header value carries a
/// signature that verifies against the secret over the raw body.
pub open spec fn webhook_ok(secret: Seq<char>, body: Seq<u8>, header: Seq<char>) -> bool {
    let parts = spec_split(header, seq!['=']);
    parts.len() >= 2 && verify_spec(secret, body, spec_trim(parts[1]))
}

/// Decide a webhook call from the header value and the raw body.
pub fn check_webhook(secret: &str, body: &[u8], header_value: &str) -> (r: bool)
    ensures
        r == webhook_ok(secret@, body@, header_value@),
{
    match github_secret(header_value) {
        Some(sig) => verify_signature(secret, body, sig.as_str()),
        None => false,
    }
}

/// The webhook answer: ok when the signature was valid, whatever became of
/// the individual pulls; unauthorized only on a failed signature check.
pub fn update_response(authorized: bool) -> (r: u16)
    ensures
        r == (if authorized {
            200u16
        } else {
            401u16
        }),
{
    if authorized {
        200
    } else {
        401
    }
}

/// Apply one sync to the store. For each repository whose pull succeeded
/// its freshly read files are handed over and that field is rebuilt in
/// full; a failed pull leaves its field at the previous snapshot, and never
/// touches the other. Repositories are positional: index 0 reloads the
/// posts, index 1 the wiki. The secret and the repository paths never
/// change.
pub fn apply_sync(
    ctx: &mut ContextState,
    blog_texts: Option<Vec<String>>,
    wiki_files: Option<Vec<(String, String)>>,
)
    ensures
        final(ctx).secret == old(ctx).secret,
        final(ctx).repos == old(ctx).repos,
        old(ctx).wf() ==> final(ctx).wf(),
        match blog_texts {
            Some(ts) => sorted_desc(final(ctx).posts@) && final(ctx).posts@.len() == ts@.len()
                && post_views(final(ctx).posts@).to_multiset() == posts_of_texts(
                ts@,
            ).to_multiset(),
            None => final(ctx).posts == old(ctx).posts,
        },
        match wiki_files {
            Some(fs) => final(ctx).wiki@.len() == fs@.len() && forall|i: int|
                0 <= i < fs@.len() ==> wiki_v(final(ctx).wiki@[i]) == wiki_of_file(
                    fs@[i].0@,
                    fs@[i].1@,
                ),
            None => final(ctx).wiki == old(ctx).wiki,
        },
{
    match blog_texts {
        Some(ts) => {
            match crate::post::load(&ts) {
                Ok(v) => {
                    ctx.posts = v;
                },
                Err(_) => {},
            }
        },
        None => {},
    }
    match wiki_files {
        Some(fs) => {
            match crate::wiki::load(&fs) {
                Some(v) => {
                    ctx.wiki = v;
                },
                None => {},
            }
        },
        None => {},
    }
}

} // verus!
