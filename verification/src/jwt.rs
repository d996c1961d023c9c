use vstd::prelude::*;

use crate::config::{Config, SignatureConfig};
use crate::errors::{Error, FResult};
use crate::rng::{Rand, RandModel, rand_deterministic};
use crate::runner::{replace_fuzz, CommandRunnerKind};
use crate::transform::{
    clone_word, has_target, lossy_all, push_all, subst_out, subst_rand, Context, Word,
};
use hmac::Mac;

verus! {

/// The byte the base64url alphabet assigns to a 6-bit value.
pub open spec fn b64_char(i: int) -> u8
    recommends
        0 <= i < 64,
{
    if i < 26 {
        (65 + i) as u8
    } else if i < 52 {
        (97 + i - 26) as u8
    } else if i < 62 {
        (48 + i - 52) as u8
    } else if i == 62 {
        45u8
    } else {
        95u8
    }
}

/// Unpadded URL-safe base64: each group of three bytes becomes four
/// alphabet bytes; a final group of one or two bytes becomes two or three.
pub open spec fn b64url_spec(s: Seq<u8>) -> Seq<u8>
    decreases s.len(),
{
    if s.len() == 0 {
        Seq::empty()
    } else if s.len() == 1 {
        let b0 = s[0] as int;
        seq![b64_char(b0 / 4), b64_char((b0 % 4) * 16)]
    } else if s.len() == 2 {
        let b0 = s[0] as int;
        let b1 = s[1] as int;
        seq![b64_char(b0 / 4), b64_char((b0 % 4) * 16 + b1 / 16), b64_char((b1 % 16) * 4)]
    } else {
        let b0 = s[0] as int;
        let b1 = s[1] as int;
        let b2 = s[2] as int;
        seq![
            b64_char(b0 / 4),
            b64_char((b0 % 4) * 16 + b1 / 16),
            b64_char((b1 % 16) * 4 + b2 / 64),
            b64_char(b2 % 64),
        ] + b64url_spec(s.skip(3))
    }
}

/// Relies on base64's `URL_SAFE_NO_PAD` engine (`Engine::encode`):
/// unpadded URL-safe base64 of the input bytes, as RFC 4648 defines it.
#[verifier::external_body]
pub(crate) fn b64url_encode(data: &Word) -> (r: Word)
    ensures
        r@ == b64url_spec(data@),
{
    base64::Engine::encode(&base64::engine::general_purpose::URL_SAFE_NO_PAD, data).into_bytes()
}

/// A byte of the base64url alphabet.
pub open spec fn is_b64url_byte(b: u8) -> bool {
    (65 <= b <= 90) || (97 <= b <= 122) || (48 <= b <= 57) || b == 45 || b == 95
}

/// Every 6-bit value maps into the alphabet.
proof fn lemma_b64_char(i: int)
    requires
        0 <= i < 64,
    ensures
        is_b64url_byte(b64_char(i)),
{
}

/// Every byte base64url encoding produces is in its alphabet; in
/// particular none is a dot.
pub proof fn lemma_b64url_alphabet(s: Seq<u8>)
    ensures
        forall|i: int|
            0 <= i < b64url_spec(s).len() ==> is_b64url_byte(#[trigger] b64url_spec(s)[i]),
    decreases s.len(),
{
    if s.len() == 0 {
    } else if s.len() == 1 {
        let b0 = s[0] as int;
        assert(0 <= b0 / 4 < 64 && 0 <= (b0 % 4) * 16 < 64) by (nonlinear_arith)
            requires
                0 <= b0 <= 255,
        ;
        lemma_b64_char(b0 / 4);
        lemma_b64_char((b0 % 4) * 16);
    } else if s.len() == 2 {
        let b0 = s[0] as int;
        let b1 = s[1] as int;
        assert(0 <= b0 / 4 < 64 && 0 <= (b0 % 4) * 16 + b1 / 16 < 64 && 0 <= (b1 % 16) * 4
            < 64) by (nonlinear_arith)
            requires
                0 <= b0 <= 255 && 0 <= b1 <= 255,
        ;
        lemma_b64_char(b0 / 4);
        lemma_b64_char((b0 % 4) * 16 + b1 / 16);
        lemma_b64_char((b1 % 16) * 4);
    } else {
        let b0 = s[0] as int;
        let b1 = s[1] as int;
        let b2 = s[2] as int;
        assert(0 <= b0 / 4 < 64 && 0 <= (b0 % 4) * 16 + b1 / 16 < 64 && 0 <= (b1 % 16) * 4 + b2
            / 64 < 64 && 0 <= b2 % 64 < 64) by (nonlinear_arith)
            requires
                0 <= b0 <= 255 && 0 <= b1 <= 255 && 0 <= b2 <= 255,
        ;
        lemma_b64_char(b0 / 4);
        lemma_b64_char((b0 % 4) * 16 + b1 / 16);
        lemma_b64_char((b1 % 16) * 4 + b2 / 64);
        lemma_b64_char(b2 % 64);
        lemma_b64url_alphabet(s.skip(3));
        assert forall|i: int| 0 <= i < b64url_spec(s).len() implies is_b64url_byte(
            #[trigger] b64url_spec(s)[i],
        ) by {
            if i >= 4 {
                assert(b64url_spec(s)[i] == b64url_spec(s.skip(3))[i - 4]);
            }
        }
    }
}

/// How many times `b` occurs in `s`.
pub open spec fn count_byte(s: Seq<u8>, b: u8) -> int
    decreases s.len(),
{
    if s.len() == 0 {
        0
    } else {
        (if s[0] == b {
            1int
        } else {
            0int
        }) + count_byte(s.skip(1), b)
    }
}

/// Occurrence counts add up over concatenation.
pub proof fn lemma_count_concat(a: Seq<u8>, c: Seq<u8>, b: u8)
    ensures
        count_byte(a + c, b) == count_byte(a, b) + count_byte(c, b),
    decreases a.len(),
{
    if a.len() == 0 {
        assert(a + c =~= c);
    } else {
        lemma_count_concat(a.skip(1), c, b);
        assert((a + c).skip(1) =~= a.skip(1) + c);
        assert((a + c)[0] == a[0]);
    }
}

/// A sequence without `b` has zero occurrences of it.
pub proof fn lemma_count_zero(s: Seq<u8>, b: u8)
    requires
        forall|i: int| 0 <= i < s.len() ==> s[i] != b,
    ensures
        count_byte(s, b) == 0,
    decreases s.len(),
{
    if s.len() > 0 {
        assert(forall|i: int| 0 <= i < s.skip(1).len() ==> s.skip(1)[i] != b);
        lemma_count_zero(s.skip(1), b);
    }
}

/// The signature algorithm used to sign a JWT token.
#[derive(Clone)]
pub enum Signature {
    HmacSha256 { secret: Word },
    Rs256 { key_pair: Word },
    Unsigned,
}

impl Default for Signature {
    fn default() -> (r: Self)
        ensures
            r is Unsigned,
    {
        Signature::Unsigned
    }
}

/// The HMAC-SHA-256 tag of `msg` under `key`: a function of both alone.
pub uninterp spec fn hmac_sha256(key: Seq<u8>, msg: Seq<u8>) -> Seq<u8>;

/// Relies on hmac's `Hmac<Sha256>` (`new_from_slice`, `update`,
/// `finalize`): the 32-byte HMAC-SHA-256 tag of `msg` under `key`. The
/// implementation accepts keys of any length, so the construction cannot
/// fail.
#[verifier::external_body]
fn hmac_sha256_tag(key: &Word, msg: &Word) -> (r: Word)
    ensures
        r@ == hmac_sha256(key@, msg@),
        r@.len() == 32,
{
    let mut mac = <hmac::Hmac<sha2::Sha256> as hmac::KeyInit>::new_from_slice(key).expect(
        "HMAC accepts keys of any length",
    );
    mac.update(msg);
    mac.finalize().into_bytes().to_vec()
}

/// The RSA PKCS#1 v1.5 SHA-256 signature of `msg` under the PEM-encoded
/// private key, or `None` on the inputs where signing fails: an
/// unparsable key, a key that cannot sign, or a PEM that holds a key of
/// any other type than RSA. Restricted to RSA keys the signature is a
/// function of key and message alone.
pub uninterp spec fn rsa_sha256_sig(key_pem: Seq<u8>, msg: Seq<u8>) -> Option<Seq<u8>>;

/// Relies on openssl's `PKey::private_key_from_pem`, `PKey::id`,
/// `Signer::new` with `MessageDigest::sha256`, `Signer::update` and
/// `Signer::sign_to_vec`. Keys of any other type than RSA are rejected
/// before signing: their schemes (ECDSA, DSA) draw a random nonce, so
/// only the RSA PKCS#1 v1.5 restriction is deterministic in key and
/// message.
#[verifier::external_body]
fn rsa_sha256_sign(key_pem: &Word, msg: &Word) -> (r: FResult<Word>)
    ensures
        (r is Ok) == (rsa_sha256_sig(key_pem@, msg@) is Some),
        r matches Err(e) ==> e == Error::Crypto,
        r is Ok ==> (r->Ok_0)@ == rsa_sha256_sig(key_pem@, msg@)->Some_0,
{
    let key = openssl::pkey::PKey::private_key_from_pem(key_pem).map_err(|_| Error::Crypto)?;
    if key.id() != openssl::pkey::Id::RSA {
        return Err(Error::Crypto);
    }
    let mut signer = openssl::sign::Signer::new(openssl::hash::MessageDigest::sha256(), &key)
        .map_err(|_| Error::Crypto)?;
    signer.update(msg).map_err(|_| Error::Crypto)?;
    signer.sign_to_vec().map_err(|_| Error::Crypto)
}

impl Signature {
    /// The signature a configuration asks for; fails with
    /// `InsufficientRunnerConfiguration` exactly when an algorithm is
    /// selected without a secret.
    pub fn from_config(cfg: &Config) -> (r: FResult<Self>)
        ensures
            cfg.jwt_signature is Unsigned ==> (r matches Ok(s) && s is Unsigned),
            cfg.jwt_signature is HmacSha256 ==> ((cfg.jwt_secret matches Some(sec) ==> (r matches
            Ok(s) && s matches Signature::HmacSha256 { secret } && secret@ == sec@)) && (
            cfg.jwt_secret is None ==> r == Err::<Signature, Error>(
                Error::InsufficientRunnerConfiguration,
            ))),
            cfg.jwt_signature is Rs256 ==> ((cfg.jwt_secret matches Some(sec) ==> (r matches Ok(s)
                && s matches Signature::Rs256 { key_pair } && key_pair@ == sec@)) && (
            cfg.jwt_secret is None ==> r == Err::<Signature, Error>(
                Error::InsufficientRunnerConfiguration,
            ))),
    {
        match cfg.jwt_signature {
            SignatureConfig::HmacSha256 => {
                if let Some(secret) = &cfg.jwt_secret {
                    Ok(Signature::HmacSha256 { secret: clone_word(secret) })
                } else {
                    Err(Error::InsufficientRunnerConfiguration)
                }
            },
            SignatureConfig::Unsigned => Ok(Signature::Unsigned),
            SignatureConfig::Rs256 => {
                if let Some(secret) = &cfg.jwt_secret {
                    Ok(Signature::Rs256 { key_pair: clone_word(secret) })
                } else {
                    Err(Error::InsufficientRunnerConfiguration)
                }
            },
        }
    }

    /// Whether signing the given input can fail: only RSA signing can,
    /// when the key is bad.
    pub open spec fn sign_ok(&self, signing_input: Seq<u8>) -> bool {
        self matches Signature::Rs256 { key_pair } ==> rsa_sha256_sig(
            key_pair@,
            signing_input,
        ) is Some
    }

    /// The base64url-encoded signature this algorithm produces over the
    /// signing input, or `None` for the unsigned algorithm.
    pub open spec fn sig_part(&self, signing_input: Seq<u8>) -> Option<Seq<u8>> {
        match self {
            Signature::Unsigned => None,
            Signature::HmacSha256 { secret } => Some(
                b64url_spec(hmac_sha256(secret@, signing_input)),
            ),
            Signature::Rs256 { key_pair } => match rsa_sha256_sig(key_pair@, signing_input) {
                Some(s) => Some(b64url_spec(s)),
                None => None,
            },
        }
    }

    /// Signs the signing input: `None` for the unsigned algorithm, the
    /// base64url-encoded MAC or RSA signature otherwise. Fails with
    /// `Crypto` exactly when RSA signing fails.
    pub fn sign(&self, data: &Word) -> (r: FResult<Option<Word>>)
        ensures
            (r is Ok) == self.sign_ok(data@),
            r matches Err(e) ==> (e == Error::Crypto && self is Rs256),
            r matches Ok(o) ==> match self.sig_part(data@) {
                Some(s) => o matches Some(w) && w@ == s,
                None => o is None,
            },
    {
        match self {
            Signature::HmacSha256 { secret } => {
                let tag = hmac_sha256_tag(secret, data);
                Ok(Some(b64url_encode(&tag)))
            },
            Signature::Unsigned => Ok(None),
            Signature::Rs256 { key_pair } => {
                let sig = rsa_sha256_sign(key_pair, data)?;
                Ok(Some(b64url_encode(&sig)))
            },
        }
    }
}

/// The JWT runner's configuration: the header template, the signature
/// algorithm, and the argument-marker substituted inside the header.
#[derive(Clone)]
pub struct Jwt {
    pub header: Word,
    pub signature: Signature,
    pub cmd_arg_target: Word,
}

/// The signing input of a token: encoded header, a dot, encoded payload.
pub open spec fn jwt_signing_input(header_fuzzed: Seq<u8>, payload: Seq<u8>) -> Seq<u8> {
    b64url_spec(header_fuzzed) + seq![46u8] + b64url_spec(payload)
}

/// The final token: the signing input alone for an unsigned token, or
/// the signing input, a dot and the encoded signature.
pub open spec fn jwt_token(sig_part: Option<Seq<u8>>, signing_input: Seq<u8>) -> Seq<u8> {
    match sig_part {
        None => signing_input,
        Some(s) => signing_input + seq![46u8] + s,
    }
}

/// `token` is a well-shaped token for `sig` over a payload: the signing
/// input built from the fuzzed header `hf` and the payload, signed as the
/// algorithm prescribes.
pub open spec fn token_shaped(token: Seq<u8>, sig: Signature, hf: Seq<u8>, payload: Seq<u8>) -> bool {
    let si = jwt_signing_input(hf, payload);
    sig.sign_ok(si) && token == jwt_token(sig.sig_part(si), si)
}

/// A JWT runner's output is a well-shaped token for its algorithm over
/// the payload, for some fuzzed header. This holds of every emitted
/// token, whatever random source produced the header; together with
/// `lemma_jwt_structure` it fixes the two- or three-segment dot
/// structure unconditionally.
pub open spec fn jwt_out_shaped(kind: &CommandRunnerKind, token: Seq<u8>, payload: Seq<u8>) -> bool {
    kind matches CommandRunnerKind::Jwt(j) ==> exists|hf: Seq<u8>|
        #[trigger] token_shaped(token, j.signature, hf, payload)
}

impl Jwt {
    /// The header after auxiliary fuzz substitution, for a deterministic
    /// random state `m`.
    pub open spec fn fuzzed_header(&self, ws: Seq<Seq<u8>>, m: RandModel) -> Seq<u8> {
        subst_out(self.header@, self.cmd_arg_target@, lossy_all(ws), m)
    }

    /// The random state after the header has been fuzzed.
    pub open spec fn rand_after(&self, ws: Seq<Seq<u8>>, m: RandModel) -> RandModel {
        subst_rand(self.header@, self.cmd_arg_target@, lossy_all(ws), m)
    }

    /// The token this configuration produces on `payload` from random
    /// state `m`.
    pub open spec fn token_of(&self, ws: Seq<Seq<u8>>, payload: Seq<u8>, m: RandModel) -> Seq<u8> {
        let si = jwt_signing_input(self.fuzzed_header(ws, m), payload);
        jwt_token(self.signature.sig_part(si), si)
    }

    /// Whether signing succeeds on `payload` from random state `m`.
    pub open spec fn token_ok(&self, ws: Seq<Seq<u8>>, payload: Seq<u8>, m: RandModel) -> bool {
        self.signature.sign_ok(jwt_signing_input(self.fuzzed_header(ws, m), payload))
    }
}

/// The encoded signature of a token, from the raw signature bytes.
pub open spec fn encoded_sig(sig_bytes: Option<Seq<u8>>) -> Option<Seq<u8>> {
    match sig_bytes {
        None => None,
        Some(s) => Some(b64url_spec(s)),
    }
}

/// A token has exactly one dot when unsigned and exactly two when
/// signed, and every byte outside the two or three segments' separating
/// dots belongs to the base64url alphabet. Splitting the token on `.`
/// therefore yields exactly two segments for an unsigned token and three
/// otherwise, each of them valid unpadded base64url.
pub proof fn lemma_jwt_structure(header_fuzzed: Seq<u8>, payload: Seq<u8>, sig_bytes: Option<
    Seq<u8>,
>)
    ensures
        ({
            let si = jwt_signing_input(header_fuzzed, payload);
            let token = jwt_token(encoded_sig(sig_bytes), si);
            &&& sig_bytes is None ==> count_byte(token, 46) == 1
            &&& sig_bytes is Some ==> count_byte(token, 46) == 2
        }),
{
    let eh = b64url_spec(header_fuzzed);
    let ep = b64url_spec(payload);
    let dot = seq![46u8];
    let si = jwt_signing_input(header_fuzzed, payload);
    lemma_b64url_alphabet(header_fuzzed);
    lemma_b64url_alphabet(payload);
    lemma_count_zero(eh, 46);
    lemma_count_zero(ep, 46);
    assert(dot.skip(1) =~= Seq::<u8>::empty());
    assert(count_byte(Seq::<u8>::empty(), 46) == 0);
    assert(count_byte(dot, 46) == 1);
    lemma_count_concat(eh, dot, 46);
    assert(si =~= (eh + dot) + ep);
    lemma_count_concat(eh + dot, ep, 46);
    assert(count_byte(si, 46) == 1);
    match sig_bytes {
        None => {},
        Some(s) => {
            let es = b64url_spec(s);
            lemma_b64url_alphabet(s);
            lemma_count_zero(es, 46);
            lemma_count_concat(si, dot, 46);
            lemma_count_concat(si + dot, es, 46);
            assert(jwt_token(encoded_sig(sig_bytes), si) =~= (si + dot) + es);
        },
    }
}

} // verus!

verus! {

/// The JWT runner: applies auxiliary fuzz substitution to the header,
/// base64url-encodes the fuzzed header and the payload, signs the
/// signing input, and emits the token bytes with no exit code. Fails
/// with `UnsupportedCommandRunner` on any other kind tag.
pub fn jwt_command_runner(
    ctx: &Context,
    runner: &CommandRunnerKind,
    data: &Word,
    rand: &mut Rand,
) -> (r: FResult<(Option<i32>, Word)>)
    requires
        runner matches CommandRunnerKind::Jwt(j) ==> (j.cmd_arg_target@.len() > 0 && (has_target(
            j.header@,
            j.cmd_arg_target@,
        ) ==> ctx.words@.len() > 0)),
    ensures
        !(runner matches CommandRunnerKind::Jwt(_)) ==> r == Err::<(Option<i32>, Word), Error>(
            Error::UnsupportedCommandRunner,
        ),
        runner matches CommandRunnerKind::Jwt(j) ==> {
            &&& r matches Err(e) ==> ((e == Error::Io && old(rand).model() is File) || (e
                == Error::Crypto && j.signature is Rs256))
            &&& r is Ok ==> ((old(rand).model() is File) == (final(rand).model() is File))
            &&& r is Ok ==> ((old(rand).model() is Entropy) == (final(rand).model() is Entropy))
            &&& (!(old(rand).model() is File) && !(j.signature is Rs256)) ==> r is Ok
            &&& (rand_deterministic(old(rand).model()) && !(old(rand).model() is File)) ==> ((
            r is Ok) == j.token_ok(ctx.words.deep_view(), data@, old(rand).model()))
            &&& rand_deterministic(old(rand).model()) ==> (r matches Ok(p) ==> (p.0 is None && p.1@
                == j.token_of(ctx.words.deep_view(), data@, old(rand).model()) && final(rand).model() == j.rand_after(ctx.words.deep_view(), old(rand).model())))
            &&& r matches Ok(p) ==> (p.0 is None && jwt_out_shaped(runner, p.1@, data@))
        },
{
    if let CommandRunnerKind::Jwt(jwt) = runner {
        let fuzzed = replace_fuzz(&jwt.header, &jwt.cmd_arg_target, ctx, rand)?;
        let encoded_header = b64url_encode(&fuzzed);
        let encoded_payload = b64url_encode(data);
        let mut signing_input: Word = encoded_header;
        signing_input.push(46u8);
        push_all(&mut signing_input, encoded_payload.as_slice());
        proof {
            if rand_deterministic(old(rand).model()) {
                assert(signing_input@ =~= jwt_signing_input(
                    jwt.fuzzed_header(ctx.words.deep_view(), old(rand).model()),
                    data@,
                ));
            }
        }
        let ghost hf = fuzzed@;
        proof {
            assert(signing_input@ =~= jwt_signing_input(hf, data@));
        }
        let signature = jwt.signature.sign(&signing_input)?;
        if let Some(sig) = signature {
            let mut token = signing_input;
            token.push(46u8);
            push_all(&mut token, sig.as_slice());
            proof {
                if rand_deterministic(old(rand).model()) {
                    assert(token@ =~= jwt.token_of(
                        ctx.words.deep_view(),
                        data@,
                        old(rand).model(),
                    ));
                }
                assert(token@ =~= jwt_token(
                    jwt.signature.sig_part(jwt_signing_input(hf, data@)),
                    jwt_signing_input(hf, data@),
                ));
                let jv = runner->Jwt_0;
                assert(jv == *jwt);
                assert(token_shaped(token@, jv.signature, hf, data@));
                assert(jwt_out_shaped(runner, token@, data@)) by {
                    assert(token_shaped(token@, jv.signature, hf, data@));
                }
            }
            Ok((None, token))
        } else {
            proof {
                let jv = runner->Jwt_0;
                assert(jv == *jwt);
                assert(token_shaped(signing_input@, jv.signature, hf, data@));
                assert(jwt_out_shaped(runner, signing_input@, data@)) by {
                    assert(token_shaped(signing_input@, jv.signature, hf, data@));
                }
            }
            Ok((None, signing_input))
        }
    } else {
        Err(Error::UnsupportedCommandRunner)
    }
}

} // verus!
