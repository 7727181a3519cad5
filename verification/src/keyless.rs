//! A package signature nobody keeps a key for: who a keyless signature names, whether an
//! enrolled subject covers it, and the exact bytes a transparency log signs for an entry.
//!
//! *Valid* and *trusted* are two questions. What here speaks of identities answers only
//! whether an identity is the one an operator enrolled; the signature checks themselves are
//! the caller's.

use vstd::prelude::*;

use base64::Engine;
use rustls_pki_types::{CertificateDer, UnixTime};
use x509_parser::prelude::{FromDer, GeneralName, ParsedExtension, X509Certificate};

use crate::text::{chars_of, concat, eq_str, has_prefix, starts_with, string_of};

verus! {

broadcast use vstd::string::group_string_axioms;

/// Who a bundle says signed, once it has verified.
#[derive(Debug, Clone, PartialEq, Eq)]
pub struct KeylessIdentity {
    /// The OpenID issuer that authenticated the signer.
    pub issuer: String,
    /// The subject the certificate names, such as a workflow at a tag.
    pub subject: String,
    /// When the transparency log recorded the signature, in seconds since the epoch.
    pub signed_at: i64,
}

/// Whether the enrolled `issuer` and `subject` pattern name the identity `(who_issuer,
/// who_subject)`: the issuers are the same, and the pattern is the subject exactly or, ending
/// in one `*`, a prefix of it.
pub open spec fn enrolled_spec(
    who_issuer: Seq<char>,
    who_subject: Seq<char>,
    issuer: Seq<char>,
    subject: Seq<char>,
) -> bool {
    &&& who_issuer == issuer
    &&& if subject.len() > 0 && subject.last() == '*' {
        starts_with(who_subject, subject.drop_last())
    } else {
        who_subject == subject
    }
}

impl KeylessIdentity {
    /// Whether an enrolled `subject` pattern names this identity: an exact string, or one
    /// ending in `*`, which matches a prefix. The wildcard is deliberately the only one.
    pub fn matches(&self, issuer: &str, subject: &str) -> (r: bool)
        ensures
            r == enrolled_spec(self.issuer@, self.subject@, issuer@, subject@),
    {
        let mine = chars_of(self.issuer.as_str());
        if !eq_str(mine.as_slice(), issuer) {
            return false;
        }
        let pattern = chars_of(subject);
        let who = chars_of(self.subject.as_str());
        if pattern.len() > 0 && pattern[pattern.len() - 1] == '*' {
            let prefix = crate::text::prefix_to(pattern.as_slice(), pattern.len() - 1);
            assert(prefix@ =~= subject@.drop_last());
            has_prefix(who.as_slice(), prefix.as_slice())
        } else {
            eq_str(who.as_slice(), subject)
        }
    }
}

/// A base64 field of a bundle or of the trust root.
#[derive(Debug, Clone, Copy, PartialEq, Eq, Structural)]
pub enum Field {
    /// The message digest.
    Digest,
    /// The signing certificate.
    Certificate,
    /// The message signature.
    Signature,
    /// A transparency log's id.
    LogId,
    /// A log's signed timestamp.
    SignedTimestamp,
    /// A trust root certificate.
    RootCertificate,
    /// A trust root log key.
    RootLogKey,
}

/// Why a keyless signature is refused: the check that refused, never the value that failed it.
#[derive(Debug, Clone, PartialEq, Eq)]
pub enum KeylessRefusal {
    /// A field that should be base64 is not.
    NotBase64(Field),
    /// The bundle digests with another algorithm than SHA2-256.
    UnsupportedDigest(String),
    /// The bundle vouches for other bytes than the ones in hand.
    OtherBytes,
    /// The bundle carries no transparency-log entry.
    NoLogEntry,
    /// The entry's time does not read as a number.
    UnreadableTime,
    /// The entry is dated before the epoch.
    BeforeEpoch,
    /// The entry's index does not read as a number.
    UnreadableIndex,
    /// The signing certificate does not parse.
    CertificateUnparsable,
    /// The certificate chains to no authority this host carries, for code signing.
    NoAuthority,
    /// The certificate's key did not make the signature.
    SignatureMismatch,
    /// The entry carries no signed timestamp.
    NoSignedTimestamp,
    /// The log that recorded it is not one this host carries.
    UnknownLog,
    /// The log did not sign the entry.
    LogDidNotSign,
    /// The certificate names no OpenID issuer.
    NoIssuer,
    /// The certificate names no subject identity.
    NoSubject,
}

/// A refusal as plain values.
pub enum RefusalView {
    NotBase64(Field),
    UnsupportedDigest(Seq<char>),
    OtherBytes,
    NoLogEntry,
    UnreadableTime,
    BeforeEpoch,
    UnreadableIndex,
    CertificateUnparsable,
    NoAuthority,
    SignatureMismatch,
    NoSignedTimestamp,
    UnknownLog,
    LogDidNotSign,
    NoIssuer,
    NoSubject,
}

impl View for KeylessRefusal {
    type V = RefusalView;

    open spec fn view(&self) -> RefusalView {
        match self {
            KeylessRefusal::NotBase64(f) => RefusalView::NotBase64(*f),
            KeylessRefusal::UnsupportedDigest(a) => RefusalView::UnsupportedDigest(a@),
            KeylessRefusal::OtherBytes => RefusalView::OtherBytes,
            KeylessRefusal::NoLogEntry => RefusalView::NoLogEntry,
            KeylessRefusal::UnreadableTime => RefusalView::UnreadableTime,
            KeylessRefusal::BeforeEpoch => RefusalView::BeforeEpoch,
            KeylessRefusal::UnreadableIndex => RefusalView::UnreadableIndex,
            KeylessRefusal::CertificateUnparsable => RefusalView::CertificateUnparsable,
            KeylessRefusal::NoAuthority => RefusalView::NoAuthority,
            KeylessRefusal::SignatureMismatch => RefusalView::SignatureMismatch,
            KeylessRefusal::NoSignedTimestamp => RefusalView::NoSignedTimestamp,
            KeylessRefusal::UnknownLog => RefusalView::UnknownLog,
            KeylessRefusal::LogDidNotSign => RefusalView::LogDidNotSign,
            KeylessRefusal::NoIssuer => RefusalView::NoIssuer,
            KeylessRefusal::NoSubject => RefusalView::NoSubject,
        }
    }
}

/// What the standard base64 alphabet, with padding, decodes `text` to; `None` where it is not
/// base64.
pub uninterp spec fn base64_decoded(text: Seq<char>) -> Option<Seq<u8>>;

/// Decodes standard, padded base64.
///
/// Trusted: `base64::engine::general_purpose::STANDARD.decode`, which decodes the standard
/// alphabet with padding and fails on anything else. Said here: the outcome is a function of
/// the text alone.
#[verifier::external_body]
fn base64_decode(text: &str) -> (r: Option<Vec<u8>>)
    ensures
        match r {
            Some(v) => base64_decoded(text@) == Some(v@),
            None => base64_decoded(text@) is None,
        },
{
    base64::engine::general_purpose::STANDARD.decode(text).ok()
}

/// What decoding the base64 field `what` gives.
pub open spec fn decoded_spec(text: Seq<char>, what: Field) -> Result<Seq<u8>, RefusalView> {
    match base64_decoded(text) {
        Some(bytes) => Ok(bytes),
        None => Err(RefusalView::NotBase64(what)),
    }
}

/// The result of a step, as plain values.
pub open spec fn bytes_result(r: Result<Vec<u8>, KeylessRefusal>) -> Result<Seq<u8>, RefusalView> {
    match r {
        Ok(v) => Ok(v@),
        Err(e) => Err(e@),
    }
}

/// Decodes the base64 field `what` of a bundle.
pub fn decode(text: &str, what: Field) -> (r: Result<Vec<u8>, KeylessRefusal>)
    ensures
        bytes_result(r) == decoded_spec(text@, what),
{
    match base64_decode(text) {
        Some(v) => Ok(v),
        None => Err(KeylessRefusal::NotBase64(what)),
    }
}

/// The digest a bundle's message signature vouches for.
#[derive(Debug, Clone)]
pub struct MessageDigest {
    /// The algorithm, `SHA2_256` for any bundle this host reads.
    pub algorithm: String,
    /// The digest, in base64.
    pub digest: String,
}

/// The bytes a message digest vouches for.
pub open spec fn digest_spec(algorithm: Seq<char>, digest: Seq<char>) -> Result<Seq<u8>, RefusalView> {
    if algorithm != "SHA2_256"@ {
        Err(RefusalView::UnsupportedDigest(algorithm))
    } else {
        decoded_spec(digest, Field::Digest)
    }
}

impl MessageDigest {
    /// The digest's bytes: refused for any algorithm but `SHA2_256`, and where it is not base64.
    pub fn decoded(&self) -> (r: Result<Vec<u8>, KeylessRefusal>)
        ensures
            bytes_result(r) == digest_spec(self.algorithm@, self.digest@),
    {
        let a = chars_of(self.algorithm.as_str());
        if !eq_str(a.as_slice(), "SHA2_256") {
            return Err(KeylessRefusal::UnsupportedDigest(self.algorithm.as_str().to_owned()));
        }
        decode(self.digest.as_str(), Field::Digest)
    }
}

/// The first position from `at` on where a DER `SubjectPublicKeyInfo`'s trailing `BIT STRING`
/// may start: a `0x03` tag, its length, and a zero count of unused bits, all inside the input.
pub open spec fn bit_string_from(der: Seq<u8>, at: int) -> Option<int>
    decreases der.len() - at,
{
    if at < 0 || at >= der.len() {
        None
    } else if der[at] == 0x03 && at + 2 < der.len() && der[at + 2] == 0x00 && at + 2 + der[at + 1]
        <= der.len() {
        Some(at)
    } else {
        bit_string_from(der, at + 1)
    }
}

/// The public key inside a DER `SubjectPublicKeyInfo`: the contents of the first `BIT STRING`
/// found, or nothing when there is none.
pub open spec fn spki_key_spec(der: Seq<u8>) -> Seq<u8> {
    match bit_string_from(der, 0) {
        Some(at) => der.subrange(at + 3, at + 2 + der[at + 1]),
        None => seq![],
    }
}

/// The public key inside a DER `SubjectPublicKeyInfo`, read positionally: a key that does not
/// have the expected shape yields bytes that verify nothing, which is a refusal rather than an
/// acceptance.
pub fn spki_key(der: &[u8]) -> (r: Vec<u8>)
    requires
        bit_string_from(der@, 0) matches Some(at) ==> der@[at + 1] > 0,
    ensures
        r@ == spki_key_spec(der@),
{
    let mut at: usize = 0;
    while at < der.len()
        invariant
            at <= der.len(),
            bit_string_from(der@, 0) == bit_string_from(der@, at as int),
            bit_string_from(der@, 0) matches Some(a) ==> der@[a + 1] > 0,
        decreases der.len() - at,
    {
        if der[at] == 0x03 && der.len() - at > 2 {
            let length = der[at + 1] as usize;
            if der[at + 2] == 0x00 && length <= der.len() - (at + 2) {
                let end = at + 2 + length;
                let mut out: Vec<u8> = Vec::new();
                let mut k: usize = at + 3;
                while k < end
                    invariant
                        at + 3 <= k <= end,
                        end <= der.len(),
                        out@ == der@.subrange(at + 3, k as int),
                    decreases end - k,
                {
                    out.push(der[k]);
                    assert(der@.subrange(at + 3, k + 1) =~= der@.subrange(at + 3, k as int).push(der@[k as int]));
                    k = k + 1;
                }
                return out;
            }
        }
        at = at + 1;
    }
    Vec::new()
}

/// The lower-case hexadecimal digit of a value below sixteen.
pub open spec fn hex_digit(v: int) -> char {
    if v < 10 {
        (('0' as int) + v) as char
    } else {
        (('a' as int) + v - 10) as char
    }
}

/// Bytes in lower-case hexadecimal, two digits each.
pub open spec fn hex_spec(bytes: Seq<u8>) -> Seq<char>
    decreases bytes.len(),
{
    if bytes.len() == 0 {
        seq![]
    } else {
        hex_spec(bytes.drop_last()) + seq![hex_digit((bytes.last() / 16) as int), hex_digit((bytes.last() % 16) as int)]
    }
}

fn hex_char(v: u8) -> (r: char)
    requires
        v < 16,
    ensures
        r == hex_digit(v as int),
{
    if v < 10 {
        ((('0' as u8) + v) as char)
    } else {
        ((('a' as u8) + v - 10) as char)
    }
}

/// Bytes in lower-case hexadecimal.
pub fn hex(bytes: &[u8]) -> (r: Vec<char>)
    ensures
        r@ == hex_spec(bytes@),
{
    let mut r: Vec<char> = Vec::new();
    let mut i: usize = 0;
    while i < bytes.len()
        invariant
            i <= bytes.len(),
            r@ == hex_spec(bytes@.take(i as int)),
        decreases bytes.len() - i,
    {
        let b = bytes[i];
        r.push(hex_char(b / 16));
        r.push(hex_char(b % 16));
        assert(bytes@.take(i + 1).drop_last() =~= bytes@.take(i as int));
        i = i + 1;
    }
    assert(bytes@.take(bytes.len() as int) =~= bytes@);
    r
}

/// `i64`'s reading of a decimal text: an optional sign, then one or more ASCII digits, for a
/// value in range.
pub open spec fn parse_i64_spec(s: Seq<char>) -> Option<i64> {
    let negative = s.len() > 0 && s[0] == '-';
    let d = if s.len() > 0 && (s[0] == '-' || s[0] == '+') { s.drop_first() } else { s };
    if d.len() > 0 && crate::hosts::all_digits(d) {
        let v = crate::hosts::digits_value(d);
        if negative && v <= 9223372036854775808 {
            Some((-v) as i64)
        } else if !negative && v <= 9223372036854775807 {
            Some(v as i64)
        } else {
            None
        }
    } else {
        None
    }
}

/// Once the digits read so far exceed `limit`, so does the whole number, when it is one.
pub(crate) proof fn lemma_digits_grow_past(d: Seq<char>, k: int, limit: int)
    requires
        0 <= k <= d.len(),
        forall|j: int| 0 <= j < k ==> crate::text::is_ascii_digit(#[trigger] d[j]),
        crate::hosts::digits_value(d.take(k)) > limit,
        limit >= 0,
    ensures
        !crate::hosts::all_digits(d) || crate::hosts::digits_value(d) > limit,
    decreases d.len() - k,
{
    if k < d.len() {
        if crate::text::is_ascii_digit(d[k]) {
            assert(d.take(k + 1).drop_last() =~= d.take(k));
            lemma_digits_grow_past(d, k + 1, limit);
        }
    } else {
        assert(d.take(k) =~= d);
    }
}

/// Reads a decimal `i64` as `str::parse` does.
pub fn parse_i64(s: &[char]) -> (r: Option<i64>)
    ensures
        r == parse_i64_spec(s@),
{
    let negative = s.len() > 0 && s[0] == '-';
    let start: usize = if s.len() > 0 && (s[0] == '-' || s[0] == '+') {
        1
    } else {
        0
    };
    let ghost d = if s@.len() > 0 && (s@[0] == '-' || s@[0] == '+') { s@.drop_first() } else { s@ };
    assert(d =~= s@.skip(start as int));
    if start >= s.len() {
        return None;
    }
    let limit: u128 = if negative {
        9223372036854775808
    } else {
        9223372036854775807
    };
    let mut value: u128 = 0;
    let mut i: usize = start;
    while i < s.len()
        invariant
            start <= i <= s.len(),
            start < s.len(),
            d == s@.skip(start as int),
            d == (if s@.len() > 0 && (s@[0] == '-' || s@[0] == '+') { s@.drop_first() } else { s@ }),
            negative == (s@.len() > 0 && s@[0] == '-'),
            limit == (if negative { 9223372036854775808u128 } else { 9223372036854775807u128 }),
            forall|j: int| 0 <= j < i - start ==> crate::text::is_ascii_digit(#[trigger] d[j]),
            value as int == crate::hosts::digits_value(d.take(i - start)),
            value <= limit,
        decreases s.len() - i,
    {
        let c = s[i];
        assert(d[i - start] == c);
        if !('0' <= c && c <= '9') {
            assert(!crate::text::is_ascii_digit(d[i - start]));
            assert(!crate::hosts::all_digits(d));
            return None;
        }
        let digit = (c as u128) - ('0' as u128);
        assert(d.take(i - start + 1).drop_last() =~= d.take(i - start));
        assert(d.take(i - start + 1).last() == c);
        let next = value * 10 + digit;
        assert(next as int == crate::hosts::digits_value(d.take(i - start + 1)));
        i = i + 1;
        if next > limit {
            proof {
                assert forall|j: int| 0 <= j < i - start implies crate::text::is_ascii_digit(
                    #[trigger] d[j],
                ) by {}
                lemma_digits_grow_past(d, i - start, limit as int);
            }
            return None;
        }
        value = next;
    }
    assert(d.take(s.len() - start) =~= d);
    assert(crate::hosts::all_digits(d));
    if negative {
        let v: i128 = -(value as i128);
        Some(v as i64)
    } else {
        Some(value as i64)
    }
}

/// The decimal digits of a natural number, without leading zeros.
pub open spec fn decimal_spec(n: nat) -> Seq<char>
    decreases n,
{
    if n < 10 {
        seq![(('0' as int) + n) as char]
    } else {
        decimal_spec(n / 10) + seq![(('0' as int) + (n % 10)) as char]
    }
}

/// An integer as `Display` writes it: a `-` before a negative one.
pub open spec fn signed_decimal(i: int) -> Seq<char> {
    if i < 0 {
        seq!['-'] + decimal_spec((-i) as nat)
    } else {
        decimal_spec(i as nat)
    }
}

pub(crate) fn decimal(n: u64) -> (r: Vec<char>)
    ensures
        r@ == decimal_spec(n as nat),
    decreases n,
{
    let d = ((('0' as u8) + ((n % 10) as u8)) as char);
    if n < 10 {
        let mut r: Vec<char> = Vec::new();
        r.push(d);
        r
    } else {
        let mut r = decimal(n / 10);
        r.push(d);
        r
    }
}

/// An `i64` as `Display` writes it.
pub fn i64_text(i: i64) -> (r: Vec<char>)
    ensures
        r@ == signed_decimal(i as int),
{
    if i < 0 {
        let magnitude: u64 = (-(i as i128)) as u64;
        let digits = decimal(magnitude);
        let mut r: Vec<char> = Vec::new();
        r.push('-');
        concat(r.as_slice(), digits.as_slice())
    } else {
        decimal(i as u64)
    }
}

/// One transparency-log entry of a bundle.
#[derive(Debug, Clone)]
pub struct TlogEntry {
    /// The entry's index in the log, as the bundle writes it.
    pub log_index: String,
    /// The log's id, in base64.
    pub key_id: String,
    /// When the log recorded it, as the bundle writes it.
    pub integrated_time: String,
    /// The log's signed timestamp over the entry, in base64, when the bundle carries one.
    pub signed_entry_timestamp: Option<String>,
    /// The entry's canonical body.
    pub canonicalized_body: String,
}

/// The text a transparency log signs when it accepts an entry: its canonical JSON, with the
/// keys in the order the log itself writes them, the log id in hexadecimal and the index as
/// the number it reads as.
pub open spec fn entry_text(body: Seq<char>, time: Seq<char>, log_id: Seq<u8>, index: i64) -> Seq<char> {
    "{\"body\":\""@ + body + "\",\"integratedTime\":"@ + time + ",\"logID\":\""@ + hex_spec(log_id)
        + "\",\"logIndex\":"@ + signed_decimal(index as int) + "}"@
}

/// An entry as plain values.
pub struct EntryView {
    pub log_index: Seq<char>,
    pub key_id: Seq<char>,
    pub integrated_time: Seq<char>,
    pub signed_entry_timestamp: Option<Seq<char>>,
    pub canonicalized_body: Seq<char>,
}

impl View for TlogEntry {
    type V = EntryView;

    open spec fn view(&self) -> EntryView {
        EntryView {
            log_index: self.log_index@,
            key_id: self.key_id@,
            integrated_time: self.integrated_time@,
            signed_entry_timestamp: crate::hosts::opt_view(self.signed_entry_timestamp),
            canonicalized_body: self.canonicalized_body@,
        }
    }
}

/// What a log signs for an entry, or why it cannot be said.
pub open spec fn set_spec(entry: EntryView) -> Result<Seq<char>, RefusalView> {
    match base64_decoded(entry.key_id) {
        None => Err(RefusalView::NotBase64(Field::LogId)),
        Some(id) => match parse_i64_spec(entry.log_index) {
            None => Err(RefusalView::UnreadableIndex),
            Some(index) => Ok(entry_text(entry.canonicalized_body, entry.integrated_time, id, index)),
        },
    }
}

/// A text result as plain values.
pub open spec fn text_result(r: Result<String, KeylessRefusal>) -> Result<Seq<char>, RefusalView> {
    match r {
        Ok(t) => Ok(t@),
        Err(e) => Err(e@),
    }
}

/// The text a transparency log signs for `entry`: refused where its log id is not base64 or
/// its index does not read as a number. Written by hand rather than serialized, because what a
/// log signed must not depend on a serializer, and the field order is part of the definition.
pub fn signed_entry_timestamp(entry: &TlogEntry) -> (r: Result<String, KeylessRefusal>)
    ensures
        text_result(r) == set_spec(entry@),
{
    let log_id = match decode(entry.key_id.as_str(), Field::LogId) {
        Ok(v) => v,
        Err(e) => return Err(e),
    };
    let index = match parse_i64(chars_of(entry.log_index.as_str()).as_slice()) {
        Some(i) => i,
        None => return Err(KeylessRefusal::UnreadableIndex),
    };
    let a = concat(chars_of("{\"body\":\"").as_slice(), chars_of(entry.canonicalized_body.as_str()).as_slice());
    let b = concat(a.as_slice(), chars_of("\",\"integratedTime\":").as_slice());
    let c = concat(b.as_slice(), chars_of(entry.integrated_time.as_str()).as_slice());
    let d = concat(c.as_slice(), chars_of(",\"logID\":\"").as_slice());
    let e = concat(d.as_slice(), hex(log_id.as_slice()).as_slice());
    let f = concat(e.as_slice(), chars_of("\",\"logIndex\":").as_slice());
    let g = concat(f.as_slice(), i64_text(index).as_slice());
    let h = concat(g.as_slice(), chars_of("}").as_slice());
    Ok(string_of(h.as_slice()))
}

// --- the checks a bundle passes ----------------------------------------------------------------

/// The extended key usage a code-signing certificate carries: 1.3.6.1.5.5.7.3.3.
const CODE_SIGNING: [u8; 8] = [0x2b, 0x06, 0x01, 0x05, 0x05, 0x07, 0x03, 0x03];

/// The issuer extension whose value is a DER `UTF8String`: 1.3.6.1.4.1.57264.1.8.
pub const ISSUER_V2: &'static str = "1.3.6.1.4.1.57264.1.8";

/// The first spelling of the issuer extension, whose value is the raw string:
/// 1.3.6.1.4.1.57264.1.1.
pub const ISSUER_V1: &'static str = "1.3.6.1.4.1.57264.1.1";

/// Whether `leaf` parses as an end-entity certificate.
pub uninterp spec fn end_entity_parses(leaf: Seq<u8>) -> bool;

/// Whether `leaf` chains through `intermediates` to `root`, for code signing, at `at` seconds
/// after the epoch, under the ECDSA P-256 and P-384 verifiers.
pub uninterp spec fn chains_for_code_signing(leaf: Seq<u8>, root: Seq<u8>, intermediates: Seq<Seq<u8>>, at: u64) -> bool;

/// Whether the key of the certificate `leaf` made `signature` over `message`, under ECDSA
/// P-256 with SHA-256.
pub uninterp spec fn certificate_signed(leaf: Seq<u8>, message: Seq<u8>, signature: Seq<u8>) -> bool;

/// Whether the raw ECDSA P-256 public key `key` verifies the ASN.1 `signature` over `message`.
pub uninterp spec fn ecdsa_p256_verifies(key: Seq<u8>, message: Seq<u8>, signature: Seq<u8>) -> bool;

/// Whether the Ed25519 public key `key` verifies `signature` over `message`.
pub uninterp spec fn ed25519_verifies(key: Seq<u8>, message: Seq<u8>, signature: Seq<u8>) -> bool;

/// The extensions of the X.509 certificate `der`, as dotted OID and raw value, in order; `None`
/// where it does not parse.
pub uninterp spec fn certificate_extensions(der: Seq<u8>) -> Option<Seq<(Seq<char>, Seq<u8>)>>;

/// The URIs of the subject-alternative-name extensions of the X.509 certificate `der`, in
/// order; `None` where it does not parse.
pub uninterp spec fn certificate_uris(der: Seq<u8>) -> Option<Seq<Seq<char>>>;

/// `bytes` read as UTF-8, each ill-formed sequence replaced by U+FFFD.
pub uninterp spec fn utf8_lossy(bytes: Seq<u8>) -> Seq<char>;

/// Byte strings as plain values.
pub open spec fn byte_strings(v: Seq<Vec<u8>>) -> Seq<Seq<u8>> {
    v.map_values(|b: Vec<u8>| b@)
}

/// Whether `leaf` parses as an end-entity certificate.
///
/// Trusted: `webpki::EndEntityCert::try_from`, over `rustls_pki_types::CertificateDer::from`.
/// Said here: the answer is a function of the bytes alone.
#[verifier::external_body]
fn parses_as_end_entity(leaf: &[u8]) -> (r: bool)
    ensures
        r == end_entity_parses(leaf@),
{
    let der = CertificateDer::from(leaf);
    webpki::EndEntityCert::try_from(&der).is_ok()
}

/// Whether `leaf` chains to `root` for code signing at `at`.
///
/// Trusted: `webpki::EndEntityCert::verify_for_usage`, with `root` made a trust anchor by
/// `webpki::anchor_from_trusted_cert`, `intermediates` as the path's other certificates,
/// `webpki::KeyUsage::required` of the code-signing usage, no revocation check, and the ECDSA
/// P-256 and P-384 verifiers. A leaf or a root that does not parse chains to nothing. Said
/// here: the answer is a function of the arguments alone.
#[verifier::external_body]
fn verifies_chain(leaf: &[u8], root: &[u8], intermediates: &Vec<Vec<u8>>, at: u64) -> (r: bool)
    ensures
        r == chains_for_code_signing(leaf@, root@, byte_strings(intermediates@), at),
{
    let leaf = CertificateDer::from(leaf);
    let Ok(end_entity) = webpki::EndEntityCert::try_from(&leaf) else { return false };
    let root = CertificateDer::from(root);
    let Ok(anchor) = webpki::anchor_from_trusted_cert(&root) else { return false };
    let path: Vec<CertificateDer<'_>> = intermediates.iter().map(|c| CertificateDer::from(c.as_slice())).collect();
    let algorithms = [webpki::ring::ECDSA_P256_SHA256, webpki::ring::ECDSA_P384_SHA384];
    let time = UnixTime::since_unix_epoch(std::time::Duration::from_secs(at));
    end_entity.verify_for_usage(&algorithms, &[anchor], &path, time, webpki::KeyUsage::required(&CODE_SIGNING), None, None).is_ok()
}

/// Whether the key of the certificate `leaf` made `signature` over `message`.
///
/// Trusted: `webpki::EndEntityCert::verify_signature` with the ECDSA P-256 SHA-256 verifier,
/// on the certificate `webpki::EndEntityCert::try_from` reads; one that does not parse signed
/// nothing. Said here: the answer is a function of the arguments alone.
#[verifier::external_body]
fn verifies_signature(leaf: &[u8], message: &[u8], signature: &[u8]) -> (r: bool)
    ensures
        r == certificate_signed(leaf@, message@, signature@),
{
    let der = CertificateDer::from(leaf);
    let Ok(end_entity) = webpki::EndEntityCert::try_from(&der) else { return false };
    end_entity.verify_signature(webpki::ring::ECDSA_P256_SHA256, message, signature).is_ok()
}

/// Whether a raw P-256 key verifies an ASN.1 ECDSA signature.
///
/// Trusted: `ring::signature::UnparsedPublicKey::verify` with `ECDSA_P256_SHA256_ASN1`. Said
/// here: the answer is a function of the arguments alone.
#[verifier::external_body]
fn p256_verifies(key: &[u8], message: &[u8], signature: &[u8]) -> (r: bool)
    ensures
        r == ecdsa_p256_verifies(key@, message@, signature@),
{
    ring::signature::UnparsedPublicKey::new(&ring::signature::ECDSA_P256_SHA256_ASN1, key).verify(message, signature).is_ok()
}

/// Whether an Ed25519 key verifies a signature.
///
/// Trusted: `ring::signature::UnparsedPublicKey::verify` with `ED25519`. Said here: the answer
/// is a function of the arguments alone.
#[verifier::external_body]
fn ed25519_key_verifies(key: &[u8], message: &[u8], signature: &[u8]) -> (r: bool)
    ensures
        r == ed25519_verifies(key@, message@, signature@),
{
    ring::signature::UnparsedPublicKey::new(&ring::signature::ED25519, key).verify(message, signature).is_ok()
}

/// The extensions of an X.509 certificate.
///
/// Trusted: `x509_parser::certificate::X509Certificate::from_der` and its `extensions`, each
/// given as `Oid::to_id_string` and its raw value. Said here: the answer is a function of the
/// bytes alone.
#[verifier::external_body]
fn extensions_of(der: &[u8]) -> (r: Option<Vec<(String, Vec<u8>)>>)
    ensures
        match r {
            Some(v) => certificate_extensions(der@) == Some(v@.map_values(|e: (String, Vec<u8>)| (e.0@, e.1@))),
            None => certificate_extensions(der@) is None,
        },
{
    let Ok((_, certificate)) = X509Certificate::from_der(der) else { return None };
    Some(certificate.extensions().iter().map(|e| (e.oid.to_id_string(), e.value.to_vec())).collect())
}

/// The subject-alternative-name URIs of an X.509 certificate.
///
/// Trusted: `x509_parser::certificate::X509Certificate::from_der`, its `extensions` and
/// `parsed_extension`, each `SubjectAlternativeName`'s `URI` general names in order. Said
/// here: the answer is a function of the bytes alone.
#[verifier::external_body]
fn uris_of(der: &[u8]) -> (r: Option<Vec<String>>)
    ensures
        match r {
            Some(v) => certificate_uris(der@) == Some(v@.map_values(|u: String| u@)),
            None => certificate_uris(der@) is None,
        },
{
    let Ok((_, certificate)) = X509Certificate::from_der(der) else { return None };
    let mut uris = Vec::new();
    for extension in certificate.extensions() {
        if let ParsedExtension::SubjectAlternativeName(san) = extension.parsed_extension() {
            for name in &san.general_names {
                if let GeneralName::URI(uri) = name { uris.push(uri.to_string()); }
            }
        }
    }
    Some(uris)
}

/// `bytes` as text, ill-formed sequences replaced.
///
/// Trusted: `String::from_utf8_lossy`. Said here: the answer is a function of the bytes alone.
#[verifier::external_body]
fn lossy(bytes: &[u8]) -> (r: String)
    ensures
        r@ == utf8_lossy(bytes@),
{
    String::from_utf8_lossy(bytes).into_owned()
}

/// Where the text of a DER `UTF8String` starts: after its tag and length octets.
pub open spec fn utf8_string_start(value: Seq<u8>) -> int {
    2 + (if value[1] > 0x80 { 1int } else { 0int }) * ((value[1] & 0x7fu8) as int)
}

/// The OpenID issuer a certificate's extensions name, reading them in order from `i` with
/// `found` so far: the later spelling wins wherever it stands, the first only where nothing was
/// found yet.
pub open spec fn issuer_from(exts: Seq<(Seq<char>, Seq<u8>)>, i: int, found: Option<Seq<char>>) -> Option<Seq<char>>
    decreases exts.len() - i,
{
    if i < 0 || i >= exts.len() {
        found
    } else {
        let (oid, value) = exts[i];
        if oid == ISSUER_V2@ {
            let next = if value.len() >= 2 && value[0] == 0x0c {
                let start = utf8_string_start(value);
                Some(utf8_lossy(if start <= value.len() { value.subrange(start, value.len() as int) } else { seq![] }))
            } else {
                found
            };
            issuer_from(exts, i + 1, next)
        } else if oid == ISSUER_V1@ && found is None {
            issuer_from(exts, i + 1, Some(utf8_lossy(value)))
        } else {
            issuer_from(exts, i + 1, found)
        }
    }
}

/// The issuer and subject a certificate names.
pub open spec fn identity_spec(der: Seq<u8>) -> Result<(Seq<char>, Seq<char>), RefusalView> {
    match certificate_extensions(der) {
        None => Err(RefusalView::CertificateUnparsable),
        Some(exts) => match issuer_from(exts, 0, None) {
            None => Err(RefusalView::NoIssuer),
            Some(issuer) => match certificate_uris(der) {
                None => Err(RefusalView::CertificateUnparsable),
                Some(uris) => if uris.len() == 0 {
                    Err(RefusalView::NoSubject)
                } else {
                    Ok((issuer, uris[0]))
                },
            },
        },
    }
}

fn tail_from(value: &Vec<u8>, start: usize) -> (r: Vec<u8>)
    requires
        start <= value.len(),
    ensures
        r@ == value@.subrange(start as int, value.len() as int),
{
    let mut r: Vec<u8> = Vec::new();
    let mut k: usize = start;
    while k < value.len()
        invariant
            start <= k <= value.len(),
            r@ == value@.subrange(start as int, k as int),
        decreases value.len() - k,
    {
        r.push(value[k]);
        assert(value@.subrange(start as int, k + 1) =~= value@.subrange(start as int, k as int).push(value@[k as int]));
        k = k + 1;
    }
    r
}

/// The issuer and the subject a certificate names: who authenticated the signer, and who the
/// signer is.
pub fn identity(der: &[u8]) -> (r: Result<(String, String), KeylessRefusal>)
    ensures
        match r {
            Ok((i, s)) => identity_spec(der@) == Ok::<(Seq<char>, Seq<char>), RefusalView>((i@, s@)),
            Err(e) => identity_spec(der@) == Err::<(Seq<char>, Seq<char>), RefusalView>(e@),
        },
{
    let exts = match extensions_of(der) {
        Some(v) => v,
        None => return Err(KeylessRefusal::CertificateUnparsable),
    };
    let ghost ev = exts@.map_values(|e: (String, Vec<u8>)| (e.0@, e.1@));
    let mut issuer: Option<String> = None;
    let mut i: usize = 0;
    while i < exts.len()
        invariant
            i <= exts.len(),
            ev == exts@.map_values(|e: (String, Vec<u8>)| (e.0@, e.1@)),
            issuer_from(ev, 0, None) == issuer_from(ev, i as int, crate::hosts::opt_view(issuer)),
        decreases exts.len() - i,
    {
        let (oid, value) = (&exts[i].0, &exts[i].1);
        assert(ev[i as int] == (oid@, value@));
        let o = chars_of(oid.as_str());
        if eq_str(o.as_slice(), ISSUER_V2) {
            if value.len() >= 2 && value[0] == 0x0c {
                let b1 = value[1];
                let long = if b1 > 0x80 { 1usize } else { 0usize };
                let low = b1 & 0x7fu8;
                assert(low <= 0x7fu8) by (bit_vector)
                    requires
                        low == b1 & 0x7fu8,
                ;
                let start: usize = 2 + long * (low as usize);
                assert(start as int == utf8_string_start(value@)) by (nonlinear_arith)
                    requires
                        start == 2 + long * (low as usize),
                        long as int == (if b1 > 0x80 { 1int } else { 0int }),
                        low <= 0x7fu8,
                        b1 == value@[1],
                        low == b1 & 0x7fu8,
                        utf8_string_start(value@) == 2 + (if value@[1] > 0x80 { 1int } else { 0int }) * ((value@[1] & 0x7fu8) as int),
                {
                }
                let text = if start <= value.len() {
                    tail_from(value, start)
                } else {
                    Vec::new()
                };
                issuer = Some(lossy(text.as_slice()));
            }
        } else if eq_str(o.as_slice(), ISSUER_V1) && issuer.is_none() {
            issuer = Some(lossy(value.as_slice()));
        }
        i = i + 1;
    }
    let issuer = match issuer {
        Some(s) => s,
        None => return Err(KeylessRefusal::NoIssuer),
    };
    let uris = match uris_of(der) {
        Some(u) => u,
        None => return Err(KeylessRefusal::CertificateUnparsable),
    };
    if uris.len() == 0 {
        return Err(KeylessRefusal::NoSubject);
    }
    let subject = uris[0].as_str().to_owned();
    Ok((issuer, subject))
}

/// A transparency log's key, by the two algorithms the logs have used.
#[derive(Debug, Clone)]
pub enum LogKey {
    /// A raw ECDSA P-256 point.
    EcdsaP256(Vec<u8>),
    /// A raw Ed25519 key.
    Ed25519(Vec<u8>),
}

/// Whether `key` verifies `signature` over `message`.
pub open spec fn key_verifies(key: LogKey, message: Seq<u8>, signature: Seq<u8>) -> bool {
    match key {
        LogKey::EcdsaP256(k) => ecdsa_p256_verifies(k@, message, signature),
        LogKey::Ed25519(k) => ed25519_verifies(k@, message, signature),
    }
}

impl LogKey {
    /// Whether this key verifies `signature` over `message`.
    pub fn verifies(&self, message: &[u8], signature: &[u8]) -> (r: bool)
        ensures
            r == key_verifies(*self, message@, signature@),
    {
        match self {
            LogKey::EcdsaP256(k) => p256_verifies(k.as_slice(), message, signature),
            LogKey::Ed25519(k) => ed25519_key_verifies(k.as_slice(), message, signature),
        }
    }
}

/// One certificate authority: the root it chains to, and the certificates on the way.
#[derive(Debug, Clone)]
pub struct Authority {
    /// The root certificate.
    pub root: Vec<u8>,
    /// The intermediate certificates.
    pub intermediates: Vec<Vec<u8>>,
}

/// The authorities and log keys a verification trusts.
#[derive(Debug, Clone)]
pub struct TrustRoot {
    /// The certificate authorities.
    pub authorities: Vec<Authority>,
    /// The transparency logs' keys, by log id.
    pub logs: Vec<(String, LogKey)>,
}

/// The first log key with id `id` from `i` on.
pub open spec fn log_key_from(logs: Seq<(String, LogKey)>, id: Seq<char>, i: int) -> Option<LogKey>
    decreases logs.len() - i,
{
    if i < 0 || i >= logs.len() {
        None
    } else if logs[i].0@ == id {
        Some(logs[i].1)
    } else {
        log_key_from(logs, id, i + 1)
    }
}

/// Whether some authority of `authorities` vouches for `leaf` at `at`, for code signing.
pub open spec fn some_authority(authorities: Seq<Authority>, leaf: Seq<u8>, at: u64) -> bool {
    exists|k: int| 0 <= k < authorities.len() && chains_for_code_signing(
        leaf,
        (#[trigger] authorities[k]).root@,
        byte_strings(authorities[k].intermediates@),
        at,
    )
}

impl TrustRoot {
    /// The key of the log with id `id`.
    pub fn log_key(&self, id: &str) -> (r: Option<&LogKey>)
        ensures
            match r {
                Some(k) => log_key_from(self.logs@, id@, 0) == Some(*k),
                None => log_key_from(self.logs@, id@, 0) is None,
            },
    {
        let w = chars_of(id);
        let mut i: usize = 0;
        while i < self.logs.len()
            invariant
                i <= self.logs.len(),
                w@ == id@,
                log_key_from(self.logs@, id@, 0) == log_key_from(self.logs@, id@, i as int),
            decreases self.logs.len() - i,
        {
            if eq_str(w.as_slice(), self.logs[i].0.as_str()) {
                return Some(&self.logs[i].1);
            }
            i = i + 1;
        }
        None
    }

    /// Whether some authority vouches for `leaf` at `at` seconds after the epoch.
    pub fn vouches(&self, leaf: &[u8], at: u64) -> (r: bool)
        ensures
            r == some_authority(self.authorities@, leaf@, at),
    {
        let mut k: usize = 0;
        while k < self.authorities.len()
            invariant
                k <= self.authorities.len(),
                forall|j: int| 0 <= j < k ==> !chains_for_code_signing(
                    leaf@,
                    (#[trigger] self.authorities@[j]).root@,
                    byte_strings(self.authorities@[j].intermediates@),
                    at,
                ),
            decreases self.authorities.len() - k,
        {
            let a = &self.authorities[k];
            if verifies_chain(leaf, a.root.as_slice(), &a.intermediates, at) {
                return true;
            }
            k = k + 1;
        }
        false
    }
}

/// One transparency log of a trust root document, as written.
#[derive(Debug, Clone)]
pub struct RawLog {
    /// The log's id.
    pub key_id: String,
    /// Its public key, a DER `SubjectPublicKeyInfo` in base64.
    pub raw_bytes: String,
    /// The key's algorithm, as the document names it.
    pub key_details: String,
}

/// Whether a DER key has the shape `spki_key` reads without fault.
pub open spec fn spki_readable(der: Seq<u8>) -> bool {
    bit_string_from(der, 0) matches Some(at) ==> der[at + 1] > 0
}

/// The algorithm a document's key details name, if it is one this host verifies with: `true`
/// for ECDSA P-256, `false` for Ed25519.
pub open spec fn log_algorithm(details: Seq<char>) -> Option<bool> {
    if details == "PKIX_ECDSA_P256_SHA_256"@ {
        Some(true)
    } else if details == "PKIX_ED25519"@ || details == "PKIX_ED25519_PH"@ {
        Some(false)
    } else {
        None
    }
}

/// Whether every certificate of every chain is base64.
pub open spec fn chains_decode(chains: Seq<Vec<String>>) -> bool {
    forall|i: int, j: int| 0 <= i < chains.len() && 0 <= j < chains[i].len() ==> base64_decoded(
        #[trigger] chains[i]@[j]@,
    ) is Some
}

/// Whether every log key is base64.
pub open spec fn logs_decode(logs: Seq<RawLog>) -> bool {
    forall|i: int| 0 <= i < logs.len() ==> base64_decoded((#[trigger] logs[i]).raw_bytes@) is Some
}

/// The decoded bytes of a certificate or key known to decode.
pub open spec fn decoded_bytes(text: Seq<char>) -> Seq<u8> {
    base64_decoded(text).unwrap()
}

/// The authority a non-empty chain makes: its last certificate the root, the rest on the way.
pub open spec fn authority_of(chain: Seq<String>) -> (Seq<u8>, Seq<Seq<u8>>) {
    (
        decoded_bytes(chain.last()@),
        chain.drop_last().map_values(|c: String| decoded_bytes(c@)),
    )
}

/// An authority as plain values.
pub open spec fn authority_view(a: Authority) -> (Seq<u8>, Seq<Seq<u8>>) {
    (a.root@, byte_strings(a.intermediates@))
}

/// The log keys a document's logs make, those of an algorithm this host reads, in order.
pub open spec fn log_keys_of(logs: Seq<RawLog>) -> Seq<(Seq<char>, bool, Seq<u8>)> {
    logs.filter(|l: RawLog| log_algorithm(l.key_details@) is Some).map_values(
        |l: RawLog| (l.key_id@, log_algorithm(l.key_details@).unwrap(), spki_key_spec(decoded_bytes(l.raw_bytes@))),
    )
}

/// A log key as plain values.
pub open spec fn log_view(l: (String, LogKey)) -> (Seq<char>, bool, Seq<u8>) {
    match l.1 {
        LogKey::EcdsaP256(k) => (l.0@, true, k@),
        LogKey::Ed25519(k) => (l.0@, false, k@),
    }
}

fn decode_chain(chain: &Vec<String>) -> (r: Result<Vec<Vec<u8>>, KeylessRefusal>)
    ensures
        match r {
            Ok(v) => (forall|j: int| 0 <= j < chain.len() ==> base64_decoded(#[trigger] chain@[j]@) is Some)
                && byte_strings(v@) == chain@.map_values(|c: String| decoded_bytes(c@)),
            Err(e) => e@ == RefusalView::NotBase64(Field::RootCertificate) && exists|j: int|
                0 <= j < chain.len() && base64_decoded(#[trigger] chain@[j]@) is None,
        },
{
    let mut out: Vec<Vec<u8>> = Vec::new();
    let mut j: usize = 0;
    while j < chain.len()
        invariant
            j <= chain.len(),
            forall|m: int| 0 <= m < j ==> base64_decoded(#[trigger] chain@[m]@) is Some,
            byte_strings(out@) == chain@.take(j as int).map_values(|c: String| decoded_bytes(c@)),
        decreases chain.len() - j,
    {
        match decode(chain[j].as_str(), Field::RootCertificate) {
            Ok(bytes) => {
                let ghost before = byte_strings(out@);
                out.push(bytes);
                assert(byte_strings(out@) =~= before.push(decoded_bytes(chain@[j as int]@)));
                assert(chain@.take(j + 1).map_values(|c: String| decoded_bytes(c@)) =~= chain@.take(j as int).map_values(
                    |c: String| decoded_bytes(c@),
                ).push(decoded_bytes(chain@[j as int]@)));
            },
            Err(e) => return Err(e),
        }
        j = j + 1;
    }
    assert(chain@.take(chain.len() as int) =~= chain@);
    Ok(out)
}

impl TrustRoot {
    /// The trust root a document describes: each non-empty certificate chain, written leaf-most
    /// first, an authority whose root is its last certificate; and each log whose key is of an
    /// algorithm this host verifies with, its key the trailing bit string of the key's DER.
    fn from_raw(chains: &Vec<Vec<String>>, logs: &Vec<RawLog>) -> (r: Result<TrustRoot, KeylessRefusal>)
        requires
            log_keys_readable(logs@),
        ensures
            !chains_decode(chains@) ==> (r matches Err(e) && e@ == RefusalView::NotBase64(Field::RootCertificate)),
            chains_decode(chains@) && !logs_decode(logs@) ==> (r matches Err(e) && e@ == RefusalView::NotBase64(Field::RootLogKey)),
            chains_decode(chains@) && logs_decode(logs@) ==> (r matches Ok(root)
                && root.authorities@.map_values(|a: Authority| authority_view(a))
                    == chains@.filter(|c: Vec<String>| c.len() > 0).map_values(|c: Vec<String>| authority_of(c@))
                && root.logs@.map_values(|l: (String, LogKey)| log_view(l)) == log_keys_of(logs@)),
    {
        let ghost nonempty = |c: Vec<String>| c.len() > 0;
        let mut authorities: Vec<Authority> = Vec::new();
        let mut i: usize = 0;
        while i < chains.len()
            invariant
                i <= chains.len(),
                nonempty == (|c: Vec<String>| c.len() > 0),
                forall|a: int, j: int| 0 <= a < i && 0 <= j < chains@[a].len() ==> base64_decoded(#[trigger] chains@[a]@[j]@) is Some,
                authorities@.map_values(|a: Authority| authority_view(a)) == chains@.take(i as int).filter(nonempty).map_values(
                    |c: Vec<String>| authority_of(c@),
                ),
            decreases chains.len() - i,
        {
            let chain = &chains[i];
            assert(chains@.take(i + 1).drop_last() =~= chains@.take(i as int));
            assert(chains@.take(i + 1).last() == *chain);
            reveal_with_fuel(Seq::filter, 1);
            let mut certificates = match decode_chain(chain) {
                Ok(v) => v,
                Err(e) => {
                    proof {
                        let j = choose|j: int| 0 <= j < chain.len() && base64_decoded(#[trigger] chain@[j]@) is None;
                        assert(base64_decoded(chains@[i as int]@[j]@) is None);
                    }
                    return Err(e);
                },
            };
            if certificates.len() > 0 {
                let ghost all = byte_strings(certificates@);
                let root = certificates.pop().unwrap();
                let ghost before = authorities@.map_values(|a: Authority| authority_view(a));
                let a = Authority { root, intermediates: certificates };
                assert(a.root@ == all[all.len() - 1]);
                assert(all[all.len() - 1] == decoded_bytes(chain@.last()@));
                assert(byte_strings(a.intermediates@) =~= all.drop_last());
                assert(chain@.drop_last().map_values(|c: String| decoded_bytes(c@)) =~= chain@.map_values(|c: String| decoded_bytes(c@)).drop_last());
                authorities.push(a);
                assert(authorities@.map_values(|a: Authority| authority_view(a)) =~= before.push(authority_of(chain@)));
                assert(chains@.take(i + 1).filter(nonempty) == chains@.take(i as int).filter(nonempty).push(*chain));
                assert(chains@.take(i + 1).filter(nonempty).map_values(|c: Vec<String>| authority_of(c@)) =~= before.push(
                    authority_of(chain@),
                ));
            } else {
                assert(byte_strings(certificates@).len() == certificates@.len());
                assert(chain@.map_values(|c: String| decoded_bytes(c@)).len() == chain@.len());
                assert(!nonempty(*chain));
                assert(chains@.take(i + 1).filter(nonempty) == chains@.take(i as int).filter(nonempty));
            }
            i = i + 1;
        }
        assert(chains@.take(chains.len() as int) =~= chains@);
        assert(chains_decode(chains@));
        let ghost known = |l: RawLog| log_algorithm(l.key_details@) is Some;
        let ghost shape = |l: RawLog| (l.key_id@, log_algorithm(l.key_details@).unwrap(), spki_key_spec(decoded_bytes(l.raw_bytes@)));
        let mut keys: Vec<(String, LogKey)> = Vec::new();
        let mut k: usize = 0;
        while k < logs.len()
            invariant
                k <= logs.len(),
                chains_decode(chains@),
                authorities@.map_values(|a: Authority| authority_view(a)) == chains@.filter(nonempty).map_values(
                    |c: Vec<String>| authority_of(c@),
                ),
                nonempty == (|c: Vec<String>| c.len() > 0),
                known == (|l: RawLog| log_algorithm(l.key_details@) is Some),
                shape == (|l: RawLog| (l.key_id@, log_algorithm(l.key_details@).unwrap(), spki_key_spec(decoded_bytes(l.raw_bytes@)))),
                forall|i: int| 0 <= i < logs.len() && log_algorithm((#[trigger] logs@[i]).key_details@) is Some
                    && base64_decoded(logs@[i].raw_bytes@) is Some ==> spki_readable(decoded_bytes(logs@[i].raw_bytes@)),
                forall|m: int| 0 <= m < k ==> base64_decoded((#[trigger] logs@[m]).raw_bytes@) is Some,
                keys@.map_values(|l: (String, LogKey)| log_view(l)) == logs@.take(k as int).filter(known).map_values(shape),
            decreases logs.len() - k,
        {
            let log = &logs[k];
            assert(logs@.take(k + 1).drop_last() =~= logs@.take(k as int));
            assert(logs@.take(k + 1).last() == *log);
            reveal_with_fuel(Seq::filter, 1);
            let key = match decode(log.raw_bytes.as_str(), Field::RootLogKey) {
                Ok(v) => v,
                Err(e) => {
                    assert(!logs_decode(logs@));
                    return Err(e);
                },
            };
            let details = chars_of(log.key_details.as_str());
            let ghost before = keys@.map_values(|l: (String, LogKey)| log_view(l));
            if eq_str(details.as_slice(), "PKIX_ECDSA_P256_SHA_256") {
                let entry = (log.key_id.as_str().to_owned(), LogKey::EcdsaP256(spki_key(key.as_slice())));
                keys.push(entry);
                assert(keys@.map_values(|l: (String, LogKey)| log_view(l)) =~= before.push(shape(*log)));
            } else if eq_str(details.as_slice(), "PKIX_ED25519") || eq_str(details.as_slice(), "PKIX_ED25519_PH") {
                let entry = (log.key_id.as_str().to_owned(), LogKey::Ed25519(spki_key(key.as_slice())));
                keys.push(entry);
                assert(keys@.map_values(|l: (String, LogKey)| log_view(l)) =~= before.push(shape(*log)));
            }
            k = k + 1;
        }
        assert(logs@.take(logs.len() as int) =~= logs@);
        Ok(TrustRoot { authorities, logs: keys })
    }
}

/// Whether `spki_key` reads `der` without fault: where a bit string is found, it is not empty.
pub fn spki_shape_ok(der: &[u8]) -> (r: bool)
    ensures
        r == spki_readable(der@),
{
    let mut at: usize = 0;
    while at < der.len()
        invariant
            at <= der.len(),
            bit_string_from(der@, 0) == bit_string_from(der@, at as int),
        decreases der.len() - at,
    {
        if der[at] == 0x03 && der.len() - at > 2 {
            let length = der[at + 1] as usize;
            if der[at + 2] == 0x00 && length <= der.len() - (at + 2) {
                return length > 0;
            }
        }
        at = at + 1;
    }
    true
}

/// Whether every log key of an algorithm this host reads, where it decodes, has a shape
/// `spki_key` reads without fault.
pub open spec fn log_keys_readable(logs: Seq<RawLog>) -> bool {
    forall|i: int| 0 <= i < logs.len() && log_algorithm((#[trigger] logs[i]).key_details@) is Some
        && base64_decoded(logs[i].raw_bytes@) is Some ==> spki_readable(decoded_bytes(logs[i].raw_bytes@))
}

fn known_algorithm(details: &str) -> (r: bool)
    ensures
        r == (log_algorithm(details@) is Some),
{
    let d = chars_of(details);
    eq_str(d.as_slice(), "PKIX_ECDSA_P256_SHA_256") || eq_str(d.as_slice(), "PKIX_ED25519") || eq_str(
        d.as_slice(),
        "PKIX_ED25519_PH",
    )
}

/// Whether every log key reads: see `log_keys_readable`.
pub fn logs_readable(logs: &Vec<RawLog>) -> (r: bool)
    ensures
        r == log_keys_readable(logs@),
{
    let mut i: usize = 0;
    while i < logs.len()
        invariant
            i <= logs.len(),
            forall|m: int| 0 <= m < i && log_algorithm((#[trigger] logs@[m]).key_details@) is Some
                && base64_decoded(logs@[m].raw_bytes@) is Some ==> spki_readable(decoded_bytes(logs@[m].raw_bytes@)),
        decreases logs.len() - i,
    {
        if known_algorithm(logs[i].key_details.as_str()) {
            match base64_decode(logs[i].raw_bytes.as_str()) {
                Some(k) => {
                    if !spki_shape_ok(k.as_slice()) {
                        return false;
                    }
                },
                None => {},
            }
        }
        i = i + 1;
    }
    true
}

impl TrustRoot {
    /// The trust root a document describes, as `from_raw` reads it; `None` for a document with
    /// a log key whose bit string is empty, which names no key at all.
    pub fn read(chains: &Vec<Vec<String>>, logs: &Vec<RawLog>) -> (r: Option<Result<TrustRoot, KeylessRefusal>>)
        ensures
            r is None <==> !log_keys_readable(logs@),
            r matches Some(Err(e)) ==> !chains_decode(chains@) && e@ == RefusalView::NotBase64(Field::RootCertificate)
                || chains_decode(chains@) && !logs_decode(logs@) && e@ == RefusalView::NotBase64(Field::RootLogKey),
            r matches Some(Ok(root)) ==> chains_decode(chains@) && logs_decode(logs@)
                && root.authorities@.map_values(|a: Authority| authority_view(a))
                    == chains@.filter(|c: Vec<String>| c.len() > 0).map_values(|c: Vec<String>| authority_of(c@))
                && root.logs@.map_values(|l: (String, LogKey)| log_view(l)) == log_keys_of(logs@),
    {
        if logs_readable(logs) {
            Some(TrustRoot::from_raw(chains, logs))
        } else {
            None
        }
    }
}

/// A bundle, as the verification reads it.
#[derive(Debug, Clone)]
pub struct Bundle {
    /// The signing certificate, in base64.
    pub certificate: String,
    /// The transparency-log entries, the first of which is the one checked.
    pub tlog_entries: Vec<TlogEntry>,
    /// The digest the signature vouches for.
    pub digest: MessageDigest,
    /// The signature, in base64.
    pub signature: String,
}

/// What a verification of `bundle` over `payload` under `root` concludes: who signed, and
/// when, or the first check that refused, in the order the checks are made.
pub open spec fn verify_spec(bundle: Bundle, payload: Seq<u8>, root: TrustRoot) -> Result<(Seq<char>, Seq<char>, i64), RefusalView> {
    match digest_spec(bundle.digest.algorithm@, bundle.digest.digest@) {
        Err(e) => Err(e),
        Ok(d) => if d != crate::host::sha256_digest(payload) {
            Err(RefusalView::OtherBytes)
        } else if bundle.tlog_entries.len() == 0 {
            Err(RefusalView::NoLogEntry)
        } else {
            let entry = bundle.tlog_entries@[0]@;
            match parse_i64_spec(entry.integrated_time) {
                None => Err(RefusalView::UnreadableTime),
                Some(t) => if t < 0 {
                    Err(RefusalView::BeforeEpoch)
                } else {
                    match decoded_spec(bundle.certificate@, Field::Certificate) {
                        Err(e) => Err(e),
                        Ok(leaf) => if !end_entity_parses(leaf) {
                            Err(RefusalView::CertificateUnparsable)
                        } else if !some_authority(root.authorities@, leaf, t as u64) {
                            Err(RefusalView::NoAuthority)
                        } else {
                            match decoded_spec(bundle.signature@, Field::Signature) {
                                Err(e) => Err(e),
                                Ok(sig) => if !certificate_signed(leaf, payload, sig) {
                                    Err(RefusalView::SignatureMismatch)
                                } else {
                                    match entry.signed_entry_timestamp {
                                        None => Err(RefusalView::NoSignedTimestamp),
                                        Some(promise) => match log_key_from(root.logs@, entry.key_id, 0) {
                                            None => Err(RefusalView::UnknownLog),
                                            Some(key) => match set_spec(entry) {
                                                Err(e) => Err(e),
                                                Ok(text) => match decoded_spec(promise, Field::SignedTimestamp) {
                                                    Err(e) => Err(e),
                                                    Ok(s) => if !key_verifies(key, vstd::utf8::encode_utf8(text), s) {
                                                        Err(RefusalView::LogDidNotSign)
                                                    } else {
                                                        match identity_spec(leaf) {
                                                            Err(e) => Err(e),
                                                            Ok((issuer, subject)) => Ok((issuer, subject, t)),
                                                        }
                                                    },
                                                },
                                            },
                                        },
                                    }
                                },
                            }
                        },
                    }
                },
            }
        },
    }
}

/// Verifies `bundle` against `payload` under `root`, offline and in order: the bundle vouches
/// for these bytes; the certificate chains to an authority of the root, for code signing, at
/// the moment the log recorded; its key made the signature; the log's signed timestamp
/// verifies under a log key of the root; and the certificate names an issuer and a subject,
/// which the caller compares with what an operator enrolled.
pub fn verify(bundle: &Bundle, payload: &[u8], root: &TrustRoot) -> (r: Result<KeylessIdentity, KeylessRefusal>)
    ensures
        match r {
            Ok(id) => verify_spec(*bundle, payload@, *root) == Ok::<(Seq<char>, Seq<char>, i64), RefusalView>(
                (id.issuer@, id.subject@, id.signed_at),
            ),
            Err(e) => verify_spec(*bundle, payload@, *root) == Err::<(Seq<char>, Seq<char>, i64), RefusalView>(e@),
        },
{
    let digest = match bundle.digest.decoded() {
        Ok(d) => d,
        Err(e) => return Err(e),
    };
    let actual = crate::host::sha256(payload);
    if digest.len() != actual.len() || !bytes_eq(digest.as_slice(), actual.as_slice()) {
        return Err(KeylessRefusal::OtherBytes);
    }
    if bundle.tlog_entries.len() == 0 {
        return Err(KeylessRefusal::NoLogEntry);
    }
    let entry = &bundle.tlog_entries[0];
    let signed_at = match parse_i64(chars_of(entry.integrated_time.as_str()).as_slice()) {
        Some(t) => t,
        None => return Err(KeylessRefusal::UnreadableTime),
    };
    if signed_at < 0 {
        return Err(KeylessRefusal::BeforeEpoch);
    }
    let at = signed_at as u64;
    let leaf = match decode(bundle.certificate.as_str(), Field::Certificate) {
        Ok(v) => v,
        Err(e) => return Err(e),
    };
    if !parses_as_end_entity(leaf.as_slice()) {
        return Err(KeylessRefusal::CertificateUnparsable);
    }
    if !root.vouches(leaf.as_slice(), at) {
        return Err(KeylessRefusal::NoAuthority);
    }
    let signature = match decode(bundle.signature.as_str(), Field::Signature) {
        Ok(v) => v,
        Err(e) => return Err(e),
    };
    if !verifies_signature(leaf.as_slice(), payload, signature.as_slice()) {
        return Err(KeylessRefusal::SignatureMismatch);
    }
    let promise = match &entry.signed_entry_timestamp {
        Some(p) => p,
        None => return Err(KeylessRefusal::NoSignedTimestamp),
    };
    let key = match root.log_key(entry.key_id.as_str()) {
        Some(k) => k,
        None => return Err(KeylessRefusal::UnknownLog),
    };
    let set = match signed_entry_timestamp(entry) {
        Ok(text) => text,
        Err(e) => return Err(e),
    };
    let set_signature = match decode(promise.as_str(), Field::SignedTimestamp) {
        Ok(v) => v,
        Err(e) => return Err(e),
    };
    if !key.verifies(set.as_str().as_bytes(), set_signature.as_slice()) {
        return Err(KeylessRefusal::LogDidNotSign);
    }
    match identity(leaf.as_slice()) {
        Ok((issuer, subject)) => Ok(KeylessIdentity { issuer, subject, signed_at }),
        Err(e) => Err(e),
    }
}

fn bytes_eq(a: &[u8], b: &[u8]) -> (r: bool)
    requires
        a.len() == b.len(),
    ensures
        r == (a@ == b@),
{
    let mut i: usize = 0;
    while i < a.len()
        invariant
            a.len() == b.len(),
            i <= a.len(),
            forall|j: int| 0 <= j < i ==> a@[j] == b@[j],
        decreases a.len() - i,
    {
        if a[i] != b[i] {
            return false;
        }
        i = i + 1;
    }
    assert(a@ =~= b@);
    true
}

// --- laws --------------------------------------------------------------------------------------

/// A bundle that verifies vouches for the bytes in hand and nothing else: its digest is the
/// SHA-256 digest of the payload, its certificate chains to an authority of the root for code
/// signing at the moment its log entry records, that certificate's key made its signature over
/// the payload, and a log key of the root signed the entry.
pub proof fn law_verified_bundles_vouch_for_the_payload(bundle: Bundle, payload: Seq<u8>, root: TrustRoot)
    requires
        verify_spec(bundle, payload, root) is Ok,
    ensures
        digest_spec(bundle.digest.algorithm@, bundle.digest.digest@) == Ok::<Seq<u8>, RefusalView>(crate::host::sha256_digest(payload)),
        bundle.tlog_entries.len() > 0,
        ({
            let entry = bundle.tlog_entries@[0]@;
            let t = parse_i64_spec(entry.integrated_time).unwrap();
            let leaf = base64_decoded(bundle.certificate@).unwrap();
            &&& parse_i64_spec(entry.integrated_time) is Some
            &&& t >= 0
            &&& base64_decoded(bundle.certificate@) is Some
            &&& some_authority(root.authorities@, leaf, t as u64)
            &&& base64_decoded(bundle.signature@) is Some
            &&& certificate_signed(leaf, payload, base64_decoded(bundle.signature@).unwrap())
            &&& entry.signed_entry_timestamp is Some
            &&& log_key_from(root.logs@, entry.key_id, 0) is Some
        }),
{
}

/// An enrolled subject names the identity it spells exactly.
pub proof fn law_exact_subject_matches(issuer: Seq<char>, subject: Seq<char>)
    ensures
        enrolled_spec(issuer, subject, issuer, subject),
{
    if subject.len() > 0 && subject.last() == '*' {
        assert(subject.take(subject.len() - 1) =~= subject.drop_last());
    }
}

/// A repository's releases are enrolled once: a pattern ending in `*` names every subject that
/// begins with what precedes the `*`, and nothing else.
pub proof fn law_trailing_wildcard_is_a_prefix(issuer: Seq<char>, prefix: Seq<char>, subject: Seq<char>)
    ensures
        enrolled_spec(issuer, subject, issuer, prefix.push('*')) == starts_with(subject, prefix),
{
    assert(prefix.push('*').drop_last() =~= prefix);
}

/// The issuer is part of the identity: a subject enrolled under one issuer is never matched by
/// a signer another issuer authenticated.
pub proof fn law_issuer_is_part_of_identity(who_issuer: Seq<char>, who_subject: Seq<char>, issuer: Seq<char>, subject: Seq<char>)
    requires
        who_issuer != issuer,
    ensures
        !enrolled_spec(who_issuer, who_subject, issuer, subject),
{
}

/// Who a certificate names is the issuer its issuer extensions give, then the subject its first
/// SAN URI gives, in that order: whenever a certificate names someone, the first part of the
/// identity is the issuer and the second the first URI; and a certificate that parses, has an
/// issuer and has a URI always names someone.
pub proof fn law_identity_is_issuer_then_first_uri(der: Seq<u8>)
    ensures
        identity_spec(der) matches Ok((issuer, subject)) ==> {
            &&& certificate_extensions(der) matches Some(exts)
            &&& issuer_from(exts, 0, None) == Some(issuer)
            &&& certificate_uris(der) matches Some(uris)
            &&& uris.len() > 0
            &&& subject == uris[0]
        },
        match (certificate_extensions(der), certificate_uris(der)) {
            (Some(exts), Some(uris)) => issuer_from(exts, 0, None) is Some && uris.len() > 0 ==> identity_spec(der) is Ok,
            _ => true,
        },
{
}

} // verus!
