//! Who the server is: its certificate's fingerprint, the identity that it keeps, and the name by
//! which an agent asks for it.
use sha2::Digest;
use vstd::prelude::*;
use vstd::slice::slice_subrange;

use crate::address_text;
use crate::base64_codec;
use crate::net::IpAddr;
use crate::text;

verus! {

// ---------------------------------------------------------------------------------------------
// Fingerprints
// ---------------------------------------------------------------------------------------------

/// The SHA-256 digest of bytes.
pub uninterp spec fn sha256(bytes: Seq<u8>) -> Seq<u8>;

/// `sha2::Sha256::digest`, which gives 32 bytes.
#[verifier::external_body]
pub(crate) fn digest(bytes: &[u8]) -> (res: [u8; 32])
    ensures
        res@ == sha256(bytes@),
{
    sha2::Sha256::digest(bytes).into()
}

/// The fingerprint of a certificate: its digest in hexadecimal.
pub fn fingerprint(certificate: &[u8]) -> (res: String)
    ensures
        res@ == text::hex_text(sha256(certificate@)),
        res@.len() == 64,
{
    let hash: [u8; 32] = digest(certificate);
    proof {
        text::lemma_hex_text(hash@);
    }
    text::to_hex(&hash)
}

/// The fingerprint was not understood.
#[derive(Clone, Copy, Debug, PartialEq, Eq, Structural)]
pub struct KeyMismatch;

/// Whether the two hexadecimal digits with a number make a byte.
pub open spec fn digits_make(digits: Seq<char>, i: int, byte: u8) -> bool {
    &&& text::hex_value(digits[2 * i]) is Some
    &&& text::hex_value(digits[2 * i + 1]) is Some
    &&& byte == text::hex_value(digits[2 * i])->0 * 16 + text::hex_value(digits[2 * i + 1])->0
}

/// Whether two hexadecimal digits for each byte make bytes.
pub open spec fn digits_are(digits: Seq<char>, bytes: Seq<u8>) -> bool {
    &&& digits.len() == 2 * bytes.len()
    &&& forall|i: int| 0 <= i < bytes.len() ==> digits_make(digits, i, #[trigger] bytes[i])
}

/// The digits of a fingerprint: it may have colons between them.
pub open spec fn fingerprint_digits(value: Seq<char>) -> Seq<char> {
    text::without(value, seq![':'])
}

/// Whether a text is a fingerprint: 64 hexadecimal digits, and colons.
pub open spec fn is_fingerprint(value: Seq<char>) -> bool {
    text::all_hex(fingerprint_digits(value)) && fingerprint_digits(value).len() == 64
}

/// The digest that a fingerprint is.
pub fn parse_fingerprint(value: &str) -> (res: Result<[u8; 32], KeyMismatch>)
    ensures
        res is Ok <==> is_fingerprint(value@),
        res matches Ok(hash) ==> digits_are(fingerprint_digits(value@), hash@),
{
    let chars = text::to_chars(value);
    let colon: [char; 1] = [':'];
    let colon: &[char] = &colon;
    assert(colon@ =~= seq![':']);
    let digits = text::remove_all(chars.as_slice(), colon);
    if digits.len() != 64 {
        return Err(KeyMismatch);
    }
    let mut res: [u8; 32] = [0; 32];
    let mut i: usize = 0;
    while i < 32
        invariant
            i <= 32,
            digits@.len() == 64,
            digits@ == fingerprint_digits(value@),
            forall|j: int| 0 <= j < i ==> digits_make(digits@, j, #[trigger] res@[j]),
        decreases 32 - i,
    {
        let high: u8 = match text::hex_digit_value(digits[2 * i]) {
            Some(digit) => digit,
            None => {
                assert(text::hex_value(digits@[2 * i]) is None);
                return Err(KeyMismatch);
            },
        };
        let low: u8 = match text::hex_digit_value(digits[2 * i + 1]) {
            Some(digit) => digit,
            None => {
                assert(text::hex_value(digits@[2 * i + 1]) is None);
                return Err(KeyMismatch);
            },
        };
        let ghost before = res@;
        res[i] = high * 16 + low;
        proof {
            assert(res@ =~= before.update(i as int, (high * 16 + low) as u8));
            assert forall|j: int| 0 <= j < i + 1 implies digits_make(
                digits@,
                j,
                #[trigger] res@[j],
            ) by {
                if j < i {
                    assert(before[j] == res@[j]);
                }
            }
        }
        i += 1;
    }
    proof {
        assert forall|k: int| 0 <= k < digits@.len() implies text::hex_value(
            #[trigger] digits@[k],
        ) is Some by {
            let j = k / 2;
            assert(digits_make(digits@, j, res@[j]));
            assert(k == 2 * j || k == 2 * j + 1);
        }
    }
    Ok(res)
}

/// Whether a certificate is the expected one, by its digest.
pub open spec fn is_expected(certificate: Seq<u8>, expected: Seq<u8>) -> bool {
    sha256(certificate) == expected
}

/// Whether a certificate is the expected one.
pub fn certificate_matches(certificate: &[u8], expected: &[u8; 32]) -> (res: bool)
    ensures
        res == is_expected(certificate@, expected@),
        res == (sha256(certificate@) == expected@),
{
    let actual: [u8; 32] = digest(certificate);
    text::same_bytes(&actual, expected)
}

/// A text without colons loses nothing.
proof fn lemma_without_colons(s: Seq<char>)
    requires
        forall|i: int| 0 <= i < s.len() ==> #[trigger] s[i] != ':',
    ensures
        text::without(s, seq![':']) == s,
    decreases s.len(),
{
    if s.len() > 0 {
        let colon = seq![':'];
        assert(s.take(1)[0] == s[0]);
        assert(s.take(1) != colon) by {
            assert(colon[0] == ':');
        }
        let rest = s.skip(1);
        assert forall|i: int| 0 <= i < rest.len() implies #[trigger] rest[i] != ':' by {
            assert(rest[i] == s[i + 1]);
        }
        lemma_without_colons(rest);
        assert(seq![s[0]] + rest =~= s);
    }
}

proof fn lemma_hex_digit_reads_back(d: int)
    requires
        0 <= d < 16,
    ensures
        text::hex_value(text::hex_digit(d)) == Some(d),
        text::hex_digit(d) != ':',
{
}

/// The bytes that digits make are the only ones that they make.
proof fn lemma_digits_unique(digits: Seq<char>, a: Seq<u8>, b: Seq<u8>)
    requires
        digits_are(digits, a),
        digits_are(digits, b),
    ensures
        a == b,
{
    assert forall|i: int| 0 <= i < a.len() implies a[i] == b[i] by {
        assert(digits_make(digits, i, a[i]));
        assert(digits_make(digits, i, b[i]));
    }
    assert(a =~= b);
}

/// A digest in hexadecimal is a fingerprint, and is read as that digest and no other.
pub proof fn law_fingerprint_reads_back(hash: Seq<u8>, read: Seq<u8>)
    requires
        hash.len() == 32,
    ensures
        is_fingerprint(text::hex_text(hash)),
        digits_are(fingerprint_digits(text::hex_text(hash)), read) <==> read == hash,
{
    let s = text::hex_text(hash);
    text::lemma_hex_text(hash);
    assert forall|k: int| 0 <= k < s.len() implies text::hex_value(#[trigger] s[k]) is Some && s[k]
        != ':' by {
        let i = k / 2;
        assert(s[2 * i] == text::hex_digit(hash[i] as int / 16));
        lemma_hex_digit_reads_back(hash[i] as int / 16);
        lemma_hex_digit_reads_back(hash[i] as int % 16);
        assert(k == 2 * i || k == 2 * i + 1);
    }
    lemma_without_colons(s);
    assert(digits_are(s, hash)) by {
        assert forall|i: int| 0 <= i < hash.len() implies digits_make(s, i, #[trigger] hash[i]) by {
            assert(s[2 * i] == text::hex_digit(hash[i] as int / 16));
            lemma_hex_digit_reads_back(hash[i] as int / 16);
            lemma_hex_digit_reads_back(hash[i] as int % 16);
        }
    }
    if digits_are(s, read) {
        lemma_digits_unique(s, hash, read);
    }
}

// ---------------------------------------------------------------------------------------------
// The stored identity
// ---------------------------------------------------------------------------------------------

/// The server's identity as it is stored: certificate and key in base64.
#[derive(Debug)]
pub struct StoredIdentity {
    pub certificate_der: String,
    pub private_key_der: String,
}

/// What is wrong with a stored identity.
#[derive(Clone, Copy, Debug, PartialEq, Eq, Structural)]
pub enum IdentityError {
    Certificate,
    PrivateKey,
}

/// The certificate and the key of a stored identity.
pub open spec fn identity_of(identity: StoredIdentity) -> Result<
    (Seq<u8>, Seq<u8>),
    IdentityError,
> {
    match base64_codec::decoded(identity.certificate_der@) {
        None => Err(IdentityError::Certificate),
        Some(certificate) => match base64_codec::decoded(identity.private_key_der@) {
            None => Err(IdentityError::PrivateKey),
            Some(key) => Ok((certificate, key)),
        },
    }
}

/// A certificate and a key as they are stored. They can be read back.
pub fn store_identity(certificate: &[u8], private_key: &[u8]) -> (res: StoredIdentity)
    ensures
        res.certificate_der@ == base64_codec::encoded(certificate@),
        res.private_key_der@ == base64_codec::encoded(private_key@),
        identity_of(res) == Ok::<(Seq<u8>, Seq<u8>), IdentityError>(
            (certificate@, private_key@),
        ),
{
    StoredIdentity {
        certificate_der: base64_codec::encode(certificate),
        private_key_der: base64_codec::encode(private_key),
    }
}

/// The certificate and the key of a stored identity.
pub fn load_identity(identity: &StoredIdentity) -> (res: Result<(Vec<u8>, Vec<u8>), IdentityError>)
    ensures
        match res {
            Ok((certificate, key)) => identity_of(*identity) == Ok::<
                (Seq<u8>, Seq<u8>),
                IdentityError,
            >((certificate@, key@)),
            Err(error) => identity_of(*identity) == Err::<(Seq<u8>, Seq<u8>), IdentityError>(
                error,
            ),
        },
{
    match base64_codec::decode(identity.certificate_der.as_str()) {
        None => Err(IdentityError::Certificate),
        Some(certificate) => match base64_codec::decode(identity.private_key_der.as_str()) {
            None => Err(IdentityError::PrivateKey),
            Some(key) => Ok((certificate, key)),
        },
    }
}

// ---------------------------------------------------------------------------------------------
// The server's name
// ---------------------------------------------------------------------------------------------

/// Whether `rustls` takes a text for the name of a server.
pub uninterp spec fn names_server(host: Seq<char>) -> bool;

/// `rustls::pki_types::ServerName::try_from`: whether it succeeds.
#[verifier::external_body]
pub(crate) fn is_server_name(host: &str) -> (res: bool)
    ensures
        res == names_server(host@),
{
    rustls::pki_types::ServerName::try_from(host).is_ok()
}

/// The name by which an agent asks for the server.
#[derive(Debug)]
pub enum ServerName {
    IpAddress(IpAddr),
    Host(String),
}

/// Why an address has no server name.
#[derive(Clone, Copy, Debug, PartialEq, Eq, Structural)]
pub enum ServerNameError {
    /// A bracket is not closed.
    Bracket,
    /// There is no port.
    NoPort,
    /// The host is no name of a server.
    Host,
}

/// The host in a server's address: what is in brackets, or what is before the last colon.
pub open spec fn host_of(addr: Seq<char>) -> Result<Seq<char>, ServerNameError> {
    if addr.len() > 0 && addr[0] == '[' {
        match text::cut(addr.skip(1), ']') {
            Some((host, _)) => Ok(host),
            None => Err(ServerNameError::Bracket),
        }
    } else {
        let colon = text::last_position(addr, ':');
        if colon >= 0 {
            Ok(addr.take(colon))
        } else {
            Err(ServerNameError::NoPort)
        }
    }
}

/// `ServerName`, with texts by their characters.
pub enum ServerNameView {
    IpAddress(IpAddr),
    Host(Seq<char>),
}

impl ServerName {
    /// The name by its contents.
    pub open spec fn view(&self) -> ServerNameView {
        match self {
            ServerName::IpAddress(ip) => ServerNameView::IpAddress(*ip),
            ServerName::Host(host) => ServerNameView::Host(host@),
        }
    }
}

/// The name of a server at a host: its address where the host is one. `valid` says whether the
/// host is the name of a server.
pub open spec fn name_at(host: Seq<char>, valid: bool) -> Result<ServerNameView, ServerNameError> {
    match address_text::ip_of(host) {
        Some(ip) => Ok(ServerNameView::IpAddress(ip)),
        None => if valid {
            Ok(ServerNameView::Host(host))
        } else {
            Err(ServerNameError::Host)
        },
    }
}

/// The name of a server at a host.
pub fn choose_name(host: &str, valid: bool) -> (res: Result<ServerName, ServerNameError>)
    ensures
        match res {
            Ok(name) => name_at(host@, valid) == Ok::<ServerNameView, ServerNameError>(name@),
            Err(error) => name_at(host@, valid) == Err::<ServerNameView, ServerNameError>(error),
        },
{
    let chars = text::to_chars(host);
    match address_text::parse_ip(chars.as_slice()) {
        Some(ip) => Ok(ServerName::IpAddress(ip)),
        None => {
            if valid {
                Ok(ServerName::Host(text::copy_text(host)))
            } else {
                Err(ServerNameError::Host)
            }
        },
    }
}

/// The host in a server's address.
pub fn server_host(server_addr: &str) -> (res: Result<String, ServerNameError>)
    ensures
        match res {
            Ok(host) => host_of(server_addr@) == Ok::<Seq<char>, ServerNameError>(host@),
            Err(error) => host_of(server_addr@) == Err::<Seq<char>, ServerNameError>(error),
        },
{
    let chars = text::to_chars(server_addr);
    let s = chars.as_slice();
    let n: usize = s.len();
    if n > 0 && s[0] == '[' {
        let rest = slice_subrange(s, 1, n);
        assert(rest@ =~= s@.skip(1));
        match text::split_once(rest, ']') {
            Some((host, _)) => Ok(text::from_chars(host)),
            None => Err(ServerNameError::Bracket),
        }
    } else {
        match text::rfind(s, ':') {
            Some(colon) => {
                let host = slice_subrange(s, 0, colon);
                assert(host@ =~= s@.take(colon as int));
                Ok(text::from_chars(host))
            },
            None => Err(ServerNameError::NoPort),
        }
    }
}

/// The name by which an agent asks for the server at an address.
pub fn server_name(server_addr: &str) -> (res: Result<ServerName, ServerNameError>)
    ensures
        match host_of(server_addr@) {
            Ok(host) => match res {
                Ok(name) => name_at(host, names_server(host)) == Ok::<
                    ServerNameView,
                    ServerNameError,
                >(name@),
                Err(error) => name_at(host, names_server(host)) == Err::<
                    ServerNameView,
                    ServerNameError,
                >(error),
            },
            Err(error) => res == Err::<ServerName, ServerNameError>(error),
        },
{
    match server_host(server_addr) {
        Ok(host) => {
            let valid = is_server_name(host.as_str());
            choose_name(host.as_str(), valid)
        },
        Err(error) => Err(error),
    }
}

/// A certificate is the expected one exactly if its fingerprint, as it is shown, is the expected
/// one as it was read.
pub proof fn law_shown_fingerprint_decides(certificate: Seq<u8>, expected: Seq<u8>)
    ensures
        sha256(certificate).len() == 32 ==> (is_expected(certificate, expected) <==> digits_are(
            fingerprint_digits(text::hex_text(sha256(certificate))),
            expected,
        )),
        sha256(certificate) != expected ==> !is_expected(certificate, expected),
{
    if sha256(certificate).len() == 32 {
        law_fingerprint_reads_back(sha256(certificate), expected);
    }
}

proof fn lemma_without_one(a: Seq<char>, b: Seq<char>)
    ensures
        text::without(a + seq![':'] + b, seq![':']) == text::without(a + b, seq![':']),
    decreases a.len(),
{
    let s = a + seq![':'] + b;
    if a.len() == 0 {
        assert(s.take(1) =~= seq![':']);
        assert(s.skip(1) =~= b);
        assert(a + b =~= b);
    } else {
        assert(s.skip(1) =~= a.skip(1) + seq![':'] + b);
        assert((a + b).skip(1) =~= a.skip(1) + b);
        assert(s[0] == a[0] && (a + b)[0] == a[0]);
        lemma_without_one(a.skip(1), b);
        if a[0] == ':' {
            assert(s.take(1) =~= seq![':']);
            assert((a + b).take(1) =~= seq![':']);
        } else {
            assert(s.take(1)[0] == a[0]);
            assert((a + b).take(1)[0] == a[0]);
        }
    }
}

/// Colons in a fingerprint do not matter, wherever they stand.
pub proof fn law_colons_do_not_matter(a: Seq<char>, b: Seq<char>, hash: Seq<u8>)
    ensures
        is_fingerprint(a + seq![':'] + b) == is_fingerprint(a + b),
        digits_are(fingerprint_digits(a + seq![':'] + b), hash) == digits_are(
            fingerprint_digits(a + b),
            hash,
        ),
{
    lemma_without_one(a, b);
}

/// The host of a server's address is what stands before its last colon, or in its brackets; it is
/// known as an address where it is one, and else by its name.
pub proof fn law_server_host(host: Seq<char>, port: Seq<char>, ip: IpAddr, valid: bool)
    ensures
        host.len() > 0 && host[0] != '[' && !port.contains(':') ==> host_of(
            host + seq![':'] + port,
        ) == Ok::<Seq<char>, ServerNameError>(host),
        !host.contains(']') ==> host_of(seq!['['] + host + seq![']'] + port) == Ok::<
            Seq<char>,
            ServerNameError,
        >(host),
        !host.contains(']') ==> host_of(seq!['['] + host) == Err::<Seq<char>, ServerNameError>(
            ServerNameError::Bracket,
        ),
        (host.len() > 0 ==> host[0] != '[') && !host.contains(':') ==> host_of(host) == Err::<
            Seq<char>,
            ServerNameError,
        >(ServerNameError::NoPort),
        name_at(address_text::ip_text(ip), valid) == Ok::<ServerNameView, ServerNameError>(
            ServerNameView::IpAddress(ip),
        ),
        address_text::ip_of(host) is None ==> name_at(host, true) == Ok::<
            ServerNameView,
            ServerNameError,
        >(ServerNameView::Host(host)) && name_at(host, false) == Err::<
            ServerNameView,
            ServerNameError,
        >(ServerNameError::Host),
{
    address_text::law_ip_text_reads_back(ip);
    let s = host + seq![':'] + port;
    if host.len() > 0 && host[0] != '[' && !port.contains(':') {
        assert(s[0] == host[0]);
        text::lemma_last_position_bounds(s, ':');
        let colon = text::last_position(s, ':');
        assert(s[host.len() as int] == ':');
        assert(colon == host.len()) by {
            if colon > host.len() {
                assert(port[colon - host.len() - 1] == ':');
                assert(port.contains(':'));
            }
        }
        assert(s.take(colon) =~= host);
    }
    if !host.contains(']') {
        text::law_cut(host, ']', port);
        let b = seq!['['] + host + seq![']'] + port;
        assert(b[0] == '[');
        assert(b.skip(1) =~= host + seq![']'] + port);
        assert((seq!['['] + host).skip(1) =~= host);
    }
    if !host.contains(':') {
        text::lemma_last_position_bounds(host, ':');
        if text::last_position(host, ':') >= 0 {
            assert(host.contains(':'));
        }
    }
}

/// A stored identity gives back the certificate and the key, each from the text that stands for
/// it, and tells which of them it cannot read.
pub proof fn law_stored_identity(identity: StoredIdentity, certificate: Seq<u8>, key: Seq<u8>)
    ensures
        base64_codec::decoded(identity.certificate_der@) == Some(certificate)
            && base64_codec::decoded(identity.private_key_der@) == Some(key) ==> identity_of(
            identity,
        ) == Ok::<(Seq<u8>, Seq<u8>), IdentityError>((certificate, key)),
        base64_codec::decoded(identity.certificate_der@) is None ==> identity_of(identity) == Err::<
            (Seq<u8>, Seq<u8>),
            IdentityError,
        >(IdentityError::Certificate),
        base64_codec::decoded(identity.certificate_der@) is Some && base64_codec::decoded(
            identity.private_key_der@,
        ) is None ==> identity_of(identity) == Err::<(Seq<u8>, Seq<u8>), IdentityError>(
            IdentityError::PrivateKey,
        ),
{
}

} // verus!
