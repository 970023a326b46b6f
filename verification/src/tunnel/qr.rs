//! The code that a phone scans to learn where the server is.
use vstd::prelude::*;
use vstd::utf8::encode_utf8;

use crate::json::{self, Json};
use crate::socks5::client::string_option;
use crate::text;

verus! {

/// What the page with the code has before the code.
pub const QR_PAGE_HEAD: &'static str =
    "HTTP/1.1 200 OK\r\nContent-Type: text/html\r\nConnection: close\r\n\r\n<html><head><meta name=\"viewport\" content=\"width=device-width, initial-scale=1.0\"><style>body { display: flex; justify-content: center; align-items: center; height: 100vh; margin: 0; background: #f0f0f0; } .qr-container { background: white; padding: 20px; border-radius: 10px; box-shadow: 0 4px 6px rgba(0,0,0,0.1); width: 80%; max-width: 400px; } svg { width: 100%; height: auto; }</style></head><body><div class=\"qr-container\">";

/// What the page with the code has behind the code.
pub const QR_PAGE_TAIL: &'static str = "</div></body></html>";

/// What an agent has to know to connect, as far as the server knows it.
#[derive(Debug)]
pub struct Pairing {
    pub agent_password: Option<String>,
    pub control_port: u16,
    pub tls_fingerprint: String,
    /// The name that the server is known by, where it is set.
    pub public_host: Option<String>,
    /// The port that the server is known by, where it is set.
    pub public_port: Option<String>,
}

/// The host that the code names: the one that is set and not empty; elsewhere the one that was
/// asked; this machine where none was.
pub open spec fn shown_host(public_host: Option<Seq<char>>, host: Seq<char>) -> Seq<char> {
    let asked = if host.len() == 0 {
        "127.0.0.1"@
    } else {
        host
    };
    match public_host {
        Some(set) => if set.len() > 0 {
            set
        } else {
            asked
        },
        None => asked,
    }
}

/// The port that the code names: the one that is set, where it is one and not 0; elsewhere the
/// one that agents connect to.
pub open spec fn shown_port(public_port: Option<Seq<char>>, control_port: u16) -> u16 {
    match public_port {
        Some(set) => match text::number_up_to(set, u16::MAX as nat) {
            Some(port) => if port != 0 {
                port as u16
            } else {
                control_port
            },
            None => control_port,
        },
        None => control_port,
    }
}

/// What the code says.
pub open spec fn pairing_json(pairing: Pairing, host: Seq<char>) -> Json {
    Json::Object(
        Map::<Seq<char>, Json>::empty().insert(
            "h"@,
            Json::Text(shown_host(string_option(pairing.public_host), host)),
        ).insert(
            "p"@,
            Json::Number(
                shown_port(string_option(pairing.public_port), pairing.control_port) as int,
            ),
        ).insert(
            "pwd"@,
            Json::Text(
                match pairing.agent_password {
                    Some(password) => password@,
                    None => seq![],
                },
            ),
        ).insert("fp"@, Json::Text(pairing.tls_fingerprint@)),
    )
}

/// What `qrcode` draws for bytes: the code as SVG, or what is wrong with the bytes.
pub uninterp spec fn drawing(bytes: Seq<u8>) -> Result<Seq<char>, Seq<char>>;

/// What was drawn, by contents.
pub open spec fn drawn_view(drawn: Result<String, String>) -> Result<Seq<char>, Seq<char>> {
    match drawn {
        Ok(svg) => Ok(svg@),
        Err(error) => Err(error@),
    }
}

/// `QrCode::new`, and where it succeeds `QrCode::render` with the colours of `svg`, which draws
/// the code; elsewhere the error's text. The result depends on the bytes alone.
#[verifier::external_body]
fn draw(bytes: &[u8]) -> (res: Result<String, String>)
    ensures
        drawn_view(res) == drawing(bytes@),
{
    match qrcode::QrCode::new(bytes) {
        Ok(code) => Ok(code.render::<qrcode::render::svg::Color>().build()),
        Err(error) => Err(error.to_string()),
    }
}

/// The host that the code names.
fn choose_host(public_host: &Option<String>, host: &str) -> (res: String)
    ensures
        res@ == shown_host(string_option(*public_host), host@),
{
    if let Some(set) = public_host {
        if set.as_str().unicode_len() > 0 {
            return text::copy_text(set.as_str());
        }
    }
    if host.unicode_len() == 0 {
        text::copy_text("127.0.0.1")
    } else {
        text::copy_text(host)
    }
}

/// The port that the code names.
fn choose_port(public_port: &Option<String>, control_port: u16) -> (res: u16)
    ensures
        res == shown_port(string_option(*public_port), control_port),
{
    if let Some(set) = public_port {
        let chars = text::to_chars(set.as_str());
        if let Some(port) = text::parse_number(chars.as_slice(), 65535) {
            if port != 0 {
                return port as u16;
            }
        }
    }
    control_port
}

/// The reply with a code that was drawn, or with what is wrong.
pub open spec fn qr_text(drawn: Result<Seq<char>, Seq<char>>) -> Seq<char> {
    match drawn {
        Ok(svg) => QR_PAGE_HEAD@ + svg + QR_PAGE_TAIL@,
        Err(error) => "HTTP/1.1 500 Internal Server Error\r\n\r\nQR Error: "@ + error,
    }
}

/// The reply with a code that was drawn, or with what is wrong.
pub fn show_drawing(drawn: &Result<String, String>) -> (res: String)
    ensures
        res@ == qr_text(drawn_view(*drawn)),
{
    match drawn {
        Ok(svg) => text::join(text::join(QR_PAGE_HEAD, svg.as_str()).as_str(), QR_PAGE_TAIL),
        Err(error) => text::join(
            "HTTP/1.1 500 Internal Server Error\r\n\r\nQR Error: ",
            error.as_str(),
        ),
    }
}

/// What the code says, as JSON text.
pub fn pairing_text(pairing: &Pairing, host: &str) -> (res: String)
    ensures
        res@ == json::rendered(pairing_json(*pairing, host@)),
{
    let shown = choose_host(&pairing.public_host, host);
    let port: u16 = choose_port(&pairing.public_port, pairing.control_port);
    let mut fields = json::no_fields();
    json::set_field(&mut fields, "h", json::text(shown.as_str()));
    json::set_field(&mut fields, "p", json::number(port as u64));
    match &pairing.agent_password {
        Some(password) => {
            json::set_field(&mut fields, "pwd", json::text(password.as_str()));
        },
        None => {
            let none = String::new();
            assert(none@ =~= seq![]);
            json::set_field(&mut fields, "pwd", json::text(none.as_str()));
        },
    }
    json::set_field(&mut fields, "fp", json::text(pairing.tls_fingerprint.as_str()));
    json::render(&json::object(fields))
}

/// The reply with the code.
pub fn qr_reply(pairing: &Pairing, host: &str) -> (res: String)
    ensures
        res@ == qr_text(drawing(encode_utf8(json::rendered(pairing_json(*pairing, host@))))),
{
    let payload = pairing_text(pairing, host);
    let bytes = text::to_bytes(payload.as_str());
    show_drawing(&draw(bytes.as_slice()))
}

/// The code that a phone scans holds where the server is, the password of agents and the server's
/// fingerprint: the name and the port that are set, or else those that were asked for.
pub proof fn law_pairing_fields(pairing: Pairing, host: Seq<char>)
    ensures
        ({
            let code = pairing_json(pairing, host);
            &&& json::field(code, "fp"@) == Some(Json::Text(pairing.tls_fingerprint@))
            &&& pairing.agent_password matches Some(password) ==> json::field(code, "pwd"@) == Some(
                Json::Text(password@),
            )
            &&& pairing.agent_password is None ==> json::field(code, "pwd"@) == Some(
                Json::Text(Seq::<char>::empty()),
            )
            &&& pairing.public_host is Some && pairing.public_host->0@.len() > 0 ==> json::field(
                code,
                "h"@,
            ) == Some(Json::Text(pairing.public_host->0@))
            &&& pairing.public_host is None && host.len() > 0 ==> json::field(code, "h"@) == Some(
                Json::Text(host),
            )
            &&& pairing.public_host is None && host.len() == 0 ==> json::field(code, "h"@) == Some(
                Json::Text("127.0.0.1"@),
            )
            &&& pairing.public_port is None ==> json::field(code, "p"@) == Some(
                Json::Number(pairing.control_port as int),
            )
        }),
{
    reveal_strlit("h");
    reveal_strlit("p");
    reveal_strlit("pwd");
    reveal_strlit("fp");
    assert("h"@.len() == 1);
    assert("p"@.len() == 1);
    assert("pwd"@.len() == 3);
    assert("fp"@.len() == 2);
    assert("h"@[0] != "p"@[0]);
}

/// A port that is set is used where it is one; else the port that agents dial.
pub proof fn law_shown_port(port: u16, set: Seq<char>, control_port: u16)
    ensures
        port != 0 ==> shown_port(Some(text::decimal(port as nat)), control_port) == port,
        shown_port(Some(text::decimal(0)), control_port) == control_port,
        text::number(set) is None || text::number(set)->0 > 65535 ==> shown_port(
            Some(set),
            control_port,
        ) == control_port,
        shown_port(None, control_port) == control_port,
{
    text::law_number_of_decimal(port as nat, 65535);
    text::law_number_of_decimal(0, 65535);
}

/// The page shows the drawing between its head and its tail; where there is none, what went wrong
/// is told.
pub proof fn law_page_shows_the_drawing(svg: Seq<char>, error: Seq<char>)
    ensures
        ({
            let page = qr_text(Ok(svg));
            let n = page.len() - QR_PAGE_TAIL@.len() - svg.len();
            &&& page.subrange(n, n + svg.len()) == svg
            &&& page.take(n) == QR_PAGE_HEAD@
        }),
        qr_text(Err(error)).skip(qr_text(Err(error)).len() - error.len()) == error,
        "HTTP/1.1 500 Internal Server Error\r\n"@.is_prefix_of(qr_text(Err(error))),
{
    let page = qr_text(Ok(svg));
    let n = page.len() - QR_PAGE_TAIL@.len() - svg.len();
    assert(page.subrange(n, n + svg.len()) =~= svg);
    assert(page.take(n) =~= QR_PAGE_HEAD@);
    let told = qr_text(Err(error));
    assert(told.skip(told.len() - error.len()) =~= error);
    reveal_strlit("HTTP/1.1 500 Internal Server Error\r\n");
    reveal_strlit("HTTP/1.1 500 Internal Server Error\r\n\r\nQR Error: ");
    let line = "HTTP/1.1 500 Internal Server Error\r\n"@;
    let head = "HTTP/1.1 500 Internal Server Error\r\n\r\nQR Error: "@;
    assert(line.len() == 36 && head.len() == 48);
    assert(head.take(36) =~= line);
    assert(told.take(36) =~= line);
}

} // verus!
