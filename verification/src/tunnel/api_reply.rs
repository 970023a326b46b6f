//! Replies of the dashboard.
use vstd::prelude::*;
use vstd::utf8::encode_utf8;

use crate::text;

verus! {

/// A JSON reply.
pub open spec fn plain_reply(status: Seq<char>, body: Seq<char>) -> Seq<char> {
    "HTTP/1.1 "@ + status + "\r\nContent-Type: application/json\r\n\r\n"@ + body
}

/// A JSON reply after which the connection is closed.
pub open spec fn closing_reply(status: Seq<char>, body: Seq<char>) -> Seq<char> {
    "HTTP/1.1 "@ + status + "\r\nContent-Type: application/json\r\nConnection: close\r\n\r\n"@
        + body
}

/// A JSON reply with its length.
pub open spec fn sized_reply(body: Seq<char>) -> Seq<char> {
    "HTTP/1.1 200 OK\r\nContent-Type: application/json\r\nContent-Length: "@ + text::decimal(
        encode_utf8(body).len(),
    ) + "\r\n\r\n"@ + body
}

/// A JSON reply with its length, after which the connection is closed.
pub open spec fn sized_closing_reply(body: Seq<char>) -> Seq<char> {
    "HTTP/1.1 200 OK\r\nContent-Type: application/json\r\nContent-Length: "@ + text::decimal(
        encode_utf8(body).len(),
    ) + "\r\nConnection: close\r\n\r\n"@ + body
}

/// The reply that sets or removes a cookie.
pub open spec fn cookie_reply(cookie: Seq<char>) -> Seq<char> {
    "HTTP/1.1 200 OK\r\nContent-Type: application/json\r\n"@ + cookie
        + "\r\nConnection: close\r\n\r\n{\"ok\":true}"@
}

/// A page.
pub open spec fn page_reply(html: Seq<char>) -> Seq<char> {
    "HTTP/1.1 200 OK\r\nContent-Type: text/html\r\nContent-Length: "@ + text::decimal(
        encode_utf8(html).len(),
    ) + "\r\nConnection: close\r\n\r\n"@ + html
}

/// A JSON reply.
pub fn reply(status: &str, body: &str) -> (res: String)
    ensures
        res@ == plain_reply(status@, body@),
{
    let mut res: String = text::join("HTTP/1.1 ", status);
    res = text::join(res.as_str(), "\r\nContent-Type: application/json\r\n\r\n");
    text::join(res.as_str(), body)
}

/// A JSON reply after which the connection is closed.
pub fn reply_and_close(status: &str, body: &str) -> (res: String)
    ensures
        res@ == closing_reply(status@, body@),
{
    let mut res: String = text::join("HTTP/1.1 ", status);
    res = text::join(
        res.as_str(),
        "\r\nContent-Type: application/json\r\nConnection: close\r\n\r\n",
    );
    text::join(res.as_str(), body)
}

/// How many bytes a text has.
fn byte_count(s: &str) -> (res: usize)
    ensures
        res == encode_utf8(s@).len(),
{
    s.as_bytes().len()
}

/// A JSON reply with its length.
pub fn reply_sized(body: &str) -> (res: String)
    ensures
        res@ == sized_reply(body@),
{
    let mut res: String = text::copy_text(
        "HTTP/1.1 200 OK\r\nContent-Type: application/json\r\nContent-Length: ",
    );
    text::push_decimal(&mut res, byte_count(body) as u128);
    res = text::join(res.as_str(), "\r\n\r\n");
    text::join(res.as_str(), body)
}

/// A JSON reply with its length, after which the connection is closed.
pub fn reply_sized_and_close(body: &str) -> (res: String)
    ensures
        res@ == sized_closing_reply(body@),
{
    let mut res: String = text::copy_text(
        "HTTP/1.1 200 OK\r\nContent-Type: application/json\r\nContent-Length: ",
    );
    text::push_decimal(&mut res, byte_count(body) as u128);
    res = text::join(res.as_str(), "\r\nConnection: close\r\n\r\n");
    text::join(res.as_str(), body)
}

/// The reply that sets or removes a cookie.
pub fn reply_with_cookie(cookie: &str) -> (res: String)
    ensures
        res@ == cookie_reply(cookie@),
{
    let mut res: String = text::join(
        "HTTP/1.1 200 OK\r\nContent-Type: application/json\r\n",
        cookie,
    );
    text::join(res.as_str(), "\r\nConnection: close\r\n\r\n{\"ok\":true}")
}

/// A page.
pub fn reply_page(html: &str) -> (res: String)
    ensures
        res@ == page_reply(html@),
{
    let mut res: String = text::copy_text(
        "HTTP/1.1 200 OK\r\nContent-Type: text/html\r\nContent-Length: ",
    );
    text::push_decimal(&mut res, byte_count(html) as u128);
    res = text::join(res.as_str(), "\r\nConnection: close\r\n\r\n");
    text::join(res.as_str(), html)
}

/// The reply to a request that is too large.
pub fn too_large() -> (res: String)
    ensures
        res@ == closing_reply("413 Payload Too Large"@, "{\"error\":\"Payload too large\"}"@),
{
    reply_and_close("413 Payload Too Large", "{\"error\":\"Payload too large\"}")
}

/// Every answer ends with its body, unchanged, behind a blank line.
pub proof fn law_answers_end_with_their_body(status: Seq<char>, body: Seq<char>)
    ensures
        ({
            let n = body.len() as int;
            let blank = seq!['\r', '\n', '\r', '\n'];
            let plain = plain_reply(status, body);
            let closing = closing_reply(status, body);
            let sized = sized_reply(body);
            let sized_closing = sized_closing_reply(body);
            let page = page_reply(body);
            &&& plain.skip(plain.len() - n) == body && plain.subrange(
                plain.len() - n - 4,
                plain.len() - n,
            ) == blank
            &&& closing.skip(closing.len() - n) == body && closing.subrange(
                closing.len() - n - 4,
                closing.len() - n,
            ) == blank
            &&& sized.skip(sized.len() - n) == body && sized.subrange(
                sized.len() - n - 4,
                sized.len() - n,
            ) == blank
            &&& sized_closing.skip(sized_closing.len() - n) == body && sized_closing.subrange(
                sized_closing.len() - n - 4,
                sized_closing.len() - n,
            ) == blank
            &&& page.skip(page.len() - n) == body && page.subrange(
                page.len() - n - 4,
                page.len() - n,
            ) == blank
        }),
{
    let n = body.len() as int;
    let blank = seq!['\r', '\n', '\r', '\n'];
    reveal_strlit("\r\nContent-Type: application/json\r\n\r\n");
    reveal_strlit("\r\nContent-Type: application/json\r\nConnection: close\r\n\r\n");
    reveal_strlit("\r\n\r\n");
    reveal_strlit("\r\nConnection: close\r\n\r\n");
    assert("\r\nContent-Type: application/json\r\n\r\n"@.len() == 36);
    assert("\r\nContent-Type: application/json\r\nConnection: close\r\n\r\n"@.len() == 55);
    assert("\r\n\r\n"@.len() == 4);
    assert("\r\nConnection: close\r\n\r\n"@.len() == 23);
    let plain = plain_reply(status, body);
    let closing = closing_reply(status, body);
    let sized = sized_reply(body);
    let sized_closing = sized_closing_reply(body);
    let page = page_reply(body);
    assert(plain.skip(plain.len() - n) =~= body);
    assert(plain.subrange(plain.len() - n - 4, plain.len() - n) =~= blank);
    assert(closing.skip(closing.len() - n) =~= body);
    assert(closing.subrange(closing.len() - n - 4, closing.len() - n) =~= blank);
    assert(sized.skip(sized.len() - n) =~= body);
    assert(sized.subrange(sized.len() - n - 4, sized.len() - n) =~= blank);
    assert(sized_closing.skip(sized_closing.len() - n) =~= body);
    assert(sized_closing.subrange(sized_closing.len() - n - 4, sized_closing.len() - n) =~= blank);
    assert(page.skip(page.len() - n) =~= body);
    assert(page.subrange(page.len() - n - 4, page.len() - n) =~= blank);
}

/// An answer that tells its length tells the length of its body in bytes.
pub proof fn law_told_length_is_the_bodys(body: Seq<char>)
    ensures
        ({
            let length = text::decimal(encode_utf8(body).len());
            let json = "HTTP/1.1 200 OK\r\nContent-Type: application/json\r\nContent-Length: "@;
            let html = "HTTP/1.1 200 OK\r\nContent-Type: text/html\r\nContent-Length: "@;
            &&& (json + length + "\r\n\r\n"@).is_prefix_of(sized_reply(body))
            &&& (json + length + "\r\nConnection: close\r\n\r\n"@).is_prefix_of(
                sized_closing_reply(body),
            )
            &&& (html + length + "\r\nConnection: close\r\n\r\n"@).is_prefix_of(page_reply(body))
        }),
{
}

/// The first line of an answer has its status, and the answer that sets a cookie holds it as a
/// header of its own.
pub proof fn law_answers_begin_with_their_status(
    status: Seq<char>,
    body: Seq<char>,
    cookie: Seq<char>,
)
    ensures
        ("HTTP/1.1 "@ + status + "\r\nContent-Type: application/json\r\n"@).is_prefix_of(
            plain_reply(status, body),
        ),
        ("HTTP/1.1 "@ + status + "\r\nContent-Type: application/json\r\n"@).is_prefix_of(
            closing_reply(status, body),
        ),
        ("HTTP/1.1 200 OK\r\nContent-Type: application/json\r\n"@ + cookie + "\r\n"@).is_prefix_of(
            cookie_reply(cookie),
        ),
{
    reveal_strlit("\r\nContent-Type: application/json\r\n");
    reveal_strlit("\r\nContent-Type: application/json\r\n\r\n");
    reveal_strlit("\r\nContent-Type: application/json\r\nConnection: close\r\n\r\n");
    reveal_strlit("\r\n");
    reveal_strlit("\r\nConnection: close\r\n\r\n{\"ok\":true}");
    let first = "\r\nContent-Type: application/json\r\n"@;
    let a = "\r\nContent-Type: application/json\r\n\r\n"@;
    let b = "\r\nContent-Type: application/json\r\nConnection: close\r\n\r\n"@;
    let c = "\r\nConnection: close\r\n\r\n{\"ok\":true}"@;
    assert(first.len() == 34 && a.len() == 36 && b.len() == 55 && c.len() == 34);
    assert("\r\n"@.len() == 2);
    assert(a.take(34) =~= first);
    assert(b.take(34) =~= first);
    assert(c.take(2) =~= "\r\n"@);
    let head = "HTTP/1.1 "@ + status + first;
    let n = head.len() as int;
    let plain = plain_reply(status, body);
    let closing = closing_reply(status, body);
    let m = ("HTTP/1.1 "@ + status).len() as int;
    assert(plain.take(n) =~= "HTTP/1.1 "@ + status + a.take(34));
    assert(closing.take(n) =~= "HTTP/1.1 "@ + status + b.take(34));
    let start = "HTTP/1.1 200 OK\r\nContent-Type: application/json\r\n"@ + cookie;
    assert(cookie_reply(cookie).take(start.len() as int + 2) =~= start + c.take(2));
}

} // verus!
