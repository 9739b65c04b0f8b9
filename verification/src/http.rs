//! A plain model of the HTTP exchanges with a router: what is to be sent
//! and what came back. Sending and receiving are left to the caller.

use crate::json::{JsonValue, JsonView};
use crate::model::opt_text;
use crate::text::chars_of;
use vstd::prelude::*;

verus! {

/// The method of a request.
#[derive(Clone, Copy, Debug, PartialEq, Eq, Structural)]
pub enum Method {
    Get,
    Post,
}

/// The view of an optional document.
pub open spec fn opt_json(o: Option<JsonValue>) -> Option<JsonView> {
    match o {
        Some(j) => Some(j@),
        None => None,
    }
}

/// A request to be sent: a `Get` has no body, a `Post` carries a JSON body.
#[derive(Debug)]
pub struct HttpRequest {
    pub method: Method,
    pub url: String,
    pub body: Option<JsonValue>,
}

/// The mathematical value of an [`HttpRequest`].
pub struct HttpRequestView {
    pub method: Method,
    pub url: Seq<char>,
    pub body: Option<JsonView>,
}

impl View for HttpRequest {
    type V = HttpRequestView;

    open spec fn view(&self) -> HttpRequestView {
        HttpRequestView { method: self.method, url: self.url@, body: opt_json(self.body) }
    }
}

/// One header of a response. The value is `None` where it is not text.
#[derive(Clone, Debug)]
pub struct Header {
    pub name: String,
    pub value: Option<String>,
}

/// The mathematical value of a [`Header`].
pub struct HeaderView {
    pub name: Seq<char>,
    pub value: Option<Seq<char>>,
}

impl View for Header {
    type V = HeaderView;

    open spec fn view(&self) -> HeaderView {
        HeaderView { name: self.name@, value: opt_text(self.value) }
    }
}

/// The views of a list of headers.
pub open spec fn header_views(list: Seq<Header>) -> Seq<HeaderView> {
    Seq::new(list.len(), |i: int| list[i]@)
}

/// A response that came back: its status, its headers in order, and its
/// body where that was a JSON document.
#[derive(Debug)]
pub struct HttpResponse {
    pub status: u16,
    pub headers: Vec<Header>,
    pub body: Option<JsonValue>,
}

/// The mathematical value of an [`HttpResponse`].
pub struct HttpResponseView {
    pub status: u16,
    pub headers: Seq<HeaderView>,
    pub body: Option<JsonView>,
}

impl View for HttpResponse {
    type V = HttpResponseView;

    open spec fn view(&self) -> HttpResponseView {
        HttpResponseView {
            status: self.status,
            headers: header_views(self.headers@),
            body: opt_json(self.body),
        }
    }
}

/// How an exchange ended: with a response, or with a failure of the
/// transport and the reason for it.
#[derive(Debug)]
pub enum Reply {
    Response(HttpResponse),
    Failure(String),
}

/// The mathematical value of a [`Reply`].
pub enum ReplyView {
    Response(HttpResponseView),
    Failure(Seq<char>),
}

impl View for Reply {
    type V = ReplyView;

    open spec fn view(&self) -> ReplyView {
        match self {
            Reply::Response(r) => ReplyView::Response(r@),
            Reply::Failure(m) => ReplyView::Failure(m@),
        }
    }
}

/// The view of a reply that may not have come yet.
pub open spec fn opt_reply(o: Option<&Reply>) -> Option<ReplyView> {
    match o {
        Some(r) => Some(r@),
        None => None,
    }
}

/// Whether a status stands for success: 200 to 299.
pub open spec fn is_success(status: u16) -> bool {
    200 <= status <= 299
}

/// Whether a status stands for success.
pub fn status_is_success(status: u16) -> (ok: bool)
    ensures
        ok == is_success(status),
{
    200 <= status && status <= 299
}

/// `c` with the ASCII capitals mapped to their small letters.
pub open spec fn ascii_lower(c: char) -> char {
    if 65 <= c as u32 <= 90 {
        ((c as u32) + 32) as char
    } else {
        c
    }
}

/// Whether two header names are the same: header names do not
/// distinguish ASCII capitals from small letters.
pub open spec fn same_name(a: Seq<char>, b: Seq<char>) -> bool {
    a.len() == b.len() && forall|i: int| 0 <= i < a.len() ==> ascii_lower(a[i]) == ascii_lower(b[i])
}

/// The value of the first header at or after `from` whose name is `name`.
pub open spec fn header_from(headers: Seq<HeaderView>, name: Seq<char>, from: int) -> Option<
    Seq<char>,
>
    decreases headers.len() - from,
{
    if from < 0 || from >= headers.len() {
        None
    } else if same_name(headers[from].name, name) {
        headers[from].value
    } else {
        header_from(headers, name, from + 1)
    }
}

/// `c` with the ASCII capitals mapped to their small letters.
fn lower_ascii(c: char) -> (out: char)
    ensures
        out == ascii_lower(c),
{
    let u: u32 = c as u32;
    if 65 <= u && u <= 90 {
        let b: u8 = (u + 32) as u8;
        b as char
    } else {
        c
    }
}

/// Whether two header names are the same.
pub fn names_match(a: &str, b: &str) -> (same: bool)
    ensures
        same == same_name(a@, b@),
{
    let left = chars_of(a);
    let right = chars_of(b);
    if left.len() != right.len() {
        return false;
    }
    let n: usize = left.len();
    let mut i: usize = 0;
    while i < n
        invariant
            n == left@.len(),
            n == right@.len(),
            left@ == a@,
            right@ == b@,
            i <= n,
            forall|k: int| 0 <= k < i ==> ascii_lower(a@[k]) == ascii_lower(b@[k]),
        decreases n - i,
    {
        if lower_ascii(left[i]) != lower_ascii(right[i]) {
            return false;
        }
        i += 1;
    }
    true
}

/// The value of the first header whose name is `name`; `None` where there
/// is no such header or its value is not text.
pub fn header_value(headers: &Vec<Header>, name: &str) -> (out: Option<String>)
    ensures
        opt_text(out) == header_from(header_views(headers@), name@, 0),
{
    let ghost all = header_views(headers@);
    let n: usize = headers.len();
    let mut i: usize = 0;
    while i < n
        invariant
            n == headers@.len(),
            i <= n,
            all == header_views(headers@),
            header_from(all, name@, 0) == header_from(all, name@, i as int),
        decreases n - i,
    {
        if names_match(headers[i].name.as_str(), name) {
            return crate::model::copy_opt_text(&headers[i].value);
        }
        i += 1;
    }
    None
}

} // verus!
