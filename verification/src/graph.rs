//! Microsoft sign-in and Microsoft Graph: the requests the synchronization
//! sends, the multipart bodies it uploads, and how tokens and error replies
//! are read. Sending and receiving is left to the caller.

use crate::html::{find_generated_content_id, generated_content_id};
use crate::model::opt_view;
use crate::text::{decimal, push_char, push_decimal, trim, trim_spec};
use vstd::prelude::*;
use vstd::utf8::encode_utf8;

verus! {

/// The version of the page links that can be patched safely.
pub const GRAPH_SYNC_VERSION: u32 = 1;

/// The Microsoft identity platform endpoint.
pub open spec fn authority() -> Seq<char> {
    "https://login.microsoftonline.com/common/oauth2/v2.0"@
}

/// The Microsoft Graph endpoint.
pub open spec fn graph_root() -> Seq<char> {
    "https://graph.microsoft.com/v1.0"@
}

/// The permissions the sign-in asks for.
pub open spec fn scopes() -> Seq<char> {
    "offline_access Notes.ReadWrite"@
}

/// A signed-in Microsoft session.
#[derive(Debug)]
pub struct TokenSecret {
    pub access_token: String,
    pub refresh_token: String,
    /// Unix time, in seconds, after which the access token is not used.
    pub expires_at: u64,
}

/// Mathematical view of a session.
pub struct TokenView {
    pub access_token: Seq<char>,
    pub refresh_token: Seq<char>,
    pub expires_at: u64,
}

impl View for TokenSecret {
    type V = TokenView;

    open spec fn view(&self) -> TokenView {
        TokenView {
            access_token: self.access_token@,
            refresh_token: self.refresh_token@,
            expires_at: self.expires_at,
        }
    }
}

impl TokenSecret {
    /// A copy of the session.
    pub fn duplicate(&self) -> (r: TokenSecret)
        ensures
            r@ == self@,
    {
        TokenSecret {
            access_token: self.access_token.clone(),
            refresh_token: self.refresh_token.clone(),
            expires_at: self.expires_at,
        }
    }
}

/// The token endpoint's reply to a sign-in or refresh.
#[derive(Debug)]
pub struct TokenResponse {
    pub access_token: String,
    pub refresh_token: Option<String>,
    /// Lifetime of the access token, in seconds.
    pub expires_in: u64,
}

/// A device-code sign-in in progress.
#[derive(Clone, Debug)]
pub struct DeviceCode {
    pub device_code: String,
    pub user_code: String,
    pub verification_uri: String,
    pub expires_in: u64,
    pub interval: u64,
    pub message: String,
}

/// A OneNote notebook of the signed-in account.
#[derive(Debug)]
pub struct GraphNotebook {
    pub id: String,
    pub display_name: String,
    pub is_default: bool,
}

/// A section of a OneNote notebook.
#[derive(Debug)]
pub struct GraphSection {
    pub id: String,
    pub display_name: String,
    pub is_default: bool,
}

/// A page as Graph describes it after it was created or read.
#[derive(Debug)]
pub struct CreatedPage {
    pub id: String,
    pub title: String,
    pub last_modified_date_time: String,
}

/// A form posted to the identity platform.
#[derive(Debug)]
pub struct FormRequest {
    pub url: String,
    pub fields: Vec<(String, String)>,
}

/// The view of form fields.
pub open spec fn fields_view(fields: Seq<(String, String)>) -> Seq<(Seq<char>, Seq<char>)> {
    fields.map_values(|f: (String, String)| (f.0@, f.1@))
}

/// An authorized GET request to Graph.
#[derive(Debug)]
pub struct GetRequest {
    pub url: String,
    pub authorization: String,
    pub accept: String,
}

fn field(name: &str, value: &str) -> (r: (String, String))
    ensures
        r.0@ == name@,
        r.1@ == value@,
{
    (String::from_str(name), String::from_str(value))
}

/// The form that asks the identity platform for a device sign-in code.
pub fn request_device_code(client_id: &str) -> (r: FormRequest)
    ensures
        r.url@ == authority() + "/devicecode"@,
        fields_view(r.fields@) == seq![("client_id"@, client_id@), ("scope"@, scopes())],
{
    let mut url = String::from_str("https://login.microsoftonline.com/common/oauth2/v2.0");
    url.append("/devicecode");
    let mut fields: Vec<(String, String)> = Vec::new();
    fields.push(field("client_id", client_id));
    fields.push(field("scope", "offline_access Notes.ReadWrite"));
    assert(fields_view(fields@) =~= seq![("client_id"@, client_id@), ("scope"@, scopes())]);
    FormRequest { url, fields }
}

/// The form that asks whether a device sign-in has completed.
pub fn device_token_request(client_id: &str, device_code: &str) -> (r: FormRequest)
    ensures
        r.url@ == authority() + "/token"@,
        fields_view(r.fields@) == seq![
            ("grant_type"@, "urn:ietf:params:oauth:grant-type:device_code"@),
            ("client_id"@, client_id@),
            ("device_code"@, device_code@),
        ],
{
    let mut url = String::from_str("https://login.microsoftonline.com/common/oauth2/v2.0");
    url.append("/token");
    let mut fields: Vec<(String, String)> = Vec::new();
    fields.push(field("grant_type", "urn:ietf:params:oauth:grant-type:device_code"));
    fields.push(field("client_id", client_id));
    fields.push(field("device_code", device_code));
    assert(fields_view(fields@) =~= seq![
        ("grant_type"@, "urn:ietf:params:oauth:grant-type:device_code"@),
        ("client_id"@, client_id@),
        ("device_code"@, device_code@),
    ]);
    FormRequest { url, fields }
}

/// The form that trades a refresh token for a new session.
pub fn refresh_request(client_id: &str, refresh_token: &str) -> (r: FormRequest)
    ensures
        r.url@ == authority() + "/token"@,
        fields_view(r.fields@) == seq![
            ("client_id"@, client_id@),
            ("grant_type"@, "refresh_token"@),
            ("refresh_token"@, refresh_token@),
            ("scope"@, scopes()),
        ],
{
    let mut url = String::from_str("https://login.microsoftonline.com/common/oauth2/v2.0");
    url.append("/token");
    let mut fields: Vec<(String, String)> = Vec::new();
    fields.push(field("client_id", client_id));
    fields.push(field("grant_type", "refresh_token"));
    fields.push(field("refresh_token", refresh_token));
    fields.push(field("scope", "offline_access Notes.ReadWrite"));
    assert(fields_view(fields@) =~= seq![
        ("client_id"@, client_id@),
        ("grant_type"@, "refresh_token"@),
        ("refresh_token"@, refresh_token@),
        ("scope"@, scopes()),
    ]);
    FormRequest { url, fields }
}

/// `a + b`, or `u64::MAX` when the sum does not fit.
pub open spec fn saturating_add_spec(a: u64, b: u64) -> u64 {
    if a + b > u64::MAX {
        u64::MAX
    } else {
        (a + b) as u64
    }
}

/// `a - b`, or 0 when `b` is larger.
pub open spec fn saturating_sub_spec(a: u64, b: u64) -> u64 {
    if a < b {
        0
    } else {
        (a - b) as u64
    }
}

/// The session a token reply gives at time `now`: the access token expires a
/// minute early, and a reply without a refresh token keeps the previous one.
pub open spec fn session_at(response: TokenResponse, previous_refresh_token: Seq<char>, now: u64) -> TokenView {
    TokenView {
        access_token: response.access_token@,
        refresh_token: match response.refresh_token {
            Some(t) => t@,
            None => previous_refresh_token,
        },
        expires_at: saturating_add_spec(now, saturating_sub_spec(response.expires_in, 60)),
    }
}

/// The session a token reply gives when it is received at time `now`.
pub fn token_secret_at(response: TokenResponse, previous_refresh_token: String, now: u64) -> (r: TokenSecret)
    ensures
        r@ == session_at(response, previous_refresh_token@, now),
{
    let expires_at = now.saturating_add(response.expires_in.saturating_sub(60));
    let refresh_token = match response.refresh_token {
        Some(t) => t,
        None => previous_refresh_token,
    };
    TokenSecret { access_token: response.access_token, refresh_token, expires_at }
}

/// The current Unix time in seconds (0 for a clock set before 1970).
/// Trusted: reads `SystemTime::now` and takes its distance from `UNIX_EPOCH`;
/// nothing is claimed of the value, which depends on the clock.
#[verifier::external_body]
pub fn unix_time() -> (r: u64) {
    std::time::SystemTime::now().duration_since(std::time::UNIX_EPOCH).unwrap_or_default().as_secs()
}

/// The session a token reply gives now.
pub fn token_secret(response: TokenResponse, previous_refresh_token: String) -> (r: TokenSecret)
    ensures
        exists|now: u64| r@ == #[trigger] session_at(response, previous_refresh_token@, now),
{
    let ghost reply = response;
    let ghost previous = previous_refresh_token@;
    let now = unix_time();
    let r = token_secret_at(response, previous_refresh_token, now);
    assert(r@ == session_at(reply, previous, now));
    r
}

/// What to do with a session before a request.
#[derive(Debug)]
pub enum RefreshDecision {
    /// The access token is good for more than two minutes.
    Keep,
    /// The session can no longer be renewed; the message says so.
    Expired(String),
    /// Renew the session with its refresh token.
    Refresh,
}

/// Whether a session must be renewed at time `now`.
pub fn refresh_decision(token: &TokenSecret, now: u64) -> (r: RefreshDecision)
    ensures
        token.expires_at > saturating_add_spec(now, 120) ==> r is Keep,
        token.expires_at <= saturating_add_spec(now, 120) && token.refresh_token@.len() == 0 ==> (
        r is Expired && r->Expired_0@ == "Microsoft session expired; sign in again"@),
        token.expires_at <= saturating_add_spec(now, 120) && token.refresh_token@.len() > 0
            ==> r is Refresh,
{
    if token.expires_at > now.saturating_add(120) {
        RefreshDecision::Keep
    } else if token.refresh_token.as_str().is_empty() {
        RefreshDecision::Expired(String::from_str("Microsoft session expired; sign in again"))
    } else {
        RefreshDecision::Refresh
    }
}

/// The `Authorization` header for a session.
pub fn bearer(token: &TokenSecret) -> (r: String)
    ensures
        r@ == "Bearer "@ + token.access_token@,
{
    let mut r = String::from_str("Bearer ");
    r.append(token.access_token.as_str());
    r
}

/// An authorized GET request for `url`, accepting `accept`.
fn authorized_get(token: &TokenSecret, url: String, accept: &str) -> (r: GetRequest)
    ensures
        r.url == url,
        r.authorization@ == "Bearer "@ + token.access_token@,
        r.accept@ == accept@,
{
    GetRequest { url, authorization: bearer(token), accept: String::from_str(accept) }
}

/// The request that lists the notebooks of the signed-in account.
pub fn list_notebooks(token: &TokenSecret) -> (r: GetRequest)
    ensures
        r.url@ == graph_root() + "/me/onenote/notebooks?$select=id,displayName,isDefault"@,
        r.authorization@ == "Bearer "@ + token.access_token@,
        r.accept@ == "application/json"@,
{
    let mut url = String::from_str("https://graph.microsoft.com/v1.0");
    url.append("/me/onenote/notebooks?$select=id,displayName,isDefault");
    authorized_get(token, url, "application/json")
}

/// `value` with every byte of its UTF-8 encoding that is not an ASCII letter
/// or digit written as `%` and two upper-case hexadecimal digits.
pub open spec fn percent_encoded(bytes: Seq<u8>) -> Seq<char>
    decreases bytes.len(),
{
    if bytes.len() == 0 {
        Seq::empty()
    } else {
        percent_encoded(bytes.drop_last()) + byte_encoded(bytes.last())
    }
}

/// Whether a byte is an ASCII letter or digit.
pub open spec fn is_ascii_alphanumeric(b: u8) -> bool {
    (48 <= b <= 57) || (65 <= b <= 90) || (97 <= b <= 122)
}

/// The upper-case hexadecimal digit of `n < 16`.
pub open spec fn hex_digit(n: u8) -> char {
    if n < 10 {
        (48 + n) as char
    } else {
        (55 + n) as char
    }
}

/// One byte, kept or percent-encoded.
pub open spec fn byte_encoded(b: u8) -> Seq<char> {
    if is_ascii_alphanumeric(b) {
        seq![b as char]
    } else {
        seq!['%', hex_digit(b / 16), hex_digit(b % 16)]
    }
}

/// A string percent-encoded for use as one segment of a URL path.
/// Trusted: calls `percent_encoding::utf8_percent_encode` with the
/// `NON_ALPHANUMERIC` set, which encodes every byte of the UTF-8 form that is
/// not an ASCII letter or digit as `%XX` with upper-case digits.
#[verifier::external_body]
fn percent_encode_segment(value: &str) -> (r: String)
    ensures
        r@ == percent_encoded(encode_utf8(value@)),
{
    percent_encoding::utf8_percent_encode(value, percent_encoding::NON_ALPHANUMERIC).to_string()
}

/// An id made safe for a URL path.
pub fn encode(value: &str) -> (r: String)
    ensures
        r@ == percent_encoded(encode_utf8(value@)),
{
    percent_encode_segment(value)
}

/// The request that lists the sections of a notebook.
pub fn list_sections(token: &TokenSecret, notebook_id: &str) -> (r: GetRequest)
    ensures
        r.url@ == graph_root() + "/me/onenote/notebooks/"@ + percent_encoded(encode_utf8(notebook_id@))
            + "/sections?$select=id,displayName,isDefault"@,
        r.authorization@ == "Bearer "@ + token.access_token@,
        r.accept@ == "application/json"@,
{
    let mut url = String::from_str("https://graph.microsoft.com/v1.0");
    url.append("/me/onenote/notebooks/");
    url.append(encode(notebook_id).as_str());
    url.append("/sections?$select=id,displayName,isDefault");
    authorized_get(token, url, "application/json")
}

/// The address pages of a section are created at.
pub fn create_page_url(section_id: &str) -> (r: String)
    ensures
        r@ == graph_root() + "/me/onenote/sections/"@ + percent_encoded(encode_utf8(section_id@))
            + "/pages"@,
{
    let mut url = String::from_str("https://graph.microsoft.com/v1.0");
    url.append("/me/onenote/sections/");
    url.append(encode(section_id).as_str());
    url.append("/pages");
    url
}

/// The request that reads a page's id, title and modification time.
pub fn page_request(token: &TokenSecret, page_id: &str) -> (r: GetRequest)
    ensures
        r.url@ == graph_root() + "/me/onenote/pages/"@ + percent_encoded(encode_utf8(page_id@))
            + "?$select=id,title,lastModifiedDateTime"@,
        r.authorization@ == "Bearer "@ + token.access_token@,
        r.accept@ == "application/json"@,
{
    let mut url = String::from_str("https://graph.microsoft.com/v1.0");
    url.append("/me/onenote/pages/");
    url.append(encode(page_id).as_str());
    url.append("?$select=id,title,lastModifiedDateTime");
    authorized_get(token, url, "application/json")
}

/// The request that reads a page's HTML with the ids Graph gave its elements.
pub fn page_content_request(token: &TokenSecret, page_id: &str) -> (r: GetRequest)
    ensures
        r.url@ == graph_root() + "/me/onenote/pages/"@ + percent_encoded(encode_utf8(page_id@))
            + "/content?includeIDs=true"@,
        r.authorization@ == "Bearer "@ + token.access_token@,
        r.accept@ == "text/html"@,
{
    let mut url = String::from_str("https://graph.microsoft.com/v1.0");
    url.append("/me/onenote/pages/");
    url.append(encode(page_id).as_str());
    url.append("/content?includeIDs=true");
    authorized_get(token, url, "text/html")
}

/// The address a page's content is patched at.
pub fn update_page_url(page_id: &str) -> (r: String)
    ensures
        r@ == graph_root() + "/me/onenote/pages/"@ + percent_encoded(encode_utf8(page_id@))
            + "/content"@,
{
    let mut url = String::from_str("https://graph.microsoft.com/v1.0");
    url.append("/me/onenote/pages/");
    url.append(encode(page_id).as_str());
    url.append("/content");
    url
}

/// The JSON value found at a JSON pointer in a reply: `None` when the reply
/// is not JSON or nothing is there, `Some(None)` for a value that is not a
/// string (the result of `serde_json::from_str`, `Value::pointer` and
/// `Value::as_str`).
pub uninterp spec fn json_pointer_value(body: Seq<char>, pointer: Seq<char>) -> Option<Option<Seq<char>>>;

/// The value at a JSON pointer in a reply.
/// Trusted: parses `body` with `serde_json::from_str` into a `Value`, looks
/// `pointer` up with `Value::pointer` and reads a string with `Value::as_str`.
#[verifier::external_body]
fn json_pointer(body: &str, pointer: &str) -> (r: Option<Option<String>>)
    ensures
        match (r, json_pointer_value(body@, pointer@)) {
            (None, None) => true,
            (Some(v), Some(w)) => opt_view(v) == w,
            _ => false,
        },
{
    let value: serde_json::Value = match serde_json::from_str(body) {
        Ok(value) => value,
        Err(_) => return None,
    };
    let found = value.pointer(pointer)?;
    Some(found.as_str().map(String::from))
}

/// The message of a failed Graph reply: the first of `/error/message`,
/// `/error_description` and `/error` that the reply holds, if it is a string;
/// otherwise the reply itself without surrounding white space.
pub open spec fn error_message_spec(body: Seq<char>) -> Seq<char> {
    let found = match json_pointer_value(body, "/error/message"@) {
        Some(v) => Some(v),
        None => match json_pointer_value(body, "/error_description"@) {
            Some(v) => Some(v),
            None => json_pointer_value(body, "/error"@),
        },
    };
    match found {
        Some(Some(message)) => message,
        _ => trim_spec(body),
    }
}

/// The error shown for a failed Graph reply with HTTP status `status`.
pub open spec fn graph_error_spec(status: u16, body: Seq<char>) -> Seq<char> {
    let message = error_message_spec(body);
    if message.len() == 0 {
        "Microsoft Graph request failed with HTTP "@ + decimal(status as nat)
    } else {
        "Microsoft Graph HTTP "@ + decimal(status as nat) + ": "@ + message
    }
}

/// The message carried by a failed reply.
fn error_message(body: &str) -> (r: String)
    ensures
        r@ == error_message_spec(body@),
{
    let found = match json_pointer(body, "/error/message") {
        Some(v) => Some(v),
        None => match json_pointer(body, "/error_description") {
            Some(v) => Some(v),
            None => json_pointer(body, "/error"),
        },
    };
    match found {
        Some(Some(message)) => message,
        _ => trim(body),
    }
}

/// The error shown for a failed Graph reply.
pub fn graph_error(status: u16, body: &str) -> (r: String)
    ensures
        r@ == graph_error_spec(status, body@),
{
    let message = error_message(body);
    if message.as_str().is_empty() {
        let mut out = String::from_str("Microsoft Graph request failed with HTTP ");
        push_decimal(&mut out, status as u64);
        out
    } else {
        let mut out = String::from_str("Microsoft Graph HTTP ");
        push_decimal(&mut out, status as u64);
        out.append(": ");
        out.append(message.as_str());
        out
    }
}

/// `s` with every `_` written as a space.
pub open spec fn underscores_to_spaces(s: Seq<char>) -> Seq<char> {
    s.map_values(|c: char| if c == '_' { ' ' } else { c })
}

/// How a device sign-in that is not complete yet goes on.
#[derive(Debug)]
pub enum DevicePoll {
    /// Ask again after `interval` seconds.
    Wait(u64),
    /// The sign-in failed with this message.
    Failed(String),
}

/// What an OAuth error reply to a device sign-in poll means: keep waiting
/// (longer after `slow_down`), or stop with the reply's description, or its
/// error code with underscores as spaces.
pub fn device_poll_error(error: &str, description: Option<String>, interval: u64) -> (r: DevicePoll)
    requires
        error@ == "slow_down"@ ==> interval + 5 <= u64::MAX,
    ensures
        error@ == "authorization_pending"@ ==> r == DevicePoll::Wait(interval),
        error@ == "slow_down"@ ==> r == DevicePoll::Wait((interval + 5) as u64),
        error@ != "authorization_pending"@ && error@ != "slow_down"@ ==> (r is Failed
            && r->Failed_0@ == match description {
            Some(d) => d@,
            None => underscores_to_spaces(error@),
        }),
{
    proof {
        reveal_strlit("slow_down");
        reveal_strlit("authorization_pending");
    }
    let e = crate::text::chars_of(error);
    let pending = crate::text::chars_of("authorization_pending");
    let slow = crate::text::chars_of("slow_down");
    if crate::text::chars_equal(&e, &pending) {
        DevicePoll::Wait(interval)
    } else if crate::text::chars_equal(&e, &slow) {
        DevicePoll::Wait(interval + 5)
    } else {
        match description {
            Some(d) => DevicePoll::Failed(d),
            None => {
                let mut out = String::new();
                let mut i: usize = 0;
                while i < e.len()
                    invariant
                        i <= e@.len(),
                        out@ == underscores_to_spaces(e@.take(i as int)),
                    decreases e@.len() - i,
                {
                    let c = e[i];
                    push_char(&mut out, if c == '_' { ' ' } else { c });
                    i = i + 1;
                    assert(underscores_to_spaces(e@.take(i as int)) =~= underscores_to_spaces(
                        e@.take(i - 1),
                    ).push(if c == '_' { ' ' } else { c }));
                }
                assert(e@.take(e@.len() as int) =~= e@);
                DevicePoll::Failed(out)
            },
        }
    }
}

/// A file uploaded with a page, as a named multipart part.
#[derive(Debug)]
pub struct GraphResource {
    pub part_name: String,
    pub content_type: String,
    pub data: Vec<u8>,
}

/// Mathematical view of an uploaded file.
pub struct ResourceView {
    pub part_name: Seq<char>,
    pub content_type: Seq<char>,
    pub data: Seq<u8>,
}

impl View for GraphResource {
    type V = ResourceView;

    open spec fn view(&self) -> ResourceView {
        ResourceView { part_name: self.part_name@, content_type: self.content_type@, data: self.data@ }
    }
}

/// A page prepared for Microsoft Graph: its title, its HTML, the files its
/// HTML refers to, and what could not be carried over.
#[derive(Debug)]
pub struct GraphPageExport {
    pub title: String,
    pub html: String,
    pub resources: Vec<GraphResource>,
    pub warnings: Vec<String>,
}

/// The view of a list of uploaded files.
pub open spec fn resources_view(resources: Seq<GraphResource>) -> Seq<ResourceView> {
    resources.map_values(|r: GraphResource| r@)
}

/// The header lines of one multipart part.
pub open spec fn part_header(boundary: Seq<char>, name: Seq<char>, content_type: Seq<char>) -> Seq<char> {
    "--"@ + boundary + "\r\n"@ + "Content-Disposition: form-data; name=\""@ + name + "\"\r\n"@
        + "Content-Type: "@ + content_type + "\r\n\r\n"@
}

/// One multipart part: its header, its data, and a line break.
pub open spec fn part_bytes(boundary: Seq<char>, name: Seq<char>, content_type: Seq<char>, data: Seq<u8>) -> Seq<u8> {
    encode_utf8(part_header(boundary, name, content_type)) + data + encode_utf8("\r\n"@)
}

/// The parts of the uploaded files, in order.
pub open spec fn resource_parts(resources: Seq<ResourceView>, boundary: Seq<char>) -> Seq<u8>
    decreases resources.len(),
{
    if resources.len() == 0 {
        Seq::empty()
    } else {
        resource_parts(resources.drop_last(), boundary) + part_bytes(
            boundary,
            resources.last().part_name,
            resources.last().content_type,
            resources.last().data,
        )
    }
}

/// The line that closes a multipart body.
pub open spec fn closing_line(boundary: Seq<char>) -> Seq<u8> {
    encode_utf8("--"@ + boundary + "--\r\n"@)
}

/// Appends bytes to a body.
fn push_bytes(body: &mut Vec<u8>, data: &[u8])
    ensures
        final(body)@ == old(body)@ + data@,
{
    let ghost start = body@;
    let mut i: usize = 0;
    while i < data.len()
        invariant
            i <= data@.len(),
            body@ == start + data@.take(i as int),
        decreases data@.len() - i,
    {
        body.push(data[i]);
        i = i + 1;
        assert(data@.take(i as int) =~= data@.take(i - 1).push(data@[i - 1]));
    }
    assert(data@.take(data@.len() as int) =~= data@);
}

/// Appends one multipart part to a body.
pub fn push_part(body: &mut Vec<u8>, boundary: &str, name: &str, content_type: &str, data: &[u8])
    ensures
        final(body)@ == old(body)@ + part_bytes(boundary@, name@, content_type@, data@),
{
    let mut header = String::from_str("--");
    header.append(boundary);
    header.append("\r\n");
    header.append("Content-Disposition: form-data; name=\"");
    header.append(name);
    header.append("\"\r\n");
    header.append("Content-Type: ");
    header.append(content_type);
    header.append("\r\n\r\n");
    push_bytes(body, header.as_str().as_bytes());
    push_bytes(body, data);
    push_bytes(body, "\r\n".as_bytes());
    proof {
        assert(header@ =~= part_header(boundary@, name@, content_type@));
    }
}

/// Appends the parts of the uploaded files and the closing line.
fn push_resources(body: &mut Vec<u8>, resources: &Vec<GraphResource>, boundary: &str)
    ensures
        final(body)@ == old(body)@ + resource_parts(resources_view(resources@), boundary@)
            + closing_line(boundary@),
{
    let ghost start = body@;
    let mut i: usize = 0;
    while i < resources.len()
        invariant
            i <= resources@.len(),
            body@ == start + resource_parts(resources_view(resources@.take(i as int)), boundary@),
        decreases resources@.len() - i,
    {
        let resource = &resources[i];
        push_part(
            body,
            boundary,
            resource.part_name.as_str(),
            resource.content_type.as_str(),
            resource.data.as_slice(),
        );
        i = i + 1;
        proof {
            let v = resources_view(resources@.take(i as int));
            assert(v.drop_last() =~= resources_view(resources@.take(i - 1)));
            assert(v.last() == resources@[i - 1]@);
        }
    }
    assert(resources@.take(resources@.len() as int) =~= resources@);
    let mut closing = String::from_str("--");
    closing.append(boundary);
    closing.append("--\r\n");
    push_bytes(body, closing.as_str().as_bytes());
    assert(closing@ =~= "--"@ + boundary@ + "--\r\n"@);
}

/// The multipart body that creates a page: its HTML as the `Presentation`
/// part, then its files.
pub fn multipart_page(page: &GraphPageExport, boundary: &str) -> (r: Vec<u8>)
    ensures
        r@ == part_bytes(boundary@, "Presentation"@, "text/html; charset=utf-8"@, encode_utf8(page.html@))
            + resource_parts(resources_view(page.resources@), boundary@) + closing_line(boundary@),
{
    let mut body: Vec<u8> = Vec::new();
    push_part(&mut body, boundary, "Presentation", "text/html; charset=utf-8", page.html.as_str().as_bytes());
    push_resources(&mut body, &page.resources, boundary);
    assert(body@ =~= part_bytes(boundary@, "Presentation"@, "text/html; charset=utf-8"@, encode_utf8(page.html@))
            + resource_parts(resources_view(page.resources@), boundary@) + closing_line(boundary@));
    body
}

/// The multipart body that patches a page: the commands as the `Commands`
/// part, then the page's files.
pub fn multipart_commands(commands: &str, page: &GraphPageExport, boundary: &str) -> (r: Vec<u8>)
    ensures
        r@ == part_bytes(boundary@, "Commands"@, "application/json"@, encode_utf8(commands@))
            + resource_parts(resources_view(page.resources@), boundary@) + closing_line(boundary@),
{
    let mut body: Vec<u8> = Vec::new();
    push_part(&mut body, boundary, "Commands", "application/json", commands.as_bytes());
    push_resources(&mut body, &page.resources, boundary);
    assert(body@ =~= part_bytes(boundary@, "Commands"@, "application/json"@, encode_utf8(commands@))
            + resource_parts(resources_view(page.resources@), boundary@) + closing_line(boundary@));
    body
}

/// A lower-case hexadecimal digit.
pub open spec fn lower_hex_digit(n: u32) -> char {
    if n < 10 {
        (48 + n) as char
    } else {
        (87 + n) as char
    }
}

/// One character inside a JSON string literal: `"` and `\` behind a
/// backslash, the control characters with a short escape (`\b`, `\t`, `\n`,
/// `\f`, `\r`) or as `\u00` and two lower-case hex digits, every other
/// character as it is.
pub open spec fn json_char(c: char) -> Seq<char> {
    if c == '"' {
        seq!['\\', '"']
    } else if c == '\\' {
        seq!['\\', '\\']
    } else if c == '\u{8}' {
        seq!['\\', 'b']
    } else if c == '\t' {
        seq!['\\', 't']
    } else if c == '\n' {
        seq!['\\', 'n']
    } else if c == '\u{c}' {
        seq!['\\', 'f']
    } else if c == '\r' {
        seq!['\\', 'r']
    } else if (c as u32) < 32 {
        seq!['\\', 'u', '0', '0', lower_hex_digit((c as u32) / 16), lower_hex_digit((c as u32) % 16)]
    } else {
        seq![c]
    }
}

/// The characters of `s` escaped for a JSON string literal.
pub open spec fn json_escaped(s: Seq<char>) -> Seq<char>
    decreases s.len(),
{
    if s.len() == 0 {
        Seq::<char>::empty()
    } else {
        json_escaped(s.drop_last()) + json_char(s.last())
    }
}

/// The JSON string literal of `s` (the text `serde_json` writes for
/// `Value::String`): `s` escaped, between double quotes.
pub open spec fn json_string(s: Seq<char>) -> Seq<char> {
    seq!['"'] + json_escaped(s) + seq!['"']
}

/// A string written as a JSON string literal.
/// Trusted: writes `serde_json::Value::String` with its `Display`, the compact
/// JSON text of the string, which `format_escaped_str` writes as `json_string`
/// states it.
#[verifier::external_body]
fn json_string_literal(s: &str) -> (r: String)
    ensures
        r@ == json_string(s@),
{
    serde_json::Value::String(String::from(s)).to_string()
}

/// The JSON patch that replaces a page's title and its content block
/// (object keys in the order `serde_json` writes them).
pub open spec fn update_commands_spec(title: Seq<char>, target: Seq<char>, content: Seq<char>) -> Seq<char> {
    "[{\"action\":\"replace\",\"content\":"@ + json_string(title) + ",\"target\":\"title\"},"@
        + "{\"action\":\"replace\",\"content\":"@ + json_string(content) + ",\"target\":"@
        + json_string(target) + "}]"@
}

/// The JSON patch that replaces a page's title and the block with id `target`.
pub fn update_commands(title: &str, target: &str, content: &str) -> (r: String)
    ensures
        r@ == update_commands_spec(title@, target@, content@),
{
    let mut out = String::from_str("[{\"action\":\"replace\",\"content\":");
    out.append(json_string_literal(title).as_str());
    out.append(",\"target\":\"title\"},");
    out.append("{\"action\":\"replace\",\"content\":");
    out.append(json_string_literal(content).as_str());
    out.append(",\"target\":");
    out.append(json_string_literal(target).as_str());
    out.append("}]");
    out
}

/// A page ready to be uploaded or patched: the export, and the content block
/// that replaces the linked page's content on an update.
#[derive(Debug)]
pub struct GraphSyncPage {
    pub export: GraphPageExport,
    pub replacement_html: String,
}

/// When a device sign-in started at `now` gives up, and how long to wait
/// between polls (at least a second).
pub fn device_poll_start(code: &DeviceCode, now: u64) -> (r: (u64, u64))
    ensures
        r.0 == saturating_add_spec(now, code.expires_in),
        r.1 == if code.interval < 1 {
            1
        } else {
            code.interval
        },
{
    let interval = if code.interval < 1 {
        1
    } else {
        code.interval
    };
    (now.saturating_add(code.expires_in), interval)
}

/// Whether a linked page changed on the server since it was last synchronized:
/// its modification time differs from the one recorded in the link.
pub fn changed_remotely(remote_modified_at: &str, expected_modified_at: &str) -> (r: bool)
    ensures
        r == (remote_modified_at@ != expected_modified_at@),
{
    let a = crate::text::chars_of(remote_modified_at);
    let b = crate::text::chars_of(expected_modified_at);
    !crate::text::chars_equal(&a, &b)
}

/// Where an update of a linked page stands: which reply of the server it
/// waits for next, or that it is over.
#[derive(Clone, Copy, Debug, PartialEq, Eq, Structural)]
pub enum UpdateState {
    /// Waiting for the page's metadata, read before anything is changed.
    CheckingRemote,
    /// Waiting for the page's HTML content.
    ReadingContent,
    /// Waiting for the answer to the patch.
    Patching,
    /// Waiting for the page's metadata after the patch.
    Confirming,
    /// Nothing more is sent.
    Finished,
}

/// A reply of the server during an update of a linked page.
#[derive(Debug)]
pub enum UpdateReply {
    /// The page's metadata.
    Remote(CreatedPage),
    /// The page's HTML content, with the HTTP status of the reply.
    Content { status: u16, body: String },
    /// The answer to the patch, with its HTTP status.
    Patched { status: u16, body: String },
    /// The page's metadata after the patch.
    Updated(CreatedPage),
}

/// What an update of a linked page does next.
#[derive(Debug)]
pub enum UpdateAction {
    /// Read the page's HTML content.
    FetchContent,
    /// Send these JSON patch commands.
    Patch(String),
    /// Read the page's metadata again.
    FetchUpdated,
    /// Stop: the page changed on the server; its modification time.
    Conflict(String),
    /// Stop with this error.
    Fail(String),
    /// The page was updated; its new metadata.
    Done(CreatedPage),
}

/// Whether `reply` is the one that `state` waits for.
pub open spec fn reply_fits(state: UpdateState, reply: UpdateReply) -> bool {
    match state {
        UpdateState::CheckingRemote => reply is Remote,
        UpdateState::ReadingContent => reply is Content,
        UpdateState::Patching => reply is Patched,
        UpdateState::Confirming => reply is Updated,
        UpdateState::Finished => false,
    }
}

/// Whether `reply` is the one that `state` waits for.
pub fn accepts_reply(state: UpdateState, reply: &UpdateReply) -> (r: bool)
    ensures
        r == reply_fits(state, *reply),
{
    match state {
        UpdateState::CheckingRemote => matches!(reply, UpdateReply::Remote(_)),
        UpdateState::ReadingContent => matches!(reply, UpdateReply::Content { .. }),
        UpdateState::Patching => matches!(reply, UpdateReply::Patched { .. }),
        UpdateState::Confirming => matches!(reply, UpdateReply::Updated(_)),
        UpdateState::Finished => false,
    }
}

/// An HTTP status of success (2xx).
pub open spec fn is_success(status: u16) -> bool {
    200 <= status < 300
}

/// The error for a linked page that has no content block to replace.
pub open spec fn missing_block_message() -> Seq<char> {
    "The linked OneNote page does not contain an updateable OneNote Linux content block"@
}

/// The state an update reaches on `reply`.
pub open spec fn next_update_state(expected_modified_at: Seq<char>, reply: UpdateReply) -> UpdateState {
    match reply {
        UpdateReply::Remote(p) => if p.last_modified_date_time@ != expected_modified_at {
            UpdateState::Finished
        } else {
            UpdateState::ReadingContent
        },
        UpdateReply::Content { status, body } => if is_success(status)
            && generated_content_id(body@) is Some {
            UpdateState::Patching
        } else {
            UpdateState::Finished
        },
        UpdateReply::Patched { status, body: _ } => if is_success(status) {
            UpdateState::Confirming
        } else {
            UpdateState::Finished
        },
        UpdateReply::Updated(_) => UpdateState::Finished,
    }
}

/// One step of updating a linked page with `title` and the content block
/// `replacement_html`: from the reply that `state` waits for, the next state
/// and what to do. A page whose modification time differs from
/// `expected_modified_at` ends the update as a conflict before its content is
/// read; a failed reply ends it with the Graph error; a page without a content
/// block ends it before anything is patched.
pub fn update_step(
    state: UpdateState,
    expected_modified_at: &str,
    title: &str,
    replacement_html: &str,
    reply: UpdateReply,
) -> (r: (UpdateState, UpdateAction))
    requires
        reply_fits(state, reply),
    ensures
        r.0 == next_update_state(expected_modified_at@, reply),
        r.1 is Patch ==> state == UpdateState::ReadingContent,
        match reply {
            UpdateReply::Remote(p) => if p.last_modified_date_time@ != expected_modified_at@ {
                r.1 matches UpdateAction::Conflict(m) && m@ == p.last_modified_date_time@
            } else {
                r.1 is FetchContent
            },
            UpdateReply::Content { status, body } => if !is_success(status) {
                r.1 matches UpdateAction::Fail(m) && m@ == graph_error_spec(status, body@)
            } else {
                match generated_content_id(body@) {
                    Some(t) => r.1 matches UpdateAction::Patch(c) && c@ == update_commands_spec(
                        title@,
                        t,
                        replacement_html@,
                    ),
                    None => r.1 matches UpdateAction::Fail(m) && m@ == missing_block_message(),
                }
            },
            UpdateReply::Patched { status, body } => if !is_success(status) {
                r.1 matches UpdateAction::Fail(m) && m@ == graph_error_spec(status, body@)
            } else {
                r.1 is FetchUpdated
            },
            UpdateReply::Updated(p) => r.1 == UpdateAction::Done(p),
        },
{
    match reply {
        UpdateReply::Remote(p) => {
            if changed_remotely(p.last_modified_date_time.as_str(), expected_modified_at) {
                (UpdateState::Finished, UpdateAction::Conflict(p.last_modified_date_time))
            } else {
                (UpdateState::ReadingContent, UpdateAction::FetchContent)
            }
        },
        UpdateReply::Content { status, body } => {
            if status < 200 || status >= 300 {
                return (UpdateState::Finished, UpdateAction::Fail(graph_error(status, body.as_str())));
            }
            match find_generated_content_id(body.as_str()) {
                Some(target) => {
                    let commands = update_commands(title, target.as_str(), replacement_html);
                    (UpdateState::Patching, UpdateAction::Patch(commands))
                },
                None => {
                    let message = String::from_str(
                        "The linked OneNote page does not contain an updateable OneNote Linux content block",
                    );
                    proof {
                        reveal_strlit(
                            "The linked OneNote page does not contain an updateable OneNote Linux content block",
                        );
                    }
                    (UpdateState::Finished, UpdateAction::Fail(message))
                },
            }
        },
        UpdateReply::Patched { status, body } => {
            if status < 200 || status >= 300 {
                (UpdateState::Finished, UpdateAction::Fail(graph_error(status, body.as_str())))
            } else {
                (UpdateState::Confirming, UpdateAction::FetchUpdated)
            }
        },
        UpdateReply::Updated(p) => (UpdateState::Finished, UpdateAction::Done(p)),
    }
}

/// A page that changed on the server ends its update at the first check: the
/// state reached takes no further reply, so no content is read and nothing is
/// patched.
pub proof fn lemma_remote_change_ends_update(
    expected_modified_at: Seq<char>,
    remote: CreatedPage,
    later: UpdateReply,
)
    requires
        remote.last_modified_date_time@ != expected_modified_at,
    ensures
        next_update_state(expected_modified_at, UpdateReply::Remote(remote))
            == UpdateState::Finished,
        !reply_fits(UpdateState::Finished, later),
{
}

/// The patch is sent only after the content was read, and the content is read
/// only after the page's modification time on the server matched the link's.
pub proof fn lemma_patch_follows_unchanged_remote(
    state: UpdateState,
    expected_modified_at: Seq<char>,
    reply: UpdateReply,
)
    requires
        reply_fits(state, reply),
    ensures
        next_update_state(expected_modified_at, reply) == UpdateState::Patching ==> state
            == UpdateState::ReadingContent,
        next_update_state(expected_modified_at, reply) == UpdateState::ReadingContent ==> {
            &&& state == UpdateState::CheckingRemote
            &&& reply matches UpdateReply::Remote(p) && p.last_modified_date_time@
                == expected_modified_at
        },
{
}

/// Whether a character may stand in a percent-encoded URL path segment as
/// written: an ASCII letter or digit, or `%`.
pub open spec fn url_safe(c: char) -> bool {
    ('0' <= c <= '9') || ('A' <= c <= 'Z') || ('a' <= c <= 'z') || c == '%'
}

/// A percent-encoded id holds only ASCII letters, digits and `%`, so it
/// cannot add a path component, a query or a fragment to a URL.
pub proof fn lemma_percent_encoded_is_url_safe(bytes: Seq<u8>)
    ensures
        forall|i: int| 0 <= i < percent_encoded(bytes).len() ==> url_safe(#[trigger] percent_encoded(bytes)[i]),
    decreases bytes.len(),
{
    if bytes.len() > 0 {
        lemma_percent_encoded_is_url_safe(bytes.drop_last());
        let prefix = percent_encoded(bytes.drop_last());
        let tail = byte_encoded(bytes.last());
        let b = bytes.last();
        assert(b / 16 < 16 && b % 16 < 16);
        assert forall|k: int| 0 <= k < tail.len() implies url_safe(#[trigger] tail[k]) by {
            if !is_ascii_alphanumeric(b) && k > 0 {
                let n = if k == 1 { b / 16 } else { b % 16 };
                assert(tail[k] == hex_digit(n));
            }
        }
        assert forall|i: int| 0 <= i < percent_encoded(bytes).len() implies url_safe(
            #[trigger] percent_encoded(bytes)[i],
        ) by {
            if i < prefix.len() {
                assert(percent_encoded(bytes)[i] == prefix[i]);
            } else {
                assert(percent_encoded(bytes)[i] == tail[i - prefix.len()]);
            }
        }
    }
}

/// One file is uploaded as one part, made of its own name, content type and
/// data.
pub proof fn lemma_one_resource_is_one_part(r: ResourceView, boundary: Seq<char>)
    ensures
        resource_parts(seq![r], boundary) == part_bytes(boundary, r.part_name, r.content_type, r.data),
{
    let one = seq![r];
    assert(one.drop_last() =~= Seq::<ResourceView>::empty());
    assert(one.last() == r);
    assert(resource_parts(one.drop_last(), boundary) == Seq::<u8>::empty());
    assert(Seq::<u8>::empty() + part_bytes(boundary, r.part_name, r.content_type, r.data)
        =~= part_bytes(boundary, r.part_name, r.content_type, r.data));
}

/// The parts of two lists of files are the parts of the first followed by
/// those of the second: every file is uploaded, once, in order.
pub proof fn lemma_resource_parts_concat(a: Seq<ResourceView>, b: Seq<ResourceView>, boundary: Seq<char>)
    ensures
        resource_parts(a + b, boundary) == resource_parts(a, boundary) + resource_parts(b, boundary),
    decreases b.len(),
{
    if b.len() == 0 {
        assert(a + b =~= a);
        assert(resource_parts(a, boundary) + Seq::<u8>::empty() =~= resource_parts(a, boundary));
    } else {
        lemma_resource_parts_concat(a, b.drop_last(), boundary);
        assert((a + b).drop_last() =~= a + b.drop_last());
        assert((a + b).last() == b.last());
        let p = part_bytes(boundary, b.last().part_name, b.last().content_type, b.last().data);
        assert(resource_parts(a, boundary) + resource_parts(b.drop_last(), boundary) + p
            =~= resource_parts(a, boundary) + (resource_parts(b.drop_last(), boundary) + p));
    }
}

/// Adding a file to a page adds its part after the parts already there, so
/// the body grows by exactly that part.
pub proof fn lemma_resource_parts_push(rs: Seq<ResourceView>, r: ResourceView, boundary: Seq<char>)
    ensures
        resource_parts(rs.push(r), boundary) == resource_parts(rs, boundary) + part_bytes(
            boundary,
            r.part_name,
            r.content_type,
            r.data,
        ),
        resource_parts(rs.push(r), boundary).len() == resource_parts(rs, boundary).len() + part_bytes(
            boundary,
            r.part_name,
            r.content_type,
            r.data,
        ).len(),
{
    lemma_resource_parts_concat(rs, seq![r], boundary);
    lemma_one_resource_is_one_part(r, boundary);
    assert(rs + seq![r] =~= rs.push(r));
}

} // verus!
