//! The proxy: what it serves to the browser, and how it relays between the browser's
//! WebSocket and the RDP server.

use vstd::prelude::*;
use vstd::utf8::{decode_utf8, encode_utf8, valid_utf8};

use crate::text::{
    chars_of, is_empty_text, lemma_place_of, occurs, put_text, replace_text, replaced, same_text, string_of, trim, trimmed,
};
use crate::tls::{
    hex_text, is_tls_upgrade, json_command, json_message, tls_error_message, tls_ready_message, TLS_UPGRADE_COMMAND,
};
use crate::wire::copied;

verus! {

/// The page that the proxy serves at its root.
pub const INDEX_PAGE: &'static str = "index.html";

/// What the proxy answers where it has no such file.
pub const NOT_FOUND: &'static str = "404 Not Found";

/// What the proxy answers to a ping.
pub const PONG: &'static str = "pong";

/// What the proxy was started with.
#[derive(Debug, PartialEq, Eq)]
pub struct AppConfig {
    pub rdp_target: String,
    /// The name that the page shows.
    pub app_name: Option<String>,
    pub enable_text_clipboard: bool,
    pub enable_file_clipboard: bool,
}

// ---------------------------------------------------------------------------
// Paths
// ---------------------------------------------------------------------------
/// A text without the characters `c` that it starts with.
pub open spec fn without_leading(text: Seq<char>, c: char) -> Seq<char>
    decreases text.len(),
{
    if text.len() > 0 && text[0] == c {
        without_leading(text.skip(1), c)
    } else {
        text
    }
}

/// A text without the characters `c` that it ends with.
pub open spec fn without_trailing(text: Seq<char>, c: char) -> Seq<char>
    decreases text.len(),
{
    if text.len() > 0 && text.last() == c {
        without_trailing(text.drop_last(), c)
    } else {
        text
    }
}

/// The file that a path asks for.
pub open spec fn asset_of(path: Seq<char>) -> Seq<char> {
    let rest = without_leading(path, '/');
    if rest.len() == 0 {
        INDEX_PAGE@
    } else {
        rest
    }
}

fn trim_start_char(text: &str, c: char) -> (out: String)
    ensures
        out@ == without_leading(text@, c),
{
    let chars = chars_of(text);
    let mut i: usize = 0;
    assert(chars@.skip(0) =~= chars@);
    while i < chars.len() && chars[i] == c
        invariant
            i <= chars@.len(),
            without_leading(chars@, c) == without_leading(chars@.skip(i as int), c),
        decreases chars@.len() - i,
    {
        assert(chars@.skip(i as int).skip(1) =~= chars@.skip(i + 1));
        i = i + 1;
    }
    assert(chars@.skip(i as int) =~= chars@.subrange(i as int, chars@.len() as int));
    string_of(&chars, i, chars.len())
}

/// The file that a path asks for: the page itself where it names none.
pub fn asset_path(path: &str) -> (asset: String)
    ensures
        asset@ == asset_of(path@),
{
    let rest = trim_start_char(path, '/');
    if is_empty_text(rest.as_str()) {
        INDEX_PAGE.to_owned()
    } else {
        rest
    }
}

/// The path under which everything is served: empty for the root.
pub fn base_of(base_path: &str) -> (base: String)
    ensures
        base@ == without_trailing(base_path@, '/'),
{
    let chars = chars_of(base_path);
    let mut n: usize = chars.len();
    assert(chars@.take(n as int) =~= chars@);
    while n > 0 && chars[n - 1] == '/'
        invariant
            n <= chars@.len(),
            without_trailing(chars@, '/') == without_trailing(chars@.take(n as int), '/'),
        decreases n,
    {
        assert(chars@.take(n as int).drop_last() =~= chars@.take(n - 1));
        n = n - 1;
    }
    assert(chars@.take(n as int) =~= chars@.subrange(0, n as int));
    string_of(&chars, 0, n)
}

// ---------------------------------------------------------------------------
// The page
// ---------------------------------------------------------------------------
/// A character inside a string of the page's script.
pub open spec fn script_char(c: char) -> Seq<char> {
    if c == '\\' {
        seq!['\\', '\\']
    } else if c == '"' {
        seq!['\\', '"']
    } else {
        seq![c]
    }
}

/// A text inside a string of the page's script.
pub open spec fn script_text(text: Seq<char>) -> Seq<char>
    decreases text.len(),
{
    if text.len() == 0 {
        seq![]
    } else {
        script_text(text.drop_last()) + script_char(text.last())
    }
}

/// A truth value in the page's script.
pub open spec fn script_bool(b: bool) -> Seq<char> {
    if b {
        "true"@
    } else {
        "false"@
    }
}

/// What the page's script sets.
pub open spec fn script_vars(config: AppConfig) -> Seq<char> {
    "window.__IB_TEXT_CLIPBOARD="@ + script_bool(config.enable_text_clipboard) + ";window.__IB_FILE_CLIPBOARD="@
        + script_bool(config.enable_file_clipboard) + ";"@ + (match config.app_name {
        Some(name) => "window.__APP_NAME=\""@ + script_text(name@) + "\";"@,
        None => seq![],
    })
}

/// The page with the script that tells it how the proxy was started.
pub open spec fn patched(html: Seq<char>, config: AppConfig) -> Seq<char> {
    replaced(html, "</head>"@, "<script>"@ + script_vars(config) + "</script></head>"@)
}

fn put_script_text(out: &mut String, text: &str)
    ensures
        final(out)@ == old(out)@ + script_text(text@),
{
    let chars = chars_of(text);
    let mut i: usize = 0;
    assert(chars@.take(0) =~= seq![]);
    assert(out@ =~= old(out)@ + script_text(chars@.take(0)));
    while i < chars.len()
        invariant
            i <= chars@.len(),
            out@ == old(out)@ + script_text(chars@.take(i as int)),
        decreases chars@.len() - i,
    {
        let c: char = chars[i];
        proof {
            assert(chars@.take(i + 1).drop_last() =~= chars@.take(i as int));
            assert(chars@.take(i + 1).last() == c);
        }
        if c == '\\' || c == '"' {
            out.push('\\');
        }
        out.push(c);
        i = i + 1;
        assert(out@ =~= old(out)@ + script_text(chars@.take(i as int)));
    }
    assert(chars@.take(i as int) =~= chars@);
}

fn put_bool(out: &mut String, b: bool)
    ensures
        final(out)@ == old(out)@ + script_bool(b),
{
    if b {
        put_text(out, "true");
    } else {
        put_text(out, "false");
    }
}

/// The script that tells the page how the proxy was started, up to the end of the head.
fn script_of(config: &AppConfig) -> (script: String)
    ensures
        script@ == "<script>"@ + script_vars(*config) + "</script></head>"@,
{
    let mut script = String::new();
    put_text(&mut script, "<script>");
    put_text(&mut script, "window.__IB_TEXT_CLIPBOARD=");
    put_bool(&mut script, config.enable_text_clipboard);
    put_text(&mut script, ";window.__IB_FILE_CLIPBOARD=");
    put_bool(&mut script, config.enable_file_clipboard);
    put_text(&mut script, ";");
    match &config.app_name {
        Some(name) => {
            put_text(&mut script, "window.__APP_NAME=\"");
            put_script_text(&mut script, name.as_str());
            put_text(&mut script, "\";");
        }
        None => {}
    }
    put_text(&mut script, "</script></head>");
    assert(script@ =~= "<script>"@ + script_vars(*config) + "</script></head>"@);
    script
}

/// Tells the page how the proxy was started.
pub fn inject_config(html: &str, config: &AppConfig) -> (page: String)
    ensures
        page@ == patched(html@, *config),
{
    let script = script_of(config);
    proof {
        reveal_strlit("</head>");
    }
    replace_text(html, "</head>", script.as_str())
}

/// `std::str::from_utf8`: the text of bytes that are UTF-8.
#[verifier::external_body]
fn text_of_utf8(bytes: &[u8]) -> (text: Option<&str>)
    ensures
        match text {
            Some(t) => valid_utf8(bytes@) && t@ == decode_utf8(bytes@),
            None => !valid_utf8(bytes@),
        },
{
    std::str::from_utf8(bytes).ok()
}

/// What a file is served as: the page is patched where it is UTF-8, anything else is
/// served as it is.
pub open spec fn body_of(asset: Seq<char>, content: Seq<u8>, config: AppConfig) -> Seq<u8> {
    if asset == INDEX_PAGE@ && valid_utf8(content) {
        encode_utf8(patched(decode_utf8(content), config))
    } else {
        content
    }
}

/// What a file is served as.
pub fn asset_body(asset: &str, content: &[u8], config: &AppConfig) -> (body: Vec<u8>)
    ensures
        body@ == body_of(asset@, content@, *config),
{
    if same_text(asset, INDEX_PAGE) {
        match text_of_utf8(content) {
            Some(html) => {
                let page = inject_config(html, config);
                copied(page.as_str().as_bytes())
            }
            None => copied(content),
        }
    } else {
        copied(content)
    }
}

/// The place behind the last `c` of a text: its start where there is none.
pub open spec fn behind_last(text: Seq<char>, c: char) -> int
    decreases text.len(),
{
    if text.len() == 0 {
        0
    } else if text.last() == c {
        text.len() as int
    } else {
        behind_last(text.drop_last(), c)
    }
}

/// The file name of a path whose parts are set off by slashes, whatever the system. A
/// slash at the end, and a part that is one dot behind a slash, count for nothing; a path
/// that leads to a directory by dots alone has no file name.
pub open spec fn file_name(path: Seq<char>) -> Option<Seq<char>>
    decreases path.len(),
{
    let start = behind_last(path, '/');
    let name = path.skip(start);
    if path.len() == 0 {
        None
    } else if path.last() == '/' {
        file_name(path.drop_last())
    } else if name == seq!['.'] {
        if 0 < start < path.len() {
            file_name(path.take(start))
        } else {
            None
        }
    } else if name == seq!['.', '.'] {
        None
    } else {
        Some(name)
    }
}

/// The extension of a path: what stands behind the last dot of its file name, and nothing
/// where there is no dot but one at the name's start.
pub open spec fn extension_of(path: Seq<char>) -> Seq<char> {
    match file_name(path) {
        Some(name) => if behind_last(name, '.') > 1 {
            name.skip(behind_last(name, '.'))
        } else {
            Seq::empty()
        },
        None => Seq::empty(),
    }
}

proof fn lemma_behind_last(text: Seq<char>, c: char)
    ensures
        0 <= behind_last(text, c) <= text.len(),
    decreases text.len(),
{
    if text.len() > 0 && text.last() != c {
        lemma_behind_last(text.drop_last(), c);
    }
}

/// The place behind the last `c` of a part of a text.
fn find_behind_last(chars: &Vec<char>, from: usize, to: usize, c: char) -> (place: usize)
    requires
        from <= to <= chars@.len(),
    ensures
        place == behind_last(chars@.subrange(from as int, to as int), c),
        place <= to - from,
{
    let ghost part = chars@.subrange(from as int, to as int);
    let mut n: usize = to;
    assert(part =~= chars@.subrange(from as int, n as int));
    while n > from && chars[n - 1] != c
        invariant
            from <= n <= to <= chars@.len(),
            part == chars@.subrange(from as int, to as int),
            behind_last(part, c) == behind_last(chars@.subrange(from as int, n as int), c),
        decreases n,
    {
        assert(chars@.subrange(from as int, n as int).drop_last() =~= chars@.subrange(from as int, n - 1));
        n = n - 1;
    }
    n - from
}

/// The extension of a path.
pub fn extension(path: &str) -> (ext: String)
    ensures
        ext@ == extension_of(path@),
{
    let chars = chars_of(path);
    let mut end: usize = chars.len();
    assert(chars@.take(end as int) =~= chars@);
    while end > 0
        invariant
            end <= chars@.len(),
            chars@ == path@,
            file_name(path@) == file_name(chars@.take(end as int)),
        decreases end,
    {
        let ghost rest = chars@.take(end as int);
        let start: usize = find_behind_last(&chars, 0, end, '/');
        proof {
            assert(chars@.subrange(0, end as int) =~= rest);
            assert(rest.drop_last() =~= chars@.take(end - 1));
            assert(rest.take(start as int) =~= chars@.take(start as int));
            assert(rest.skip(start as int) =~= chars@.subrange(start as int, end as int));
        }
        if chars[end - 1] == '/' {
            end = end - 1;
        } else {
            let ghost name = rest.skip(start as int);
            proof {
                lemma_not_behind(rest, '/');
                assert(name.len() == 1 ==> name =~= seq![name[0]]);
                assert(name.len() == 2 ==> name =~= seq![name[0], name[1]]);
                assert(name == seq!['.'] ==> name.len() == 1);
                assert(name == seq!['.', '.'] ==> name.len() == 2);
            }
            if end - start == 1 && chars[start] == '.' {
                if start == 0 {
                    return String::new();
                }
                end = start;
            } else if end - start == 2 && chars[start] == '.' && chars[start + 1] == '.' {
                return String::new();
            } else {
                let dot: usize = find_behind_last(&chars, start, end, '.');
                if dot <= 1 {
                    return String::new();
                }
                assert(chars@.subrange(start + dot, end as int) =~= name.skip(dot as int));
                return string_of(&chars, start + dot, end);
            }
        }
    }
    assert(chars@.take(0) =~= Seq::<char>::empty());
    String::new()
}

/// A text that does not end in `c` goes on behind the last one.
proof fn lemma_not_behind(text: Seq<char>, c: char)
    requires
        text.len() > 0,
        text.last() != c,
    ensures
        0 <= behind_last(text, c) < text.len(),
{
    lemma_behind_last(text.drop_last(), c);
}

/// The media type that `mime_guess` gives an extension.
pub uninterp spec fn media_type(ext: Seq<char>) -> Seq<char>;

/// `mime_guess::from_ext`, or else a run of bytes. Claimed: it depends on the extension
/// alone, and is a run of bytes where there is none.
#[verifier::external_body]
fn guess_media_type(ext: &str) -> (mime: String)
    ensures
        mime@ == media_type(ext@),
        ext@.len() == 0 ==> mime@ == "application/octet-stream"@,
{
    mime_guess::from_ext(ext).first_or_octet_stream().to_string()
}

/// What the proxy answers to a request.
#[derive(Debug, PartialEq, Eq)]
pub struct AssetResponse {
    pub status: u16,
    pub content_type: Option<String>,
    pub body: Vec<u8>,
}

/// What the proxy answers to a request for a path, where `content` is what the file
/// holds, if there is such a file.
pub fn asset_response(path: &str, content: Option<&[u8]>, config: &AppConfig) -> (response: AssetResponse)
    ensures
        match content {
            Some(bytes) => {
                &&& response.status == 200
                &&& response.content_type matches Some(mime) && {
                    &&& mime@ == media_type(extension_of(asset_of(path@)))
                    &&& extension_of(asset_of(path@)).len() == 0 ==> mime@ == "application/octet-stream"@
                }
                &&& response.body@ == body_of(asset_of(path@), bytes@, *config)
            },
            None => {
                &&& response.status == 404
                &&& response.content_type is None
                &&& response.body@ == encode_utf8(NOT_FOUND@)
            },
        },
{
    let asset = asset_path(path);
    match content {
        Some(bytes) => AssetResponse {
            status: 200,
            content_type: Some(guess_media_type(extension(asset.as_str()).as_str())),
            body: asset_body(asset.as_str(), bytes, config),
        },
        None => AssetResponse { status: 404, content_type: None, body: copied(NOT_FOUND.as_bytes()) },
    }
}

// ---------------------------------------------------------------------------
// The relay
// ---------------------------------------------------------------------------
/// Where a relay stands.
#[derive(Debug, Clone, Copy, PartialEq, Eq)]
pub enum RelayState {
    /// Bytes pass as they are.
    Plain,
    /// TLS is being set up.
    Upgrading,
    /// Bytes pass through TLS.
    Secure,
    Closed,
}

/// What happened.
#[derive(Debug, PartialEq, Eq)]
pub enum RelayEvent {
    /// The browser sent bytes.
    Binary(Vec<u8>),
    /// The browser sent a text.
    Text(String),
    /// The browser sent something else, such as a ping.
    Other,
    /// The browser's connection is at its end.
    BrowserClosed,
    /// The server sent bytes; none at its end.
    FromServer(Vec<u8>),
    ServerFailed,
    /// TLS stands; the server presented this certificate.
    TlsUp(Vec<u8>),
    TlsFailed(String),
    /// What was to be passed on could not be.
    WriteFailed,
}

/// What is to be done.
#[derive(Debug, PartialEq, Eq)]
pub enum RelayAction {
    ToServer(Vec<u8>),
    ToBrowser(Vec<u8>),
    StartTls,
    /// Tell the browser.
    Tell(String),
    /// Tell the browser, then close.
    TellAndClose(String),
    Close,
    Nothing,
}

/// What is to be done, as a value.
pub enum RelayActionView {
    ToServer(Seq<u8>),
    ToBrowser(Seq<u8>),
    StartTls,
    Tell(Seq<char>),
    TellAndClose(Seq<char>),
    Close,
    Nothing,
}

impl View for RelayAction {
    type V = RelayActionView;

    open spec fn view(&self) -> RelayActionView {
        match *self {
            RelayAction::ToServer(data) => RelayActionView::ToServer(data@),
            RelayAction::ToBrowser(data) => RelayActionView::ToBrowser(data@),
            RelayAction::StartTls => RelayActionView::StartTls,
            RelayAction::Tell(text) => RelayActionView::Tell(text@),
            RelayAction::TellAndClose(text) => RelayActionView::TellAndClose(text@),
            RelayAction::Close => RelayActionView::Close,
            RelayAction::Nothing => RelayActionView::Nothing,
        }
    }
}

/// One step of a relay. `asked` is whether a text of the browser asks for TLS.
pub open spec fn relay_step(state: RelayState, event: RelayEvent, asked: bool) -> (RelayState, RelayActionView) {
    let open = state == RelayState::Plain || state == RelayState::Secure;
    match event {
        RelayEvent::Binary(data) if open => (state, RelayActionView::ToServer(data@)),
        RelayEvent::Text(_) if state == RelayState::Plain && asked => (
            RelayState::Upgrading,
            RelayActionView::StartTls,
        ),
        RelayEvent::Text(_) if open => (state, RelayActionView::Nothing),
        RelayEvent::Other if open => (state, RelayActionView::Nothing),
        RelayEvent::FromServer(data) if open && data@.len() > 0 => (state, RelayActionView::ToBrowser(data@)),
        RelayEvent::TlsUp(cert) if state == RelayState::Upgrading => (
            RelayState::Secure,
            RelayActionView::Tell(json_message("tls_ready"@, "server_cert"@, hex_text(cert@))),
        ),
        RelayEvent::TlsFailed(error) if state == RelayState::Upgrading => (
            RelayState::Closed,
            RelayActionView::TellAndClose(json_message("tls_error"@, "error"@, error@)),
        ),
        _ => (RelayState::Closed, RelayActionView::Close),
    }
}

/// A relay between a browser and a server.
#[derive(Debug, PartialEq, Eq)]
pub struct Relay {
    pub state: RelayState,
}

impl Relay {
    pub fn new() -> (relay: Self)
        ensures
            relay.state == RelayState::Plain,
    {
        Relay { state: RelayState::Plain }
    }

    fn close(&mut self) -> (action: RelayAction)
        ensures
            final(self).state == RelayState::Closed,
            action == RelayAction::Close,
    {
        self.state = RelayState::Closed;
        RelayAction::Close
    }

    /// Takes what happened and gives what to do, where it is known whether a text asks
    /// for TLS.
    pub fn step(&mut self, event: RelayEvent, asked: bool) -> (action: RelayAction)
        ensures
            (final(self).state, action@) == relay_step(old(self).state, event, asked),
    {
        let plain = match self.state {
            RelayState::Plain => true,
            _ => false,
        };
        let open = match self.state {
            RelayState::Plain => true,
            RelayState::Secure => true,
            _ => false,
        };
        let upgrading = match self.state {
            RelayState::Upgrading => true,
            _ => false,
        };
        match event {
            RelayEvent::Binary(data) => {
                if open {
                    RelayAction::ToServer(data)
                } else {
                    self.close()
                }
            }
            RelayEvent::Text(_) => {
                if plain && asked {
                    self.state = RelayState::Upgrading;
                    RelayAction::StartTls
                } else if open {
                    RelayAction::Nothing
                } else {
                    self.close()
                }
            }
            RelayEvent::Other => {
                if open {
                    RelayAction::Nothing
                } else {
                    self.close()
                }
            }
            RelayEvent::FromServer(data) => {
                if open && data.len() > 0 {
                    RelayAction::ToBrowser(data)
                } else {
                    self.close()
                }
            }
            RelayEvent::TlsUp(cert) => {
                if upgrading {
                    self.state = RelayState::Secure;
                    RelayAction::Tell(tls_ready_message(cert.as_slice()))
                } else {
                    self.close()
                }
            }
            RelayEvent::TlsFailed(error) => {
                if upgrading {
                    self.state = RelayState::Closed;
                    RelayAction::TellAndClose(tls_error_message(error.as_str()))
                } else {
                    self.close()
                }
            }
            RelayEvent::BrowserClosed => self.close(),
            RelayEvent::ServerFailed => self.close(),
            RelayEvent::WriteFailed => self.close(),
        }
    }

    /// Takes what happened and gives what to do.
    pub fn handle(&mut self, event: RelayEvent) -> (action: RelayAction)
        ensures
            (final(self).state, action@) == relay_step(
                old(self).state,
                event,
                match event {
                    RelayEvent::Text(text) => json_command(text@) == Some("tls_upgrade"@),
                    _ => false,
                },
            ),
            old(self).state == RelayState::Plain && (event matches RelayEvent::Text(text) && text@
                == TLS_UPGRADE_COMMAND@) ==> action == RelayAction::StartTls,
    {
        let asked = match &event {
            RelayEvent::Text(text) => is_tls_upgrade(text.as_str()),
            _ => false,
        };
        self.step(event, asked)
    }
}

// ---------------------------------------------------------------------------
// The service
// ---------------------------------------------------------------------------
/// What the system asks of a service.
#[derive(Debug, Clone, Copy, PartialEq, Eq)]
pub enum ControlRequest {
    Stop,
    Interrogate,
    Other,
}

/// What a service answers.
#[derive(Debug, Clone, Copy, PartialEq, Eq)]
pub struct ControlReply {
    /// Whether the proxy is told to stop now.
    pub stop: bool,
    /// Whether the request is one that the service knows.
    pub known: bool,
}

/// A service that can be stopped once.
#[derive(Debug, Clone, Copy, PartialEq, Eq)]
pub struct ServiceControl {
    pub stopping: bool,
}

impl ServiceControl {
    pub fn new() -> (control: Self)
        ensures
            !control.stopping,
    {
        ServiceControl { stopping: false }
    }

    /// Answers the system. The first request to stop stops the proxy; a further one is
    /// answered alike and does nothing.
    pub fn handle(&mut self, request: ControlRequest) -> (reply: ControlReply)
        ensures
            reply == (ControlReply {
                stop: request == ControlRequest::Stop && !old(self).stopping,
                known: request != ControlRequest::Other,
            }),
            final(self).stopping == (old(self).stopping || request == ControlRequest::Stop),
    {
        match request {
            ControlRequest::Stop => {
                let first = !self.stopping;
                self.stopping = true;
                ControlReply { stop: first, known: true }
            }
            ControlRequest::Interrogate => ControlReply { stop: false, known: true },
            ControlRequest::Other => ControlReply { stop: false, known: false },
        }
    }
}

// ---------------------------------------------------------------------------
// The version
// ---------------------------------------------------------------------------
/// A text, or else that it is not known.
pub open spec fn or_unknown(text: Option<Seq<char>>) -> Seq<char> {
    match text {
        Some(t) => t,
        None => "unknown"@,
    }
}

/// A text, as a value.
pub open spec fn opt_text(text: Option<&str>) -> Option<Seq<char>> {
    match text {
        Some(t) => Some(t@),
        None => None,
    }
}

/// The version to show: the tag of a release, or else the package's version and the
/// commit.
pub fn version_text(release: Option<&str>, package: Option<&str>, commit: Option<&str>) -> (version: String)
    ensures
        match opt_text(release) {
            Some(tag) => version@ == without_leading(trimmed(tag), 'v'),
            None => version@ == or_unknown(opt_text(package)) + " (commit: "@ + (match opt_text(commit) {
                Some(hash) => trimmed(hash),
                None => "unknown"@,
            }) + ")"@,
        },
{
    match release {
        Some(tag) => trim_start_char(trim(tag).as_str(), 'v'),
        None => {
            let mut version = String::new();
            match package {
                Some(p) => put_text(&mut version, p),
                None => put_text(&mut version, "unknown"),
            }
            put_text(&mut version, " (commit: ");
            match commit {
                Some(hash) => {
                    let hash = trim(hash);
                    put_text(&mut version, hash.as_str());
                }
                None => put_text(&mut version, "unknown"),
            }
            put_text(&mut version, ")");
            assert(version@ =~= or_unknown(opt_text(package)) + " (commit: "@ + (match opt_text(commit) {
                Some(hash) => trimmed(hash),
                None => "unknown"@,
            }) + ")"@);
            version
        }
    }
}

// ---------------------------------------------------------------------------
// Laws
// ---------------------------------------------------------------------------
/// Bytes pass unchanged in both directions, before TLS and after, and the relay stays
/// as it is.
pub proof fn law_relay_passes_bytes_unchanged(state: RelayState, data: Vec<u8>, asked: bool)
    requires
        state == RelayState::Plain || state == RelayState::Secure,
    ensures
        relay_step(state, RelayEvent::Binary(data), asked) == (state, RelayActionView::ToServer(data@)),
        data@.len() > 0 ==> relay_step(state, RelayEvent::FromServer(data), asked) == (
            state,
            RelayActionView::ToBrowser(data@),
        ),
{
}

/// TLS is set up at most once, only while bytes pass as they are, and only on a text
/// that asks for it.
pub proof fn law_tls_starts_once(state: RelayState, event: RelayEvent, asked: bool)
    ensures
        relay_step(state, event, asked).1 is StartTls ==> state == RelayState::Plain && event is Text && asked,
        relay_step(state, event, asked).0 == RelayState::Plain ==> state == RelayState::Plain,
{
}

/// A closed relay passes nothing on.
pub proof fn law_closed_relay_is_silent(event: RelayEvent, asked: bool)
    ensures
        relay_step(RelayState::Closed, event, asked) == (RelayState::Closed, RelayActionView::Close),
{
}

/// A text read in front of what has been read.
spec fn read_before(text: Seq<char>, read: Option<(Seq<char>, Seq<char>)>) -> Option<(Seq<char>, Seq<char>)> {
    match read {
        Some((value, rest)) => Some((text + value, rest)),
        None => None,
    }
}

/// The value of a string of the page's script, and what follows the quotation mark that
/// ends it: a backslash stands for the character behind it. `None` where the string has
/// no end.
pub open spec fn read_string(script: Seq<char>) -> Option<(Seq<char>, Seq<char>)>
    decreases script.len(),
{
    if script.len() == 0 {
        None
    } else if script[0] == '"' {
        Some((seq![], script.skip(1)))
    } else {
        let escaped = script[0] == '\\' && script.len() > 1;
        let (c, rest) = if escaped {
            (script[1], script.skip(2))
        } else {
            (script[0], script.skip(1))
        };
        match read_string(rest) {
            Some((value, after)) => Some((seq![c] + value, after)),
            None => None,
        }
    }
}

proof fn lemma_read_script_text(name: Seq<char>, tail: Seq<char>)
    ensures
        read_string(script_text(name) + tail) == read_before(name, read_string(tail)),
    decreases name.len(),
{
    if name.len() == 0 {
        assert(script_text(name) + tail =~= tail);
        if let Some((value, rest)) = read_string(tail) {
            assert(name + value =~= value);
        }
    } else {
        let c = name.last();
        let rest = script_char(c) + tail;
        lemma_read_script_text(name.drop_last(), rest);
        assert(script_text(name) + tail =~= script_text(name.drop_last()) + rest);
        assert(rest.skip(script_char(c).len() as int) =~= tail);
        assert(read_string(rest) == read_before(seq![c], read_string(tail)));
        if let Some((value, after)) = read_string(tail) {
            assert(name.drop_last() + (seq![c] + value) =~= name + value);
        }
    }
}

/// A name that is put into a string of the page's script reads back as it is, and the
/// string ends where it is meant to.
pub proof fn law_name_stays_inside_its_string(name: Seq<char>, rest: Seq<char>)
    ensures
        read_string(script_text(name) + seq!['"'] + rest) == Some((name, rest)),
{
    let tail = seq!['"'] + rest;
    lemma_read_script_text(name, tail);
    assert(script_text(name) + seq!['"'] + rest =~= script_text(name) + tail);
    assert(tail.skip(1) =~= rest);
    assert(name + Seq::<char>::empty() =~= name);
}

/// A page without a head to end is served as it is.
pub proof fn law_page_without_head_is_unchanged(html: Seq<char>, config: AppConfig)
    requires
        !occurs(html, "</head>"@),
    ensures
        patched(html, config) == html,
{
    reveal_strlit("</head>");
    lemma_place_of(html, "</head>"@, 0);
    assert(html.skip(0) =~= html);
}

/// A character, some number of times.
pub open spec fn repeated(c: char, n: nat) -> Seq<char> {
    Seq::new(n, |i: int| c)
}

/// However many slashes a path begins with, it asks for the file behind them, and for the page
/// where nothing is behind them.
pub proof fn law_leading_slashes_do_not_count(n: nat, name: Seq<char>)
    requires
        name.len() > 0 ==> name[0] != '/',
    ensures
        name.len() > 0 ==> asset_of(repeated('/', n) + name) == name,
        name.len() == 0 ==> asset_of(repeated('/', n) + name) == "index.html"@,
        name.len() > 0 && name[0] != 'v' ==> without_leading(repeated('v', n) + name, 'v') == name,
{
    lemma_without_leading('/', n, name);
    if name.len() > 0 && name[0] != 'v' {
        lemma_without_leading('v', n, name);
    }
}

proof fn lemma_without_leading(c: char, n: nat, name: Seq<char>)
    requires
        name.len() > 0 ==> name[0] != c,
    ensures
        without_leading(repeated(c, n) + name, c) == name,
    decreases n,
{
    let all = repeated(c, n) + name;
    if n > 0 {
        lemma_without_leading(c, (n - 1) as nat, name);
        assert(all.skip(1) =~= repeated(c, (n - 1) as nat) + name);
    } else {
        assert(all =~= name);
    }
}

/// However many slashes the path of the proxy ends with, it is the path before them.
pub proof fn law_trailing_slashes_do_not_count(n: nat, base: Seq<char>)
    requires
        base.len() > 0 ==> base.last() != '/',
    ensures
        without_trailing(base + repeated('/', n), '/') == base,
    decreases n,
{
    let all = base + repeated('/', n);
    if n > 0 {
        law_trailing_slashes_do_not_count((n - 1) as nat, base);
        assert(all.drop_last() =~= base + repeated('/', (n - 1) as nat));
    } else {
        assert(all =~= base);
    }
}

/// Whether a character stands nowhere in a text.
pub open spec fn free_of(text: Seq<char>, c: char) -> bool {
    forall|i: int| 0 <= i < text.len() ==> #[trigger] text[i] != c
}

proof fn lemma_behind_last_of(before: Seq<char>, after: Seq<char>, c: char)
    requires
        free_of(after, c),
        before.len() == 0 || before.last() == c,
    ensures
        behind_last(before + after, c) == before.len(),
    decreases after.len(),
{
    let all = before + after;
    if after.len() > 0 {
        assert(all.last() == after[after.len() - 1]);
        assert(all.drop_last() =~= before + after.drop_last());
        assert forall|i: int| 0 <= i < after.drop_last().len() implies #[trigger] after.drop_last()[i] != c by {
            assert(after.drop_last()[i] == after[i]);
        }
        lemma_behind_last_of(before, after.drop_last(), c);
    } else {
        assert(all =~= before);
    }
}

/// The file name of a path is what stands behind its last slash, in whatever directory: a name
/// that is not one or two dots. A slash at the end counts for nothing.
pub proof fn law_file_name_stands_behind_the_last_slash(directory: Seq<char>, name: Seq<char>)
    requires
        name.len() > 0,
        free_of(name, '/'),
        name != seq!['.'],
        name != seq!['.', '.'],
    ensures
        file_name(name) == Some(name),
        file_name(directory + seq!['/'] + name) == Some(name),
        file_name(directory + seq!['/'] + name + seq!['/']) == Some(name),
{
    let empty = Seq::<char>::empty();
    lemma_behind_last_of(empty, name, '/');
    assert(empty + name =~= name);
    assert(name.skip(0) =~= name);
    assert(name[name.len() - 1] != '/');
    let head = directory + seq!['/'];
    let path = head + name;
    lemma_behind_last_of(head, name, '/');
    assert(path.skip(head.len() as int) =~= name);
    assert(path.last() == name[name.len() - 1]);
    let longer = path + seq!['/'];
    assert(longer.drop_last() =~= path);
    assert(longer.last() == '/');
}

/// The extension of a path is what stands behind the last dot of its file name, where
/// something stands before that dot; a name without a dot, or with none but its first
/// character, has no extension.
pub proof fn law_extension_stands_behind_the_last_dot(directory: Seq<char>, stem: Seq<char>, ext: Seq<char>)
    requires
        free_of(stem, '/'),
        free_of(ext, '/'),
        free_of(ext, '.'),
        stem.len() > 0,
        stem + seq!['.'] + ext != seq!['.', '.'],
    ensures
        extension_of(directory + seq!['/'] + stem + seq!['.'] + ext) == ext,
        extension_of(stem + seq!['.'] + ext) == ext,
        ext.len() > 0 ==> extension_of(ext).len() == 0,
        ext.len() > 0 ==> extension_of(directory + seq!['/'] + ext).len() == 0,
        ext.len() > 0 ==> extension_of(seq!['.'] + ext).len() == 0,
{
    let name = stem + seq!['.'] + ext;
    assert(free_of(name, '/')) by {
        assert forall|i: int| 0 <= i < name.len() implies #[trigger] name[i] != '/' by {
            if i < stem.len() {
                assert(name[i] == stem[i]);
            } else if i > stem.len() {
                assert(name[i] == ext[i - stem.len() - 1]);
            }
        }
    }
    assert(name.len() > 1);
    assert(seq!['.'].len() == 1);
    law_file_name_stands_behind_the_last_slash(directory, name);
    assert(directory + seq!['/'] + stem + seq!['.'] + ext =~= directory + seq!['/'] + name);
    let head = stem + seq!['.'];
    lemma_behind_last_of(head, ext, '.');
    assert(name.skip(head.len() as int) =~= ext);
    if ext.len() > 0 {
        let empty = Seq::<char>::empty();
        assert(ext[0] != '.');
        assert(seq!['.'][0] == '.' && seq!['.', '.'][0] == '.');
        law_file_name_stands_behind_the_last_slash(directory, ext);
        lemma_behind_last_of(empty, ext, '.');
        assert(empty + ext =~= ext);
        let hidden = seq!['.'] + ext;
        assert(hidden[1] == ext[0]);
        assert(seq!['.', '.'][1] == '.');
        assert forall|i: int| 0 <= i < hidden.len() implies #[trigger] hidden[i] != '/' by {
            if i > 0 {
                assert(hidden[i] == ext[i - 1]);
            }
        }
        law_file_name_stands_behind_the_last_slash(directory, hidden);
        lemma_behind_last_of(seq!['.'], ext, '.');
    }
}

/// The page is told how the proxy was started by a script at the end of its head, and is
/// otherwise served as it is: the first end of a head has the script before it, and what is
/// behind goes on.
pub proof fn law_script_stands_at_the_end_of_the_head(before: Seq<char>, after: Seq<char>, config: AppConfig)
    requires
        forall|j: int|
            0 <= j < before.len() ==> !#[trigger] crate::text::occurs_at(
                before + "</head>"@ + after,
                "</head>"@,
                j,
            ),
    ensures
        patched(before + "</head>"@ + after, config) == before + ("<script>"@ + script_vars(config)
            + "</script></head>"@) + patched(after, config),
{
    reveal_strlit("</head>");
    crate::text::law_replacing_goes_from_place_to_place(
        before,
        "</head>"@,
        after,
        "<script>"@ + script_vars(config) + "</script></head>"@,
        after,
    );
}

/// The script tells the page whether texts and files can be copied, each as it was set, and the
/// name to show, if there is one, as a string of the script.
pub proof fn law_script_tells_what_was_set(config: AppConfig)
    ensures
        ({
            let text = if config.enable_text_clipboard {
                "true"@
            } else {
                "false"@
            };
            let file = if config.enable_file_clipboard {
                "true"@
            } else {
                "false"@
            };
            let switches = "window.__IB_TEXT_CLIPBOARD="@ + text + ";window.__IB_FILE_CLIPBOARD="@ + file + ";"@;
            let script = script_vars(config);
            &&& script.take(switches.len() as int) == switches
            &&& config.app_name is None ==> script == switches
            &&& config.app_name matches Some(name) ==> {
                let start = "window.__APP_NAME=\""@;
                let rest = script.skip(switches.len() as int);
                &&& rest.take(start.len() as int) == start
                &&& read_string(rest.skip(start.len() as int)) == Some((name@, ";"@))
            }
        }),
{
    let text = if config.enable_text_clipboard {
        "true"@
    } else {
        "false"@
    };
    let file = if config.enable_file_clipboard {
        "true"@
    } else {
        "false"@
    };
    let switches = "window.__IB_TEXT_CLIPBOARD="@ + text + ";window.__IB_FILE_CLIPBOARD="@ + file + ";"@;
    let script = script_vars(config);
    assert(script.take(switches.len() as int) =~= switches);
    match config.app_name {
        None => {
            assert(script =~= switches);
        },
        Some(name) => {
            let start = "window.__APP_NAME=\""@;
            let rest = script.skip(switches.len() as int);
            reveal_strlit("\";");
            reveal_strlit(";");
            assert("\";"@ =~= seq!['"'] + ";"@);
            assert(rest =~= start + (script_text(name@) + "\";"@));
            assert(rest.take(start.len() as int) =~= start);
            assert(rest.skip(start.len() as int) =~= script_text(name@) + seq!['"'] + ";"@);
            law_name_stays_inside_its_string(name@, ";"@);
        },
    }
}

/// Only the page itself is changed on its way: every other file, and a page that is not UTF-8,
/// is served byte for byte.
pub proof fn law_files_are_served_as_they_are(asset: Seq<char>, content: Seq<u8>, config: AppConfig)
    ensures
        asset != "index.html"@ || !valid_utf8(content) ==> body_of(asset, content, config) == content,
        asset == "index.html"@ && valid_utf8(content) ==> body_of(asset, content, config) == encode_utf8(
            patched(decode_utf8(content), config),
        ),
{
}

/// A relay goes from plain bytes to TLS and no other way: a text that asks for TLS starts it,
/// the browser is told of the server's certificate once it stands, or why it does not, and then
/// the relay closes. Other texts, and what is neither text nor bytes, are not heard. Whatever
/// fails or ends at either side closes the relay.
pub proof fn law_relay_goes_from_plain_to_secure(state: RelayState, event: RelayEvent, asked: bool)
    ensures
        ({
            let (after, action) = relay_step(state, event, asked);
            let open = state is Plain || state is Secure;
            &&& state is Plain && event is Text && asked ==> after is Upgrading && action is StartTls
            &&& open && event is Text && !(state is Plain && asked) ==> after == state && action is Nothing
            &&& open && event is Other ==> after == state && action is Nothing
            &&& state is Upgrading ==> (event matches RelayEvent::TlsUp(cert) ==> after is Secure && action is Tell)
            &&& state is Upgrading ==> (event matches RelayEvent::TlsFailed(error) ==> after is Closed
                && action is TellAndClose)
            &&& state is Upgrading && !(event is TlsUp || event is TlsFailed) ==> after is Closed && action is Close
            &&& open && (event is TlsUp || event is TlsFailed) ==> after is Closed && action is Close
            &&& event is BrowserClosed || event is ServerFailed || event is WriteFailed ==> after is Closed
                && action is Close
            &&& event matches RelayEvent::FromServer(data) ==> data@.len() == 0 ==> after is Closed && action is Close
        }),
{
}

} // verus!
