//! What the accept loop decides, and how the environment sets options.

use vstd::prelude::*;
use crate::content_length::{number_of_text, parse_number};
use crate::options::Options;
use crate::search::{find_from, first_match};
use crate::text::{as_text, bytes_eq, to_bytes, utf8};

verus! {

/// Why accepting a connection failed.
#[derive(Clone, Copy, Debug, PartialEq, Eq, Structural)]
pub enum AcceptFailure {
    ConnectionRefused,
    ConnectionAborted,
    ConnectionReset,
    /// Any other failure of the listener.
    Other,
}

/// Whether a failure concerns the one connection that was being accepted,
/// and not the listener.
pub open spec fn concerns_connection(failure: AcceptFailure) -> bool {
    failure != AcceptFailure::Other
}

/// Whether a failure concerns the one connection that was being accepted:
/// it was refused, aborted or reset.
pub fn is_connection_error(failure: AcceptFailure) -> (r: bool)
    ensures
        r == concerns_connection(failure),
{
    match failure {
        AcceptFailure::ConnectionRefused => true,
        AcceptFailure::ConnectionAborted => true,
        AcceptFailure::ConnectionReset => true,
        AcceptFailure::Other => false,
    }
}

/// The seconds to wait before the failure of an accept is reported: none
/// for a failure of the one connection, one for a failure of the listener.
pub fn accept_backoff(failure: AcceptFailure) -> (seconds: u64)
    ensures
        seconds == if concerns_connection(failure) {
            0u64
        } else {
            1u64
        },
{
    if is_connection_error(failure) {
        0
    } else {
        1
    }
}

/// What a text says of a switch: `true`, `false`, or nothing.
pub open spec fn switch_of(value: Seq<u8>) -> Option<bool> {
    if value == utf8("true"@) {
        Some(true)
    } else if value == utf8("false"@) {
        Some(false)
    } else {
        None
    }
}

/// Reads a switch.
pub fn parse_switch(value: &[u8]) -> (r: Option<bool>)
    ensures
        r == switch_of(value@),
{
    if bytes_eq(value, "true".as_bytes()) {
        Some(true)
    } else if bytes_eq(value, "false".as_bytes()) {
        Some(false)
    } else {
        None
    }
}

/// The settings that the environment may give.
#[derive(Clone, Copy, Debug, PartialEq, Eq, Structural)]
pub enum Setting {
    NoDelay,
    ReadTimeoutMiliseconds,
    RootPath,
    ReadBufferSize,
    ReadMaxRetry,
    ReadImcompleteSize,
    ZeroCopyThreshold,
    EnableFileCache,
}

/// The setting that a variable of the environment names.
pub open spec fn setting_of(name: Seq<u8>) -> Option<Setting> {
    if name == utf8("NO_DELAY"@) {
        Some(Setting::NoDelay)
    } else if name == utf8("READ_TIMEOUT_MILISECONDS"@) {
        Some(Setting::ReadTimeoutMiliseconds)
    } else if name == utf8("ROOT_PATH"@) {
        Some(Setting::RootPath)
    } else if name == utf8("READ_BUFFER_SIZE"@) {
        Some(Setting::ReadBufferSize)
    } else if name == utf8("READ_MAX_RETRY"@) {
        Some(Setting::ReadMaxRetry)
    } else if name == utf8("READ_IMCOMPLETE_SIZE"@) {
        Some(Setting::ReadImcompleteSize)
    } else if name == utf8("ZERO_COPY_THRESHOLD"@) {
        Some(Setting::ZeroCopyThreshold)
    } else if name == utf8("ENABLE_FILE_CACHE"@) {
        Some(Setting::EnableFileCache)
    } else {
        None
    }
}

/// The setting that a variable of the environment names.
pub fn setting_named(name: &[u8]) -> (r: Option<Setting>)
    ensures
        r == setting_of(name@),
{
    if bytes_eq(name, "NO_DELAY".as_bytes()) {
        Some(Setting::NoDelay)
    } else if bytes_eq(name, "READ_TIMEOUT_MILISECONDS".as_bytes()) {
        Some(Setting::ReadTimeoutMiliseconds)
    } else if bytes_eq(name, "ROOT_PATH".as_bytes()) {
        Some(Setting::RootPath)
    } else if bytes_eq(name, "READ_BUFFER_SIZE".as_bytes()) {
        Some(Setting::ReadBufferSize)
    } else if bytes_eq(name, "READ_MAX_RETRY".as_bytes()) {
        Some(Setting::ReadMaxRetry)
    } else if bytes_eq(name, "READ_IMCOMPLETE_SIZE".as_bytes()) {
        Some(Setting::ReadImcompleteSize)
    } else if bytes_eq(name, "ZERO_COPY_THRESHOLD".as_bytes()) {
        Some(Setting::ZeroCopyThreshold)
    } else if bytes_eq(name, "ENABLE_FILE_CACHE".as_bytes()) {
        Some(Setting::EnableFileCache)
    } else {
        None
    }
}

impl Options {
    /// Whether a variable named `name` with the text `value` changes the
    /// options: it names a setting, and the text can be read as that setting
    /// wants it, as a switch, as a number that fits, or as a path.
    pub open spec fn takes(name: Seq<u8>, value: Seq<u8>) -> bool {
        match setting_of(name) {
            Some(Setting::NoDelay) => switch_of(value) is Some,
            Some(Setting::EnableFileCache) => switch_of(value) is Some,
            Some(Setting::RootPath) => true,
            Some(Setting::ReadMaxRetry) => number_of_text(value) matches Some(n) && n <= u8::MAX,
            Some(_) => number_of_text(value) is Some,
            None => false,
        }
    }

    /// Applies one variable of the environment: where `name` names a
    /// setting and `value` can be read as that setting wants it, the setting
    /// is changed, and no other is; otherwise the options stay as they are.
    pub fn set_from_env(&mut self, name: &str, value: &str) -> (changed: bool)
        ensures
            changed == Options::takes(utf8(name@), utf8(value@)),
            final(self).current_client_addr == old(self).current_client_addr,
            final(self).no_delay == if setting_of(utf8(name@)) == Some(Setting::NoDelay)
                && changed {
                switch_of(utf8(value@))->Some_0
            } else {
                old(self).no_delay
            },
            final(self).enable_file_cache == if setting_of(utf8(name@)) == Some(
                Setting::EnableFileCache,
            ) && changed {
                switch_of(utf8(value@))->Some_0
            } else {
                old(self).enable_file_cache
            },
            final(self).root_path@ == if setting_of(utf8(name@)) == Some(Setting::RootPath) {
                value@
            } else {
                old(self).root_path@
            },
            final(self).read_timeout_miliseconds == if setting_of(utf8(name@)) == Some(
                Setting::ReadTimeoutMiliseconds,
            ) && changed {
                number_of_text(utf8(value@))->Some_0 as u64
            } else {
                old(self).read_timeout_miliseconds
            },
            final(self).read_buffer_size == if setting_of(utf8(name@)) == Some(
                Setting::ReadBufferSize,
            ) && changed {
                number_of_text(utf8(value@))->Some_0
            } else {
                old(self).read_buffer_size
            },
            final(self).read_max_retry == if setting_of(utf8(name@)) == Some(Setting::ReadMaxRetry)
                && changed {
                number_of_text(utf8(value@))->Some_0 as u8
            } else {
                old(self).read_max_retry
            },
            final(self).read_imcomplete_size == if setting_of(utf8(name@)) == Some(
                Setting::ReadImcompleteSize,
            ) && changed {
                number_of_text(utf8(value@))->Some_0
            } else {
                old(self).read_imcomplete_size
            },
            final(self).zero_copy_threshold == if setting_of(utf8(name@)) == Some(
                Setting::ZeroCopyThreshold,
            ) && changed {
                number_of_text(utf8(value@))->Some_0
            } else {
                old(self).zero_copy_threshold
            },
    {
        let text: &[u8] = value.as_bytes();
        assert(text@.subrange(0, text@.len() as int) =~= text@);
        match setting_named(name.as_bytes()) {
            None => false,
            Some(Setting::NoDelay) => match parse_switch(text) {
                Some(on) => {
                    self.no_delay = on;
                    true
                },
                None => false,
            },
            Some(Setting::EnableFileCache) => match parse_switch(text) {
                Some(on) => {
                    self.enable_file_cache = on;
                    true
                },
                None => false,
            },
            Some(Setting::RootPath) => {
                self.root_path = value.to_owned();
                true
            },
            Some(Setting::ReadTimeoutMiliseconds) => match parse_number(text, 0, text.len()) {
                Some(n) => {
                    self.read_timeout_miliseconds = n as u64;
                    true
                },
                None => false,
            },
            Some(Setting::ReadBufferSize) => match parse_number(text, 0, text.len()) {
                Some(n) => {
                    self.read_buffer_size = n;
                    true
                },
                None => false,
            },
            Some(Setting::ReadMaxRetry) => match parse_number(text, 0, text.len()) {
                Some(n) => {
                    if n <= 255 {
                        self.read_max_retry = n as u8;
                        true
                    } else {
                        false
                    }
                },
                None => false,
            },
            Some(Setting::ReadImcompleteSize) => match parse_number(text, 0, text.len()) {
                Some(n) => {
                    self.read_imcomplete_size = n;
                    true
                },
                None => false,
            },
            Some(Setting::ZeroCopyThreshold) => match parse_number(text, 0, text.len()) {
                Some(n) => {
                    self.zero_copy_threshold = n;
                    true
                },
                None => false,
            },
        }
    }
}

/// What the `urlencoding` crate makes of a percent-encoded path: the
/// decoded text, where what the path decodes to is UTF-8.
pub uninterp spec fn percent_decoded(path: Seq<char>) -> Option<Seq<char>>;

/// `urlencoding::decode`: the text that the percent-encoded `path` stands
/// for; none where what it decodes to is not UTF-8.
#[verifier::external_body]
pub(crate) fn url_decode(path: &str) -> (r: Option<String>)
    ensures
        match r {
            Some(text) => percent_decoded(path@) == Some(text@),
            None => percent_decoded(path@) is None,
        },
{
    urlencoding::decode(path).ok().map(|decoded| decoded.into_owned())
}

/// What a percent-encoded path that is given as bytes decodes to; a path
/// that is not well-formed UTF-8 decodes to nothing.
pub open spec fn decoded_bytes(path: Seq<u8>) -> Option<Seq<u8>> {
    if vstd::utf8::valid_utf8(path) {
        match percent_decoded(vstd::utf8::decode_utf8(path)) {
            Some(text) => Some(utf8(text)),
            None => None,
        }
    } else {
        None
    }
}

/// Decodes a percent-encoded path that is given as bytes.
pub fn url_decode_bytes(path: &[u8]) -> (r: Option<Vec<u8>>)
    ensures
        match r {
            Some(text) => decoded_bytes(path@) == Some(text@),
            None => decoded_bytes(path@) is None,
        },
{
    match as_text(path) {
        Some(text) => {
            proof {
                vstd::utf8::encode_utf8_decode_utf8(text@);
            }
            match url_decode(text) {
                Some(decoded) => Some(to_bytes(decoded.as_str())),
                None => None,
            }
        },
        None => None,
    }
}

/// Where a request for static content leads, as a mathematical value.
pub enum RouteView {
    Respond,
    File(Seq<u8>),
    Index,
}

/// Where a request for static content leads.
#[derive(Debug)]
pub enum Route {
    /// No file: the response goes out as it stands.
    Respond,
    /// The file at this path below the root, if it exists; the index page
    /// otherwise.
    File(Vec<u8>),
    /// The index page.
    Index,
}

impl View for Route {
    type V = RouteView;

    open spec fn view(&self) -> RouteView {
        match self {
            Route::Respond => RouteView::Respond,
            Route::File(path) => RouteView::File(path@),
            Route::Index => RouteView::Index,
        }
    }
}

/// The path of a request without its first byte.
pub open spec fn below_root(path: Seq<u8>) -> Seq<u8> {
    if path.len() > 0 {
        path.subrange(1, path.len() as int)
    } else {
        path
    }
}

/// Whether a request asks for a file by name: it names a host, its path
/// is not `/`, and what follows the first byte of the path holds a dot.
pub open spec fn names_file(has_host: bool, path: Seq<u8>) -> bool {
    has_host && path != seq!['/' as u8] && first_match(below_root(path), seq!['.' as u8]) is Some
}

/// Where a request leads, given what its path decodes to: nowhere
/// without a host or for the path `/`; to the file that the decoded path
/// names where the path holds a dot; to the index page otherwise. `None`
/// where the path of a file cannot be decoded.
pub open spec fn route_with(has_host: bool, path: Seq<u8>, decoded: Option<Seq<u8>>) -> Option<
    RouteView,
> {
    if !has_host || path == seq!['/' as u8] {
        Some(RouteView::Respond)
    } else if names_file(has_host, path) {
        match decoded {
            Some(file) => Some(RouteView::File(file)),
            None => None,
        }
    } else {
        Some(RouteView::Index)
    }
}

/// Where a request leads, given what its path below the root decodes to.
pub fn route_from(has_host: bool, path: &[u8], decoded: Option<Vec<u8>>) -> (r: Option<Route>)
    ensures
        match r {
            Some(route) => route_with(
                has_host,
                path@,
                match decoded {
                    Some(file) => Some(file@),
                    None => None,
                },
            ) == Some(route@),
            None => route_with(
                has_host,
                path@,
                match decoded {
                    Some(file) => Some(file@),
                    None => None,
                },
            ) is None,
        },
{
    let slash: [u8; 1] = ['/' as u8];
    let dot: [u8; 1] = ['.' as u8];
    assert(slash@ =~= seq!['/' as u8]);
    assert(dot@ =~= seq!['.' as u8]);
    if !has_host || bytes_eq(path, slash.as_slice()) {
        return Some(Route::Respond);
    }
    let start: usize = if path.len() > 0 {
        1
    } else {
        0
    };
    let below = vstd::slice::slice_subrange(path, start, path.len());
    assert(below@ =~= below_root(path@));
    if find_from(below, dot.as_slice(), 0).is_some() {
        match decoded {
            Some(file) => Some(Route::File(file)),
            None => None,
        }
    } else {
        Some(Route::Index)
    }
}

/// Where a request with the given path leads; `has_host` says whether it
/// names a host.
pub fn route(has_host: bool, path: &[u8]) -> (r: Option<Route>)
    ensures
        match r {
            Some(found) => route_with(has_host, path@, decoded_bytes(below_root(path@))) == Some(
                found@,
            ),
            None => route_with(has_host, path@, decoded_bytes(below_root(path@))) is None,
        },
{
    let start: usize = if path.len() > 0 {
        1
    } else {
        0
    };
    let below = vstd::slice::slice_subrange(path, start, path.len());
    assert(below@ =~= below_root(path@));
    route_from(has_host, path, url_decode_bytes(below))
}

} // verus!
