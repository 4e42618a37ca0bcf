//! Error types of the library, and the messages they render to.
use vstd::prelude::*;

use crate::text::{concat, concat3, concat4, decimal, u64_to_decimal};

verus! {

/// Errors of the HTTP API.
#[derive(Debug)]
pub enum Error {
    ReqwestError(reqwest::Error),
    ReqwestConnectionError,
    ReqwestTimeoutError,
    ReqwestRedirectError,
    SerdeError { source: serde_json::Error, string: String },
    SerdeSerializationError(serde_json::Error),
    ParsingError(String),
    CBProServerErrorVariant(CBProServerError),
    WebsocketFrameSizeError(WebsocketFrameSizeErrorData),
    RequestBuilderCloningError,
    InvalidSecretLength(hmac::digest::InvalidLength),
}

/// Whether reqwest reports a failed HTTP request as a failure to connect.
pub uninterp spec fn http_failure_is_connect(error: reqwest::Error) -> bool;

/// Whether reqwest reports a failed HTTP request as timed out.
pub uninterp spec fn http_failure_is_timeout(error: reqwest::Error) -> bool;

/// Whether reqwest reports a failed HTTP request as a redirect failure.
pub uninterp spec fn http_failure_is_redirect(error: reqwest::Error) -> bool;

/// reqwest's `Error::is_connect`: whether the error is a connection
/// failure. It reads the error's own kind and source alone, so the answer
/// is named as a function of the error.
#[verifier::external_body]
fn reqwest_is_connect(error: &reqwest::Error) -> (res: bool)
    ensures
        res == http_failure_is_connect(*error),
{
    error.is_connect()
}

/// reqwest's `Error::is_timeout`: whether the error is a timeout. It reads
/// the error's own kind and source alone, so the answer is named as a
/// function of the error.
#[verifier::external_body]
fn reqwest_is_timeout(error: &reqwest::Error) -> (res: bool)
    ensures
        res == http_failure_is_timeout(*error),
{
    error.is_timeout()
}

/// reqwest's `Error::is_redirect`: whether the error comes from following
/// a redirect. It reads the error's own kind alone, so the answer is named
/// as a function of the error.
#[verifier::external_body]
fn reqwest_is_redirect(error: &reqwest::Error) -> (res: bool)
    ensures
        res == http_failure_is_redirect(*error),
{
    error.is_redirect()
}

/// The error a failed HTTP request gives, from what reqwest tells of it: a
/// connection failure, a timeout and a redirection failure get variants of
/// their own, in that order of precedence; any other error is kept.
pub open spec fn reqwest_error_class(error: reqwest::Error, is_connect: bool, is_timeout: bool, is_redirect: bool) -> Error {
    if is_connect {
        Error::ReqwestConnectionError
    } else if is_timeout {
        Error::ReqwestTimeoutError
    } else if is_redirect {
        Error::ReqwestRedirectError
    } else {
        Error::ReqwestError(error)
    }
}

/// The message of an error of the HTTP API.
pub open spec fn error_text(e: Error) -> Seq<char> {
    match e {
        Error::ReqwestError(_) => "HTTP request error"@,
        Error::ReqwestConnectionError => "Connection error"@,
        Error::ReqwestTimeoutError => "Connection has timed out"@,
        Error::ReqwestRedirectError => "Connection redirection error"@,
        Error::SerdeError { .. } => "Error parsing:"@,
        Error::SerdeSerializationError(_) => "Could not serialize"@,
        Error::ParsingError(_) => "Error parsing string: "@,
        Error::CBProServerErrorVariant(err) => "Error from from Coinbase Pro server: "@ + err.message@,
        Error::WebsocketFrameSizeError(_) => "Websocket frame incorrectly sized"@,
        Error::RequestBuilderCloningError => "Request Builder failed to clone"@,
        Error::InvalidSecretLength(_) => "Invalid length of secret string"@,
    }
}

impl Error {
    /// The error a failed HTTP request gives, from what reqwest tells of
    /// it: a connection failure, a timeout and a redirection failure get
    /// variants of their own, in that order of precedence; any other error is
    /// kept as it is.
    pub fn classify_reqwest_error(error: reqwest::Error, is_connect: bool, is_timeout: bool, is_redirect: bool) -> (res: Error)
        ensures
            res == reqwest_error_class(error, is_connect, is_timeout, is_redirect),
    {
        if is_connect {
            return Error::ReqwestConnectionError;
        }
        if is_timeout {
            return Error::ReqwestTimeoutError;
        }
        if is_redirect {
            return Error::ReqwestRedirectError;
        }
        Error::ReqwestError(error)
    }

    /// The error a failed HTTP request gives: see `classify_reqwest_error`.
    pub fn from_reqwest(error: reqwest::Error) -> (res: Error)
        ensures
            res == reqwest_error_class(
                error,
                http_failure_is_connect(error),
                http_failure_is_timeout(error),
                http_failure_is_redirect(error),
            ),
    {
        let is_connect = reqwest_is_connect(&error);
        let is_timeout = reqwest_is_timeout(&error);
        let is_redirect = reqwest_is_redirect(&error);
        Self::classify_reqwest_error(error, is_connect, is_timeout, is_redirect)
    }

    /// The message of the error.
    pub fn message(&self) -> (res: String)
        ensures
            res@ == error_text(*self),
    {
        match self {
            Error::ReqwestError(_) => String::from_str("HTTP request error"),
            Error::ReqwestConnectionError => String::from_str("Connection error"),
            Error::ReqwestTimeoutError => String::from_str("Connection has timed out"),
            Error::ReqwestRedirectError => String::from_str("Connection redirection error"),
            Error::SerdeError { .. } => String::from_str("Error parsing:"),
            Error::SerdeSerializationError(_) => String::from_str("Could not serialize"),
            Error::ParsingError(_) => String::from_str("Error parsing string: "),
            Error::CBProServerErrorVariant(err) => concat("Error from from Coinbase Pro server: ", err.message.as_str()),
            Error::WebsocketFrameSizeError(_) => String::from_str("Websocket frame incorrectly sized"),
            Error::RequestBuilderCloningError => String::from_str("Request Builder failed to clone"),
            Error::InvalidSecretLength(_) => String::from_str("Invalid length of secret string"),
        }
    }
}

impl From<CBProServerError> for Error {
    fn from(err: CBProServerError) -> (res: Error) {
        Error::CBProServerErrorVariant(err)
    }
}

impl vstd::std_specs::convert::FromSpecImpl<CBProServerError> for Error {
    open spec fn obeys_from_spec() -> bool {
        true
    }

    open spec fn from_spec(err: CBProServerError) -> Error {
        Error::CBProServerErrorVariant(err)
    }
}

/// Order options that do not go together.
#[derive(Clone, Copy, PartialEq, Eq, Structural, Debug)]
pub enum OrderError {
    StopOnMarketOrder,
    TimeInForceOnMarketOrder,
    PostOnlyOnMarketOrder,
    PostOnlyInvalid,
}

/// The message of an order error.
pub open spec fn order_error_text(e: OrderError) -> Seq<char> {
    match e {
        OrderError::StopOnMarketOrder => "Cannot apply a stop to a market order"@,
        OrderError::TimeInForceOnMarketOrder => "Time in force cannot be applied to a market order"@,
        OrderError::PostOnlyOnMarketOrder => "Post only is not valid on a market order"@,
        OrderError::PostOnlyInvalid => "Post only cannot be applied to IOC or FOK Time and Force"@,
    }
}

impl OrderError {
    /// The message of the error.
    pub fn message(&self) -> (res: String)
        ensures
            res@ == order_error_text(*self),
    {
        match self {
            OrderError::StopOnMarketOrder => String::from_str("Cannot apply a stop to a market order"),
            OrderError::TimeInForceOnMarketOrder => String::from_str("Time in force cannot be applied to a market order"),
            OrderError::PostOnlyOnMarketOrder => String::from_str("Post only is not valid on a market order"),
            OrderError::PostOnlyInvalid => String::from_str("Post only cannot be applied to IOC or FOK Time and Force"),
        }
    }
}

/// A websocket frame whose size did not match what it announced.
#[derive(Debug)]
pub struct WebsocketFrameSizeErrorData {
    pub len: usize,
    pub expected: usize,
    pub bytes: Vec<u8>,
    pub parsed_length_initial: Option<usize>,
    pub parsed_length: Option<usize>,
    pub parsed_masked: Option<bool>,
}

/// `{:?}` of a list of bytes: `[1, 2, 3]`.
pub open spec fn bytes_debug(bytes: Seq<u8>) -> Seq<char> {
    "["@ + bytes_debug_items(bytes) + "]"@
}

/// The items of `bytes_debug`, separated by ", ".
pub open spec fn bytes_debug_items(bytes: Seq<u8>) -> Seq<char>
    decreases bytes.len(),
{
    if bytes.len() == 0 {
        Seq::empty()
    } else if bytes.len() == 1 {
        decimal(bytes[0] as nat)
    } else {
        bytes_debug_items(bytes.drop_last()) + ", "@ + decimal(bytes.last() as nat)
    }
}

/// `{:?}` of an optional count: `Some(5)` or `None`.
pub open spec fn option_usize_debug(v: Option<usize>) -> Seq<char> {
    match v {
        Some(n) => "Some("@ + decimal(n as nat) + ")"@,
        None => "None"@,
    }
}

/// `{:?}` of an optional flag: `Some(true)`, `Some(false)` or `None`.
pub open spec fn option_bool_debug(v: Option<bool>) -> Seq<char> {
    match v {
        Some(true) => "Some(true)"@,
        Some(false) => "Some(false)"@,
        None => "None"@,
    }
}

/// The message of a frame size error.
pub open spec fn frame_size_text(e: WebsocketFrameSizeErrorData) -> Seq<char> {
    "Frame initialization expected "@ + decimal(e.expected as nat) + " bytes but got "@ + decimal(e.len as nat)
        + ".\nBytes: "@ + bytes_debug(e.bytes@) + "\nInitial Length: "@ + option_usize_debug(e.parsed_length_initial)
        + "\nLength: "@ + option_usize_debug(e.parsed_length) + "\nMasked: "@ + option_bool_debug(e.parsed_masked)
        + "\n"@
}

fn render_bytes(bytes: &Vec<u8>) -> (res: String)
    ensures
        res@ == bytes_debug(bytes@),
{
    let mut res = String::from_str("[");
    let mut i: usize = 0;
    while i < bytes.len()
        invariant
            i <= bytes.len(),
            res@ == "["@ + bytes_debug_items(bytes@.take(i as int)),
        decreases bytes.len() - i,
    {
        let d = u64_to_decimal(bytes[i] as u64);
        assert(bytes@.take(i + 1).drop_last() =~= bytes@.take(i as int));
        if i > 0 {
            res.append(", ");
        } else {
            assert(bytes@.take(i as int) =~= Seq::<u8>::empty());
        }
        res.append(d.as_str());
        i = i + 1;
    }
    assert(bytes@.take(bytes.len() as int) =~= bytes@);
    res.append("]");
    res
}

fn render_option_usize(v: Option<usize>) -> (res: String)
    ensures
        res@ == option_usize_debug(v),
{
    match v {
        Some(n) => {
            let d = u64_to_decimal(n as u64);
            concat3("Some(", d.as_str(), ")")
        },
        None => String::from_str("None"),
    }
}

fn render_option_bool(v: Option<bool>) -> (res: String)
    ensures
        res@ == option_bool_debug(v),
{
    match v {
        Some(true) => String::from_str("Some(true)"),
        Some(false) => String::from_str("Some(false)"),
        None => String::from_str("None"),
    }
}

impl WebsocketFrameSizeErrorData {
    /// The error with these fields.
    pub fn new(
        len: usize,
        expected: usize,
        bytes: Vec<u8>,
        parsed_length_initial: Option<usize>,
        parsed_length: Option<usize>,
        parsed_masked: Option<bool>,
    ) -> (res: Self)
        ensures
            res.len == len,
            res.expected == expected,
            res.bytes@ == bytes@,
            res.parsed_length_initial == parsed_length_initial,
            res.parsed_length == parsed_length,
            res.parsed_masked == parsed_masked,
    {
        WebsocketFrameSizeErrorData { len, expected, bytes, parsed_length_initial, parsed_length, parsed_masked }
    }

    /// The message of the error.
    pub fn message(&self) -> (res: String)
        ensures
            res@ == frame_size_text(*self),
    {
        let mut res = String::from_str("Frame initialization expected ");
        res.append(u64_to_decimal(self.expected as u64).as_str());
        res.append(" bytes but got ");
        res.append(u64_to_decimal(self.len as u64).as_str());
        res.append(".\nBytes: ");
        res.append(render_bytes(&self.bytes).as_str());
        res.append("\nInitial Length: ");
        res.append(render_option_usize(self.parsed_length_initial).as_str());
        res.append("\nLength: ");
        res.append(render_option_usize(self.parsed_length).as_str());
        res.append("\nMasked: ");
        res.append(render_option_bool(self.parsed_masked).as_str());
        res.append("\n");
        res
    }
}

/// An error message from the exchange's server.
#[derive(Debug)]
pub struct CBProServerError {
    pub message: String,
}

impl CBProServerError {
    /// The rendered error.
    pub fn text(&self) -> (res: String)
        ensures
            res@ == "Error from coinbase server: "@ + self.message@,
    {
        concat("Error from coinbase server: ", self.message.as_str())
    }
}

/// A mask was read at a position that a four-byte mask does not have.
#[derive(Debug)]
pub struct IncorrectMaskSize {
    pub expected_length: usize,
    pub received_size: usize,
}

/// The message of a size error: the size expected and the size received.
pub open spec fn sizes_text(expected_length: usize, received_size: usize) -> Seq<char> {
    "Expected size: "@ + decimal(expected_length as nat) + "\nReceived size: "@ + decimal(received_size as nat)
}

fn render_sizes(expected_length: usize, received_size: usize) -> (res: String)
    ensures
        res@ == sizes_text(expected_length, received_size),
{
    let e = u64_to_decimal(expected_length as u64);
    let r = u64_to_decimal(received_size as u64);
    concat4("Expected size: ", e.as_str(), "\nReceived size: ", r.as_str())
}

impl IncorrectMaskSize {
    /// The message of the error.
    pub fn message(&self) -> (res: String)
        ensures
            res@ == sizes_text(self.expected_length, self.received_size),
    {
        render_sizes(self.expected_length, self.received_size)
    }
}

/// A frame ended before the size it announced.
#[derive(Debug)]
pub struct UnexpectedEnd {
    pub expected_length: usize,
    pub received_size: usize,
}

impl UnexpectedEnd {
    /// The message of the error.
    pub fn message(&self) -> (res: String)
        ensures
            res@ == sizes_text(self.expected_length, self.received_size),
    {
        render_sizes(self.expected_length, self.received_size)
    }
}

/// A websocket message that could not be parsed: the message text and the
/// parser's own description of what went wrong.
#[derive(Debug)]
pub struct SerdeJSONParseError {
    pub message: String,
    pub source: String,
}

impl SerdeJSONParseError {
    /// The rendered error.
    pub fn text(&self) -> (res: String)
        ensures
            res@ == "Could not parse into Websocket Message: "@ + self.message@ + "\n"@,
    {
        concat3("Could not parse into Websocket Message: ", self.message.as_str(), "\n")
    }
}

/// Errors of the websocket layer.
///
/// Where an error was caused by another one, `source` holds that error's
/// rendered text, and `context` a rendered description of what was going on.
#[derive(Debug)]
pub enum WebsocketError {
    ToDo,
    IndexingError { index: u8 },
    FrameSize(UnexpectedEnd),
    MaskSize(IncorrectMaskSize),
    NoWebsocketConnectionError,
    ParseError(SerdeJSONParseError),
    URLParseError { source: String, url: String },
    WebsocketIOError { source: String, context: Option<String> },
    WebsocketInitializationError(String),
    SocketAddressError { source: String, url: String },
    NoSocketAddressError { url: String },
    TCPConnectionError { source: String, url: String },
    TLSConnectionError { source: String, url: String },
    WebsocketConnectionError { source: String, url: String },
    WebsocketUpgradeError,
    NoDomainError { url: String },
    StdError(String),
}

/// The message of a websocket error.
pub open spec fn websocket_error_text(e: WebsocketError) -> Seq<char> {
    match e {
        WebsocketError::IndexingError { index } => "Attempted to access out of bounds index: "@ + decimal(index as nat),
        WebsocketError::FrameSize(err) => "Could not parse Websocket Frame, unexpected size\n"@
            + sizes_text(err.expected_length, err.received_size),
        WebsocketError::MaskSize(err) => "Incorrect mask size:\n"@ + decimal(err.received_size as nat),
        WebsocketError::NoWebsocketConnectionError => "Must subscribe to a websocket before reading websocket frame"@,
        WebsocketError::ParseError(err) => "Could not parse Websocket Frame as CoinBase websocket message\n"@
            + err.message@,
        WebsocketError::URLParseError { source, url } => "Failed to parse URL: "@ + url@ + "\nSource error: "@
            + source@,
        WebsocketError::WebsocketIOError { source, context } => "Websocket IO Error\nSource error: "@ + source@
            + "\n"@ + match context {
            Some(ctx) => ctx@,
            None => Seq::empty(),
        },
        WebsocketError::WebsocketInitializationError(err) => "Websocket initialization error: "@ + err@,
        WebsocketError::SocketAddressError { source, url } =>
            "Socket address failure. Failed to receive socket address for: "@ + url@ + "\nSource error: "@
            + source@,
        WebsocketError::NoSocketAddressError { url } =>
            "Socket address failure. Socket address succeeded but did not return a usable address: "@ + url@,
        WebsocketError::TCPConnectionError { source, url } => "Error establishing TCP connection: "@ + url@
            + "\nSource error: "@ + source@,
        WebsocketError::TLSConnectionError { source, url } => "Error establishing TLS connection: "@ + url@
            + "\nSource error: "@ + source@ + "\n"@,
        WebsocketError::WebsocketConnectionError { source, url } => "Error establishing Websocket connection: "@
            + url@ + "\nSource error: "@ + source@,
        WebsocketError::WebsocketUpgradeError => "Websocket failed to upgrade"@,
        WebsocketError::NoDomainError { url } => "No domain found for url: "@ + url@,
        _ => "Unimplemented Websocket Error"@,
    }
}

impl WebsocketError {
    /// The message of the error.
    pub fn message(&self) -> (res: String)
        ensures
            res@ == websocket_error_text(*self),
    {
        match self {
            WebsocketError::IndexingError { index } => {
                let d = u64_to_decimal(*index as u64);
                concat("Attempted to access out of bounds index: ", d.as_str())
            },
            WebsocketError::FrameSize(err) => {
                let sizes = err.message();
                concat("Could not parse Websocket Frame, unexpected size\n", sizes.as_str())
            },
            WebsocketError::MaskSize(err) => {
                let d = u64_to_decimal(err.received_size as u64);
                concat("Incorrect mask size:\n", d.as_str())
            },
            WebsocketError::NoWebsocketConnectionError => {
                String::from_str("Must subscribe to a websocket before reading websocket frame")
            },
            WebsocketError::ParseError(err) => {
                concat("Could not parse Websocket Frame as CoinBase websocket message\n", err.message.as_str())
            },
            WebsocketError::URLParseError { source, url } => {
                concat4("Failed to parse URL: ", url.as_str(), "\nSource error: ", source.as_str())
            },
            WebsocketError::WebsocketIOError { source, context } => {
                let mut text = concat3("Websocket IO Error\nSource error: ", source.as_str(), "\n");
                match context {
                    Some(ctx) => {
                        text.append(ctx.as_str());
                    },
                    None => {
                        assert(text@ + Seq::<char>::empty() =~= text@);
                    },
                }
                text
            },
            WebsocketError::WebsocketInitializationError(err) => {
                concat("Websocket initialization error: ", err.as_str())
            },
            WebsocketError::SocketAddressError { source, url } => {
                concat4(
                    "Socket address failure. Failed to receive socket address for: ",
                    url.as_str(),
                    "\nSource error: ",
                    source.as_str(),
                )
            },
            WebsocketError::NoSocketAddressError { url } => {
                concat(
                    "Socket address failure. Socket address succeeded but did not return a usable address: ",
                    url.as_str(),
                )
            },
            WebsocketError::TCPConnectionError { source, url } => {
                concat4("Error establishing TCP connection: ", url.as_str(), "\nSource error: ", source.as_str())
            },
            WebsocketError::TLSConnectionError { source, url } => {
                let mut text = concat4(
                    "Error establishing TLS connection: ",
                    url.as_str(),
                    "\nSource error: ",
                    source.as_str(),
                );
                text.append("\n");
                text
            },
            WebsocketError::WebsocketConnectionError { source, url } => {
                concat4(
                    "Error establishing Websocket connection: ",
                    url.as_str(),
                    "\nSource error: ",
                    source.as_str(),
                )
            },
            WebsocketError::WebsocketUpgradeError => String::from_str("Websocket failed to upgrade"),
            WebsocketError::NoDomainError { url } => concat("No domain found for url: ", url.as_str()),
            _ => String::from_str("Unimplemented Websocket Error"),
        }
    }
}

impl From<UnexpectedEnd> for WebsocketError {
    fn from(err: UnexpectedEnd) -> (res: WebsocketError) {
        WebsocketError::FrameSize(err)
    }
}

impl vstd::std_specs::convert::FromSpecImpl<UnexpectedEnd> for WebsocketError {
    open spec fn obeys_from_spec() -> bool {
        true
    }

    open spec fn from_spec(err: UnexpectedEnd) -> WebsocketError {
        WebsocketError::FrameSize(err)
    }
}

impl From<IncorrectMaskSize> for WebsocketError {
    fn from(err: IncorrectMaskSize) -> (res: WebsocketError) {
        WebsocketError::MaskSize(err)
    }
}

impl vstd::std_specs::convert::FromSpecImpl<IncorrectMaskSize> for WebsocketError {
    open spec fn obeys_from_spec() -> bool {
        true
    }

    open spec fn from_spec(err: IncorrectMaskSize) -> WebsocketError {
        WebsocketError::MaskSize(err)
    }
}

impl From<SerdeJSONParseError> for WebsocketError {
    fn from(err: SerdeJSONParseError) -> (res: WebsocketError) {
        WebsocketError::ParseError(err)
    }
}

impl vstd::std_specs::convert::FromSpecImpl<SerdeJSONParseError> for WebsocketError {
    open spec fn obeys_from_spec() -> bool {
        true
    }

    open spec fn from_spec(err: SerdeJSONParseError) -> WebsocketError {
        WebsocketError::ParseError(err)
    }
}

impl From<String> for WebsocketError {
    fn from(err: String) -> (res: WebsocketError) {
        WebsocketError::WebsocketInitializationError(err)
    }
}

impl vstd::std_specs::convert::FromSpecImpl<String> for WebsocketError {
    open spec fn obeys_from_spec() -> bool {
        true
    }

    open spec fn from_spec(err: String) -> WebsocketError {
        WebsocketError::WebsocketInitializationError(err)
    }
}

} // verus!
