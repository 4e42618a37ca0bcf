use coinbase_pro::errors::{
    CBProServerError, Error, IncorrectMaskSize, OrderError, SerdeJSONParseError, UnexpectedEnd, WebsocketError,
    WebsocketFrameSizeErrorData,
};
use coinbase_pro::mocked::{ArgumentInfo, CallInfo};
use coinbase_pro::text::{i64_to_decimal, u64_to_decimal};

#[test]
fn websocket_error_messages() {
    assert_eq!(WebsocketError::IndexingError { index: 7 }.message(), "Attempted to access out of bounds index: 7");
    assert_eq!(
        WebsocketError::FrameSize(UnexpectedEnd { expected_length: 10, received_size: 3 }).message(),
        "Could not parse Websocket Frame, unexpected size\nExpected size: 10\nReceived size: 3"
    );
    assert_eq!(
        WebsocketError::MaskSize(IncorrectMaskSize { expected_length: 4, received_size: 5 }).message(),
        "Incorrect mask size:\n5"
    );
    assert_eq!(
        WebsocketError::ParseError(SerdeJSONParseError { message: "msg".to_string(), source: "s".to_string() })
            .message(),
        "Could not parse Websocket Frame as CoinBase websocket message\nmsg"
    );
    assert_eq!(
        WebsocketError::WebsocketIOError { source: "io".to_string(), context: None }.message(),
        "Websocket IO Error\nSource error: io\n"
    );
    assert_eq!(
        WebsocketError::WebsocketIOError { source: "io".to_string(), context: Some("ctx".to_string()) }.message(),
        "Websocket IO Error\nSource error: io\nctx"
    );
    assert_eq!(
        WebsocketError::TLSConnectionError { source: "s".to_string(), url: "u".to_string() }.message(),
        "Error establishing TLS connection: u\nSource error: s\n"
    );
    assert_eq!(WebsocketError::NoDomainError { url: "u".to_string() }.message(), "No domain found for url: u");
    assert_eq!(WebsocketError::ToDo.message(), "Unimplemented Websocket Error");
    assert_eq!(WebsocketError::StdError("x".to_string()).message(), "Unimplemented Websocket Error");
    assert_eq!(WebsocketError::WebsocketUpgradeError.message(), "Websocket failed to upgrade");
}

#[test]
fn websocket_error_conversions() {
    let e: WebsocketError = UnexpectedEnd { expected_length: 1, received_size: 0 }.into();
    assert!(matches!(e, WebsocketError::FrameSize(_)));
    let e: WebsocketError = "init".to_string().into();
    assert!(matches!(e, WebsocketError::WebsocketInitializationError(ref s) if s == "init"));
}

#[test]
fn frame_size_error_message() {
    let e = WebsocketFrameSizeErrorData::new(3, 10, vec![1, 2, 255], Some(8), None, Some(true));
    assert_eq!(
        e.message(),
        "Frame initialization expected 10 bytes but got 3.\nBytes: [1, 2, 255]\nInitial Length: Some(8)\nLength: None\nMasked: Some(true)\n"
    );
    let empty = WebsocketFrameSizeErrorData::new(0, 0, vec![], None, None, None);
    assert!(empty.message().contains("Bytes: []\n"));
}

#[test]
fn error_messages() {
    let server = CBProServerError { message: "bad".to_string() };
    assert_eq!(server.text(), "Error from coinbase server: bad");
    let e: Error = server.into();
    assert_eq!(e.message(), "Error from from Coinbase Pro server: bad");
    assert_eq!(Error::ReqwestTimeoutError.message(), "Connection has timed out");
    assert_eq!(OrderError::PostOnlyInvalid.message(), "Post only cannot be applied to IOC or FOK Time and Force");
    assert_eq!(UnexpectedEnd { expected_length: 2, received_size: 1 }.message(), "Expected size: 2\nReceived size: 1");
}

#[test]
fn decimal_rendering() {
    assert_eq!(u64_to_decimal(0), "0");
    assert_eq!(u64_to_decimal(1234567890), "1234567890");
    assert_eq!(u64_to_decimal(u64::MAX), "18446744073709551615");
    assert_eq!(i64_to_decimal(-42), "-42");
    assert_eq!(i64_to_decimal(i64::MIN), "-9223372036854775808");
}

#[test]
fn call_info_called_with() {
    let call = CallInfo::new(
        "header",
        vec![
            ArgumentInfo::new("key", "&str".to_string(), "\"Content-Type\"".to_string()),
            ArgumentInfo::new("value", "&str".to_string(), "\"application/json\"".to_string()),
        ],
    );
    assert!(call.called_with(("key", "\"Content-Type\"")));
    assert!(call.called_with(("value", "\"application/json\"")));
    assert!(!call.called_with(("key", "\"application/json\"")));
    assert_eq!(call.arguments[0].text(), "key: &str = \"Content-Type\"");
}

fn builder_error() -> reqwest::Error {
    match reqwest::Client::new().get("not a url").build() {
        Err(e) => e,
        Ok(_) => panic!("the URL should be refused"),
    }
}

#[test]
fn reqwest_errors_are_classified() {
    assert!(matches!(Error::from_reqwest(builder_error()), Error::ReqwestError(_)));
    assert!(matches!(Error::classify_reqwest_error(builder_error(), true, true, true), Error::ReqwestConnectionError));
    assert!(matches!(Error::classify_reqwest_error(builder_error(), false, true, true), Error::ReqwestTimeoutError));
    assert!(matches!(Error::classify_reqwest_error(builder_error(), false, false, true), Error::ReqwestRedirectError));
    assert!(matches!(Error::classify_reqwest_error(builder_error(), false, false, false), Error::ReqwestError(_)));
}
