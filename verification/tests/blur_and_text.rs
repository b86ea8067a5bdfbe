use super_native_extensions::blur::blur_image_data;
use super_native_extensions::decimal::{append_decimal, decimal_string, parse_i64};
use super_native_extensions::error::{unknown_method_error, ClipboardError, NativeExtensionsError};

#[test]
fn blur_gradient_three_by_three() {
    let mut pixels = vec![10u8, 20, 30, 40, 50, 60, 70, 80, 90];
    blur_image_data(&mut pixels, 0, 0, 3, 3, 1);
    assert_eq!(pixels, vec![19, 27, 34, 42, 50, 57, 64, 72, 79]);
}

#[test]
fn blur_single_bright_pixel_spreads() {
    let mut pixels = vec![0u8; 16];
    pixels[5] = 255;
    blur_image_data(&mut pixels, 0, 0, 4, 4, 1);
    assert_eq!(pixels, vec![15, 31, 15, 0, 31, 63, 31, 0, 15, 31, 15, 0, 0, 0, 0, 0]);
}

#[test]
fn blur_radius_two() {
    let mut pixels = vec![
        100u8, 0, 200, 50, 25, 75, 255, 128, 0, 10, 20, 30, 40, 50, 60, 70, 80, 90, 100, 110,
    ];
    blur_image_data(&mut pixels, 0, 0, 5, 4, 2);
    assert_eq!(
        pixels,
        vec![89, 89, 89, 64, 43, 83, 89, 85, 64, 47, 69, 77, 77, 70, 63, 68, 76, 81, 83, 84]
    );
}

#[test]
fn blur_keeps_uniform_image() {
    let mut pixels = vec![7u8; 6];
    blur_image_data(&mut pixels, 0, 0, 3, 2, 1);
    assert_eq!(pixels, vec![7; 6]);
}

#[test]
fn blur_two_rows() {
    let mut pixels = vec![0u8, 100, 200, 100, 0, 0];
    blur_image_data(&mut pixels, 0, 0, 3, 2, 1);
    assert_eq!(pixels, vec![37, 81, 131, 62, 43, 43]);
}

#[test]
fn blur_leaves_bytes_after_the_image() {
    let mut pixels = vec![0u8, 100, 200, 100, 0, 0, 9, 9, 9];
    blur_image_data(&mut pixels, 0, 0, 3, 2, 1);
    assert_eq!(&pixels[..6], &[37, 81, 131, 62, 43, 43]);
    assert_eq!(&pixels[6..], &[9, 9, 9]);
}

#[test]
fn decimal_strings() {
    assert_eq!(decimal_string(0), "0");
    assert_eq!(decimal_string(7), "7");
    assert_eq!(decimal_string(1234567890), "1234567890");
    assert_eq!(decimal_string(-42), "-42");
    assert_eq!(decimal_string(i64::MIN), "-9223372036854775808");
    assert_eq!(decimal_string(i64::MAX), "9223372036854775807");
    let mut s = String::from("id=");
    append_decimal(&mut s, 15);
    assert_eq!(s, "id=15");
}

#[test]
fn parse_numbers_like_std() {
    for text in ["0", "42", "-42", "+42", "007", "-", "+", "", "12a", " 1", "9223372036854775807",
        "9223372036854775808", "-9223372036854775808", "-9223372036854775809", "99999999999999999999"] {
        assert_eq!(parse_i64(text), text.parse::<i64>().ok(), "{}", text);
    }
}

#[test]
fn decimal_round_trip() {
    for n in [0i64, 1, -1, 10, 99, -100, 123456789, i64::MIN, i64::MAX] {
        assert_eq!(parse_i64(&decimal_string(n)), Some(n));
    }
}

#[test]
fn error_messages_and_details() {
    assert_eq!(NativeExtensionsError::UnknownError.message(), "unknown error");
    assert_eq!(NativeExtensionsError::DataSourceNotFound.message(), "Platform data source not found");
    assert_eq!(NativeExtensionsError::ReaderNotFound.message(), "platform reader not found");
    assert_eq!(
        NativeExtensionsError::PlatformContextNotFound.message(),
        "platform drag and drop context not found"
    );
    assert_eq!(NativeExtensionsError::UnsupportedOperation.message(), "unsupported operation");
    assert_eq!(NativeExtensionsError::VirtualFileSessionNotFound.message(), "virtual session not found");
    assert_eq!(
        NativeExtensionsError::VirtualFileReceiveError("disk full".into()).message(),
        "virtual file receive error: disk full"
    );
    assert_eq!(NativeExtensionsError::OtherError("a \"b\"".into()).message(), "\"a \\\"b\\\"\"");
    assert_eq!(NativeExtensionsError::MethodCallError("call failed".into()).message(), "call failed");
    assert_eq!(NativeExtensionsError::IOError("io".into()).message(), "io");
    assert_eq!(NativeExtensionsError::EngineContextError("engine".into()).message(), "engine");
    assert_eq!(NativeExtensionsError::InvalidData.message(), "invalid data");
    assert_eq!(NativeExtensionsError::DragSessionNotFound.message(), "drag session not found");
    assert_eq!(NativeExtensionsError::MouseEventNotFound.message(), "mouse event not found");
    assert_eq!(NativeExtensionsError::PlatformMenuNotFound.message(), "platform menu not found");
    assert_eq!(NativeExtensionsError::InvalidMenuElement.message(), "invalid menu element");
    assert_eq!(
        NativeExtensionsError::InvalidMenuConfigurationId.message(),
        "invalid menu configuration id"
    );
    assert_eq!(NativeExtensionsError::UnknownError.get_detail(), "unknownError");
    assert_eq!(NativeExtensionsError::MethodCallError("x".into()).get_detail(), "methodCallError");
    assert_eq!(NativeExtensionsError::OtherError("x".into()).get_detail(), "otherError");
    assert_eq!(NativeExtensionsError::DataSourceNotFound.get_detail(), "dataSourceNotFound");
    assert_eq!(NativeExtensionsError::ReaderNotFound.get_detail(), "readerNotFound");
    assert_eq!(NativeExtensionsError::PlatformContextNotFound.get_detail(), "platformContextNotFound");
    assert_eq!(NativeExtensionsError::UnsupportedOperation.get_detail(), "unsupportedOperation");
    assert_eq!(
        NativeExtensionsError::VirtualFileSessionNotFound.get_detail(),
        "virtualFileSessionNotFound"
    );
    assert_eq!(
        NativeExtensionsError::VirtualFileReceiveError("x".into()).get_detail(),
        "virtualFileReceiveError"
    );
    assert_eq!(NativeExtensionsError::IOError("x".into()).get_detail(), "ioError");
    assert_eq!(NativeExtensionsError::InvalidData.get_detail(), "invalidData");
    assert_eq!(NativeExtensionsError::DragSessionNotFound.get_detail(), "dragSessionNotFound");
    assert_eq!(NativeExtensionsError::MouseEventNotFound.get_detail(), "mouseEventNotFound");
    assert_eq!(NativeExtensionsError::EngineContextError("x".into()).get_detail(), "engineContextError");
    assert_eq!(NativeExtensionsError::PlatformMenuNotFound.get_detail(), "platformMenuNotFound");
    assert_eq!(NativeExtensionsError::InvalidMenuElement.get_detail(), "invalidMenuElement");
    assert_eq!(
        NativeExtensionsError::InvalidMenuConfigurationId.get_detail(),
        "invalidMenuConfigurationId"
    );
}

#[test]
fn platform_error_parts() {
    let parts = NativeExtensionsError::DragSessionNotFound.to_platform_error();
    assert_eq!(parts.code, "super_native_extensions_error");
    assert_eq!(parts.message, "drag session not found");
    assert_eq!(parts.detail, Some("dragSessionNotFound".to_string()));
    let parts = ClipboardError::ReaderNotFound.to_platform_error();
    assert_eq!(parts.code, "clipboard_error");
    assert_eq!(parts.message, "platform reader not found");
    assert_eq!(parts.detail, None);
    assert_eq!(ClipboardError::UnknownError.message(), "unknown error");
    assert_eq!(ClipboardError::OtherError("oops".into()).message(), "\"oops\"");
    let parts = unknown_method_error("frobnicate");
    assert_eq!(parts.code, "invalid_method");
    assert_eq!(parts.message, "Unknown Method: frobnicate");
    assert_eq!(parts.detail, None);
}

#[test]
fn blur_with_offset_reads_what_it_wrote() {
    // Width 2, one row, radius 1, written from index 1 on: the row pass reads
    // its own first output back; the column pass starts from index 1 + x.
    let mut pixels = vec![0u8, 8, 16, 40];
    blur_image_data(&mut pixels, 1, 0, 2, 1, 1);
    assert_eq!(pixels, vec![10, 19, 12, 40]);
}
