use super_native_extensions::android::data_provider::{
    clip_entries_for_provider, content_provider_uri, find_data_for_mime, plan_clip_item, platform_stream_close,
    platform_stream_write, ClipEntry, ClipItemPlan, ClipUri, UriInfo,
};
use super_native_extensions::android::data_source as android_source;
use super_native_extensions::android::drag::{argb_pixels, handle_drag_session_event, DragSessionNotice, HandleEventResult};
use super_native_extensions::android::drag_common::{drag_action_from_code, DragAction};
use super_native_extensions::android::drop::{allowed_operations_or_default, items_from_description, DropSessionTracker, DropStep};
use super_native_extensions::android::keyboard_layout::PlatformKeyboardLayout;
use super_native_extensions::android::util::contains;
use super_native_extensions::api_model::{is_accepting, DataProviderValueId, DataRepresentation, DropOperation, VirtualFileStorage};
use super_native_extensions::darwin::ios::data_provider::{
    deliver_virtual_file, ids_to_precache, item_provider_registrations, platform_stream_close as ios_stream_close,
    platform_stream_write as ios_stream_write, start_virtual_file, ItemRegistration, StreamEntries, StreamEntry, StreamFile, VirtualFileDelivery, VirtualFileStart,
};
use super_native_extensions::darwin::ios::alpha_to_path::{rects_for_alpha, runs, spans_for_line, AlphaRect, Span};
use super_native_extensions::darwin::ios::drag_common as ios_ops;
use super_native_extensions::darwin::ios::keyboard_layout::PlatformKeyboardLayout as IosKeyboardLayout;
use super_native_extensions::darwin::macos::drag_common as mac_ops;
use super_native_extensions::data_provider_manager::VirtualFileResult;
use super_native_extensions::drop_manager::{DropItemId, DropSessionId};
use super_native_extensions::error::NativeExtensionsError;

use super_native_extensions::android::data_provider::{data_for_uri, filter_mime_types, lazy_uri_data, plan_clip_items, uri_readable_formats, UriRead};
use super_native_extensions::api_model::DataProvider;
use super_native_extensions::registry::Registry;
use super_native_extensions::value_promise::ValuePromiseResult;
use super_native_extensions::android::drop::items_from_reader;
use super_native_extensions::android::drag::{require_combined_image, DragSessions};
use super_native_extensions::darwin::macos::data_provider::{file_promise_file_name, virtual_file_info, writable_types};
use super_native_extensions::darwin::macos::util::is_grayscale;
use super_native_extensions::darwin::ios::data_provider::{value_source_for_format, ValueSource};

use super_native_extensions::android::data_source::{clip_entries_for_item, ItemRepresentationKind};
use super_native_extensions::darwin::ios::drop::{accepted_operation, allowed_operations, unique_formats};
use super_native_extensions::darwin::ios::reader::is_bplist;
fn simple(format: &str) -> DataRepresentation<u8> {
    DataRepresentation::Simple { format: format.to_string(), data: 0 }
}

fn lazy(format: &str, id: i64) -> DataRepresentation<u8> {
    DataRepresentation::Lazy { id: DataProviderValueId(id), format: format.to_string() }
}

fn virtual_file(format: &str, id: i64, storage: Option<VirtualFileStorage>) -> DataRepresentation<u8> {
    DataRepresentation::VirtualFile { id: DataProviderValueId(id), format: format.to_string(), storage_suggestion: storage }
}

#[test]
fn android_streams_always_succeed() {
    assert_eq!(platform_stream_write(3, &[1, 2, 3]), 1);
    platform_stream_close(3, true);
    assert_eq!(android_source::platform_stream_write(3, &[]), 1);
    android_source::platform_stream_close(3, false);
    assert!(PlatformKeyboardLayout::new().get_current_layout().is_none());
    assert!(IosKeyboardLayout::new().get_current_map().is_none());
}

#[test]
fn representation_queries() {
    assert!(virtual_file("a", 1, None).is_virtual_file());
    assert!(!lazy("b", 1).is_virtual_file());
    assert_eq!(lazy("text/plain", 2).format(), "text/plain");
    assert_eq!(virtual_file("public.png", 2, None).format(), "public.png");
    assert!(is_accepting(DropOperation::Copy));
    assert!(!is_accepting(DropOperation::Forbidden));
    assert!(!is_accepting(DropOperation::UserCancelled));
    assert!(!is_accepting(DropOperation::NoOperation));
}

#[test]
fn clip_item_plans() {
    let reprs = vec![simple("text/plain"), simple("text/html"), lazy("image/png", 7), virtual_file("x", 8, None)];
    let entries = clip_entries_for_provider(&reprs);
    assert_eq!(entries.len(), 3);
    assert_eq!(entries[2], ClipEntry { format: "image/png".to_string(), lazy: true, source: 2 });
    let mut types = vec!["text/plain".to_string()];
    let plan = plan_clip_item(&entries, &mut types).unwrap();
    assert_eq!(plan, Some(ClipItemPlan { text: Some(0), text_html: Some(1), uri: Some(ClipUri::ContentProvider) }));
    assert_eq!(types, vec!["text/plain".to_string(), "text/html".to_string(), "image/png".to_string()]);

    let uri_first = vec![simple("text/uri-list"), simple("application/json")];
    let mut types = Vec::new();
    let plan = plan_clip_item(&clip_entries_for_provider(&uri_first), &mut types).unwrap();
    assert_eq!(plan, Some(ClipItemPlan { text: None, text_html: None, uri: Some(ClipUri::ContentProvider) }));
    let uri_only = vec![simple("text/uri-list"), simple("text/uri-list")];
    let plan = plan_clip_item(&clip_entries_for_provider(&uri_only), &mut types).unwrap();
    assert_eq!(plan, Some(ClipItemPlan { text: None, text_html: None, uri: Some(ClipUri::FromData(0)) }));

    let html_only = vec![simple("text/html")];
    let err = plan_clip_item(&clip_entries_for_provider(&html_only), &mut Vec::new()).unwrap_err();
    assert_eq!(
        err,
        NativeExtensionsError::OtherError("You must provide plain text fallback for HTML clipboard text".to_string())
    );
    let nothing = vec![virtual_file("x", 1, None)];
    assert_eq!(plan_clip_item(&clip_entries_for_provider(&nothing), &mut Vec::new()), Ok(None));
}

#[test]
fn data_for_content_uri() {
    let reprs = vec![virtual_file("text/plain", 1, None), lazy("text/plain", 2), simple("text/plain")];
    assert_eq!(find_data_for_mime(&reprs, &"text/plain".to_string()), Some(1));
    assert_eq!(find_data_for_mime(&reprs, &"image/png".to_string()), None);
}

#[test]
fn content_uris_round_trip() {
    let uri = content_provider_uri(&"com.example.app".to_string(), 42);
    assert_eq!(uri, "content://com.example.app.SuperClipboardDataProvider/42");
    assert_eq!(UriInfo::parse(&uri), Some(UriInfo { data_provider_id: 42 }));
    assert_eq!(UriInfo::parse("content://x/abc"), None);
    assert_eq!(UriInfo::parse("not a uri"), None);
    assert_eq!(UriInfo::parse("mailto:someone@example.com"), None);
    let item_uri = android_source::content_provider_uri(&"com.example".to_string(), 5, 3);
    assert_eq!(item_uri, "content://com.example.ClipboardDataProvider/5/3");
    assert_eq!(
        android_source::UriInfo::parse(&item_uri),
        Some(android_source::UriInfo { data_source_id: 5, index: 3 })
    );
    assert_eq!(android_source::UriInfo::parse("content://com.example.ClipboardDataProvider/5"), None);
    assert_eq!(android_source::UriInfo::parse("content://com.example.ClipboardDataProvider/5/-1"), None);
    assert_eq!(
        android_source::UriInfo::parse("content://com.example.ClipboardDataProvider/5/+3"),
        Some(android_source::UriInfo { data_source_id: 5, index: 3 })
    );
    assert_eq!(
        android_source::UriInfo::parse(&format!("content://com.example.ClipboardDataProvider/5/{}", usize::MAX)),
        Some(android_source::UriInfo { data_source_id: 5, index: usize::MAX })
    );
    assert_eq!(
        android_source::UriInfo::parse(&format!("content://com.example.ClipboardDataProvider/5/{}0", usize::MAX)),
        None
    );
}

#[test]
fn url_path_segments_and_contains() {
    assert_eq!(UriInfo::parse("https://example.com/17/bar"), Some(UriInfo { data_provider_id: 17 }));
    assert_eq!(UriInfo::parse("https://example.com"), None);
    assert_eq!(UriInfo::parse("https://example.com/"), None);
    assert_eq!(UriInfo::parse("data:17"), None);
    assert_eq!(UriInfo::parse("17/bar"), None);
    let list = vec!["a".to_string(), "b".to_string()];
    assert!(contains(&list, "b"));
    assert!(!contains(&list, "c"));
}

#[test]
fn drag_actions_from_codes() {
    assert_eq!(drag_action_from_code(1), Ok(DragAction::DragStarted));
    assert_eq!(drag_action_from_code(2), Ok(DragAction::DragLocation));
    assert_eq!(drag_action_from_code(3), Ok(DragAction::Drop));
    assert_eq!(drag_action_from_code(4), Ok(DragAction::DragEnded));
    assert_eq!(drag_action_from_code(5), Ok(DragAction::DragEntered));
    assert_eq!(drag_action_from_code(6), Ok(DragAction::DragExited));
    assert_eq!(drag_action_from_code(7), Err(NativeExtensionsError::OtherError("Unknown drag action: 7".to_string())));
    assert_eq!(drag_action_from_code(-3), Err(NativeExtensionsError::OtherError("Unknown drag action: -3".to_string())));
}

#[test]
fn drag_session_events() {
    assert_eq!(
        handle_drag_session_event(DragAction::DragLocation, false),
        (Some(DragSessionNotice::Moved), HandleEventResult::KeepSession)
    );
    assert_eq!(
        handle_drag_session_event(DragAction::DragEnded, true),
        (Some(DragSessionNotice::Ended(DropOperation::Copy)), HandleEventResult::RemoveSession)
    );
    assert_eq!(
        handle_drag_session_event(DragAction::DragEnded, false),
        (Some(DragSessionNotice::Ended(DropOperation::NoOperation)), HandleEventResult::RemoveSession)
    );
    assert_eq!(handle_drag_session_event(DragAction::Drop, true), (None, HandleEventResult::KeepSession));
}

#[test]
fn argb_from_rgba() {
    let data = [1u8, 2, 3, 4, 5, 6, 7, 8, 0, 0, 255, 255, 10, 20, 30, 255, 9, 9];
    let pixels = argb_pixels(&data, 2, 2, 9);
    assert_eq!(pixels.len(), 4);
    assert_eq!(pixels[0], 0x04010203);
    assert_eq!(pixels[1], 0x08050607);
    assert_eq!(pixels[2], 0x0A00FFFF);
    assert_eq!(pixels[3], 0x09141EFF);
    let opaque = [255u8, 0, 0, 255];
    assert_eq!(argb_pixels(&opaque, 1, 1, 4), vec![0xFFFF0000u32 as i32]);
}

#[test]
fn drop_sessions() {
    let mut t = DropSessionTracker::new();
    assert_eq!(t.on_drag_event(true, Ok(()), DragAction::DragEntered), Ok((true, DropStep::Nothing)));
    assert_eq!(t.on_drag_event(true, Ok(()), DragAction::DragLocation), Ok((true, DropStep::SendUpdate(DropSessionId(0)))));
    assert_eq!(t.on_drag_event(true, Ok(()), DragAction::Drop), Ok((false, DropStep::Nothing)));
    t.record_update_result(DropSessionId(0), Some(DropOperation::Move));
    assert_eq!(t.on_drag_event(true, Ok(()), DragAction::Drop), Ok((true, DropStep::PerformDrop(DropSessionId(0), DropOperation::Move))));
    t.record_update_result(DropSessionId(0), None);
    assert_eq!(t.on_drag_event(true, Ok(()), DragAction::Drop), Ok((false, DropStep::Nothing)));
    assert_eq!(t.on_drag_event(true, Ok(()), DragAction::DragExited), Ok((true, DropStep::SendLeave(DropSessionId(0)))));
    assert_eq!(t.on_drag_event(true, Ok(()), DragAction::DragEnded), Ok((true, DropStep::SendEnded(DropSessionId(0)))));
    t.record_update_result(DropSessionId(0), Some(DropOperation::Copy));
    assert_eq!(t.on_drag_event(true, Ok(()), DragAction::DragLocation), Ok((true, DropStep::SendUpdate(DropSessionId(1)))));
    assert_eq!(t.on_drag_event(true, Ok(()), DragAction::Drop), Ok((false, DropStep::Nothing)));
}

#[test]
fn drop_events_declined_or_stopped_before_any_send() {
    let mut t = DropSessionTracker::new();
    assert_eq!(t.on_drag_event(false, Ok(()), DragAction::DragLocation), Ok((false, DropStep::Nothing)));
    assert_eq!(
        t.on_drag_event(true, Err(NativeExtensionsError::OtherError("jni".into())), DragAction::DragLocation),
        Err(NativeExtensionsError::OtherError("jni".into()))
    );
    // neither call opened a session: the first handled event gets id 0
    assert_eq!(t.on_drag_event(true, Ok(()), DragAction::DragLocation), Ok((true, DropStep::SendUpdate(DropSessionId(0)))));
    assert_eq!(t.on_drag_event(false, Ok(()), DragAction::DragEnded), Ok((false, DropStep::Nothing)));
    assert_eq!(t.on_drag_event(true, Ok(()), DragAction::DragEnded), Ok((true, DropStep::SendEnded(DropSessionId(0)))));
    assert_eq!(t.on_drag_event(true, Ok(()), DragAction::DragEntered), Ok((true, DropStep::Nothing)));
    assert_eq!(t.on_drag_event(true, Ok(()), DragAction::DragExited), Ok((true, DropStep::SendLeave(DropSessionId(1)))));
}

#[test]
fn drop_items_and_operations() {
    assert_eq!(allowed_operations_or_default(None), vec![DropOperation::Copy]);
    assert_eq!(allowed_operations_or_default(Some(vec![DropOperation::Move])), vec![DropOperation::Move]);
    let types = vec!["text/plain".to_string()];
    let items = items_from_description(Vec::<u8>::new(), &types);
    assert_eq!(items.len(), 1);
    assert_eq!(items[0].item_id, DropItemId(0));
    assert_eq!(items[0].formats, types);
    assert_eq!(items[0].local_data, None);
    let items = items_from_description(vec![10u8, 20], &types);
    assert_eq!(items.len(), 2);
    assert_eq!(items[1].item_id, DropItemId(1));
    assert_eq!(items[1].local_data, Some(20));
    assert_eq!(items[0].local_data, Some(10));
}

#[test]
fn platform_drop_operations() {
    assert_eq!(mac_ops::to_platform(DropOperation::Copy), 1);
    assert_eq!(mac_ops::to_platform(DropOperation::Link), 2);
    assert_eq!(mac_ops::to_platform(DropOperation::Move), 16);
    assert_eq!(mac_ops::to_platform(DropOperation::Forbidden), 0);
    assert_eq!(mac_ops::from_platform(16), DropOperation::Move);
    assert_eq!(mac_ops::from_platform(4), DropOperation::NoOperation);
    assert_eq!(mac_ops::from_platform_mask(u64::MAX), vec![DropOperation::Move, DropOperation::Copy, DropOperation::Link]);
    assert_eq!(mac_ops::from_platform_mask(3), vec![DropOperation::Copy, DropOperation::Link]);
    assert_eq!(mac_ops::from_platform_mask(0), vec![]);
    for op in [DropOperation::Copy, DropOperation::Move, DropOperation::Link] {
        assert_eq!(mac_ops::from_platform(mac_ops::to_platform(op)), op);
    }
    assert_eq!(ios_ops::to_platform(DropOperation::Link), 0);
    assert_eq!(ios_ops::to_platform(DropOperation::Forbidden), 1);
    assert_eq!(ios_ops::to_platform(DropOperation::Copy), 2);
    assert_eq!(ios_ops::to_platform(DropOperation::Move), 3);
    assert_eq!(ios_ops::from_platform(0), DropOperation::NoOperation);
    assert_eq!(ios_ops::from_platform(9), DropOperation::NoOperation);
    for op in [DropOperation::Forbidden, DropOperation::Copy, DropOperation::Move] {
        assert_eq!(ios_ops::from_platform(ios_ops::to_platform(op)), op);
    }
}

struct MemoryFile {
    written: Vec<u8>,
    fail: bool,
}

impl StreamFile for MemoryFile {
    fn write_all(&mut self, data: &[u8]) -> bool {
        if self.fail {
            return false;
        }
        self.written.extend_from_slice(data);
        true
    }
}

#[test]
fn ios_stream_entries() {
    let mut entries: StreamEntries<MemoryFile> = StreamEntries::new();
    let memory = entries.open(StreamEntry::Memory { buffer: Vec::new() });
    let file = entries.open(StreamEntry::file("/tmp/x".to_string(), MemoryFile { written: Vec::new(), fail: false }));
    let broken = entries.open(StreamEntry::file("/tmp/y".to_string(), MemoryFile { written: Vec::new(), fail: true }));
    assert_eq!((memory, file, broken), (0, 1, 2));
    assert_eq!(ios_stream_write(&mut entries, memory, &[1, 2]), 1);
    assert_eq!(ios_stream_write(&mut entries, memory, &[3]), 1);
    assert_eq!(ios_stream_write(&mut entries, file, &[4]), 1);
    assert_eq!(ios_stream_write(&mut entries, broken, &[5]), 0);
    assert_eq!(ios_stream_write(&mut entries, 9, &[5]), 0);
    assert!(ios_stream_close(&mut entries, memory, false).is_none());
    match ios_stream_close(&mut entries, memory, true) {
        Some(StreamEntry::Memory { buffer }) => assert_eq!(buffer, vec![1, 2, 3]),
        _ => panic!("memory stream expected"),
    }
    assert_eq!(ios_stream_write(&mut entries, memory, &[6]), 0);
    match ios_stream_close(&mut entries, file, true) {
        Some(StreamEntry::File { path, file, .. }) => {
            assert_eq!(path, "/tmp/x");
            assert_eq!(file.written, vec![4]);
        }
        _ => panic!("file stream expected"),
    }
}

#[test]
fn ios_item_provider_plan() {
    let reprs = vec![
        simple("public.utf8-plain-text"),
        lazy("public.png", 3),
        virtual_file("public.jpeg", 4, None),
        virtual_file("public.data", 5, Some(VirtualFileStorage::Memory)),
        virtual_file("public.pdf", 6, Some(VirtualFileStorage::TemporaryFile)),
    ];
    let regs = item_provider_registrations(&reprs);
    assert_eq!(
        regs,
        vec![
            ItemRegistration::Data { format: "public.utf8-plain-text".to_string() },
            ItemRegistration::Data { format: "public.png".to_string() },
            ItemRegistration::FileVirtualFile { format: "public.jpeg".to_string(), id: DataProviderValueId(4) },
            ItemRegistration::MemoryVirtualFile { format: "public.data".to_string(), id: DataProviderValueId(5) },
            ItemRegistration::FileVirtualFile { format: "public.pdf".to_string(), id: DataProviderValueId(6) },
        ]
    );
    let more = vec![lazy("a", 1), lazy("b", 2), simple("c"), lazy("d", 3)];
    assert_eq!(ids_to_precache(&more, &vec![DataProviderValueId(2)]), vec![DataProviderValueId(1), DataProviderValueId(3)]);
}

#[test]
fn ios_virtual_file_delivery() {
    match deliver_virtual_file(VirtualFileResult::Done, Some(7u8)) {
        VirtualFileDelivery::Received { payload, must_use_presenter } => {
            assert_eq!(payload, Some(7));
            assert!(must_use_presenter);
        }
        _ => panic!("received expected"),
    }
    match deliver_virtual_file::<u8>(VirtualFileResult::Error { message: "bad".to_string() }, None) {
        VirtualFileDelivery::Failed { message } => assert_eq!(message, "bad"),
        _ => panic!("failure expected"),
    }
    assert!(matches!(deliver_virtual_file::<u8>(VirtualFileResult::Cancelled, Some(1)), VirtualFileDelivery::Nothing));
}

#[test]
fn alpha_spans_and_rects() {
    let alpha = [[255u8, 200, 0], [129, 255, 128], [0, 255, 255]];
    let mut data = Vec::new();
    for row in alpha.iter() {
        for a in row.iter() {
            data.extend_from_slice(&[1, 2, 3, *a]);
        }
    }
    assert_eq!(spans_for_line(&data, 3, 12, 0), vec![Span { start: 0, end: 1 }]);
    assert_eq!(spans_for_line(&data, 3, 12, 2), vec![Span { start: 1, end: 2 }]);
    assert_eq!(
        rects_for_alpha(&data, 3, 3, 12),
        vec![AlphaRect { x1: 0, y1: 0, x2: 1, y2: 1 }, AlphaRect { x1: 1, y1: 2, x2: 2, y2: 2 }]
    );
    assert_eq!(
        runs(&vec![true, false, true, true, false, true]),
        vec![Span { start: 0, end: 0 }, Span { start: 2, end: 3 }, Span { start: 5, end: 5 }]
    );
    assert_eq!(runs(&vec![false, false]), vec![]);
    assert_eq!(rects_for_alpha(&[], 0, 0, 0), vec![]);
    let two_rows: Vec<u8> = vec![0, 0, 0, 255, 0, 0, 0, 0, 0, 0, 0, 255, 0, 0, 0, 255, 0, 0, 0, 255, 0, 0, 0, 255];
    assert_eq!(
        rects_for_alpha(&two_rows, 3, 2, 12),
        vec![
            AlphaRect { x1: 0, y1: 0, x2: 0, y2: 0 },
            AlphaRect { x1: 2, y1: 0, x2: 2, y2: 0 },
            AlphaRect { x1: 0, y1: 1, x2: 2, y2: 1 },
        ]
    );
}

#[test]
fn android_reader_items_and_multi_provider_clip() {
    let items = items_from_reader(vec![vec!["a".to_string()], vec![], vec!["c".to_string()]], vec![7u8]);
    assert_eq!(items.len(), 3);
    assert_eq!(items[0].local_data, Some(7));
    assert_eq!(items[1].local_data, None);
    assert_eq!(items[2].formats, vec!["c".to_string()]);
    assert_eq!(items[2].item_id, DropItemId(2));
    let items = items_from_reader(Vec::new(), vec![1u8, 2]);
    assert!(items.is_empty());

    let first = clip_entries_for_provider(&vec![simple("text/plain")]);
    let none = clip_entries_for_provider(&vec![virtual_file("v", 1, None)]);
    let second = clip_entries_for_provider(&vec![lazy("image/png", 3), simple("text/plain")]);
    let (items, types) = plan_clip_items(&vec![first.clone(), none, second.clone()]).unwrap();
    assert_eq!(items.len(), 2);
    assert_eq!(items[0].0, 0);
    assert_eq!(items[1].0, 2);
    assert_eq!(items[1].1, ClipItemPlan { text: Some(1), text_html: None, uri: Some(ClipUri::ContentProvider) });
    assert_eq!(types, vec!["text/plain".to_string(), "image/png".to_string()]);
    let bad = clip_entries_for_provider(&vec![simple("text/html")]);
    assert!(plan_clip_items(&vec![first, bad, second]).is_err());
}

#[test]
fn android_drag_sessions() {
    let mut sessions: DragSessions<&str> = DragSessions::new();
    sessions.insert(4, 1, "local");
    assert_eq!(sessions.get_local_data_for_session_id(4), Ok(&"local"));
    assert_eq!(sessions.get_local_data_for_session_id(5), Err(NativeExtensionsError::DragSessionNotFound));
    assert_eq!(sessions.on_drop_event(None, DragAction::DragEnded, true), None);
    assert_eq!(sessions.on_drop_event(Some(4), DragAction::DragLocation, false), Some(DragSessionNotice::Moved));
    assert_eq!(
        sessions.on_drop_event(Some(4), DragAction::DragEnded, true),
        Some(DragSessionNotice::Ended(DropOperation::Copy))
    );
    assert!(sessions.get_local_data_for_session_id(4).is_err());
    assert_eq!(sessions.on_drop_event(Some(4), DragAction::DragEnded, true), None);
    assert_eq!(require_combined_image(Some(3)), Ok(3));
    assert_eq!(
        require_combined_image::<u8>(None),
        Err(NativeExtensionsError::OtherError("Missing combined drag image".to_string()))
    );
}

#[test]
fn mac_pasteboard_items() {
    let reprs = vec![virtual_file("public.jpeg", 4, None), simple("public.utf8-plain-text"), lazy("public.png", 2)];
    assert_eq!(writable_types(&reprs, true), vec!["public.utf8-plain-text".to_string(), "public.png".to_string()]);
    let only_file = vec![virtual_file("public.jpeg", 4, None)];
    assert_eq!(writable_types(&only_file, true), vec!["dev.nativeshell.placeholder-item".to_string()]);
    assert!(writable_types(&only_file, false).is_empty());
    assert_eq!(virtual_file_info(&reprs), Some((DataProviderValueId(4), "public.jpeg".to_string())));
    assert_eq!(virtual_file_info(&vec![simple("a")]), None);
    assert_eq!(file_promise_file_name(&Some("photo.jpg".to_string())), "photo.jpg");
    assert_eq!(file_promise_file_name(&None), "");
    assert!(is_grayscale(&[5, 5, 5, 255, 9, 9, 9, 0, 1, 2]));
    assert!(!is_grayscale(&[5, 5, 6, 255]));
    assert!(is_grayscale(&[]));
}

#[test]
fn ios_value_sources() {
    let reprs = vec![virtual_file("public.png", 1, None), lazy("public.png", 2), simple("public.text"), lazy("public.rtf", 3)];
    let cached = vec![DataProviderValueId(3)];
    assert_eq!(value_source_for_format(&reprs, &"public.png".to_string(), &cached), ValueSource::Fetch(DataProviderValueId(2)));
    assert_eq!(value_source_for_format(&reprs, &"public.text".to_string(), &cached), ValueSource::Simple(2));
    assert_eq!(value_source_for_format(&reprs, &"public.rtf".to_string(), &cached), ValueSource::Precached(DataProviderValueId(3)));
    assert_eq!(value_source_for_format(&reprs, &"public.pdf".to_string(), &cached), ValueSource::NotFound);
}

#[test]
fn data_source_items_and_ios_drop_events() {
    let reprs = vec![
        (ItemRepresentationKind::Simple, vec!["text/plain".to_string(), "text/html".to_string()]),
        (ItemRepresentationKind::Other, vec!["x".to_string()]),
        (ItemRepresentationKind::Lazy, vec!["image/png".to_string()]),
    ];
    let entries = clip_entries_for_item(&reprs);
    assert_eq!(
        entries,
        vec![
            ClipEntry { format: "text/plain".to_string(), lazy: false, source: 0 },
            ClipEntry { format: "text/html".to_string(), lazy: false, source: 0 },
            ClipEntry { format: "image/png".to_string(), lazy: true, source: 2 },
        ]
    );
    let mut types = Vec::new();
    let plan = plan_clip_item(&entries, &mut types).unwrap();
    assert_eq!(plan, Some(ClipItemPlan { text: Some(0), text_html: Some(0), uri: Some(ClipUri::ContentProvider) }));
    assert_eq!(allowed_operations(true), vec![DropOperation::Copy, DropOperation::Move]);
    assert_eq!(allowed_operations(false), vec![DropOperation::Copy]);
    assert_eq!(accepted_operation(true, DropOperation::Move), Some(DropOperation::Move));
    assert_eq!(accepted_operation(false, DropOperation::Move), None);
    let formats = vec!["a".to_string(), "b".to_string(), "a".to_string()];
    assert_eq!(unique_formats(&formats), vec!["a".to_string(), "b".to_string()]);
}

#[test]
fn mac_drag_source_masks_and_endings() {
    assert_eq!(mac_ops::source_operation_mask(&vec![DropOperation::Copy, DropOperation::Move]), 17);
    assert_eq!(mac_ops::source_operation_mask(&vec![]), 0);
    assert_eq!(mac_ops::source_operation_mask(&vec![DropOperation::Forbidden, DropOperation::Link]), 2);
    assert_eq!(mac_ops::drag_ended_operation(17, true), DropOperation::Move);
    assert_eq!(mac_ops::drag_ended_operation(1, false), DropOperation::Copy);
    assert_eq!(mac_ops::drag_ended_operation(0, true), DropOperation::UserCancelled);
    assert_eq!(mac_ops::drag_ended_operation(0, false), DropOperation::NoOperation);
    assert_eq!(mac_ops::drag_ended_operation(8, false), DropOperation::NoOperation);
}

#[test]
fn binary_property_lists() {
    assert!(is_bplist(b"bplist00rest"));
    assert!(is_bplist(b"bplist00"));
    assert!(!is_bplist(b"bplist0"));
    assert!(!is_bplist(b"<?xml version"));
    assert!(!is_bplist(b""));
}

#[test]
fn content_uri_reads() {
    let mut providers: Registry<DataProvider<u32>> = Registry::new();
    providers.insert(
        4,
        9,
        DataProvider {
            representations: vec![
                DataRepresentation::VirtualFile {
                    id: DataProviderValueId(1),
                    format: "text/plain".to_string(),
                    storage_suggestion: None,
                },
                DataRepresentation::Lazy { id: DataProviderValueId(2), format: "text/html".to_string() },
                DataRepresentation::Simple { format: "text/plain".to_string(), data: 77 },
            ],
            suggested_name: None,
        },
    );
    let uri = content_provider_uri(&"com.example".to_string(), 4);
    match data_for_uri(&providers, &uri, &"text/plain".to_string()) {
        Ok(UriRead::Data(d)) => assert_eq!(*d, 77),
        _ => panic!("expected the simple data"),
    }
    match data_for_uri(&providers, &uri, &"text/html".to_string()) {
        Ok(UriRead::Lazy { isolate, id }) => {
            assert_eq!(isolate, 9);
            assert_eq!(id, DataProviderValueId(2));
        },
        _ => panic!("expected the lazy value"),
    }
    assert!(matches!(data_for_uri(&providers, &uri, &"image/png".to_string()), Ok(UriRead::NoData)));
    let gone = content_provider_uri(&"com.example".to_string(), 5);
    assert!(matches!(data_for_uri(&providers, &gone, &"text/plain".to_string()), Ok(UriRead::NoData)));
    match data_for_uri(&providers, "content://com.example.SuperClipboardDataProvider/x", &"text/plain".to_string()) {
        Err(e) => assert_eq!(e, NativeExtensionsError::OtherError("Malformed URI".to_string())),
        _ => panic!("expected the malformed URI error"),
    }
    assert_eq!(lazy_uri_data(Some(ValuePromiseResult::Value { value: 3u32 })), Some(3));
    assert_eq!(lazy_uri_data::<u32>(Some(ValuePromiseResult::Cancelled)), None);
    assert_eq!(lazy_uri_data::<u32>(None), None);
}

#[test]
fn virtual_file_requests_start_only_when_fetching() {
    let mut entries: StreamEntries<MemoryFile> = StreamEntries::new();
    assert!(entries.has_handles_left());
    assert!(matches!(
        start_virtual_file(&mut entries, false, Some(StreamEntry::Memory { buffer: Vec::new() })),
        VirtualFileStart::Nothing
    ));
    match start_virtual_file(&mut entries, true, None) {
        VirtualFileStart::Failed { message } => assert_eq!(message, "Failed to open temporary file for writing"),
        _ => panic!("expected the failure"),
    }
    assert!(matches!(
        start_virtual_file(&mut entries, true, Some(StreamEntry::Memory { buffer: Vec::new() })),
        VirtualFileStart::Request { stream_handle: 0 }
    ));
    assert_eq!(ios_stream_write(&mut entries, 0, &[7]), 1);
    assert!(matches!(
        start_virtual_file(&mut entries, true, Some(StreamEntry::file("/tmp/z".to_string(), MemoryFile { written: Vec::new(), fail: false }))),
        VirtualFileStart::Request { stream_handle: 1 }
    ));
    assert_eq!(ios_stream_write(&mut entries, 1, &[8, 9]), 1);
    match ios_stream_close(&mut entries, 1, true) {
        Some(StreamEntry::File { file, .. }) => assert_eq!(file.written, vec![8, 9]),
        _ => panic!("file stream expected"),
    }
}

#[test]
fn content_uri_mime_types() {
    let mut providers: Registry<DataProvider<u32>> = Registry::new();
    providers.insert(
        4,
        9,
        DataProvider {
            representations: vec![
                DataRepresentation::Simple { format: "text/plain".to_string(), data: 1 },
                DataRepresentation::VirtualFile {
                    id: DataProviderValueId(1),
                    format: "image/png".to_string(),
                    storage_suggestion: None,
                },
                DataRepresentation::Lazy { id: DataProviderValueId(2), format: "text/html".to_string() },
            ],
            suggested_name: None,
        },
    );
    let uri = content_provider_uri(&"com.example".to_string(), 4);
    let formats = uri_readable_formats(&providers, &uri).unwrap();
    assert_eq!(formats, vec!["text/plain".to_string(), "text/html".to_string()]);
    assert_eq!(filter_mime_types(&formats, &vec![false, true]), vec!["text/html".to_string()]);
    assert_eq!(filter_mime_types(&formats, &vec![true]), vec!["text/plain".to_string()]);
    let gone = content_provider_uri(&"com.example".to_string(), 5);
    assert_eq!(uri_readable_formats(&providers, &gone), Ok(vec![]));
    assert_eq!(
        uri_readable_formats(&providers, "not a uri"),
        Err(NativeExtensionsError::OtherError("Malformed URI".to_string()))
    );
}
