use super_native_extensions::api_model::DataProviderId;
use super_native_extensions::clipboard_events_manager::event_handled;
use super_native_extensions::clipboard_reader::{ClipboardReader, ClipboardReaderCall};
use super_native_extensions::context::{Context, ThreadContext};
use super_native_extensions::data_provider_manager::{DataProviderHandle, DataProviderManager, VirtualFileResult, VirtualSessionHandle};
use super_native_extensions::data_source_manager::DataSourceManager;
use super_native_extensions::drag_manager::{get_local_data, DragManager};
use super_native_extensions::drop_manager::{DropManager, IsolateContexts};
use super_native_extensions::error::{ClipboardError, NativeExtensionsError};
use super_native_extensions::hot_key_manager::{carbon_modifiers, CarbonHotKeys, HotKeyCreateRequest, HotKeyHandle, HotKeyManager};
use super_native_extensions::keyboard_layout_manager::KeyboardLayoutManager;
use super_native_extensions::value_promise::{ValuePromise, ValuePromiseResult};
use super_native_extensions::writer_manager::ClipboardWriterManager;

#[test]
fn providers_get_fresh_ids_and_are_found() {
    let mut m: DataProviderManager<&str, u32> = DataProviderManager::new();
    let a = m.register_provider("a", 1).unwrap();
    let b = m.register_provider("b", 2).unwrap();
    assert_eq!(a, DataProviderId(1));
    assert_eq!(b, DataProviderId(2));
    assert_eq!(m.get_platform_data_provider(a), Ok(&"a"));
    assert_eq!(m.get_platform_data_provider(b), Ok(&"b"));
    m.unregister_provider(a).unwrap();
    assert_eq!(m.get_platform_data_provider(a), Err(NativeExtensionsError::DataSourceNotFound));
    assert_eq!(m.get_platform_data_provider(DataProviderId(99)), Err(NativeExtensionsError::DataSourceNotFound));
}

#[test]
fn providers_for_a_write_are_all_looked_up() {
    let mut m: DataProviderManager<&str, u32> = DataProviderManager::new();
    let a = m.register_provider("a", 1).unwrap();
    let b = m.register_provider("b", 1).unwrap();
    assert_eq!(m.providers_for(&vec![b, a, b]), Ok(vec![&"b", &"a", &"b"]));
    assert_eq!(m.providers_for(&vec![]), Ok(vec![]));
    assert_eq!(
        m.providers_for(&vec![a, DataProviderId(7), b]),
        Err(NativeExtensionsError::DataSourceNotFound)
    );
}

#[test]
fn sessions_share_the_id_counter() {
    let mut m: DataProviderManager<&str, u32> = DataProviderManager::new();
    let a = m.register_provider("a", 1).unwrap();
    let (session, handle) = m.get_virtual_file(1, 7);
    assert_eq!(a, DataProviderId(1));
    assert_eq!(session, 2);
    let b = m.register_provider("b", 1).unwrap();
    assert_eq!(b, DataProviderId(3));
    let mut handle = handle;
    assert_eq!(handle.dispose(), Some((1, 2)));
    assert_eq!(handle.dispose(), None);
    assert_eq!(handle.release(), None);
}

#[test]
fn released_handle_asks_to_cancel() {
    let handle = VirtualSessionHandle::new(4, 9);
    assert_eq!(handle.release(), Some((4, 9)));
}

#[test]
fn completed_session_reports_unknown_size_once() {
    let mut m: DataProviderManager<(), &str> = DataProviderManager::new();
    let (s1, _h1) = m.get_virtual_file(5, "first");
    let (s2, _h2) = m.get_virtual_file(5, "second");
    assert_eq!(m.virtual_file_update_progress(s1), Ok(&"first"));
    assert_eq!(m.virtual_file_size_known(s2), Ok(&"second"));
    let end = m.virtual_file_complete(s1).ok().unwrap();
    assert_eq!(end.callbacks, "first");
    assert!(end.report_unknown_size);
    assert_eq!(end.result, VirtualFileResult::Done);
    let end = m.virtual_file_error(s2, "broken".to_string()).ok().unwrap();
    assert!(!end.report_unknown_size);
    assert_eq!(end.result, VirtualFileResult::Error { message: "broken".to_string() });
    assert_eq!(m.virtual_file_cancel(s1).err(), Some(NativeExtensionsError::VirtualFileSessionNotFound));
    assert_eq!(m.virtual_file_update_progress(s2), Err(NativeExtensionsError::VirtualFileSessionNotFound));
    assert_eq!(m.virtual_file_size_known(s2).err(), Some(NativeExtensionsError::VirtualFileSessionNotFound));
}

#[test]
fn destroyed_isolate_loses_providers_and_sessions() {
    let mut m: DataProviderManager<&str, &str> = DataProviderManager::new();
    let a = m.register_provider("a", 1).unwrap();
    let b = m.register_provider("b", 2).unwrap();
    let (s1, _h1) = m.get_virtual_file(1, "one");
    let (s2, _h2) = m.get_virtual_file(2, "two");
    let ended = m.on_isolate_destroyed(1);
    assert_eq!(ended.len(), 1);
    assert_eq!(ended[0].callbacks, "one");
    assert!(ended[0].report_unknown_size);
    assert_eq!(ended[0].result, VirtualFileResult::Cancelled);
    assert_eq!(m.get_platform_data_provider(a), Err(NativeExtensionsError::DataSourceNotFound));
    assert_eq!(m.get_platform_data_provider(b), Ok(&"b"));
    assert!(m.virtual_file_update_progress(s1).is_err());
    assert_eq!(m.virtual_file_update_progress(s2), Ok(&"two"));
}

#[test]
fn data_sources_and_their_sessions() {
    let mut m: DataSourceManager<&str, &str> = DataSourceManager::new();
    assert_eq!(m.register_source("s", 1), Ok(1));
    assert_eq!(m.get_platform_data_source(1), Ok(&"s"));
    let session = m.get_virtual_file(1, "cb");
    assert_eq!(session, 2);
    assert_eq!(m.virtual_file_update_progress(session), Ok(&"cb"));
    let end = m.finish_virtual_file(session, Err("no space".to_string())).ok().unwrap();
    assert_eq!(end, ("cb", Err("no space".to_string())));
    assert!(m.finish_virtual_file(session, Ok(())).is_err());
    let other = m.get_virtual_file(1, "other");
    assert_eq!(m.cancel_virtual_file(other), Some((1, "other")));
    assert_eq!(m.cancel_virtual_file(other), None);
    m.on_isolate_destroyed(1);
    assert_eq!(m.get_platform_data_source(1), Err(NativeExtensionsError::DataSourceNotFound));
    assert_eq!(m.unregister_source(1), Ok(()));
}

#[test]
fn hot_keys_by_isolate() {
    let mut m = HotKeyManager::new();
    let h1 = m.next_handle();
    assert_eq!(h1, HotKeyHandle(1));
    assert_eq!(m.complete_create(10, h1, Ok(())), Ok(Some(h1)));
    let h2 = m.next_handle();
    assert_eq!(h2, HotKeyHandle(2));
    assert_eq!(
        m.complete_create(10, h2, Err(NativeExtensionsError::UnsupportedOperation)),
        Ok(None)
    );
    let h3 = m.next_handle();
    assert_eq!(
        m.complete_create(11, h3, Err(NativeExtensionsError::InvalidData)),
        Err(NativeExtensionsError::InvalidData)
    );
    assert_eq!(m.isolate_for(h1), Some(10));
    assert_eq!(m.isolate_for(h2), None);
    let h4 = m.next_handle();
    m.complete_create(11, h4, Ok(())).unwrap();
    let removed = m.on_isolate_destroyed(10);
    assert_eq!(removed, vec![h1]);
    assert_eq!(m.isolate_for(h1), None);
    assert_eq!(m.isolate_for(h4), Some(11));
    m.destroy_hot_key(h4);
    assert_eq!(m.isolate_for(h4), None);
}

#[test]
fn carbon_modifier_bits() {
    let none = HotKeyCreateRequest { alt: false, shift: false, meta: false, control: false, platform_code: 0 };
    assert_eq!(carbon_modifiers(&none), 0);
    let all = HotKeyCreateRequest { alt: true, shift: true, meta: true, control: true, platform_code: 0 };
    assert_eq!(carbon_modifiers(&all), (1 << 8) | (1 << 9) | (1 << 11) | (1 << 12));
    let cmd_shift = HotKeyCreateRequest { meta: true, shift: true, ..none };
    assert_eq!(carbon_modifiers(&cmd_shift), 0x300);
}

#[test]
fn carbon_hot_keys_lookup() {
    let mut keys: CarbonHotKeys<&str> = CarbonHotKeys::new();
    let id1 = keys.next_carbon_id();
    keys.add(id1, HotKeyHandle(5), "ref5");
    let id2 = keys.next_carbon_id();
    keys.add(id2, HotKeyHandle(6), "ref6");
    assert_eq!((id1, id2), (1, 2));
    assert_eq!(keys.handle_for(2), Some(HotKeyHandle(6)));
    assert_eq!(keys.handle_for(3), None);
    let removed = keys.remove_handle(HotKeyHandle(5)).unwrap();
    assert_eq!((removed.id, removed.key_ref), (1, "ref5"));
    assert_eq!(keys.handle_for(1), None);
    assert!(keys.remove_handle(HotKeyHandle(5)).is_none());
}

#[test]
fn keyboard_layout_listeners() {
    let mut m = KeyboardLayoutManager::new();
    m.get_keyboard_layout(3);
    m.get_keyboard_layout(4);
    m.get_keyboard_layout(3);
    let mut isolates = m.isolates_to_notify();
    isolates.sort();
    assert_eq!(isolates, vec![3, 4]);
    m.on_isolate_destroyed(3);
    assert_eq!(m.isolates_to_notify(), vec![4]);
}

#[test]
fn context_attachments_created_once_and_released_in_reverse() {
    let mut thread: ThreadContext<String> = ThreadContext::new();
    assert!(Context::current(&thread).is_none());
    let context = Context::new(&mut thread);
    assert!(Context::current(&thread).is_some());
    let a = context.get_attachment(&mut thread, 1, || "first".to_string()).clone();
    let b = context.get_attachment(&mut thread, 2, || "second".to_string()).clone();
    let again = context.get_attachment(&mut thread, 1, || "never".to_string()).clone();
    assert_eq!((a.as_str(), b.as_str(), again.as_str()), ("first", "second", "first"));
    let other = Context::get(&thread);
    assert_eq!(other.release_step(&mut thread), None);
    assert!(Context::current(&thread).is_some());
    assert_eq!(context.release_step(&mut thread), Some("second".to_string()));
    assert!(Context::current(&thread).is_some());
    assert_eq!(context.attachment(&thread, 2), None);
    assert_eq!(context.release_step(&mut thread), Some("first".to_string()));
    assert!(Context::current(&thread).is_some());
    assert_eq!(context.release_step(&mut thread), None);
    assert!(Context::current(&thread).is_none());
}

#[test]
fn context_attachments_looked_up_then_inserted() {
    let mut thread: ThreadContext<String> = ThreadContext::new();
    let context = Context::new(&mut thread);
    assert_eq!(context.attachment(&thread, 5), None);
    // the initialiser of 5 asks for 6 first
    context.insert_attachment(&mut thread, 6, "inner".to_string());
    context.insert_attachment(&mut thread, 5, "outer".to_string());
    assert_eq!(context.attachment(&thread, 5), Some(&"outer".to_string()));
    assert_eq!(context.attachment(&thread, 6), Some(&"inner".to_string()));
    context.insert_attachment(&mut thread, 6, "again".to_string());
    assert_eq!(context.attachment(&thread, 6), Some(&"again".to_string()));
    assert_eq!(context.release_step(&mut thread), Some("outer".to_string()));
    assert_eq!(context.release_step(&mut thread), Some("again".to_string()));
    assert_eq!(context.release_step(&mut thread), None);
}

#[test]
fn writer_ids_count_up_without_reuse() {
    let mut m: ClipboardWriterManager<&str> = ClipboardWriterManager::new();
    assert_eq!(m.register_writer("a", 1), Ok(1));
    m.unregister_writer(1).unwrap();
    assert_eq!(m.register_writer("b", 1), Ok(2));
    m.on_isolate_destroyed(1);
    assert_eq!(m.register_writer("c", 2), Ok(3));
}

#[test]
fn drag_and_drop_contexts_by_isolate() {
    let mut drop: DropManager<&str> = DropManager::new();
    assert_eq!(drop.register_drop_formats(1), Err(NativeExtensionsError::PlatformContextNotFound));
    assert!(!drop.contexts.has_context(1));
    drop.contexts.add_context(1, "ctx");
    assert!(drop.contexts.has_context(1));
    assert_eq!(drop.register_drop_formats(1), Ok(&"ctx"));
    drop.contexts.on_isolate_destroyed(1);
    assert!(drop.register_drop_formats(1).is_err());
    let mut drag: DragManager<u8> = DragManager::new();
    assert_eq!(drag.next_session_id().0, 0);
    assert_eq!(drag.next_session_id().0, 1);
    let contexts: IsolateContexts<u8> = IsolateContexts::new();
    assert!(contexts.get_context(3).is_err());
}

#[test]
fn local_data_answers() {
    assert_eq!(get_local_data::<u8>(Ok(5)), Ok(Some(5)));
    assert_eq!(get_local_data::<u8>(Err(NativeExtensionsError::DragSessionNotFound)), Ok(None));
    assert_eq!(get_local_data::<u8>(Err(NativeExtensionsError::InvalidData)), Err(NativeExtensionsError::InvalidData));
}

#[test]
fn promise_gives_its_value_once() {
    let mut p: ValuePromise<u32> = ValuePromise::new();
    assert_eq!(p.try_take(), None);
    p.set_value(3);
    assert_eq!(p.try_take(), Some(ValuePromiseResult::Value { value: 3 }));
    assert_eq!(p.try_take(), None);
    p.set(ValuePromiseResult::Value { value: 4 });
    p.cancel();
    assert_eq!(p.try_take(), Some(ValuePromiseResult::Cancelled));
}

#[test]
fn clipboard_writers() {
    let mut m: ClipboardWriterManager<&str> = ClipboardWriterManager::new();
    assert_eq!(m.register_writer("w", 1), Ok(1));
    assert_eq!(m.register_writer("x", 2), Ok(2));
    assert_eq!(m.writer_for(1), Ok(&"w"));
    m.unregister_writer(1).unwrap();
    assert_eq!(m.writer_for(1), Err(ClipboardError::OtherError("Clipboard not found".to_string())));
    m.on_isolate_destroyed(2);
    assert!(m.writer_for(2).is_err());
}

#[test]
fn clipboard_reader_and_events() {
    let reader = ClipboardReader::new();
    assert_eq!(reader.method_call("newClipboardReader"), ClipboardReaderCall::NewClipboardReader);
    assert_eq!(reader.method_call("other"), ClipboardReaderCall::Unknown);
    assert!(event_handled(Some(true)));
    assert!(!event_handled(Some(false)));
    assert!(!event_handled(None));
}

#[test]
fn provider_handles_release_only_for_live_isolates() {
    let mut drag: DragManager<u8> = DragManager::new();
    drag.contexts.add_context(3, 1);
    let handle = DataProviderHandle::new(3, DataProviderId(8));
    assert_eq!(drag.release_data_provider(handle), Some((3, DataProviderId(8))));
    let orphan = DataProviderHandle::new(4, DataProviderId(9));
    assert_eq!(drag.release_data_provider(orphan), None);
    assert_eq!(DataProviderHandle::new(1, DataProviderId(2)).release(), (1, DataProviderId(2)));
}
