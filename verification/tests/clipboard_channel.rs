//! The clipboard channel, in both directions.

use web_rdp::clipboard::{
    pick_image_format, set_pending_clipboard, set_pending_clipboard_file, set_pending_clipboard_image,
    trigger_remote_file_download, ClipboardFormat, ClipboardNotice, FileContentsRequest, FileDescriptor, FileStep,
    LocalClipboard, RemoteCopyAction, WasmCliprdrBackend, CF_DIB, CF_DIBV5, CF_UNICODETEXT, CHUNK_SIZE,
    FILE_ATTRIBUTE_NORMAL, FILE_CONTENTS_RANGE, FILE_CONTENTS_SIZE,
};

fn format(id: u32) -> ClipboardFormat {
    ClipboardFormat { id, name: None }
}

fn file_list(id: u32) -> ClipboardFormat {
    ClipboardFormat { id, name: Some("FileGroupDescriptorW".to_string()) }
}

fn file(name: &str) -> FileDescriptor {
    FileDescriptor { name: name.to_string(), file_size: None, attributes: None }
}

fn request(flags: u32, index: i32, position: u64, requested_size: u32) -> FileContentsRequest {
    FileContentsRequest { stream_id: 1, index, flags, position, requested_size, data_id: None }
}

#[test]
fn a_text_is_offered_and_sent_in_utf16() {
    let backend = WasmCliprdrBackend::new(true, false);
    let mut local = LocalClipboard::new();
    assert_eq!(backend.on_request_format_list(&local), vec![]);
    assert_eq!(set_pending_clipboard("hé".to_string(), &mut local), vec![format(CF_UNICODETEXT)]);
    assert_eq!(backend.on_request_format_list(&local), vec![format(CF_UNICODETEXT)]);
    assert_eq!(
        backend.on_format_data_request(CF_UNICODETEXT, &local),
        Some(vec![b'h', 0, 0xE9, 0, 0, 0])
    );
    assert_eq!(backend.on_format_data_request(CF_DIB, &local), None);
    assert_eq!(backend.on_format_data_request(CF_DIBV5, &local), None);
}

#[test]
fn without_a_text_an_empty_one_is_sent() {
    let backend = WasmCliprdrBackend::new(true, false);
    assert_eq!(backend.on_format_data_request(CF_UNICODETEXT, &LocalClipboard::new()), Some(vec![0, 0]));
}

#[test]
fn a_disabled_clipboard_answers_with_an_error() {
    let backend = WasmCliprdrBackend::new(false, false);
    let mut local = LocalClipboard::new();
    set_pending_clipboard("x".to_string(), &mut local);
    assert_eq!(backend.on_format_data_request(CF_UNICODETEXT, &local), None);
    set_pending_clipboard_file("f".to_string(), &[1], &mut local);
    assert_eq!(backend.on_file_contents_request(request(FILE_CONTENTS_SIZE, 0, 0, 8), &local), None);
}

#[test]
fn the_later_copy_replaces_the_earlier() {
    let backend = WasmCliprdrBackend::new(true, true);
    let mut local = LocalClipboard::new();
    set_pending_clipboard("x".to_string(), &mut local);
    assert_eq!(set_pending_clipboard_image(&[1, 2], &mut local), vec![format(CF_DIBV5)]);
    assert_eq!(backend.on_request_format_list(&local), vec![format(CF_DIBV5)]);
    assert_eq!(local.text, None);
    let described = set_pending_clipboard_file("a.txt".to_string(), &[1, 2, 3], &mut local);
    assert_eq!(
        described,
        FileDescriptor {
            name: "a.txt".to_string(),
            file_size: Some(3),
            attributes: Some(FILE_ATTRIBUTE_NORMAL),
        }
    );
    assert_eq!(backend.on_request_format_list(&local), vec![]);
}

#[test]
fn capabilities_name_files_only_where_they_are_enabled() {
    assert_eq!(WasmCliprdrBackend::new(true, false).client_capabilities(), 2);
    assert_eq!(WasmCliprdrBackend::new(true, true).client_capabilities(), 6);
}

#[test]
fn a_text_is_preferred_to_an_image_and_an_image_to_files() {
    let mut backend = WasmCliprdrBackend::new(true, true);
    let mut local = LocalClipboard::new();
    let all = [file_list(0xC001), format(CF_DIB), format(CF_DIBV5), format(CF_UNICODETEXT)];
    assert_eq!(backend.on_remote_copy(&all, &mut local), RemoteCopyAction::Paste(CF_UNICODETEXT));
    assert_eq!(backend.on_remote_copy(&all[..3], &mut local), RemoteCopyAction::Paste(CF_DIBV5));
    assert_eq!(backend.on_remote_copy(&all[..2], &mut local), RemoteCopyAction::Paste(CF_DIB));
    assert_eq!(trigger_remote_file_download(&local), None);
    assert_eq!(backend.on_remote_copy(&all[..1], &mut local), RemoteCopyAction::AnnounceFiles);
    assert_eq!(trigger_remote_file_download(&local), Some(0xC001));
    assert_eq!(backend.on_remote_copy(&[format(99)], &mut local), RemoteCopyAction::Nothing);
    assert_eq!(pick_image_format(&[format(CF_DIB)]), Some(CF_DIB));
    assert_eq!(pick_image_format(&[]), None);
}

#[test]
fn what_is_not_enabled_is_not_asked_for() {
    let mut local = LocalClipboard::new();
    let offered = [format(CF_UNICODETEXT), file_list(7)];
    let mut files_only = WasmCliprdrBackend::new(false, true);
    assert_eq!(files_only.on_remote_copy(&offered, &mut local), RemoteCopyAction::AnnounceFiles);
    let mut nothing = WasmCliprdrBackend::new(false, false);
    assert_eq!(nothing.on_remote_copy(&offered, &mut local), RemoteCopyAction::Nothing);
}

#[test]
fn a_text_arrives_as_it_was_copied() {
    let copied = "Grüße 😀";
    let mut local = LocalClipboard::new();
    set_pending_clipboard(copied.to_string(), &mut local);
    let sender = WasmCliprdrBackend::new(true, false);
    let bytes = sender.on_format_data_request(CF_UNICODETEXT, &local).unwrap();
    let mut receiver = WasmCliprdrBackend::new(true, false);
    receiver.on_remote_copy(&[format(CF_UNICODETEXT)], &mut LocalClipboard::new());
    assert_eq!(
        receiver.on_format_data_response(false, &bytes),
        Some(ClipboardNotice::Text(copied.to_string()))
    );
    // Nothing is waited for any more.
    assert_eq!(receiver.on_format_data_response(false, &bytes), None);
}

#[test]
fn an_empty_or_failed_answer_is_dropped() {
    let mut backend = WasmCliprdrBackend::new(true, false);
    let mut local = LocalClipboard::new();
    backend.on_remote_copy(&[format(CF_UNICODETEXT)], &mut local);
    assert_eq!(backend.on_format_data_response(false, &[0, 0]), None);
    backend.on_remote_copy(&[format(CF_UNICODETEXT)], &mut local);
    assert_eq!(backend.on_format_data_response(true, &[b'x', 0]), None);
    assert_eq!(backend.pending_format, None);
}

/// A bitmap of one red pixel, 32 bits, with the short header.
fn red_dib() -> Vec<u8> {
    let mut dib = Vec::new();
    dib.extend_from_slice(&40u32.to_le_bytes());
    dib.extend_from_slice(&1i32.to_le_bytes());
    dib.extend_from_slice(&1i32.to_le_bytes());
    dib.extend_from_slice(&1u16.to_le_bytes());
    dib.extend_from_slice(&32u16.to_le_bytes());
    dib.extend_from_slice(&[0; 24]);
    dib.extend_from_slice(&[0, 0, 255, 255]);
    dib
}

#[test]
fn images_are_converted_both_ways() {
    let mut backend = WasmCliprdrBackend::new(true, false);
    let mut local = LocalClipboard::new();
    backend.on_remote_copy(&[format(CF_DIB)], &mut local);
    let png = match backend.on_format_data_response(false, &red_dib()) {
        Some(ClipboardNotice::Image(png)) => png,
        other => panic!("expected an image, got {other:?}"),
    };
    assert_eq!(&png[..8], &[0x89, b'P', b'N', b'G', 0x0D, 0x0A, 0x1A, 0x0A]);
    set_pending_clipboard_image(&png, &mut local);
    let dib = backend.on_format_data_request(CF_DIBV5, &local).unwrap();
    assert_eq!(dib.len(), 124 + 4);
    assert_eq!(&dib[..4], &124u32.to_le_bytes());
    assert_eq!(&dib[124..], &[0, 0, 255, 255]);
    backend.on_remote_copy(&[format(CF_DIBV5)], &mut local);
    assert!(matches!(
        backend.on_format_data_response(false, &dib),
        Some(ClipboardNotice::Image(p)) if p[..4] == png[..4]
    ));
}

#[test]
fn an_image_that_cannot_be_converted_is_dropped() {
    let mut backend = WasmCliprdrBackend::new(true, false);
    let mut local = LocalClipboard::new();
    backend.on_remote_copy(&[format(CF_DIBV5)], &mut local);
    assert_eq!(backend.on_format_data_response(false, &[1, 2, 3]), None);
    set_pending_clipboard_image(&[1, 2, 3], &mut local);
    assert_eq!(backend.on_format_data_request(CF_DIBV5, &local), None);
}

#[test]
fn each_file_of_a_list_is_asked_for_its_size() {
    let mut backend = WasmCliprdrBackend::new(true, true);
    let requests = backend.on_remote_file_list(&[file("a"), file("b")], Some(5));
    assert_eq!(requests.len(), 2);
    assert_eq!(
        requests[1],
        FileContentsRequest {
            stream_id: 2,
            index: 1,
            flags: FILE_CONTENTS_SIZE,
            position: 0,
            requested_size: 8,
            data_id: Some(5),
        }
    );
}

#[test]
fn stream_numbers_skip_zero() {
    let mut backend = WasmCliprdrBackend::new(true, true);
    backend.next_stream_id = u32::MAX;
    assert_eq!(backend.on_remote_file_list(&[file("a")], None)[0].stream_id, u32::MAX);
    assert_eq!(backend.on_remote_file_list(&[file("a")], None)[0].stream_id, 1);
}

#[test]
fn a_file_is_downloaded_in_chunks() {
    // One client downloads what another offers.
    let chunk = CHUNK_SIZE as usize;
    let contents: Vec<u8> = (0..chunk + 1000).map(|i| (i % 251) as u8).collect();
    let mut offered = LocalClipboard::new();
    set_pending_clipboard_file("big.bin".to_string(), &contents, &mut offered);
    let sender = WasmCliprdrBackend::new(true, true);
    let mut receiver = WasmCliprdrBackend::new(true, true);
    let mut request = receiver.on_remote_file_list(&[file("big.bin")], None)[0];
    let mut sizes = Vec::new();
    let downloaded = loop {
        assert!(sender.contents_request_fits(request, &offered));
        let answer = sender.on_file_contents_request(request, &offered).unwrap();
        match receiver.on_file_contents_response(request.stream_id, false, &answer) {
            FileStep::Request(next) => {
                sizes.push((next.position, next.requested_size));
                request = next;
            }
            FileStep::Download { name, data } => break (name, data),
            FileStep::Nothing => panic!("the download stopped"),
        }
    };
    assert_eq!(sizes, vec![(0, CHUNK_SIZE), (CHUNK_SIZE as u64, 1000)]);
    assert_eq!(downloaded.0, "big.bin");
    assert!(downloaded.1 == contents);
}

#[test]
fn an_empty_file_is_downloaded_at_once() {
    let mut backend = WasmCliprdrBackend::new(true, true);
    backend.on_remote_file_list(&[file("e")], None);
    assert_eq!(
        backend.on_file_contents_response(1, false, &[0; 8]),
        FileStep::Download { name: "e".to_string(), data: vec![] }
    );
}

#[test]
fn a_failed_download_does_not_touch_another() {
    let mut backend = WasmCliprdrBackend::new(true, true);
    backend.on_remote_file_list(&[file("a"), file("b")], None);
    assert_eq!(backend.on_file_contents_response(1, true, &[]), FileStep::Nothing);
    assert_eq!(backend.on_file_contents_response(1, false, &[1; 8]), FileStep::Nothing);
    assert_eq!(backend.on_file_contents_response(7, false, &[1; 8]), FileStep::Nothing);
    match backend.on_file_contents_response(2, false, &[3, 0, 0, 0, 0, 0, 0, 0]) {
        FileStep::Request(r) => assert_eq!((r.index, r.position, r.requested_size), (1, 0, 3)),
        other => panic!("expected a request, got {other:?}"),
    }
}

#[test]
fn a_size_that_is_no_size_ends_the_download() {
    let mut backend = WasmCliprdrBackend::new(true, true);
    backend.on_remote_file_list(&[file("a")], None);
    assert_eq!(backend.on_file_contents_response(1, false, &[1, 2, 3]), FileStep::Nothing);
    assert!(backend.file_transfers.is_empty());
}

#[test]
fn local_files_are_served_by_size_and_range() {
    let backend = WasmCliprdrBackend::new(true, true);
    let mut local = LocalClipboard::new();
    set_pending_clipboard_file("f".to_string(), &[10, 11, 12, 13], &mut local);
    let serve = |r| backend.on_file_contents_request(r, &local);
    assert_eq!(serve(request(FILE_CONTENTS_SIZE, 0, 0, 8)), Some(vec![4, 0, 0, 0, 0, 0, 0, 0]));
    assert_eq!(serve(request(FILE_CONTENTS_RANGE, 0, 1, 2)), Some(vec![11, 12]));
    assert_eq!(serve(request(FILE_CONTENTS_RANGE, 0, 2, 100)), Some(vec![12, 13]));
    assert_eq!(serve(request(FILE_CONTENTS_RANGE, 0, 4, 5)), Some(vec![]));
    assert_eq!(serve(request(FILE_CONTENTS_SIZE, 1, 0, 8)), None);
    assert_eq!(serve(request(FILE_CONTENTS_SIZE, -1, 0, 8)), None);
    assert!(!backend.contents_request_fits(request(FILE_CONTENTS_RANGE, 0, 5, 1), &local));
    assert!(backend.contents_request_fits(request(FILE_CONTENTS_RANGE, 3, 5, 1), &local));
}
